//! Two verifiable random functions over the prime-order group of Ed25519: the
//! classical EC-VRF, and a VRF resistant to related-key attacks whose proof is a
//! zero-knowledge argument that two points are linked by inverse exponents.
use vstd::prelude::*;

pub mod ec_vrf;
pub mod group;
pub mod rka_vrf;

verus! {

} // verus!

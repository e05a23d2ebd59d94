use std::time::Instant;

use vrf::ec_vrf;
use vrf::group::{sha512, Point, Scalar};
use vrf::rka_vrf::{self, InversionProof, VrfError};

fn scalar_of(n: u64) -> Scalar {
    let mut b = [0u8; 32];
    b[..8].copy_from_slice(&n.to_le_bytes());
    Scalar::from_bytes(b).unwrap()
}

fn random_point() -> Point {
    Point::generator().mul(&Scalar::random())
}

fn nonzero_scalar() -> Scalar {
    loop {
        let s = Scalar::random();
        if !s.is_zero() {
            return s;
        }
    }
}

#[test]
fn test_valid() {
    let sk = Scalar::random();
    let vk = Point::generator().mul(&sk);
    let x = Scalar::random();
    let output = ec_vrf::VRFOutput::eval(&vk, &sk, &x);
    assert_eq!(true, output.verify(&vk, &x))
}

#[test]
fn test_ed25519_inversion_proof() {
    let g_tilde = random_point();
    let h_tilde = random_point();
    let h = random_point();
    let gamma = nonzero_scalar();
    let delta = Point::generator().mul(&gamma);
    let theta = h.mul(&gamma.invert().unwrap());
    let proof = InversionProof::prove(&Point::generator(), &h, &g_tilde, &h_tilde, &gamma, &delta, &theta).unwrap();
    assert_eq!(true, proof.verify(&Point::generator(), &h, &g_tilde, &h_tilde, &delta, &theta))
}

#[test]
fn test_ed25519_vrf() {
    let sk = nonzero_scalar();
    let vk = Point::generator().mul(&sk);
    let x = random_point();
    let g_tilde = random_point();
    let h_tilde = random_point();
    let output = rka_vrf::VRFOutput::eval(&g_tilde, &h_tilde, &vk, &sk, &x).unwrap();
    assert_eq!(true, output.verify(&g_tilde, &h_tilde, &vk, &x));
}

#[test]
fn bench_ed25519_vrf_1000() {
    let repetition = 1000;
    let sk = nonzero_scalar();
    let vk = Point::generator().mul(&sk);
    let x = random_point();
    let g_tilde = random_point();
    let h_tilde = random_point();

    let eval_time = Instant::now();
    for _ in 0..repetition {
        rka_vrf::VRFOutput::eval(&g_tilde, &h_tilde, &vk, &sk, &x).unwrap();
    }
    let eval_time = eval_time.elapsed();

    let output = rka_vrf::VRFOutput::eval(&g_tilde, &h_tilde, &vk, &sk, &x).unwrap();
    let verify_time = Instant::now();
    for _ in 0..repetition {
        assert_eq!(true, output.verify(&g_tilde, &h_tilde, &vk, &x));
    }
    let verify_time = verify_time.elapsed();
    println!("Evaluate time    : {} ms", (eval_time.as_millis() as f32) / 1000.0);
    println!("Verification time: {} ms", (verify_time.as_millis() as f32) / 1000.0);
}

#[test]
fn ec_vrf_complete_many() {
    for _ in 0..1000 {
        let sk = Scalar::random();
        let vk = Point::generator().mul(&sk);
        let x = Scalar::random();
        assert!(ec_vrf::VRFOutput::eval(&vk, &sk, &x).verify(&vk, &x));
    }
}

#[test]
fn rka_vrf_complete_many() {
    let g_tilde = random_point();
    let h_tilde = random_point();
    for _ in 0..1000 {
        let sk = nonzero_scalar();
        let vk = Point::generator().mul(&sk);
        let x = random_point();
        let out = rka_vrf::VRFOutput::eval(&g_tilde, &h_tilde, &vk, &sk, &x).unwrap();
        assert!(out.verify(&g_tilde, &h_tilde, &vk, &x));
    }
}

#[test]
fn ec_vrf_output_is_deterministic() {
    let sk = Scalar::random();
    let vk = Point::generator().mul(&sk);
    let x = Scalar::random();
    let a = ec_vrf::VRFOutput::eval(&vk, &sk, &x);
    let b = ec_vrf::VRFOutput::eval(&vk, &sk, &x);
    assert_eq!(a.y, b.y);
    assert_eq!(a.y.len(), 64);
    assert_eq!(a.gamma.to_bytes(), b.gamma.to_bytes());
    assert_ne!(a.c.to_bytes(), b.c.to_bytes());
    assert_ne!(a.s.to_bytes(), b.s.to_bytes());
}

#[test]
fn ec_vrf_zero_input_verifies() {
    let sk = Scalar::random();
    let vk = Point::generator().mul(&sk);
    let x = scalar_of(0);
    assert!(ec_vrf::VRFOutput::eval(&vk, &sk, &x).verify(&vk, &x));
}

#[test]
fn rka_vrf_output_is_deterministic() {
    let sk = nonzero_scalar();
    let vk = Point::generator().mul(&sk);
    let x = random_point();
    let g_tilde = random_point();
    let h_tilde = random_point();
    let a = rka_vrf::VRFOutput::eval(&g_tilde, &h_tilde, &vk, &sk, &x).unwrap();
    let b = rka_vrf::VRFOutput::eval(&g_tilde, &h_tilde, &vk, &sk, &x).unwrap();
    assert_eq!(a.y.to_bytes(), b.y.to_bytes());
    assert_eq!(a.u.to_bytes(), b.u.to_bytes());
    assert_ne!(a.r.zl.to_bytes(), b.r.zl.to_bytes());
    assert_ne!(a.r.x.to_bytes(), b.r.x.to_bytes());
}

#[test]
fn rka_vrf_output_ignores_crs() {
    let sk = nonzero_scalar();
    let vk = Point::generator().mul(&sk);
    let x = random_point();
    let a = rka_vrf::VRFOutput::eval(&random_point(), &random_point(), &vk, &sk, &x).unwrap();
    let b = rka_vrf::VRFOutput::eval(&random_point(), &random_point(), &vk, &sk, &x).unwrap();
    assert_eq!(a.y.to_bytes(), b.y.to_bytes());
    assert_eq!(a.u.to_bytes(), b.u.to_bytes());
}

#[test]
fn ec_vrf_rejects_corrupted_fields() {
    let sk = Scalar::random();
    let vk = Point::generator().mul(&sk);
    let x = Scalar::random();
    let one = scalar_of(1);
    let out = ec_vrf::VRFOutput::eval(&vk, &sk, &x);
    let mut bad = ec_vrf::VRFOutput { gamma: out.gamma, c: out.c, s: out.s.add(&one), y: out.y.clone() };
    assert!(!bad.verify(&vk, &x));
    bad.s = out.s;
    bad.c = out.c.add(&one);
    assert!(!bad.verify(&vk, &x));
    bad.c = out.c;
    bad.gamma = out.gamma.add(&Point::generator());
    assert!(!bad.verify(&vk, &x));
    bad.gamma = out.gamma;
    bad.y[0] ^= 1;
    assert!(!bad.verify(&vk, &x));
    bad.y = out.y.clone();
    assert!(bad.verify(&vk, &x));
}

#[test]
fn ec_vrf_rejects_wrong_key_and_input() {
    let sk = Scalar::random();
    let vk = Point::generator().mul(&sk);
    let x = Scalar::random();
    let out = ec_vrf::VRFOutput::eval(&vk, &sk, &x);
    let other_vk = Point::generator().mul(&Scalar::random());
    assert!(!out.verify(&other_vk, &x));
    assert!(!out.verify(&vk, &x.add(&scalar_of(1))));
}

#[test]
fn rka_vrf_rejects_corrupted_fields() {
    let sk = nonzero_scalar();
    let vk = Point::generator().mul(&sk);
    let x = random_point();
    let g_tilde = random_point();
    let h_tilde = random_point();
    let one = scalar_of(1);
    let fresh = || rka_vrf::VRFOutput::eval(&g_tilde, &h_tilde, &vk, &sk, &x).unwrap();

    let mut out = fresh();
    out.u = out.u.add(&Point::generator());
    assert!(!out.verify(&g_tilde, &h_tilde, &vk, &x));
    let mut out = fresh();
    out.y = out.y.add(&one);
    assert!(!out.verify(&g_tilde, &h_tilde, &vk, &x));
    let mut out = fresh();
    out.r.zt = out.r.zt.add(&one);
    assert!(!out.verify(&g_tilde, &h_tilde, &vk, &x));
    let mut out = fresh();
    out.r.zl = out.r.zl.add(&one);
    assert!(!out.verify(&g_tilde, &h_tilde, &vk, &x));
    let mut out = fresh();
    out.r.zr = out.r.zr.add(&one);
    assert!(!out.verify(&g_tilde, &h_tilde, &vk, &x));
    let mut out = fresh();
    out.r.x = out.r.x.add(&one);
    assert!(!out.verify(&g_tilde, &h_tilde, &vk, &x));
    let mut out = fresh();
    out.r.t1_point = out.r.t1_point.add(&Point::generator());
    assert!(!out.verify(&g_tilde, &h_tilde, &vk, &x));
}

#[test]
fn rka_vrf_rejects_wrong_key_and_input() {
    let sk = nonzero_scalar();
    let vk = Point::generator().mul(&sk);
    let x = random_point();
    let g_tilde = random_point();
    let h_tilde = random_point();
    let out = rka_vrf::VRFOutput::eval(&g_tilde, &h_tilde, &vk, &sk, &x).unwrap();
    assert!(!out.verify(&g_tilde, &h_tilde, &random_point(), &x));
    assert!(!out.verify(&g_tilde, &h_tilde, &vk, &random_point()));
}

#[test]
fn zero_secret_is_refused() {
    let zero = scalar_of(0);
    let g = Point::generator();
    let vk = g.mul(&zero);
    let x = random_point();
    assert_eq!(rka_vrf::VRFOutput::eval(&g, &g, &vk, &zero, &x).err(), Some(VrfError::ZeroScalar));
    assert_eq!(InversionProof::prove(&g, &g, &g, &g, &zero, &g, &g).err(), Some(VrfError::ZeroScalar));
}

#[test]
fn inversion_proof_rejects_unrelated_theta() {
    let g_tilde = random_point();
    let h_tilde = random_point();
    let h = random_point();
    let gamma = nonzero_scalar();
    let delta = Point::generator().mul(&gamma);
    let theta = h.mul(&gamma);
    let proof = InversionProof::prove(&Point::generator(), &h, &g_tilde, &h_tilde, &gamma, &delta, &theta).unwrap();
    assert!(!proof.verify(&Point::generator(), &h, &g_tilde, &h_tilde, &delta, &h.mul(&gamma.invert().unwrap())));
    assert!(!proof.verify(&Point::generator(), &h, &h_tilde, &g_tilde, &delta, &theta));
}

#[test]
fn scalar_arithmetic_is_modular() {
    assert_eq!(scalar_of(2).add(&scalar_of(3)).to_bytes(), scalar_of(5).to_bytes());
    assert_eq!(scalar_of(6).mul(&scalar_of(7)).to_bytes(), scalar_of(42).to_bytes());
    assert_eq!(scalar_of(7).sub(&scalar_of(7)).to_bytes(), [0u8; 32]);
    let minus_one = scalar_of(0).sub(&scalar_of(1));
    assert_eq!(minus_one.to_bytes(), scalar_of(1).neg().to_bytes());
    assert_eq!(minus_one.add(&scalar_of(1)).to_bytes(), [0u8; 32]);
    // the group order minus one, little-endian
    let mut l_minus_one = [0u8; 32];
    l_minus_one.copy_from_slice(&minus_one.to_bytes());
    assert_eq!(l_minus_one[0], 0xec);
    assert_eq!(l_minus_one[31], 0x10);
    let inv = scalar_of(2).invert().unwrap();
    assert_eq!(inv.mul(&scalar_of(2)).to_bytes(), scalar_of(1).to_bytes());
    assert!(scalar_of(0).invert().is_none());
    assert!(scalar_of(0).is_zero());
    assert!(!scalar_of(9).is_zero());
}

#[test]
fn scalar_from_bytes_refuses_non_canonical() {
    assert!(Scalar::from_bytes([0xff; 32]).is_none());
    let mut l = scalar_of(0).sub(&scalar_of(1)).to_bytes();
    l[0] += 1;
    assert!(Scalar::from_bytes(l).is_none());
    l[0] -= 1;
    assert!(Scalar::from_bytes(l).is_some());
}

#[test]
fn point_encoding_and_arithmetic() {
    let g = Point::generator();
    let mut expected = [0x66u8; 32];
    expected[0] = 0x58;
    assert_eq!(g.to_bytes(), expected);
    assert_eq!(Point::from_bytes(expected).unwrap().to_bytes(), expected);
    let two_g = g.add(&g);
    assert_eq!(two_g.to_bytes(), g.mul(&scalar_of(2)).to_bytes());
    assert_ne!(two_g.to_bytes(), g.to_bytes());
    assert_eq!(g.mul(&scalar_of(3)).mul(&scalar_of(5)).to_bytes(), g.mul(&scalar_of(15)).to_bytes());
    assert_eq!(g.mul_by_cofactor().to_bytes(), g.mul(&scalar_of(8)).to_bytes());
    let mut not_a_point = [0u8; 32];
    not_a_point[0] = 2;
    assert!(Point::from_bytes(not_a_point).is_none());
}

#[test]
fn hashes_depend_on_their_input() {
    let a = Point::hash_from_bytes(&vec![1u8, 2, 3]);
    let b = Point::hash_from_bytes(&vec![1u8, 2, 4]);
    assert_ne!(a.to_bytes(), b.to_bytes());
    assert_eq!(a.to_bytes(), Point::hash_from_bytes(&vec![1u8, 2, 3]).to_bytes());
    let d = sha512(&vec![b'a', b'b', b'c']);
    assert_eq!(d.len(), 64);
    assert_eq!(&d[..4], &[0xdd, 0xaf, 0x35, 0xa1]);
    let t = Scalar::hash_to_scalar(&vec![b'a', b'b', b'c']);
    assert_ne!(t.to_bytes(), Scalar::hash_to_scalar(&vec![b'a', b'b', b'd']).to_bytes());
    assert_eq!(Point::generator().digest(), sha512(&Point::generator().to_bytes().to_vec()));
}

fn identity() -> Point {
    let mut b = [0u8; 32];
    b[0] = 1;
    Point::from_bytes(b).unwrap()
}

#[test]
fn point_from_bytes_refuses_torsion_and_non_canonical() {
    // (0, -1), the point of order two
    let mut order_two = [0xffu8; 32];
    order_two[0] = 0xec;
    order_two[31] = 0x7f;
    assert!(Point::from_bytes(order_two).is_none());
    // the identity with y = 1 + p, a non-canonical encoding
    let mut non_canonical = [0xffu8; 32];
    non_canonical[0] = 0xee;
    non_canonical[31] = 0x7f;
    assert!(Point::from_bytes(non_canonical).is_none());
    assert!(identity().is_identity());
    assert_eq!(Point::generator().mul(&scalar_of(0)).to_bytes(), identity().to_bytes());
    assert!(!Point::generator().is_identity());
}

#[test]
fn ec_vrf_refuses_identity() {
    let sk = Scalar::random();
    let vk = Point::generator().mul(&sk);
    let x = Scalar::random();
    let out = ec_vrf::VRFOutput::eval(&vk, &sk, &x);
    let bad = ec_vrf::VRFOutput { gamma: identity(), c: out.c, s: out.s, y: out.y.clone() };
    assert!(!bad.verify(&vk, &x));
    let zero = scalar_of(0);
    let zero_vk = Point::generator().mul(&zero);
    assert!(!ec_vrf::VRFOutput::eval(&zero_vk, &zero, &x).verify(&zero_vk, &x));
}

#[test]
fn rka_vrf_refuses_identity() {
    let sk = nonzero_scalar();
    let vk = Point::generator().mul(&sk);
    let x = random_point();
    let g_tilde = random_point();
    let h_tilde = random_point();
    let mut out = rka_vrf::VRFOutput::eval(&g_tilde, &h_tilde, &vk, &sk, &x).unwrap();
    assert!(!out.verify(&g_tilde, &h_tilde, &identity(), &x));
    out.u = identity();
    assert!(!out.verify(&g_tilde, &h_tilde, &vk, &x));
}

//! The EC-VRF: `γ = H(x)·sk` with a Schnorr proof that `γ` and the public key
//! share the discrete logarithm `sk`, and the output `y = SHA-512(8·γ)`.
use crate::group::{
    add_of, basepoint_enc, bytes_eq, digest_value, hash_point_of, identity_enc, lemma_response, log_base,
    mul_of, push_bytes, push_point, reduce, scalar_eq, sha512_of, torsion_free, group_order, Point,
    Scalar,
};
use vstd::prelude::*;

verus! {

/// The challenge transcript: the basepoint, `h`, the public key, `γ` and the two
/// commitments, each compressed, in this order.
pub open spec fn ec_transcript(
    h: Seq<u8>,
    vk: Seq<u8>,
    gamma: Seq<u8>,
    u: Seq<u8>,
    v: Seq<u8>,
) -> Seq<u8> {
    basepoint_enc() + h + vk + gamma + u + v
}

/// The output bytes that belong to `γ`: the digest of `8·γ`.
pub open spec fn ec_output(gamma: Seq<u8>) -> Seq<u8> {
    sha512_of(mul_of(gamma, 8))
}

/// An EC-VRF output with its proof.
pub struct VRFOutput {
    pub gamma: Point,
    pub c: Scalar,
    pub s: Scalar,
    pub y: Vec<u8>,
}

/// `out` is what evaluation under `sk` at `x` gives when it draws the nonce `k`;
/// the group facts that evaluation establishes on the way are part of it.
pub open spec fn ec_honest(vk: Seq<u8>, sk: Scalar, x: Scalar, out: VRFOutput, k: Scalar) -> bool {
    let h = hash_point_of(x@);
    let gk = mul_of(basepoint_enc(), k.val());
    let hk = mul_of(h, k.val());
    &&& out.gamma@ == mul_of(h, sk.val())
    &&& out.c.val() == digest_value(ec_transcript(h, vk, out.gamma@, gk, hk))
    &&& out.s.val() == reduce(k.val() - out.c.val() * sk.val())
    &&& out.y@ == ec_output(out.gamma@)
    &&& out.y@.len() == 64
    &&& torsion_free(h) && torsion_free(out.gamma@) && torsion_free(gk) && torsion_free(hk)
    &&& log_base(out.gamma@) == reduce(log_base(h) * sk.val())
    &&& log_base(gk) == reduce(log_base(basepoint_enc()) * k.val())
    &&& log_base(hk) == reduce(log_base(h) * k.val())
}

/// What verification accepts: neither `γ` nor the key is the identity, and the
/// recomputed challenge and output match.
pub open spec fn ec_accepts(out: VRFOutput, vk: Seq<u8>, x: Seq<u8>) -> bool {
    let h = hash_point_of(x);
    let u = add_of(mul_of(vk, out.c.val()), mul_of(basepoint_enc(), out.s.val()));
    let v = add_of(mul_of(out.gamma@, out.c.val()), mul_of(h, out.s.val()));
    &&& out.gamma@ != identity_enc() && vk != identity_enc()
    &&& out.c.val() == digest_value(ec_transcript(h, vk, out.gamma@, u, v))
    &&& out.y@ == ec_output(out.gamma@)
}

/// The VRF value is a function of the key and the input: two evaluations under
/// one secret key at one input give the same `γ` and the same `y`, whatever
/// nonces they drew.
pub proof fn lemma_output_deterministic(vk: Seq<u8>, sk: Scalar, x: Scalar, a: VRFOutput, b: VRFOutput)
    requires
        exists|k: Scalar| ec_honest(vk, sk, x, a, k),
        exists|k: Scalar| ec_honest(vk, sk, x, b, k),
    ensures
        a.gamma@ == b.gamma@,
        a.y@ == b.y@,
{
}

impl VRFOutput {
    fn hash_point(x: &Scalar) -> (r: Point)
        ensures
            r@ == hash_point_of(x@),
            torsion_free(r@),
    {
        let mut b: Vec<u8> = Vec::new();
        push_bytes(&mut b, &x.to_bytes());
        proof {
            assert(b@ =~= x@);
        }
        Point::hash_from_bytes(&b)
    }

    fn hash_challenge(
        g: &Point,
        h: &Point,
        vk: &Point,
        gamma: &Point,
        gk: &Point,
        hk: &Point,
    ) -> (r: Scalar)
        ensures
            r.val() == digest_value(g@ + h@ + vk@ + gamma@ + gk@ + hk@),
    {
        let mut b: Vec<u8> = Vec::new();
        push_point(&mut b, g);
        push_point(&mut b, h);
        push_point(&mut b, vk);
        push_point(&mut b, gamma);
        push_point(&mut b, gk);
        push_point(&mut b, hk);
        proof {
            assert(b@ =~= g@ + h@ + vk@ + gamma@ + gk@ + hk@);
        }
        Scalar::hash_to_scalar(&b)
    }

    fn hash_output(gamma_f: &Point) -> (r: Vec<u8>)
        ensures
            r@ == sha512_of(gamma_f@),
            r@.len() == 64,
    {
        gamma_f.digest()
    }

    /// Evaluates the VRF under `sk` at `x`, with a fresh nonce for the proof.
    pub fn eval(vk: &Point, sk: &Scalar, x: &Scalar) -> (r: Self)
        ensures
            exists|k: Scalar| ec_honest(vk@, *sk, *x, r, k),
    {
        let h = Self::hash_point(x);
        let gamma = h.mul(sk);
        let k = Scalar::random();
        let g = Point::generator();
        let gk = g.mul(&k);
        let hk = h.mul(&k);
        let c = Self::hash_challenge(&g, &h, vk, &gamma, &gk, &hk);
        let s = k.sub(&c.mul(sk));
        proof {
            use_type_invariant(&c);
            use_type_invariant(sk);
            vstd::arithmetic::div_mod::lemma_sub_mod_noop_right(
                k.val(),
                c.val() * sk.val(),
                group_order(),
            );
        }
        let y = Self::hash_output(&gamma.mul_by_cofactor());
        let r = VRFOutput { gamma, c, s, y };
        proof {
            assert(ec_honest(vk@, *sk, *x, r, k));
        }
        r
    }

    /// Checks the output and its proof against the public key and the input;
    /// refuses an identity `γ` or key. Every output that evaluation gives under
    /// the secret key of `vk` passes, unless `γ` or the key is the identity.
    pub fn verify(&self, vk: &Point, x: &Scalar) -> (r: bool)
        ensures
            r == ec_accepts(*self, vk@, x@),
            (exists|sk: Scalar, k: Scalar|
                self.gamma@ != identity_enc() && vk@ != identity_enc() && reduce(log_base(vk@)) == reduce(
                    sk.val(),
                ) && #[trigger] ec_honest(
                    vk@,
                    sk,
                    *x,
                    *self,
                    k,
                )) ==> r,
    {
        let g = Point::generator();
        let u = vk.mul(&self.c).add(&g.mul(&self.s));
        let h = Self::hash_point(x);
        let v = self.gamma.mul(&self.c).add(&h.mul(&self.s));
        let c_comp = Self::hash_challenge(&g, &h, vk, &self.gamma, &u, &v);
        let y_comp = Self::hash_output(&self.gamma.mul_by_cofactor());
        let r = !self.gamma.is_identity() && !vk.is_identity() && scalar_eq(&self.c, &c_comp)
            && bytes_eq(&self.y, &y_comp);
        proof {
            use_type_invariant(vk);
            if exists|sk: Scalar, k: Scalar|
                self.gamma@ != identity_enc() && vk@ != identity_enc() && reduce(log_base(vk@)) == reduce(
                    sk.val(),
                ) && #[trigger] ec_honest(
                    vk@,
                    sk,
                    *x,
                    *self,
                    k,
                ) {
                let (sk, k) = choose|sk: Scalar, k: Scalar|
                    self.gamma@ != identity_enc() && vk@ != identity_enc() && reduce(log_base(vk@)) == reduce(
                    sk.val(),
                ) && #[trigger] ec_honest(
                        vk@,
                        sk,
                        *x,
                        *self,
                        k,
                    );
                let gk = mul_of(basepoint_enc(), k.val());
                let hk = mul_of(h@, k.val());
                lemma_response(1, log_base(vk@), self.c.val(), sk.val(), k.val(), self.s.val());
                vstd::arithmetic::div_mod::lemma_mod_twice(log_base(h@) * sk.val(), group_order());
                lemma_response(
                    log_base(h@),
                    log_base(self.gamma@),
                    self.c.val(),
                    sk.val(),
                    k.val(),
                    self.s.val(),
                );
                assert(log_base(gk) == log_base(u@));
                assert(gk == u@);
                assert(log_base(hk) == log_base(v@));
                assert(hk == v@);
            }
        }
        r
    }
}

} // verus!

//! The related-key-attack resistant VRF: `u = H(vk, x)·sk⁻¹`, proved well formed
//! by an inversion proof, a Fiat–Shamir argument that `δ = g·γ` and `θ = h·γ⁻¹`
//! share one scalar `γ`, with Pedersen commitments under the points `g̃`, `h̃`.
use crate::group::{
    add_of, basepoint_enc, cong, digest_value, group_order, identity_enc, lemma_cong_add, lemma_cong_mul,
    lemma_cong_reduce, lemma_cong_sub, lemma_inverse_unique, log_base, mul_of, push_point, reduce, scalar_eq,
    torsion_free, Point, Scalar,
};
use vstd::prelude::*;

verus! {

/// Why an evaluation or a proof could not be made.
#[derive(Clone, Copy, Debug, PartialEq, Eq, Structural)]
pub enum VrfError {
    /// The secret scalar is zero, which has no inverse.
    ZeroScalar,
}

/// An inversion proof: the responses, the challenge and the commitment to `t₁`.
pub struct InversionProof {
    pub zt: Scalar,
    pub zl: Scalar,
    pub zr: Scalar,
    pub x: Scalar,
    pub t1_point: Point,
}

/// The Fiat–Shamir challenge of the inversion proof, over the ten points in
/// this order.
pub open spec fn inv_challenge(
    g: Seq<u8>,
    h: Seq<u8>,
    g_tilde: Seq<u8>,
    h_tilde: Seq<u8>,
    delta: Seq<u8>,
    theta: Seq<u8>,
    s1: Seq<u8>,
    s2: Seq<u8>,
    t0: Seq<u8>,
    t1: Seq<u8>,
) -> int {
    digest_value(g + h + g_tilde + h_tilde + delta + theta + s1 + s2 + t0 + t1)
}

/// `b` is the inverse of `a` modulo the group order, reduced.
pub open spec fn inv_of(a: int, b: int) -> bool {
    0 <= b < group_order() && reduce(a * b) == 1
}

/// The Pedersen commitment `g̃·m + h̃·r`.
pub open spec fn commit(g_tilde: Seq<u8>, h_tilde: Seq<u8>, m: int, r: int) -> Seq<u8> {
    add_of(mul_of(g_tilde, m), mul_of(h_tilde, r))
}

/// `pf` is the proof that the prover makes for `γ` when it draws `α, β, τ₀, τ₁`;
/// `gi` is the inverse of `γ`, and `t0`, `t1` the committed scalars. The group
/// facts that proving establishes on the way are part of it.
pub open spec fn inv_honest(
    g: Seq<u8>,
    h: Seq<u8>,
    g_tilde: Seq<u8>,
    h_tilde: Seq<u8>,
    delta: Seq<u8>,
    theta: Seq<u8>,
    gamma: int,
    pf: InversionProof,
    alpha: int,
    beta: int,
    tau0: int,
    tau1: int,
    gi: int,
) -> bool {
    let t0 = reduce(alpha * beta);
    let t1 = reduce(reduce(alpha * gi) + reduce(beta * gamma));
    let s1 = mul_of(g, alpha);
    let s2 = mul_of(h, beta);
    let t0_point = commit(g_tilde, h_tilde, t0, tau0);
    let x = pf.x.val();
    &&& reduce(gamma * gi) == 1
    &&& pf.t1_point@ == commit(g_tilde, h_tilde, t1, tau1)
    &&& x == inv_challenge(g, h, g_tilde, h_tilde, delta, theta, s1, s2, t0_point, pf.t1_point@)
    &&& pf.zt.val() == reduce(reduce(tau1 * x) + tau0)
    &&& pf.zl.val() == reduce(alpha + reduce(x * gamma))
    &&& pf.zr.val() == reduce(beta + reduce(x * gi))
    &&& torsion_free(g) && torsion_free(h) && torsion_free(g_tilde) && torsion_free(h_tilde)
        ==> inv_group_facts(g, h, g_tilde, h_tilde, alpha, beta, t0, tau0, t1, tau1, pf.t1_point@)
}

/// Where the points on which a proof is made lie in the prime-order subgroup,
/// the logarithms of the prover's commitments.
pub open spec fn inv_group_facts(
    g: Seq<u8>,
    h: Seq<u8>,
    g_tilde: Seq<u8>,
    h_tilde: Seq<u8>,
    alpha: int,
    beta: int,
    t0: int,
    tau0: int,
    t1: int,
    tau1: int,
    t1_point: Seq<u8>,
) -> bool {
    let s1 = mul_of(g, alpha);
    let s2 = mul_of(h, beta);
    let t0_point = commit(g_tilde, h_tilde, t0, tau0);
    &&& torsion_free(s1) && log_base(s1) == reduce(log_base(g) * alpha)
    &&& torsion_free(s2) && log_base(s2) == reduce(log_base(h) * beta)
    &&& torsion_free(t0_point) && log_base(t0_point) == reduce(
        reduce(log_base(g_tilde) * t0) + reduce(log_base(h_tilde) * tau0),
    )
    &&& torsion_free(t1_point) && log_base(t1_point) == reduce(
        reduce(log_base(g_tilde) * t1) + reduce(log_base(h_tilde) * tau1),
    )
}

/// The statement of an inversion proof: `δ = g·γ` and `θ = h·γ⁻¹`, where `gi`
/// is `γ⁻¹`.
pub open spec fn inv_statement(
    g: Seq<u8>,
    h: Seq<u8>,
    g_tilde: Seq<u8>,
    h_tilde: Seq<u8>,
    delta: Seq<u8>,
    theta: Seq<u8>,
    gamma: int,
    gi: int,
) -> bool {
    &&& cong(log_base(delta), log_base(g) * gamma)
    &&& cong(log_base(theta), log_base(h) * gi)
}

/// What the verifier of an inversion proof accepts: the challenge recomputed
/// from the reconstructed commitments is the one in the proof.
pub open spec fn inv_accepts(
    pf: InversionProof,
    g: Seq<u8>,
    h: Seq<u8>,
    g_tilde: Seq<u8>,
    h_tilde: Seq<u8>,
    delta: Seq<u8>,
    theta: Seq<u8>,
) -> bool {
    let x = pf.x.val();
    let neg_x = reduce(0 - x);
    let t0_point = add_of(
        commit(g_tilde, h_tilde, reduce(reduce(pf.zl.val() * pf.zr.val()) - reduce(x * x)), pf.zt.val()),
        mul_of(pf.t1_point@, neg_x),
    );
    let s1 = add_of(mul_of(g, pf.zl.val()), mul_of(delta, neg_x));
    let s2 = add_of(mul_of(h, pf.zr.val()), mul_of(theta, neg_x));
    x == inv_challenge(g, h, g_tilde, h_tilde, delta, theta, s1, s2, t0_point, pf.t1_point@)
}

/// The linear responses check out: with `δ = g·γ` and `z = α + x·γ`,
/// `g·z − δ·x = g·α`, on logarithms.
pub proof fn lemma_linear_response(g: int, d: int, gamma: int, alpha: int, x: int, z: int, neg_x: int)
    requires
        cong(d, g * gamma),
        z == reduce(alpha + reduce(x * gamma)),
        neg_x == reduce(0 - x),
    ensures
        reduce(reduce(g * z) + reduce(d * neg_x)) == reduce(g * alpha),
{
    lemma_cong_reduce(x * gamma);
    lemma_cong_add(alpha, alpha, reduce(x * gamma), x * gamma);
    lemma_cong_reduce(alpha + reduce(x * gamma));
    lemma_cong_mul(g, g, z, alpha + x * gamma);
    lemma_cong_reduce(0 - x);
    lemma_cong_mul(d, g * gamma, neg_x, 0 - x);
    lemma_cong_reduce(g * z);
    lemma_cong_reduce(d * neg_x);
    lemma_cong_add(reduce(g * z), g * (alpha + x * gamma), reduce(d * neg_x), (g * gamma) * (0 - x));
    assert(g * (alpha + x * gamma) + (g * gamma) * (0 - x) == g * alpha) by (nonlinear_arith);
}

/// The reconstructed commitment to `t₀` is the prover's, on logarithms:
/// `g̃·(zl·zr − x²) + h̃·zt − x·T₁ = g̃·t₀ + h̃·τ₀` when `γ·γ⁻¹ = 1`.
pub proof fn lemma_t0_reconstruction(
    gt: int,
    ht: int,
    t1_log: int,
    x: int,
    neg_x: int,
    zl: int,
    zr: int,
    zt: int,
    alpha: int,
    beta: int,
    gamma: int,
    gi: int,
    tau0: int,
    tau1: int,
    t0: int,
    t1: int,
)
    requires
        reduce(gamma * gi) == 1,
        t0 == reduce(alpha * beta),
        t1 == reduce(reduce(alpha * gi) + reduce(beta * gamma)),
        t1_log == reduce(reduce(gt * t1) + reduce(ht * tau1)),
        zt == reduce(reduce(tau1 * x) + tau0),
        zl == reduce(alpha + reduce(x * gamma)),
        zr == reduce(beta + reduce(x * gi)),
        neg_x == reduce(0 - x),
    ensures
        reduce(
            reduce(
                reduce(gt * reduce(reduce(zl * zr) - reduce(x * x))) + reduce(ht * zt),
            ) + reduce(t1_log * neg_x),
        ) == reduce(reduce(gt * t0) + reduce(ht * tau0)),
{
    let w = reduce(reduce(zl * zr) - reduce(x * x));
    let zl_p = alpha + x * gamma;
    let zr_p = beta + x * gi;
    let w_p = zl_p * zr_p - x * x;
    let zt_p = tau1 * x + tau0;
    let t1_p = alpha * gi + beta * gamma;
    let t1_log_p = gt * t1_p + ht * tau1;
    // zl, zr and w
    lemma_cong_reduce(x * gamma);
    lemma_cong_add(alpha, alpha, reduce(x * gamma), x * gamma);
    lemma_cong_reduce(alpha + reduce(x * gamma));
    lemma_cong_reduce(x * gi);
    lemma_cong_add(beta, beta, reduce(x * gi), x * gi);
    lemma_cong_reduce(beta + reduce(x * gi));
    lemma_cong_mul(zl, zl_p, zr, zr_p);
    lemma_cong_reduce(zl * zr);
    lemma_cong_reduce(x * x);
    lemma_cong_sub(reduce(zl * zr), zl_p * zr_p, reduce(x * x), x * x);
    lemma_cong_reduce(reduce(zl * zr) - reduce(x * x));
    lemma_cong_mul(gt, gt, w, w_p);
    // zt
    lemma_cong_reduce(tau1 * x);
    lemma_cong_add(reduce(tau1 * x), tau1 * x, tau0, tau0);
    lemma_cong_reduce(reduce(tau1 * x) + tau0);
    lemma_cong_mul(ht, ht, zt, zt_p);
    // the first two terms
    lemma_cong_reduce(gt * w);
    lemma_cong_reduce(ht * zt);
    lemma_cong_add(reduce(gt * w), gt * w_p, reduce(ht * zt), ht * zt_p);
    let a = reduce(reduce(gt * w) + reduce(ht * zt));
    lemma_cong_reduce(reduce(gt * w) + reduce(ht * zt));
    // t1 and its commitment
    lemma_cong_reduce(alpha * gi);
    lemma_cong_reduce(beta * gamma);
    lemma_cong_add(reduce(alpha * gi), alpha * gi, reduce(beta * gamma), beta * gamma);
    lemma_cong_reduce(reduce(alpha * gi) + reduce(beta * gamma));
    lemma_cong_mul(gt, gt, t1, t1_p);
    lemma_cong_reduce(gt * t1);
    lemma_cong_reduce(ht * tau1);
    lemma_cong_add(reduce(gt * t1), gt * t1_p, reduce(ht * tau1), ht * tau1);
    lemma_cong_reduce(reduce(gt * t1) + reduce(ht * tau1));
    lemma_cong_reduce(0 - x);
    lemma_cong_mul(t1_log, t1_log_p, neg_x, 0 - x);
    lemma_cong_reduce(t1_log * neg_x);
    lemma_cong_add(a, gt * w_p + ht * zt_p, reduce(t1_log * neg_x), t1_log_p * (0 - x));
    // the algebra
    let q = gt * (alpha * beta) + ht * tau0;
    let k = gt * x * x;
    let m = alpha * gi + beta * gamma;
    let e = gamma * gi;
    lemma_expand(alpha, x * gamma, beta, x * gi);
    assert(alpha * (x * gi) == x * (alpha * gi)) by (nonlinear_arith);
    assert((x * gamma) * beta == x * (beta * gamma)) by (nonlinear_arith);
    assert((x * gamma) * (x * gi) == (x * x) * (gamma * gi)) by (nonlinear_arith);
    assert(x * (alpha * gi) + x * (beta * gamma) == x * m) by (nonlinear_arith)
        requires
            m == alpha * gi + beta * gamma,
    ;
    assert(zl_p * zr_p == alpha * beta + x * m + (x * x) * e);
    assert(gt * w_p == gt * (alpha * beta) + gt * (x * m) + gt * ((x * x) * e) - gt * (x * x))
        by (nonlinear_arith)
        requires
            w_p == alpha * beta + x * m + (x * x) * e - x * x,
    ;
    assert(gt * (x * m) == (gt * m) * x) by (nonlinear_arith);
    assert(gt * ((x * x) * e) == k * e) by (nonlinear_arith)
        requires
            k == gt * x * x,
    ;
    assert(gt * (x * x) == k) by (nonlinear_arith)
        requires
            k == gt * x * x,
    ;
    assert(ht * zt_p == (ht * tau1) * x + ht * tau0) by (nonlinear_arith)
        requires
            zt_p == tau1 * x + tau0,
    ;
    assert(t1_log_p * (0 - x) == 0 - (gt * m) * x - (ht * tau1) * x) by (nonlinear_arith)
        requires
            t1_log_p == gt * m + ht * tau1,
    ;
    assert(gt * w_p + ht * zt_p + t1_log_p * (0 - x) == q + (k * (gamma * gi) - k));
    vstd::arithmetic::div_mod::lemma_small_mod(1, group_order() as nat);
    lemma_cong_mul(k, k, gamma * gi, 1);
    lemma_cong_sub(k * (gamma * gi), k * 1, k, k);
    lemma_cong_add(q, q, k * (gamma * gi) - k, k * 1 - k);
    assert(q + (k * 1 - k) == q);
    // the prover's side
    lemma_cong_reduce(alpha * beta);
    lemma_cong_mul(gt, gt, t0, alpha * beta);
    lemma_cong_reduce(gt * t0);
    lemma_cong_reduce(ht * tau0);
    lemma_cong_add(reduce(gt * t0), gt * (alpha * beta), reduce(ht * tau0), ht * tau0);
}

proof fn lemma_expand(a: int, b: int, c: int, d: int)
    ensures
        (a + b) * (c + d) == a * c + a * d + b * c + b * d,
{
    assert((a + b) * (c + d) == a * c + a * d + b * c + b * d) by (nonlinear_arith);
}

impl InversionProof {
    /// The Fiat–Shamir challenge over the ten compressed points, in this order.
    pub fn challenge(
        g: &Point,
        h: &Point,
        g_tilde: &Point,
        h_tilde: &Point,
        delta: &Point,
        theta: &Point,
        s1: &Point,
        s2: &Point,
        t0: &Point,
        t1: &Point,
    ) -> (r: Scalar)
        ensures
            r.val() == inv_challenge(g@, h@, g_tilde@, h_tilde@, delta@, theta@, s1@, s2@, t0@, t1@),
    {
        let mut b: Vec<u8> = Vec::new();
        push_point(&mut b, g);
        push_point(&mut b, h);
        push_point(&mut b, g_tilde);
        push_point(&mut b, h_tilde);
        push_point(&mut b, delta);
        push_point(&mut b, theta);
        push_point(&mut b, s1);
        push_point(&mut b, s2);
        push_point(&mut b, t0);
        push_point(&mut b, t1);
        proof {
            assert(b@ =~= g@ + h@ + g_tilde@ + h_tilde@ + delta@ + theta@ + s1@ + s2@ + t0@ + t1@);
        }
        Scalar::hash_to_scalar(&b)
    }

    /// Proves that `δ = g·γ` and `θ = h·γ⁻¹`, with fresh randomness; fails on `γ = 0`.
    pub fn prove(
        g: &Point,
        h: &Point,
        g_tilde: &Point,
        h_tilde: &Point,
        gamma: &Scalar,
        delta: &Point,
        theta: &Point,
    ) -> (r: Result<Self, VrfError>)
        ensures
            r is Err <==> gamma.val() == 0,
            r is Err ==> r == Err::<Self, VrfError>(VrfError::ZeroScalar),
            r is Ok ==> exists|alpha: int, beta: int, tau0: int, tau1: int, gi: int|
                #[trigger] inv_honest(
                    g@,
                    h@,
                    g_tilde@,
                    h_tilde@,
                    delta@,
                    theta@,
                    gamma.val(),
                    r->Ok_0,
                    alpha,
                    beta,
                    tau0,
                    tau1,
                    gi,
                ),
    {
        let gamma_inv = match gamma.invert() {
            Some(i) => i,
            None => {
                return Err(VrfError::ZeroScalar);
            },
        };
        let alpha = Scalar::random();
        let beta = Scalar::random();
        let s1 = g.mul(&alpha);
        let s2 = h.mul(&beta);
        let tau0 = Scalar::random();
        let tau1 = Scalar::random();
        let t0 = alpha.mul(&beta);
        let t1 = alpha.mul(&gamma_inv).add(&beta.mul(gamma));
        let t0_point = g_tilde.mul(&t0).add(&h_tilde.mul(&tau0));
        let t1_point = g_tilde.mul(&t1).add(&h_tilde.mul(&tau1));
        let x = InversionProof::challenge(
            g,
            h,
            g_tilde,
            h_tilde,
            delta,
            theta,
            &s1,
            &s2,
            &t0_point,
            &t1_point,
        );
        let zt = tau1.mul(&x).add(&tau0);
        let zl = alpha.add(&x.mul(gamma));
        let zr = beta.add(&x.mul(&gamma_inv));
        let r: Result<Self, VrfError> = Ok(InversionProof { zt, zl, zr, x, t1_point });
        proof {
            assert(inv_honest(
                g@,
                h@,
                g_tilde@,
                h_tilde@,
                delta@,
                theta@,
                gamma.val(),
                r->Ok_0,
                alpha.val(),
                beta.val(),
                tau0.val(),
                tau1.val(),
                gamma_inv.val(),
            ));
        }
        r
    }

    /// Checks the proof for `δ`, `θ` on the points `g`, `h`, `g̃`, `h̃`.
    pub fn verify(
        &self,
        g: &Point,
        h: &Point,
        g_tilde: &Point,
        h_tilde: &Point,
        delta: &Point,
        theta: &Point,
    ) -> (r: bool)
        ensures
            r == inv_accepts(*self, g@, h@, g_tilde@, h_tilde@, delta@, theta@),
            (exists|gamma: int, alpha: int, beta: int, tau0: int, tau1: int, gi: int|
                inv_statement(g@, h@, g_tilde@, h_tilde@, delta@, theta@, gamma, gi)
                    && #[trigger] inv_honest(
                    g@,
                    h@,
                    g_tilde@,
                    h_tilde@,
                    delta@,
                    theta@,
                    gamma,
                    *self,
                    alpha,
                    beta,
                    tau0,
                    tau1,
                    gi,
                )) ==> r,
    {
        let neg_x = self.x.neg();
        let w = self.zl.mul(&self.zr).sub(&self.x.mul(&self.x));
        let t0_point = g_tilde.mul(&w).add(&h_tilde.mul(&self.zt)).add(&self.t1_point.mul(&neg_x));
        let s1 = g.mul(&self.zl).add(&delta.mul(&neg_x));
        let s2 = h.mul(&self.zr).add(&theta.mul(&neg_x));
        let x_comp = InversionProof::challenge(
            g,
            h,
            g_tilde,
            h_tilde,
            delta,
            theta,
            &s1,
            &s2,
            &t0_point,
            &self.t1_point,
        );
        let r = scalar_eq(&x_comp, &self.x);
        proof {
            if exists|gamma: int, alpha: int, beta: int, tau0: int, tau1: int, gi: int|
                inv_statement(g@, h@, g_tilde@, h_tilde@, delta@, theta@, gamma, gi)
                    && #[trigger] inv_honest(
                    g@,
                    h@,
                    g_tilde@,
                    h_tilde@,
                    delta@,
                    theta@,
                    gamma,
                    *self,
                    alpha,
                    beta,
                    tau0,
                    tau1,
                    gi,
                ) {
                let (gamma, alpha, beta, tau0, tau1, gi) = choose|
                    gamma: int,
                    alpha: int,
                    beta: int,
                    tau0: int,
                    tau1: int,
                    gi: int,
                |
                    inv_statement(g@, h@, g_tilde@, h_tilde@, delta@, theta@, gamma, gi)
                        && #[trigger] inv_honest(
                        g@,
                        h@,
                        g_tilde@,
                        h_tilde@,
                        delta@,
                        theta@,
                        gamma,
                        *self,
                        alpha,
                        beta,
                        tau0,
                        tau1,
                        gi,
                    );
                use_type_invariant(g);
                use_type_invariant(h);
                use_type_invariant(g_tilde);
                use_type_invariant(h_tilde);
                use_type_invariant(delta);
                use_type_invariant(theta);
                let x = self.x.val();
                let t0 = reduce(alpha * beta);
                let t1 = reduce(reduce(alpha * gi) + reduce(beta * gamma));
                let s1_p = mul_of(g@, alpha);
                let s2_p = mul_of(h@, beta);
                let t0_p = commit(g_tilde@, h_tilde@, t0, tau0);
                lemma_linear_response(
                    log_base(g@),
                    log_base(delta@),
                    gamma,
                    alpha,
                    x,
                    self.zl.val(),
                    neg_x.val(),
                );
                assert(log_base(s1_p) == log_base(s1@));
                assert(s1_p == s1@);
                lemma_linear_response(
                    log_base(h@),
                    log_base(theta@),
                    gi,
                    beta,
                    x,
                    self.zr.val(),
                    neg_x.val(),
                );
                assert(log_base(s2_p) == log_base(s2@));
                assert(s2_p == s2@);
                lemma_t0_reconstruction(
                    log_base(g_tilde@),
                    log_base(h_tilde@),
                    log_base(self.t1_point@),
                    x,
                    neg_x.val(),
                    self.zl.val(),
                    self.zr.val(),
                    self.zt.val(),
                    alpha,
                    beta,
                    gamma,
                    gi,
                    tau0,
                    tau1,
                    t0,
                    t1,
                );
                assert(log_base(t0_p) == log_base(t0_point@));
                assert(t0_p == t0_point@);
            }
        }
        r
    }
}

/// An RKA-VRF output: the value `y`, the point `u` and the proof that `u` was
/// made under the secret key of the public key.
pub struct VRFOutput {
    pub y: Scalar,
    pub u: Point,
    pub r: InversionProof,
}

/// The point that the public key and the input are hashed to: the basepoint
/// times the digest of `vk ‖ x`.
pub open spec fn rka_base(vk: Seq<u8>, x: Seq<u8>) -> Seq<u8> {
    mul_of(basepoint_enc(), digest_value(vk + x))
}

/// The VRF value that belongs to the input `x` and the point `u`.
pub open spec fn rka_output(x: Seq<u8>, u: Seq<u8>) -> int {
    digest_value(x + u)
}

/// `out` is what evaluation under `sk` at `x` gives: `u` is the hashed point
/// times `ui = sk⁻¹`, `y` is hashed from `x` and `u`, and the proof is the
/// prover's with the randomness `α, β, τ₀, τ₁` (and `gi = sk⁻¹`).
pub open spec fn rka_honest(
    g_tilde: Seq<u8>,
    h_tilde: Seq<u8>,
    vk: Seq<u8>,
    sk: int,
    x: Seq<u8>,
    out: VRFOutput,
    ui: int,
    alpha: int,
    beta: int,
    tau0: int,
    tau1: int,
    gi: int,
) -> bool {
    let base = rka_base(vk, x);
    &&& out.y.val() == rka_output(x, out.u@)
    &&& inv_of(sk, ui)
    &&& out.u@ == mul_of(base, ui)
    &&& torsion_free(base) ==> torsion_free(out.u@) && log_base(out.u@) == reduce(log_base(base) * ui)
    &&& inv_honest(basepoint_enc(), base, g_tilde, h_tilde, vk, out.u@, sk, out.r, alpha, beta, tau0, tau1, gi)
}

/// `vk = g·sk`, and neither the key nor `u` is the identity.
pub open spec fn rka_keys(vk: Seq<u8>, u: Seq<u8>, sk: int) -> bool {
    &&& vk != identity_enc() && u != identity_enc()
    &&& cong(log_base(vk), sk)
}

/// What verification of an RKA-VRF output accepts.
pub open spec fn rka_accepts(
    out: VRFOutput,
    g_tilde: Seq<u8>,
    h_tilde: Seq<u8>,
    vk: Seq<u8>,
    x: Seq<u8>,
) -> bool {
    &&& out.u@ != identity_enc() && vk != identity_enc()
    &&& out.y.val() == rka_output(x, out.u@)
    &&& inv_accepts(out.r, basepoint_enc(), rka_base(vk, x), g_tilde, h_tilde, vk, out.u@)
}

/// The VRF value is a function of the secret key and the input alone: two
/// evaluations under one secret key at one input give the same `u` and `y`,
/// whatever randomness their proofs drew and whatever points `g̃`, `h̃` they used.
pub proof fn lemma_output_deterministic(
    g_tilde_a: Seq<u8>,
    h_tilde_a: Seq<u8>,
    g_tilde_b: Seq<u8>,
    h_tilde_b: Seq<u8>,
    vk: Seq<u8>,
    sk: int,
    x: Seq<u8>,
    a: VRFOutput,
    b: VRFOutput,
)
    requires
        exists|ui: int, alpha: int, beta: int, tau0: int, tau1: int, gi: int|
            #[trigger] rka_honest(g_tilde_a, h_tilde_a, vk, sk, x, a, ui, alpha, beta, tau0, tau1, gi),
        exists|ui: int, alpha: int, beta: int, tau0: int, tau1: int, gi: int|
            #[trigger] rka_honest(g_tilde_b, h_tilde_b, vk, sk, x, b, ui, alpha, beta, tau0, tau1, gi),
    ensures
        a.u@ == b.u@,
        a.y.val() == b.y.val(),
{
    let (ua, a1, a2, a3, a4, a5) = choose|ui: int, alpha: int, beta: int, tau0: int, tau1: int, gi: int|
        #[trigger] rka_honest(g_tilde_a, h_tilde_a, vk, sk, x, a, ui, alpha, beta, tau0, tau1, gi);
    let (ub, b1, b2, b3, b4, b5) = choose|ui: int, alpha: int, beta: int, tau0: int, tau1: int, gi: int|
        #[trigger] rka_honest(g_tilde_b, h_tilde_b, vk, sk, x, b, ui, alpha, beta, tau0, tau1, gi);
    lemma_inverse_unique(sk, ua, ub);
    vstd::arithmetic::div_mod::lemma_small_mod(ua as nat, group_order() as nat);
    vstd::arithmetic::div_mod::lemma_small_mod(ub as nat, group_order() as nat);
}

impl VRFOutput {
    fn hash_point(vk: &Point, x: &Point) -> (r: Point)
        ensures
            r@ == rka_base(vk@, x@),
            torsion_free(r@),
    {
        let mut b: Vec<u8> = Vec::new();
        push_point(&mut b, vk);
        push_point(&mut b, x);
        Point::generator().mul(&Scalar::hash_to_scalar(&b))
    }

    fn hash_output(x: &Point, u: &Point) -> (r: Scalar)
        ensures
            r.val() == rka_output(x@, u@),
    {
        let mut b: Vec<u8> = Vec::new();
        push_point(&mut b, x);
        push_point(&mut b, u);
        Scalar::hash_to_scalar(&b)
    }

    /// Evaluates the VRF under `sk` at `x`; fails on `sk = 0`.
    pub fn eval(
        g_tilde: &Point,
        h_tilde: &Point,
        vk: &Point,
        sk: &Scalar,
        x: &Point,
    ) -> (r: Result<Self, VrfError>)
        ensures
            r is Err <==> sk.val() == 0,
            r is Err ==> r == Err::<Self, VrfError>(VrfError::ZeroScalar),
            r is Ok ==> r->Ok_0.y.val() == rka_output(x@, r->Ok_0.u@),
            r is Ok ==> exists|ui: int, alpha: int, beta: int, tau0: int, tau1: int, gi: int|
                #[trigger] rka_honest(
                    g_tilde@,
                    h_tilde@,
                    vk@,
                    sk.val(),
                    x@,
                    r->Ok_0,
                    ui,
                    alpha,
                    beta,
                    tau0,
                    tau1,
                    gi,
                ),
    {
        let base = Self::hash_point(vk, x);
        let sk_inv = match sk.invert() {
            Some(i) => i,
            None => {
                return Err(VrfError::ZeroScalar);
            },
        };
        let u = base.mul(&sk_inv);
        let g = Point::generator();
        let proved = InversionProof::prove(&g, &base, g_tilde, h_tilde, sk, vk, &u);
        let ghost proved_spec = proved;
        let r = match proved {
            Ok(pf) => pf,
            Err(e) => {
                return Err(e);
            },
        };
        let y = Self::hash_output(x, &u);
        let out: Result<Self, VrfError> = Ok(VRFOutput { y, u, r });
        proof {
            use_type_invariant(&sk_inv);
            assert(inv_of(sk.val(), sk_inv.val()));
            let (alpha, beta, tau0, tau1, gi) = choose|
                alpha: int,
                beta: int,
                tau0: int,
                tau1: int,
                gi: int,
            |
                #[trigger] inv_honest(
                    basepoint_enc(),
                    base@,
                    g_tilde@,
                    h_tilde@,
                    vk@,
                    u@,
                    sk.val(),
                    proved_spec->Ok_0,
                    alpha,
                    beta,
                    tau0,
                    tau1,
                    gi,
                );
            assert(rka_honest(
                g_tilde@,
                h_tilde@,
                vk@,
                sk.val(),
                x@,
                out->Ok_0,
                sk_inv.val(),
                alpha,
                beta,
                tau0,
                tau1,
                gi,
            ));
        }
        out
    }

    /// Checks the output and its proof against the points `g̃`, `h̃`, the public
    /// key and the input; refuses an identity `u` or key. Every output that
    /// evaluation gives under the secret key of `vk` passes, unless `u` or the
    /// key is the identity.
    pub fn verify(&self, g_tilde: &Point, h_tilde: &Point, vk: &Point, x: &Point) -> (r: bool)
        ensures
            r == rka_accepts(*self, g_tilde@, h_tilde@, vk@, x@),
            (exists|sk: int, ui: int, alpha: int, beta: int, tau0: int, tau1: int, gi: int|
                rka_keys(vk@, self.u@, sk) && #[trigger] rka_honest(
                    g_tilde@,
                    h_tilde@,
                    vk@,
                    sk,
                    x@,
                    *self,
                    ui,
                    alpha,
                    beta,
                    tau0,
                    tau1,
                    gi,
                )) ==> r,
    {
        let y = Self::hash_output(x, &self.u);
        let g = Point::generator();
        let base = Self::hash_point(vk, x);
        let r = !self.u.is_identity() && !vk.is_identity() && scalar_eq(&self.y, &y) && self.r.verify(
            &g,
            &base,
            g_tilde,
            h_tilde,
            vk,
            &self.u,
        );
        proof {
            if exists|sk: int, ui: int, alpha: int, beta: int, tau0: int, tau1: int, gi: int|
                rka_keys(vk@, self.u@, sk) && #[trigger] rka_honest(
                    g_tilde@,
                    h_tilde@,
                    vk@,
                    sk,
                    x@,
                    *self,
                    ui,
                    alpha,
                    beta,
                    tau0,
                    tau1,
                    gi,
                ) {
                let (sk, ui, alpha, beta, tau0, tau1, gi) = choose|
                    sk: int,
                    ui: int,
                    alpha: int,
                    beta: int,
                    tau0: int,
                    tau1: int,
                    gi: int,
                |
                    rka_keys(vk@, self.u@, sk) && #[trigger] rka_honest(
                        g_tilde@,
                        h_tilde@,
                        vk@,
                        sk,
                        x@,
                        *self,
                        ui,
                        alpha,
                        beta,
                        tau0,
                        tau1,
                        gi,
                    );
                lemma_inverse_unique(sk, ui, gi);
                lemma_cong_reduce(log_base(base@) * ui);
                lemma_cong_mul(log_base(base@), log_base(base@), ui, gi);
                assert(inv_statement(g@, base@, g_tilde@, h_tilde@, vk@, self.u@, sk, gi));
                assert(inv_honest(
                    g@,
                    base@,
                    g_tilde@,
                    h_tilde@,
                    vk@,
                    self.u@,
                    sk,
                    self.r,
                    alpha,
                    beta,
                    tau0,
                    tau1,
                    gi,
                ));
            }
        }
        r
    }
}

} // verus!

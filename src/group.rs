//! The prime-order group of Ed25519 and its scalar field, held as plain bytes.
//!
//! A `Scalar` is the canonical little-endian encoding of an integer below the
//! group order; a `Point` is the compressed encoding of a curve point. The
//! arithmetic itself is done by `curve25519-dalek`, the hashing by `sha2`; the
//! wrappers below state what they compute.
use sha2::Digest;
use vstd::arithmetic::div_mod::*;
use vstd::arithmetic::power2::pow2;
use vstd::prelude::*;

verus! {

/// The order of the prime-order subgroup of Ed25519: 2^252 + 27742317777372353535851937790883648493.
pub open spec fn group_order() -> int {
    pow2(252) as int + 27742317777372353535851937790883648493
}

/// An integer reduced modulo the group order.
pub open spec fn reduce(x: int) -> int {
    x % group_order()
}

/// The integer that a little-endian byte string encodes.
pub open spec fn le_val(s: Seq<u8>) -> nat
    decreases s.len(),
{
    if s.len() == 0 {
        0
    } else {
        s[0] as nat + 256 * le_val(s.drop_first())
    }
}

/// Whether a 32-byte string is the compressed encoding of a curve point
/// (`CompressedEdwardsY::decompress` returns `Some`).
pub uninterp spec fn decodes(enc: Seq<u8>) -> bool;

/// The encoding that `EdwardsPoint::compress` gives for the point that these
/// bytes decompress to.
pub uninterp spec fn recompress_of(enc: Seq<u8>) -> Seq<u8>;

/// Whether the point that these bytes decompress to lies in the prime-order
/// subgroup (`EdwardsPoint::is_torsion_free`).
pub uninterp spec fn in_subgroup(enc: Seq<u8>) -> bool;

/// The bytes are the canonical encoding of a point of the prime-order subgroup.
pub open spec fn torsion_free(enc: Seq<u8>) -> bool {
    decodes(enc) && recompress_of(enc) == enc && in_subgroup(enc)
}

/// The compressed encoding of the identity point.
pub open spec fn identity_enc() -> Seq<u8> {
    seq![1u8] + Seq::new(31, |i: int| 0u8)
}

/// The discrete logarithm of a point of the prime-order subgroup to the basepoint.
/// No function computes it; the subgroup is cyclic, so it exists for every
/// torsion-free point, and the arithmetic of the curve acts on it as below.
pub uninterp spec fn log_base(enc: Seq<u8>) -> int;

/// The encoding of `EdwardsPoint::hash_from_bytes::<Sha512>` on these bytes.
pub uninterp spec fn hash_point_of(b: Seq<u8>) -> Seq<u8>;


/// The SHA-512 digest of these bytes.
pub uninterp spec fn sha512_of(b: Seq<u8>) -> Seq<u8>;

/// The encoding of `EdwardsPoint * Scalar`.
pub uninterp spec fn mul_of(enc: Seq<u8>, s: int) -> Seq<u8>;

/// The encoding of `EdwardsPoint + EdwardsPoint`.
pub uninterp spec fn add_of(a: Seq<u8>, b: Seq<u8>) -> Seq<u8>;

/// A scalar: 32 bytes, the canonical little-endian encoding of an integer below the group order.
#[derive(Clone, Copy, Debug)]
pub struct Scalar {
    bytes: [u8; 32],
}

/// A point of the prime-order subgroup of Ed25519, held as its canonical
/// 32-byte compressed encoding.
#[derive(Clone, Copy, Debug)]
pub struct Point {
    enc: [u8; 32],
}

impl View for Scalar {
    type V = Seq<u8>;

    closed spec fn view(&self) -> Seq<u8> {
        self.bytes@
    }
}

impl View for Point {
    type V = Seq<u8>;

    closed spec fn view(&self) -> Seq<u8> {
        self.enc@
    }
}

impl Scalar {
    /// The integer below the group order that this scalar stands for.
    pub open spec fn val(&self) -> int {
        le_val(self@) as int
    }

    /// Every scalar is canonical.
    #[verifier::type_invariant]
    pub open spec fn inv(&self) -> bool {
        self.val() < group_order() && self@.len() == 32
    }

    /// The little-endian encoding.
    pub fn to_bytes(&self) -> (r: [u8; 32])
        ensures
            r@ == self@,
    {
        self.bytes
    }

    /// Relies on `Scalar::from_canonical_bytes` of curve25519-dalek: it accepts the
    /// bytes exactly when they encode an integer below the group order.
    #[verifier::external_body]
    pub fn from_bytes(b: [u8; 32]) -> (r: Option<Scalar>)
        ensures
            r is Some <==> le_val(b@) < group_order(),
            r is Some ==> r->0@ == b@,
    {
        curve25519_dalek::scalar::Scalar::from_canonical_bytes(b).map(|s| Scalar { bytes: s.to_bytes() })
    }

    /// Relies on `Scalar::random` of curve25519-dalek, drawn from the thread's
    /// CSPRNG: a reduced scalar, of unknown value.
    #[verifier::external_body]
    pub fn random() -> (r: Scalar) {
        let mut rng = rand::thread_rng();
        Scalar { bytes: curve25519_dalek::scalar::Scalar::random(&mut rng).to_bytes() }
    }

    /// Relies on `Scalar + Scalar` of curve25519-dalek: the sum modulo the group order.
    #[verifier::external_body]
    pub fn add(&self, o: &Scalar) -> (r: Scalar)
        ensures
            r.val() == reduce(self.val() + o.val()),
    {
        let a = curve25519_dalek::scalar::Scalar::from_bits(self.bytes);
        let b = curve25519_dalek::scalar::Scalar::from_bits(o.bytes);
        Scalar { bytes: (a + b).to_bytes() }
    }

    /// Relies on `Scalar - Scalar` of curve25519-dalek: the difference modulo the group order.
    #[verifier::external_body]
    pub fn sub(&self, o: &Scalar) -> (r: Scalar)
        ensures
            r.val() == reduce(self.val() - o.val()),
    {
        let a = curve25519_dalek::scalar::Scalar::from_bits(self.bytes);
        let b = curve25519_dalek::scalar::Scalar::from_bits(o.bytes);
        Scalar { bytes: (a - b).to_bytes() }
    }

    /// Relies on `Scalar * Scalar` of curve25519-dalek: the product modulo the group order.
    #[verifier::external_body]
    pub fn mul(&self, o: &Scalar) -> (r: Scalar)
        ensures
            r.val() == reduce(self.val() * o.val()),
    {
        let a = curve25519_dalek::scalar::Scalar::from_bits(self.bytes);
        let b = curve25519_dalek::scalar::Scalar::from_bits(o.bytes);
        Scalar { bytes: (a * b).to_bytes() }
    }

    /// Relies on `-Scalar` of curve25519-dalek: the negation modulo the group order.
    #[verifier::external_body]
    pub fn neg(&self) -> (r: Scalar)
        ensures
            r.val() == reduce(0 - self.val()),
    {
        let a = curve25519_dalek::scalar::Scalar::from_bits(self.bytes);
        Scalar { bytes: (-a).to_bytes() }
    }

    /// Relies on `Scalar::invert` of curve25519-dalek: the inverse modulo the group
    /// order of a nonzero scalar.
    #[verifier::external_body]
    fn invert_nonzero(&self) -> (r: Scalar)
        requires
            self.val() != 0,
        ensures
            reduce(self.val() * r.val()) == 1,
    {
        Scalar { bytes: curve25519_dalek::scalar::Scalar::from_bits(self.bytes).invert().to_bytes() }
    }

    /// Whether this scalar is zero.
    pub fn is_zero(&self) -> (r: bool)
        ensures
            r == (self.val() == 0),
    {
        proof {
            use_type_invariant(self);
            lemma_le_val_zero(self@);
        }
        let b = self.to_bytes();
        let mut i: usize = 0;
        while i < 32
            invariant
                0 <= i <= 32,
                b@ == self@,
                b@.len() == 32,
                forall|j: int| 0 <= j < i ==> b@[j] == 0,
            decreases 32 - i,
        {
            if b[i] != 0 {
                proof {
                    assert(b@[i as int] != 0);
                    lemma_le_val_zero(self@);
                }
                return false;
            }
            i = i + 1;
        }
        proof {
            lemma_le_val_zero(self@);
        }
        true
    }

    /// The inverse modulo the group order; `None` for zero, which has none.
    pub fn invert(&self) -> (r: Option<Scalar>)
        ensures
            r is None <==> self.val() == 0,
            r is Some ==> reduce(self.val() * r->0.val()) == 1,
    {
        if self.is_zero() {
            None
        } else {
            Some(self.invert_nonzero())
        }
    }

    /// Relies on `Scalar::from_bytes_mod_order_wide` of curve25519-dalek: the
    /// little-endian integer of 64 bytes reduced modulo the group order.
    #[verifier::external_body]
    fn from_wide(b: &Vec<u8>) -> (r: Scalar)
        requires
            b@.len() == 64,
        ensures
            r.val() == reduce(le_val(b@) as int),
    {
        let mut wide = [0u8; 64];
        wide.copy_from_slice(b.as_slice());
        Scalar { bytes: curve25519_dalek::scalar::Scalar::from_bytes_mod_order_wide(&wide).to_bytes() }
    }

    /// The SHA-512 digest of the bytes, read as a big-endian integer and reduced
    /// modulo the group order.
    pub fn hash_to_scalar(t: &Vec<u8>) -> (r: Scalar)
        ensures
            r.val() == digest_value(t@),
    {
        let d = sha512(t);
        let mut be: Vec<u8> = Vec::new();
        let mut j: usize = d.len();
        while j > 0
            invariant
                0 <= j <= d@.len(),
                d@.len() == 64,
                be@ == reversed(d@).subrange(0, (d@.len() - j) as int),
            decreases j,
        {
            j = j - 1;
            be.push(d[j]);
            proof {
                assert(reversed(d@).subrange(0, (d@.len() - j) as int) =~= reversed(d@).subrange(
                    0,
                    (d@.len() - j - 1) as int,
                ).push(d@[j as int]));
            }
        }
        proof {
            assert(reversed(d@).subrange(0, 64) =~= reversed(d@));
        }
        Scalar::from_wide(&be)
    }
}

impl Point {
    /// The point's compressed encoding.
    pub fn to_bytes(&self) -> (r: [u8; 32])
        ensures
            r@ == self@,
    {
        self.enc
    }

    /// Every point lies in the prime-order subgroup and is canonically encoded.
    #[verifier::type_invariant]
    pub open spec fn inv(&self) -> bool {
        torsion_free(self@) && self@.len() == 32
    }

    /// Relies on `CompressedEdwardsY::decompress` of curve25519-dalek, then
    /// `EdwardsPoint::compress`: `Some` exactly for the encodings of curve points,
    /// holding the canonical encoding of that point.
    #[verifier::external_body]
    fn recompress(b: [u8; 32]) -> (r: Option<[u8; 32]>)
        ensures
            r is Some <==> decodes(b@),
            r is Some ==> r->0@ == recompress_of(b@),
    {
        curve25519_dalek::edwards::CompressedEdwardsY(b).decompress().map(|p| p.compress().to_bytes())
    }

    /// Relies on `EdwardsPoint::is_torsion_free` of curve25519-dalek.
    #[verifier::external_body]
    fn subgroup_member(b: [u8; 32]) -> (r: bool)
        requires
            decodes(b@),
        ensures
            r == in_subgroup(b@),
    {
        curve25519_dalek::edwards::CompressedEdwardsY(b).decompress().unwrap().is_torsion_free()
    }

    /// The point that these bytes encode; `None` unless they are the canonical
    /// encoding of a point of the prime-order subgroup.
    pub fn from_bytes(b: [u8; 32]) -> (r: Option<Point>)
        ensures
            r is Some <==> torsion_free(b@),
            r is Some ==> r->0@ == b@,
    {
        let canonical = match Point::recompress(b) {
            Some(c) => c,
            None => {
                return None;
            },
        };
        if !array_eq(&canonical, &b) || !Point::subgroup_member(b) {
            return None;
        }
        Some(Point { enc: b })
    }

    /// Whether this is the identity point.
    pub fn is_identity(&self) -> (r: bool)
        ensures
            r == (self@ == identity_enc()),
    {
        let mut id = [0u8; 32];
        id[0] = 1;
        proof {
            assert(id@ =~= identity_enc());
        }
        array_eq(&self.enc, &id)
    }

    /// Relies on `ED25519_BASEPOINT_POINT` of curve25519-dalek: the generator of the
    /// prime-order subgroup.
    #[verifier::external_body]
    pub fn generator() -> (r: Point)
        ensures
            r@ == basepoint_enc(),
            torsion_free(r@),
            log_base(r@) == 1,
    {
        Point { enc: curve25519_dalek::constants::ED25519_BASEPOINT_POINT.compress().to_bytes() }
    }

    /// Relies on `EdwardsPoint * Scalar` of curve25519-dalek. On the prime-order
    /// subgroup it multiplies the discrete logarithm, and two points of the
    /// subgroup with the same logarithm have the same encoding.
    #[verifier::external_body]
    pub fn mul(&self, s: &Scalar) -> (r: Point)
        ensures
            r@ == mul_of(self@, s.val()),
            torsion_free(r@),
            torsion_free(self@) ==> log_base(r@) == reduce(log_base(self@) * s.val()),
            forall|q: Seq<u8>|
                torsion_free(r@) && torsion_free(q) && reduce(#[trigger] log_base(q)) == reduce(log_base(r@)) ==> q == r@,
    {
        let p = curve25519_dalek::edwards::CompressedEdwardsY(self.enc).decompress().unwrap();
        let k = curve25519_dalek::scalar::Scalar::from_bits(s.bytes);
        Point { enc: (p * k).compress().to_bytes() }
    }

    /// Relies on `EdwardsPoint + EdwardsPoint` of curve25519-dalek. On the
    /// prime-order subgroup it adds the discrete logarithms.
    #[verifier::external_body]
    pub fn add(&self, o: &Point) -> (r: Point)
        ensures
            r@ == add_of(self@, o@),
            torsion_free(r@),
            torsion_free(self@) && torsion_free(o@) ==> log_base(r@) == reduce(log_base(self@) + log_base(o@)),
            forall|q: Seq<u8>|
                torsion_free(r@) && torsion_free(q) && reduce(#[trigger] log_base(q)) == reduce(log_base(r@)) ==> q == r@,
    {
        let a = curve25519_dalek::edwards::CompressedEdwardsY(self.enc).decompress().unwrap();
        let b = curve25519_dalek::edwards::CompressedEdwardsY(o.enc).decompress().unwrap();
        Point { enc: (a + b).compress().to_bytes() }
    }

    /// Relies on `EdwardsPoint::mul_by_cofactor` of curve25519-dalek: the point
    /// times eight.
    #[verifier::external_body]
    pub fn mul_by_cofactor(&self) -> (r: Point)
        ensures
            r@ == mul_of(self@, 8),
            torsion_free(r@),
    {
        let p = curve25519_dalek::edwards::CompressedEdwardsY(self.enc).decompress().unwrap();
        Point { enc: p.mul_by_cofactor().compress().to_bytes() }
    }

    /// Relies on `EdwardsPoint::hash_from_bytes::<Sha512>` of curve25519-dalek:
    /// Elligator2 on the digest, then multiplied by the cofactor, so the result
    /// lies in the prime-order subgroup.
    #[verifier::external_body]
    pub fn hash_from_bytes(b: &Vec<u8>) -> (r: Point)
        ensures
            r@ == hash_point_of(b@),
            torsion_free(r@),
    {
        let p = curve25519_dalek::edwards::EdwardsPoint::hash_from_bytes::<sha2::Sha512>(b.as_slice());
        Point { enc: p.compress().to_bytes() }
    }

    /// The SHA-512 digest of the encoding.
    pub fn digest(&self) -> (r: Vec<u8>)
        ensures
            r@ == sha512_of(self@),
            r@.len() == 64,
    {
        let mut t: Vec<u8> = Vec::new();
        push_point(&mut t, self);
        sha512(&t)
    }
}

/// Relies on `Sha512::digest` of sha2: the 64-byte digest.
#[verifier::external_body]
pub fn sha512(b: &Vec<u8>) -> (r: Vec<u8>)
    ensures
        r@ == sha512_of(b@),
        r@.len() == 64,
{
    sha2::Sha512::digest(b.as_slice()).to_vec()
}

/// The bytes in reverse order.
pub open spec fn reversed(s: Seq<u8>) -> Seq<u8> {
    Seq::new(s.len(), |i: int| s[s.len() - 1 - i])
}

/// The SHA-512 digest of the bytes as a big-endian integer, reduced modulo the group order.
pub open spec fn digest_value(b: Seq<u8>) -> int {
    reduce(le_val(reversed(sha512_of(b))) as int)
}

/// Two little-endian encodings of one length that stand for one integer are the same.
pub proof fn lemma_le_val_injective(a: Seq<u8>, b: Seq<u8>)
    requires
        a.len() == b.len(),
        le_val(a) == le_val(b),
    ensures
        a == b,
    decreases a.len(),
{
    if a.len() > 0 {
        let x = a[0] as int;
        let y = b[0] as int;
        let ra = le_val(a.drop_first()) as int;
        let rb = le_val(b.drop_first()) as int;
        assert(x + 256 * ra == y + 256 * rb);
        assert(x == y && ra == rb) by (nonlinear_arith)
            requires
                x + 256 * ra == y + 256 * rb,
                0 <= x < 256,
                0 <= y < 256,
                ra >= 0,
                rb >= 0,
        ;
        lemma_le_val_injective(a.drop_first(), b.drop_first());
        assert(a =~= seq![a[0]] + a.drop_first());
        assert(b =~= seq![b[0]] + b.drop_first());
    } else {
        assert(a =~= b);
    }
}

/// The compressed encoding of the Ed25519 basepoint.
pub open spec fn basepoint_enc() -> Seq<u8> {
    seq![0x58u8] + Seq::new(31, |i: int| 0x66u8)
}

/// Integers that agree modulo the group order, multiplied and summed as a
/// Schnorr response is checked, agree again: with `x = p·sk` and
/// `s = k − c·sk`, `x·c + p·s = p·k`.
pub proof fn lemma_response(p: int, x: int, c: int, sk: int, k: int, s: int)
    requires
        reduce(x) == reduce(p * sk),
        s == reduce(k - c * sk),
    ensures
        reduce(reduce(x * c) + reduce(p * s)) == reduce(p * k),
{
    let m = group_order();
    lemma_mul_mod_noop_left(x, c, m);
    lemma_mul_mod_noop_left(p * sk, c, m);
    lemma_mul_mod_noop_right(p, k - c * sk, m);
    lemma_add_mod_noop(p * sk * c, p * (k - c * sk), m);
    assert(p * sk * c + p * (k - c * sk) == p * k) by (nonlinear_arith);
}

/// Two integers agree modulo the group order.
pub open spec fn cong(a: int, b: int) -> bool {
    reduce(a) == reduce(b)
}

pub proof fn lemma_cong_reduce(a: int)
    ensures
        cong(reduce(a), a),
{
    lemma_mod_twice(a, group_order());
}

pub proof fn lemma_cong_add(a: int, b: int, c: int, d: int)
    requires
        cong(a, b),
        cong(c, d),
    ensures
        cong(a + c, b + d),
{
    lemma_add_mod_noop(a, c, group_order());
    lemma_add_mod_noop(b, d, group_order());
}

pub proof fn lemma_cong_sub(a: int, b: int, c: int, d: int)
    requires
        cong(a, b),
        cong(c, d),
    ensures
        cong(a - c, b - d),
{
    lemma_sub_mod_noop(a, c, group_order());
    lemma_sub_mod_noop(b, d, group_order());
}

pub proof fn lemma_cong_mul(a: int, b: int, c: int, d: int)
    requires
        cong(a, b),
        cong(c, d),
    ensures
        cong(a * c, b * d),
{
    lemma_mul_mod_noop(a, c, group_order());
    lemma_mul_mod_noop(b, d, group_order());
}

/// Inverses modulo the group order agree modulo the group order.
pub proof fn lemma_inverse_unique(a: int, b: int, c: int)
    requires
        reduce(a * b) == 1,
        reduce(a * c) == 1,
    ensures
        cong(b, c),
{
    lemma_small_mod(1, group_order() as nat);
    lemma_cong_mul(b, b, a * c, 1);
    lemma_cong_mul(a * b, 1, c, c);
    assert(b * (a * c) == (a * b) * c) by (nonlinear_arith);
}

/// A little-endian encoding stands for zero exactly when every byte is zero.
pub proof fn lemma_le_val_zero(s: Seq<u8>)
    ensures
        le_val(s) == 0 <==> forall|j: int| 0 <= j < s.len() ==> s[j] == 0,
    decreases s.len(),
{
    if s.len() > 0 {
        lemma_le_val_zero(s.drop_first());
        if le_val(s) == 0 {
            assert forall|j: int| 0 <= j < s.len() implies s[j] == 0 by {
                if j > 0 {
                    assert(s[j] == s.drop_first()[j - 1]);
                }
            }
        }
        if forall|j: int| 0 <= j < s.len() ==> s[j] == 0 {
            assert forall|j: int| 0 <= j < s.drop_first().len() implies s.drop_first()[j] == 0 by {
                assert(s.drop_first()[j] == s[j + 1]);
            }
        }
    }
}

/// Appends 32 bytes to `out`.
pub fn push_bytes(out: &mut Vec<u8>, b: &[u8; 32])
    ensures
        final(out)@ == old(out)@ + b@,
{
    let ghost start = out@;
    let mut i: usize = 0;
    while i < 32
        invariant
            0 <= i <= 32,
            b@.len() == 32,
            out@ == start + b@.subrange(0, i as int),
        decreases 32 - i,
    {
        out.push(b[i]);
        proof {
            assert(b@.subrange(0, i + 1) == b@.subrange(0, i as int).push(b@[i as int]));
        }
        i = i + 1;
    }
    proof {
        assert(b@.subrange(0, 32) == b@);
    }
}

/// Appends the encoding of `p` to `out`.
pub fn push_point(out: &mut Vec<u8>, p: &Point)
    ensures
        final(out)@ == old(out)@ + p@,
{
    push_bytes(out, &p.to_bytes());
}

/// Whether two scalars are the same.
pub fn scalar_eq(a: &Scalar, b: &Scalar) -> (r: bool)
    ensures
        r == (a@ == b@),
        r == (a.val() == b.val()),
{
    proof {
        if a.val() == b.val() {
            lemma_le_val_injective(a@, b@);
        }
        use_type_invariant(a);
        use_type_invariant(b);
    }
    let x = a.to_bytes();
    let y = b.to_bytes();
    let mut i: usize = 0;
    while i < 32
        invariant
            0 <= i <= 32,
            x@.len() == 32,
            y@.len() == 32,
            x@ == a@,
            y@ == b@,
            forall|j: int| 0 <= j < i ==> x@[j] == y@[j],
        decreases 32 - i,
    {
        if x[i] != y[i] {
            proof {
                assert(x@[i as int] != y@[i as int]);
                if a.val() == b.val() {
                    lemma_le_val_injective(a@, b@);
                }
            }
            return false;
        }
        i = i + 1;
    }
    proof {
        assert(x@ =~= y@);
    }
    true
}

/// Whether two 32-byte arrays are the same.
pub fn array_eq(a: &[u8; 32], b: &[u8; 32]) -> (r: bool)
    ensures
        r == (a@ == b@),
{
    let mut i: usize = 0;
    while i < 32
        invariant
            0 <= i <= 32,
            a@.len() == 32,
            b@.len() == 32,
            forall|j: int| 0 <= j < i ==> a@[j] == b@[j],
        decreases 32 - i,
    {
        if a[i] != b[i] {
            assert(a@[i as int] != b@[i as int]);
            return false;
        }
        i = i + 1;
    }
    proof {
        assert(a@ =~= b@);
    }
    true
}

/// Whether two byte strings are the same.
pub fn bytes_eq(a: &Vec<u8>, b: &Vec<u8>) -> (r: bool)
    ensures
        r == (a@ == b@),
{
    if a.len() != b.len() {
        return false;
    }
    let mut i: usize = 0;
    while i < a.len()
        invariant
            0 <= i <= a@.len(),
            a@.len() == b@.len(),
            forall|j: int| 0 <= j < i ==> a@[j] == b@[j],
        decreases a@.len() - i,
    {
        if a[i] != b[i] {
            return false;
        }
        i = i + 1;
    }
    proof {
        assert(a@ =~= b@);
    }
    true
}

} // verus!

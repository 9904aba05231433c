//! The algebraic laws of the tower-field operations.
//!
//! Every law is stated over the spec-level definitions in `arithmetic`;
//! since each executable operation returns exactly its definition's
//! value, the laws hold of the executable results as well.

use vstd::prelude::*;

use crate::arithmetic::hi;
use crate::arithmetic::is_pow2;
use crate::arithmetic::is_zero;
use crate::arithmetic::lo;
use crate::arithmetic::lemma_delta_len;
use crate::arithmetic::lemma_inv_len;
use crate::arithmetic::lemma_mul_len;
use crate::arithmetic::lemma_rot_len;
use crate::arithmetic::spec_delta;
use crate::arithmetic::spec_inv;
use crate::arithmetic::spec_invertible;
use crate::arithmetic::one_of;
use crate::arithmetic::spec_add;
use crate::arithmetic::spec_mul;
use crate::arithmetic::spec_rot;
use crate::arithmetic::zero_of;

verus! {

/// An element is zero exactly when it equals the zero element of its length.
pub proof fn lemma_is_zero(a: Seq<bool>)
    ensures
        is_zero(a) <==> a == zero_of(a.len()),
{
    if is_zero(a) {
        assert(a =~= zero_of(a.len()));
    }
}

/// Every element is its own additive inverse: `a + a == 0`.
pub proof fn lemma_add_self(a: Seq<bool>)
    ensures
        spec_add(a, a) == zero_of(a.len()),
{
    assert(spec_add(a, a) =~= zero_of(a.len()));
}

/// The zero element is the additive identity: `a + 0 == a`.
pub proof fn lemma_add_zero(a: Seq<bool>)
    ensures
        spec_add(a, zero_of(a.len())) == a,
{
    assert(spec_add(a, zero_of(a.len())) =~= a);
}

/// Addition is commutative.
pub proof fn lemma_add_comm(a: Seq<bool>, b: Seq<bool>)
    requires
        a.len() == b.len(),
    ensures
        spec_add(a, b) == spec_add(b, a),
{
    assert(spec_add(a, b) =~= spec_add(b, a));
}

/// Addition is associative.
pub proof fn lemma_add_assoc(a: Seq<bool>, b: Seq<bool>, c: Seq<bool>)
    requires
        a.len() == b.len(),
        b.len() == c.len(),
    ensures
        spec_add(a, spec_add(b, c)) == spec_add(spec_add(a, b), c),
{
    assert(spec_add(a, spec_add(b, c)) =~= spec_add(spec_add(a, b), c));
}

/// An element is the concatenation of its halves.
proof fn lemma_lo_hi(a: Seq<bool>)
    ensures
        lo(a) + hi(a) == a,
{
    assert(lo(a) + hi(a) =~= a);
}

/// The halves of a concatenation of two equal-length parts are the parts.
proof fn lemma_split(x: Seq<bool>, y: Seq<bool>)
    requires
        x.len() == y.len(),
    ensures
        lo(x + y) == x,
        hi(x + y) == y,
{
    assert(lo(x + y) =~= x);
    assert(hi(x + y) =~= y);
}

/// Addition acts on the halves independently.
proof fn lemma_add_halves(a: Seq<bool>, b: Seq<bool>)
    requires
        a.len() == b.len(),
        a.len() >= 2,
    ensures
        lo(spec_add(a, b)) == spec_add(lo(a), lo(b)),
        hi(spec_add(a, b)) == spec_add(hi(a), hi(b)),
{
    assert(lo(spec_add(a, b)) =~= spec_add(lo(a), lo(b)));
    assert(hi(spec_add(a, b)) =~= spec_add(hi(a), hi(b)));
}

/// The halves of the zero element are the zero elements of half length.
proof fn lemma_zero_halves(n: nat)
    requires
        n >= 2,
    ensures
        lo(zero_of(n)) == zero_of(n / 2),
        hi(zero_of(n)) == zero_of((n - n / 2) as nat),
{
    assert(lo(zero_of(n)) =~= zero_of(n / 2));
    assert(hi(zero_of(n)) =~= zero_of((n - n / 2) as nat));
}

/// The low half of the identity is the half-length identity; the high
/// half is zero.
proof fn lemma_one_halves(n: nat)
    requires
        n >= 2,
    ensures
        lo(one_of(n)) == one_of(n / 2),
        hi(one_of(n)) == zero_of((n - n / 2) as nat),
{
    assert(lo(one_of(n)) =~= one_of(n / 2));
    assert(hi(one_of(n)) =~= zero_of((n - n / 2) as nat));
}

/// Rotation fixes the zero element.
pub proof fn lemma_rot_zero(n: nat)
    ensures
        spec_rot(zero_of(n)) == zero_of(n),
    decreases n,
{
    if n <= 1 {
        assert(spec_rot(zero_of(n)) =~= zero_of(n));
    } else {
        lemma_zero_halves(n);
        lemma_rot_zero((n - n / 2) as nat);
        assert(spec_rot(zero_of(n)) =~= zero_of(n));
    }
}

/// Rotation is additive: `rot(a + b) == rot(a) + rot(b)`.
pub proof fn lemma_rot_add(a: Seq<bool>, b: Seq<bool>)
    requires
        a.len() == b.len(),
    ensures
        spec_rot(spec_add(a, b)) == spec_add(spec_rot(a), spec_rot(b)),
    decreases a.len(),
{
    let s = spec_add(a, b);
    if a.len() <= 1 {
        assert(spec_rot(s) =~= spec_add(spec_rot(a), spec_rot(b)));
    } else {
        lemma_add_halves(a, b);
        lemma_rot_add(hi(a), hi(b));
        lemma_rot_len(hi(a));
        lemma_rot_len(hi(b));
        assert(spec_rot(s) =~= spec_add(spec_rot(a), spec_rot(b)));
    }
}

/// A product splits into the same halves that `spec_mul`'s recursion builds.
proof fn lemma_mul_halves(a: Seq<bool>, b: Seq<bool>)
    requires
        a.len() == b.len(),
        a.len() >= 2,
        is_pow2(a.len()),
    ensures
        lo(spec_mul(a, b)) == spec_add(spec_mul(lo(a), lo(b)), spec_mul(hi(a), hi(b))),
        hi(spec_mul(a, b)) == spec_add(
            spec_mul(lo(a), hi(b)),
            spec_add(spec_mul(hi(a), lo(b)), spec_rot(spec_mul(hi(a), hi(b)))),
        ),
{
    let low_part = spec_add(spec_mul(lo(a), lo(b)), spec_mul(hi(a), hi(b)));
    let high_part = spec_add(
        spec_mul(lo(a), hi(b)),
        spec_add(spec_mul(hi(a), lo(b)), spec_rot(spec_mul(hi(a), hi(b)))),
    );
    lemma_mul_len(lo(a), lo(b));
    lemma_mul_len(lo(a), hi(b));
    lemma_split(low_part, high_part);
}

/// Multiplication is commutative.
pub proof fn lemma_mul_comm(a: Seq<bool>, b: Seq<bool>)
    requires
        a.len() == b.len(),
        is_pow2(a.len()),
    ensures
        spec_mul(a, b) == spec_mul(b, a),
    decreases a.len(),
{
    if a.len() <= 1 {
        assert(spec_mul(a, b) =~= spec_mul(b, a));
    } else {
        lemma_mul_comm(lo(a), lo(b));
        lemma_mul_comm(lo(a), hi(b));
        lemma_mul_comm(hi(a), lo(b));
        lemma_mul_comm(hi(a), hi(b));
        lemma_mul_len(lo(a), lo(b));
        lemma_mul_len(lo(a), hi(b));
        lemma_mul_len(hi(a), lo(b));
        lemma_mul_len(hi(a), hi(b));
        lemma_rot_len(spec_mul(hi(a), hi(b)));
        assert(spec_mul(a, b) =~= spec_mul(b, a));
    }
}

/// The zero element absorbs multiplication: `a * 0 == 0`.
pub proof fn lemma_mul_zero(a: Seq<bool>)
    requires
        is_pow2(a.len()),
    ensures
        spec_mul(a, zero_of(a.len())) == zero_of(a.len()),
    decreases a.len(),
{
    let n = a.len();
    let z = zero_of(n);
    if n <= 1 {
        assert(spec_mul(a, z) =~= z);
    } else {
        let m = n / 2;
        lemma_zero_halves(n);
        lemma_mul_zero(lo(a));
        lemma_mul_zero(hi(a));
        lemma_rot_zero(m);
        assert(spec_mul(a, z) =~= z);
    }
}

/// The zero element absorbs multiplication from the left as well.
pub proof fn lemma_mul_zero_l(a: Seq<bool>)
    requires
        is_pow2(a.len()),
    ensures
        spec_mul(zero_of(a.len()), a) == zero_of(a.len()),
{
    lemma_mul_comm(zero_of(a.len()), a);
    lemma_mul_zero(a);
}

/// The identity element is the multiplicative identity: `a * 1 == a`.
pub proof fn lemma_mul_one(a: Seq<bool>)
    requires
        is_pow2(a.len()),
    ensures
        spec_mul(a, one_of(a.len())) == a,
    decreases a.len(),
{
    let n = a.len();
    let o = one_of(n);
    if n <= 1 {
        assert(spec_mul(a, o) =~= a);
    } else {
        let m = n / 2;
        lemma_one_halves(n);
        lemma_mul_one(lo(a));
        lemma_mul_one(hi(a));
        lemma_mul_zero(lo(a));
        lemma_mul_zero(hi(a));
        lemma_rot_zero(m);
        lemma_lo_hi(a);
        assert(spec_mul(a, o) =~= a);
    }
}

/// Multiplication distributes over addition: `a * (b + c) == a*b + a*c`.
pub proof fn lemma_mul_dist(a: Seq<bool>, b: Seq<bool>, c: Seq<bool>)
    requires
        a.len() == b.len(),
        b.len() == c.len(),
        is_pow2(a.len()),
    ensures
        spec_mul(a, spec_add(b, c)) == spec_add(spec_mul(a, b), spec_mul(a, c)),
    decreases a.len(),
{
    let s = spec_add(b, c);
    if a.len() <= 1 {
        assert(spec_mul(a, s) =~= spec_add(spec_mul(a, b), spec_mul(a, c)));
    } else {
        lemma_add_halves(b, c);
        lemma_mul_dist(lo(a), lo(b), lo(c));
        lemma_mul_dist(lo(a), hi(b), hi(c));
        lemma_mul_dist(hi(a), lo(b), lo(c));
        lemma_mul_dist(hi(a), hi(b), hi(c));
        lemma_mul_len(lo(a), lo(b));
        lemma_mul_len(lo(a), lo(c));
        lemma_mul_len(lo(a), hi(b));
        lemma_mul_len(lo(a), hi(c));
        lemma_mul_len(hi(a), lo(b));
        lemma_mul_len(hi(a), lo(c));
        lemma_mul_len(hi(a), hi(b));
        lemma_mul_len(hi(a), hi(c));
        lemma_rot_add(spec_mul(hi(a), hi(b)), spec_mul(hi(a), hi(c)));
        lemma_rot_len(spec_mul(hi(a), hi(b)));
        lemma_rot_len(spec_mul(hi(a), hi(c)));
        assert(spec_mul(a, s) =~= spec_add(spec_mul(a, b), spec_mul(a, c)));
    }
}

/// Multiplication distributes over addition from the left.
pub proof fn lemma_mul_dist_l(a: Seq<bool>, b: Seq<bool>, c: Seq<bool>)
    requires
        a.len() == b.len(),
        b.len() == c.len(),
        is_pow2(a.len()),
    ensures
        spec_mul(spec_add(a, b), c) == spec_add(spec_mul(a, c), spec_mul(b, c)),
{
    lemma_mul_comm(spec_add(a, b), c);
    lemma_mul_dist(c, a, b);
    lemma_mul_comm(a, c);
    lemma_mul_comm(b, c);
}

/// Rotation commutes with multiplication: `a * rot(b) == rot(a * b)`.
///
/// Rotation is multiplication by the top-level generator, so this is an
/// instance of associativity and commutativity, proved directly.
pub proof fn lemma_mul_rot(a: Seq<bool>, b: Seq<bool>)
    requires
        a.len() == b.len(),
        is_pow2(a.len()),
    ensures
        spec_mul(a, spec_rot(b)) == spec_rot(spec_mul(a, b)),
    decreases a.len(),
{
    let n = a.len();
    if n <= 1 {
        assert(spec_mul(a, spec_rot(b)) =~= spec_rot(spec_mul(a, b)));
    } else {
        let al = lo(a);
        let ah = hi(a);
        let bl = lo(b);
        let bh = hi(b);
        let u = spec_add(bl, spec_rot(bh));
        lemma_rot_len(bh);
        lemma_split(bh, u);
        assert(spec_rot(b) == bh + u);
        // the four half products and their lengths
        lemma_mul_len(al, bl);
        lemma_mul_len(al, bh);
        lemma_mul_len(ah, bl);
        lemma_mul_len(ah, bh);
        lemma_mul_len(al, u);
        lemma_mul_len(ah, u);
        lemma_rot_len(spec_mul(al, bh));
        lemma_rot_len(spec_mul(ah, bh));
        lemma_rot_len(spec_mul(ah, bl));
        // al * u == al*bl + rot(al*bh), and likewise for ah
        lemma_mul_dist(al, bl, spec_rot(bh));
        lemma_mul_dist(ah, bl, spec_rot(bh));
        lemma_mul_rot(al, bh);
        lemma_mul_rot(ah, bh);
        assert(spec_mul(al, u) == spec_add(spec_mul(al, bl), spec_rot(spec_mul(al, bh))));
        assert(spec_mul(ah, u) == spec_add(spec_mul(ah, bl), spec_rot(spec_mul(ah, bh))));
        // rot(ah * u) splits over that sum
        lemma_rot_add(spec_mul(ah, bl), spec_rot(spec_mul(ah, bh)));
        // both sides split into halves
        lemma_rot_len(b);
        lemma_mul_halves(a, spec_rot(b));
        lemma_mul_halves(a, b);
        let p = spec_mul(a, b);
        lemma_mul_len(a, b);
        lemma_rot_len(hi(p));
        // rot(hi(p)) splits over the three-term sum
        lemma_rot_add(spec_mul(al, bh), spec_add(spec_mul(ah, bl), spec_rot(spec_mul(ah, bh))));
        lemma_lo_hi(spec_mul(a, spec_rot(b)));
        lemma_lo_hi(spec_rot(p));
        assert(lo(spec_mul(a, spec_rot(b))) =~= lo(spec_rot(p)));
        assert(hi(spec_mul(a, spec_rot(b))) =~= hi(spec_rot(p)));
    }
}

/// Rotation commutes with multiplication on the left operand too.
pub proof fn lemma_mul_rot_l(a: Seq<bool>, b: Seq<bool>)
    requires
        a.len() == b.len(),
        is_pow2(a.len()),
    ensures
        spec_mul(spec_rot(a), b) == spec_rot(spec_mul(a, b)),
{
    lemma_rot_len(a);
    lemma_mul_comm(spec_rot(a), b);
    lemma_mul_rot(b, a);
    lemma_mul_comm(b, a);
}

/// Multiplication is associative.
pub proof fn lemma_mul_assoc(a: Seq<bool>, b: Seq<bool>, c: Seq<bool>)
    requires
        a.len() == b.len(),
        b.len() == c.len(),
        is_pow2(a.len()),
    ensures
        spec_mul(a, spec_mul(b, c)) == spec_mul(spec_mul(a, b), c),
    decreases a.len(),
{
    let n = a.len();
    if n <= 1 {
        assert(spec_mul(a, spec_mul(b, c)) =~= spec_mul(spec_mul(a, b), c));
    } else {
        let al = lo(a);
        let ah = hi(a);
        let bl = lo(b);
        let bh = hi(b);
        let cl = lo(c);
        let ch = hi(c);
        let p = spec_mul(a, b);
        let q = spec_mul(b, c);
        lemma_mul_len(a, b);
        lemma_mul_len(b, c);
        lemma_mul_halves(a, b);
        lemma_mul_halves(b, c);
        // lengths of the nine pair products
        lemma_mul_len(al, bl);
        lemma_mul_len(al, bh);
        lemma_mul_len(ah, bl);
        lemma_mul_len(ah, bh);
        lemma_mul_len(bl, cl);
        lemma_mul_len(bl, ch);
        lemma_mul_len(bh, cl);
        lemma_mul_len(bh, ch);
        lemma_rot_len(spec_mul(ah, bh));
        lemma_rot_len(spec_mul(bh, ch));
        // canonical triple products, by associativity one level down
        lemma_mul_assoc(al, bl, cl);
        lemma_mul_assoc(al, bl, ch);
        lemma_mul_assoc(al, bh, cl);
        lemma_mul_assoc(al, bh, ch);
        lemma_mul_assoc(ah, bl, cl);
        lemma_mul_assoc(ah, bl, ch);
        lemma_mul_assoc(ah, bh, cl);
        lemma_mul_assoc(ah, bh, ch);
        let t_lll = spec_mul(al, spec_mul(bl, cl));
        let t_llh = spec_mul(al, spec_mul(bl, ch));
        let t_lhl = spec_mul(al, spec_mul(bh, cl));
        let t_lhh = spec_mul(al, spec_mul(bh, ch));
        let t_hll = spec_mul(ah, spec_mul(bl, cl));
        let t_hlh = spec_mul(ah, spec_mul(bl, ch));
        let t_hhl = spec_mul(ah, spec_mul(bh, cl));
        let t_hhh = spec_mul(ah, spec_mul(bh, ch));
        lemma_mul_len(al, spec_mul(bl, cl));
        lemma_mul_len(al, spec_mul(bl, ch));
        lemma_mul_len(al, spec_mul(bh, cl));
        lemma_mul_len(al, spec_mul(bh, ch));
        lemma_mul_len(ah, spec_mul(bl, cl));
        lemma_mul_len(ah, spec_mul(bl, ch));
        lemma_mul_len(ah, spec_mul(bh, cl));
        lemma_mul_len(ah, spec_mul(bh, ch));
        lemma_rot_len(t_lhh);
        lemma_rot_len(t_hlh);
        lemma_rot_len(t_hhl);
        lemma_rot_len(t_hhh);
        lemma_rot_len(spec_rot(t_hhh));
        // expand al * ql, ah * ql
        lemma_mul_dist(al, spec_mul(bl, cl), spec_mul(bh, ch));
        lemma_mul_dist(ah, spec_mul(bl, cl), spec_mul(bh, ch));
        assert(spec_mul(al, lo(q)) == spec_add(t_lll, t_lhh));
        assert(spec_mul(ah, lo(q)) == spec_add(t_hll, t_hhh));
        // expand al * qh, ah * qh
        lemma_mul_dist(al, spec_mul(bl, ch), spec_add(spec_mul(bh, cl), spec_rot(spec_mul(bh, ch))));
        lemma_mul_dist(ah, spec_mul(bl, ch), spec_add(spec_mul(bh, cl), spec_rot(spec_mul(bh, ch))));
        lemma_mul_dist(al, spec_mul(bh, cl), spec_rot(spec_mul(bh, ch)));
        lemma_mul_dist(ah, spec_mul(bh, cl), spec_rot(spec_mul(bh, ch)));
        lemma_mul_rot(al, spec_mul(bh, ch));
        lemma_mul_rot(ah, spec_mul(bh, ch));
        assert(spec_mul(al, hi(q)) == spec_add(t_llh, spec_add(t_lhl, spec_rot(t_lhh))));
        assert(spec_mul(ah, hi(q)) == spec_add(t_hlh, spec_add(t_hhl, spec_rot(t_hhh))));
        // rot of ah * qh
        lemma_rot_add(t_hlh, spec_add(t_hhl, spec_rot(t_hhh)));
        lemma_rot_add(t_hhl, spec_rot(t_hhh));
        assert(spec_rot(spec_mul(ah, hi(q))) == spec_add(
            spec_rot(t_hlh),
            spec_add(spec_rot(t_hhl), spec_rot(spec_rot(t_hhh))),
        ));
        // expand pl * cl, pl * ch: the pair products regroup by the
        // half-length associativity above
        lemma_mul_dist_l(spec_mul(al, bl), spec_mul(ah, bh), cl);
        lemma_mul_dist_l(spec_mul(al, bl), spec_mul(ah, bh), ch);
        assert(spec_mul(lo(p), cl) == spec_add(t_lll, t_hhl));
        assert(spec_mul(lo(p), ch) == spec_add(t_llh, t_hhh));
        // expand ph * cl, ph * ch
        lemma_mul_dist_l(spec_mul(al, bh), spec_add(spec_mul(ah, bl), spec_rot(spec_mul(ah, bh))), cl);
        lemma_mul_dist_l(spec_mul(al, bh), spec_add(spec_mul(ah, bl), spec_rot(spec_mul(ah, bh))), ch);
        lemma_mul_dist_l(spec_mul(ah, bl), spec_rot(spec_mul(ah, bh)), cl);
        lemma_mul_dist_l(spec_mul(ah, bl), spec_rot(spec_mul(ah, bh)), ch);
        lemma_mul_rot_l(spec_mul(ah, bh), cl);
        lemma_mul_rot_l(spec_mul(ah, bh), ch);
        assert(spec_mul(hi(p), cl) == spec_add(t_lhl, spec_add(t_hll, spec_rot(t_hhl))));
        assert(spec_mul(hi(p), ch) == spec_add(t_lhh, spec_add(t_hlh, spec_rot(t_hhh))));
        // rot of ph * ch
        lemma_rot_add(t_lhh, spec_add(t_hlh, spec_rot(t_hhh)));
        lemma_rot_add(t_hlh, spec_rot(t_hhh));
        assert(spec_rot(spec_mul(hi(p), ch)) == spec_add(
            spec_rot(t_lhh),
            spec_add(spec_rot(t_hlh), spec_rot(spec_rot(t_hhh))),
        ));
        // assemble both sides from their halves
        lemma_mul_halves(a, q);
        lemma_mul_halves(p, c);
        lemma_mul_len(al, lo(q));
        lemma_mul_len(al, hi(q));
        lemma_mul_len(ah, lo(q));
        lemma_mul_len(ah, hi(q));
        lemma_mul_len(lo(p), cl);
        lemma_mul_len(lo(p), ch);
        lemma_mul_len(hi(p), cl);
        lemma_mul_len(hi(p), ch);
        lemma_rot_len(spec_mul(ah, hi(q)));
        lemma_rot_len(spec_mul(hi(p), ch));
        lemma_rot_len(t_lhl);
        lemma_rot_len(t_lhh);
        assert(lo(spec_mul(a, q)) =~= lo(spec_mul(p, c)));
        assert(hi(spec_mul(a, q)) =~= hi(spec_mul(p, c)));
        lemma_lo_hi(spec_mul(a, q));
        lemma_lo_hi(spec_mul(p, c));
    }
}

/// The conjugate of an element over its subfield: for `x == xl + xh*g`,
/// the image `(xl + g_prev*xh) + xh*g` of `x` under the nontrivial
/// automorphism of the top quadratic extension.
spec fn conj(x: Seq<bool>) -> Seq<bool>
    recommends
        x.len() >= 2,
{
    spec_add(lo(x), spec_rot(hi(x))) + hi(x)
}

/// An element times its conjugate is its discriminant, embedded in the
/// subfield (high half zero).
proof fn lemma_mul_conj(x: Seq<bool>)
    requires
        x.len() >= 2,
        is_pow2(x.len()),
    ensures
        spec_mul(x, conj(x)) == spec_delta(x) + zero_of(x.len() / 2),
{
    let m = x.len() / 2;
    let xl = lo(x);
    let xh = hi(x);
    let u = spec_add(xl, spec_rot(xh));
    lemma_rot_len(xh);
    lemma_split(u, xh);
    assert(conj(x).len() == x.len());
    lemma_mul_halves(x, conj(x));
    lemma_mul_len(xl, xh);
    lemma_mul_len(xh, xl);
    lemma_mul_len(xh, xh);
    lemma_mul_len(xl, u);
    lemma_mul_len(xh, u);
    lemma_rot_len(spec_mul(xh, xh));
    // xh * u == xh*xl + rot(xh*xh), and xh*xl == xl*xh, so the high half
    // of the product cancels to zero
    lemma_mul_dist(xh, xl, spec_rot(xh));
    lemma_mul_rot(xh, xh);
    lemma_mul_comm(xh, xl);
    assert(hi(spec_mul(x, conj(x))) =~= zero_of(m));
    assert(lo(spec_mul(x, conj(x))) == spec_delta(x));
    lemma_lo_hi(spec_mul(x, conj(x)));
    lemma_mul_len(x, conj(x));
}

/// The inverse is the embedded inverted discriminant times the conjugate.
proof fn lemma_inv_conj_form(a: Seq<bool>)
    requires
        a.len() >= 2,
        is_pow2(a.len()),
    ensures
        spec_inv(a) == spec_mul(spec_inv(spec_delta(a)) + zero_of(a.len() / 2), conj(a)),
{
    let m = a.len() / 2;
    let u = spec_add(lo(a), spec_rot(hi(a)));
    let d = spec_delta(a);
    let di = spec_inv(d);
    let e = di + zero_of(m);
    lemma_delta_len(a);
    lemma_inv_len(d);
    lemma_rot_len(hi(a));
    lemma_split(di, zero_of(m));
    lemma_split(u, hi(a));
    assert(e.len() == a.len() && conj(a).len() == a.len());
    lemma_mul_halves(e, conj(a));
    lemma_mul_len(di, u);
    lemma_mul_len(di, hi(a));
    lemma_mul_zero_l(u);
    lemma_mul_zero_l(hi(a));
    lemma_rot_zero(m);
    lemma_add_zero(spec_mul(di, u));
    lemma_mul_comm(spec_mul(di, u), zero_of(m));
    // low half: di*u + 0*xh == di*u; high half: di*xh + (0*u + rot(0*xh)) == di*xh
    assert(lo(spec_mul(e, conj(a))) =~= spec_mul(di, u));
    assert(hi(spec_mul(e, conj(a))) =~= spec_mul(di, hi(a)));
    lemma_lo_hi(spec_mul(e, conj(a)));
    lemma_mul_len(e, conj(a));
    assert(spec_inv(a) == spec_mul(di, u) + spec_mul(di, hi(a)));
    lemma_split(spec_mul(di, u), spec_mul(di, hi(a)));
    assert(spec_mul(e, conj(a)) =~= spec_inv(a));
}

/// Where the recursion's discriminants stay nonzero, the computed
/// inverse really inverts: `a * inv(a) == 1`.
///
/// Field theory guarantees `spec_invertible` of every nonzero element of
/// power-of-two length; that fact (irreducibility of the defining
/// quadratic at every level) is not proved here, so it appears as a
/// hypothesis rather than as `a != 0`.
pub proof fn lemma_mul_inv(a: Seq<bool>)
    requires
        is_pow2(a.len()),
        spec_invertible(a),
    ensures
        spec_mul(a, spec_inv(a)) == one_of(a.len()),
    decreases a.len(),
{
    let n = a.len();
    if n <= 1 {
        assert(a[0]) by {
            assert(!is_zero(a));
        }
        assert(spec_mul(a, spec_inv(a)) =~= one_of(n));
    } else {
        let m = n / 2;
        let d = spec_delta(a);
        let di = spec_inv(d);
        let e = di + zero_of(m);
        let ca = conj(a);
        lemma_delta_len(a);
        lemma_inv_len(d);
        lemma_rot_len(hi(a));
        assert(e.len() == n && ca.len() == n);
        lemma_mul_inv(d);
        lemma_mul_conj(a);
        lemma_inv_conj_form(a);
        // regroup a * (e * ca) into e * (a * ca)
        lemma_mul_assoc(a, e, ca);
        lemma_mul_comm(a, e);
        lemma_mul_assoc(e, a, ca);
        assert(spec_mul(a, spec_inv(a)) == spec_mul(e, d + zero_of(m)));
        // multiply the two embedded subfield elements
        lemma_split(di, zero_of(m));
        lemma_split(d, zero_of(m));
        lemma_mul_halves(e, d + zero_of(m));
        lemma_mul_comm(d, di);
        lemma_mul_len(d, di);
        lemma_mul_zero(di);
        lemma_mul_zero_l(d);
        lemma_mul_zero(zero_of(m));
        lemma_rot_zero(m);
        lemma_add_zero(one_of(m));
        lemma_mul_len(e, d + zero_of(m));
        assert(lo(spec_mul(e, d + zero_of(m))) =~= one_of(m));
        assert(hi(spec_mul(e, d + zero_of(m))) =~= zero_of(m));
        lemma_lo_hi(spec_mul(e, d + zero_of(m)));
        lemma_split(one_of(m), zero_of(m));
        assert(one_of(m) + zero_of(m) =~= one_of(n));
        assert(spec_mul(e, d + zero_of(m)) == one_of(n));
    }
}

/// Conjugation fixes the identity element.
proof fn lemma_conj_one(n: nat)
    requires
        n >= 2,
    ensures
        conj(one_of(n)) == one_of(n),
{
    lemma_one_halves(n);
    lemma_rot_zero((n - n / 2) as nat);
    assert(conj(one_of(n)) =~= one_of(n));
}

/// Conjugation is multiplicative: `conj(x * z) == conj(x) * conj(z)`.
proof fn lemma_conj_mul(x: Seq<bool>, z: Seq<bool>)
    requires
        x.len() == z.len(),
        x.len() >= 2,
        is_pow2(x.len()),
    ensures
        conj(spec_mul(x, z)) == spec_mul(conj(x), conj(z)),
{
    let m = x.len() / 2;
    let xl = lo(x);
    let xh = hi(x);
    let zl = lo(z);
    let zh = hi(z);
    let ux = spec_add(xl, spec_rot(xh));
    let uz = spec_add(zl, spec_rot(zh));
    lemma_rot_len(xh);
    lemma_rot_len(zh);
    lemma_split(ux, xh);
    lemma_split(uz, zh);
    let p = spec_mul(x, z);
    lemma_mul_len(x, z);
    lemma_mul_halves(x, z);
    lemma_mul_len(xl, zl);
    lemma_mul_len(xl, zh);
    lemma_mul_len(xh, zl);
    lemma_mul_len(xh, zh);
    lemma_rot_len(spec_mul(xl, zh));
    lemma_rot_len(spec_mul(xh, zl));
    lemma_rot_len(spec_mul(xh, zh));
    lemma_rot_len(spec_rot(spec_mul(xh, zh)));
    // rot of the product's high half, term by term
    lemma_rot_add(spec_mul(xl, zh), spec_add(spec_mul(xh, zl), spec_rot(spec_mul(xh, zh))));
    lemma_rot_add(spec_mul(xh, zl), spec_rot(spec_mul(xh, zh)));
    // expand ux * uz
    lemma_mul_dist_l(xl, spec_rot(xh), uz);
    lemma_mul_dist(xl, zl, spec_rot(zh));
    lemma_mul_dist(xh, zl, spec_rot(zh));
    lemma_mul_rot_l(xh, uz);
    lemma_mul_rot(xl, zh);
    lemma_mul_rot(xh, zh);
    assert(spec_mul(spec_rot(xh), uz) == spec_rot(spec_mul(xh, uz)));
    assert(spec_mul(xh, uz) == spec_add(spec_mul(xh, zl), spec_rot(spec_mul(xh, zh))));
    assert(spec_mul(ux, uz) == spec_add(
        spec_add(spec_mul(xl, zl), spec_rot(spec_mul(xl, zh))),
        spec_add(spec_rot(spec_mul(xh, zl)), spec_rot(spec_rot(spec_mul(xh, zh)))),
    ));
    // expand ux * zh and xh * uz
    lemma_mul_dist_l(xl, spec_rot(xh), zh);
    lemma_mul_rot_l(xh, zh);
    assert(spec_mul(ux, zh) == spec_add(spec_mul(xl, zh), spec_rot(spec_mul(xh, zh))));
    // assemble conj(x) * conj(z)
    assert(conj(x).len() == x.len() && conj(z).len() == z.len());
    lemma_mul_halves(conj(x), conj(z));
    lemma_mul_len(ux, uz);
    lemma_mul_len(ux, zh);
    lemma_mul_len(xh, uz);
    lemma_mul_len(conj(x), conj(z));
    lemma_rot_len(hi(p));
    assert(lo(spec_mul(conj(x), conj(z))) =~= spec_add(lo(p), spec_rot(hi(p))));
    assert(hi(spec_mul(conj(x), conj(z))) =~= hi(p));
    lemma_lo_hi(spec_mul(conj(x), conj(z)));
    assert(conj(p) =~= spec_mul(conj(x), conj(z)));
}

/// An element with any multiplicative-inverse witness is in the domain
/// of the recursive inversion: its discriminants all stay nonzero.
pub proof fn lemma_witness_invertible(a: Seq<bool>, w: Seq<bool>)
    requires
        a.len() == w.len(),
        is_pow2(a.len()),
        spec_mul(a, w) == one_of(a.len()),
    ensures
        spec_invertible(a),
    decreases a.len(),
{
    let n = a.len();
    if is_zero(a) {
        lemma_is_zero(a);
        lemma_mul_zero_l(w);
        assert(spec_mul(a, w)[0] != one_of(n)[0]);
        assert(false);
    }
    if n > 1 {
        let m = n / 2;
        let d = spec_delta(a);
        let ca = conj(a);
        let cw = conj(w);
        lemma_delta_len(a);
        lemma_rot_len(hi(a));
        lemma_rot_len(hi(w));
        assert(ca.len() == n && cw.len() == n);
        // conj(a) * conj(w) == conj(a * w) == 1
        lemma_conj_mul(a, w);
        lemma_conj_one(n);
        // a * conj(a) is the embedded discriminant
        lemma_mul_conj(a);
        // (a*ca) * (w*cw) regroups to (a*w) * (ca*cw) == 1 * 1 == 1
        let w2 = spec_mul(w, cw);
        lemma_mul_len(w, cw);
        lemma_mul_len(a, ca);
        lemma_mul_assoc(spec_mul(a, ca), w, cw);
        lemma_mul_assoc(a, ca, w);
        lemma_mul_comm(ca, w);
        lemma_mul_assoc(a, w, ca);
        lemma_mul_one(ca);
        lemma_mul_comm(one_of(n), ca);
        assert(spec_mul(spec_mul(a, ca), w) == ca);
        lemma_mul_comm(ca, cw);
        assert(spec_mul(spec_mul(a, ca), w2) == one_of(n));
        // read off the low half: d * lo(w2) == 1 at half length
        lemma_split(d, zero_of(m));
        lemma_mul_halves(d + zero_of(m), w2);
        lemma_mul_len(d, lo(w2));
        lemma_mul_zero_l(hi(w2));
        lemma_add_zero(spec_mul(d, lo(w2)));
        lemma_mul_comm(spec_mul(d, lo(w2)), zero_of(m));
        lemma_one_halves(n);
        assert(spec_mul(d, lo(w2)) == lo(one_of(n))) by {
            assert(lo(spec_mul(d + zero_of(m), w2)) == spec_add(
                spec_mul(d, lo(w2)),
                spec_mul(zero_of(m), hi(w2)),
            ));
            assert(spec_add(spec_mul(d, lo(w2)), zero_of(m)) =~= spec_mul(d, lo(w2)));
        }
        lemma_witness_invertible(d, lo(w2));
    }
}

/// The inverse of an invertible element is itself invertible.
pub proof fn lemma_inv_invertible(a: Seq<bool>)
    requires
        is_pow2(a.len()),
        spec_invertible(a),
    ensures
        spec_invertible(spec_inv(a)),
{
    lemma_inv_len(a);
    lemma_mul_inv(a);
    lemma_mul_comm(a, spec_inv(a));
    lemma_witness_invertible(spec_inv(a), a);
}

/// Inversion is an involution: `inv(inv(a)) == a`.
pub proof fn lemma_inv_inv(a: Seq<bool>)
    requires
        is_pow2(a.len()),
        spec_invertible(a),
    ensures
        spec_inv(spec_inv(a)) == a,
{
    let n = a.len();
    let b = spec_inv(a);
    lemma_inv_len(a);
    lemma_inv_len(b);
    lemma_inv_invertible(a);
    lemma_mul_inv(a);
    lemma_mul_inv(b);
    // a == a * (b * inv(b)) == (a * b) * inv(b) == 1 * inv(b) == inv(b)
    lemma_mul_one(a);
    lemma_mul_assoc(a, b, spec_inv(b));
    lemma_mul_comm(one_of(n), spec_inv(b));
    lemma_mul_one(spec_inv(b));
    assert(spec_mul(a, spec_mul(b, spec_inv(b))) == a);
}

/// The zero element has no inverse: it is outside the inversion domain.
pub proof fn lemma_zero_not_invertible(n: nat)
    ensures
        !spec_invertible(zero_of(n)),
{
    assert(is_zero(zero_of(n)));
}

/// At the two bottom tower levels every nonzero element is invertible:
/// in the two-bit field the discriminant of a nonzero element is the
/// one-bit identity.  (Field theory gives this at every level; see
/// `spec_invertible`.)
pub proof fn lemma_nonzero_invertible_small(a: Seq<bool>)
    requires
        1 <= a.len() <= 2,
        !is_zero(a),
    ensures
        spec_invertible(a),
{
    if a.len() == 2 {
        assert(a[0] || a[1]);
        assert(spec_delta(a) =~= one_of(1));
        assert(spec_delta(a)[0]);
        assert(!is_zero(spec_delta(a)) && spec_delta(a).len() == 1);
        assert(spec_invertible(spec_delta(a)));
    }
}

} // verus!

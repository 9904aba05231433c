//! The four tower-field operations on bit sequences.
//!
//! Each executable function returns exactly the value of its spec-level
//! definition (`spec_add`, `spec_rot`, `spec_mul`, `spec_inv`), so every
//! algebraic fact proved about the definitions carries over to the code.

use vstd::prelude::*;
use vstd::slice::slice_index_get;
use vstd::slice::slice_subrange;
use vstd::slice::slice_to_vec;

verus! {

/// Whether `n` is a power of two (`n == 2^k` for some `k >= 0`).
pub open spec fn is_pow2(n: nat) -> bool
    decreases n,
{
    if n == 0 {
        false
    } else if n == 1 {
        true
    } else {
        n % 2 == 0 && is_pow2(n / 2)
    }
}

/// The zero element of the `n`-bit field: every bit clear.
pub open spec fn zero_of(n: nat) -> Seq<bool> {
    Seq::new(n, |i: int| false)
}

/// The multiplicative identity of the `n`-bit field: bit 0 set, all others clear.
pub open spec fn one_of(n: nat) -> Seq<bool> {
    Seq::new(n, |i: int| i == 0)
}

/// Whether `a` is the zero element of its field.
pub open spec fn is_zero(a: Seq<bool>) -> bool {
    forall|i: int| 0 <= i < a.len() ==> !a[i]
}

/// The low half of an element: its first `len / 2` bits.
pub open spec fn lo(a: Seq<bool>) -> Seq<bool> {
    a.subrange(0, a.len() as int / 2)
}

/// The high half of an element: its bits from `len / 2` on.
pub open spec fn hi(a: Seq<bool>) -> Seq<bool> {
    a.subrange(a.len() as int / 2, a.len() as int)
}

/// Field addition: bitwise XOR of two equal-length elements.
pub open spec fn spec_add(a: Seq<bool>, b: Seq<bool>) -> Seq<bool>
    recommends
        a.len() == b.len(),
{
    Seq::new(a.len(), |i: int| a[i] != b[i])
}

/// Multiplication by the generator adjoined at the top extension level.
///
/// For `a == low + high * g` with `g^2 == g * g_prev + 1`:
/// `g * a == high + (low + g_prev * high) * g`, where multiplying the
/// half-length element `high` by `g_prev` is the same operation one
/// level down.
pub open spec fn spec_rot(a: Seq<bool>) -> Seq<bool>
    decreases a.len(),
{
    if a.len() <= 1 {
        a
    } else {
        hi(a) + spec_add(lo(a), spec_rot(hi(a)))
    }
}

/// Field multiplication, by structural recursion on the tower.
///
/// With `a == al + ah * g` and `b == bl + bh * g`, expanding the product
/// under `g^2 == g * g_prev + 1` gives low half `al*bl + ah*bh` and high
/// half `al*bh + ah*bl + g_prev * (ah*bh)`.
pub open spec fn spec_mul(a: Seq<bool>, b: Seq<bool>) -> Seq<bool>
    recommends
        a.len() == b.len(),
    decreases a.len(),
{
    if a.len() <= 1 {
        Seq::new(a.len(), |i: int| a[0] && b[0])
    } else {
        let ll = spec_mul(lo(a), lo(b));
        let lh = spec_mul(lo(a), hi(b));
        let hl = spec_mul(hi(a), lo(b));
        let hh = spec_mul(hi(a), hi(b));
        spec_add(ll, hh) + spec_add(lh, spec_add(hl, spec_rot(hh)))
    }
}

/// The discriminant that the Fan–Paar inversion computes one level down:
/// for `a == al + ah * g`, `delta == al * (al + g_prev * ah) + ah * ah`,
/// a half-length element.
pub open spec fn spec_delta(a: Seq<bool>) -> Seq<bool>
    recommends
        a.len() >= 2,
{
    spec_add(spec_mul(lo(a), spec_add(lo(a), spec_rot(hi(a)))), spec_mul(hi(a), hi(a)))
}

/// The product of two sequences is never longer than the left operand.
pub proof fn lemma_mul_len_le(a: Seq<bool>, b: Seq<bool>)
    ensures
        spec_mul(a, b).len() <= a.len(),
    decreases a.len(),
{
    if a.len() > 1 {
        lemma_mul_len_le(lo(a), lo(b));
        lemma_mul_len_le(lo(a), hi(b));
    }
}

/// On equal power-of-two lengths, multiplication preserves the length.
pub proof fn lemma_mul_len(a: Seq<bool>, b: Seq<bool>)
    requires
        is_pow2(a.len()),
    ensures
        spec_mul(a, b).len() == a.len(),
    decreases a.len(),
{
    if a.len() > 1 {
        lemma_mul_len(lo(a), lo(b));
        lemma_mul_len(lo(a), hi(b));
    }
}

/// Rotation preserves the length.
pub proof fn lemma_rot_len(a: Seq<bool>)
    ensures
        spec_rot(a).len() == a.len(),
{
}

/// The discriminant is a half-length element.
pub proof fn lemma_delta_len(a: Seq<bool>)
    requires
        a.len() >= 2,
        is_pow2(a.len()),
    ensures
        spec_delta(a).len() == a.len() / 2,
{
    lemma_mul_len(lo(a), spec_add(lo(a), spec_rot(hi(a))));
}

/// Whether the Fan–Paar recursion inverts `a`: `a` is not zero, and at
/// every level of the recursion the discriminant is in turn invertible.
///
/// Field theory says this holds of every nonzero element of power-of-two
/// length — the discriminant is the norm of a nonzero element over the
/// subfield, hence nonzero — but this development does not prove that,
/// so the predicate names the exact domain on which inversion succeeds.
pub open spec fn spec_invertible(a: Seq<bool>) -> bool
    decreases a.len(),
    via spec_invertible_decreases
{
    if is_zero(a) {
        false
    } else if a.len() <= 1 {
        true
    } else {
        spec_invertible(spec_delta(a))
    }
}

#[via_fn]
proof fn spec_invertible_decreases(a: Seq<bool>) {
    if !is_zero(a) && a.len() > 1 {
        lemma_mul_len_le(lo(a), spec_add(lo(a), spec_rot(hi(a))));
    }
}

/// Multiplicative inversion, by the Fan–Paar tower-field recursion.
///
/// For `a == al + ah * g`, with `delta` as in `spec_delta` and
/// `di == spec_inv(delta)`: the inverse is
/// `di * (al + g_prev * ah) + (di * ah) * g`.
pub open spec fn spec_inv(a: Seq<bool>) -> Seq<bool>
    recommends
        spec_invertible(a),
    decreases a.len(),
    via spec_inv_decreases
{
    if a.len() <= 1 {
        a
    } else {
        let u = spec_add(lo(a), spec_rot(hi(a)));
        let di = spec_inv(spec_delta(a));
        spec_mul(di, u) + spec_mul(di, hi(a))
    }
}

#[via_fn]
proof fn spec_inv_decreases(a: Seq<bool>) {
    if a.len() > 1 {
        lemma_mul_len_le(lo(a), spec_add(lo(a), spec_rot(hi(a))));
    }
}

/// Inversion preserves the length on power-of-two lengths.
pub proof fn lemma_inv_len(a: Seq<bool>)
    requires
        is_pow2(a.len()),
    ensures
        spec_inv(a).len() == a.len(),
    decreases a.len(),
{
    if a.len() > 1 {
        let u = spec_add(lo(a), spec_rot(hi(a)));
        let d = spec_delta(a);
        lemma_delta_len(a);
        lemma_inv_len(d);
        lemma_mul_len(spec_inv(d), u);
        lemma_mul_len(spec_inv(d), hi(a));
    }
}

/// The error returned when an operand has no multiplicative inverse.
#[derive(Clone, Copy, Debug, PartialEq, Eq)]
pub enum InvError {
    /// The operand (or, deeper in the recursion, a discriminant) is zero.
    NotInvertible,
}

/// Whether every bit of the element is clear.
fn all_zero(operand: &[bool]) -> (b: bool)
    ensures
        b == is_zero(operand@),
{
    let n = operand.len();
    let mut i: usize = 0;
    while i < n
        invariant
            i <= n,
            n == operand@.len(),
            forall|j: int| 0 <= j < i ==> !operand@[j],
        decreases n - i,
    {
        if *slice_index_get(operand, i) {
            return false;
        }
        i = i + 1;
    }
    true
}

/// Sum of two field elements of equal length.
pub fn add(left: &[bool], right: &[bool]) -> (sum: Vec<bool>)
    requires
        left@.len() == right@.len(),
    ensures
        sum@ == spec_add(left@, right@),
        sum@.len() == left@.len(),
{
    let n = left.len();
    let mut result: Vec<bool> = Vec::new();
    let mut i: usize = 0;
    while i < n
        invariant
            i <= n,
            n == left@.len(),
            n == right@.len(),
            result@.len() == i,
            forall|j: int| 0 <= j < i ==> result@[j] == (left@[j] != right@[j]),
        decreases n - i,
    {
        let bit = *slice_index_get(left, i) != *slice_index_get(right, i);
        result.push(bit);
        i = i + 1;
    }
    assert(result@ =~= spec_add(left@, right@));
    result
}

/// Product of a field element with the top-level tower generator.
pub fn rot(operand: &[bool]) -> (r: Vec<bool>)
    requires
        is_pow2(operand@.len()),
    ensures
        r@ == spec_rot(operand@),
        r@.len() == operand@.len(),
    decreases operand@.len(),
{
    let n = operand.len();
    if n == 1 {
        return slice_to_vec(operand);
    }
    let half_n = n / 2;
    let low_bits = slice_subrange(operand, 0, half_n);
    let high_bits = slice_subrange(operand, half_n, n);
    let rotated = crate::arithmetic::rot(high_bits);
    let mut high_out = crate::arithmetic::add(low_bits, rotated.as_slice());
    let mut result = slice_to_vec(high_bits);
    result.append(&mut high_out);
    assert(result@ =~= spec_rot(operand@));
    result
}

/// Product of two field elements of equal power-of-two length.
pub fn mul(left: &[bool], right: &[bool]) -> (product: Vec<bool>)
    requires
        left@.len() == right@.len(),
        is_pow2(left@.len()),
    ensures
        product@ == spec_mul(left@, right@),
        product@.len() == left@.len(),
    decreases left@.len(),
{
    let n = left.len();
    if n == 1 {
        let bit = *slice_index_get(left, 0) && *slice_index_get(right, 0);
        let result = vec![bit];
        assert(result@ =~= spec_mul(left@, right@));
        return result;
    }
    let half_n = n / 2;
    let a = slice_subrange(left, 0, half_n);
    let b = slice_subrange(left, half_n, n);
    let c = slice_subrange(right, 0, half_n);
    let d = slice_subrange(right, half_n, n);
    let ac = crate::arithmetic::mul(a, c);
    let ad = crate::arithmetic::mul(a, d);
    let bc = crate::arithmetic::mul(b, c);
    let bd = crate::arithmetic::mul(b, d);
    let rot_bd = crate::arithmetic::rot(bd.as_slice());
    let bc_rot = crate::arithmetic::add(bc.as_slice(), rot_bd.as_slice());
    let mut high_out = crate::arithmetic::add(ad.as_slice(), bc_rot.as_slice());
    let mut result = crate::arithmetic::add(ac.as_slice(), bd.as_slice());
    result.append(&mut high_out);
    assert(result@ =~= spec_mul(left@, right@));
    result
}

/// Multiplicative inverse of a field element of power-of-two length.
///
/// The zero element has no inverse and yields `Err`; so would a nonzero
/// operand whose recursion met a zero discriminant, which field theory
/// rules out but this development does not prove (see `spec_invertible`).
pub fn inv(operand: &[bool]) -> (res: Result<Vec<bool>, InvError>)
    requires
        is_pow2(operand@.len()),
    ensures
        match res {
            Ok(r) => spec_invertible(operand@) && r@ == spec_inv(operand@) && r@.len()
                == operand@.len(),
            Err(_) => !spec_invertible(operand@),
        },
    decreases operand@.len(),
{
    let n = operand.len();
    if all_zero(operand) {
        return Err(InvError::NotInvertible);
    }
    if n == 1 {
        return Ok(slice_to_vec(operand));
    }
    let half_n = n / 2;
    let low_bits = slice_subrange(operand, 0, half_n);
    let high_bits = slice_subrange(operand, half_n, n);
    let rot_high = crate::arithmetic::rot(high_bits);
    let u = crate::arithmetic::add(low_bits, rot_high.as_slice());
    let low_u = crate::arithmetic::mul(low_bits, u.as_slice());
    let high_sq = crate::arithmetic::mul(high_bits, high_bits);
    let delta = crate::arithmetic::add(low_u.as_slice(), high_sq.as_slice());
    assert(delta@ == spec_delta(operand@));
    let delta_inv = match crate::arithmetic::inv(delta.as_slice()) {
        Ok(v) => v,
        Err(e) => {
            return Err(e);
        },
    };
    let mut high_out = crate::arithmetic::mul(delta_inv.as_slice(), high_bits);
    let mut result = crate::arithmetic::mul(delta_inv.as_slice(), u.as_slice());
    result.append(&mut high_out);
    assert(result@ =~= spec_inv(operand@));
    Ok(result)
}

} // verus!

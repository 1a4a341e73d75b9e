//! Folding of operators applied to known constants.

use vstd::prelude::*;
use crate::ir::{BinaryOperator, UnaryOperator};

verus! {

/// A value known at compile time. Floating-point values are kept as their
/// bits.
#[derive(Debug, Clone, PartialEq, Eq)]
pub enum SsaConstant {
    Int(i64),
    Float(u64),
    Bool(bool),
    Str(String),
    Null,
}

/// Two constants are the same value.
pub open spec fn same_const(a: SsaConstant, b: SsaConstant) -> bool {
    match (a, b) {
        (SsaConstant::Str(x), SsaConstant::Str(y)) => x@ == y@,
        _ => a == b,
    }
}

pub fn copy_const(c: &SsaConstant) -> (r: SsaConstant)
    ensures
        r == *c,
{
    match c {
        SsaConstant::Int(v) => SsaConstant::Int(*v),
        SsaConstant::Float(v) => SsaConstant::Float(*v),
        SsaConstant::Bool(v) => SsaConstant::Bool(*v),
        SsaConstant::Str(s) => SsaConstant::Str(s.clone()),
        SsaConstant::Null => SsaConstant::Null,
    }
}

pub fn const_eq(a: &SsaConstant, b: &SsaConstant) -> (r: bool)
    ensures
        r == same_const(*a, *b),
{
    match (a, b) {
        (SsaConstant::Int(x), SsaConstant::Int(y)) => *x == *y,
        (SsaConstant::Float(x), SsaConstant::Float(y)) => *x == *y,
        (SsaConstant::Bool(x), SsaConstant::Bool(y)) => *x == *y,
        (SsaConstant::Str(x), SsaConstant::Str(y)) => *x == *y,
        (SsaConstant::Null, SsaConstant::Null) => true,
        _ => false,
    }
}

/// `b` to the power `e`.
pub open spec fn ipow(b: int, e: nat) -> int
    decreases e,
{
    if e == 0 {
        1
    } else {
        b * ipow(b, (e - 1) as nat)
    }
}

pub open spec fn fits_i64(x: int) -> bool {
    i64::MIN <= x <= i64::MAX
}

proof fn lemma_pow_escapes(b: int, j: nat)
    requires
        b >= 2 || b <= -2,
        !fits_i64(ipow(b, j)),
    ensures
        !fits_i64(ipow(b, j + 1)),
{
    let x = ipow(b, j);
    assert(ipow(b, j + 1) == b * x);
    if x > 0 {
        if b >= 2 {
            assert(b * x >= 2 * x) by (nonlinear_arith)
                requires
                    b >= 2,
                    x > 0,
            ;
        } else {
            assert(b * x <= -2 * x) by (nonlinear_arith)
                requires
                    b <= -2,
                    x > 0,
            ;
        }
    } else {
        if b >= 2 {
            assert(b * x <= 2 * x) by (nonlinear_arith)
                requires
                    b >= 2,
                    x <= 0,
            ;
        } else {
            assert(b * x >= -2 * x) by (nonlinear_arith)
                requires
                    b <= -2,
                    x <= 0,
            ;
        }
    }
}

proof fn lemma_pow_stays_out(b: int, j: nat, e: nat)
    requires
        b >= 2 || b <= -2,
        !fits_i64(ipow(b, j)),
        j <= e,
    ensures
        !fits_i64(ipow(b, e)),
    decreases e - j,
{
    if j < e {
        lemma_pow_escapes(b, j);
        lemma_pow_stays_out(b, j + 1, e);
    }
}

proof fn lemma_pow_unit(b: int, e: nat)
    requires
        -1 <= b <= 1,
    ensures
        b == 0 ==> ipow(b, e) == if e == 0 { 1int } else { 0int },
        b == 1 ==> ipow(b, e) == 1,
        b == -1 ==> ipow(b, e) == if e % 2 == 0 { 1int } else { -1int },
    decreases e,
{
    if e > 0 {
        lemma_pow_unit(b, (e - 1) as nat);
    }
}

/// `b` to the power `e`, unless the result leaves the range of `i64`.
pub fn checked_ipow(b: i64, e: u32) -> (r: Option<i64>)
    ensures
        r == if fits_i64(ipow(b as int, e as nat)) { Some(ipow(b as int, e as nat) as i64) } else { None::<i64> },
{
    if -1 <= b && b <= 1 {
        proof {
            lemma_pow_unit(b as int, e as nat);
        }
    }
    if b == 0 {
        return if e == 0 { Some(1) } else { Some(0) };
    }
    if b == 1 {
        return Some(1);
    }
    if b == -1 {
        return if e % 2 == 0 { Some(1) } else { Some(-1) };
    }
    let mut acc: i64 = 1;
    let mut k: u32 = 0;
    while k < e
        invariant
            k <= e,
            b >= 2 || b <= -2,
            acc as int == ipow(b as int, k as nat),
        decreases e - k,
    {
        match acc.checked_mul(b) {
            Some(v) => {
                acc = v;
                k = k + 1;
                assert(ipow(b as int, k as nat) == b * ipow(b as int, (k - 1) as nat));
            },
            None => {
                proof {
                    assert(ipow(b as int, (k + 1) as nat) == b * ipow(b as int, k as nat));
                    assert(!fits_i64(ipow(b as int, (k + 1) as nat)));
                    lemma_pow_stays_out(b as int, (k + 1) as nat, e as nat);
                }
                return None;
            },
        }
    }
    Some(acc)
}

/// Folding an operator over two integers.
pub open spec fn fold_int(op: BinaryOperator, l: i64, r: i64) -> Option<SsaConstant> {
    match op {
        BinaryOperator::Add => Some(SsaConstant::Int(l.wrapping_add(r))),
        BinaryOperator::Sub => Some(SsaConstant::Int(l.wrapping_sub(r))),
        BinaryOperator::Mul => Some(SsaConstant::Int(l.wrapping_mul(r))),
        BinaryOperator::Div => match l.checked_div(r) {
            Some(v) => Some(SsaConstant::Int(v)),
            None => None,
        },
        BinaryOperator::Rem => match l.checked_rem(r) {
            Some(v) => Some(SsaConstant::Int(v)),
            None => None,
        },
        BinaryOperator::Pow => if r >= 0 && fits_i64(ipow(l as int, (r as u32) as nat)) {
            Some(SsaConstant::Int(ipow(l as int, (r as u32) as nat) as i64))
        } else {
            None
        },
        BinaryOperator::BitwiseAnd => Some(SsaConstant::Int(l & r)),
        BinaryOperator::BitwiseOr => Some(SsaConstant::Int(l | r)),
        BinaryOperator::BitwiseXor => Some(SsaConstant::Int(l ^ r)),
        BinaryOperator::Shl => if 0 <= r < 64 {
            Some(SsaConstant::Int(l << (r as u32)))
        } else {
            None
        },
        BinaryOperator::Shr => if 0 <= r < 64 {
            Some(SsaConstant::Int(l >> (r as u32)))
        } else {
            None
        },
        BinaryOperator::Eq => Some(SsaConstant::Bool(l == r)),
        BinaryOperator::Neq => Some(SsaConstant::Bool(l != r)),
        BinaryOperator::Lt => Some(SsaConstant::Bool(l < r)),
        BinaryOperator::Gt => Some(SsaConstant::Bool(l > r)),
        BinaryOperator::Le => Some(SsaConstant::Bool(l <= r)),
        BinaryOperator::Ge => Some(SsaConstant::Bool(l >= r)),
        _ => None,
    }
}

/// Folding an operator over two booleans.
pub open spec fn fold_bool(op: BinaryOperator, l: bool, r: bool) -> Option<SsaConstant> {
    match op {
        BinaryOperator::Eq => Some(SsaConstant::Bool(l == r)),
        BinaryOperator::Neq => Some(SsaConstant::Bool(l != r)),
        BinaryOperator::LogicalAnd | BinaryOperator::BitwiseAnd => Some(SsaConstant::Bool(l && r)),
        BinaryOperator::LogicalOr | BinaryOperator::BitwiseOr => Some(SsaConstant::Bool(l || r)),
        BinaryOperator::BitwiseXor => Some(SsaConstant::Bool(l != r)),
        _ => None,
    }
}

/// `res` is what folding `op` over `l` and `r` gives, floating-point
/// operands aside: integers wrap on overflow (but a division, remainder or
/// power that overflows is not folded), strings concatenate and compare.
pub open spec fn fold_binary_rel(op: BinaryOperator, l: SsaConstant, r: SsaConstant, res: Option<SsaConstant>) -> bool {
    match (l, r) {
        (SsaConstant::Int(a), SsaConstant::Int(b)) => res == fold_int(op, a, b),
        (SsaConstant::Bool(a), SsaConstant::Bool(b)) => res == fold_bool(op, a, b),
        (SsaConstant::Str(a), SsaConstant::Str(b)) => match op {
            BinaryOperator::Add => res matches Some(SsaConstant::Str(s)) && s@ == a@ + b@,
            BinaryOperator::Eq => res == Some(SsaConstant::Bool(a@ == b@)),
            BinaryOperator::Neq => res == Some(SsaConstant::Bool(a@ != b@)),
            _ => res is None,
        },
        _ => res is None,
    }
}

fn fold_int_exec(op: BinaryOperator, l: i64, r: i64) -> (res: Option<SsaConstant>)
    ensures
        res == fold_int(op, l, r),
{
    match op {
        BinaryOperator::Add => Some(SsaConstant::Int(l.wrapping_add(r))),
        BinaryOperator::Sub => Some(SsaConstant::Int(l.wrapping_sub(r))),
        BinaryOperator::Mul => Some(SsaConstant::Int(l.wrapping_mul(r))),
        BinaryOperator::Div => match l.checked_div(r) {
            Some(v) => Some(SsaConstant::Int(v)),
            None => None,
        },
        BinaryOperator::Rem => match l.checked_rem(r) {
            Some(v) => Some(SsaConstant::Int(v)),
            None => None,
        },
        BinaryOperator::Pow => {
            if r >= 0 {
                match checked_ipow(l, r as u32) {
                    Some(v) => Some(SsaConstant::Int(v)),
                    None => None,
                }
            } else {
                None
            }
        },
        BinaryOperator::BitwiseAnd => Some(SsaConstant::Int(l & r)),
        BinaryOperator::BitwiseOr => Some(SsaConstant::Int(l | r)),
        BinaryOperator::BitwiseXor => Some(SsaConstant::Int(l ^ r)),
        BinaryOperator::Shl => {
            if r >= 0 && r < 64 {
                Some(SsaConstant::Int(l << (r as u32)))
            } else {
                None
            }
        },
        BinaryOperator::Shr => {
            if r >= 0 && r < 64 {
                Some(SsaConstant::Int(l >> (r as u32)))
            } else {
                None
            }
        },
        BinaryOperator::Eq => Some(SsaConstant::Bool(l == r)),
        BinaryOperator::Neq => Some(SsaConstant::Bool(l != r)),
        BinaryOperator::Lt => Some(SsaConstant::Bool(l < r)),
        BinaryOperator::Gt => Some(SsaConstant::Bool(l > r)),
        BinaryOperator::Le => Some(SsaConstant::Bool(l <= r)),
        BinaryOperator::Ge => Some(SsaConstant::Bool(l >= r)),
        _ => None,
    }
}

/// Folds `op` over two constants; floating-point operands go to
/// `float_fold`, which receives the operator and the operands' bits.
pub fn fold_binary_op<F: Fn(BinaryOperator, u64, u64) -> Option<SsaConstant>>(
    op: BinaryOperator,
    left: &SsaConstant,
    right: &SsaConstant,
    float_fold: &F,
) -> (res: Option<SsaConstant>)
    requires
        forall|o: BinaryOperator, a: u64, b: u64| float_fold.requires((o, a, b)),
    ensures
        match (*left, *right) {
            (SsaConstant::Float(a), SsaConstant::Float(b)) => float_fold.ensures((op, a, b), res),
            _ => fold_binary_rel(op, *left, *right, res),
        },
{
    match (left, right) {
        (SsaConstant::Int(l), SsaConstant::Int(r)) => fold_int_exec(op, *l, *r),
        (SsaConstant::Float(l), SsaConstant::Float(r)) => float_fold(op, *l, *r),
        (SsaConstant::Bool(l), SsaConstant::Bool(r)) => match op {
            BinaryOperator::Eq => Some(SsaConstant::Bool(*l == *r)),
            BinaryOperator::Neq => Some(SsaConstant::Bool(*l != *r)),
            BinaryOperator::LogicalAnd | BinaryOperator::BitwiseAnd => Some(SsaConstant::Bool(*l && *r)),
            BinaryOperator::LogicalOr | BinaryOperator::BitwiseOr => Some(SsaConstant::Bool(*l || *r)),
            BinaryOperator::BitwiseXor => Some(SsaConstant::Bool(*l != *r)),
            _ => None,
        },
        (SsaConstant::Str(l), SsaConstant::Str(r)) => match op {
            BinaryOperator::Add => {
                let mut s = l.clone();
                s.append(r.as_str());
                Some(SsaConstant::Str(s))
            },
            BinaryOperator::Eq => Some(SsaConstant::Bool(*l == *r)),
            BinaryOperator::Neq => Some(SsaConstant::Bool(!(*l == *r))),
            _ => None,
        },
        _ => None,
    }
}

/// Folding a unary operator over a constant.
pub open spec fn fold_unary(op: UnaryOperator, c: SsaConstant) -> Option<SsaConstant> {
    match c {
        SsaConstant::Int(v) => match op {
            UnaryOperator::Neg => Some(SsaConstant::Int(0i64.wrapping_sub(v))),
            UnaryOperator::BitwiseNot => Some(SsaConstant::Int(!v)),
            _ => None,
        },
        SsaConstant::Bool(v) => match op {
            UnaryOperator::Not => Some(SsaConstant::Bool(!v)),
            _ => None,
        },
        _ => None,
    }
}

pub fn fold_unary_op(op: UnaryOperator, src: &SsaConstant) -> (res: Option<SsaConstant>)
    ensures
        res == fold_unary(op, *src),
{
    match src {
        SsaConstant::Int(v) => match op {
            UnaryOperator::Neg => Some(SsaConstant::Int(0i64.wrapping_sub(*v))),
            UnaryOperator::BitwiseNot => Some(SsaConstant::Int(!*v)),
            _ => None,
        },
        SsaConstant::Bool(v) => match op {
            UnaryOperator::Not => Some(SsaConstant::Bool(!*v)),
            _ => None,
        },
        _ => None,
    }
}

/// What folding two integers means: each comparison folds to the truth of
/// that comparison of the two values, and addition, subtraction and
/// multiplication whose exact result is an `i64` fold to that result.
pub proof fn law_fold_int_meaning(op: BinaryOperator, l: i64, r: i64, res: Option<SsaConstant>)
    requires
        fold_binary_rel(op, SsaConstant::Int(l), SsaConstant::Int(r), res),
    ensures
        op == BinaryOperator::Eq ==> res == Some(SsaConstant::Bool(l as int == r as int)),
        op == BinaryOperator::Neq ==> res == Some(SsaConstant::Bool(l as int != r as int)),
        op == BinaryOperator::Lt ==> res == Some(SsaConstant::Bool((l as int) < (r as int))),
        op == BinaryOperator::Gt ==> res == Some(SsaConstant::Bool((l as int) > (r as int))),
        op == BinaryOperator::Le ==> res == Some(SsaConstant::Bool((l as int) <= (r as int))),
        op == BinaryOperator::Ge ==> res == Some(SsaConstant::Bool((l as int) >= (r as int))),
        op == BinaryOperator::Add && fits_i64(l + r) ==> res == Some(SsaConstant::Int((l + r) as i64)),
        op == BinaryOperator::Sub && fits_i64(l - r) ==> res == Some(SsaConstant::Int((l - r) as i64)),
        op == BinaryOperator::Mul && fits_i64(l * r) ==> res == Some(SsaConstant::Int((l * r) as i64)),
        op == BinaryOperator::LogicalAnd || op == BinaryOperator::LogicalOr ==> res is None,
{
}

/// Swapping the operands of a comparison swaps its direction, and each
/// comparison folds to the negation of its opposite.
pub proof fn law_fold_comparisons_agree(l: i64, r: i64)
    ensures
        fold_int(BinaryOperator::Gt, l, r) == fold_int(BinaryOperator::Lt, r, l),
        fold_int(BinaryOperator::Ge, l, r) == fold_int(BinaryOperator::Le, r, l),
        fold_int(BinaryOperator::Eq, l, r) == fold_int(BinaryOperator::Eq, r, l),
        fold_int(BinaryOperator::Le, l, r) matches Some(SsaConstant::Bool(a)) && fold_int(BinaryOperator::Gt, l, r) matches Some(SsaConstant::Bool(b)) && a == !b,
        fold_int(BinaryOperator::Ge, l, r) matches Some(SsaConstant::Bool(a)) && fold_int(BinaryOperator::Lt, l, r) matches Some(SsaConstant::Bool(b)) && a == !b,
        fold_int(BinaryOperator::Neq, l, r) matches Some(SsaConstant::Bool(a)) && fold_int(BinaryOperator::Eq, l, r) matches Some(SsaConstant::Bool(b)) && a == !b,
        fold_int(BinaryOperator::Lt, l, l) == Some(SsaConstant::Bool(false)),
        fold_int(BinaryOperator::Le, l, l) == Some(SsaConstant::Bool(true)),
{
}

/// What folding two booleans and one operand means: the logical operators
/// fold to the truth value they name, negation negates.
pub proof fn law_fold_bool_meaning(op: BinaryOperator, l: bool, r: bool, res: Option<SsaConstant>)
    requires
        fold_binary_rel(op, SsaConstant::Bool(l), SsaConstant::Bool(r), res),
    ensures
        op == BinaryOperator::LogicalAnd ==> res == Some(SsaConstant::Bool(l && r)),
        op == BinaryOperator::LogicalOr ==> res == Some(SsaConstant::Bool(l || r)),
        op == BinaryOperator::Eq ==> res == Some(SsaConstant::Bool(l == r)),
        op == BinaryOperator::Neq ==> res == Some(SsaConstant::Bool(l != r)),
        fold_unary(UnaryOperator::Not, SsaConstant::Bool(l)) == Some(SsaConstant::Bool(!l)),
        fold_unary(UnaryOperator::Neg, SsaConstant::Bool(l)) is None,
{
}

/// Negating an integer whose negation is an `i64` folds to that negation.
pub proof fn law_fold_neg_meaning(v: i64)
    requires
        fits_i64(-v),
    ensures
        fold_unary(UnaryOperator::Neg, SsaConstant::Int(v)) == Some(SsaConstant::Int((-v) as i64)),
        fold_unary(UnaryOperator::Not, SsaConstant::Int(v)) is None,
{
}

/// Division and remainder by zero are not folded; on a nonnegative
/// dividend and a positive divisor they fold to the quotient and the
/// remainder; dividing by one gives the dividend back.
pub proof fn law_fold_division_meaning(l: i64, r: i64)
    ensures
        fold_int(BinaryOperator::Div, l, 0) is None,
        fold_int(BinaryOperator::Rem, l, 0) is None,
        l >= 0 && r > 0 ==> fold_int(BinaryOperator::Div, l, r) == Some(SsaConstant::Int((l as int / r as int) as i64)),
        l >= 0 && r > 0 ==> fold_int(BinaryOperator::Rem, l, r) == Some(SsaConstant::Int((l as int % r as int) as i64)),
        fold_int(BinaryOperator::Div, l, 1) == Some(SsaConstant::Int(l)),
        fold_int(BinaryOperator::Rem, l, 1) == Some(SsaConstant::Int(0)),
{
    if l > 0 {
        assert(l as int / 1 == l as int);
        assert(l as int % 1 == 0);
    } else if l < 0 {
        assert((l as int * -1) / 1 == l as int * -1);
        assert((l as int * -1) % 1 == 0);
    }
    if l >= 0 && r > 0 {
        assert(0 <= (l as int) / (r as int) <= (l as int)) by (nonlinear_arith)
            requires
                l >= 0,
                r > 0,
        ;
        assert(0 <= (l as int) % (r as int) < (r as int));
    }
}

/// The bitwise operators on integers: and with zero is zero, with all ones
/// is the value itself; or with zero is the value, with all ones is all
/// ones; exclusive or of a value with itself is zero; each of them is
/// commutative; and complement is minus one minus the value.
pub proof fn law_fold_bitwise_meaning(l: i64, r: i64)
    ensures
        fold_int(BinaryOperator::BitwiseAnd, l, 0) == Some(SsaConstant::Int(0)),
        fold_int(BinaryOperator::BitwiseAnd, l, -1i64) == Some(SsaConstant::Int(l)),
        fold_int(BinaryOperator::BitwiseOr, l, 0) == Some(SsaConstant::Int(l)),
        fold_int(BinaryOperator::BitwiseOr, l, -1i64) == Some(SsaConstant::Int(-1i64)),
        fold_int(BinaryOperator::BitwiseXor, l, l) == Some(SsaConstant::Int(0)),
        fold_int(BinaryOperator::BitwiseXor, l, 0) == Some(SsaConstant::Int(l)),
        fold_int(BinaryOperator::BitwiseAnd, l, r) == fold_int(BinaryOperator::BitwiseAnd, r, l),
        fold_int(BinaryOperator::BitwiseOr, l, r) == fold_int(BinaryOperator::BitwiseOr, r, l),
        fold_int(BinaryOperator::BitwiseXor, l, r) == fold_int(BinaryOperator::BitwiseXor, r, l),
        l > i64::MIN ==> fold_unary(UnaryOperator::BitwiseNot, SsaConstant::Int(l)) == Some(SsaConstant::Int((-1 - l) as i64)),
{
    assert(l & 0 == 0) by (bit_vector);
    assert(l & -1i64 == l) by (bit_vector);
    assert(l | 0 == l) by (bit_vector);
    assert(l | -1i64 == -1i64) by (bit_vector);
    assert(l ^ l == 0) by (bit_vector);
    assert(l ^ 0 == l) by (bit_vector);
    assert(l & r == r & l) by (bit_vector);
    assert(l | r == r | l) by (bit_vector);
    assert(l ^ r == r ^ l) by (bit_vector);
    assert(l > i64::MIN ==> !l == -1 - l) by (bit_vector);
}

/// Shifts by a negative amount or by 64 or more are not folded; a shift
/// by zero gives the value back; shifting right by 63 gives the sign.
pub proof fn law_fold_shift_meaning(l: i64, r: i64)
    ensures
        r < 0 || r >= 64 ==> fold_int(BinaryOperator::Shl, l, r) is None && fold_int(BinaryOperator::Shr, l, r) is None,
        fold_int(BinaryOperator::Shl, l, 0) == Some(SsaConstant::Int(l)),
        fold_int(BinaryOperator::Shr, l, 0) == Some(SsaConstant::Int(l)),
        fold_int(BinaryOperator::Shr, l, 63) == Some(SsaConstant::Int(if l < 0 { -1i64 } else { 0i64 })),
{
    assert(l << 0u32 == l) by (bit_vector);
    assert(l >> 0u32 == l) by (bit_vector);
    assert(l >> 63u32 == if l < 0 { -1i64 } else { 0i64 }) by (bit_vector);
}

/// Powers: a negative exponent is not folded, the zeroth power is one, the
/// first is the base, and the square is the product when it fits.
pub proof fn law_fold_pow_meaning(l: i64, r: i64)
    ensures
        r < 0 ==> fold_int(BinaryOperator::Pow, l, r) is None,
        fold_int(BinaryOperator::Pow, l, 0) == Some(SsaConstant::Int(1)),
        fold_int(BinaryOperator::Pow, l, 1) == Some(SsaConstant::Int(l)),
        fits_i64(l * l) ==> fold_int(BinaryOperator::Pow, l, 2) == Some(SsaConstant::Int((l * l) as i64)),
{
    assert(ipow(l as int, 0) == 1);
    assert(ipow(l as int, 1) == l * ipow(l as int, 0));
    assert(ipow(l as int, 2) == l * ipow(l as int, 1));
}

/// Strings: adding concatenates, equality compares the texts; no other
/// operator folds on strings, and operands of different kinds never fold.
pub proof fn law_fold_str_meaning(op: BinaryOperator, a: String, b: String, res: Option<SsaConstant>)
    requires
        fold_binary_rel(op, SsaConstant::Str(a), SsaConstant::Str(b), res),
    ensures
        op == BinaryOperator::Add ==> (res matches Some(SsaConstant::Str(t)) && t@ == a@ + b@),
        op == BinaryOperator::Eq ==> res == Some(SsaConstant::Bool(a@ == b@)),
        op == BinaryOperator::Neq ==> res == Some(SsaConstant::Bool(a@ != b@)),
        op != BinaryOperator::Add && op != BinaryOperator::Eq && op != BinaryOperator::Neq ==> res is None,
        forall|x: i64, y: bool, r2: Option<SsaConstant>| #[trigger] fold_binary_rel(op, SsaConstant::Int(x), SsaConstant::Bool(y), r2) ==> r2 is None,
{
}

} // verus!

use vstd::prelude::*;

verus! {

use vstd::string::StringSliceAdditionalSpecFns;
use vstd::string::StringExecFns;

use crate::endpoint::{
    Extended, Rat, ext_wf, ext_eq, ext_lt, ext_le, ext_min, ext_max, ext_is_zero,
    spec_ext_add, spec_ext_sub, spec_ext_mul, spec_ext_div, spec_ext_neg, spec_ext_abs,
    spec_ext_powi, exec_ext_add, exec_ext_sub, exec_ext_mul, exec_ext_div, exec_ext_neg,
    exec_ext_abs, exec_ext_powi, exec_ext_lt, exec_ext_le, exec_ext_eq, exec_ext_min,
    exec_ext_max, exec_ext_zero, spec_abs,
};
use crate::memo::{
    BinMemo, PowMemo, bin_memo_map, pow_memo_map, bin_memo_empty, pow_memo_empty,
    bin_memo_new, bin_memo_get, bin_memo_contains, bin_memo_insert, bin_memo_clear,
    bin_memo_clone, pow_memo_new, pow_memo_get, pow_memo_insert, pow_memo_clear,
    pow_memo_clone,
};
use crate::mask::{
    nth_bit, mask_bit, low_ones, mask_in_range, lemma_or_bit, lemma_unit_bit,
    lemma_or_in_range, lemma_unit_in_range,
    lemma_zero_in_range, lemma_low_ones_step, lemma_mask_and_full, lemma_in_range_low_ones,
    lemma_zero_bit, lemma_or_zero, lemma_shl_pos,
};
use crate::sornset::{
    SornValue, SornSet, val_wf, val_min, val_max, val_eq, sets_wf, set_state_eq,
    bin_memo_ok, pow_memo_ok, seq_val_eq,
};

/// Width of the mask word: how many partition elements a SORN can carry.
pub fn sorn_max_bits() -> (r: usize)
    ensures
        r == 128,
{
    128
}

/// What a binary mask operation can fail with: a mask that does not fit
/// the partition, or operands interpreted against different partitions.
#[derive(Debug)]
pub enum SornErrors {
    NotInRange,
    DifferentSornSets,
}

/// The four ring operations on masks.
#[derive(Clone, Copy, Debug, PartialEq, Eq, Structural)]
pub enum SornOp {
    Add,
    Sub,
    Mul,
    Div,
}

/// The endpoint combination each operation performs.
pub open spec fn spec_ext_op(op: SornOp, a: Extended, b: Extended) -> Extended {
    match op {
        SornOp::Add => spec_ext_add(a, b),
        SornOp::Sub => spec_ext_sub(a, b),
        SornOp::Mul => spec_ext_mul(a, b),
        SornOp::Div => spec_ext_div(a, b),
    }
}

fn exec_ext_op(op: SornOp, a: &Extended, b: &Extended) -> (r: Extended)
    requires
        ext_wf(*a),
        ext_wf(*b),
    ensures
        r == spec_ext_op(op, *a, *b),
        ext_wf(r),
{
    match op {
        SornOp::Add => exec_ext_add(a, b),
        SornOp::Sub => exec_ext_sub(a, b),
        SornOp::Mul => exec_ext_mul(a, b),
        SornOp::Div => exec_ext_div(a, b),
    }
}

pub open spec fn val_is_interval(v: SornValue) -> bool {
    v is Open || v is OpenLeft || v is OpenRight
}

/// When a classifier input `v` overlaps a partition element `s`: the
/// pairwise overlap table. Interval against interval is strict on both
/// ends whatever their open or closed character; a point against a
/// half-open interval honours the closed end.
pub open spec fn spec_overlap(v: SornValue, s: SornValue) -> bool {
    ||| (v is Exact && s is Exact && ext_eq(val_min(v), val_min(s)))
    ||| (val_is_interval(v) && val_is_interval(s) && ext_lt(val_min(v), val_max(s)) && ext_lt(
        val_min(s),
        val_max(v),
    ))
    ||| (v is Open && s is Exact && ext_lt(val_min(v), val_min(s)) && ext_lt(
        val_min(s),
        val_max(v),
    ))
    ||| (v is Exact && s is Open && ext_lt(val_min(s), val_min(v)) && ext_lt(
        val_min(v),
        val_max(s),
    ))
    ||| (v is OpenLeft && s is Exact && ext_lt(val_min(v), val_min(s)) && ext_le(
        val_min(s),
        val_max(v),
    ))
    ||| (v is Exact && s is OpenLeft && ext_lt(val_min(s), val_min(v)) && ext_le(
        val_min(v),
        val_max(s),
    ))
    ||| (v is OpenRight && s is Exact && ext_le(val_min(v), val_min(s)) && ext_lt(
        val_min(s),
        val_max(v),
    ))
    ||| (v is Exact && s is OpenRight && ext_le(val_min(s), val_min(v)) && ext_lt(
        val_min(v),
        val_max(s),
    ))
}

fn exec_overlap(value: &SornValue, item: &SornValue) -> (r: bool)
    ensures
        r == spec_overlap(*value, *item),
{
    let vmin = value.min();
    let vmax = value.max();
    let imin = item.min();
    let imax = item.max();
    (value.is_exact() && item.is_exact() && exec_ext_eq(&vmin, &imin)) || (value.is_interval()
        && item.is_interval() && exec_ext_lt(&vmin, &imax) && exec_ext_lt(&imin, &vmax)) || (
    value.is_open() && item.is_exact() && exec_ext_lt(&vmin, &imin) && exec_ext_lt(&imin, &vmax))
        || (value.is_exact() && item.is_open() && exec_ext_lt(&imin, &vmin) && exec_ext_lt(
        &vmin,
        &imax,
    )) || (value.is_leftopen() && item.is_exact() && exec_ext_lt(&vmin, &imin) && exec_ext_le(
        &imin,
        &vmax,
    )) || (value.is_exact() && item.is_leftopen() && exec_ext_lt(&imin, &vmin) && exec_ext_le(
        &vmin,
        &imax,
    )) || (value.is_rightopen() && item.is_exact() && exec_ext_le(&vmin, &imin) && exec_ext_lt(
        &imin,
        &vmax,
    )) || (value.is_exact() && item.is_rightopen() && exec_ext_le(&imin, &vmin) && exec_ext_lt(
        &vmin,
        &imax,
    ))
}

/// The contribution of partition element `i` to the mask of `v`: its own
/// bit on overlap; bit zero when both are the sentinel and the partition
/// carries it.
pub open spec fn spec_cell(sets: Seq<SornValue>, inf: bool, v: SornValue, i: int) -> u128 {
    if spec_overlap(v, sets[i]) {
        mask_bit(i)
    } else if sets[i] is PlusMinusInf && v is PlusMinusInf && inf {
        1u128
    } else {
        0u128
    }
}

pub open spec fn spec_classify_upto(sets: Seq<SornValue>, inf: bool, v: SornValue, k: int) -> u128
    decreases k,
{
    if k <= 0 {
        0u128
    } else {
        spec_classify_upto(sets, inf, v, k - 1) | spec_cell(sets, inf, v, k - 1)
    }
}

/// The classifier: the mask whose bit `i` is set exactly when partition
/// element `i` overlaps `v` (with the sentinel rule for bit zero).
pub open spec fn spec_classify(sets: Seq<SornValue>, inf: bool, v: SornValue) -> u128 {
    spec_classify_upto(sets, inf, v, sets.len() as int)
}

proof fn lemma_classify_upto_in_range(sets: Seq<SornValue>, inf: bool, v: SornValue, k: int)
    requires
        0 <= k <= sets.len() <= 128,
    ensures
        mask_in_range(spec_classify_upto(sets, inf, v, k), sets.len() as int),
    decreases k,
{
    let n = sets.len() as int;
    if k <= 0 {
        if n < 128 {
            lemma_zero_in_range(n as u128);
        }
    } else {
        lemma_classify_upto_in_range(sets, inf, v, k - 1);
        if n < 128 {
            let prev = spec_classify_upto(sets, inf, v, k - 1);
            let cell = spec_cell(sets, inf, v, k - 1);
            if spec_overlap(v, sets[k - 1]) {
                lemma_unit_in_range((k - 1) as u128, n as u128);
            } else if sets[k - 1] is PlusMinusInf && v is PlusMinusInf && inf {
                lemma_unit_in_range(0u128, n as u128);
                assert(1u128 << 0u128 == 1u128) by (bit_vector);
            } else {
                lemma_zero_in_range(n as u128);
            }
            lemma_or_in_range(prev, cell, n as u128);
        }
    }
}

/// Masks built by the classifier never reach past the partition length.
pub proof fn lemma_classify_in_range(sets: Seq<SornValue>, inf: bool, v: SornValue)
    requires
        sets.len() <= 128,
    ensures
        mask_in_range(spec_classify(sets, inf, v), sets.len() as int),
{
    lemma_classify_upto_in_range(sets, inf, v, sets.len() as int);
}

/// Bit-by-bit reading of the classifier's answer: bit `i` is set exactly
/// when element `i` overlaps the value, except for bit zero, which is also
/// set when the value is the sentinel, the partition carries the sentinel
/// flag and some element is the sentinel.
pub proof fn lemma_classify_bits(sets: Seq<SornValue>, inf: bool, v: SornValue, i: int)
    requires
        sets.len() <= 128,
        0 <= i < 128,
    ensures
        nth_bit(spec_classify(sets, inf, v), i) <==> ((i < sets.len() && spec_overlap(v, sets[i]))
            || (i == 0 && v is PlusMinusInf && inf && exists|j: int|
            0 <= j < sets.len() && !spec_overlap(v, #[trigger] sets[j]) && sets[j] is PlusMinusInf)),
{
    lemma_classify_bits_upto(sets, inf, v, i, sets.len() as int);
}

proof fn lemma_classify_bits_upto(sets: Seq<SornValue>, inf: bool, v: SornValue, i: int, k: int)
    requires
        0 <= k <= sets.len() <= 128,
        0 <= i < 128,
    ensures
        nth_bit(spec_classify_upto(sets, inf, v, k), i) <==> ((i < k && spec_overlap(v, sets[i]))
            || (i == 0 && v is PlusMinusInf && inf && exists|j: int|
            0 <= j < k && !spec_overlap(v, #[trigger] sets[j]) && sets[j] is PlusMinusInf)),
    decreases k,
{
    if k <= 0 {
        lemma_zero_bit(i as u128);
    } else {
        lemma_classify_bits_upto(sets, inf, v, i, k - 1);
        let prev = spec_classify_upto(sets, inf, v, k - 1);
        let cell = spec_cell(sets, inf, v, k - 1);
        lemma_or_bit(prev, cell, i as u128);
        if spec_overlap(v, sets[k - 1]) {
            lemma_unit_bit((k - 1) as u128, i as u128);
        } else if sets[k - 1] is PlusMinusInf && v is PlusMinusInf && inf {
            lemma_unit_bit(0u128, i as u128);
            assert(1u128 << 0u128 == 1u128) by (bit_vector);
            if i == 0 {
                assert(nth_bit(cell, i));
                assert(0 <= k - 1 < sets.len() && !spec_overlap(v, sets[k - 1]) && sets[k - 1]
                    is PlusMinusInf);
            }
        } else {
            lemma_zero_bit(i as u128);
        }
    }
}

/// The values of the partition elements selected by a mask, in index
/// order.
pub open spec fn spec_mask_values(sets: Seq<SornValue>, m: u128) -> Seq<SornValue>
    decreases sets.len(),
{
    if sets.len() == 0 {
        Seq::<SornValue>::empty()
    } else if nth_bit(m, sets.len() - 1) {
        spec_mask_values(sets.drop_last(), m).push(sets.last())
    } else {
        spec_mask_values(sets.drop_last(), m)
    }
}

/// Some selected element is the sentinel.
pub open spec fn spec_mask_has_pminf(sets: Seq<SornValue>, m: u128) -> bool {
    exists|i: int|
        0 <= i < sets.len() && #[trigger] nth_bit(m, i) && sets[i] is PlusMinusInf
}

/// Some selected element equals the given value.
pub open spec fn spec_mask_contains(sets: Seq<SornValue>, m: u128, v: SornValue) -> bool {
    exists|i: int|
        0 <= i < sets.len() && #[trigger] nth_bit(m, i) && val_eq(v, sets[i])
}

/// Index of the first partition element equal to the value, or -1.
pub open spec fn spec_first_eq_idx(sets: Seq<SornValue>, v: SornValue, k: int) -> int
    decreases sets.len() - k,
{
    if k < 0 || k >= sets.len() {
        -1
    } else if val_eq(sets[k], v) {
        k
    } else {
        spec_first_eq_idx(sets, v, k + 1)
    }
}


// ------------------------------------------------------------------
// The arithmetic engine's specification.
// ------------------------------------------------------------------

/// The value-kind a pair of operands produces, per the kind-propagation
/// table, with its endpoints from the four candidate combinations. `None`
/// when no rule applies (the pair contributes nothing to the result).
pub open spec fn spec_combine(op: SornOp, s1: SornValue, s2: SornValue) -> Option<SornValue> {
    let c1 = spec_ext_op(op, val_min(s1), val_min(s2));
    let c2 = spec_ext_op(op, val_min(s1), val_max(s2));
    let c3 = spec_ext_op(op, val_max(s1), val_min(s2));
    let c4 = spec_ext_op(op, val_max(s1), val_max(s2));
    let lo = ext_min(ext_min(c1, c2), ext_min(c3, c4));
    let hi = ext_max(ext_max(c1, c2), ext_max(c3, c4));
    if (s1 is Exact && s2 is Exact) || (op is Mul && ext_is_zero(lo) && ext_is_zero(hi)) {
        Some(SornValue::Exact(lo))
    } else if s1 is Open || s2 is Open {
        Some(SornValue::Open((lo, hi)))
    } else if (s1 is OpenLeft && s2 is OpenLeft) || (s1 is OpenLeft && s2 is Exact) || (s1
        is Exact && s2 is OpenLeft) {
        Some(SornValue::OpenLeft((lo, hi)))
    } else if (s1 is OpenRight && s2 is OpenRight) || (s1 is OpenRight && s2 is Exact) || (s1
        is Exact && s2 is OpenRight) {
        Some(SornValue::OpenRight((lo, hi)))
    } else if (s1 is OpenLeft && s2 is OpenRight) || (s1 is OpenRight && s2 is OpenLeft) {
        Some(SornValue::Open((lo, hi)))
    } else if (lo is PosInf && hi is PosInf) || (lo is NegInf && hi is NegInf) {
        Some(SornValue::PlusMinusInf)
    } else {
        None
    }
}

/// Union of the masks a fixed left operand produces against each value of
/// the list.
pub open spec fn spec_cross_row(
    sets: Seq<SornValue>,
    inf: bool,
    op: SornOp,
    s1: SornValue,
    vs2: Seq<SornValue>,
) -> u128
    decreases vs2.len(),
{
    if vs2.len() == 0 {
        0u128
    } else {
        spec_cross_row(sets, inf, op, s1, vs2.drop_last()) | (match spec_combine(
            op,
            s1,
            vs2.last(),
        ) {
            Some(nv) => spec_classify(sets, inf, nv),
            None => 0u128,
        })
    }
}

/// Union over the whole cross product of the two value lists.
pub open spec fn spec_cross_all(
    sets: Seq<SornValue>,
    inf: bool,
    op: SornOp,
    vs1: Seq<SornValue>,
    vs2: Seq<SornValue>,
) -> u128
    decreases vs1.len(),
{
    if vs1.len() == 0 {
        0u128
    } else {
        spec_cross_all(sets, inf, op, vs1.drop_last(), vs2) | spec_cross_row(
            sets,
            inf,
            op,
            vs1.last(),
            vs2,
        )
    }
}

/// The full binary operation on masks. When both operands carry the
/// sentinel, the result saturates: to the full mask word where it fits
/// the partition, otherwise to the union of the two operand masks (a
/// symmetric rule that agrees with every cell of the reference operation
/// tables). When exactly one operand carries the sentinel, every
/// partition bit is set. Otherwise the result is the union over the
/// endpoint cross product.
pub open spec fn spec_binop(
    sets: Seq<SornValue>,
    inf: bool,
    op: SornOp,
    a: u128,
    b: u128,
) -> u128 {
    if spec_mask_has_pminf(sets, a) && spec_mask_has_pminf(sets, b) {
        if sets.len() == 128 {
            !0u128
        } else {
            a | b
        }
    } else if spec_mask_has_pminf(sets, a) || spec_mask_has_pminf(sets, b) {
        low_ones(sets.len() as int)
    } else {
        spec_cross_all(sets, inf, op, spec_mask_values(sets, a), spec_mask_values(sets, b))
    }
}

/// Whether the operation takes one of the sentinel short-circuits instead
/// of the cross product (in which case nothing is memoized).
pub open spec fn spec_binop_shortcircuits(sets: Seq<SornValue>, a: u128, b: u128) -> bool {
    spec_mask_has_pminf(sets, a) || spec_mask_has_pminf(sets, b)
}

/// An operation's memo table after it ran on a key pair: unchanged on a
/// hit or on a sentinel short-circuit; otherwise it gains exactly the key
/// — and, for the commutative operations, the mirrored key — mapped to
/// the result, and nothing else. In particular subtraction and division
/// never gain a mirrored entry.
pub open spec fn memo_after(
    m0: Map<(u128, u128), u128>,
    sets: Seq<SornValue>,
    inf: bool,
    op: SornOp,
    a: u128,
    b: u128,
) -> Map<(u128, u128), u128> {
    if m0.contains_key((a, b)) || spec_binop_shortcircuits(sets, a, b) {
        m0
    } else {
        let r = spec_binop(sets, inf, op, a, b);
        if op is Add || op is Mul {
            m0.insert((a, b), r).insert((b, a), r)
        } else {
            m0.insert((a, b), r)
        }
    }
}

// ------------------------------------------------------------------
// Unary operations.
// ------------------------------------------------------------------

/// Negation of one value: endpoints negated and swapped, half-open sides
/// exchanged when the order of the images reverses.
pub open spec fn spec_neg_value(s: SornValue) -> SornValue {
    match s {
        SornValue::Exact(v) => SornValue::Exact(spec_ext_neg(v)),
        SornValue::Open(p) => {
            let x = spec_ext_neg(p.0);
            let y = spec_ext_neg(p.1);
            if ext_lt(y, x) {
                SornValue::Open((y, x))
            } else {
                SornValue::Open((x, y))
            }
        },
        SornValue::OpenLeft(p) => {
            let x = spec_ext_neg(p.0);
            let y = spec_ext_neg(p.1);
            if ext_lt(y, x) {
                SornValue::OpenRight((y, x))
            } else {
                SornValue::OpenLeft((x, y))
            }
        },
        SornValue::OpenRight(p) => {
            let x = spec_ext_neg(p.0);
            let y = spec_ext_neg(p.1);
            if ext_lt(y, x) {
                SornValue::OpenLeft((y, x))
            } else {
                SornValue::OpenRight((x, y))
            }
        },
        SornValue::PlusMinusInf => SornValue::PlusMinusInf,
        SornValue::Empty => SornValue::Empty,
    }
}

/// Absolute value of one value, with the same reorder-and-flip rule.
pub open spec fn spec_abs_value(s: SornValue) -> SornValue {
    match s {
        SornValue::Exact(v) => SornValue::Exact(spec_ext_abs(v)),
        SornValue::Open(p) => {
            let x = spec_ext_abs(p.0);
            let y = spec_ext_abs(p.1);
            if ext_lt(y, x) {
                SornValue::Open((y, x))
            } else {
                SornValue::Open((x, y))
            }
        },
        SornValue::OpenLeft(p) => {
            let x = spec_ext_abs(p.0);
            let y = spec_ext_abs(p.1);
            if ext_lt(y, x) {
                SornValue::OpenRight((y, x))
            } else {
                SornValue::OpenLeft((x, y))
            }
        },
        SornValue::OpenRight(p) => {
            let x = spec_ext_abs(p.0);
            let y = spec_ext_abs(p.1);
            if ext_lt(y, x) {
                SornValue::OpenLeft((y, x))
            } else {
                SornValue::OpenRight((x, y))
            }
        },
        SornValue::PlusMinusInf => SornValue::PlusMinusInf,
        SornValue::Empty => SornValue::Empty,
    }
}

/// Integer power of one value.
pub open spec fn spec_pow_value(s: SornValue, e: int) -> SornValue {
    match s {
        SornValue::Exact(v) => SornValue::Exact(spec_ext_powi(v, e)),
        SornValue::Open(p) => {
            let x = spec_ext_powi(p.0, e);
            let y = spec_ext_powi(p.1, e);
            if ext_lt(y, x) {
                SornValue::Open((y, x))
            } else {
                SornValue::Open((x, y))
            }
        },
        SornValue::OpenLeft(p) => {
            let x = spec_ext_powi(p.0, e);
            let y = spec_ext_powi(p.1, e);
            if ext_lt(y, x) {
                SornValue::OpenRight((y, x))
            } else {
                SornValue::OpenLeft((x, y))
            }
        },
        SornValue::OpenRight(p) => {
            let x = spec_ext_powi(p.0, e);
            let y = spec_ext_powi(p.1, e);
            if ext_lt(y, x) {
                SornValue::OpenLeft((y, x))
            } else {
                SornValue::OpenRight((x, y))
            }
        },
        SornValue::PlusMinusInf => SornValue::PlusMinusInf,
        SornValue::Empty => SornValue::Empty,
    }
}

/// Union of the classifier masks of a transform applied to each value.
pub open spec fn spec_unary_union(
    sets: Seq<SornValue>,
    inf: bool,
    vs: Seq<SornValue>,
    f: spec_fn(SornValue) -> SornValue,
) -> u128
    decreases vs.len(),
{
    if vs.len() == 0 {
        0u128
    } else {
        spec_unary_union(sets, inf, vs.drop_last(), f) | spec_classify(sets, inf, f(vs.last()))
    }
}

pub open spec fn spec_neg_mask(sets: Seq<SornValue>, inf: bool, m: u128) -> u128 {
    spec_unary_union(sets, inf, spec_mask_values(sets, m), |s: SornValue| spec_neg_value(s))
}

pub open spec fn spec_abs_mask(sets: Seq<SornValue>, inf: bool, m: u128) -> u128 {
    spec_unary_union(sets, inf, spec_mask_values(sets, m), |s: SornValue| spec_abs_value(s))
}

pub open spec fn spec_pow_mask(sets: Seq<SornValue>, inf: bool, m: u128, e: int) -> u128 {
    spec_unary_union(sets, inf, spec_mask_values(sets, m), |s: SornValue| spec_pow_value(s, e))
}

/// The memo table a given operation reads and writes.
pub open spec fn memo_of(s: SornSet, op: SornOp) -> Map<(u128, u128), u128> {
    match op {
        SornOp::Add => bin_memo_map(s.precomputed_add),
        SornOp::Sub => bin_memo_map(s.precomputed_sub),
        SornOp::Mul => bin_memo_map(s.precomputed_mul),
        SornOp::Div => bin_memo_map(s.precomputed_div),
    }
}

/// The textual operation tags the table generator accepts.
pub open spec fn spec_op_of(bs: Seq<u8>) -> Option<SornOp> {
    if bs == seq![97u8, 100u8, 100u8] {
        Some(SornOp::Add)
    } else if bs == seq![115u8, 117u8, 98u8] {
        Some(SornOp::Sub)
    } else if bs == seq![109u8, 117u8, 108u8] {
        Some(SornOp::Mul)
    } else if bs == seq![100u8, 105u8, 118u8] {
        Some(SornOp::Div)
    } else {
        None
    }
}

/// Reads an operation tag: "add", "sub", "mul" or "div".
pub fn parse_op(operator: &str) -> (r: Option<SornOp>)
    ensures
        r == spec_op_of(operator.spec_bytes()),
{
    let bs = operator.as_bytes();
    let r = if bs.len() == 3 && bs[0] == 97u8 && bs[1] == 100u8 && bs[2] == 100u8 {
        Some(SornOp::Add)
    } else if bs.len() == 3 && bs[0] == 115u8 && bs[1] == 117u8 && bs[2] == 98u8 {
        Some(SornOp::Sub)
    } else if bs.len() == 3 && bs[0] == 109u8 && bs[1] == 117u8 && bs[2] == 108u8 {
        Some(SornOp::Mul)
    } else if bs.len() == 3 && bs[0] == 100u8 && bs[1] == 105u8 && bs[2] == 118u8 {
        Some(SornOp::Div)
    } else {
        None
    };
    proof {
        let v = operator.spec_bytes();
        if v.len() == 3 {
            assert(v =~= seq![v[0], v[1], v[2]]);
            if v[0] == 97u8 && v[1] == 100u8 && v[2] == 100u8 {
                assert(v =~= seq![97u8, 100u8, 100u8]);
            }
            if v[0] == 115u8 && v[1] == 117u8 && v[2] == 98u8 {
                assert(v =~= seq![115u8, 117u8, 98u8]);
            }
            if v[0] == 109u8 && v[1] == 117u8 && v[2] == 108u8 {
                assert(v =~= seq![109u8, 117u8, 108u8]);
            }
            if v[0] == 100u8 && v[1] == 105u8 && v[2] == 118u8 {
                assert(v =~= seq![100u8, 105u8, 118u8]);
            }
            assert(seq![97u8, 100u8, 100u8].len() == 3);
            assert(seq![115u8, 117u8, 98u8].len() == 3);
            assert(seq![109u8, 117u8, 108u8].len() == 3);
            assert(seq![100u8, 105u8, 118u8].len() == 3);
        } else {
            assert(seq![97u8, 100u8, 100u8].len() == 3);
            assert(seq![115u8, 117u8, 98u8].len() == 3);
            assert(seq![109u8, 117u8, 108u8].len() == 3);
            assert(seq![100u8, 105u8, 118u8].len() == 3);
        }
    }
    r
}

// ------------------------------------------------------------------
// The classifier and helper loops.
// ------------------------------------------------------------------

/// The values selected by a mask against a partition's element list.
fn ranges_of(set: &SornSet, bits: u128) -> (r: Vec<SornValue>)
    requires
        set.sets@.len() <= 128,
    ensures
        r@ == spec_mask_values(set.sets@, bits),
        sets_wf(set.sets@) ==> forall|i: int| 0 <= i < r@.len() ==> val_wf(#[trigger] r@[i]),
{
    let n = set.sets.len();
    let mut r: Vec<SornValue> = Vec::new();
    let mut i: usize = 0;
    while i < n
        invariant
            0 <= i <= n,
            n == set.sets@.len() <= 128,
            r@ == spec_mask_values(set.sets@.subrange(0, i as int), bits),
            sets_wf(set.sets@) ==> forall|k: int|
                0 <= k < r@.len() ==> val_wf(#[trigger] r@[k]),
        decreases n - i,
    {
        proof {
            assert(set.sets@.subrange(0, i + 1).drop_last() =~= set.sets@.subrange(0, i as int));
            assert(set.sets@.subrange(0, i + 1).last() == set.sets@[i as int]);
        }
        if (bits >> (i as u128)) & 1 == 1 {
            r.push(set.sets[i]);
            proof {
                assert(nth_bit(bits, i as int));
            }
        } else {
            proof {
                assert(!nth_bit(bits, i as int));
            }
        }
        i = i + 1;
    }
    proof {
        assert(set.sets@.subrange(0, n as int) =~= set.sets@);
    }
    r
}

/// Whether any element selected by the mask is the sentinel.
fn mask_has_pminf(set: &SornSet, bits: u128) -> (r: bool)
    requires
        set.sets@.len() <= 128,
    ensures
        r == spec_mask_has_pminf(set.sets@, bits),
{
    let n = set.sets.len();
    let mut i: usize = 0;
    while i < n
        invariant
            0 <= i <= n,
            n == set.sets@.len() <= 128,
            forall|j: int|
                0 <= j < i ==> !(#[trigger] nth_bit(bits, j) && set.sets@[j] is PlusMinusInf),
        decreases n - i,
    {
        if (bits >> (i as u128)) & 1 == 1 && matches!(set.sets[i], SornValue::PlusMinusInf) {
            proof {
                assert(nth_bit(bits, i as int) && set.sets@[i as int] is PlusMinusInf);
            }
            return true;
        }
        i = i + 1;
    }
    false
}

pub struct Sorn {
    pub bits: u128,
    pub sorn_set: SornSet,
}

impl PartialEq for SornSet {
    fn eq(&self, other: &Self) -> (r: bool) {
        sets_eq_exec(self, other)
    }
}

impl vstd::std_specs::cmp::PartialEqSpecImpl for SornSet {
    open spec fn obeys_eq_spec() -> bool {
        true
    }

    open spec fn eq_spec(&self, other: &SornSet) -> bool {
        self.same_partition(other)
    }
}

impl PartialEq for Sorn {
    fn eq(&self, other: &Self) -> (r: bool) {
        sets_eq_exec(&self.sorn_set, &other.sorn_set) && self.bits == other.bits
    }
}

impl vstd::std_specs::cmp::PartialEqSpecImpl for Sorn {
    open spec fn obeys_eq_spec() -> bool {
        true
    }

    open spec fn eq_spec(&self, other: &Sorn) -> bool {
        self.sorn_set.same_partition(&other.sorn_set) && self.bits == other.bits
    }
}

impl Sorn {
    pub fn default() -> (r: Sorn)
        ensures
            r.bits == 0,
            r.sorn_set.sets@ == Seq::<SornValue>::empty(),
            r.sorn_set.wf(),
    {
        Sorn { bits: 0, sorn_set: SornSet::default() }
    }

    /// An empty mask bound to a copy of the partition.
    pub fn new(set: &SornSet) -> (r: Sorn)
        ensures
            r.bits == 0,
            set_state_eq(r.sorn_set, *set),
    {
        Sorn { bits: 0, sorn_set: set.duplicate() }
    }

    /// The classifier: the mask of elements of the partition that overlap
    /// the value.
    pub fn sorn_to_bits(sorn_set: &SornSet, value: &SornValue) -> (r: u128)
        requires
            sorn_set.sets@.len() <= 128,
        ensures
            r == spec_classify(sorn_set.sets@, sorn_set.contains_inf, *value),
            mask_in_range(r, sorn_set.sets@.len() as int),
    {
        let ghost sets = sorn_set.sets@;
        let ghost inf = sorn_set.contains_inf;
        let n = sorn_set.sets.len();
        let mut result: u128 = 0;
        let mut i: usize = 0;
        while i < n
            invariant
                0 <= i <= n,
                n == sets.len() <= 128,
                sets == sorn_set.sets@,
                inf == sorn_set.contains_inf,
                result == spec_classify_upto(sets, inf, *value, i as int),
            decreases n - i,
        {
            if exec_overlap(value, &sorn_set.sets[i]) {
                result = result | (1u128 << (i as u128));
            } else if matches!(sorn_set.sets[i], SornValue::PlusMinusInf) && value.is_pminf()
                && sorn_set.contains_inf {
                result = result | 1u128;
            }
            proof {
                assert(1u128 << 0u128 == 1u128) by (bit_vector);
                lemma_or_zero(result);
            }
            i = i + 1;
        }
        proof {
            lemma_classify_in_range(sets, inf, *value);
        }
        result
    }

    /// Classifies a value and binds the resulting mask to a copy of the
    /// partition.
    pub fn from_sornvalue(set: &SornSet, value: SornValue) -> (r: Sorn)
        requires
            set.sets@.len() <= 128,
        ensures
            r.bits == spec_classify(set.sets@, set.contains_inf, value),
            set_state_eq(r.sorn_set, *set),
    {
        let mut result = Sorn::new(set);
        let bits = Sorn::sorn_to_bits(set, &value);
        result.bits = bits;
        result
    }

    /// Sets the mask to the unit mask of the first partition element equal
    /// to the value, or to zero when none is.
    pub fn set_value(&mut self, value: SornValue)
        requires
            old(self).sorn_set.sets@.len() <= 128,
        ensures
            final(self).sorn_set == old(self).sorn_set,
            ({
                let idx = spec_first_eq_idx(old(self).sorn_set.sets@, value, 0);
                final(self).bits == if idx >= 0 {
                    mask_bit(idx)
                } else {
                    0u128
                }
            }),
    {
        let ghost sets = self.sorn_set.sets@;
        let mut pos: u128 = 0;
        let n = self.sorn_set.sets.len();
        let mut i: usize = 0;
        let mut found = false;
        while i < n && !found
            invariant
                0 <= i <= n,
                n == sets.len() <= 128,
                sets == self.sorn_set.sets@,
                !found ==> spec_first_eq_idx(sets, value, 0) == spec_first_eq_idx(
                    sets,
                    value,
                    i as int,
                ),
                !found ==> pos == 0,
                found ==> 0 <= spec_first_eq_idx(sets, value, 0) < 128 && pos == mask_bit(
                    spec_first_eq_idx(sets, value, 0),
                ),
            decreases n - i,
        {
            if self.sorn_set.sets[i] == value {
                pos = 1u128 << (i as u128);
                found = true;
                proof {
                    lemma_first_eq_found(sets, value, i as int);
                }
            }
            i = i + 1;
        }
        self.bits = pos;
    }

    /// Direct mask assignment; refused when a bit reaches past the
    /// partition length, in which case the mask keeps its old value.
    pub fn set_bits(&mut self, bits: u128) -> (r: Result<(), SornErrors>)
        ensures
            final(self).sorn_set == old(self).sorn_set,
            mask_in_range(bits, old(self).sorn_set.sets@.len() as int) ==> r is Ok
                && final(self).bits == bits,
            !mask_in_range(bits, old(self).sorn_set.sets@.len() as int) ==> (
            r matches Err(SornErrors::NotInRange) && final(self).bits == old(self).bits),
    {
        let n = self.sorn_set.sets.len();
        if n < 128 && (bits >> (n as u128)) != 0 {
            return Err(SornErrors::NotInRange);
        }
        self.bits = bits;
        Ok(())
    }

    /// Whether some selected partition element equals the value.
    pub fn contains(&self, value: SornValue) -> (r: bool)
        requires
            self.sorn_set.sets@.len() <= 128,
        ensures
            r == spec_mask_contains(self.sorn_set.sets@, self.bits, value),
    {
        let ghost sets = self.sorn_set.sets@;
        let n = self.sorn_set.sets.len();
        let mut i: usize = 0;
        while i < n
            invariant
                0 <= i <= n,
                n == sets.len() <= 128,
                sets == self.sorn_set.sets@,
                forall|j: int|
                    0 <= j < i ==> !(#[trigger] nth_bit(self.bits, j) && val_eq(
                        value,
                        sets[j],
                    )),
            decreases n - i,
        {
            if self.sorn_set.sets[i] == value && ((1u128 << (i as u128)) & self.bits) > 0 {
                proof {
                    lemma_unit_bit(i as u128, i as u128);
                    lemma_and_unit(self.bits, i as u128);
                    assert(nth_bit(self.bits, i as int) && val_eq(value, sets[i as int]));
                }
                return true;
            }
            proof {
                lemma_and_unit(self.bits, i as u128);
            }
            i = i + 1;
        }
        false
    }

    /// The semantic overlap test: whether the mask shares a bit with the
    /// classifier's mask for the value.
    pub fn fit_contains(&self, value: SornValue) -> (r: bool)
        requires
            self.sorn_set.sets@.len() <= 128,
        ensures
            r == ((self.bits & spec_classify(
                self.sorn_set.sets@,
                self.sorn_set.contains_inf,
                value,
            )) != 0),
    {
        let bit = Sorn::sorn_to_bits(&self.sorn_set, &value);
        (self.bits & bit) > 0
    }

    /// The ordered list of selected partition elements, as a bare set
    /// carrier (no infinity flag, no memo entries).
    pub fn get_ranges(&self) -> (r: SornSet)
        requires
            self.sorn_set.sets@.len() <= 128,
            sets_wf(self.sorn_set.sets@),
        ensures
            r.sets@ == spec_mask_values(self.sorn_set.sets@, self.bits),
            !r.contains_inf,
            r.one_bit == 0,
            r.wf(),
    {
        let vals = ranges_of(&self.sorn_set, self.bits);
        let mut out = SornSet::default();
        let mut i: usize = 0;
        proof {
            lemma_mask_values_len(self.sorn_set.sets@, self.bits);
        }
        while i < vals.len()
            invariant
                0 <= i <= vals.len(),
                vals@.len() <= self.sorn_set.sets@.len() <= 128,
                vals@ == spec_mask_values(self.sorn_set.sets@, self.bits),
                sets_wf(self.sorn_set.sets@),
                forall|k: int| 0 <= k < vals@.len() ==> val_wf(#[trigger] vals@[k]),
                out.sets@ == vals@.subrange(0, i as int),
                !out.contains_inf,
                out.one_bit == 0,
                out.wf(),
            decreases vals.len() - i,
        {
            let v = vals[i];
            out.push(v);
            proof {
                assert(out.sets@ =~= vals@.subrange(0, i + 1));
            }
            i = i + 1;
        }
        proof {
            assert(out.sets@ =~= vals@);
        }
        out
    }

    /// The lowest-indexed selected element; nothing when the mask is
    /// empty.
    pub fn get_min_range(&self) -> (r: Option<SornValue>)
        requires
            self.sorn_set.sets@.len() <= 128,
            sets_wf(self.sorn_set.sets@),
            mask_in_range(self.bits, self.sorn_set.sets@.len() as int),
        ensures
            match r {
                Some(v) => self.bits != 0 && spec_mask_values(self.sorn_set.sets@, self.bits).len()
                    > 0 && v == spec_mask_values(self.sorn_set.sets@, self.bits)[0],
                None => self.bits == 0,
            },
    {
        if self.bits == 0 {
            return None;
        }
        let ranges = self.get_ranges();
        proof {
            lemma_mask_nonzero_values(self.sorn_set.sets@, self.bits);
        }
        Some(ranges.get(0))
    }

    /// The highest-indexed selected element; nothing when no bit inside
    /// the partition is set.
    pub fn get_max_range(&self) -> (r: Option<SornValue>)
        requires
            self.sorn_set.sets@.len() <= 128,
            sets_wf(self.sorn_set.sets@),
        ensures
            ({
                let vs = spec_mask_values(self.sorn_set.sets@, self.bits);
                match r {
                    Some(v) => vs.len() > 0 && v == vs[vs.len() - 1],
                    None => vs.len() == 0,
                }
            }),
    {
        let ranges = self.get_ranges();
        if ranges.len() == 0 {
            return None;
        }
        Some(ranges.get(ranges.len() - 1))
    }

    /// The first selected element, which the caller must know to exist.
    pub fn to_sornvalue(&self) -> (r: SornValue)
        requires
            self.sorn_set.sets@.len() <= 128,
            sets_wf(self.sorn_set.sets@),
            spec_mask_values(self.sorn_set.sets@, self.bits).len() > 0,
        ensures
            r == spec_mask_values(self.sorn_set.sets@, self.bits)[0],
    {
        let ranges = self.get_ranges();
        ranges.get(0)
    }
}

// ------------------------------------------------------------------
// Helper lemmas about masks and value lists.
// ------------------------------------------------------------------

proof fn lemma_and_unit(m: u128, i: u128)
    by (bit_vector)
    requires
        i < 128,
    ensures
        ((1u128 << i) & m) > 0 <==> (m >> i) & 1 == 1,
{
}

proof fn lemma_first_eq_found(sets: Seq<SornValue>, v: SornValue, i: int)
    requires
        0 <= i < sets.len(),
        val_eq(sets[i], v),
    ensures
        spec_first_eq_idx(sets, v, i) == i,
{
}

/// No more values are selected than the partition holds.
proof fn lemma_mask_values_len(sets: Seq<SornValue>, m: u128)
    ensures
        spec_mask_values(sets, m).len() <= sets.len(),
    decreases sets.len(),
{
    if sets.len() > 0 {
        lemma_mask_values_len(sets.drop_last(), m);
    }
}

/// An in-range non-zero mask selects at least one value.
proof fn lemma_mask_nonzero_values(sets: Seq<SornValue>, m: u128)
    requires
        sets.len() <= 128,
        mask_in_range(m, sets.len() as int),
        m != 0,
    ensures
        spec_mask_values(sets, m).len() > 0,
{
    if spec_mask_values(sets, m).len() == 0 {
        lemma_mask_values_empty(sets, m);
        lemma_all_bits_clear_zero(m, sets.len() as int);
    }
}

/// An empty selection means no bit below the partition length is set.
proof fn lemma_mask_values_empty(sets: Seq<SornValue>, m: u128)
    requires
        spec_mask_values(sets, m).len() == 0,
    ensures
        forall|i: int| 0 <= i < sets.len() ==> !nth_bit(m, i),
    decreases sets.len(),
{
    if sets.len() > 0 {
        assert(!nth_bit(m, sets.len() - 1));
        lemma_mask_values_empty(sets.drop_last(), m);
        assert forall|i: int| 0 <= i < sets.len() implies !nth_bit(m, i) by {
            if i < sets.len() - 1 {
                assert(!nth_bit(m, i));
            }
        }
    }
}

/// A mask with no set bit below `n` and none at `n` or above is zero.
proof fn lemma_all_bits_clear_zero(m: u128, n: int)
    requires
        0 <= n <= 128,
        mask_in_range(m, n),
        forall|i: int| 0 <= i < n ==> !nth_bit(m, i),
    ensures
        m == 0,
{
    lemma_low_and_zero(m, n);
    if n == 128 {
        lemma_mask_and_full(m);
    } else if n == 0 {
        assert(m >> 0u128 == m) by (bit_vector);
    } else {
        lemma_in_range_low_ones(m, n as u128);
        assert(low_ones(n) == ((1u128 << (n as u128)) - 1) as u128);
    }
}

/// With every bit below `k` clear, the restriction of `m` to its low `k`
/// bits is zero.
proof fn lemma_low_and_zero(m: u128, k: int)
    requires
        0 <= k <= 128,
        forall|i: int| 0 <= i < k ==> !nth_bit(m, i),
    ensures
        m & low_ones(k) == 0,
    decreases k,
{
    if k == 0 {
        assert(m & 0u128 == 0) by (bit_vector);
    } else {
        lemma_low_and_zero(m, k - 1);
        assert(!nth_bit(m, k - 1));
        let ku = (k - 1) as u128;
        lemma_low_ones_step(m, ku);
        assert((m >> ku) & 1 != 1);
        assert((1u128 << 0u128) - 1 == 0) by (bit_vector);
        if k - 1 == 0 {
            assert(low_ones(0) == 0u128);
            assert(((1u128 << ku) - 1) as u128 == 0u128) by (bit_vector)
                requires
                    ku == 0,
            ;
        }
        let prev = m & low_ones(k - 1);
        assert(prev | 0u128 == prev) by (bit_vector);
        assert(m & low_ones(k - 1) == 0);
    }
}


// ------------------------------------------------------------------
// The arithmetic engine, executable.
// ------------------------------------------------------------------

/// A value all of whose endpoints equal themselves (no `Nan` endpoint).
pub open spec fn val_selfeq(v: SornValue) -> bool {
    val_eq(v, v)
}

/// Element lists whose values equal themselves compare equal to
/// themselves; a partition with an undefined endpoint does not, and the
/// engine then refuses to combine masks over it, as the partition check
/// compares by value.
pub proof fn lemma_seq_val_eq_refl(x: Seq<SornValue>)
    requires
        forall|i: int| 0 <= i < x.len() ==> val_selfeq(#[trigger] x[i]),
    ensures
        seq_val_eq(x, x),
{
}

fn sets_eq_exec(x: &SornSet, y: &SornSet) -> (r: bool)
    ensures
        r == x.same_partition(y),
{
    if x.contains_inf != y.contains_inf {
        return false;
    }
    if x.sets.len() != y.sets.len() {
        return false;
    }
    let n = x.sets.len();
    let mut i: usize = 0;
    while i < n
        invariant
            0 <= i <= n,
            n == x.sets@.len() == y.sets@.len(),
            x.contains_inf == y.contains_inf,
            forall|j: int| 0 <= j < i ==> val_eq(#[trigger] x.sets@[j], y.sets@[j]),
        decreases n - i,
    {
        if !(x.sets[i] == y.sets[i]) {
            return false;
        }
        i = i + 1;
    }
    true
}

fn exec_combine(op: SornOp, s1: &SornValue, s2: &SornValue) -> (r: Option<SornValue>)
    requires
        val_wf(*s1),
        val_wf(*s2),
    ensures
        r == spec_combine(op, *s1, *s2),
{
    let s1min = s1.min();
    let s1max = s1.max();
    let s2min = s2.min();
    let s2max = s2.max();
    let c1 = exec_ext_op(op, &s1min, &s2min);
    let c2 = exec_ext_op(op, &s1min, &s2max);
    let c3 = exec_ext_op(op, &s1max, &s2min);
    let c4 = exec_ext_op(op, &s1max, &s2max);
    let m12 = exec_ext_min(&c1, &c2);
    let m34 = exec_ext_min(&c3, &c4);
    let lo = exec_ext_min(&m12, &m34);
    let x12 = exec_ext_max(&c1, &c2);
    let x34 = exec_ext_max(&c3, &c4);
    let hi = exec_ext_max(&x12, &x34);
    if (s1.is_exact() && s2.is_exact()) || (matches!(op, SornOp::Mul) && exec_ext_zero(&lo)
        && exec_ext_zero(&hi)) {
        Some(SornValue::Exact(lo))
    } else if s1.is_open() || s2.is_open() {
        Some(SornValue::Open((lo, hi)))
    } else if (s1.is_leftopen() && s2.is_leftopen()) || (s1.is_leftopen() && s2.is_exact()) || (
    s1.is_exact() && s2.is_leftopen()) {
        Some(SornValue::OpenLeft((lo, hi)))
    } else if (s1.is_rightopen() && s2.is_rightopen()) || (s1.is_rightopen() && s2.is_exact())
        || (s1.is_exact() && s2.is_rightopen()) {
        Some(SornValue::OpenRight((lo, hi)))
    } else if (s1.is_leftopen() && s2.is_rightopen()) || (s1.is_rightopen() && s2.is_leftopen()) {
        Some(SornValue::Open((lo, hi)))
    } else if (matches!(lo, Extended::PosInf) && matches!(hi, Extended::PosInf)) || (matches!(
        lo,
        Extended::NegInf,
    ) && matches!(hi, Extended::NegInf)) {
        Some(SornValue::PlusMinusInf)
    } else {
        None
    }
}

/// The union over the cross product of two selected-value lists, each
/// pair's result classified against the partition.
fn cross_exec(set: &SornSet, op: SornOp, vs1: &Vec<SornValue>, vs2: &Vec<SornValue>) -> (r: u128)
    requires
        set.sets@.len() <= 128,
        forall|i: int| 0 <= i < vs1@.len() ==> val_wf(#[trigger] vs1@[i]),
        forall|i: int| 0 <= i < vs2@.len() ==> val_wf(#[trigger] vs2@[i]),
    ensures
        r == spec_cross_all(set.sets@, set.contains_inf, op, vs1@, vs2@),
{
    let ghost sets = set.sets@;
    let ghost inf = set.contains_inf;
    let n1 = vs1.len();
    let n2 = vs2.len();
    let mut result: u128 = 0;
    let mut i: usize = 0;
    while i < n1
        invariant
            0 <= i <= n1,
            n1 == vs1@.len(),
            n2 == vs2@.len(),
            sets == set.sets@,
            inf == set.contains_inf,
            sets.len() <= 128,
            forall|k: int| 0 <= k < vs1@.len() ==> val_wf(#[trigger] vs1@[k]),
            forall|k: int| 0 <= k < vs2@.len() ==> val_wf(#[trigger] vs2@[k]),
            result == spec_cross_all(sets, inf, op, vs1@.subrange(0, i as int), vs2@),
        decreases n1 - i,
    {
        let mut row: u128 = 0;
        let mut j: usize = 0;
        while j < n2
            invariant
                0 <= j <= n2,
                0 <= i < n1,
                n1 == vs1@.len(),
                n2 == vs2@.len(),
                sets == set.sets@,
                inf == set.contains_inf,
                sets.len() <= 128,
                forall|k: int| 0 <= k < vs1@.len() ==> val_wf(#[trigger] vs1@[k]),
                forall|k: int| 0 <= k < vs2@.len() ==> val_wf(#[trigger] vs2@[k]),
                row == spec_cross_row(sets, inf, op, vs1@[i as int], vs2@.subrange(0, j as int)),
            decreases n2 - j,
        {
            proof {
                assert(vs2@.subrange(0, j + 1).drop_last() =~= vs2@.subrange(0, j as int));
                assert(vs2@.subrange(0, j + 1).last() == vs2@[j as int]);
            }
            match exec_combine(op, &vs1[i], &vs2[j]) {
                Some(nv) => {
                    row = row | Sorn::sorn_to_bits(set, &nv);
                },
                None => {
                    proof {
                        lemma_or_zero(row);
                    }
                },
            }
            j = j + 1;
        }
        proof {
            assert(vs2@.subrange(0, n2 as int) =~= vs2@);
            assert(vs1@.subrange(0, i + 1).drop_last() =~= vs1@.subrange(0, i as int));
            assert(vs1@.subrange(0, i + 1).last() == vs1@[i as int]);
        }
        result = result | row;
        i = i + 1;
    }
    proof {
        assert(vs1@.subrange(0, n1 as int) =~= vs1@);
    }
    result
}

fn exec_neg_value(s: &SornValue) -> (r: SornValue)
    requires
        val_wf(*s),
    ensures
        r == spec_neg_value(*s),
{
    match s {
        SornValue::Exact(v) => SornValue::Exact(exec_ext_neg(v)),
        SornValue::Open(p) => {
            let x = exec_ext_neg(&p.0);
            let y = exec_ext_neg(&p.1);
            if exec_ext_lt(&y, &x) {
                SornValue::Open((y, x))
            } else {
                SornValue::Open((x, y))
            }
        },
        SornValue::OpenLeft(p) => {
            let x = exec_ext_neg(&p.0);
            let y = exec_ext_neg(&p.1);
            if exec_ext_lt(&y, &x) {
                SornValue::OpenRight((y, x))
            } else {
                SornValue::OpenLeft((x, y))
            }
        },
        SornValue::OpenRight(p) => {
            let x = exec_ext_neg(&p.0);
            let y = exec_ext_neg(&p.1);
            if exec_ext_lt(&y, &x) {
                SornValue::OpenLeft((y, x))
            } else {
                SornValue::OpenRight((x, y))
            }
        },
        SornValue::PlusMinusInf => SornValue::PlusMinusInf,
        SornValue::Empty => SornValue::Empty,
    }
}

fn exec_abs_value(s: &SornValue) -> (r: SornValue)
    requires
        val_wf(*s),
    ensures
        r == spec_abs_value(*s),
{
    match s {
        SornValue::Exact(v) => SornValue::Exact(exec_ext_abs(v)),
        SornValue::Open(p) => {
            let x = exec_ext_abs(&p.0);
            let y = exec_ext_abs(&p.1);
            if exec_ext_lt(&y, &x) {
                SornValue::Open((y, x))
            } else {
                SornValue::Open((x, y))
            }
        },
        SornValue::OpenLeft(p) => {
            let x = exec_ext_abs(&p.0);
            let y = exec_ext_abs(&p.1);
            if exec_ext_lt(&y, &x) {
                SornValue::OpenRight((y, x))
            } else {
                SornValue::OpenLeft((x, y))
            }
        },
        SornValue::OpenRight(p) => {
            let x = exec_ext_abs(&p.0);
            let y = exec_ext_abs(&p.1);
            if exec_ext_lt(&y, &x) {
                SornValue::OpenLeft((y, x))
            } else {
                SornValue::OpenRight((x, y))
            }
        },
        SornValue::PlusMinusInf => SornValue::PlusMinusInf,
        SornValue::Empty => SornValue::Empty,
    }
}

fn exec_pow_value(s: &SornValue, e: i32) -> (r: SornValue)
    requires
        val_wf(*s),
    ensures
        r == spec_pow_value(*s, e as int),
{
    match s {
        SornValue::Exact(v) => SornValue::Exact(exec_ext_powi(v, e)),
        SornValue::Open(p) => {
            let x = exec_ext_powi(&p.0, e);
            let y = exec_ext_powi(&p.1, e);
            if exec_ext_lt(&y, &x) {
                SornValue::Open((y, x))
            } else {
                SornValue::Open((x, y))
            }
        },
        SornValue::OpenLeft(p) => {
            let x = exec_ext_powi(&p.0, e);
            let y = exec_ext_powi(&p.1, e);
            if exec_ext_lt(&y, &x) {
                SornValue::OpenRight((y, x))
            } else {
                SornValue::OpenLeft((x, y))
            }
        },
        SornValue::OpenRight(p) => {
            let x = exec_ext_powi(&p.0, e);
            let y = exec_ext_powi(&p.1, e);
            if exec_ext_lt(&y, &x) {
                SornValue::OpenLeft((y, x))
            } else {
                SornValue::OpenRight((x, y))
            }
        },
        SornValue::PlusMinusInf => SornValue::PlusMinusInf,
        SornValue::Empty => SornValue::Empty,
    }
}

impl Sorn {
    /// A copy: same bits, same partition, same memo entries.
    pub fn duplicate(&self) -> (r: Sorn)
        ensures
            r.bits == self.bits,
            set_state_eq(r.sorn_set, self.sorn_set),
            self.sorn_set.wf() ==> r.sorn_set.wf(),
    {
        Sorn { bits: self.bits, sorn_set: self.sorn_set.duplicate() }
    }

    /// Raises the mask to an integer power: each selected element has its
    /// endpoints raised, is reclassified, and the masks are unioned. The
    /// result is cached under the pair of the bit pattern and the
    /// exponent.
    pub fn pow(&mut self, power: i32) -> (r: Sorn)
        requires
            old(self).sorn_set.wf(),
    ensures
            final(self).bits == old(self).bits,
            final(self).sorn_set.sets@ == old(self).sorn_set.sets@,
            final(self).sorn_set.contains_inf == old(self).sorn_set.contains_inf,
            final(self).sorn_set.one_bit == old(self).sorn_set.one_bit,
            final(self).sorn_set.wf(),
            bin_memo_map(final(self).sorn_set.precomputed_add) == bin_memo_map(
                old(self).sorn_set.precomputed_add,
            ),
            bin_memo_map(final(self).sorn_set.precomputed_sub) == bin_memo_map(
                old(self).sorn_set.precomputed_sub,
            ),
            bin_memo_map(final(self).sorn_set.precomputed_mul) == bin_memo_map(
                old(self).sorn_set.precomputed_mul,
            ),
            bin_memo_map(final(self).sorn_set.precomputed_div) == bin_memo_map(
                old(self).sorn_set.precomputed_div,
            ),
            r.bits == spec_pow_mask(
                old(self).sorn_set.sets@,
                old(self).sorn_set.contains_inf,
                old(self).bits,
                power as int,
            ),
            set_state_eq(r.sorn_set, old(self).sorn_set),
            pow_memo_map(final(self).sorn_set.precomputed_pow).contains_key(
                (old(self).bits, power),
            ),
    {
        let ghost sets = self.sorn_set.sets@;
        let ghost inf = self.sorn_set.contains_inf;
        let mut sorn = Sorn::new(&self.sorn_set);
        let hit = pow_memo_get(&self.sorn_set.precomputed_pow, self.bits, power);
        match hit {
            Some(v) => {
                sorn.bits = v;
                return sorn;
            },
            None => {},
        }
        let vals = ranges_of(&self.sorn_set, self.bits);
        let ghost f = |s: SornValue| spec_pow_value(s, power as int);
        let mut result: u128 = 0;
        let mut i: usize = 0;
        while i < vals.len()
            invariant
                0 <= i <= vals@.len(),
                sets == self.sorn_set.sets@,
                inf == self.sorn_set.contains_inf,
                sets.len() <= 128,
                f == (|s: SornValue| spec_pow_value(s, power as int)),
                forall|k: int| 0 <= k < vals@.len() ==> val_wf(#[trigger] vals@[k]),
                result == spec_unary_union(sets, inf, vals@.subrange(0, i as int), f),
            decreases vals@.len() - i,
        {
            proof {
                assert(vals@.subrange(0, i + 1).drop_last() =~= vals@.subrange(0, i as int));
                assert(vals@.subrange(0, i + 1).last() == vals@[i as int]);
            }
            let nv = exec_pow_value(&vals[i], power);
            result = result | Sorn::sorn_to_bits(&self.sorn_set, &nv);
            i = i + 1;
        }
        proof {
            assert(vals@.subrange(0, vals@.len() as int) =~= vals@);
        }
        pow_memo_insert(&mut self.sorn_set.precomputed_pow, self.bits, power, result);
        sorn.bits = result;
        sorn
    }

    /// The absolute value of the mask: each selected element mapped
    /// through the absolute value and reclassified.
    pub fn abs(&mut self) -> (r: Sorn)
        requires
            old(self).sorn_set.sets@.len() <= 128,
            sets_wf(old(self).sorn_set.sets@),
        ensures
            *final(self) == *old(self),
            r.bits == spec_abs_mask(
                old(self).sorn_set.sets@,
                old(self).sorn_set.contains_inf,
                old(self).bits,
            ),
            set_state_eq(r.sorn_set, old(self).sorn_set),
    {
        let ghost sets = self.sorn_set.sets@;
        let ghost inf = self.sorn_set.contains_inf;
        let mut sorn = Sorn::new(&self.sorn_set);
        let vals = ranges_of(&self.sorn_set, self.bits);
        let ghost f = |s: SornValue| spec_abs_value(s);
        let mut result: u128 = 0;
        let mut i: usize = 0;
        while i < vals.len()
            invariant
                0 <= i <= vals@.len(),
                sets == self.sorn_set.sets@,
                inf == self.sorn_set.contains_inf,
                sets.len() <= 128,
                f == (|s: SornValue| spec_abs_value(s)),
                forall|k: int| 0 <= k < vals@.len() ==> val_wf(#[trigger] vals@[k]),
                result == spec_unary_union(sets, inf, vals@.subrange(0, i as int), f),
            decreases vals@.len() - i,
        {
            proof {
                assert(vals@.subrange(0, i + 1).drop_last() =~= vals@.subrange(0, i as int));
                assert(vals@.subrange(0, i + 1).last() == vals@[i as int]);
            }
            let nv = exec_abs_value(&vals[i]);
            result = result | Sorn::sorn_to_bits(&self.sorn_set, &nv);
            i = i + 1;
        }
        proof {
            assert(vals@.subrange(0, vals@.len() as int) =~= vals@);
        }
        sorn.bits = result;
        sorn
    }

    /// The negation of the mask: each selected element negated and
    /// reclassified.
    pub fn negate(&mut self) -> (r: Sorn)
        requires
            old(self).sorn_set.sets@.len() <= 128,
            sets_wf(old(self).sorn_set.sets@),
        ensures
            *final(self) == *old(self),
            r.bits == spec_neg_mask(
                old(self).sorn_set.sets@,
                old(self).sorn_set.contains_inf,
                old(self).bits,
            ),
            set_state_eq(r.sorn_set, old(self).sorn_set),
    {
        let ghost sets = self.sorn_set.sets@;
        let ghost inf = self.sorn_set.contains_inf;
        let mut sorn = Sorn::new(&self.sorn_set);
        let vals = ranges_of(&self.sorn_set, self.bits);
        let ghost f = |s: SornValue| spec_neg_value(s);
        let mut result: u128 = 0;
        let mut i: usize = 0;
        while i < vals.len()
            invariant
                0 <= i <= vals@.len(),
                sets == self.sorn_set.sets@,
                inf == self.sorn_set.contains_inf,
                sets.len() <= 128,
                f == (|s: SornValue| spec_neg_value(s)),
                forall|k: int| 0 <= k < vals@.len() ==> val_wf(#[trigger] vals@[k]),
                result == spec_unary_union(sets, inf, vals@.subrange(0, i as int), f),
            decreases vals@.len() - i,
        {
            proof {
                assert(vals@.subrange(0, i + 1).drop_last() =~= vals@.subrange(0, i as int));
                assert(vals@.subrange(0, i + 1).last() == vals@[i as int]);
            }
            let nv = exec_neg_value(&vals[i]);
            result = result | Sorn::sorn_to_bits(&self.sorn_set, &nv);
            i = i + 1;
        }
        proof {
            assert(vals@.subrange(0, vals@.len() as int) =~= vals@);
        }
        sorn.bits = result;
        sorn
    }

    /// The common body of the four checked operations.
    #[verifier::rlimit(100)]
    fn checked_op(&mut self, operand: &Sorn, op: SornOp) -> (r: Option<SornErrors>)
        requires
            old(self).sorn_set.wf(),
        ensures
            !old(self).sorn_set.same_partition(&operand.sorn_set) ==> (
            r matches Some(SornErrors::DifferentSornSets) && *final(self) == *old(self)),
            old(self).sorn_set.same_partition(&operand.sorn_set) ==> ({
                let sets = old(self).sorn_set.sets@;
                let inf = old(self).sorn_set.contains_inf;
                let a = old(self).bits;
                let b = operand.bits;
                &&& r is None
                &&& final(self).bits == spec_binop(sets, inf, op, a, b)
                &&& final(self).sorn_set.sets@ == sets
                &&& final(self).sorn_set.contains_inf == inf
                &&& final(self).sorn_set.one_bit == old(self).sorn_set.one_bit
                &&& final(self).sorn_set.wf()
                &&& pow_memo_map(final(self).sorn_set.precomputed_pow) == pow_memo_map(
                    old(self).sorn_set.precomputed_pow,
                )
                &&& (forall|op2: SornOp|
                    op2 != op ==> #[trigger] memo_of(final(self).sorn_set, op2) == memo_of(
                        old(self).sorn_set,
                        op2,
                    ))
                &&& memo_of(final(self).sorn_set, op) == memo_after(
                    memo_of(old(self).sorn_set, op),
                    sets,
                    inf,
                    op,
                    a,
                    b,
                )
            }),
    {
        let ghost sets = self.sorn_set.sets@;
        let ghost inf = self.sorn_set.contains_inf;
        if !sets_eq_exec(&self.sorn_set, &operand.sorn_set) {
            return Some(SornErrors::DifferentSornSets);
        }
        let a = self.bits;
        let b = operand.bits;
        let hit = match op {
            SornOp::Add => bin_memo_get(&self.sorn_set.precomputed_add, a, b),
            SornOp::Sub => bin_memo_get(&self.sorn_set.precomputed_sub, a, b),
            SornOp::Mul => bin_memo_get(&self.sorn_set.precomputed_mul, a, b),
            SornOp::Div => bin_memo_get(&self.sorn_set.precomputed_div, a, b),
        };
        match hit {
            Some(v) => {
                self.bits = v;
                return None;
            },
            None => {},
        }
        let has1 = mask_has_pminf(&self.sorn_set, a);
        let has2 = mask_has_pminf(&self.sorn_set, b);
        if has1 && has2 {
            if self.sorn_set.sets.len() == 128 {
                self.bits = !0u128;
            } else {
                self.bits = a | b;
            }
            return None;
        }
        if has1 || has2 {
            let n = self.sorn_set.sets.len();
            let ones = if n >= 128 {
                !0u128
            } else {
                proof {
                    lemma_shl_pos(n as u128);
                }
                (1u128 << (n as u128)) - 1
            };
            proof {
                if n == 0 {
                    assert((1u128 << 0u128) - 1 == 0) by (bit_vector);
                }
                assert(ones == low_ones(sets.len() as int));
            }
            self.bits = ones;
            return None;
        }
        let ranges1 = ranges_of(&self.sorn_set, a);
        let ranges2 = ranges_of(&self.sorn_set, b);
        let result = cross_exec(&self.sorn_set, op, &ranges1, &ranges2);
        match op {
            SornOp::Add => {
                proof {
                    crate::laws::lemma_binop_commutes(sets, inf, op, a, b);
                }
                bin_memo_insert(&mut self.sorn_set.precomputed_add, a, b, result);
                bin_memo_insert(&mut self.sorn_set.precomputed_add, b, a, result);
            },
            SornOp::Mul => {
                proof {
                    crate::laws::lemma_binop_commutes(sets, inf, op, a, b);
                }
                bin_memo_insert(&mut self.sorn_set.precomputed_mul, a, b, result);
                bin_memo_insert(&mut self.sorn_set.precomputed_mul, b, a, result);
            },
            SornOp::Sub => {
                bin_memo_insert(&mut self.sorn_set.precomputed_sub, a, b, result);
            },
            SornOp::Div => {
                bin_memo_insert(&mut self.sorn_set.precomputed_div, a, b, result);
            },
        }
        self.bits = result;
        None
    }

    /// Checked mask addition, in place; fails without touching the target
    /// when the operands live on different partitions.
    pub fn checked_add(&mut self, addend: &Sorn) -> (r: Option<SornErrors>)
        requires
            old(self).sorn_set.wf(),
        ensures
            !old(self).sorn_set.same_partition(&addend.sorn_set) ==> (
            r matches Some(SornErrors::DifferentSornSets) && *final(self) == *old(self)),
            old(self).sorn_set.same_partition(&addend.sorn_set) ==> r is None && final(self).bits
                == spec_binop(
                old(self).sorn_set.sets@,
                old(self).sorn_set.contains_inf,
                SornOp::Add,
                old(self).bits,
                addend.bits,
            ) && final(self).sorn_set.sets@ == old(self).sorn_set.sets@ && final(self).sorn_set.contains_inf == old(self).sorn_set.contains_inf && final(self).sorn_set.wf()
                && memo_of(final(self).sorn_set, SornOp::Add) == memo_after(
                memo_of(old(self).sorn_set, SornOp::Add),
                old(self).sorn_set.sets@,
                old(self).sorn_set.contains_inf,
                SornOp::Add,
                old(self).bits,
                addend.bits,
            ) && (forall|op2: SornOp|
                op2 != SornOp::Add ==> #[trigger] memo_of(final(self).sorn_set, op2) == memo_of(
                    old(self).sorn_set,
                    op2,
                )) && pow_memo_map(final(self).sorn_set.precomputed_pow) == pow_memo_map(
                old(self).sorn_set.precomputed_pow,
            ),
    {
        self.checked_op(addend, SornOp::Add)
    }

    /// Checked mask subtraction, in place.
    pub fn checked_sub(&mut self, addend: &Sorn) -> (r: Option<SornErrors>)
        requires
            old(self).sorn_set.wf(),
        ensures
            !old(self).sorn_set.same_partition(&addend.sorn_set) ==> (
            r matches Some(SornErrors::DifferentSornSets) && *final(self) == *old(self)),
            old(self).sorn_set.same_partition(&addend.sorn_set) ==> r is None && final(self).bits
                == spec_binop(
                old(self).sorn_set.sets@,
                old(self).sorn_set.contains_inf,
                SornOp::Sub,
                old(self).bits,
                addend.bits,
            ) && final(self).sorn_set.sets@ == old(self).sorn_set.sets@ && final(self).sorn_set.contains_inf == old(self).sorn_set.contains_inf && final(self).sorn_set.wf()
                && memo_of(final(self).sorn_set, SornOp::Sub) == memo_after(
                memo_of(old(self).sorn_set, SornOp::Sub),
                old(self).sorn_set.sets@,
                old(self).sorn_set.contains_inf,
                SornOp::Sub,
                old(self).bits,
                addend.bits,
            ) && (forall|op2: SornOp|
                op2 != SornOp::Sub ==> #[trigger] memo_of(final(self).sorn_set, op2) == memo_of(
                    old(self).sorn_set,
                    op2,
                )) && pow_memo_map(final(self).sorn_set.precomputed_pow) == pow_memo_map(
                old(self).sorn_set.precomputed_pow,
            ),
    {
        self.checked_op(addend, SornOp::Sub)
    }

    /// Checked mask multiplication, in place.
    pub fn checked_mul(&mut self, addend: &Sorn) -> (r: Option<SornErrors>)
        requires
            old(self).sorn_set.wf(),
        ensures
            !old(self).sorn_set.same_partition(&addend.sorn_set) ==> (
            r matches Some(SornErrors::DifferentSornSets) && *final(self) == *old(self)),
            old(self).sorn_set.same_partition(&addend.sorn_set) ==> r is None && final(self).bits
                == spec_binop(
                old(self).sorn_set.sets@,
                old(self).sorn_set.contains_inf,
                SornOp::Mul,
                old(self).bits,
                addend.bits,
            ) && final(self).sorn_set.sets@ == old(self).sorn_set.sets@ && final(self).sorn_set.contains_inf == old(self).sorn_set.contains_inf && final(self).sorn_set.wf()
                && memo_of(final(self).sorn_set, SornOp::Mul) == memo_after(
                memo_of(old(self).sorn_set, SornOp::Mul),
                old(self).sorn_set.sets@,
                old(self).sorn_set.contains_inf,
                SornOp::Mul,
                old(self).bits,
                addend.bits,
            ) && (forall|op2: SornOp|
                op2 != SornOp::Mul ==> #[trigger] memo_of(final(self).sorn_set, op2) == memo_of(
                    old(self).sorn_set,
                    op2,
                )) && pow_memo_map(final(self).sorn_set.precomputed_pow) == pow_memo_map(
                old(self).sorn_set.precomputed_pow,
            ),
    {
        self.checked_op(addend, SornOp::Mul)
    }

    /// Checked mask division, in place.
    pub fn checked_div(&mut self, addend: &Sorn) -> (r: Option<SornErrors>)
        requires
            old(self).sorn_set.wf(),
        ensures
            !old(self).sorn_set.same_partition(&addend.sorn_set) ==> (
            r matches Some(SornErrors::DifferentSornSets) && *final(self) == *old(self)),
            old(self).sorn_set.same_partition(&addend.sorn_set) ==> r is None && final(self).bits
                == spec_binop(
                old(self).sorn_set.sets@,
                old(self).sorn_set.contains_inf,
                SornOp::Div,
                old(self).bits,
                addend.bits,
            ) && final(self).sorn_set.sets@ == old(self).sorn_set.sets@ && final(self).sorn_set.contains_inf == old(self).sorn_set.contains_inf && final(self).sorn_set.wf()
                && memo_of(final(self).sorn_set, SornOp::Div) == memo_after(
                memo_of(old(self).sorn_set, SornOp::Div),
                old(self).sorn_set.sets@,
                old(self).sorn_set.contains_inf,
                SornOp::Div,
                old(self).bits,
                addend.bits,
            ) && (forall|op2: SornOp|
                op2 != SornOp::Div ==> #[trigger] memo_of(final(self).sorn_set, op2) == memo_of(
                    old(self).sorn_set,
                    op2,
                )) && pow_memo_map(final(self).sorn_set.precomputed_pow) == pow_memo_map(
                old(self).sorn_set.precomputed_pow,
            ),
    {
        self.checked_op(addend, SornOp::Div)
    }

    /// The common body of the four convenience operations: a fresh
    /// carrier; any failure is swallowed into an empty mask.
    fn conv_op(&self, rhs: &Sorn, op: SornOp) -> (r: Sorn)
        requires
            self.sorn_set.wf(),
        ensures
            r.sorn_set.sets@ == self.sorn_set.sets@,
            r.sorn_set.contains_inf == self.sorn_set.contains_inf,
            r.sorn_set.one_bit == self.sorn_set.one_bit,
            r.sorn_set.wf(),
            (self.sorn_set.same_partition(&rhs.sorn_set) && mask_in_range(
                self.bits,
                self.sorn_set.sets@.len() as int,
            )) ==> r.bits == spec_binop(
                self.sorn_set.sets@,
                self.sorn_set.contains_inf,
                op,
                self.bits,
                rhs.bits,
            ),
            !(self.sorn_set.same_partition(&rhs.sorn_set) && mask_in_range(
                self.bits,
                self.sorn_set.sets@.len() as int,
            )) ==> r.bits == 0,
    {
        let mut sorn = Sorn::new(&self.sorn_set);
        let res1 = sorn.set_bits(self.bits);
        let res2 = sorn.checked_op(rhs, op);
        if res1.is_err() || res2.is_some() {
            sorn.bits = 0;
        }
        sorn
    }

    /// Convenience addition: a fresh carrier; errors yield an empty mask.
    pub fn add(&self, rhs: &Sorn) -> (r: Sorn)
        requires
            self.sorn_set.wf(),
        ensures
            r.sorn_set.sets@ == self.sorn_set.sets@,
            r.sorn_set.contains_inf == self.sorn_set.contains_inf,
            r.sorn_set.wf(),
            (self.sorn_set.same_partition(&rhs.sorn_set) && mask_in_range(
                self.bits,
                self.sorn_set.sets@.len() as int,
            )) ==> r.bits == spec_binop(
                self.sorn_set.sets@,
                self.sorn_set.contains_inf,
                SornOp::Add,
                self.bits,
                rhs.bits,
            ),
            !(self.sorn_set.same_partition(&rhs.sorn_set) && mask_in_range(
                self.bits,
                self.sorn_set.sets@.len() as int,
            )) ==> r.bits == 0,
    {
        self.conv_op(rhs, SornOp::Add)
    }

    /// Convenience subtraction: a fresh carrier; errors yield an empty
    /// mask.
    pub fn sub(&self, rhs: &Sorn) -> (r: Sorn)
        requires
            self.sorn_set.wf(),
        ensures
            r.sorn_set.sets@ == self.sorn_set.sets@,
            r.sorn_set.contains_inf == self.sorn_set.contains_inf,
            r.sorn_set.wf(),
            (self.sorn_set.same_partition(&rhs.sorn_set) && mask_in_range(
                self.bits,
                self.sorn_set.sets@.len() as int,
            )) ==> r.bits == spec_binop(
                self.sorn_set.sets@,
                self.sorn_set.contains_inf,
                SornOp::Sub,
                self.bits,
                rhs.bits,
            ),
            !(self.sorn_set.same_partition(&rhs.sorn_set) && mask_in_range(
                self.bits,
                self.sorn_set.sets@.len() as int,
            )) ==> r.bits == 0,
    {
        self.conv_op(rhs, SornOp::Sub)
    }

    /// Convenience multiplication: a fresh carrier; errors yield an empty
    /// mask.
    pub fn mul(&self, rhs: &Sorn) -> (r: Sorn)
        requires
            self.sorn_set.wf(),
        ensures
            r.sorn_set.sets@ == self.sorn_set.sets@,
            r.sorn_set.contains_inf == self.sorn_set.contains_inf,
            r.sorn_set.wf(),
            (self.sorn_set.same_partition(&rhs.sorn_set) && mask_in_range(
                self.bits,
                self.sorn_set.sets@.len() as int,
            )) ==> r.bits == spec_binop(
                self.sorn_set.sets@,
                self.sorn_set.contains_inf,
                SornOp::Mul,
                self.bits,
                rhs.bits,
            ),
            !(self.sorn_set.same_partition(&rhs.sorn_set) && mask_in_range(
                self.bits,
                self.sorn_set.sets@.len() as int,
            )) ==> r.bits == 0,
    {
        self.conv_op(rhs, SornOp::Mul)
    }

    /// Convenience division: a fresh carrier; errors yield an empty mask.
    pub fn div(&self, rhs: &Sorn) -> (r: Sorn)
        requires
            self.sorn_set.wf(),
        ensures
            r.sorn_set.sets@ == self.sorn_set.sets@,
            r.sorn_set.contains_inf == self.sorn_set.contains_inf,
            r.sorn_set.wf(),
            (self.sorn_set.same_partition(&rhs.sorn_set) && mask_in_range(
                self.bits,
                self.sorn_set.sets@.len() as int,
            )) ==> r.bits == spec_binop(
                self.sorn_set.sets@,
                self.sorn_set.contains_inf,
                SornOp::Div,
                self.bits,
                rhs.bits,
            ),
            !(self.sorn_set.same_partition(&rhs.sorn_set) && mask_in_range(
                self.bits,
                self.sorn_set.sets@.len() as int,
            )) ==> r.bits == 0,
    {
        self.conv_op(rhs, SornOp::Div)
    }
}

/// One digit of a mask rendered in base sixteen, upper case.
pub open spec fn spec_hex_digit(d: u128) -> char
    recommends
        d < 16,
{
    if d == 0 {
        '0'
    } else if d == 1 {
        '1'
    } else if d == 2 {
        '2'
    } else if d == 3 {
        '3'
    } else if d == 4 {
        '4'
    } else if d == 5 {
        '5'
    } else if d == 6 {
        '6'
    } else if d == 7 {
        '7'
    } else if d == 8 {
        '8'
    } else if d == 9 {
        '9'
    } else if d == 10 {
        'A'
    } else if d == 11 {
        'B'
    } else if d == 12 {
        'C'
    } else if d == 13 {
        'D'
    } else if d == 14 {
        'E'
    } else {
        'F'
    }
}

/// The digits of a mask in base sixteen, highest first, no padding; a
/// zero mask is the single digit zero.
pub open spec fn spec_hex_digits(m: u128) -> Seq<char>
    decreases m,
{
    if m < 16 {
        seq![spec_hex_digit(m)]
    } else {
        spec_hex_digits(m / 16).push(spec_hex_digit(m % 16))
    }
}

fn hex_digit(d: u128) -> (r: &'static str)
    requires
        d < 16,
    ensures
        r@ == seq![spec_hex_digit(d)],
{
    proof {
        reveal_strlit("0");
        reveal_strlit("1");
        reveal_strlit("2");
        reveal_strlit("3");
        reveal_strlit("4");
        reveal_strlit("5");
        reveal_strlit("6");
        reveal_strlit("7");
        reveal_strlit("8");
        reveal_strlit("9");
        reveal_strlit("A");
        reveal_strlit("B");
        reveal_strlit("C");
        reveal_strlit("D");
        reveal_strlit("E");
        reveal_strlit("F");
    }
    if d == 0 {
        "0"
    } else if d == 1 {
        "1"
    } else if d == 2 {
        "2"
    } else if d == 3 {
        "3"
    } else if d == 4 {
        "4"
    } else if d == 5 {
        "5"
    } else if d == 6 {
        "6"
    } else if d == 7 {
        "7"
    } else if d == 8 {
        "8"
    } else if d == 9 {
        "9"
    } else if d == 10 {
        "A"
    } else if d == 11 {
        "B"
    } else if d == 12 {
        "C"
    } else if d == 13 {
        "D"
    } else if d == 14 {
        "E"
    } else {
        "F"
    }
}

fn hex_string(m: u128) -> (r: String)
    ensures
        r@ == spec_hex_digits(m),
    decreases m,
{
    if m < 16 {
        hex_digit(m).to_owned()
    } else {
        let mut s = hex_string(m / 16);
        s.append(hex_digit(m % 16));
        proof {
            assert(s@ =~= spec_hex_digits(m));
        }
        s
    }
}

/// The digits of a magnitude in base ten, highest first, no padding.
pub open spec fn spec_dec_digits(m: u128) -> Seq<char>
    decreases m,
{
    if m < 10 {
        seq![spec_hex_digit(m)]
    } else {
        spec_dec_digits(m / 10).push(spec_hex_digit(m % 10))
    }
}

/// A rational endpoint in text: integers plainly, anything else as a
/// numerator-slash-denominator pair.
pub open spec fn spec_rat_text(r: Rat) -> Seq<char> {
    let sign = if r.num < 0 {
        seq!['-']
    } else {
        Seq::<char>::empty()
    };
    let whole = sign + spec_dec_digits(spec_abs(r.num as int) as u128);
    if r.den == 1 {
        whole
    } else {
        whole + seq!['/'] + spec_dec_digits(r.den as u128)
    }
}

pub open spec fn spec_ext_text(e: Extended) -> Seq<char> {
    match e {
        Extended::Nan => seq!['N', 'a', 'N'],
        Extended::NegInf => seq!['-', 'i', 'n', 'f'],
        Extended::PosInf => seq!['i', 'n', 'f'],
        Extended::Fin(r) => spec_rat_text(r),
    }
}

/// One value in text, in the same shape the classifier grammar reads:
/// `[v]` for a point, parentheses and brackets for the interval kinds.
pub open spec fn spec_val_text(v: SornValue) -> Seq<char> {
    match v {
        SornValue::Empty => seq![
            'E', 'm', 'p', 't', 'y', ' ', 'S', 'o', 'r', 'n', 'V', 'a', 'l', 'u', 'e',
        ],
        SornValue::Open(p) => seq!['('] + spec_ext_text(p.0) + seq![','] + spec_ext_text(p.1)
            + seq![')'],
        SornValue::OpenLeft(p) => seq!['('] + spec_ext_text(p.0) + seq![','] + spec_ext_text(p.1)
            + seq![']'],
        SornValue::OpenRight(p) => seq!['['] + spec_ext_text(p.0) + seq![','] + spec_ext_text(p.1)
            + seq![')'],
        SornValue::Exact(x) => seq!['['] + spec_ext_text(x) + seq![']'],
        SornValue::PlusMinusInf => seq!['[', '+', '-', 'i', 'n', 'f', ']'],
    }
}

/// The first `k` values as a comma-and-space separated run.
pub open spec fn spec_vals_text(vs: Seq<SornValue>, k: int) -> Seq<char>
    decreases k,
{
    if k <= 0 {
        Seq::<char>::empty()
    } else if k == 1 {
        spec_val_text(vs[0])
    } else {
        spec_vals_text(vs, k - 1) + seq![',', ' '] + spec_val_text(vs[k - 1])
    }
}

/// A bracketed list of values.
pub open spec fn spec_ranges_text(vs: Seq<SornValue>) -> Seq<char> {
    seq!['['] + spec_vals_text(vs, vs.len() as int) + seq![']']
}

fn dec_string(m: u128) -> (r: String)
    ensures
        r@ == spec_dec_digits(m),
    decreases m,
{
    if m < 10 {
        hex_digit(m).to_owned()
    } else {
        let mut s = dec_string(m / 10);
        s.append(hex_digit(m % 10));
        proof {
            assert(s@ =~= spec_dec_digits(m));
        }
        s
    }
}

fn rat_string(r: &Rat) -> (s: String)
    requires
        crate::endpoint::rat_wf(*r),
    ensures
        s@ == spec_rat_text(*r),
{
    let mut s = String::new();
    if r.num < 0 {
        s.append("-");
        proof {
            reveal_strlit("-");
            assert(s@ =~= seq!['-']);
        }
    }
    let mag: u128 = if r.num < 0 {
        (-r.num) as u128
    } else {
        r.num as u128
    };
    let digits = dec_string(mag);
    s.append(digits.as_str());
    if r.den != 1 {
        s.append("/");
        let den_digits = dec_string(r.den as u128);
        s.append(den_digits.as_str());
        proof {
            reveal_strlit("/");
            assert(s@ =~= spec_rat_text(*r));
        }
    } else {
        proof {
            assert(s@ =~= spec_rat_text(*r));
        }
    }
    s
}

fn ext_string(e: &Extended) -> (s: String)
    requires
        ext_wf(*e),
    ensures
        s@ == spec_ext_text(*e),
{
    match e {
        Extended::Nan => {
            let s = "NaN".to_owned();
            proof {
                reveal_strlit("NaN");
                assert(s@ =~= spec_ext_text(*e));
            }
            s
        },
        Extended::NegInf => {
            let s = "-inf".to_owned();
            proof {
                reveal_strlit("-inf");
                assert(s@ =~= spec_ext_text(*e));
            }
            s
        },
        Extended::PosInf => {
            let s = "inf".to_owned();
            proof {
                reveal_strlit("inf");
                assert(s@ =~= spec_ext_text(*e));
            }
            s
        },
        Extended::Fin(r) => rat_string(r),
    }
}

fn val_string(v: &SornValue) -> (s: String)
    requires
        val_wf(*v),
    ensures
        s@ == spec_val_text(*v),
{
    match v {
        SornValue::Empty => {
            let s = "Empty SornValue".to_owned();
            proof {
                reveal_strlit("Empty SornValue");
                assert(s@ =~= spec_val_text(*v));
            }
            s
        },
        SornValue::PlusMinusInf => {
            let s = "[+-inf]".to_owned();
            proof {
                reveal_strlit("[+-inf]");
                assert(s@ =~= spec_val_text(*v));
            }
            s
        },
        SornValue::Exact(x) => {
            let mut s = "[".to_owned();
            let inner = ext_string(x);
            s.append(inner.as_str());
            s.append("]");
            proof {
                reveal_strlit("[");
                reveal_strlit("]");
                assert(s@ =~= spec_val_text(*v));
            }
            s
        },
        SornValue::Open(p) => {
            let mut s = "(".to_owned();
            let lo = ext_string(&p.0);
            s.append(lo.as_str());
            s.append(",");
            let hi = ext_string(&p.1);
            s.append(hi.as_str());
            s.append(")");
            proof {
                reveal_strlit("(");
                reveal_strlit(",");
                reveal_strlit(")");
                assert(s@ =~= spec_val_text(*v));
            }
            s
        },
        SornValue::OpenLeft(p) => {
            let mut s = "(".to_owned();
            let lo = ext_string(&p.0);
            s.append(lo.as_str());
            s.append(",");
            let hi = ext_string(&p.1);
            s.append(hi.as_str());
            s.append("]");
            proof {
                reveal_strlit("(");
                reveal_strlit(",");
                reveal_strlit("]");
                assert(s@ =~= spec_val_text(*v));
            }
            s
        },
        SornValue::OpenRight(p) => {
            let mut s = "[".to_owned();
            let lo = ext_string(&p.0);
            s.append(lo.as_str());
            s.append(",");
            let hi = ext_string(&p.1);
            s.append(hi.as_str());
            s.append(")");
            proof {
                reveal_strlit("[");
                reveal_strlit(",");
                reveal_strlit(")");
                assert(s@ =~= spec_val_text(*v));
            }
            s
        },
    }
}

/// A bracketed, comma-separated rendering of a value list.
pub(crate) fn vals_string(vs: &Vec<SornValue>) -> (s: String)
    requires
        forall|i: int| 0 <= i < vs@.len() ==> val_wf(#[trigger] vs@[i]),
    ensures
        s@ == spec_ranges_text(vs@),
{
    let mut s = "[".to_owned();
    proof {
        reveal_strlit("[");
    }
    let mut i: usize = 0;
    while i < vs.len()
        invariant
            0 <= i <= vs@.len(),
            forall|k: int| 0 <= k < vs@.len() ==> val_wf(#[trigger] vs@[k]),
            s@ == seq!['['] + spec_vals_text(vs@, i as int),
        decreases vs@.len() - i,
    {
        if i > 0 {
            s.append(", ");
        }
        let one = val_string(&vs[i]);
        s.append(one.as_str());
        proof {
            reveal_strlit(", ");
            assert(s@ =~= seq!['['] + spec_vals_text(vs@, i + 1));
        }
        i = i + 1;
    }
    s.append("]");
    proof {
        reveal_strlit("]");
        assert(s@ =~= spec_ranges_text(vs@));
    }
    s
}

impl Sorn {
    /// The mask in base sixteen, upper case, no padding.
    pub fn to_string_hex(&self) -> (r: String)
        ensures
            r@ == spec_hex_digits(self.bits),
    {
        hex_string(self.bits)
    }

    /// The selected partition elements in text, without the mask.
    pub fn to_string_nobits(&self) -> (r: String)
        requires
            self.sorn_set.sets@.len() <= 128,
            sets_wf(self.sorn_set.sets@),
        ensures
            r@ == spec_ranges_text(spec_mask_values(self.sorn_set.sets@, self.bits)),
    {
        let vals = ranges_of(&self.sorn_set, self.bits);
        vals_string(&vals)
    }

    /// The mask in base sixteen together with the selected elements.
    pub fn to_string_hex_full(&self) -> (r: String)
        requires
            self.sorn_set.sets@.len() <= 128,
            sets_wf(self.sorn_set.sets@),
        ensures
            r@ == spec_hex_digits(self.bits) + seq![' ', '|', ' ', 'R', 'a', 'n', 'g', 'e', ':', ' ']
                + spec_ranges_text(spec_mask_values(self.sorn_set.sets@, self.bits)),
    {
        let mut s = hex_string(self.bits);
        s.append(" | Range: ");
        let vals = ranges_of(&self.sorn_set, self.bits);
        let tail = vals_string(&vals);
        s.append(tail.as_str());
        proof {
            reveal_strlit(" | Range: ");
            assert(s@ =~= spec_hex_digits(self.bits) + seq![
                ' ', '|', ' ', 'R', 'a', 'n', 'g', 'e', ':', ' ',
            ] + spec_ranges_text(spec_mask_values(self.sorn_set.sets@, self.bits)));
        }
        s
    }

    /// The lowest and highest selected bounds, as "low to high". The mask
    /// must select something.
    pub fn to_string_compact(&self) -> (r: String)
        requires
            self.sorn_set.sets@.len() <= 128,
            sets_wf(self.sorn_set.sets@),
            spec_mask_values(self.sorn_set.sets@, self.bits).len() > 0,
        ensures
            ({
                let vs = spec_mask_values(self.sorn_set.sets@, self.bits);
                r@ == spec_ext_text(val_min(vs[0])) + seq![' ', 't', 'o', ' '] + spec_ext_text(
                    val_max(vs[vs.len() - 1]),
                )
            }),
    {
        let vals = ranges_of(&self.sorn_set, self.bits);
        let lo = vals[0].min();
        let hi = vals[vals.len() - 1].max();
        proof {
            assert(val_wf(vals@[0]));
            assert(val_wf(vals@[vals@.len() - 1]));
            lemma_val_min_max_wf(vals@[0]);
            lemma_val_min_max_wf(vals@[vals@.len() - 1]);
        }
        let mut s = ext_string(&lo);
        s.append(" to ");
        let tail = ext_string(&hi);
        s.append(tail.as_str());
        proof {
            reveal_strlit(" to ");
            let vs = spec_mask_values(self.sorn_set.sets@, self.bits);
            assert(s@ =~= spec_ext_text(val_min(vs[0])) + seq![' ', 't', 'o', ' ']
                + spec_ext_text(val_max(vs[vs.len() - 1])));
        }
        s
    }
}

/// A well-formed value has well-formed bounds.
proof fn lemma_val_min_max_wf(v: SornValue)
    requires
        val_wf(v),
    ensures
        ext_wf(val_min(v)),
        ext_wf(val_max(v)),
{
}

impl SornSet {
    /// Whether the memo table of the named operation holds the given key
    /// pair.
    pub fn has_precomputed(&self, operator: &str, a: u128, b: u128) -> (r: bool)
        requires
            spec_op_of(operator.spec_bytes()) is Some,
        ensures
            r == memo_of(*self, spec_op_of(operator.spec_bytes()).unwrap()).contains_key((a, b)),
    {
        let op = parse_op(operator).unwrap();
        match op {
            SornOp::Add => bin_memo_contains(&self.precomputed_add, a, b),
            SornOp::Sub => bin_memo_contains(&self.precomputed_sub, a, b),
            SornOp::Mul => bin_memo_contains(&self.precomputed_mul, a, b),
            SornOp::Div => bin_memo_contains(&self.precomputed_div, a, b),
        }
    }
}

} // verus!

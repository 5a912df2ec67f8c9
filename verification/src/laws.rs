use vstd::prelude::*;

verus! {

use crate::endpoint::{
    Extended, Rat, ext_eq, ext_lt, ext_le, ext_wf, ext_min, ext_max, ext_is_zero, rat_wf,
    rat_zero, rat_eq, rat_lt, rat_le, spec_abs, spec_gcd, spec_ext_add, spec_ext_sub,
    spec_rat_add, spec_rat_sub, spec_make, lemma_make_value,
};
use crate::mask::{
    nth_bit, mask_bit, low_ones, mask_in_range, lemma_or_bit, lemma_unit_bit,
    lemma_or_zero, lemma_or_zero_left, lemma_low_ones_step, lemma_mask_and_full,
    lemma_in_range_low_ones, lemma_zero_bit, lemma_or_in_range, lemma_unit_in_range,
    lemma_zero_in_range, lemma_range_no_bit, lemma_or_comm, lemma_or_shuffle,
};
use crate::sorn::{
    SornOp, spec_overlap, spec_cell, spec_classify, spec_classify_upto, spec_combine,
    spec_cross_all, spec_cross_row, spec_mask_values, spec_mask_has_pminf, spec_binop,
    spec_neg_mask, spec_neg_value, spec_unary_union, spec_ext_op, lemma_classify_in_range,
    val_is_interval,
};
use crate::sornset::{SornValue, SornSet, val_wf, val_eq, val_min, val_max, sets_wf};

// ------------------------------------------------------------------
// Proper partitions.
// ------------------------------------------------------------------

/// An element that can stand in a proper partition: a point that equals
/// itself, a nondegenerate interval, or the sentinel.
pub open spec fn val_ordered(v: SornValue) -> bool {
    match v {
        SornValue::Empty => false,
        SornValue::Exact(x) => ext_eq(x, x),
        SornValue::Open(p) => ext_lt(p.0, p.1),
        SornValue::OpenLeft(p) => ext_lt(p.0, p.1),
        SornValue::OpenRight(p) => ext_lt(p.0, p.1),
        SornValue::PlusMinusInf => true,
    }
}

/// A proper partition: well-formed, nondegenerate, pairwise disjoint
/// elements; the sentinel, if present, stands only in front and only when
/// the flag says so.
pub open spec fn proper(sets: Seq<SornValue>, inf: bool) -> bool {
    &&& sets.len() <= 128
    &&& forall|i: int| 0 <= i < sets.len() ==> val_wf(#[trigger] sets[i])
    &&& forall|i: int| 0 <= i < sets.len() ==> val_ordered(#[trigger] sets[i])
    &&& forall|i: int, j: int|
        0 <= i < sets.len() && 0 <= j < sets.len() && i != j ==> !spec_overlap(
            #[trigger] sets[i],
            #[trigger] sets[j],
        )
    &&& forall|i: int| 1 <= i < sets.len() ==> !((#[trigger] sets[i]) is PlusMinusInf)
    &&& ((sets.len() > 0 && sets[0] is PlusMinusInf) ==> inf)
}

/// Every nondegenerate non-sentinel element overlaps itself.
proof fn lemma_self_overlap(v: SornValue)
    requires
        val_ordered(v),
        !(v is PlusMinusInf),
    ensures
        spec_overlap(v, v),
{
}

/// On a proper partition, the classifier maps each element to exactly its
/// own bit.
pub proof fn lemma_unit_classify(sets: Seq<SornValue>, inf: bool, i: int)
    requires
        proper(sets, inf),
        0 <= i < sets.len(),
    ensures
        spec_classify(sets, inf, sets[i]) == mask_bit(i),
{
    lemma_unit_classify_upto(sets, inf, i, sets.len() as int);
    assert(spec_classify_upto(sets, inf, sets[i], sets.len() as int) == mask_bit(i));
}

proof fn lemma_unit_classify_upto(sets: Seq<SornValue>, inf: bool, i: int, k: int)
    requires
        proper(sets, inf),
        0 <= i < sets.len(),
        0 <= k <= sets.len(),
    ensures
        spec_classify_upto(sets, inf, sets[i], k) == if k <= i {
            0u128
        } else {
            mask_bit(i)
        },
    decreases k,
{
    if k > 0 {
        lemma_unit_classify_upto(sets, inf, i, k - 1);
        let prev = spec_classify_upto(sets, inf, sets[i], k - 1);
        let c = spec_cell(sets, inf, sets[i], k - 1);
        if k - 1 == i {
            if sets[i] is PlusMinusInf {
                assert(i == 0);
                assert(inf);
                assert(c == 1u128);
                assert(1u128 << 0u128 == 1u128) by (bit_vector);
                lemma_or_zero_left(c);
            } else {
                lemma_self_overlap(sets[i]);
                assert(c == mask_bit(i));
                lemma_or_zero_left(c);
            }
        } else {
            assert(!spec_overlap(sets[i], sets[k - 1]));
            if sets[k - 1] is PlusMinusInf {
                assert(k - 1 == 0 || !(sets[k - 1] is PlusMinusInf));
                if k - 1 == 0 {
                    assert(!(sets[i] is PlusMinusInf));
                }
            }
            assert(c == 0u128);
            lemma_or_zero(prev);
        }
    }
}

/// A mask that stays inside the partition is unchanged by restriction to
/// the partition's bits.
proof fn lemma_mask_restrict(m: u128, n: int)
    requires
        0 <= n <= 128,
        mask_in_range(m, n),
    ensures
        m & low_ones(n) == m,
{
    if n == 128 {
        lemma_mask_and_full(m);
    } else if n == 0 {
        assert(m >> 0u128 == m) by (bit_vector);
        assert(m & 0u128 == 0u128) by (bit_vector);
    } else {
        lemma_in_range_low_ones(m, n as u128);
    }
}

// ------------------------------------------------------------------
// Cache transparency.
// ------------------------------------------------------------------

/// Cache transparency: what a binary operation produces depends only on
/// the partition's elements and its infinity flag, never on the state of
/// the memo tables. Two sets with the same elements and flag, however
/// differently their caches are warmed, define the same operation; the
/// checked operations' contracts tie their results to this function.
pub proof fn lemma_cache_transparency(s1: SornSet, s2: SornSet, op: SornOp, a: u128, b: u128)
    requires
        s1.sets@ == s2.sets@,
        s1.contains_inf == s2.contains_inf,
    ensures
        spec_binop(s1.sets@, s1.contains_inf, op, a, b) == spec_binop(
            s2.sets@,
            s2.contains_inf,
            op,
            a,
            b,
        ),
{
}

// ------------------------------------------------------------------
// Commutativity.
// ------------------------------------------------------------------

/// Addition and multiplication of endpoints are commutative: the two
/// operand orders build the same fraction and round it the same way.
pub proof fn lemma_ext_op_commutes(op: SornOp, a: Extended, b: Extended)
    requires
        op is Add || op is Mul,
    ensures
        spec_ext_op(op, a, b) == spec_ext_op(op, b, a),
{
    match (a, b) {
        (Extended::Fin(x), Extended::Fin(y)) => {
            assert(x.num * y.den + y.num * x.den == y.num * x.den + x.num * y.den);
            assert(x.den * y.den == y.den * x.den) by (nonlinear_arith);
            assert(x.num * y.num == y.num * x.num) by (nonlinear_arith);
        },
        _ => {},
    }
}

// ------------------------------------------------------------------
// Reconstruction of a mask from per-element unit contributions.
// ------------------------------------------------------------------

/// When each selected element contributes exactly its own bit, the union
/// over a prefix is the mask restricted to that prefix.
proof fn lemma_unary_union_prefix(
    sets: Seq<SornValue>,
    inf: bool,
    m: u128,
    f: spec_fn(SornValue) -> SornValue,
    k: int,
)
    requires
        0 <= k <= sets.len() <= 128,
        forall|i: int|
            0 <= i < sets.len() && #[trigger] nth_bit(m, i) ==> spec_classify(
                sets,
                inf,
                f(sets[i]),
            ) == mask_bit(i),
    ensures
        spec_unary_union(sets, inf, spec_mask_values(sets.subrange(0, k), m), f) == m & low_ones(
            k,
        ),
    decreases k,
{
    if k == 0 {
        assert(sets.subrange(0, 0) =~= Seq::<SornValue>::empty());
        assert(m & 0u128 == 0u128) by (bit_vector);
    } else {
        lemma_unary_union_prefix(sets, inf, m, f, k - 1);
        let pre = sets.subrange(0, k - 1);
        let cur = sets.subrange(0, k);
        assert(cur.drop_last() =~= pre);
        assert(cur.last() == sets[k - 1]);
        let ku = (k - 1) as u128;
        lemma_low_ones_step(m, ku);
        if k - 1 == 0 {
            assert(((1u128 << ku) - 1) as u128 == 0u128) by (bit_vector)
                requires
                    ku == 0,
            ;
        }
        if nth_bit(m, k - 1) {
            let vs = spec_mask_values(pre, m);
            assert(spec_mask_values(cur, m) == vs.push(sets[k - 1]));
            assert(vs.push(sets[k - 1]).drop_last() =~= vs);
            assert(spec_unary_union(sets, inf, vs.push(sets[k - 1]), f) == spec_unary_union(
                sets,
                inf,
                vs,
                f,
            ) | spec_classify(sets, inf, f(sets[k - 1])));
            assert(spec_classify(sets, inf, f(sets[k - 1])) == mask_bit(k - 1));
        } else {
            assert(spec_mask_values(cur, m) == spec_mask_values(pre, m));
            lemma_or_zero(m & low_ones(k - 1));
        }
    }
}

/// As above, for the cross product against a single right operand.
#[verifier::rlimit(100)]
#[verifier::spinoff_prover]
proof fn lemma_cross_single_prefix(
    sets: Seq<SornValue>,
    inf: bool,
    op: SornOp,
    m: u128,
    w: SornValue,
    k: int,
)
    requires
        0 <= k <= sets.len() <= 128,
        forall|i: int|
            0 <= i < sets.len() && #[trigger] nth_bit(m, i) ==> (spec_combine(op, sets[i], w)
                matches Some(nv) && spec_classify(sets, inf, nv) == mask_bit(i)),
    ensures
        spec_cross_all(sets, inf, op, spec_mask_values(sets.subrange(0, k), m), seq![w]) == m
            & low_ones(k),
    decreases k,
{
    if k == 0 {
        assert(sets.subrange(0, 0) =~= Seq::<SornValue>::empty());
        assert(m & 0u128 == 0u128) by (bit_vector);
    } else {
        lemma_cross_single_prefix(sets, inf, op, m, w, k - 1);
        let pre = sets.subrange(0, k - 1);
        let cur = sets.subrange(0, k);
        assert(cur.drop_last() =~= pre);
        assert(cur.last() == sets[k - 1]);
        let ku = (k - 1) as u128;
        lemma_low_ones_step(m, ku);
        if k - 1 == 0 {
            assert(((1u128 << ku) - 1) as u128 == 0u128) by (bit_vector)
                requires
                    ku == 0,
            ;
        }
        if nth_bit(m, k - 1) {
            let vs = spec_mask_values(pre, m);
            assert(spec_mask_values(cur, m) == vs.push(sets[k - 1]));
            assert(vs.push(sets[k - 1]).drop_last() =~= vs);
            let nv = spec_combine(op, sets[k - 1], w)->Some_0;
            assert(spec_combine(op, sets[k - 1], w) == Some(nv));
            let ws = seq![w];
            assert(ws.drop_last() =~= Seq::<SornValue>::empty());
            assert(ws.drop_last() == Seq::<SornValue>::empty());
            assert(ws.last() == w);
            assert(ws.len() == 1);
            assert(spec_cross_row(sets, inf, op, sets[k - 1], Seq::<SornValue>::empty())
                == 0u128);
            assert(spec_cross_row(sets, inf, op, sets[k - 1], ws) == spec_cross_row(
                sets,
                inf,
                op,
                sets[k - 1],
                ws.drop_last(),
            ) | (match spec_combine(op, sets[k - 1], ws.last()) {
                Some(x) => spec_classify(sets, inf, x),
                None => 0u128,
            }));
            assert(spec_cross_row(sets, inf, op, sets[k - 1], ws) == 0u128 | spec_classify(
                sets,
                inf,
                nv,
            ));
            lemma_or_zero_left(spec_classify(sets, inf, nv));
        } else {
            assert(spec_mask_values(cur, m) == spec_mask_values(pre, m));
            lemma_or_zero(m & low_ones(k - 1));
        }
    }
}

// ------------------------------------------------------------------
// Identity: adding or subtracting the mask of the exact zero element.
// ------------------------------------------------------------------

/// Finite endpoints in lowest terms.
pub open spec fn rat_reduced(r: Rat) -> bool {
    spec_gcd(spec_abs(r.num as int), r.den as nat) == 1
}

pub open spec fn val_reduced(v: SornValue) -> bool {
    match v {
        SornValue::Empty => true,
        SornValue::Open(p) => ext_reduced(p.0) && ext_reduced(p.1),
        SornValue::OpenLeft(p) => ext_reduced(p.0) && ext_reduced(p.1),
        SornValue::OpenRight(p) => ext_reduced(p.0) && ext_reduced(p.1),
        SornValue::Exact(x) => ext_reduced(x),
        SornValue::PlusMinusInf => true,
    }
}

pub open spec fn ext_reduced(a: Extended) -> bool {
    match a {
        Extended::Fin(r) => rat_reduced(r),
        _ => true,
    }
}

/// The zero element the identity speaks of.
pub open spec fn zero_value() -> SornValue {
    SornValue::Exact(Extended::Fin(rat_zero()))
}

/// Adding or subtracting the exact zero leaves a reduced endpoint as it
/// stands.
proof fn lemma_ext_zero_identity(x: Extended)
    requires
        ext_wf(x),
        ext_reduced(x),
        !(x is Nan),
    ensures
        spec_ext_add(x, Extended::Fin(rat_zero())) == x,
        spec_ext_sub(x, Extended::Fin(rat_zero())) == x,
{
    reveal(crate::endpoint::spec_make);
    match x {
        Extended::Fin(r) => {
            let n = r.num * 1 + 0 * r.den;
            assert(n == r.num);
            assert(r.den * 1 == r.den);
            lemma_make_value(r.num < 0, spec_abs(r.num as int), r.den as nat);
            let g = spec_gcd(spec_abs(r.num as int), r.den as nat);
            assert(g == 1);
            assert(spec_abs(r.num as int) / 1 == spec_abs(r.num as int)) by (nonlinear_arith);
            assert(r.den as nat / 1 == r.den as nat) by (nonlinear_arith);
            assert(spec_make(r.num < 0, spec_abs(r.num as int), r.den as nat) == x);
            assert(spec_rat_add(r, rat_zero()) == x);
            assert(r.num * 1 - 0 * r.den == r.num);
            assert(spec_rat_sub(r, rat_zero()) == x);
        },
        _ => {},
    }
}

/// Combining a proper non-sentinel element with the exact zero gives the
/// element back.
proof fn lemma_combine_zero(op: SornOp, s: SornValue)
    requires
        op is Add || op is Sub,
        val_wf(s),
        val_ordered(s),
        val_reduced(s),
        !(s is PlusMinusInf),
    ensures
        spec_combine(op, s, zero_value()) == Some(s),
{
    let z = zero_value();
    let lo0 = val_min(s);
    let hi0 = val_max(s);
    assert(!(lo0 is Nan) && !(hi0 is Nan)) by {
        if s is Exact {
        } else {
        }
    }
    lemma_ext_zero_identity(lo0);
    lemma_ext_zero_identity(hi0);
    assert(spec_ext_op(op, lo0, val_min(z)) == lo0);
    assert(spec_ext_op(op, hi0, val_max(z)) == hi0);
}

/// The identity law: on a proper partition in lowest terms holding the
/// exact zero, adding or subtracting zero's mask leaves every
/// sentinel-free in-range mask unchanged.
pub proof fn lemma_zero_identity(sets: Seq<SornValue>, inf: bool, m: u128, z: int, op: SornOp)
    requires
        proper(sets, inf),
        forall|i: int| 0 <= i < sets.len() ==> val_reduced(#[trigger] sets[i]),
        mask_in_range(m, sets.len() as int),
        !spec_mask_has_pminf(sets, m),
        0 <= z < sets.len(),
        sets[z] == zero_value(),
        op is Add || op is Sub,
    ensures
        spec_binop(sets, inf, op, m, spec_classify(sets, inf, zero_value())) == m,
{
    let n = sets.len() as int;
    let zmask = spec_classify(sets, inf, zero_value());
    lemma_unit_classify(sets, inf, z);
    assert(zmask == mask_bit(z));
    assert(!spec_mask_has_pminf(sets, zmask)) by {
        assert forall|i: int|
            0 <= i < sets.len() && #[trigger] nth_bit(zmask, i) implies !(sets[i]
            is PlusMinusInf) by {
            lemma_unit_bit(z as u128, i as u128);
            assert(i == z);
        }
    }
    lemma_mask_values_unit(sets, z, n);
    assert(sets.subrange(0, n) =~= sets);
    assert(spec_mask_values(sets, zmask) =~= seq![sets[z]]);
    assert forall|i: int|
        0 <= i < sets.len() && #[trigger] nth_bit(m, i) implies (spec_combine(op, sets[i], zero_value())
        matches Some(nv) && spec_classify(sets, inf, nv) == mask_bit(i)) by {
        assert(!(sets[i] is PlusMinusInf));
        lemma_combine_zero(op, sets[i]);
        lemma_unit_classify(sets, inf, i);
    }
    lemma_cross_single_prefix(sets, inf, op, m, zero_value(), n);
    assert(sets[z] == zero_value());
    lemma_mask_restrict(m, n);
}

/// A unit mask selects exactly its element.
proof fn lemma_mask_values_unit(sets: Seq<SornValue>, z: int, k: int)
    requires
        0 <= z < sets.len() <= 128,
        z < k <= sets.len(),
    ensures
        spec_mask_values(sets.subrange(0, k), mask_bit(z)) =~= seq![sets[z]],
    decreases k,
{
    let cur = sets.subrange(0, k);
    assert(cur.drop_last() =~= sets.subrange(0, k - 1));
    assert(cur.last() == sets[k - 1]);
    lemma_unit_bit(z as u128, (k - 1) as u128);
    if k - 1 == z {
        lemma_mask_values_unit_low(sets, z, k - 1);
        assert(nth_bit(mask_bit(z), k - 1));
    } else {
        assert(!nth_bit(mask_bit(z), k - 1));
        lemma_mask_values_unit(sets, z, k - 1);
    }
}

/// Below its element, a unit mask selects nothing.
proof fn lemma_mask_values_unit_low(sets: Seq<SornValue>, z: int, k: int)
    requires
        0 <= z < sets.len() <= 128,
        0 <= k <= z,
    ensures
        spec_mask_values(sets.subrange(0, k), mask_bit(z)) =~= Seq::<SornValue>::empty(),
    decreases k,
{
    if k > 0 {
        let cur = sets.subrange(0, k);
        assert(cur.drop_last() =~= sets.subrange(0, k - 1));
        lemma_unit_bit(z as u128, (k - 1) as u128);
        assert(!nth_bit(mask_bit(z), k - 1));
        lemma_mask_values_unit_low(sets, z, k - 1);
    } else {
        assert(sets.subrange(0, 0) =~= Seq::<SornValue>::empty());
    }
}


// ------------------------------------------------------------------
// Double negation.
// ------------------------------------------------------------------

/// Unions of classifier masks stay inside the partition.
proof fn lemma_unary_union_in_range(
    sets: Seq<SornValue>,
    inf: bool,
    vs: Seq<SornValue>,
    f: spec_fn(SornValue) -> SornValue,
)
    requires
        sets.len() <= 128,
    ensures
        mask_in_range(spec_unary_union(sets, inf, vs, f), sets.len() as int),
    decreases vs.len(),
{
    let n = sets.len() as int;
    if vs.len() == 0 {
        if n < 128 {
            lemma_zero_in_range(n as u128);
        }
    } else {
        lemma_unary_union_in_range(sets, inf, vs.drop_last(), f);
        lemma_classify_in_range(sets, inf, f(vs.last()));
        if n < 128 {
            lemma_or_in_range(
                spec_unary_union(sets, inf, vs.drop_last(), f),
                spec_classify(sets, inf, f(vs.last())),
                n as u128,
            );
        }
    }
}

/// Two masks that agree on every bit are equal.
proof fn lemma_bits_eq(a: u128, b: u128)
    requires
        forall|j: int| 0 <= j < 128 ==> nth_bit(a, j) == nth_bit(b, j),
    ensures
        a == b,
{
    lemma_bits_eq_upto(a, b, 128);
    lemma_mask_and_full(a);
    lemma_mask_and_full(b);
}

proof fn lemma_bits_eq_upto(a: u128, b: u128, k: int)
    requires
        0 <= k <= 128,
        forall|j: int| 0 <= j < k ==> nth_bit(a, j) == nth_bit(b, j),
    ensures
        a & low_ones(k) == b & low_ones(k),
    decreases k,
{
    if k == 0 {
        assert(a & 0u128 == 0u128) by (bit_vector);
        assert(b & 0u128 == 0u128) by (bit_vector);
    } else {
        lemma_bits_eq_upto(a, b, k - 1);
        let ku = (k - 1) as u128;
        lemma_low_ones_step(a, ku);
        lemma_low_ones_step(b, ku);
        if k - 1 == 0 {
            assert(((1u128 << ku) - 1) as u128 == 0u128) by (bit_vector)
                requires
                    ku == 0,
            ;
        }
        assert(nth_bit(a, k - 1) == nth_bit(b, k - 1));
    }
}

/// Per-bit reading of a union whose selected elements each contribute the
/// bit their mirror image owns.
proof fn lemma_mirror_union_bits(
    sets: Seq<SornValue>,
    inf: bool,
    m: u128,
    mirror: Seq<int>,
    f: spec_fn(SornValue) -> SornValue,
    k: int,
)
    requires
        0 <= k <= sets.len() <= 128,
        mirror.len() == sets.len(),
        forall|i: int| 0 <= i < sets.len() ==> 0 <= #[trigger] mirror[i] < sets.len(),
        forall|i: int| 0 <= i < sets.len() ==> mirror[#[trigger] mirror[i]] == i,
        forall|i: int|
            0 <= i < sets.len() ==> spec_classify(sets, inf, f(#[trigger] sets[i])) == mask_bit(
                mirror[i],
            ),
    ensures
        forall|j: int|
            0 <= j < 128 ==> (#[trigger] nth_bit(
                spec_unary_union(sets, inf, spec_mask_values(sets.subrange(0, k), m), f),
                j,
            ) <==> (j < sets.len() && mirror[j] < k && nth_bit(m, mirror[j]))),
    decreases k,
{
    let u = spec_unary_union(sets, inf, spec_mask_values(sets.subrange(0, k), m), f);
    if k == 0 {
        assert(sets.subrange(0, 0) =~= Seq::<SornValue>::empty());
        assert forall|j: int| 0 <= j < 128 implies !nth_bit(u, j) by {
            lemma_zero_bit(j as u128);
        }
    } else {
        lemma_mirror_union_bits(sets, inf, m, mirror, f, k - 1);
        let pre = sets.subrange(0, k - 1);
        let cur = sets.subrange(0, k);
        assert(cur.drop_last() =~= pre);
        assert(cur.last() == sets[k - 1]);
        let prev = spec_unary_union(sets, inf, spec_mask_values(pre, m), f);
        if nth_bit(m, k - 1) {
            let vs = spec_mask_values(pre, m);
            assert(spec_mask_values(cur, m) == vs.push(sets[k - 1]));
            assert(vs.push(sets[k - 1]).drop_last() =~= vs);
            let c = spec_classify(sets, inf, f(sets[k - 1]));
            assert(c == mask_bit(mirror[k - 1]));
            assert(u == prev | c);
            assert forall|j: int|
                0 <= j < 128 implies (#[trigger] nth_bit(u, j) <==> (j < sets.len() && mirror[j]
                < k && nth_bit(m, mirror[j]))) by {
                lemma_or_bit(prev, c, j as u128);
                lemma_unit_bit(mirror[k - 1] as u128, j as u128);
                assert(0 <= mirror[k - 1] < sets.len());
                assert(nth_bit(u, j) <==> (nth_bit(prev, j) || j == mirror[k - 1]));
                assert(nth_bit(prev, j) <==> (j < sets.len() && mirror[j] < k - 1 && nth_bit(
                    m,
                    mirror[j],
                )));
                if j < sets.len() {
                    assert(0 <= mirror[j] < sets.len());
                    assert(mirror[mirror[j]] == j);
                    assert(mirror[mirror[k - 1]] == k - 1);
                    if j == mirror[k - 1] {
                        assert(mirror[j] == k - 1);
                        assert(nth_bit(u, j));
                    } else {
                        assert(mirror[j] != k - 1);
                    }
                }
            }
        } else {
            assert(spec_mask_values(cur, m) == spec_mask_values(pre, m));
            assert forall|j: int|
                0 <= j < 128 implies (#[trigger] nth_bit(u, j) <==> (j < sets.len() && mirror[j]
                < k && nth_bit(m, mirror[j]))) by {
                if j < sets.len() && mirror[j] == k - 1 {
                    assert(mirror[mirror[j]] == j);
                    assert(!nth_bit(m, mirror[j]));
                }
            }
        }
    }
}

/// Double negation: on a proper partition whose elements mirror under
/// negation, negating a sentinel-free in-range mask twice returns it.
pub proof fn lemma_double_negation(sets: Seq<SornValue>, inf: bool, m: u128, mirror: Seq<int>)
    requires
        proper(sets, inf),
        mask_in_range(m, sets.len() as int),
        !spec_mask_has_pminf(sets, m),
        mirror.len() == sets.len(),
        forall|i: int| 0 <= i < sets.len() ==> 0 <= #[trigger] mirror[i] < sets.len(),
        forall|i: int| 0 <= i < sets.len() ==> mirror[#[trigger] mirror[i]] == i,
        forall|i: int|
            0 <= i < sets.len() ==> spec_neg_value(#[trigger] sets[i]) == sets[mirror[i]],
    ensures
        spec_neg_mask(sets, inf, spec_neg_mask(sets, inf, m)) == m,
{
    let n = sets.len() as int;
    let f = |s: SornValue| spec_neg_value(s);
    assert forall|i: int|
        0 <= i < sets.len() implies spec_classify(sets, inf, f(#[trigger] sets[i])) == mask_bit(
        mirror[i],
    ) by {
        assert(f(sets[i]) == sets[mirror[i]]);
        lemma_unit_classify(sets, inf, mirror[i]);
    }
    assert(sets.subrange(0, n) =~= sets);
    let m1 = spec_neg_mask(sets, inf, m);
    assert(m1 == spec_unary_union(sets, inf, spec_mask_values(sets.subrange(0, n), m), f));
    lemma_mirror_union_bits(sets, inf, m, mirror, f, n);
    let m2 = spec_neg_mask(sets, inf, m1);
    assert(m2 == spec_unary_union(sets, inf, spec_mask_values(sets.subrange(0, n), m1), f));
    lemma_mirror_union_bits(sets, inf, m1, mirror, f, n);
    assert forall|j: int| 0 <= j < 128 implies nth_bit(m2, j) == nth_bit(m, j) by {
        if j < n {
            assert(nth_bit(m2, j) <==> (mirror[j] < n && nth_bit(m1, mirror[j])));
            assert(nth_bit(m1, mirror[j]) <==> (mirror[mirror[j]] < n && nth_bit(
                m,
                mirror[mirror[j]],
            )));
            assert(mirror[mirror[j]] == j);
        } else {
            if n < 128 {
                lemma_range_no_bit(m, n as u128, j as u128);
            }
            assert(!nth_bit(m2, j));
            assert(!nth_bit(m, j));
        }
    }
    lemma_bits_eq(m2, m);
}


/// Equal as numbers, or both undefined.
pub open spec fn ext_same(a: Extended, b: Extended) -> bool {
    ext_eq(a, b) || (a is Nan && b is Nan)
}

/// Same kind and endpoints equal as numbers (or both undefined).
pub open spec fn val_same(v1: SornValue, v2: SornValue) -> bool {
    match (v1, v2) {
        (SornValue::Empty, SornValue::Empty) => true,
        (SornValue::Open(p), SornValue::Open(q)) => ext_same(p.0, q.0) && ext_same(p.1, q.1),
        (SornValue::OpenLeft(p), SornValue::OpenLeft(q)) => ext_same(p.0, q.0) && ext_same(
            p.1,
            q.1,
        ),
        (SornValue::OpenRight(p), SornValue::OpenRight(q)) => ext_same(p.0, q.0) && ext_same(
            p.1,
            q.1,
        ),
        (SornValue::Exact(x), SornValue::Exact(y)) => ext_same(x, y),
        (SornValue::PlusMinusInf, SornValue::PlusMinusInf) => true,
        _ => false,
    }
}

/// Addition and multiplication keep endpoints well formed.
proof fn lemma_ext_op_wf(op: SornOp, a: Extended, b: Extended)
    requires
        op is Add || op is Mul,
        ext_wf(a),
        ext_wf(b),
    ensures
        ext_wf(spec_ext_op(op, a, b)),
{
    match (a, b) {
        (Extended::Fin(x), Extended::Fin(y)) => {
            assert(x.den * y.den >= 1) by (nonlinear_arith)
                requires
                    x.den >= 1,
                    y.den >= 1,
            ;
            if op is Add {
                lemma_make_value(
                    (x.num * y.den + y.num * x.den) < 0,
                    spec_abs(x.num * y.den + y.num * x.den),
                    (x.den * y.den) as nat,
                );
            } else {
                lemma_make_value(
                    (x.num * y.num) < 0,
                    spec_abs(x.num * y.num),
                    (x.den * y.den) as nat,
                );
            }
        },
        _ => {},
    }
}

/// A value equal to another compares like it against everything.
proof fn lemma_rat_cong(a: Rat, b: Rat, c: Rat)
    by (nonlinear_arith)
    requires
        1 <= a.den,
        1 <= b.den,
        rat_eq(a, b),
    ensures
        rat_lt(a, c) == rat_lt(b, c),
        rat_lt(c, a) == rat_lt(c, b),
        rat_eq(a, c) == rat_eq(b, c),
        rat_eq(c, a) == rat_eq(c, b),
{
}

proof fn lemma_ext_cong(a: Extended, b: Extended, c: Extended)
    requires
        ext_same(a, b),
        ext_wf(a),
        ext_wf(b),
    ensures
        ext_lt(a, c) == ext_lt(b, c),
        ext_lt(c, a) == ext_lt(c, b),
        ext_eq(a, c) == ext_eq(b, c),
        ext_eq(c, a) == ext_eq(c, b),
        ext_le(a, c) == ext_le(b, c),
        ext_le(c, a) == ext_le(c, b),
{
    match (a, b) {
        (Extended::Fin(x), Extended::Fin(y)) => match c {
            Extended::Fin(z) => {
                lemma_rat_cong(x, y, z);
            },
            _ => {},
        },
        _ => {},
    }
}

proof fn lemma_rat_le_trans(a: Rat, b: Rat, c: Rat)
    by (nonlinear_arith)
    requires
        1 <= a.den,
        1 <= b.den,
        1 <= c.den,
        rat_le(a, b),
        rat_le(b, c),
    ensures
        rat_le(a, c),
{
}

proof fn lemma_ext_le_trans(a: Extended, b: Extended, c: Extended)
    requires
        ext_wf(a),
        ext_wf(b),
        ext_wf(c),
        ext_le(a, b),
        ext_le(b, c),
    ensures
        ext_le(a, c),
{
    match (a, b) {
        (Extended::Fin(x), Extended::Fin(y)) => match c {
            Extended::Fin(z) => {
                lemma_rat_le_trans(x, y, z);
            },
            _ => {},
        },
        _ => {},
    }
}

/// Facts about the smaller of two endpoints: it is one of them, it is
/// undefined only when both are, and it sits at or below each defined one.
proof fn lemma_min2(a: Extended, b: Extended)
    ensures
        ext_min(a, b) == a || ext_min(a, b) == b,
        (ext_min(a, b) is Nan) == (a is Nan && b is Nan),
        !(a is Nan) && !(ext_min(a, b) is Nan) ==> ext_le(ext_min(a, b), a),
        !(b is Nan) && !(ext_min(a, b) is Nan) ==> ext_le(ext_min(a, b), b),
        ext_max(a, b) == a || ext_max(a, b) == b,
        (ext_max(a, b) is Nan) == (a is Nan && b is Nan),
        !(a is Nan) && !(ext_max(a, b) is Nan) ==> ext_le(a, ext_max(a, b)),
        !(b is Nan) && !(ext_max(a, b) is Nan) ==> ext_le(b, ext_max(a, b)),
{
    if !(a is Nan) {
        assert(ext_eq(a, a));
    }
    if !(b is Nan) {
        assert(ext_eq(b, b));
    }
}

/// Exchanging the two middle candidates leaves the extremes the same as
/// numbers.
proof fn lemma_minmax4_exchange(c1: Extended, c2: Extended, c3: Extended, c4: Extended)
    requires
        ext_wf(c1),
        ext_wf(c2),
        ext_wf(c3),
        ext_wf(c4),
    ensures
        ext_same(
            ext_min(ext_min(c1, c2), ext_min(c3, c4)),
            ext_min(ext_min(c1, c3), ext_min(c2, c4)),
        ),
        ext_same(
            ext_max(ext_max(c1, c2), ext_max(c3, c4)),
            ext_max(ext_max(c1, c3), ext_max(c2, c4)),
        ),
{
    lemma_min2(c1, c2);
    lemma_min2(c3, c4);
    lemma_min2(c1, c3);
    lemma_min2(c2, c4);
    let m12 = ext_min(c1, c2);
    let m34 = ext_min(c3, c4);
    let m13 = ext_min(c1, c3);
    let m24 = ext_min(c2, c4);
    lemma_min2(m12, m34);
    lemma_min2(m13, m24);
    let lo = ext_min(m12, m34);
    let lo2 = ext_min(m13, m24);
    if lo is Nan || lo2 is Nan {
        assert(lo is Nan ==> c1 is Nan && c2 is Nan && c3 is Nan && c4 is Nan);
        assert(lo2 is Nan ==> c1 is Nan && c2 is Nan && c3 is Nan && c4 is Nan);
    } else {
        lemma_min_below(c1, c2, c3, c4);
        lemma_min_below(c1, c3, c2, c4);
        assert(ext_le(lo, lo2)) by {
            assert(lo2 == c1 || lo2 == c2 || lo2 == c3 || lo2 == c4);
        }
        assert(ext_le(lo2, lo)) by {
            assert(lo == c1 || lo == c2 || lo == c3 || lo == c4);
        }
        assert(ext_eq(lo, lo2));
    }
    let x12 = ext_max(c1, c2);
    let x34 = ext_max(c3, c4);
    let x13 = ext_max(c1, c3);
    let x24 = ext_max(c2, c4);
    lemma_min2(x12, x34);
    lemma_min2(x13, x24);
    let hi = ext_max(x12, x34);
    let hi2 = ext_max(x13, x24);
    if hi is Nan || hi2 is Nan {
        assert(hi is Nan ==> c1 is Nan && c2 is Nan && c3 is Nan && c4 is Nan);
        assert(hi2 is Nan ==> c1 is Nan && c2 is Nan && c3 is Nan && c4 is Nan);
    } else {
        lemma_max_above(c1, c2, c3, c4);
        lemma_max_above(c1, c3, c2, c4);
        assert(ext_le(hi2, hi)) by {
            assert(hi2 == c1 || hi2 == c2 || hi2 == c3 || hi2 == c4);
        }
        assert(ext_le(hi, hi2)) by {
            assert(hi == c1 || hi == c2 || hi == c3 || hi == c4);
        }
        assert(ext_eq(hi, hi2));
    }
}

/// The four-way minimum sits at or below each defined candidate.
proof fn lemma_min_below(c1: Extended, c2: Extended, c3: Extended, c4: Extended)
    requires
        ext_wf(c1),
        ext_wf(c2),
        ext_wf(c3),
        ext_wf(c4),
        !(ext_min(ext_min(c1, c2), ext_min(c3, c4)) is Nan),
    ensures
        !(c1 is Nan) ==> ext_le(ext_min(ext_min(c1, c2), ext_min(c3, c4)), c1),
        !(c2 is Nan) ==> ext_le(ext_min(ext_min(c1, c2), ext_min(c3, c4)), c2),
        !(c3 is Nan) ==> ext_le(ext_min(ext_min(c1, c2), ext_min(c3, c4)), c3),
        !(c4 is Nan) ==> ext_le(ext_min(ext_min(c1, c2), ext_min(c3, c4)), c4),
{
    let m12 = ext_min(c1, c2);
    let m34 = ext_min(c3, c4);
    let lo = ext_min(m12, m34);
    lemma_min2(c1, c2);
    lemma_min2(c3, c4);
    lemma_min2(m12, m34);
    if !(c1 is Nan) {
        lemma_ext_le_trans(lo, m12, c1);
    }
    if !(c2 is Nan) {
        lemma_ext_le_trans(lo, m12, c2);
    }
    if !(c3 is Nan) {
        lemma_ext_le_trans(lo, m34, c3);
    }
    if !(c4 is Nan) {
        lemma_ext_le_trans(lo, m34, c4);
    }
}

/// The four-way maximum sits at or above each defined candidate.
proof fn lemma_max_above(c1: Extended, c2: Extended, c3: Extended, c4: Extended)
    requires
        ext_wf(c1),
        ext_wf(c2),
        ext_wf(c3),
        ext_wf(c4),
        !(ext_max(ext_max(c1, c2), ext_max(c3, c4)) is Nan),
    ensures
        !(c1 is Nan) ==> ext_le(c1, ext_max(ext_max(c1, c2), ext_max(c3, c4))),
        !(c2 is Nan) ==> ext_le(c2, ext_max(ext_max(c1, c2), ext_max(c3, c4))),
        !(c3 is Nan) ==> ext_le(c3, ext_max(ext_max(c1, c2), ext_max(c3, c4))),
        !(c4 is Nan) ==> ext_le(c4, ext_max(ext_max(c1, c2), ext_max(c3, c4))),
{
    let x12 = ext_max(c1, c2);
    let x34 = ext_max(c3, c4);
    let hi = ext_max(x12, x34);
    lemma_min2(c1, c2);
    lemma_min2(c3, c4);
    lemma_min2(x12, x34);
    if !(c1 is Nan) {
        lemma_ext_le_trans(c1, x12, hi);
    }
    if !(c2 is Nan) {
        lemma_ext_le_trans(c2, x12, hi);
    }
    if !(c3 is Nan) {
        lemma_ext_le_trans(c3, x34, hi);
    }
    if !(c4 is Nan) {
        lemma_ext_le_trans(c4, x34, hi);
    }
}

proof fn lemma_zero_same(a: Extended, b: Extended)
    requires
        ext_same(a, b),
        ext_wf(a),
        ext_wf(b),
    ensures
        ext_is_zero(a) == ext_is_zero(b),
{
    match (a, b) {
        (Extended::Fin(x), Extended::Fin(y)) => {
            assert(x.num == 0 ==> y.num == 0) by (nonlinear_arith)
                requires
                    rat_eq(x, y),
                    1 <= x.den,
                    1 <= y.den,
            ;
            assert(y.num == 0 ==> x.num == 0) by (nonlinear_arith)
                requires
                    rat_eq(x, y),
                    1 <= x.den,
                    1 <= y.den,
            ;
        },
        _ => {},
    }
}

/// Swapping the operands of an addition or multiplication gives the same
/// emitted value up to endpoint equality (or no value on both sides).
#[verifier::rlimit(100)]
#[verifier::spinoff_prover]
proof fn lemma_combine_sym(op: SornOp, s1: SornValue, s2: SornValue)
    requires
        op is Add || op is Mul,
        val_wf(s1),
        val_wf(s2),
    ensures
        match (spec_combine(op, s1, s2), spec_combine(op, s2, s1)) {
            (Some(v), Some(w)) => val_same(v, w) && val_wf(v) && val_wf(w),
            (Option::None, Option::None) => true,
            _ => false,
        },
{
    let a1 = val_min(s1);
    let b1 = val_max(s1);
    let a2 = val_min(s2);
    let b2 = val_max(s2);
    let c1 = spec_ext_op(op, a1, a2);
    let c2 = spec_ext_op(op, a1, b2);
    let c3 = spec_ext_op(op, b1, a2);
    let c4 = spec_ext_op(op, b1, b2);
    lemma_ext_op_commutes(op, a1, a2);
    lemma_ext_op_commutes(op, a1, b2);
    lemma_ext_op_commutes(op, b1, a2);
    lemma_ext_op_commutes(op, b1, b2);
    assert(spec_ext_op(op, a2, a1) == c1);
    assert(spec_ext_op(op, a2, b1) == c3);
    assert(spec_ext_op(op, b2, a1) == c2);
    assert(spec_ext_op(op, b2, b1) == c4);
    lemma_ext_op_wf(op, a1, a2);
    lemma_ext_op_wf(op, a1, b2);
    lemma_ext_op_wf(op, b1, a2);
    lemma_ext_op_wf(op, b1, b2);
    lemma_minmax4_exchange(c1, c2, c3, c4);
    let lo = ext_min(ext_min(c1, c2), ext_min(c3, c4));
    let hi = ext_max(ext_max(c1, c2), ext_max(c3, c4));
    let lo2 = ext_min(ext_min(c1, c3), ext_min(c2, c4));
    let hi2 = ext_max(ext_max(c1, c3), ext_max(c2, c4));
    lemma_min2(c1, c2);
    lemma_min2(c3, c4);
    lemma_min2(ext_min(c1, c2), ext_min(c3, c4));
    lemma_min2(c1, c3);
    lemma_min2(c2, c4);
    lemma_min2(ext_min(c1, c3), ext_min(c2, c4));
    assert(ext_wf(lo) && ext_wf(hi) && ext_wf(lo2) && ext_wf(hi2));
    assert(ext_same(lo, lo2) && ext_same(hi, hi2));
    lemma_zero_same(lo, lo2);
    lemma_zero_same(hi, hi2);
    assert((lo is PosInf) == (lo2 is PosInf));
    assert((lo is NegInf) == (lo2 is NegInf));
    assert((hi is PosInf) == (hi2 is PosInf));
    assert((hi is NegInf) == (hi2 is NegInf));
    let exact_both = s1 is Exact && s2 is Exact;
    let mulzero = op is Mul && ext_is_zero(lo) && ext_is_zero(hi);
    assert(mulzero == (op is Mul && ext_is_zero(lo2) && ext_is_zero(hi2)));
    if exact_both || mulzero {
        assert(spec_combine(op, s1, s2) == Some(SornValue::Exact(lo)));
        assert(spec_combine(op, s2, s1) == Some(SornValue::Exact(lo2)));
    } else if s1 is Open || s2 is Open {
        assert(spec_combine(op, s1, s2) == Some(SornValue::Open((lo, hi))));
        assert(spec_combine(op, s2, s1) == Some(SornValue::Open((lo2, hi2))));
    } else if (s1 is OpenLeft && s2 is OpenLeft) || (s1 is OpenLeft && s2 is Exact) || (s1
        is Exact && s2 is OpenLeft) {
        assert(spec_combine(op, s1, s2) == Some(SornValue::OpenLeft((lo, hi))));
        assert(spec_combine(op, s2, s1) == Some(SornValue::OpenLeft((lo2, hi2))));
    } else if (s1 is OpenRight && s2 is OpenRight) || (s1 is OpenRight && s2 is Exact) || (s1
        is Exact && s2 is OpenRight) {
        assert(spec_combine(op, s1, s2) == Some(SornValue::OpenRight((lo, hi))));
        assert(spec_combine(op, s2, s1) == Some(SornValue::OpenRight((lo2, hi2))));
    } else if (s1 is OpenLeft && s2 is OpenRight) || (s1 is OpenRight && s2 is OpenLeft) {
        assert(spec_combine(op, s1, s2) == Some(SornValue::Open((lo, hi))));
        assert(spec_combine(op, s2, s1) == Some(SornValue::Open((lo2, hi2))));
    } else if (lo is PosInf && hi is PosInf) || (lo is NegInf && hi is NegInf) {
        assert(spec_combine(op, s1, s2) == Some(SornValue::PlusMinusInf));
        assert(spec_combine(op, s2, s1) == Some(SornValue::PlusMinusInf));
    } else {
        assert(spec_combine(op, s1, s2) is None);
        assert(spec_combine(op, s2, s1) is None);
    }
}

/// Values equal as numbers classify identically.
proof fn lemma_classify_same(sets: Seq<SornValue>, inf: bool, v1: SornValue, v2: SornValue, k: int)
    requires
        val_same(v1, v2),
        val_wf(v1),
        val_wf(v2),
        0 <= k <= sets.len(),
    ensures
        spec_classify_upto(sets, inf, v1, k) == spec_classify_upto(sets, inf, v2, k),
    decreases k,
{
    if k > 0 {
        lemma_classify_same(sets, inf, v1, v2, k - 1);
        lemma_overlap_cong(v1, v2, sets[k - 1]);
    }
}

proof fn lemma_overlap_cong(v1: SornValue, v2: SornValue, s: SornValue)
    requires
        val_same(v1, v2),
        val_wf(v1),
        val_wf(v2),
    ensures
        spec_overlap(v1, s) == spec_overlap(v2, s),
{
    lemma_ext_cong(val_min(v1), val_min(v2), val_min(s));
    lemma_ext_cong(val_min(v1), val_min(v2), val_max(s));
    lemma_ext_cong(val_max(v1), val_max(v2), val_min(s));
    lemma_ext_cong(val_max(v1), val_max(v2), val_max(s));
}

/// What one operand pair contributes to the cross-product union.
pub open spec fn spec_contrib(
    sets: Seq<SornValue>,
    inf: bool,
    op: SornOp,
    x: SornValue,
    y: SornValue,
) -> u128 {
    match spec_combine(op, x, y) {
        Some(nv) => spec_classify(sets, inf, nv),
        Option::None => 0u128,
    }
}

proof fn lemma_contrib_sym(sets: Seq<SornValue>, inf: bool, op: SornOp, x: SornValue, y: SornValue)
    requires
        op is Add || op is Mul,
        val_wf(x),
        val_wf(y),
    ensures
        spec_contrib(sets, inf, op, x, y) == spec_contrib(sets, inf, op, y, x),
{
    lemma_combine_sym(op, x, y);
    match (spec_combine(op, x, y), spec_combine(op, y, x)) {
        (Some(v), Some(w)) => {
            lemma_classify_same(sets, inf, v, w, sets.len() as int);
        },
        _ => {},
    }
}

/// The column a fixed right operand induces over a value list.
pub open spec fn spec_cross_col(
    sets: Seq<SornValue>,
    inf: bool,
    op: SornOp,
    vs: Seq<SornValue>,
    w: SornValue,
) -> u128
    decreases vs.len(),
{
    if vs.len() == 0 {
        0u128
    } else {
        spec_cross_col(sets, inf, op, vs.drop_last(), w) | spec_contrib(
            sets,
            inf,
            op,
            vs.last(),
            w,
        )
    }
}

proof fn lemma_row_eq_col(
    sets: Seq<SornValue>,
    inf: bool,
    op: SornOp,
    w: SornValue,
    vs: Seq<SornValue>,
)
    requires
        op is Add || op is Mul,
        val_wf(w),
        forall|i: int| 0 <= i < vs.len() ==> val_wf(#[trigger] vs[i]),
    ensures
        spec_cross_row(sets, inf, op, w, vs) == spec_cross_col(sets, inf, op, vs, w),
    decreases vs.len(),
{
    if vs.len() > 0 {
        lemma_row_eq_col(sets, inf, op, w, vs.drop_last());
        lemma_contrib_sym(sets, inf, op, w, vs.last());
    }
}

proof fn lemma_cross_all_empty(sets: Seq<SornValue>, inf: bool, op: SornOp, vs: Seq<SornValue>)
    ensures
        spec_cross_all(sets, inf, op, vs, Seq::<SornValue>::empty()) == 0u128,
    decreases vs.len(),
{
    if vs.len() > 0 {
        lemma_cross_all_empty(sets, inf, op, vs.drop_last());
        lemma_or_zero(0u128);
    }
}

proof fn lemma_cross_all_push(
    sets: Seq<SornValue>,
    inf: bool,
    op: SornOp,
    vs1: Seq<SornValue>,
    vs2: Seq<SornValue>,
    w: SornValue,
)
    ensures
        spec_cross_all(sets, inf, op, vs1, vs2.push(w)) == spec_cross_all(sets, inf, op, vs1, vs2)
            | spec_cross_col(sets, inf, op, vs1, w),
    decreases vs1.len(),
{
    if vs1.len() == 0 {
        lemma_or_zero(0u128);
    } else {
        lemma_cross_all_push(sets, inf, op, vs1.drop_last(), vs2, w);
        assert(vs2.push(w).drop_last() =~= vs2);
        assert(vs2.push(w).last() == w);
        let a = spec_cross_all(sets, inf, op, vs1.drop_last(), vs2);
        let b = spec_cross_col(sets, inf, op, vs1.drop_last(), w);
        let c = spec_cross_row(sets, inf, op, vs1.last(), vs2);
        let d = spec_contrib(sets, inf, op, vs1.last(), w);
        assert(spec_cross_row(sets, inf, op, vs1.last(), vs2.push(w)) == c | d);
        assert(spec_cross_all(sets, inf, op, vs1, vs2.push(w)) == (a | b) | (c | d));
        lemma_or_shuffle(a, b, c, d);
    }
}

proof fn lemma_cross_comm(
    sets: Seq<SornValue>,
    inf: bool,
    op: SornOp,
    vs1: Seq<SornValue>,
    vs2: Seq<SornValue>,
)
    requires
        op is Add || op is Mul,
        forall|i: int| 0 <= i < vs1.len() ==> val_wf(#[trigger] vs1[i]),
        forall|i: int| 0 <= i < vs2.len() ==> val_wf(#[trigger] vs2[i]),
    ensures
        spec_cross_all(sets, inf, op, vs1, vs2) == spec_cross_all(sets, inf, op, vs2, vs1),
    decreases vs2.len(),
{
    if vs2.len() == 0 {
        assert(vs2 =~= Seq::<SornValue>::empty());
        lemma_cross_all_empty(sets, inf, op, vs1);
    } else {
        let w = vs2.last();
        let pre = vs2.drop_last();
        assert(pre.push(w) =~= vs2);
        assert(pre.push(w) == vs2);
        assert(forall|i: int| 0 <= i < pre.len() ==> val_wf(#[trigger] pre[i]));
        lemma_cross_all_push(sets, inf, op, vs1, pre, w);
        assert(spec_cross_all(sets, inf, op, vs1, vs2) == spec_cross_all(sets, inf, op, vs1, pre)
            | spec_cross_col(sets, inf, op, vs1, w));
        lemma_cross_comm(sets, inf, op, vs1, pre);
        lemma_row_eq_col(sets, inf, op, w, vs1);
        assert(spec_cross_all(sets, inf, op, vs1, vs2) == spec_cross_all(sets, inf, op, pre, vs1)
            | spec_cross_row(sets, inf, op, w, vs1));
        assert(spec_cross_all(sets, inf, op, vs2, vs1) == spec_cross_all(sets, inf, op, pre, vs1)
            | spec_cross_row(sets, inf, op, w, vs1));
    }
}

/// Every value a mask selects from a well-formed partition is well
/// formed.
proof fn lemma_mask_values_wf(sets: Seq<SornValue>, m: u128)
    requires
        forall|i: int| 0 <= i < sets.len() ==> val_wf(#[trigger] sets[i]),
    ensures
        forall|k: int|
            0 <= k < spec_mask_values(sets, m).len() ==> val_wf(
                #[trigger] spec_mask_values(sets, m)[k],
            ),
    decreases sets.len(),
{
    if sets.len() > 0 {
        assert(forall|i: int|
            0 <= i < sets.drop_last().len() ==> val_wf(#[trigger] sets.drop_last()[i]));
        lemma_mask_values_wf(sets.drop_last(), m);
        let prev = spec_mask_values(sets.drop_last(), m);
        let cur = spec_mask_values(sets, m);
        if nth_bit(m, sets.len() - 1) {
            assert(cur == prev.push(sets.last()));
            assert(val_wf(sets.last()));
            assert forall|k: int| 0 <= k < cur.len() implies val_wf(#[trigger] cur[k]) by {
                if k < prev.len() {
                    assert(cur[k] == prev[k]);
                } else {
                    assert(cur[k] == sets.last());
                }
            }
        } else {
            assert(cur == prev);
        }
    }
}

/// Commutativity: on a well-formed partition, adding or multiplying masks
/// gives the same mask in either operand order, whatever the cache state.
pub proof fn lemma_binop_commutes(sets: Seq<SornValue>, inf: bool, op: SornOp, a: u128, b: u128)
    requires
        op is Add || op is Mul,
        sets_wf(sets),
    ensures
        spec_binop(sets, inf, op, a, b) == spec_binop(sets, inf, op, b, a),
{
    if spec_mask_has_pminf(sets, a) && spec_mask_has_pminf(sets, b) {
        lemma_or_comm(a, b);
    } else if spec_mask_has_pminf(sets, a) || spec_mask_has_pminf(sets, b) {
    } else {
        lemma_mask_values_wf(sets, a);
        lemma_mask_values_wf(sets, b);
        lemma_cross_comm(sets, inf, op, spec_mask_values(sets, a), spec_mask_values(sets, b));
    }
}

} // verus!

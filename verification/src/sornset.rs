use vstd::prelude::*;

verus! {

use crate::endpoint::{
    Extended, Rat, ext_wf, ext_eq, ext_lt, ext_le, rat_zero, exec_ext_eq, exec_ext_lt,
    exec_ext_le, rat_wf, rat_lt, MAX_COEFF, spec_ext_add, spec_ext_mul, exec_ext_add,
    exec_ext_mul, lemma_fin_ops_not_nan,
};
use crate::memo::{
    BinMemo, PowMemo, bin_memo_map, pow_memo_map, bin_memo_new, pow_memo_new,
    bin_memo_clear, pow_memo_clear, bin_memo_clone, pow_memo_clone,
};
use crate::sorn::{spec_binop, spec_pow_mask, spec_classify, SornOp, Sorn, val_selfeq, val_is_interval};
use vstd::string::StringSliceAdditionalSpecFns;

/// One element of a partition of the real line, or an input to the
/// classifier: nothing, a single point, an interval open on both, one or
/// the other side, or the unbounded "overflow" sentinel.
#[derive(Clone, Copy, Debug)]
pub enum SornValue {
    Empty,
    Open((Extended, Extended)),
    OpenLeft((Extended, Extended)),
    OpenRight((Extended, Extended)),
    Exact(Extended),
    PlusMinusInf,
}

/// A value is well formed when its endpoints are.
pub open spec fn val_wf(v: SornValue) -> bool {
    match v {
        SornValue::Empty => true,
        SornValue::Open(p) => ext_wf(p.0) && ext_wf(p.1),
        SornValue::OpenLeft(p) => ext_wf(p.0) && ext_wf(p.1),
        SornValue::OpenRight(p) => ext_wf(p.0) && ext_wf(p.1),
        SornValue::Exact(x) => ext_wf(x),
        SornValue::PlusMinusInf => true,
    }
}

/// The lower endpoint; an empty value sits at zero, the sentinel spans
/// everything.
pub open spec fn val_min(v: SornValue) -> Extended {
    match v {
        SornValue::Empty => Extended::Fin(rat_zero()),
        SornValue::Open(p) => p.0,
        SornValue::OpenLeft(p) => p.0,
        SornValue::OpenRight(p) => p.0,
        SornValue::Exact(x) => x,
        SornValue::PlusMinusInf => Extended::NegInf,
    }
}

/// The upper endpoint.
pub open spec fn val_max(v: SornValue) -> Extended {
    match v {
        SornValue::Empty => Extended::Fin(rat_zero()),
        SornValue::Open(p) => p.1,
        SornValue::OpenLeft(p) => p.1,
        SornValue::OpenRight(p) => p.1,
        SornValue::Exact(x) => x,
        SornValue::PlusMinusInf => Extended::PosInf,
    }
}

/// Structural equality up to endpoint values: two values are equal when
/// their kinds match and their endpoints are equal as numbers. A `Nan`
/// endpoint equals nothing, itself included.
pub open spec fn val_eq(a: SornValue, b: SornValue) -> bool {
    match (a, b) {
        (SornValue::Empty, SornValue::Empty) => true,
        (SornValue::Open(p), SornValue::Open(q)) => ext_eq(p.0, q.0) && ext_eq(p.1, q.1),
        (SornValue::OpenLeft(p), SornValue::OpenLeft(q)) => ext_eq(p.0, q.0) && ext_eq(p.1, q.1),
        (SornValue::OpenRight(p), SornValue::OpenRight(q)) => ext_eq(p.0, q.0) && ext_eq(
            p.1,
            q.1,
        ),
        (SornValue::Exact(x), SornValue::Exact(y)) => ext_eq(x, y),
        (SornValue::PlusMinusInf, SornValue::PlusMinusInf) => true,
        _ => false,
    }
}

impl SornValue {
    /// The exact point this value holds, if it is a point.
    pub fn get(&self) -> (r: Option<Extended>)
        ensures
            match *self {
                SornValue::Exact(x) => r == Some(x),
                _ => r is None,
            },
    {
        match self {
            SornValue::Exact(value) => Some(*value),
            _ => None,
        }
    }

    pub fn min(&self) -> (r: Extended)
        ensures
            r == val_min(*self),
    {
        match self {
            SornValue::Empty => Extended::Fin(Rat { num: 0, den: 1 }),
            SornValue::Open((start, _end)) => *start,
            SornValue::OpenLeft((start, _end)) => *start,
            SornValue::OpenRight((start, _end)) => *start,
            SornValue::Exact(value) => *value,
            SornValue::PlusMinusInf => Extended::NegInf,
        }
    }

    pub fn max(&self) -> (r: Extended)
        ensures
            r == val_max(*self),
    {
        match self {
            SornValue::Empty => Extended::Fin(Rat { num: 0, den: 1 }),
            SornValue::Open((_start, end)) => *end,
            SornValue::OpenLeft((_start, end)) => *end,
            SornValue::OpenRight((_start, end)) => *end,
            SornValue::Exact(value) => *value,
            SornValue::PlusMinusInf => Extended::PosInf,
        }
    }

    pub fn is_exact(&self) -> (r: bool)
        ensures
            r == (*self is Exact),
    {
        matches!(self, SornValue::Exact(_))
    }

    pub fn is_interval(&self) -> (r: bool)
        ensures
            r == (*self is Open || *self is OpenLeft || *self is OpenRight),
    {
        self.is_open() || self.is_leftopen() || self.is_rightopen()
    }

    pub fn is_open(&self) -> (r: bool)
        ensures
            r == (*self is Open),
    {
        matches!(self, SornValue::Open(_))
    }

    pub fn is_leftopen(&self) -> (r: bool)
        ensures
            r == (*self is OpenLeft),
    {
        matches!(self, SornValue::OpenLeft(_))
    }

    pub fn is_rightopen(&self) -> (r: bool)
        ensures
            r == (*self is OpenRight),
    {
        matches!(self, SornValue::OpenRight(_))
    }

    pub fn is_pminf(&self) -> (r: bool)
        ensures
            r == (*self is PlusMinusInf),
    {
        matches!(self, SornValue::PlusMinusInf)
    }
}

impl PartialEq for SornValue {
    fn eq(&self, other: &Self) -> (r: bool) {
        match (self, other) {
            (SornValue::Empty, SornValue::Empty) => true,
            (SornValue::Open(p), SornValue::Open(q)) => exec_ext_eq(&p.0, &q.0) && exec_ext_eq(
                &p.1,
                &q.1,
            ),
            (SornValue::OpenLeft(p), SornValue::OpenLeft(q)) => exec_ext_eq(&p.0, &q.0)
                && exec_ext_eq(&p.1, &q.1),
            (SornValue::OpenRight(p), SornValue::OpenRight(q)) => exec_ext_eq(&p.0, &q.0)
                && exec_ext_eq(&p.1, &q.1),
            (SornValue::Exact(x), SornValue::Exact(y)) => exec_ext_eq(x, y),
            (SornValue::PlusMinusInf, SornValue::PlusMinusInf) => true,
            _ => false,
        }
    }
}

impl vstd::std_specs::cmp::PartialEqSpecImpl for SornValue {
    open spec fn obeys_eq_spec() -> bool {
        true
    }

    open spec fn eq_spec(&self, other: &SornValue) -> bool {
        val_eq(*self, *other)
    }
}

/// The partial order on values: below when the whole of one lies beneath
/// the whole of the other, equal when both bounds coincide as numbers,
/// incomparable when they overlap.
pub open spec fn val_partial_cmp(a: SornValue, b: SornValue) -> Option<core::cmp::Ordering> {
    if ext_lt(val_max(a), val_min(b)) {
        Some(core::cmp::Ordering::Less)
    } else if ext_lt(val_max(b), val_min(a)) {
        Some(core::cmp::Ordering::Greater)
    } else if ext_eq(val_min(a), val_min(b)) && ext_eq(val_max(a), val_max(b)) {
        Some(core::cmp::Ordering::Equal)
    } else {
        None
    }
}

impl PartialOrd for SornValue {
    fn partial_cmp(&self, other: &Self) -> (r: Option<core::cmp::Ordering>) {
        let smin = self.min();
        let smax = self.max();
        let omin = other.min();
        let omax = other.max();
        if exec_ext_lt(&smax, &omin) {
            Some(core::cmp::Ordering::Less)
        } else if exec_ext_lt(&omax, &smin) {
            Some(core::cmp::Ordering::Greater)
        } else if exec_ext_eq(&smin, &omin) && exec_ext_eq(&smax, &omax) {
            Some(core::cmp::Ordering::Equal)
        } else {
            None
        }
    }
}

impl vstd::std_specs::cmp::PartialOrdSpecImpl for SornValue {
    open spec fn obeys_partial_cmp_spec() -> bool {
        true
    }

    open spec fn partial_cmp_spec(&self, other: &SornValue) -> Option<core::cmp::Ordering> {
        val_partial_cmp(*self, *other)
    }
}

/// An ordered cover of a slice of the real line, together with the memo
/// tables for the arithmetic performed against it.
pub struct SornSet {
    /// Key is (own bits, exponent), value is the resulting bits.
    pub precomputed_pow: PowMemo,
    /// Key is (self bits, operand bits), value is the resulting bits.
    pub precomputed_add: BinMemo,
    pub precomputed_sub: BinMemo,
    pub precomputed_mul: BinMemo,
    pub precomputed_div: BinMemo,
    pub sets: Vec<SornValue>,
    pub contains_inf: bool,
    pub one_bit: u128,
}

/// Elementwise value equality of two partition element lists.
pub open spec fn seq_val_eq(x: Seq<SornValue>, y: Seq<SornValue>) -> bool {
    x.len() == y.len() && (forall|i: int| 0 <= i < x.len() ==> val_eq(#[trigger] x[i], y[i]))
}

/// Same partition, same one-mask, same memo entries.
pub open spec fn set_state_eq(a: SornSet, b: SornSet) -> bool {
    &&& a.sets@ == b.sets@
    &&& a.contains_inf == b.contains_inf
    &&& a.one_bit == b.one_bit
    &&& bin_memo_map(a.precomputed_add) == bin_memo_map(b.precomputed_add)
    &&& bin_memo_map(a.precomputed_sub) == bin_memo_map(b.precomputed_sub)
    &&& bin_memo_map(a.precomputed_mul) == bin_memo_map(b.precomputed_mul)
    &&& bin_memo_map(a.precomputed_div) == bin_memo_map(b.precomputed_div)
    &&& pow_memo_map(a.precomputed_pow) == pow_memo_map(b.precomputed_pow)
}

/// The partition elements fit the mask width and are well formed.
pub open spec fn sets_wf(sets: Seq<SornValue>) -> bool {
    sets.len() <= 128 && (forall|i: int| 0 <= i < sets.len() ==> val_wf(#[trigger] sets[i]))
}

/// Every memo entry agrees with recomputing the operation from scratch.
/// This is the cache-transparency invariant: a lookup can never return
/// anything other than what the cross product would produce.
pub open spec fn bin_memo_ok(
    m: Map<(u128, u128), u128>,
    sets: Seq<SornValue>,
    inf: bool,
    op: SornOp,
) -> bool {
    forall|k: (u128, u128)| m.contains_key(k) ==> m[k] == spec_binop(sets, inf, op, k.0, k.1)
}

pub open spec fn pow_memo_ok(m: Map<(u128, i32), u128>, sets: Seq<SornValue>, inf: bool) -> bool {
    forall|k: (u128, i32)| m.contains_key(k) ==> m[k] == spec_pow_mask(sets, inf, k.0, k.1 as int)
}

impl SornSet {
    /// Well-formedness: sound sets and truthful memo tables.
    pub open spec fn wf(&self) -> bool {
        &&& sets_wf(self.sets@)
        &&& bin_memo_ok(bin_memo_map(self.precomputed_add), self.sets@, self.contains_inf, SornOp::Add)
        &&& bin_memo_ok(bin_memo_map(self.precomputed_sub), self.sets@, self.contains_inf, SornOp::Sub)
        &&& bin_memo_ok(bin_memo_map(self.precomputed_mul), self.sets@, self.contains_inf, SornOp::Mul)
        &&& bin_memo_ok(bin_memo_map(self.precomputed_div), self.sets@, self.contains_inf, SornOp::Div)
        &&& pow_memo_ok(pow_memo_map(self.precomputed_pow), self.sets@, self.contains_inf)
    }

    /// Two sets describe the same partition when their elements agree as
    /// values and their infinity flags agree; the memo tables play no part
    /// in it.
    pub open spec fn same_partition(&self, other: &SornSet) -> bool {
        seq_val_eq(self.sets@, other.sets@) && self.contains_inf == other.contains_inf
    }

    pub fn default() -> (r: SornSet)
        ensures
            r.sets@ == Seq::<SornValue>::empty(),
            !r.contains_inf,
            r.one_bit == 0,
            bin_memo_map(r.precomputed_add) == Map::<(u128, u128), u128>::empty(),
            bin_memo_map(r.precomputed_sub) == Map::<(u128, u128), u128>::empty(),
            bin_memo_map(r.precomputed_mul) == Map::<(u128, u128), u128>::empty(),
            bin_memo_map(r.precomputed_div) == Map::<(u128, u128), u128>::empty(),
            pow_memo_map(r.precomputed_pow) == Map::<(u128, i32), u128>::empty(),
            r.wf(),
    {
        SornSet {
            precomputed_pow: pow_memo_new(),
            precomputed_add: bin_memo_new(),
            precomputed_sub: bin_memo_new(),
            precomputed_mul: bin_memo_new(),
            precomputed_div: bin_memo_new(),
            sets: Vec::new(),
            contains_inf: false,
            one_bit: 0,
        }
    }

    /// A copy with the same partition, memo entries and one-mask.
    pub fn duplicate(&self) -> (r: SornSet)
        ensures
            r.sets@ == self.sets@,
            r.contains_inf == self.contains_inf,
            r.one_bit == self.one_bit,
            bin_memo_map(r.precomputed_add) == bin_memo_map(self.precomputed_add),
            bin_memo_map(r.precomputed_sub) == bin_memo_map(self.precomputed_sub),
            bin_memo_map(r.precomputed_mul) == bin_memo_map(self.precomputed_mul),
            bin_memo_map(r.precomputed_div) == bin_memo_map(self.precomputed_div),
            pow_memo_map(r.precomputed_pow) == pow_memo_map(self.precomputed_pow),
            set_state_eq(r, *self),
            self.wf() ==> r.wf(),
    {
        let mut sets_copy: Vec<SornValue> = Vec::new();
        let mut i: usize = 0;
        while i < self.sets.len()
            invariant
                0 <= i <= self.sets.len(),
                sets_copy@ == self.sets@.subrange(0, i as int),
            decreases self.sets.len() - i,
        {
            sets_copy.push(self.sets[i]);
            proof {
                assert(sets_copy@ =~= self.sets@.subrange(0, i + 1));
            }
            i = i + 1;
        }
        proof {
            assert(sets_copy@ =~= self.sets@);
        }
        SornSet {
            precomputed_pow: pow_memo_clone(&self.precomputed_pow),
            precomputed_add: bin_memo_clone(&self.precomputed_add),
            precomputed_sub: bin_memo_clone(&self.precomputed_sub),
            precomputed_mul: bin_memo_clone(&self.precomputed_mul),
            precomputed_div: bin_memo_clone(&self.precomputed_div),
            sets: sets_copy,
            contains_inf: self.contains_inf,
            one_bit: self.one_bit,
        }
    }

    pub fn len(&self) -> (r: usize)
        ensures
            r == self.sets@.len(),
    {
        self.sets.len()
    }

    pub fn first(&self) -> (r: Option<&SornValue>)
        ensures
            match r {
                Some(v) => self.sets@.len() > 0 && *v == self.sets@[0],
                None => self.sets@.len() == 0,
            },
    {
        if self.len() > 0 {
            Some(&self.sets[0])
        } else {
            None
        }
    }

    pub fn last(&self) -> (r: Option<&SornValue>)
        ensures
            match r {
                Some(v) => self.sets@.len() > 0 && *v == self.sets@[self.sets@.len() - 1],
                None => self.sets@.len() == 0,
            },
    {
        if self.len() > 0 {
            Some(&self.sets[self.len() - 1])
        } else {
            None
        }
    }

    pub fn is_empty(&self) -> (r: bool)
        ensures
            r == (self.sets@.len() == 0),
    {
        self.len() == 0
    }

    /// Appends a partition element. The memo tables are emptied: their
    /// entries were computed against the old partition and keeping them
    /// would break cache transparency.
    pub fn push(&mut self, item: SornValue)
        requires
            old(self).sets@.len() < 128,
            val_wf(item),
        ensures
            final(self).sets@ == old(self).sets@.push(item),
            final(self).contains_inf == old(self).contains_inf,
            final(self).one_bit == old(self).one_bit,
            bin_memo_map(final(self).precomputed_add) == Map::<(u128, u128), u128>::empty(),
            bin_memo_map(final(self).precomputed_sub) == Map::<(u128, u128), u128>::empty(),
            bin_memo_map(final(self).precomputed_mul) == Map::<(u128, u128), u128>::empty(),
            bin_memo_map(final(self).precomputed_div) == Map::<(u128, u128), u128>::empty(),
            pow_memo_map(final(self).precomputed_pow) == Map::<(u128, i32), u128>::empty(),
            old(self).wf() ==> final(self).wf(),
    {
        self.sets.push(item);
        bin_memo_clear(&mut self.precomputed_add);
        bin_memo_clear(&mut self.precomputed_sub);
        bin_memo_clear(&mut self.precomputed_mul);
        bin_memo_clear(&mut self.precomputed_div);
        pow_memo_clear(&mut self.precomputed_pow);
    }

    pub fn get(&self, index: usize) -> (r: SornValue)
        requires
            index < self.sets@.len(),
        ensures
            r == self.sets@[index as int],
    {
        self.sets[index]
    }

    pub fn get_min_range(&self) -> (r: Option<SornValue>)
        ensures
            match r {
                Some(v) => self.sets@.len() > 0 && v == self.sets@[0],
                None => self.sets@.len() == 0,
            },
    {
        if self.len() == 0 {
            return None;
        }
        Some(self.sets[0])
    }

    pub fn get_max_range(&self) -> (r: Option<SornValue>)
        ensures
            match r {
                Some(v) => self.sets@.len() > 0 && v == self.sets@[self.sets@.len() - 1],
                None => self.sets@.len() == 0,
            },
    {
        if self.len() == 0 {
            return None;
        }
        Some(self.sets[self.len() - 1])
    }
}


/// Coefficients small enough that the grid-count formula stays exact in
/// 128-bit arithmetic.
pub open spec fn rat_small(a: Rat) -> bool {
    -0x7fff_ffff <= a.num <= 0x7fff_ffff && 1 <= a.den <= 0x7fff_ffff
}

/// How many whole steps fit between start and end: `(end - start) / step`,
/// rounded down.
pub open spec fn spec_grid_steps(start: Rat, end: Rat, step: Rat) -> int {
    ((end.num * start.den - start.num * end.den) * step.den) / (end.den * start.den * step.num)
}

/// The `i`-th grid vertex: `i * step + start`.
pub open spec fn spec_grid_point(start: Rat, step: Rat, i: int) -> Extended {
    spec_ext_add(
        spec_ext_mul(Extended::Fin(Rat { num: i as i64, den: 1 }), Extended::Fin(step)),
        Extended::Fin(start),
    )
}

/// The alternating exact-vertex / open-gap elements of the first `k`
/// steps.
pub open spec fn spec_grid_pairs(start: Rat, step: Rat, k: int) -> Seq<SornValue>
    decreases k,
{
    if k <= 0 {
        Seq::<SornValue>::empty()
    } else {
        let p = spec_grid_point(start, step, k - 1);
        spec_grid_pairs(start, step, k - 1) + seq![
            SornValue::Exact(p),
            SornValue::Open((p, spec_ext_add(p, Extended::Fin(step)))),
        ]
    }
}

/// The whole element list of a uniform grid: optionally the sentinel and
/// the lower tail, the vertex/gap pairs, the end vertex, and optionally
/// the upper tail.
pub open spec fn spec_grid_sets(start: Rat, end: Rat, step: Rat, has_inf: bool) -> Seq<
    SornValue,
> {
    let k = spec_grid_steps(start, end, step);
    let core = spec_grid_pairs(start, step, k) + seq![SornValue::Exact(Extended::Fin(end))];
    if has_inf {
        seq![
            SornValue::PlusMinusInf,
            SornValue::Open((Extended::NegInf, Extended::Fin(start))),
        ] + core + seq![SornValue::Open((Extended::Fin(end), Extended::PosInf))]
    } else {
        core
    }
}

impl SornSet {
    /// Builds the uniform grid partition over `[start, end]` with the
    /// given step, optionally carrying the infinity sentinel and the two
    /// unbounded tails; precomputes the mask of `Exact(1)`.
    pub fn new(start: Rat, end: Rat, step: Rat, has_inf: bool) -> (r: SornSet)
        requires
            rat_small(start),
            rat_small(end),
            rat_small(step),
            rat_lt(start, end),
            1 <= step.num,
            2 * spec_grid_steps(start, end, step) + (if has_inf { 4int } else { 1int }) <= 128,
        ensures
            r.sets@ == spec_grid_sets(start, end, step, has_inf),
            r.contains_inf == has_inf,
            r.one_bit == spec_classify(
                spec_grid_sets(start, end, step, has_inf),
                has_inf,
                SornValue::Exact(Extended::Fin(Rat { num: 1, den: 1 })),
            ),
            bin_memo_map(r.precomputed_add) == Map::<(u128, u128), u128>::empty(),
            bin_memo_map(r.precomputed_sub) == Map::<(u128, u128), u128>::empty(),
            bin_memo_map(r.precomputed_mul) == Map::<(u128, u128), u128>::empty(),
            bin_memo_map(r.precomputed_div) == Map::<(u128, u128), u128>::empty(),
            pow_memo_map(r.precomputed_pow) == Map::<(u128, i32), u128>::empty(),
            r.wf(),
            forall|i: int| 0 <= i < r.sets@.len() ==> val_selfeq(#[trigger] r.sets@[i]),
    {
        proof {
            lemma_grid_bounds(start, end, step);
        }
        let diff_hi = (end.num as i128) * (start.den as i128) - (start.num as i128) * (end.den
            as i128);
        let num_wide = diff_hi * (step.den as i128);
        let den_wide = (end.den as i128) * (start.den as i128) * (step.num as i128);
        let k = ((num_wide as u128) / (den_wide as u128)) as usize;
        proof {
            vstd::arithmetic::div_mod::lemma_div_pos_is_pos(num_wide as int, den_wide as int);
            vstd::arithmetic::div_mod::lemma_div_is_ordered_by_denominator(
                num_wide as int,
                1,
                den_wide as int,
            );
        }
        let mut sets: Vec<SornValue> = Vec::new();
        if has_inf {
            sets.push(SornValue::PlusMinusInf);
            sets.push(SornValue::Open((Extended::NegInf, Extended::Fin(start))));
        }
        let ghost pre = sets@;
        let mut i: usize = 0;
        proof {
            if has_inf {
                assert(2 * (k as int) + 4 <= 128);
            }
        }
        while i < k
            invariant
                0 <= i <= k <= 63,
                k == spec_grid_steps(start, end, step),
                rat_small(step),
                rat_small(start),
                rat_wf(start),
                rat_wf(step),
                sets@ == pre + spec_grid_pairs(start, step, i as int),
                forall|j: int| 0 <= j < sets@.len() ==> val_wf(#[trigger] sets@[j]),
                forall|j: int| 0 <= j < sets@.len() ==> val_selfeq(#[trigger] sets@[j]),
                pre.len() + 2 * i == sets@.len(),
            decreases k - i,
        {
            let idx = Extended::Fin(Rat { num: i as i64, den: 1 });
            let scaled = exec_ext_mul(&idx, &Extended::Fin(step));
            let first = exec_ext_add(&scaled, &Extended::Fin(start));
            let second = exec_ext_add(&first, &Extended::Fin(step));
            proof {
                lemma_fin_ops_not_nan(idx, Extended::Fin(step));
                lemma_fin_ops_not_nan(scaled, Extended::Fin(start));
                lemma_fin_ops_not_nan(first, Extended::Fin(step));
                lemma_fin_ops_not_nan(first, first);
                lemma_fin_ops_not_nan(second, second);
            }
            sets.push(SornValue::Exact(first));
            sets.push(SornValue::Open((first, second)));
            proof {
                assert(sets@ =~= pre + spec_grid_pairs(start, step, i + 1));
            }
            i = i + 1;
        }
        sets.push(SornValue::Exact(Extended::Fin(end)));
        if has_inf {
            sets.push(SornValue::Open((Extended::Fin(end), Extended::PosInf)));
        }
        proof {
            assert(sets@ =~= spec_grid_sets(start, end, step, has_inf));
        }
        let mut r = SornSet {
            precomputed_pow: pow_memo_new(),
            precomputed_add: bin_memo_new(),
            precomputed_sub: bin_memo_new(),
            precomputed_mul: bin_memo_new(),
            precomputed_div: bin_memo_new(),
            sets,
            contains_inf: has_inf,
            one_bit: 0,
        };
        let one_bit = Sorn::sorn_to_bits(&r, &SornValue::Exact(Extended::Fin(Rat { num: 1, den: 1 })));
        r.one_bit = one_bit;
        r
    }
}

/// The wide products in the grid-count formula stay far inside 128 bits,
/// and the count itself is nonnegative.
proof fn lemma_grid_bounds(start: Rat, end: Rat, step: Rat)
    by (nonlinear_arith)
    requires
        rat_small(start),
        rat_small(end),
        rat_small(step),
        rat_lt(start, end),
        1 <= step.num,
    ensures
        0 < end.num * start.den - start.num * end.den < 0x8000_0000_0000_0000,
        0 < (end.num * start.den - start.num * end.den) * step.den
            < 0x1_0000_0000_0000_0000_0000_0000,
        0 < end.den * start.den * step.num < 0x1_0000_0000_0000_0000_0000_0000,
        -0x4000_0000_0000_0000 < end.num * start.den < 0x4000_0000_0000_0000,
        -0x4000_0000_0000_0000 < start.num * end.den < 0x4000_0000_0000_0000,
        0 < end.den * start.den < 0x4000_0000_0000_0000,
{
}


// ------------------------------------------------------------------
// Textual partition descriptions.
// ------------------------------------------------------------------

pub open spec fn is_digit(b: u8) -> bool {
    48 <= b <= 57
}

/// Reads the digits of a decimal number between `i` and `to`,
/// accumulating numerator and denominator; fails on a stray byte, on a
/// second decimal point, on no digit at all, or when a coefficient
/// outgrows 63 bits.
pub open spec fn spec_scan_num(
    bs: Seq<u8>,
    to: int,
    i: int,
    num: int,
    den: int,
    dot: bool,
    seen: bool,
) -> Option<Rat>
    decreases to - i,
{
    if i < 0 || i >= to || to > bs.len() {
        if seen {
            Some(Rat { num: num as i64, den: den as i64 })
        } else {
            None
        }
    } else if is_digit(bs[i]) {
        let d = bs[i] - 48;
        if !dot {
            if num * 10 + d <= MAX_COEFF {
                spec_scan_num(bs, to, i + 1, num * 10 + d, den, dot, true)
            } else {
                None
            }
        } else {
            if num * 10 + d <= MAX_COEFF && den * 10 <= MAX_COEFF {
                spec_scan_num(bs, to, i + 1, num * 10 + d, den * 10, dot, true)
            } else {
                None
            }
        }
    } else if bs[i] == 46 && !dot {
        spec_scan_num(bs, to, i + 1, num, den, true, seen)
    } else {
        None
    }
}

/// A decimal number with an optional leading minus between `from` and
/// `to`.
pub open spec fn spec_parse_number(bs: Seq<u8>, from: int, to: int) -> Option<Rat> {
    if from < to && bs[from] == 45 {
        match spec_scan_num(bs, to, from + 1, 0, 1, false, false) {
            Some(r) => Some(Rat { num: (-(r.num as int)) as i64, den: r.den }),
            None => None,
        }
    } else {
        spec_scan_num(bs, to, from, 0, 1, false, false)
    }
}

/// The first comma at or after `i`, or -1.
pub open spec fn spec_find_comma(bs: Seq<u8>, i: int, to: int) -> int
    decreases to - i,
{
    if i < 0 || i >= to || to > bs.len() {
        -1
    } else if bs[i] == 44 {
        i
    } else {
        spec_find_comma(bs, i + 1, to)
    }
}

/// One token: `[x]` for a point, `(a,b)`, `[a,b)` or `(a,b]` for an
/// interval.
pub open spec fn spec_parse_token(bs: Seq<u8>, from: int, to: int) -> Option<SornValue> {
    if to - from < 2 || from < 0 || to > bs.len() {
        None
    } else {
        let p = spec_find_comma(bs, from, to);
        if p < 0 {
            if bs[from] == 91 && bs[to - 1] == 93 {
                match spec_parse_number(bs, from + 1, to - 1) {
                    Some(r) => Some(SornValue::Exact(Extended::Fin(r))),
                    None => None,
                }
            } else {
                None
            }
        } else if spec_find_comma(bs, p + 1, to) >= 0 || p < from + 2 || p > to - 3 {
            None
        } else {
            let a = spec_parse_number(bs, from + 1, p);
            let b = spec_parse_number(bs, p + 1, to - 1);
            match (a, b) {
                (Some(x), Some(y)) => {
                    let lo = Extended::Fin(x);
                    let hi = Extended::Fin(y);
                    if bs[from] == 40 && bs[to - 1] == 41 {
                        Some(SornValue::Open((lo, hi)))
                    } else if bs[from] == 91 && bs[to - 1] == 41 {
                        Some(SornValue::OpenRight((lo, hi)))
                    } else if bs[from] == 40 && bs[to - 1] == 93 {
                        Some(SornValue::OpenLeft((lo, hi)))
                    } else {
                        None
                    }
                },
                _ => None,
            }
        }
    }
}

/// Semicolon-separated tokens from `start`, the scan standing at `i`.
pub open spec fn spec_parse_tokens(bs: Seq<u8>, start: int, i: int) -> Option<Seq<SornValue>>
    decreases bs.len() - i,
{
    if i < start || i > bs.len() || start < 0 {
        None
    } else if i == bs.len() {
        match spec_parse_token(bs, start, i) {
            Some(v) => Some(seq![v]),
            None => None,
        }
    } else if bs[i] == 59 {
        match spec_parse_token(bs, start, i) {
            Some(v) => match spec_parse_tokens(bs, i + 1, i + 1) {
                Some(vs) => Some(seq![v] + vs),
                None => None,
            },
            None => None,
        }
    } else {
        spec_parse_tokens(bs, start, i + 1)
    }
}

/// What a textual description denotes, if it is well formed.
pub open spec fn spec_from_string(bs: Seq<u8>) -> Option<Seq<SornValue>> {
    spec_parse_tokens(bs, 0, 0)
}

fn exec_scan_num(bs: &[u8], to: usize, i: usize, num: i64, den: i64, dot: bool, seen: bool) -> (r:
    Option<Rat>)
    requires
        i <= to <= bs@.len(),
        0 <= num <= MAX_COEFF,
        1 <= den <= MAX_COEFF,
    ensures
        r == spec_scan_num(bs@, to as int, i as int, num as int, den as int, dot, seen),
        r matches Some(x) ==> 0 <= x.num <= MAX_COEFF && 1 <= x.den <= MAX_COEFF,
    decreases to - i,
{
    if i >= to {
        if seen {
            Some(Rat { num, den })
        } else {
            None
        }
    } else {
        let b = bs[i];
        if 48 <= b && b <= 57 {
            let d = (b - 48) as i64;
            let num_wide = (num as i128) * 10 + (d as i128);
            if !dot {
                if num_wide <= MAX_COEFF as i128 {
                    exec_scan_num(bs, to, i + 1, num_wide as i64, den, dot, true)
                } else {
                    None
                }
            } else {
                let den_wide = (den as i128) * 10;
                if num_wide <= MAX_COEFF as i128 && den_wide <= MAX_COEFF as i128 {
                    exec_scan_num(bs, to, i + 1, num_wide as i64, den_wide as i64, dot, true)
                } else {
                    None
                }
            }
        } else if b == 46 && !dot {
            exec_scan_num(bs, to, i + 1, num, den, true, seen)
        } else {
            None
        }
    }
}

fn exec_parse_number(bs: &[u8], from: usize, to: usize) -> (r: Option<Rat>)
    requires
        from <= to <= bs@.len(),
    ensures
        r == spec_parse_number(bs@, from as int, to as int),
        r matches Some(x) ==> rat_wf(x),
{
    if from < to && bs[from] == 45 {
        match exec_scan_num(bs, to, from + 1, 0, 1, false, false) {
            Some(r) => Some(Rat { num: -r.num, den: r.den }),
            None => None,
        }
    } else {
        exec_scan_num(bs, to, from, 0, 1, false, false)
    }
}

fn exec_find_comma(bs: &[u8], i: usize, to: usize) -> (r: Option<usize>)
    requires
        i <= to <= bs@.len(),
    ensures
        match r {
            Some(p) => i <= p < to && spec_find_comma(bs@, i as int, to as int) == p,
            None => spec_find_comma(bs@, i as int, to as int) == -1,
        },
    decreases to - i,
{
    if i >= to {
        None
    } else if bs[i] == 44 {
        Some(i)
    } else {
        exec_find_comma(bs, i + 1, to)
    }
}

fn exec_parse_token(bs: &[u8], from: usize, to: usize) -> (r: Option<SornValue>)
    requires
        from <= to <= bs@.len(),
    ensures
        r == spec_parse_token(bs@, from as int, to as int),
        r matches Some(v) ==> val_wf(v) && val_selfeq(v),
{
    if to - from < 2 {
        None
    } else {
        let p = exec_find_comma(bs, from, to);
        match p {
            None => {
                if bs[from] == 91 && bs[to - 1] == 93 {
                    match exec_parse_number(bs, from + 1, to - 1) {
                        Some(r) => Some(SornValue::Exact(Extended::Fin(r))),
                        None => None,
                    }
                } else {
                    None
                }
            },
            Some(p) => {
                let second = exec_find_comma(bs, p + 1, to);
                if second.is_some() || p < from + 2 || to - p < 3 {
                    None
                } else {
                    let a = exec_parse_number(bs, from + 1, p);
                    let b = exec_parse_number(bs, p + 1, to - 1);
                    match (a, b) {
                        (Some(x), Some(y)) => {
                            let lo = Extended::Fin(x);
                            let hi = Extended::Fin(y);
                            if bs[from] == 40 && bs[to - 1] == 41 {
                                Some(SornValue::Open((lo, hi)))
                            } else if bs[from] == 91 && bs[to - 1] == 41 {
                                Some(SornValue::OpenRight((lo, hi)))
                            } else if bs[from] == 40 && bs[to - 1] == 93 {
                                Some(SornValue::OpenLeft((lo, hi)))
                            } else {
                                None
                            }
                        },
                        _ => None,
                    }
                }
            },
        }
    }
}

fn exec_parse_tokens(bs: &[u8], start: usize, i: usize) -> (r: Option<Vec<SornValue>>)
    requires
        start <= i <= bs@.len(),
    ensures
        (r is Some) == (spec_parse_tokens(bs@, start as int, i as int) is Some),
        r matches Some(v) ==> v@ == spec_parse_tokens(bs@, start as int, i as int).unwrap() && (
        forall|k: int| 0 <= k < v@.len() ==> val_wf(#[trigger] v@[k]) && val_selfeq(v@[k])),
    decreases bs@.len() - i,
{
    if i == bs.len() {
        match exec_parse_token(bs, start, i) {
            Some(v) => {
                let mut out: Vec<SornValue> = Vec::new();
                out.push(v);
                proof {
                    assert(out@ =~= seq![v]);
                }
                Some(out)
            },
            None => None,
        }
    } else if bs[i] == 59 {
        match exec_parse_token(bs, start, i) {
            Some(v) => match exec_parse_tokens(bs, i + 1, i + 1) {
                Some(rest) => {
                    let mut out: Vec<SornValue> = Vec::new();
                    out.push(v);
                    let mut k: usize = 0;
                    while k < rest.len()
                        invariant
                            0 <= k <= rest@.len(),
                            out@ == seq![v] + rest@.subrange(0, k as int),
                        decreases rest@.len() - k,
                    {
                        out.push(rest[k]);
                        proof {
                            assert(out@ =~= seq![v] + rest@.subrange(0, k + 1));
                        }
                        k = k + 1;
                    }
                    proof {
                        assert(out@ =~= seq![v] + rest@);
                    }
                    Some(out)
                },
                None => None,
            },
            None => None,
        }
    } else {
        exec_parse_tokens(bs, start, i + 1)
    }
}

impl SornSet {
    /// Builds a partition from a textual description: semicolon-separated
    /// tokens `[x]`, `(a,b)`, `[a,b)` and `(a,b]`. A number is an optional
    /// minus, digits, and at most one decimal point, with coefficients
    /// within 63 bits; exponent notation is not accepted. The description
    /// must be well formed and name at most 128 elements; `one_bit` is
    /// populated by classifying `Exact(1)`.
    pub fn from_string(string: &str) -> (r: SornSet)
        requires
            spec_from_string(string.spec_bytes()) is Some,
            spec_from_string(string.spec_bytes()).unwrap().len() <= 128,
        ensures
            r.sets@ == spec_from_string(string.spec_bytes()).unwrap(),
            !r.contains_inf,
            r.one_bit == spec_classify(
                spec_from_string(string.spec_bytes()).unwrap(),
                false,
                SornValue::Exact(Extended::Fin(Rat { num: 1, den: 1 })),
            ),
            bin_memo_map(r.precomputed_add) == Map::<(u128, u128), u128>::empty(),
            bin_memo_map(r.precomputed_sub) == Map::<(u128, u128), u128>::empty(),
            bin_memo_map(r.precomputed_mul) == Map::<(u128, u128), u128>::empty(),
            bin_memo_map(r.precomputed_div) == Map::<(u128, u128), u128>::empty(),
            pow_memo_map(r.precomputed_pow) == Map::<(u128, i32), u128>::empty(),
            r.wf(),
            forall|i: int| 0 <= i < r.sets@.len() ==> val_selfeq(#[trigger] r.sets@[i]),
    {
        let bs = string.as_bytes();
        let vals = exec_parse_tokens(bs, 0, 0).unwrap();
        let mut r = SornSet {
            precomputed_pow: pow_memo_new(),
            precomputed_add: bin_memo_new(),
            precomputed_sub: bin_memo_new(),
            precomputed_mul: bin_memo_new(),
            precomputed_div: bin_memo_new(),
            sets: vals,
            contains_inf: false,
            one_bit: 0,
        };
        let one_bit = Sorn::sorn_to_bits(&r, &SornValue::Exact(Extended::Fin(Rat { num: 1, den: 1 })));
        r.one_bit = one_bit;
        r
    }
}


// ------------------------------------------------------------------
// Selecting the elements a value reaches across.
// ------------------------------------------------------------------

/// The filter `get_sets_between` applies: intervals by strict overlap,
/// points by inclusive bounds, the sentinel only against itself.
pub open spec fn spec_between_cond(range: SornValue, item: SornValue, inf: bool) -> bool {
    ||| (val_is_interval(range) && val_is_interval(item) && ext_lt(val_min(range), val_max(item))
        && ext_lt(val_min(item), val_max(range)))
    ||| (val_is_interval(range) && item is Exact && ext_le(val_min(range), val_min(item))
        && ext_le(val_min(item), val_max(range)))
    ||| (item is PlusMinusInf && range is PlusMinusInf && inf)
}

/// The elements passing the filter, in order.
pub open spec fn spec_between(sets: Seq<SornValue>, inf: bool, range: SornValue) -> Seq<SornValue>
    decreases sets.len(),
{
    if sets.len() == 0 {
        Seq::<SornValue>::empty()
    } else if spec_between_cond(range, sets.last(), inf) {
        spec_between(sets.drop_last(), inf, range).push(sets.last())
    } else {
        spec_between(sets.drop_last(), inf, range)
    }
}

fn exec_between_cond(range: &SornValue, item: &SornValue, inf: bool) -> (r: bool)
    ensures
        r == spec_between_cond(*range, *item, inf),
{
    let rmin = range.min();
    let rmax = range.max();
    let imin = item.min();
    (range.is_interval() && item.is_interval() && exec_ext_lt(&rmin, &item.max()) && exec_ext_lt(
        &imin,
        &rmax,
    )) || (range.is_interval() && item.is_exact() && exec_ext_le(&rmin, &imin) && exec_ext_le(
        &imin,
        &rmax,
    )) || (item.is_pminf() && range.is_pminf() && inf)
}

impl SornSet {
    /// The partition elements the given value reaches across, as a bare
    /// set carrier.
    pub fn get_sets_between(&self, range: SornValue) -> (r: SornSet)
        requires
            self.sets@.len() <= 128,
            sets_wf(self.sets@),
        ensures
            r.sets@ == spec_between(self.sets@, self.contains_inf, range),
            !r.contains_inf,
            r.one_bit == 0,
            r.wf(),
    {
        let mut result = SornSet::default();
        let n = self.sets.len();
        let mut i: usize = 0;
        proof {
            lemma_between_len(self.sets@.subrange(0, 0), self.contains_inf, range);
        }
        while i < n
            invariant
                0 <= i <= n,
                n == self.sets@.len() <= 128,
                sets_wf(self.sets@),
                result.sets@ == spec_between(
                    self.sets@.subrange(0, i as int),
                    self.contains_inf,
                    range,
                ),
                result.sets@.len() <= i,
                !result.contains_inf,
                result.one_bit == 0,
                result.wf(),
            decreases n - i,
        {
            proof {
                assert(self.sets@.subrange(0, i + 1).drop_last() =~= self.sets@.subrange(
                    0,
                    i as int,
                ));
                assert(self.sets@.subrange(0, i + 1).last() == self.sets@[i as int]);
            }
            if exec_between_cond(&range, &self.sets[i], self.contains_inf) {
                result.push(self.sets[i]);
            }
            i = i + 1;
        }
        proof {
            assert(self.sets@.subrange(0, n as int) =~= self.sets@);
        }
        result
    }
}

proof fn lemma_between_len(sets: Seq<SornValue>, inf: bool, range: SornValue)
    ensures
        spec_between(sets, inf, range).len() <= sets.len(),
    decreases sets.len(),
{
    if sets.len() > 0 {
        lemma_between_len(sets.drop_last(), inf, range);
    }
}

} // verus!

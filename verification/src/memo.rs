use vstd::prelude::*;

verus! {

/// Memo table for the binary mask operations, keyed by the ordered pair of
/// operand bit patterns. The table itself is a hash map from the `fxhash`
/// crate (a `std` `HashMap` with the deterministic Fx hasher); Verus sees it
/// only through `bin_memo_map` and the wrappers below.
#[verifier::external_body]
pub struct BinMemo {
    inner: fxhash::FxHashMap<(u128, u128), u128>,
}

/// The entries the table holds.
pub uninterp spec fn bin_memo_map(m: BinMemo) -> Map<(u128, u128), u128>;

/// The table holds nothing.
pub open spec fn bin_memo_empty(m: BinMemo) -> bool {
    bin_memo_map(m) == Map::<(u128, u128), u128>::empty()
}

/// Relies on `FxHashMap::default`: a fresh map holds nothing.
#[verifier::external_body]
pub fn bin_memo_new() -> (r: BinMemo)
    ensures
        bin_memo_empty(r),
{
    BinMemo { inner: fxhash::FxHashMap::default() }
}

/// Relies on `HashMap::get`: returns the value stored under the key, if any.
#[verifier::external_body]
pub fn bin_memo_get(m: &BinMemo, a: u128, b: u128) -> (r: Option<u128>)
    ensures
        match r {
            Some(v) => bin_memo_map(*m).contains_key((a, b)) && bin_memo_map(*m)[(a, b)] == v,
            None => !bin_memo_map(*m).contains_key((a, b)),
        },
{
    m.inner.get(&(a, b)).copied()
}

/// Relies on `HashMap::contains_key`.
#[verifier::external_body]
pub fn bin_memo_contains(m: &BinMemo, a: u128, b: u128) -> (r: bool)
    ensures
        r == bin_memo_map(*m).contains_key((a, b)),
{
    m.inner.contains_key(&(a, b))
}

/// Relies on `HashMap::insert`: stores the value under the key, replacing
/// any earlier entry.
#[verifier::external_body]
pub fn bin_memo_insert(m: &mut BinMemo, a: u128, b: u128, v: u128)
    ensures
        bin_memo_map(*final(m)) == bin_memo_map(*old(m)).insert((a, b), v),
{
    m.inner.insert((a, b), v);
}

/// Relies on `HashMap::clear`: empties the table.
#[verifier::external_body]
pub fn bin_memo_clear(m: &mut BinMemo)
    ensures
        bin_memo_empty(*final(m)),
{
    m.inner.clear();
}

/// Relies on `HashMap::clone`: the copy holds the same entries.
#[verifier::external_body]
pub fn bin_memo_clone(m: &BinMemo) -> (r: BinMemo)
    ensures
        bin_memo_map(r) == bin_memo_map(*m),
{
    BinMemo { inner: m.inner.clone() }
}

/// Memo table for the integer-power operation, keyed by the operand bit
/// pattern together with the exponent.
#[verifier::external_body]
pub struct PowMemo {
    inner: fxhash::FxHashMap<(u128, i32), u128>,
}

/// The entries the table holds.
pub uninterp spec fn pow_memo_map(m: PowMemo) -> Map<(u128, i32), u128>;

/// The table holds nothing.
pub open spec fn pow_memo_empty(m: PowMemo) -> bool {
    pow_memo_map(m) == Map::<(u128, i32), u128>::empty()
}

/// Relies on `FxHashMap::default`: a fresh map holds nothing.
#[verifier::external_body]
pub fn pow_memo_new() -> (r: PowMemo)
    ensures
        pow_memo_empty(r),
{
    PowMemo { inner: fxhash::FxHashMap::default() }
}

/// Relies on `HashMap::get`: returns the value stored under the key, if any.
#[verifier::external_body]
pub fn pow_memo_get(m: &PowMemo, bits: u128, e: i32) -> (r: Option<u128>)
    ensures
        match r {
            Some(v) => pow_memo_map(*m).contains_key((bits, e)) && pow_memo_map(*m)[(bits, e)]
                == v,
            None => !pow_memo_map(*m).contains_key((bits, e)),
        },
{
    m.inner.get(&(bits, e)).copied()
}

/// Relies on `HashMap::insert`: stores the value under the key, replacing
/// any earlier entry.
#[verifier::external_body]
pub fn pow_memo_insert(m: &mut PowMemo, bits: u128, e: i32, v: u128)
    ensures
        pow_memo_map(*final(m)) == pow_memo_map(*old(m)).insert((bits, e), v),
{
    m.inner.insert((bits, e), v);
}

/// Relies on `HashMap::clear`: empties the table.
#[verifier::external_body]
pub fn pow_memo_clear(m: &mut PowMemo)
    ensures
        pow_memo_empty(*final(m)),
{
    m.inner.clear();
}

/// Relies on `HashMap::clone`: the copy holds the same entries.
#[verifier::external_body]
pub fn pow_memo_clone(m: &PowMemo) -> (r: PowMemo)
    ensures
        pow_memo_map(r) == pow_memo_map(*m),
{
    PowMemo { inner: m.inner.clone() }
}

} // verus!

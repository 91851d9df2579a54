//! A map from ranges of timeline indices to event IDs, kept by `rangemap`.

use vstd::prelude::*;
use std::ops::Range;
use rangemap::RangeMap;

verus! {

#[verifier::external_type_specification]
#[verifier::external_body]
#[verifier::reject_recursive_types(K)]
#[verifier::reject_recursive_types(V)]
pub struct ExRangeMap<K, V>(RangeMap<K, V>);

/// A range map from timeline indices to event IDs.
pub type IndexRangeMap = RangeMap<usize, String>;

/// What a range map holds: the value of each covered index.
pub uninterp spec fn range_map_contents(m: IndexRangeMap) -> Map<usize, Seq<char>>;

/// `contents` with every index of `range` mapped to `value`.
pub open spec fn with_range(contents: Map<usize, Seq<char>>, range: Range<usize>, value: Seq<char>) -> Map<usize, Seq<char>> {
    contents.union_prefer_right(Map::new(|k: usize| range.start <= k < range.end, |k: usize| value))
}

/// Whether `range` is a maximal run of indices that `contents` maps to `value`.
pub open spec fn is_maximal_run(contents: Map<usize, Seq<char>>, range: Range<usize>, value: Seq<char>) -> bool {
    &&& range.start < range.end
    &&& forall|k: usize| range.start <= k < range.end ==> #[trigger] contents.contains_key(k) && contents[k] == value
    &&& range.start > 0 ==> !(contents.contains_key((range.start - 1) as usize) && contents[(range.start - 1) as usize] == value)
    &&& !(contents.contains_key(range.end) && contents[range.end] == value)
}

/// `RangeMap::new`: an empty map.
#[verifier::external_body]
pub(crate) fn range_map_new() -> (m: IndexRangeMap)
    ensures
        range_map_contents(m) =~= Map::empty(),
{
    RangeMap::new()
}

/// `RangeMap::clear`: removes every range.
#[verifier::external_body]
pub(crate) fn range_map_clear(m: &mut IndexRangeMap)
    ensures
        range_map_contents(*final(m)) =~= Map::empty(),
{
    m.clear();
}

/// `RangeMap::insert`: maps every index of the (non-empty) range to the value,
/// replacing what those indices held and keeping every other index.
#[verifier::external_body]
pub(crate) fn range_map_insert(m: &mut IndexRangeMap, range: Range<usize>, value: String)
    requires
        range.start < range.end,
    ensures
        range_map_contents(*final(m)) == with_range(range_map_contents(*old(m)), range, value@),
{
    m.insert(range, value);
}

/// `RangeMap::get_key_value`, with the range and value copied out: the stored
/// range that covers the key, with its value. Since `rangemap` coalesces adjacent
/// ranges with equal values, a stored range is a maximal run of equal values.
#[verifier::external_body]
pub(crate) fn range_map_get_key_value(m: &IndexRangeMap, key: usize) -> (r: Option<(Range<usize>, String)>)
    ensures
        r is Some <==> range_map_contents(*m).contains_key(key),
        r matches Some(p) ==> p.1@ == range_map_contents(*m)[key] && p.0.start <= key < p.0.end
            && is_maximal_run(range_map_contents(*m), p.0, p.1@),
{
    m.get_key_value(&key).map(|(range, value)| (range.clone(), value.clone()))
}

} // verus!

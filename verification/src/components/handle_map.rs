use vstd::prelude::*;

verus! {

/// `bimap::BiHashMap`, a map that is unique in both directions. Here it pairs
/// block ids with the handles of the interface elements that show them.
#[verifier::external_type_specification]
#[verifier::external_body]
#[verifier::reject_recursive_types(L)]
#[verifier::reject_recursive_types(R)]
#[verifier::reject_recursive_types(LS)]
#[verifier::reject_recursive_types(RS)]
pub struct ExBiHashMap<L, R, LS, RS>(bimap::BiHashMap<L, R, LS, RS>);

/// The map from block ids to handles.
pub type HandleMap = bimap::BiHashMap<u128, u64>;

/// The pairs that the map holds, as a map from the left value of each pair
/// to its right value.
pub uninterp spec fn bimap_pairs(m: bimap::BiHashMap<u128, u64>) -> Map<u128, u64>;

/// What a call of `insert` pushed out of the map.
#[derive(Clone, Copy, Debug, PartialEq, Eq)]
pub enum Overwritten {
    /// Neither value was in the map.
    Neither,
    /// The left value was in the map, paired with another right value.
    Left(u128, u64),
    /// The right value was in the map, paired with another left value.
    Right(u128, u64),
    /// The very pair was in the map.
    Pair(u128, u64),
    /// Both values were in the map, in two pairs: that of the left value, and
    /// that of the right value.
    Both((u128, u64), (u128, u64)),
}

/// No pairs.
pub open spec fn empty_pairs() -> Map<u128, u64> {
    Map::empty()
}

/// Whether some pair of the map has this right value.
pub open spec fn has_right(pairs: Map<u128, u64>, right: u64) -> bool {
    exists|k: u128| pairs.dom().contains(k) && #[trigger] pairs[k] == right
}

/// Whether no two left values share a right value.
pub open spec fn one_to_one(pairs: Map<u128, u64>) -> bool {
    forall|a: u128, b: u128|
        pairs.dom().contains(a) && pairs.dom().contains(b) && #[trigger] pairs[a] == #[trigger] pairs[b] ==> a == b
}

/// The pairs without those that have this right value.
pub open spec fn without_right(pairs: Map<u128, u64>, right: u64) -> Map<u128, u64> {
    Map::new(|k: u128| pairs.dom().contains(k) && pairs[k] != right, |k: u128| pairs[k])
}

/// The pairs after `left` and `right` have been paired: each leaves the pair
/// it was in before.
pub open spec fn paired(pairs: Map<u128, u64>, left: u128, right: u64) -> Map<u128, u64> {
    without_right(pairs, right).insert(left, right)
}

/// `BiHashMap::new`. Trusted: the new map holds no pair.
#[verifier::external_body]
pub(crate) fn handle_map_new() -> (map: HandleMap)
    ensures
        bimap_pairs(map) == empty_pairs(),
{
    bimap::BiHashMap::new()
}

/// `BiHashMap::insert`. Trusted: the pair of the left value and the pair of
/// the right value leave the map, then the new pair enters it; the result
/// names the pairs that left, the left value's first.
#[verifier::external_body]
pub(crate) fn handle_map_insert(m: &mut HandleMap, left: u128, right: u64) -> (r: Overwritten)
    ensures
        bimap_pairs(*final(m)) == paired(bimap_pairs(*old(m)), left, right),
        match r {
            Overwritten::Neither => !bimap_pairs(*old(m)).dom().contains(left) && !has_right(
                bimap_pairs(*old(m)),
                right,
            ),
            Overwritten::Left(l, r0) => l == left && bimap_pairs(*old(m)).contains_pair(left, r0) && r0 != right
                && !has_right(bimap_pairs(*old(m)), right),
            Overwritten::Right(k, r0) => !bimap_pairs(*old(m)).dom().contains(left) && r0 == right && bimap_pairs(
                *old(m),
            ).contains_pair(k, right),
            Overwritten::Pair(l, r0) => l == left && r0 == right && bimap_pairs(*old(m)).contains_pair(left, right),
            Overwritten::Both((l, r0), (k, r1)) => l == left && bimap_pairs(*old(m)).contains_pair(left, r0) && k
                != left && r1 == right && bimap_pairs(*old(m)).contains_pair(k, right),
        },
{
    match m.insert(left, right) {
        bimap::Overwritten::Neither => Overwritten::Neither,
        bimap::Overwritten::Left(l, r) => Overwritten::Left(l, r),
        bimap::Overwritten::Right(l, r) => Overwritten::Right(l, r),
        bimap::Overwritten::Pair(l, r) => Overwritten::Pair(l, r),
        bimap::Overwritten::Both(a, b) => Overwritten::Both(a, b),
    }
}

/// `BiHashMap::get_by_left`. Trusted: the right value paired with `left`,
/// if `left` is in the map.
#[verifier::external_body]
pub(crate) fn handle_map_get_by_left(m: &HandleMap, left: u128) -> (r: Option<u64>)
    ensures
        match r {
            Some(right) => bimap_pairs(*m).contains_pair(left, right),
            None => !bimap_pairs(*m).dom().contains(left),
        },
{
    m.get_by_left(&left).copied()
}

/// `BiHashMap::get_by_right`. Trusted: a left value paired with `right`, if
/// any pair has `right`.
#[verifier::external_body]
pub(crate) fn handle_map_get_by_right(m: &HandleMap, right: u64) -> (r: Option<u128>)
    ensures
        match r {
            Some(left) => bimap_pairs(*m).contains_pair(left, right),
            None => !has_right(bimap_pairs(*m), right),
        },
{
    m.get_by_right(&right).copied()
}

/// `BiHashMap::remove_by_right`. Trusted: the pairs with this right value
/// leave the map; the result is such a pair, if there was one.
#[verifier::external_body]
pub(crate) fn handle_map_remove_by_right(m: &mut HandleMap, right: u64) -> (r: Option<(u128, u64)>)
    ensures
        bimap_pairs(*final(m)) == without_right(bimap_pairs(*old(m)), right),
        match r {
            Some((left, r0)) => r0 == right && bimap_pairs(*old(m)).contains_pair(left, right),
            None => !has_right(bimap_pairs(*old(m)), right),
        },
{
    m.remove_by_right(&right)
}

/// `BiHashMap::right_values`, collected. Trusted: every right value of the
/// map occurs in the result, once, and nothing else does; the order is the
/// map's own and is not known.
#[verifier::external_body]
pub(crate) fn handle_map_right_values(m: &HandleMap) -> (r: Vec<u64>)
    ensures
        forall|h: u64| r@.contains(h) <==> has_right(bimap_pairs(*m), h),
        r@.no_duplicates(),
{
    m.right_values().copied().collect()
}

} // verus!

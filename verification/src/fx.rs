//! Hashed collections of `fxhash`, as far as the library uses them: a set
//! of texts, and a map from pairs of texts to lists of positions.
//!
//! Nothing here is proved. Each function hands its arguments to the
//! collection, and what is said of it is what a hash set and a hash map
//! do.

use fxhash::{FxHashMap, FxHashSet};
use vstd::prelude::*;

verus! {

/// The hasher of `fxhash`.
#[verifier::external_type_specification]
#[verifier::external_body]
pub struct ExFxHasher(fxhash::FxHasher);

/// The hasher builder of std that `fxhash` uses for its collections.
#[verifier::external_type_specification]
#[verifier::external_body]
#[verifier::reject_recursive_types(H)]
pub struct ExBuildHasherDefault<H>(core::hash::BuildHasherDefault<H>);

/// A set of texts.
pub type TextSet = FxHashSet<String>;

/// A map from pairs of texts to lists of positions.
pub type PairIndex = FxHashMap<(String, String), Vec<usize>>;

/// The texts that a set holds.
pub uninterp spec fn set_texts(set: TextSet) -> Set<Seq<char>>;

/// The lists that a map holds, by the pair of texts they are kept under.
pub uninterp spec fn map_lists(map: PairIndex) -> Map<
    (Seq<char>, Seq<char>),
    Seq<usize>,
>;

/// No lists at all.
pub open spec fn no_lists() -> Map<(Seq<char>, Seq<char>), Seq<usize>> {
    Map::empty()
}

/// `FxHashSet::default`: a set that holds nothing.
#[verifier::external_body]
pub(crate) fn set_new() -> (set: TextSet)
    ensures
        set_texts(set) == Set::<Seq<char>>::empty(),
{
    TextSet::default()
}

/// `HashSet::contains`: whether the set holds a string with the text of
/// `text`.
#[verifier::external_body]
pub(crate) fn set_contains(set: &TextSet, text: &str) -> (r: bool)
    ensures
        r == set_texts(*set).contains(text@),
{
    set.contains(text)
}

/// `HashSet::insert`: afterwards the set holds the text of `text` besides
/// what it held.
#[verifier::external_body]
pub(crate) fn set_insert(set: &mut TextSet, text: String)
    ensures
        set_texts(*final(set)) == set_texts(*old(set)).insert(text@),
{
    set.insert(text);
}

/// `FxHashMap::default`: a map that holds nothing.
#[verifier::external_body]
pub(crate) fn map_new() -> (map: PairIndex)
    ensures
        map_lists(map) == no_lists(),
{
    PairIndex::default()
}

/// `HashMap::get`: the list kept under the pair of the two texts, if
/// there is one.
#[verifier::external_body]
pub(crate) fn map_get<'a>(
    map: &'a PairIndex,
    first: &str,
    second: &str,
) -> (r: Option<&'a Vec<usize>>)
    ensures
        match r {
            Some(list) => map_lists(*map).dom().contains((first@, second@)) && list@ == map_lists(
                *map,
            )[(first@, second@)],
            None => !map_lists(*map).dom().contains((first@, second@)),
        },
{
    map.get(&(first.to_owned(), second.to_owned()))
}

/// `HashMap::remove`: takes out the list kept under the pair of the two
/// texts, if there is one, and returns it.
#[verifier::external_body]
pub(crate) fn map_remove(
    map: &mut PairIndex,
    first: &str,
    second: &str,
) -> (r: Option<Vec<usize>>)
    ensures
        map_lists(*final(map)) == map_lists(*old(map)).remove((first@, second@)),
        match r {
            Some(list) => map_lists(*old(map)).dom().contains((first@, second@)) && list@ == map_lists(
                *old(map),
            )[(first@, second@)],
            None => !map_lists(*old(map)).dom().contains((first@, second@)),
        },
{
    map.remove(&(first.to_owned(), second.to_owned()))
}

/// `HashMap::insert`: afterwards the map keeps `list` under the pair of
/// the two texts, in place of what it kept there.
#[verifier::external_body]
pub(crate) fn map_insert(
    map: &mut PairIndex,
    first: String,
    second: String,
    list: Vec<usize>,
)
    ensures
        map_lists(*final(map)) == map_lists(*old(map)).insert((first@, second@), list@),
{
    map.insert((first, second), list);
}

} // verus!

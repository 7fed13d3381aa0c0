//! The outside engines that a compiled pattern set rests on: the regular
//! expressions of the `regex` crate and the index map of the `vec_map`
//! crate. Nothing here is proved; each contract says what the crate's
//! source and documentation show.

use crate::pattern_set::PatternToken;
use regex::{Regex, RegexSet};
use vec_map::VecMap;
use vstd::prelude::*;

verus! {

/// `regex::Regex`, a compiled expression. Its inside is not modelled.
#[verifier::external_type_specification]
#[verifier::external_body]
pub struct ExRegex(regex::Regex);

/// `regex::RegexSet`, expressions compiled into one matcher. Its inside is
/// not modelled.
#[verifier::external_type_specification]
#[verifier::external_body]
pub struct ExRegexSet(regex::RegexSet);

/// `regex::Error`, why an expression was not compiled. Its inside is not
/// modelled.
#[verifier::external_type_specification]
#[verifier::external_body]
pub struct ExRegexError(regex::Error);

/// `vec_map::VecMap`, a map from small integers to values. Its inside is
/// not modelled.
#[verifier::external_type_specification]
#[verifier::external_body]
#[verifier::reject_recursive_types(V)]
pub struct ExVecMap<V>(vec_map::VecMap<V>);

/// The expression that `regex` was compiled from, as `Regex::as_str` gives it.
pub uninterp spec fn regex_source(regex: Regex) -> Seq<char>;

/// The expressions that `set` was compiled from, in the order in which they
/// were given, as `RegexSet::patterns` gives them.
pub uninterp spec fn regex_set_sources(set: RegexSet) -> Seq<Seq<char>>;

/// Whether `Regex::new` compiles `expression`.
pub uninterp spec fn regex_accepts(expression: Seq<char>) -> bool;

/// Whether `RegexSet::new` compiles `expressions`.
pub uninterp spec fn regex_set_accepts(expressions: Seq<Seq<char>>) -> bool;

/// The indices of those of `expressions` that match in `haystack`, in
/// ascending order, as a set compiled from them reports them.
pub uninterp spec fn matching(expressions: Seq<Seq<char>>, haystack: Seq<char>) -> Seq<usize>;

/// The groups of the leftmost match of `expression` in `haystack`, from
/// group 1 on, or `None` where there is no match. A group that took no part
/// in the match is `None`.
pub uninterp spec fn capture_groups(expression: Seq<char>, haystack: Seq<char>) -> Option<
    Seq<Option<Seq<char>>>,
>;

/// The values that `map` holds, by key.
pub uninterp spec fn slots(map: VecMap<PatternToken>) -> Map<usize, PatternToken>;

/// The model of a list of expressions.
pub open spec fn texts(expressions: Seq<String>) -> Seq<Seq<char>> {
    expressions.map_values(|e: String| e@)
}

/// The model of the groups of a match.
pub open spec fn groups_view(groups: Option<Vec<Option<String>>>) -> Option<
    Seq<Option<Seq<char>>>,
> {
    match groups {
        Some(list) => Some(
            list@.map_values(
                |g: Option<String>|
                    match g {
                        Some(text) => Some(text@),
                        None => None,
                    },
            ),
        ),
        None => None,
    }
}

/// Calls `Regex::new`. Whether it succeeds depends on the expression alone:
/// on its syntax and on the size limit that the crate sets by default. The
/// regex that comes back is the one compiled from `expression`.
#[verifier::external_body]
pub(crate) fn regex_new(expression: &str) -> (r: Result<Regex, regex::Error>)
    ensures
        r is Ok <==> regex_accepts(expression@),
        r matches Ok(regex) ==> regex_source(regex) == expression@,
{
    Regex::new(expression)
}

/// Calls `RegexSet::new`. Whether it succeeds depends on the expressions
/// alone. The set that comes back holds them in the order given.
#[verifier::external_body]
pub(crate) fn regex_set_new(expressions: &Vec<String>) -> (r: Result<RegexSet, regex::Error>)
    ensures
        r is Ok <==> regex_set_accepts(texts(expressions@)),
        r matches Ok(set) ==> regex_set_sources(set) == texts(expressions@),
{
    RegexSet::new(expressions)
}

/// Calls `RegexSet::len`: the number of expressions in the set.
#[verifier::external_body]
pub(crate) fn regex_set_len(set: &RegexSet) -> (r: usize)
    ensures
        r == regex_set_sources(*set).len(),
{
    set.len()
}

/// Calls `RegexSet::is_match`: whether one of the expressions of the set
/// matches in `haystack`.
#[verifier::external_body]
pub(crate) fn regex_set_is_match(set: &RegexSet, haystack: &str) -> (r: bool)
    ensures
        r == (matching(regex_set_sources(*set), haystack@).len() > 0),
{
    set.is_match(haystack)
}

/// Calls `RegexSet::matches` and lists what it reports: the index of each
/// expression that matches in `haystack`, each below the number of
/// expressions, in ascending order.
#[verifier::external_body]
pub(crate) fn regex_set_matches(set: &RegexSet, haystack: &str) -> (r: Vec<usize>)
    ensures
        r@ == matching(regex_set_sources(*set), haystack@),
        forall|i: int| 0 <= i < r@.len() ==> (#[trigger] r@[i]) < regex_set_sources(*set).len(),
        forall|i: int, j: int| 0 <= i < j < r@.len() ==> r@[i] < r@[j],
{
    set.matches(haystack).iter().collect()
}

/// Calls `Regex::captures_iter`, takes the first match that it yields, and
/// copies the text of each group from group 1 on.
#[verifier::external_body]
pub(crate) fn regex_captures(regex: &Regex, haystack: &str) -> (r: Option<Vec<Option<String>>>)
    ensures
        groups_view(r) == capture_groups(regex_source(*regex), haystack@),
{
    regex.captures_iter(haystack).next().map(
        |found| found.iter().skip(1).map(|g| g.map(|m| m.as_str().to_string())).collect(),
    )
}

/// Calls `VecMap::with_capacity`: a map that holds nothing.
#[verifier::external_body]
pub(crate) fn slots_with_capacity(capacity: usize) -> (r: VecMap<PatternToken>)
    ensures
        slots(r).dom() == Set::<usize>::empty(),
{
    VecMap::with_capacity(capacity)
}

/// Calls `VecMap::insert`: `value` stands at `key` afterwards, and what
/// stood there before is returned. The map grows to `key + 1` places; with
/// every smaller key present it grows by one place at most.
#[verifier::external_body]
pub(crate) fn slots_insert(map: &mut VecMap<PatternToken>, key: usize, value: PatternToken) -> (r:
    Option<PatternToken>)
    requires
        key < usize::MAX,
        forall|k: usize| k < key ==> slots(*old(map)).contains_key(k),
    ensures
        slots(*final(map)) == slots(*old(map)).insert(key, value),
        r == (if slots(*old(map)).contains_key(key) {
            Some(slots(*old(map))[key])
        } else {
            None
        }),
{
    map.insert(key, value)
}

/// Calls `VecMap::get` and copies the value found at `key`.
#[verifier::external_body]
pub(crate) fn slots_get(map: &VecMap<PatternToken>, key: usize) -> (r: Option<PatternToken>)
    ensures
        r == (if slots(*map).contains_key(key) {
            Some(slots(*map)[key])
        } else {
            None
        }),
{
    map.get(key).copied()
}

} // verus!

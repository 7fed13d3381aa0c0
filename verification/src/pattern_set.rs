//! A registry of patterns with their tokens, kept most specific first.

use crate::order::Rank;
use crate::pattern::Pattern;
use crate::shape::{lemma_join_injective, lemma_join_wf, PatternView};
use crate::specificity::{
    lemma_rank_pattern_flip, lemma_rank_pattern_same, lemma_rank_pattern_trans, precedes,
};
use crate::text::starts_with;
use vstd::prelude::*;

verus! {

/// Identifies one pattern within one set.
pub type PatternToken = usize;

/// A pattern and its token, as a set holds them.
pub type EntryView = (PatternView, PatternToken);

/// Whether each entry is more specific than all that follow it.
pub open spec fn sorted(entries: Seq<EntryView>) -> bool {
    forall|i: int, j: int|
        #![trigger entries[i], entries[j]]
        0 <= i < j < entries.len() ==> precedes(entries[i].0, entries[j].0)
}

/// Whether `entries` holds `pattern`.
pub open spec fn holds(entries: Seq<EntryView>, pattern: PatternView) -> bool {
    exists|i: int| 0 <= i < entries.len() && (#[trigger] entries[i]).0 == pattern
}

/// The number of leading entries that are more specific than `pattern`. In a
/// sorted sequence this is where `pattern` stands or would stand.
pub open spec fn position(entries: Seq<EntryView>, pattern: PatternView) -> int
    decreases entries.len(),
{
    if entries.len() == 0 || !precedes(entries[0].0, pattern) {
        0
    } else {
        1 + position(entries.skip(1), pattern)
    }
}

/// `entries` with `entry` at the place of its pattern: the token is replaced
/// where the pattern is held already, and the entry is inserted otherwise.
pub open spec fn placed(entries: Seq<EntryView>, entry: EntryView) -> Seq<EntryView> {
    let at = position(entries, entry.0);
    if at < entries.len() && entries[at].0 == entry.0 {
        entries.update(at, entry)
    } else {
        entries.insert(at, entry)
    }
}

/// `entries` after each of `more` was placed, from the first to the last.
pub open spec fn placed_all(entries: Seq<EntryView>, more: Seq<EntryView>) -> Seq<EntryView>
    decreases more.len(),
{
    if more.len() == 0 {
        entries
    } else {
        placed(placed_all(entries, more.drop_last()), more.last())
    }
}

/// The index of the first entry whose pattern matches `path`, or the number
/// of entries where none does.
pub open spec fn first_matching(entries: Seq<EntryView>, path: Seq<char>) -> int
    decreases entries.len(),
{
    if entries.len() == 0 || entries[0].0.matches(path) {
        0
    } else {
        1 + first_matching(entries.skip(1), path)
    }
}

/// The model of a pattern set: its entries, most specific first, and the
/// token that the next insertion hands out.
pub struct PatternSetView {
    pub entries: Seq<EntryView>,
    pub next_token: PatternToken,
}

impl PatternSetView {
    /// The invariant of a pattern set: the entries are strictly sorted by
    /// specificity, so no pattern occurs twice, and every token is below the
    /// next one.
    pub open spec fn wf(self) -> bool {
        &&& sorted(self.entries)
        &&& forall|i: int|
            0 <= i < self.entries.len() ==> (#[trigger] self.entries[i]).1 < self.next_token
    }

    /// Whether the set holds `pattern`.
    pub open spec fn contains(self, pattern: PatternView) -> bool {
        holds(self.entries, pattern)
    }

    /// The token of the most specific pattern that matches `path`.
    pub open spec fn matched(self, path: Seq<char>) -> Option<PatternToken> {
        let at = first_matching(self.entries, path);
        if at < self.entries.len() {
            Some(self.entries[at].1)
        } else {
            None
        }
    }

    /// The set that holds nothing.
    pub open spec fn empty() -> PatternSetView {
        PatternSetView { entries: Seq::empty(), next_token: 0 }
    }

    /// This set after `pattern`, which it does not hold, was registered
    /// under the next token.
    pub open spec fn inserted(self, pattern: PatternView) -> PatternSetView {
        PatternSetView {
            entries: self.entries.insert(
                position(self.entries, pattern),
                (pattern, self.next_token),
            ),
            next_token: (self.next_token + 1) as usize,
        }
    }

    /// This set with each pattern prefixed by the segments of `base`.
    pub open spec fn prefixed(self, base: PatternView) -> PatternSetView {
        PatternSetView {
            entries: placed_all(Seq::empty(), prefixed(self.entries, base)),
            next_token: self.next_token,
        }
    }

    /// This set after the entries of `other` were merged into it, their
    /// tokens raised by the next token of this set.
    pub open spec fn combined(self, other: PatternSetView) -> PatternSetView {
        PatternSetView {
            entries: placed_all(self.entries, shifted(other.entries, self.next_token as int)),
            next_token: (self.next_token + other.next_token) as usize,
        }
    }

    /// Whether every pattern of the set keeps the invariant of a pattern.
    pub open spec fn all_wf(self) -> bool {
        forall|i: int| 0 <= i < self.entries.len() ==> (#[trigger] self.entries[i]).0.wf()
    }

    /// Whether `base` fits before every pattern of the set.
    pub open spec fn fits_under(self, base: PatternView) -> bool {
        forall|i: int|
            0 <= i < self.entries.len() ==> base.fits_before((#[trigger] self.entries[i]).0)
    }

    /// The patterns, most specific first.
    pub open spec fn patterns(self) -> Seq<PatternView> {
        self.entries.map_values(|e: EntryView| e.0)
    }
}

/// Each pattern is prefixed by the segments of `base` and keeps its token.
pub open spec fn prefixed(entries: Seq<EntryView>, base: PatternView) -> Seq<EntryView> {
    entries.map_values(|e: EntryView| (base.join(e.0), e.1))
}

/// Each token is raised by `by`.
pub open spec fn shifted(entries: Seq<EntryView>, by: int) -> Seq<EntryView> {
    entries.map_values(|e: EntryView| (e.0, (e.1 + by) as usize))
}

/// Each pattern with its index as its token.
pub open spec fn numbered(patterns: Seq<PatternView>) -> Seq<EntryView> {
    Seq::new(patterns.len(), |i: int| (patterns[i], i as usize))
}

/// The entries before `position` are more specific than the pattern, and the
/// one at `position` is not.
pub proof fn lemma_position(entries: Seq<EntryView>, pattern: PatternView)
    ensures
        0 <= position(entries, pattern) <= entries.len(),
        forall|i: int|
            0 <= i < position(entries, pattern) ==> precedes((#[trigger] entries[i]).0, pattern),
        position(entries, pattern) < entries.len() ==> !precedes(
            entries[position(entries, pattern)].0,
            pattern,
        ),
    decreases entries.len(),
{
    if entries.len() != 0 && precedes(entries[0].0, pattern) {
        let rest = entries.skip(1);
        lemma_position(rest, pattern);
        assert forall|i: int| 0 <= i < position(entries, pattern) implies precedes(
            (#[trigger] entries[i]).0,
            pattern,
        ) by {
            if i > 0 {
                assert(entries[i] == rest[i - 1]);
            }
        }
    }
}

/// A sorted sequence holds a pattern exactly where `position` points at it.
pub proof fn lemma_holds_at_position(entries: Seq<EntryView>, pattern: PatternView)
    requires
        sorted(entries),
    ensures
        holds(entries, pattern) <==> (position(entries, pattern) < entries.len()
            && entries[position(entries, pattern)].0 == pattern),
{
    lemma_position(entries, pattern);
    if holds(entries, pattern) {
        lemma_rank_pattern_same(pattern, pattern);
    }
}

/// Placing an entry keeps a sequence sorted.
pub proof fn lemma_placed_sorted(entries: Seq<EntryView>, entry: EntryView)
    requires
        sorted(entries),
    ensures
        sorted(placed(entries, entry)),
        holds(placed(entries, entry), entry.0),
{
    let at = position(entries, entry.0);
    let after = placed(entries, entry);
    lemma_position(entries, entry.0);
    if at < entries.len() && entries[at].0 == entry.0 {
        assert(after[at].0 == entry.0);
    } else {
        assert forall|i: int, j: int| 0 <= i < j < after.len() implies precedes(
            after[i].0,
            after[j].0,
        ) by {
            if i == at {
                lemma_rank_pattern_flip(entries[at].0, entry.0);
                lemma_rank_pattern_same(entries[at].0, entry.0);
                if j - 1 > at {
                    lemma_rank_pattern_trans(entry.0, entries[at].0, entries[j - 1].0);
                }
            }
        }
        assert(after[at].0 == entry.0);
    }
}

/// Placing entries one after another keeps a sequence sorted.
pub proof fn lemma_placed_all_sorted(entries: Seq<EntryView>, more: Seq<EntryView>)
    requires
        sorted(entries),
    ensures
        sorted(placed_all(entries, more)),
    decreases more.len(),
{
    if more.len() > 0 {
        lemma_placed_all_sorted(entries, more.drop_last());
        lemma_placed_sorted(placed_all(entries, more.drop_last()), more.last());
    }
}

/// The entry that wins for a path is the most specific of those whose
/// patterns match it, whatever the order in which they were registered:
/// nothing before it matches, and it precedes everything after it.
pub proof fn lemma_winner_most_specific(set: PatternSetView, path: Seq<char>)
    requires
        set.wf(),
    ensures
        set.matched(path) is None <==> forall|i: int|
            0 <= i < set.entries.len() ==> !(#[trigger] set.entries[i]).0.matches(path),
        set.matched(path) is Some ==> {
            let at = first_matching(set.entries, path);
            &&& 0 <= at < set.entries.len()
            &&& set.entries[at].0.matches(path)
            &&& set.matched(path) == Some(set.entries[at].1)
            &&& forall|i: int|
                0 <= i < set.entries.len() && i != at && (#[trigger] set.entries[i]).0.matches(path)
                    ==> precedes(set.entries[at].0, set.entries[i].0)
        },
{
    lemma_first_matching(set.entries, path);
}

/// Nothing before the first matching entry matches, and that entry does.
pub proof fn lemma_first_matching(entries: Seq<EntryView>, path: Seq<char>)
    ensures
        0 <= first_matching(entries, path) <= entries.len(),
        forall|i: int|
            0 <= i < first_matching(entries, path) ==> !(#[trigger] entries[i]).0.matches(path),
        first_matching(entries, path) < entries.len() ==> entries[first_matching(
            entries,
            path,
        )].0.matches(path),
    decreases entries.len(),
{
    if entries.len() != 0 && !entries[0].0.matches(path) {
        let rest = entries.skip(1);
        lemma_first_matching(rest, path);
        assert forall|i: int| 0 <= i < first_matching(entries, path) implies !(
        #[trigger] entries[i]).0.matches(path) by {
            if i > 0 {
                assert(entries[i] == rest[i - 1]);
            }
        }
    }
}

/// Whether no two of `entries` have the same pattern.
pub open spec fn distinct_patterns(entries: Seq<EntryView>) -> bool {
    forall|i: int, j: int|
        #![trigger entries[i], entries[j]]
        0 <= i < entries.len() && 0 <= j < entries.len() && i != j ==> entries[i].0 != entries[j].0
}

/// A sorted sequence holds no pattern twice.
pub proof fn lemma_sorted_distinct(entries: Seq<EntryView>)
    requires
        sorted(entries),
    ensures
        distinct_patterns(entries),
{
    assert forall|i: int, j: int|
        0 <= i < entries.len() && 0 <= j < entries.len() && i != j implies entries[i].0
        != entries[j].0 by {
        lemma_rank_pattern_same(entries[i].0, entries[i].0);
    }
}

/// What placing one entry changes: the entry is held afterwards, every
/// entry with another pattern stays, and nothing else comes in.
pub proof fn lemma_placed_content(entries: Seq<EntryView>, entry: EntryView)
    requires
        sorted(entries),
    ensures
        placed(entries, entry).contains(entry),
        forall|i: int|
            0 <= i < entries.len() && (#[trigger] entries[i]).0 != entry.0 ==> placed(
                entries,
                entry,
            ).contains(entries[i]),
        forall|e: EntryView| #[trigger]
            placed(entries, entry).contains(e) ==> e == entry || (entries.contains(e) && e.0
                != entry.0),
        placed(entries, entry).len() == (if holds(entries, entry.0) {
            entries.len()
        } else {
            entries.len() + 1
        }),
{
    let at = position(entries, entry.0);
    let after = placed(entries, entry);
    lemma_position(entries, entry.0);
    lemma_holds_at_position(entries, entry.0);
    assert(after[at] == entry);
    if at < entries.len() && entries[at].0 == entry.0 {
        assert forall|i: int| 0 <= i < entries.len() && (#[trigger] entries[i]).0
            != entry.0 implies after.contains(entries[i]) by {
            assert(after[i] == entries[i]);
        }
    } else {
        assert forall|i: int| 0 <= i < entries.len() && (#[trigger] entries[i]).0
            != entry.0 implies after.contains(entries[i]) by {
            if i < at {
                assert(after[i] == entries[i]);
            } else {
                assert(after[i + 1] == entries[i]);
            }
        }
    }
}

/// What placing entries one after another comes to, where no two of them
/// have the same pattern: each of them is held afterwards, an earlier entry
/// stays unless one of them has its pattern, and nothing else comes in.
pub proof fn lemma_placed_all_content(entries: Seq<EntryView>, more: Seq<EntryView>)
    requires
        sorted(entries),
        distinct_patterns(more),
    ensures
        sorted(placed_all(entries, more)),
        forall|j: int|
            0 <= j < more.len() ==> placed_all(entries, more).contains(#[trigger] more[j]),
        forall|i: int|
            0 <= i < entries.len() && !holds(more, (#[trigger] entries[i]).0) ==> placed_all(
                entries,
                more,
            ).contains(entries[i]),
        forall|e: EntryView| #[trigger]
            placed_all(entries, more).contains(e) ==> more.contains(e) || (entries.contains(e)
                && !holds(more, e.0)),
    decreases more.len(),
{
    let after = placed_all(entries, more);
    if more.len() > 0 {
        let front = more.drop_last();
        let last = more.last();
        let middle = placed_all(entries, front);
        lemma_placed_all_content(entries, front);
        lemma_placed_content(middle, last);
        lemma_placed_sorted(middle, last);
        assert forall|j: int| 0 <= j < more.len() implies after.contains(#[trigger] more[j]) by {
            if j < front.len() {
                let k = choose|k: int| 0 <= k < middle.len() && middle[k] == front[j];
                assert(middle[k].0 != last.0);
            }
        }
        assert forall|e: EntryView| #[trigger] after.contains(e) implies more.contains(e) || (
        entries.contains(e) && !holds(more, e.0)) by {
            if e != last && !front.contains(e) && holds(more, e.0) {
                let k = choose|k: int| 0 <= k < more.len() && (#[trigger] more[k]).0 == e.0;
                if k < front.len() {
                    assert(front[k] == more[k]);
                }
            }
        }
    }
}

/// Placing entries whose patterns are new, and differ from one another,
/// adds one entry for each.
pub proof fn lemma_placed_all_fresh(entries: Seq<EntryView>, more: Seq<EntryView>)
    requires
        sorted(entries),
        distinct_patterns(more),
        forall|j: int| 0 <= j < more.len() ==> !holds(entries, (#[trigger] more[j]).0),
    ensures
        placed_all(entries, more).len() == entries.len() + more.len(),
    decreases more.len(),
{
    if more.len() > 0 {
        let front = more.drop_last();
        let last = more.last();
        let middle = placed_all(entries, front);
        lemma_placed_all_fresh(entries, front);
        lemma_placed_all_content(entries, front);
        lemma_placed_content(middle, last);
        if holds(middle, last.0) {
            let k = choose|k: int| 0 <= k < middle.len() && (#[trigger] middle[k]).0 == last.0;
            assert(middle.contains(middle[k]));
        }
    }
}

/// What prefixing comes to: the set keeps its size, and it holds a pattern
/// under a token exactly where the set before held, under that token, the
/// pattern that follows the segments of `base` in it.
pub proof fn lemma_prefixed_content(set: PatternSetView, base: PatternView)
    requires
        set.wf(),
    ensures
        set.prefixed(base).wf(),
        set.prefixed(base).entries.len() == set.entries.len(),
        forall|i: int|
            0 <= i < set.entries.len() ==> set.prefixed(base).entries.contains(
                (base.join((#[trigger] set.entries[i]).0), set.entries[i].1),
            ),
        forall|e: EntryView| #[trigger]
            set.prefixed(base).entries.contains(e) ==> exists|i: int|
                0 <= i < set.entries.len() && e == (
                    base.join((#[trigger] set.entries[i]).0),
                    set.entries[i].1,
                ),
{
    let more = prefixed(set.entries, base);
    let none = Seq::<EntryView>::empty();
    let after = placed_all(none, more);
    lemma_sorted_distinct(set.entries);
    assert forall|i: int, j: int|
        0 <= i < more.len() && 0 <= j < more.len() && i != j implies more[i].0 != more[j].0 by {
        if more[i].0 == more[j].0 {
            lemma_join_injective(base, set.entries[i].0, set.entries[j].0);
        }
    }
    lemma_placed_all_content(none, more);
    lemma_placed_all_fresh(none, more);
    assert forall|i: int| 0 <= i < set.entries.len() implies after.contains(
        (base.join((#[trigger] set.entries[i]).0), set.entries[i].1),
    ) by {
        assert(more[i] == (base.join(set.entries[i].0), set.entries[i].1));
    }
    assert forall|k: int| 0 <= k < after.len() implies (#[trigger] after[k]).1
        < set.next_token by {
        assert(after.contains(after[k]));
    }
}

/// What combining comes to: the set holds every entry of `other` with its
/// token raised by the next token of `self`, it keeps each entry of its own
/// whose pattern `other` does not hold, and it holds nothing else.
pub proof fn lemma_combined_content(set: PatternSetView, other: PatternSetView)
    requires
        set.wf(),
        other.wf(),
        set.next_token + other.next_token <= usize::MAX,
    ensures
        set.combined(other).wf(),
        forall|j: int|
            0 <= j < other.entries.len() ==> set.combined(other).entries.contains(
                ((#[trigger] other.entries[j]).0, (other.entries[j].1 + set.next_token) as usize),
            ),
        forall|i: int|
            0 <= i < set.entries.len() && !other.contains((#[trigger] set.entries[i]).0)
                ==> set.combined(other).entries.contains(set.entries[i]),
        forall|e: EntryView| #[trigger]
            set.combined(other).entries.contains(e) ==> (set.entries.contains(e)
                && !other.contains(e.0)) || exists|j: int|
                0 <= j < other.entries.len() && e == (
                    (#[trigger] other.entries[j]).0,
                    (other.entries[j].1 + set.next_token) as usize,
                ),
{
    let more = shifted(other.entries, set.next_token as int);
    let after = placed_all(set.entries, more);
    lemma_sorted_distinct(other.entries);
    lemma_placed_all_content(set.entries, more);
    assert forall|j: int| 0 <= j < other.entries.len() implies after.contains(
        ((#[trigger] other.entries[j]).0, (other.entries[j].1 + set.next_token) as usize),
    ) by {
        assert(more[j] == (other.entries[j].0, (other.entries[j].1 + set.next_token) as usize));
    }
    assert forall|k: int| 0 <= k < after.len() implies (#[trigger] after[k]).1
        < set.combined(other).next_token by {
        assert(after.contains(after[k]));
    }
}

/// Registering a well-formed pattern keeps every pattern of a set well
/// formed.
pub proof fn lemma_inserted_all_wf(set: PatternSetView, pattern: PatternView)
    requires
        set.all_wf(),
        pattern.wf(),
    ensures
        set.inserted(pattern).all_wf(),
{
    let at = position(set.entries, pattern);
    let after = set.inserted(pattern).entries;
    lemma_position(set.entries, pattern);
    assert forall|i: int| 0 <= i < after.len() implies (#[trigger] after[i]).0.wf() by {
        if i < at {
            assert(after[i] == set.entries[i]);
        } else if i > at {
            assert(after[i] == set.entries[i - 1]);
        }
    }
}

/// Behind a well-formed prefix that fits before each of them, the patterns
/// of a set stay well formed.
pub proof fn lemma_prefixed_all_wf(set: PatternSetView, base: PatternView)
    requires
        set.wf(),
        set.all_wf(),
        base.wf(),
        set.fits_under(base),
    ensures
        set.prefixed(base).all_wf(),
{
    let after = set.prefixed(base).entries;
    lemma_prefixed_content(set, base);
    assert forall|k: int| 0 <= k < after.len() implies (#[trigger] after[k]).0.wf() by {
        assert(after.contains(after[k]));
        let i = choose|i: int|
            0 <= i < set.entries.len() && after[k] == (
                base.join((#[trigger] set.entries[i]).0),
                set.entries[i].1,
            );
        lemma_join_wf(base, set.entries[i].0);
    }
}

/// Two sets of well-formed patterns combine into one.
pub proof fn lemma_combined_all_wf(set: PatternSetView, other: PatternSetView)
    requires
        set.wf(),
        other.wf(),
        set.all_wf(),
        other.all_wf(),
        set.next_token + other.next_token <= usize::MAX,
    ensures
        set.combined(other).all_wf(),
{
    let after = set.combined(other).entries;
    lemma_combined_content(set, other);
    assert forall|k: int| 0 <= k < after.len() implies (#[trigger] after[k]).0.wf() by {
        let e = after[k];
        assert(after.contains(e));
        if set.entries.contains(e) {
            let i = choose|i: int| 0 <= i < set.entries.len() && set.entries[i] == e;
            assert(set.entries[i].0.wf());
        } else {
            let j = choose|j: int|
                0 <= j < other.entries.len() && e == (
                    (#[trigger] other.entries[j]).0,
                    (other.entries[j].1 + set.next_token) as usize,
                );
            assert(other.entries[j].0.wf());
        }
    }
}

/// Two sorted sequences that hold the same patterns list them in the same
/// order.
pub proof fn lemma_sorted_by_content(a: Seq<EntryView>, b: Seq<EntryView>)
    requires
        sorted(a),
        sorted(b),
        forall|p: PatternView| holds(a, p) <==> holds(b, p),
    ensures
        a.len() == b.len(),
        forall|i: int| 0 <= i < a.len() ==> (#[trigger] a[i]).0 == b[i].0,
    decreases a.len(),
{
    if a.len() == 0 {
        if b.len() > 0 {
            assert(holds(b, b[0].0));
        }
    } else {
        assert(holds(a, a[0].0));
        assert(holds(b, b[0].0));
        lemma_rank_pattern_flip(a[0].0, b[0].0);
        let ra = a.skip(1);
        let rb = b.skip(1);
        assert forall|p: PatternView| holds(ra, p) <==> holds(rb, p) by {
            if holds(ra, p) {
                assert(holds(a, p));
                let y = choose|y: int| 0 <= y < b.len() && (#[trigger] b[y]).0 == p;
                assert(rb[y - 1] == b[y]);
            }
            if holds(rb, p) {
                assert(holds(b, p));
                let x = choose|x: int| 0 <= x < a.len() && (#[trigger] a[x]).0 == p;
                assert(ra[x - 1] == a[x]);
            }
        }
        lemma_sorted_by_content(ra, rb);
        assert forall|k: int| 0 <= k < a.len() implies (#[trigger] a[k]).0 == b[k].0 by {
            if k > 0 {
                assert(ra[k - 1] == a[k] && rb[k - 1] == b[k]);
            }
        }
    }
}

/// Which pattern wins for a path does not depend on the order in which the
/// patterns were registered: two sets that hold the same patterns list them
/// in the same order, and the same one of them wins.
pub proof fn lemma_winner_by_content(a: PatternSetView, b: PatternSetView, path: Seq<char>)
    requires
        a.wf(),
        b.wf(),
        forall|p: PatternView| a.contains(p) <==> b.contains(p),
    ensures
        a.patterns() == b.patterns(),
        first_matching(a.entries, path) == first_matching(b.entries, path),
{
    assert forall|p: PatternView| holds(a.entries, p) <==> holds(b.entries, p) by {
        assert(a.contains(p) <==> b.contains(p));
    }
    lemma_sorted_by_content(a.entries, b.entries);
    lemma_first_matching(a.entries, path);
    lemma_first_matching(b.entries, path);
    let x = first_matching(a.entries, path);
    let y = first_matching(b.entries, path);
    if y < x {
        assert(!a.entries[y].0.matches(path));
    }
}

/// Placing an entry whose token is below `bound` keeps all tokens below it.
pub proof fn lemma_placed_tokens(entries: Seq<EntryView>, entry: EntryView, bound: int)
    requires
        forall|i: int| 0 <= i < entries.len() ==> (#[trigger] entries[i]).1 < bound,
        entry.1 < bound,
    ensures
        forall|i: int|
            0 <= i < placed(entries, entry).len() ==> (#[trigger] placed(entries, entry)[i]).1
                < bound,
{
    lemma_position(entries, entry.0);
}

/// A registry of patterns and their tokens, most specific first.
#[derive(Debug)]
pub struct PatternSet {
    entries: Vec<(Pattern, PatternToken)>,
    next_tok: PatternToken,
}

/// The views of `entries`, in order.
pub open spec fn entry_views(entries: Seq<(Pattern, PatternToken)>) -> Seq<EntryView> {
    entries.map_values(|e: (Pattern, PatternToken)| (e.0@, e.1))
}

impl View for PatternSet {
    type V = PatternSetView;

    closed spec fn view(&self) -> PatternSetView {
        PatternSetView { entries: entry_views(self.entries@), next_token: self.next_tok }
    }
}

impl Clone for PatternSet {
    fn clone(&self) -> (r: Self)
        ensures
            r@ == self@,
    {
        let mut entries: Vec<(Pattern, PatternToken)> = Vec::with_capacity(self.entries.len());
        let mut i: usize = 0;
        while i < self.entries.len()
            invariant
                i <= self.entries.len(),
                entry_views(entries@) == entry_views(self.entries@).take(i as int),
            decreases self.entries.len() - i,
        {
            let ghost before = entries@;
            let entry = (self.entries[i].0.clone(), self.entries[i].1);
            entries.push(entry);
            assert(entry_views(before.push(entry)) =~= entry_views(before).push(
                (entry.0@, entry.1),
            ));
            i = i + 1;
        }
        assert(entry_views(self.entries@).take(i as int) =~= entry_views(self.entries@));
        PatternSet { entries, next_tok: self.next_tok }
    }
}

impl PatternSet {
    /// The invariant of a pattern set.
    pub open spec fn wf(&self) -> bool {
        self@.wf()
    }

    /// The empty set; its first token will be 0.
    pub fn new() -> (r: PatternSet)
        ensures
            r.wf(),
            r@ == PatternSetView::empty(),
    {
        let r = PatternSet { entries: Vec::new(), next_tok: 0 };
        assert(r@.entries =~= Seq::empty());
        r
    }

    /// The number of patterns.
    pub fn len(&self) -> (n: usize)
        ensures
            n == self@.entries.len(),
    {
        self.entries.len()
    }

    /// Whether the set holds no pattern.
    pub fn is_empty(&self) -> (r: bool)
        ensures
            r == (self@.entries.len() == 0),
    {
        self.entries.len() == 0
    }

    /// The token that the next insertion hands out.
    pub fn next_token(&self) -> (r: PatternToken)
        ensures
            r == self@.next_token,
    {
        self.next_tok
    }

    /// The pattern at `index`, counted from the most specific.
    pub fn pattern(&self, index: usize) -> (r: &Pattern)
        requires
            index < self@.entries.len(),
        ensures
            r@ == self@.entries[index as int].0,
    {
        &self.entries[index].0
    }

    /// The token of the pattern at `index`, counted from the most specific.
    pub fn token(&self, index: usize) -> (r: PatternToken)
        requires
            index < self@.entries.len(),
        ensures
            r == self@.entries[index as int].1,
    {
        self.entries[index].1
    }

    /// Where `pattern` stands or would stand, and whether it is held.
    fn locate(&self, pattern: &Pattern) -> (r: (usize, bool))
        requires
            sorted(self@.entries),
        ensures
            r.0 == position(self@.entries, pattern@),
            r.0 <= self@.entries.len(),
            r.1 == self@.contains(pattern@),
            r.1 == (r.0 < self@.entries.len() && self@.entries[r.0 as int].0 == pattern@),
    {
        let ghost all = entry_views(self.entries@);
        let mut i: usize = 0;
        let mut held = false;
        assert(all.skip(0) =~= all);
        while i < self.entries.len()
            invariant_except_break
                position(all, pattern@) == i + position(all.skip(i as int), pattern@),
                !held,
            invariant
                i <= self.entries.len(),
                all == entry_views(self.entries@),
            ensures
                i <= self.entries.len(),
                position(all, pattern@) == i,
                held == (i < all.len() && all[i as int].0 == pattern@),
            decreases self.entries.len() - i,
        {
            assert(all.skip(i as int).skip(1) =~= all.skip(i + 1));
            let rank = self.entries[i].0.compare(pattern);
            proof {
                lemma_rank_pattern_same(all[i as int].0, pattern@);
            }
            match rank {
                Rank::Before => {},
                Rank::Same => {
                    held = true;
                    break ;
                },
                Rank::After => {
                    break ;
                },
            }
            i = i + 1;
        }
        proof {
            lemma_holds_at_position(all, pattern@);
        }
        (i, held)
    }

    /// Whether the set holds `pattern`.
    pub fn contains(&self, pattern: &Pattern) -> (r: bool)
        requires
            self.wf(),
        ensures
            r == self@.contains(pattern@),
    {
        self.locate(pattern).1
    }

    /// Whether `base` fits before every pattern of the set.
    pub fn fits_under(&self, base: &Pattern) -> (r: bool)
        ensures
            r == self@.fits_under(base@),
    {
        let mut i: usize = 0;
        while i < self.entries.len()
            invariant
                i <= self.entries.len(),
                forall|j: int| 0 <= j < i ==> base@.fits_before((#[trigger] self@.entries[j]).0),
            decreases self.entries.len() - i,
        {
            assert(self@.entries[i as int].0 == self.entries@[i as int].0@);
            if !base.fits_before(&self.entries[i].0) {
                return false;
            }
            i = i + 1;
        }
        true
    }

    /// Puts `pattern` with `token` at its place, or replaces its token.
    fn place(&mut self, pattern: Pattern, token: PatternToken)
        requires
            sorted(old(self)@.entries),
        ensures
            final(self)@.entries == placed(old(self)@.entries, (pattern@, token)),
            final(self)@.next_token == old(self)@.next_token,
    {
        let (at, held) = self.locate(&pattern);
        if held {
            self.entries.set(at, (pattern, token));
        } else {
            self.entries.insert(at, (pattern, token));
        }
    }

    /// Registers `pat` under a fresh token and returns the token, or returns
    /// `None` and changes nothing where the set holds `pat` already.
    pub fn insert(&mut self, pat: Pattern) -> (r: Option<PatternToken>)
        requires
            old(self).wf(),
            old(self)@.next_token < usize::MAX,
        ensures
            final(self).wf(),
            match r {
                Some(token) => {
                    &&& !old(self)@.contains(pat@)
                    &&& token == old(self)@.next_token
                    &&& final(self)@ == old(self)@.inserted(pat@)
                    &&& final(self)@.entries.len() == old(self)@.entries.len() + 1
                    &&& final(self)@.contains(pat@)
                },
                None => old(self)@.contains(pat@) && final(self)@ == old(self)@,
            },
    {
        let (at, held) = self.locate(&pat);
        if held {
            return None;
        }
        let token = self.next_tok;
        let ghost before = self.entries@;
        proof {
            lemma_placed_sorted(self@.entries, (pat@, token));
        }
        self.entries.insert(at, (pat, token));
        assert(entry_views(self.entries@) =~= entry_views(before).insert(
            at as int,
            (pat@, token),
        ));
        self.next_tok = token + 1;
        Some(token)
    }

    /// Whether some pattern of the set matches `path`.
    pub fn is_match(&self, path: &str) -> (r: bool)
        requires
            starts_with(path@, '/'),
        ensures
            r == self@.matched(path@) is Some,
    {
        self.matched_token(path).is_some()
    }

    /// The token of the most specific pattern that matches `path`.
    pub fn matched_token(&self, path: &str) -> (r: Option<PatternToken>)
        requires
            starts_with(path@, '/'),
        ensures
            r == self@.matched(path@),
    {
        let ghost all = entry_views(self.entries@);
        let mut i: usize = 0;
        assert(all.skip(0) =~= all);
        while i < self.entries.len()
            invariant
                i <= self.entries.len(),
                starts_with(path@, '/'),
                all == entry_views(self.entries@),
                first_matching(all, path@) == i + first_matching(all.skip(i as int), path@),
            decreases self.entries.len() - i,
        {
            assert(all.skip(i as int).skip(1) =~= all.skip(i + 1));
            if self.entries[i].0.is_match(path) {
                return Some(self.entries[i].1);
            }
            i = i + 1;
        }
        None
    }

    /// The set in which each pattern is the segments of `base` followed by a
    /// pattern of this set, under the same token.
    pub fn prefix(&self, base: &Pattern) -> (r: PatternSet)
        requires
            self.wf(),
            !base@.terminated(),
        ensures
            r.wf(),
            r@ == self@.prefixed(base@),
            r@.entries.len() == self@.entries.len(),
            base@.wf() && self@.all_wf() && self@.fits_under(base@) ==> r@.all_wf(),
    {
        let ghost more = prefixed(self@.entries, base@);
        let mut r = PatternSet { entries: Vec::new(), next_tok: self.next_tok };
        let mut i: usize = 0;
        while i < self.entries.len()
            invariant
                i <= self.entries.len(),
                self.wf(),
                !base@.terminated(),
                more == prefixed(self@.entries, base@),
                r@.entries == placed_all(Seq::empty(), more.take(i as int)),
                r@.next_token == self@.next_token,
                r.wf(),
            decreases self.entries.len() - i,
        {
            let pattern = base.join(&self.entries[i].0);
            let token = self.entries[i].1;
            proof {
                assert(more.take(i + 1).drop_last() =~= more.take(i as int));
                assert(more.take(i + 1).last() == (pattern@, token));
                lemma_placed_sorted(r@.entries, (pattern@, token));
                lemma_placed_tokens(r@.entries, (pattern@, token), self@.next_token as int);
            }
            r.place(pattern, token);
            i = i + 1;
        }
        assert(more.take(i as int) =~= more);
        proof {
            lemma_prefixed_content(self@, base@);
            if base@.wf() && self@.all_wf() && self@.fits_under(base@) {
                lemma_prefixed_all_wf(self@, base@);
            }
        }
        r
    }

    /// Merges the entries of `other` into this set, each token of `other`
    /// raised by the next token of this set. Where both hold a pattern, the
    /// token from `other` replaces the one held.
    pub fn combine(&mut self, other: &PatternSet)
        requires
            old(self).wf(),
            other.wf(),
            old(self)@.next_token + other@.next_token <= usize::MAX,
        ensures
            final(self).wf(),
            final(self)@ == old(self)@.combined(other@),
    {
        let off = self.next_tok;
        let bound = off + other.next_tok;
        let ghost start = self@.entries;
        let ghost more = shifted(other@.entries, off as int);
        let mut i: usize = 0;
        while i < other.entries.len()
            invariant
                i <= other.entries.len(),
                other.wf(),
                off + other@.next_token == bound,
                more == shifted(other@.entries, off as int),
                self@.entries == placed_all(start, more.take(i as int)),
                self@.next_token == off,
                sorted(self@.entries),
                forall|j: int|
                    0 <= j < self@.entries.len() ==> (#[trigger] self@.entries[j]).1 < bound,
            decreases other.entries.len() - i,
        {
            let pattern = other.entries[i].0.clone();
            assert(other@.entries[i as int].1 < other@.next_token);
            let token = other.entries[i].1 + off;
            proof {
                assert(more.take(i + 1).drop_last() =~= more.take(i as int));
                lemma_placed_sorted(self@.entries, (pattern@, token));
                lemma_placed_tokens(self@.entries, (pattern@, token), bound as int);
            }
            self.place(pattern, token);
            i = i + 1;
        }
        assert(more.take(i as int) =~= more);
        self.next_tok = bound;
    }

    /// The set of `patterns`, each with its index as its token. Where a
    /// pattern occurs twice, its last index is its token.
    pub fn from_iter(patterns: Vec<Pattern>) -> (r: PatternSet)
        ensures
            r.wf(),
            r@.next_token == patterns.len(),
            r@.entries == placed_all(Seq::empty(), numbered(patterns@.map_values(|p: Pattern| p@))),
    {
        let ghost more = numbered(patterns@.map_values(|p: Pattern| p@));
        let mut r = PatternSet { entries: Vec::new(), next_tok: patterns.len() };
        let mut i: usize = 0;
        while i < patterns.len()
            invariant
                i <= patterns.len(),
                more == numbered(patterns@.map_values(|p: Pattern| p@)),
                r@.entries == placed_all(Seq::empty(), more.take(i as int)),
                r@.next_token == patterns.len(),
                r.wf(),
            decreases patterns.len() - i,
        {
            let pattern = patterns[i].clone();
            proof {
                assert(more.take(i + 1).drop_last() =~= more.take(i as int));
                lemma_placed_sorted(r@.entries, (pattern@, i));
                lemma_placed_tokens(r@.entries, (pattern@, i), patterns.len() as int);
            }
            r.place(pattern, i);
            i = i + 1;
        }
        assert(more.take(i as int) =~= more);
        r
    }

    /// The patterns of the set, most specific first.
    pub fn patterns(&self) -> (r: Vec<Pattern>)
        ensures
            r@.map_values(|p: Pattern| p@) == self@.patterns(),
    {
        let mut r: Vec<Pattern> = Vec::with_capacity(self.entries.len());
        let mut i: usize = 0;
        while i < self.entries.len()
            invariant
                i <= self.entries.len(),
                r@.map_values(|p: Pattern| p@) == self@.patterns().take(i as int),
            decreases self.entries.len() - i,
        {
            let ghost before = r@;
            let pattern = self.entries[i].0.clone();
            r.push(pattern);
            assert(before.push(pattern).map_values(|p: Pattern| p@) =~= before.map_values(
                |p: Pattern| p@,
            ).push(pattern@));
            i = i + 1;
        }
        r
    }
}

} // verus!

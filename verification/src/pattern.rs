//! Path patterns: segments, terminators and the operations on one pattern.

use crate::order::Rank;
use crate::shape::{
    components, lemma_join_wf, lemma_push_keeps_wf, segment_names, PatternView, SegmentView,
    TerminatorView,
};
use crate::specificity::{lead, rank_pattern, rank_segment, rank_segments, rank_terminator};
use crate::text::{
    chars_of, compare_text, span_is, spans_cut, split, split_spans, starts_with,
};
use vstd::prelude::*;

verus! {

/// One path component of a pattern.
#[derive(Debug, Hash)]
pub enum Segment {
    /// A literal, compared character by character.
    Fixed(String),
    /// A named capture of one component; the flag allows the empty component.
    Parameter(String, bool),
}

/// What may follow the segments of a pattern.
#[derive(Debug, Hash)]
pub enum Terminator {
    /// The path may carry one more `/` at its end.
    OptionalSlash,
    /// The rest of the path, slashes included, is captured under this name.
    Tail(String),
}

/// A parsed path template: segments and an optional terminator.
#[derive(Debug, Hash)]
pub struct Pattern {
    segments: Vec<Segment>,
    terminator: Option<Terminator>,
}

impl View for Segment {
    type V = SegmentView;

    open spec fn view(&self) -> SegmentView {
        match self {
            Segment::Fixed(text) => SegmentView::Fixed(text@),
            Segment::Parameter(name, allow_empty) => SegmentView::Parameter(name@, *allow_empty),
        }
    }
}

impl View for Terminator {
    type V = TerminatorView;

    open spec fn view(&self) -> TerminatorView {
        match self {
            Terminator::OptionalSlash => TerminatorView::OptionalSlash,
            Terminator::Tail(name) => TerminatorView::Tail(name@),
        }
    }
}

/// The views of `segments`, in order.
pub open spec fn segment_views(segments: Seq<Segment>) -> Seq<SegmentView> {
    segments.map_values(|s: Segment| s@)
}

/// The view of an optional terminator.
pub open spec fn terminator_view(terminator: Option<Terminator>) -> Option<TerminatorView> {
    match terminator {
        Some(t) => Some(t@),
        None => None,
    }
}

impl View for Pattern {
    type V = PatternView;

    closed spec fn view(&self) -> PatternView {
        PatternView {
            segments: segment_views(self.segments@),
            terminator: terminator_view(self.terminator),
        }
    }
}

impl Clone for Segment {
    fn clone(&self) -> (r: Self)
        ensures
            r@ == self@,
    {
        match self {
            Segment::Fixed(text) => Segment::Fixed(text.clone()),
            Segment::Parameter(name, allow_empty) => Segment::Parameter(name.clone(), *allow_empty),
        }
    }
}

impl Clone for Terminator {
    fn clone(&self) -> (r: Self)
        ensures
            r@ == self@,
    {
        match self {
            Terminator::OptionalSlash => Terminator::OptionalSlash,
            Terminator::Tail(name) => Terminator::Tail(name.clone()),
        }
    }
}

impl Clone for Pattern {
    fn clone(&self) -> (r: Self)
        ensures
            r@ == self@,
    {
        let mut segments: Vec<Segment> = Vec::with_capacity(self.segments.len());
        let mut i: usize = 0;
        while i < self.segments.len()
            invariant
                i <= self.segments.len(),
                segment_views(segments@) == segment_views(self.segments@).take(i as int),
            decreases self.segments.len() - i,
        {
            let ghost before = segments@;
            let segment = self.segments[i].clone();
            segments.push(segment);
            assert(segment_views(before.push(segment)) =~= segment_views(before).push(segment@));
            i = i + 1;
        }
        assert(segment_views(self.segments@).take(i as int) =~= segment_views(self.segments@));
        let terminator = match &self.terminator {
            Some(t) => Some(t.clone()),
            None => None,
        };
        Pattern { segments, terminator }
    }
}

impl Segment {
    /// Whether this segment accepts `chars[from..to]` as its path component.
    pub fn accepts_span(&self, chars: &Vec<char>, from: usize, to: usize) -> (r: bool)
        requires
            from <= to <= chars.len(),
        ensures
            r == self@.accepts(chars@.subrange(from as int, to as int)),
    {
        match self {
            Segment::Fixed(text) => span_is(chars, from, to, text.as_str()),
            Segment::Parameter(_, allow_empty) => *allow_empty || to > from,
        }
    }

    /// Whether this is the literal with no characters.
    pub fn is_empty_fixed(&self) -> (r: bool)
        ensures
            r == self@.is_empty_fixed(),
    {
        match self {
            Segment::Fixed(text) => {
                let r = text.as_str().is_empty();
                assert(r == (text@ =~= Seq::<char>::empty()));
                r
            },
            Segment::Parameter(_, _) => false,
        }
    }

    /// Ranks this segment against `other`, which stands at the same position.
    pub fn compare(&self, other: &Segment) -> (r: Rank)
        ensures
            r == rank_segment(self@, other@),
    {
        match (self, other) {
            (Segment::Fixed(x), Segment::Fixed(y)) => compare_text(x.as_str(), y.as_str()),
            (Segment::Fixed(_), Segment::Parameter(_, _)) => Rank::Before,
            (Segment::Parameter(_, _), Segment::Fixed(_)) => Rank::After,
            (Segment::Parameter(x, ex), Segment::Parameter(y, ey)) => {
                if *ex == *ey {
                    compare_text(x.as_str(), y.as_str())
                } else if *ey {
                    Rank::Before
                } else {
                    Rank::After
                }
            },
        }
    }
}

/// Ranks two optional terminators.
fn compare_terminators(a: &Option<Terminator>, b: &Option<Terminator>) -> (r: Rank)
    ensures
        r == rank_terminator(terminator_view(*a), terminator_view(*b)),
{
    match (a, b) {
        (None, None) => Rank::Same,
        (None, Some(_)) => Rank::Before,
        (Some(_), None) => Rank::After,
        (Some(Terminator::OptionalSlash), Some(Terminator::OptionalSlash)) => Rank::Same,
        (Some(Terminator::OptionalSlash), Some(Terminator::Tail(_))) => Rank::Before,
        (Some(Terminator::Tail(_)), Some(Terminator::OptionalSlash)) => Rank::After,
        (Some(Terminator::Tail(x)), Some(Terminator::Tail(y))) => compare_text(
            x.as_str(),
            y.as_str(),
        ),
    }
}

/// Ranks `a[from..to_a]` against `b[from..to_b]`.
fn compare_runs(a: &Vec<Segment>, b: &Vec<Segment>, from: usize, to_a: usize, to_b: usize) -> (r:
    Rank)
    requires
        from <= to_a <= a.len(),
        from <= to_b <= b.len(),
    ensures
        r == rank_segments(
            segment_views(a@).subrange(from as int, to_a as int),
            segment_views(b@).subrange(from as int, to_b as int),
        ),
{
    let ghost x = segment_views(a@).subrange(from as int, to_a as int);
    let ghost y = segment_views(b@).subrange(from as int, to_b as int);
    let mut i: usize = from;
    assert(x.skip(0) =~= x);
    assert(y.skip(0) =~= y);
    while i < to_a && i < to_b
        invariant
            from <= i <= to_a <= a.len(),
            i <= to_b <= b.len(),
            x == segment_views(a@).subrange(from as int, to_a as int),
            y == segment_views(b@).subrange(from as int, to_b as int),
            rank_segments(x, y) == rank_segments(x.skip(i - from), y.skip(i - from)),
        decreases to_a - i,
    {
        let r = a[i].compare(&b[i]);
        assert(x.skip(i - from).skip(1) =~= x.skip(i + 1 - from));
        assert(y.skip(i - from).skip(1) =~= y.skip(i + 1 - from));
        match r {
            Rank::Same => {},
            _ => {
                return r;
            },
        }
        i = i + 1;
    }
    if to_a < to_b {
        Rank::Before
    } else if to_a == to_b {
        Rank::Same
    } else {
        Rank::After
    }
}

/// Whether two of `names` are the same.
pub fn has_duplicates(names: &Vec<String>) -> (r: bool)
    ensures
        r == !names.deep_view().no_duplicates(),
{
    let ghost texts = names.deep_view();
    let mut i: usize = 0;
    while i < names.len()
        invariant
            i <= names.len(),
            texts == names.deep_view(),
            forall|a: int, b: int| 0 <= a < i && 0 <= b < a ==> texts[a] != texts[b],
        decreases names.len() - i,
    {
        let mut j: usize = 0;
        while j < i
            invariant
                j <= i < names.len(),
                texts == names.deep_view(),
                forall|b: int| 0 <= b < j ==> texts[i as int] != texts[b],
            decreases i - j,
        {
            if names[i] == names[j] {
                assert(texts[i as int] == texts[j as int]);
                return true;
            }
            j = j + 1;
        }
        i = i + 1;
    }
    false
}

/// Whether `names` holds `name`.
pub fn holds_name(names: &Vec<String>, name: &String) -> (r: bool)
    ensures
        r == names.deep_view().contains(name@),
{
    let ghost texts = names.deep_view();
    let mut i: usize = 0;
    while i < names.len()
        invariant
            i <= names.len(),
            texts == names.deep_view(),
            forall|a: int| 0 <= a < i ==> texts[a] != name@,
        decreases names.len() - i,
    {
        if names[i] == *name {
            assert(texts[i as int] == name@);
            return true;
        }
        i = i + 1;
    }
    false
}

impl Pattern {
    /// The pattern with no segments and no terminator.
    pub fn new() -> (p: Pattern)
        ensures
            p@ == PatternView::empty(),
    {
        let p = Pattern { segments: Vec::new(), terminator: None };
        assert(segment_views(p.segments@) =~= Seq::empty());
        p
    }

    /// The empty pattern, with room for `cap` segments.
    pub fn with_capacity(cap: usize) -> (p: Pattern)
        ensures
            p@ == PatternView::empty(),
    {
        let p = Pattern { segments: Vec::with_capacity(cap), terminator: None };
        assert(segment_views(p.segments@) =~= Seq::empty());
        p
    }

    /// Whether a terminator is set.
    pub fn terminated(&self) -> (r: bool)
        ensures
            r == self@.terminated(),
    {
        self.terminator.is_some()
    }

    /// The names this pattern captures, in the order in which they are
    /// declared: those of its parameters, then that of its tail.
    pub fn param_names(&self) -> (names: Vec<String>)
        ensures
            names.deep_view() == self@.names(),
    {
        let ghost all = segment_views(self.segments@);
        let mut names: Vec<String> = Vec::new();
        let mut i: usize = 0;
        while i < self.segments.len()
            invariant
                i <= self.segments.len(),
                all == segment_views(self.segments@),
                names.deep_view() == segment_names(all.take(i as int)),
            decreases self.segments.len() - i,
        {
            assert(all.take(i + 1).drop_last() =~= all.take(i as int));
            match &self.segments[i] {
                Segment::Fixed(_) => {},
                Segment::Parameter(name, _) => {
                    names.push(name.clone());
                },
            }
            i = i + 1;
        }
        assert(all.take(i as int) =~= all);
        match &self.terminator {
            Some(Terminator::Tail(name)) => {
                names.push(name.clone());
            },
            _ => {},
        }
        names
    }

    /// Whether two captures of this pattern have the same name.
    pub fn has_duplicate_names(&self) -> (r: bool)
        ensures
            r == !self@.names().no_duplicates(),
    {
        let names = self.param_names();
        has_duplicates(&names)
    }

    /// Whether an empty literal stands only at the end, if anywhere.
    pub fn empty_only_last(&self) -> (r: bool)
        ensures
            r == self@.empty_only_last(),
    {
        let n = self.segments.len();
        if n == 0 {
            return true;
        }
        let mut i: usize = 0;
        while i < n - 1
            invariant
                i <= n - 1,
                n == self.segments.len(),
                forall|j: int| 0 <= j < i ==> !(#[trigger] self@.segments[j]).is_empty_fixed(),
            decreases n - i,
        {
            assert(self@.segments[i as int] == self.segments@[i as int]@);
            if self.segments[i].is_empty_fixed() {
                return false;
            }
            i = i + 1;
        }
        true
    }

    /// Whether `segment` may be pushed.
    pub fn admits(&self, segment: &Segment) -> (r: bool)
        ensures
            r == self@.admits(segment@),
    {
        if self.terminator.is_some() {
            return false;
        }
        let n = self.segments.len();
        if n > 0 {
            if self.segments[n - 1].is_empty_fixed() {
                return false;
            }
        }
        match segment {
            Segment::Fixed(_) => true,
            Segment::Parameter(name, _) => {
                let names = self.param_names();
                !holds_name(&names, name)
            },
        }
    }

    /// Whether this pattern can stand before `member` without harm to the
    /// invariant: it has no terminator and no empty literal, and none of its
    /// names is a name of `member`.
    #[verifier::loop_isolation(false)]
    pub fn fits_before(&self, member: &Pattern) -> (r: bool)
        ensures
            r == self@.fits_before(member@),
    {
        if self.terminator.is_some() {
            return false;
        }
        let mut i: usize = 0;
        while i < self.segments.len()
            invariant
                i <= self.segments.len(),
                forall|j: int| 0 <= j < i ==> !(#[trigger] self@.segments[j]).is_empty_fixed(),
            decreases self.segments.len() - i,
        {
            assert(self@.segments[i as int] == self.segments@[i as int]@);
            if self.segments[i].is_empty_fixed() {
                return false;
            }
            i = i + 1;
        }
        let mine = self.param_names();
        let theirs = member.param_names();
        let mut k: usize = 0;
        while k < mine.len()
            invariant
                k <= mine.len(),
                forall|a: int, b: int|
                    0 <= a < k && 0 <= b < theirs.deep_view().len() ==> mine.deep_view()[a]
                        != theirs.deep_view()[b],
            decreases mine.len() - k,
        {
            if holds_name(&theirs, &mine[k]) {
                let ghost b = choose|b: int|
                    0 <= b < theirs.deep_view().len() && theirs.deep_view()[b] == mine[k as int]@;
                assert(mine.deep_view()[k as int] == theirs.deep_view()[b]);
                return false;
            }
            k = k + 1;
        }
        true
    }

    /// Adds `segment` at the end of this pattern.
    pub fn push(&mut self, segment: Segment)
        requires
            old(self)@.admits(segment@),
        ensures
            final(self)@ == old(self)@.push(segment@),
            old(self)@.wf() ==> final(self)@.wf(),
    {
        proof {
            if self@.wf() {
                lemma_push_keeps_wf(self@, segment@);
            }
        }
        let ghost before = self.segments@;
        self.segments.push(segment);
        assert(segment_views(before.push(segment)) =~= segment_views(before).push(segment@));
    }

    /// Tests whether this pattern matches `path`.
    #[verifier::loop_isolation(false)]
    pub fn is_match(&self, path: &str) -> (r: bool)
        requires
            starts_with(path@, '/'),
        ensures
            r == self@.matches(path@),
    {
        let chars = chars_of(path);
        let n = chars.len();
        let slash = chars[n - 1] == '/';
        let optional = match &self.terminator {
            Some(Terminator::OptionalSlash) => true,
            _ => false,
        };
        let tail = match &self.terminator {
            Some(Terminator::Tail(_)) => true,
            _ => false,
        };
        let end = if optional && slash {
            n - 1
        } else {
            n
        };
        let spans = split_spans(&chars, 0, end, '/');
        let ghost walked = chars@.subrange(0, end as int);
        let ghost parts = components(walked);
        proof {
            if end == n {
                assert(walked =~= path@);
            }
        }
        let m = spans.len() - 1;
        let k = self.segments.len();
        if (tail && m <= k) || (!tail && m != k) {
            return false;
        }
        let mut i: usize = 0;
        while i < k
            invariant
                i <= k <= m,
                k == self.segments.len(),
                m + 1 == spans.len(),
                parts == split(walked, '/').skip(1),
                spans_cut(chars@, spans@, split(walked, '/')),
                forall|j: int| 0 <= j < i ==> (#[trigger] self@.segments[j]).accepts(parts[j]),
            decreases k - i,
        {
            let span = spans[i + 1];
            assert(self@.segments[i as int] == self.segments@[i as int]@);
            if !self.segments[i].accepts_span(&chars, span.0, span.1) {
                return false;
            }
            i = i + 1;
        }
        true
    }

    /// The number of segments before the first empty literal.
    pub fn lead_count(&self) -> (k: usize)
        ensures
            k == lead(self@.segments),
            k <= self@.segments.len(),
    {
        let ghost all = segment_views(self.segments@);
        let mut i: usize = 0;
        assert(all.skip(0) =~= all);
        while i < self.segments.len() && !self.segments[i].is_empty_fixed()
            invariant
                i <= self.segments.len(),
                all == segment_views(self.segments@),
                lead(all) == i + lead(all.skip(i as int)),
            decreases self.segments.len() - i,
        {
            assert(all.skip(i as int).skip(1) =~= all.skip(i + 1));
            i = i + 1;
        }
        i
    }

    /// Ranks this pattern against `other` by specificity.
    pub fn compare(&self, other: &Pattern) -> (r: Rank)
        ensures
            r == rank_pattern(self@, other@),
    {
        let ka = self.lead_count();
        let kb = other.lead_count();
        if ka > kb {
            return Rank::Before;
        }
        if ka < kb {
            return Rank::After;
        }
        let first = compare_runs(&self.segments, &other.segments, 0, ka, kb);
        match first {
            Rank::Same => {},
            _ => {
                return first;
            },
        }
        let second = compare_terminators(&self.terminator, &other.terminator);
        match second {
            Rank::Same => {},
            _ => {
                return second;
            },
        }
        compare_runs(
            &self.segments,
            &other.segments,
            ka,
            self.segments.len(),
            other.segments.len(),
        )
    }

    /// The pattern made of `segments` and `terminator`.
    pub(crate) fn from_parts(segments: Vec<Segment>, terminator: Option<Terminator>) -> (p:
        Pattern)
        ensures
            p@ == (PatternView {
                segments: segment_views(segments@),
                terminator: terminator_view(terminator),
            }),
    {
        Pattern { segments, terminator }
    }

    /// The segments of this pattern followed by those of `member`, with the
    /// terminator of `member`.
    pub fn join(&self, member: &Pattern) -> (r: Pattern)
        requires
            !self@.terminated(),
        ensures
            r@ == self@.join(member@),
            self@.wf() && member@.wf() && self@.fits_before(member@) ==> r@.wf(),
    {
        proof {
            if self@.wf() && member@.wf() && self@.fits_before(member@) {
                lemma_join_wf(self@, member@);
            }
        }
        let base = self.clone();
        let mut segments = base.segments;
        let ghost first = segment_views(segments@);
        let mut i: usize = 0;
        while i < member.segments.len()
            invariant
                i <= member.segments.len(),
                segment_views(segments@) == first + segment_views(member.segments@).take(i as int),
            decreases member.segments.len() - i,
        {
            let ghost before = segments@;
            let segment = member.segments[i].clone();
            segments.push(segment);
            assert(segment_views(before.push(segment)) =~= segment_views(before).push(segment@));
            i = i + 1;
        }
        assert(segment_views(member.segments@).take(i as int) =~= segment_views(
            member.segments@,
        ));
        let terminator = match &member.terminator {
            Some(t) => Some(t.clone()),
            None => None,
        };
        Pattern { segments, terminator }
    }

    /// The segments, in order.
    pub fn segments(&self) -> (r: &Vec<Segment>)
        ensures
            segment_views(r@) == self@.segments,
    {
        &self.segments
    }

    /// The terminator, if one is set.
    pub fn terminator(&self) -> (r: &Option<Terminator>)
        ensures
            terminator_view(*r) == self@.terminator,
    {
        &self.terminator
    }
}

} // verus!

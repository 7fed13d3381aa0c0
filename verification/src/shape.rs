//! The mathematical model of a path pattern: what a pattern is, which paths
//! it matches, and how it is written as text.

use crate::text::{ends_with, split};
use vstd::prelude::*;

verus! {

/// One path component of a pattern.
pub enum SegmentView {
    /// A literal, compared character by character.
    Fixed(Seq<char>),
    /// A named capture of one component; the flag allows the empty component.
    Parameter(Seq<char>, bool),
}

/// What may follow the segments of a pattern.
pub enum TerminatorView {
    /// The path may carry one more `/` at its end.
    OptionalSlash,
    /// The rest of the path, slashes included, is captured under this name.
    Tail(Seq<char>),
}

/// A pattern: its segments and its optional terminator.
pub struct PatternView {
    pub segments: Seq<SegmentView>,
    pub terminator: Option<TerminatorView>,
}

impl SegmentView {
    /// Whether this is the literal with no characters.
    pub open spec fn is_empty_fixed(self) -> bool {
        self == SegmentView::Fixed(Seq::<char>::empty())
    }

    /// Whether this segment accepts `part` as its path component.
    pub open spec fn accepts(self, part: Seq<char>) -> bool {
        match self {
            SegmentView::Fixed(text) => part == text,
            SegmentView::Parameter(_, allow_empty) => allow_empty || part.len() > 0,
        }
    }
}

/// The names captured by `segments`, in order.
pub open spec fn segment_names(segments: Seq<SegmentView>) -> Seq<Seq<char>>
    decreases segments.len(),
{
    if segments.len() == 0 {
        Seq::empty()
    } else {
        let head = segment_names(segments.drop_last());
        match segments.last() {
            SegmentView::Fixed(_) => head,
            SegmentView::Parameter(name, _) => head.push(name),
        }
    }
}

/// A pattern stays well formed when a segment that it admits is pushed.
pub proof fn lemma_push_keeps_wf(p: PatternView, segment: SegmentView)
    requires
        p.wf(),
        p.admits(segment),
    ensures
        p.push(segment).wf(),
{
    let q = p.push(segment);
    assert(q.segments.drop_last() =~= p.segments);
}

/// The names of two runs of segments, one after the other.
pub proof fn lemma_segment_names_concat(a: Seq<SegmentView>, b: Seq<SegmentView>)
    ensures
        segment_names(a + b) == segment_names(a) + segment_names(b),
    decreases b.len(),
{
    if b.len() > 0 {
        assert((a + b).drop_last() =~= a + b.drop_last());
        lemma_segment_names_concat(a, b.drop_last());
    }
}

/// A pattern keeps its invariant behind a prefix that fits before it, and
/// captures the names of the prefix before its own.
pub proof fn lemma_join_wf(base: PatternView, member: PatternView)
    requires
        base.wf(),
        member.wf(),
        base.fits_before(member),
    ensures
        base.join(member).wf(),
        base.join(member).names() == base.names() + member.names(),
{
    lemma_segment_names_concat(base.segments, member.segments);
}

/// Patterns that differ still differ behind a common prefix.
pub proof fn lemma_join_injective(base: PatternView, a: PatternView, b: PatternView)
    requires
        base.join(a) == base.join(b),
    ensures
        a == b,
{
    let n = base.segments.len() as int;
    assert(a.segments =~= base.join(a).segments.skip(n));
    assert(b.segments =~= base.join(b).segments.skip(n));
}

/// The components of `path`: what stands between its slashes, after the
/// leading one. The empty path has none.
pub open spec fn components(path: Seq<char>) -> Seq<Seq<char>> {
    split(path, '/').skip(1)
}

impl PatternView {
    /// The pattern with no segments and no terminator.
    pub open spec fn empty() -> PatternView {
        PatternView { segments: Seq::empty(), terminator: None }
    }

    /// Whether a terminator is set.
    pub open spec fn terminated(self) -> bool {
        self.terminator is Some
    }

    /// This pattern with `segment` added at its end.
    pub open spec fn push(self, segment: SegmentView) -> PatternView {
        PatternView { segments: self.segments.push(segment), terminator: self.terminator }
    }

    /// The segments of `self` followed by those of `member`, with the
    /// terminator of `member`.
    pub open spec fn join(self, member: PatternView) -> PatternView {
        PatternView {
            segments: self.segments + member.segments,
            terminator: member.terminator,
        }
    }

    /// Whether this pattern can stand before `member` without harm to the
    /// invariant: it has no terminator and no empty literal, and none of its
    /// names is a name of `member`.
    pub open spec fn fits_before(self, member: PatternView) -> bool {
        &&& !self.terminated()
        &&& forall|i: int|
            0 <= i < self.segments.len() ==> !(#[trigger] self.segments[i]).is_empty_fixed()
        &&& forall|i: int, j: int|
            0 <= i < self.names().len() && 0 <= j < member.names().len() ==> self.names()[i]
                != member.names()[j]
    }

    /// The names this pattern captures, in the order in which they are
    /// declared: those of its parameters, then that of its tail.
    pub open spec fn names(self) -> Seq<Seq<char>> {
        match self.terminator {
            Some(TerminatorView::Tail(name)) => segment_names(self.segments).push(name),
            _ => segment_names(self.segments),
        }
    }

    /// Whether an empty literal stands only at the end, if anywhere.
    pub open spec fn empty_only_last(self) -> bool {
        forall|i: int|
            0 <= i < self.segments.len() - 1 ==> !(#[trigger] self.segments[i]).is_empty_fixed()
    }

    /// The invariant of a pattern built by parsing or by pushing segments:
    /// no name is captured twice, and an empty literal stands only at the end.
    pub open spec fn wf(self) -> bool {
        &&& self.names().no_duplicates()
        &&& self.empty_only_last()
    }

    /// Whether `segment` may be pushed: no terminator is set, the last
    /// segment so far is no empty literal, and a parameter brings a new name.
    pub open spec fn admits(self, segment: SegmentView) -> bool {
        &&& !self.terminated()
        &&& (self.segments.len() > 0 ==> !self.segments.last().is_empty_fixed())
        &&& (segment matches SegmentView::Parameter(name, _) ==> !self.names().contains(name))
    }

    /// Whether the first `self.segments.len()` of `parts` are accepted, each
    /// by the segment at its place.
    pub open spec fn accepts_parts(self, parts: Seq<Seq<char>>) -> bool {
        forall|i: int|
            0 <= i < self.segments.len() ==> (#[trigger] self.segments[i]).accepts(parts[i])
    }

    /// Whether this pattern matches `path`, a path that begins with `/`.
    ///
    /// Without a terminator the components of the path and the segments
    /// correspond one to one. With an optional slash the same holds of the
    /// path without its trailing slash, if it has one. With a tail the
    /// segments take the first components and the tail takes the rest, of
    /// which there is at least one: a slash follows the components that the
    /// segments take, and what the tail captures behind it may be empty.
    pub open spec fn matches(self, path: Seq<char>) -> bool {
        match self.terminator {
            None => {
                let parts = components(path);
                parts.len() == self.segments.len() && self.accepts_parts(parts)
            },
            Some(TerminatorView::OptionalSlash) => {
                let parts = components(
                    if ends_with(path, '/') {
                        path.drop_last()
                    } else {
                        path
                    },
                );
                parts.len() == self.segments.len() && self.accepts_parts(parts)
            },
            Some(TerminatorView::Tail(_)) => {
                let parts = components(path);
                parts.len() > self.segments.len() && self.accepts_parts(parts)
            },
        }
    }
}

} // verus!

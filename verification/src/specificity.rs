//! The specificity order on patterns, and the proof that it is a strict
//! total order.
//!
//! Where two patterns match the same path, the one that comes first in this
//! order wins.

use crate::order::{
    lemma_rank_text_flip, lemma_rank_text_same, lemma_rank_text_trans, rank_bool, rank_int,
    rank_text, Rank,
};
use crate::shape::{PatternView, SegmentView, TerminatorView};
use vstd::prelude::*;

verus! {

/// The rank of two segments at the same position: a literal comes before a
/// parameter, literals go by their text, parameters by whether they allow
/// the empty component (those that do not come first) and then by name.
pub open spec fn rank_segment(a: SegmentView, b: SegmentView) -> Rank {
    match (a, b) {
        (SegmentView::Fixed(x), SegmentView::Fixed(y)) => rank_text(x, y),
        (SegmentView::Fixed(_), SegmentView::Parameter(_, _)) => Rank::Before,
        (SegmentView::Parameter(_, _), SegmentView::Fixed(_)) => Rank::After,
        (SegmentView::Parameter(x, ex), SegmentView::Parameter(y, ey)) => rank_bool(ex, ey).or(
            rank_text(x, y),
        ),
    }
}

/// Lexicographic rank of two runs of segments; a proper prefix comes first.
pub open spec fn rank_segments(a: Seq<SegmentView>, b: Seq<SegmentView>) -> Rank
    decreases a.len(),
{
    if a.len() == 0 || b.len() == 0 {
        rank_int(a.len() as int, b.len() as int)
    } else {
        rank_segment(a[0], b[0]).or(rank_segments(a.skip(1), b.skip(1)))
    }
}

/// The rank of two terminators: none, then the optional slash, then tails by
/// name.
pub open spec fn rank_terminator(a: Option<TerminatorView>, b: Option<TerminatorView>) -> Rank {
    match (a, b) {
        (None, None) => Rank::Same,
        (None, Some(_)) => Rank::Before,
        (Some(_), None) => Rank::After,
        (Some(TerminatorView::OptionalSlash), Some(TerminatorView::OptionalSlash)) => Rank::Same,
        (Some(TerminatorView::OptionalSlash), Some(TerminatorView::Tail(_))) => Rank::Before,
        (Some(TerminatorView::Tail(_)), Some(TerminatorView::OptionalSlash)) => Rank::After,
        (Some(TerminatorView::Tail(x)), Some(TerminatorView::Tail(y))) => rank_text(x, y),
    }
}

/// The number of segments before the first empty literal.
pub open spec fn lead(segments: Seq<SegmentView>) -> nat
    decreases segments.len(),
{
    if segments.len() == 0 || segments[0].is_empty_fixed() {
        0
    } else {
        1 + lead(segments.skip(1))
    }
}

/// The specificity rank of `a` relative to `b`. `Before` means more specific.
///
/// The pattern with more segments before its first empty literal comes
/// first. On a tie those segments are ranked pairwise from the left, then
/// the terminators, and last what stands from the empty literal on.
pub open spec fn rank_pattern(a: PatternView, b: PatternView) -> Rank {
    let ka = lead(a.segments) as int;
    let kb = lead(b.segments) as int;
    rank_int(kb, ka).or(rank_segments(a.segments.take(ka), b.segments.take(kb))).or(
        rank_terminator(a.terminator, b.terminator),
    ).or(rank_segments(a.segments.skip(ka), b.segments.skip(kb)))
}

/// Whether `a` is more specific than `b`.
pub open spec fn precedes(a: PatternView, b: PatternView) -> bool {
    rank_pattern(a, b) == Rank::Before
}

/// No more segments stand before the first empty literal than there are
/// segments.
pub proof fn lemma_lead_bound(segments: Seq<SegmentView>)
    ensures
        lead(segments) <= segments.len(),
    decreases segments.len(),
{
    if segments.len() > 0 && !segments[0].is_empty_fixed() {
        lemma_lead_bound(segments.skip(1));
    }
}

/// Swapping two segments flips their rank.
pub proof fn lemma_rank_segment_flip(a: SegmentView, b: SegmentView)
    ensures
        rank_segment(b, a) == rank_segment(a, b).flip(),
{
    match (a, b) {
        (SegmentView::Fixed(x), SegmentView::Fixed(y)) => lemma_rank_text_flip(x, y),
        (SegmentView::Parameter(x, _), SegmentView::Parameter(y, _)) => lemma_rank_text_flip(x, y),
        _ => {},
    }
}

/// Two segments rank the same exactly when they are equal.
pub proof fn lemma_rank_segment_same(a: SegmentView, b: SegmentView)
    ensures
        rank_segment(a, b) == Rank::Same <==> a == b,
{
    match (a, b) {
        (SegmentView::Fixed(x), SegmentView::Fixed(y)) => lemma_rank_text_same(x, y),
        (SegmentView::Parameter(x, _), SegmentView::Parameter(y, _)) => lemma_rank_text_same(x, y),
        _ => {},
    }
}

/// The order on segments is transitive.
pub proof fn lemma_rank_segment_trans(a: SegmentView, b: SegmentView, c: SegmentView)
    requires
        rank_segment(a, b) != Rank::After,
        rank_segment(b, c) != Rank::After,
    ensures
        rank_segment(a, c) != Rank::After,
        rank_segment(a, c) == Rank::Same ==> rank_segment(a, b) == Rank::Same && rank_segment(
            b,
            c,
        ) == Rank::Same,
{
    match (a, b, c) {
        (SegmentView::Fixed(x), SegmentView::Fixed(y), SegmentView::Fixed(z)) => {
            lemma_rank_text_trans(x, y, z)
        },
        (
            SegmentView::Parameter(x, ex),
            SegmentView::Parameter(y, ey),
            SegmentView::Parameter(z, ez),
        ) => {
            if ex == ey && ey == ez {
                lemma_rank_text_trans(x, y, z);
            }
        },
        _ => {},
    }
}

/// Swapping two runs of segments flips their rank.
pub proof fn lemma_rank_segments_flip(a: Seq<SegmentView>, b: Seq<SegmentView>)
    ensures
        rank_segments(b, a) == rank_segments(a, b).flip(),
    decreases a.len(),
{
    if a.len() != 0 && b.len() != 0 {
        lemma_rank_segment_flip(a[0], b[0]);
        lemma_rank_segments_flip(a.skip(1), b.skip(1));
    }
}

/// Two runs of segments rank the same exactly when they are equal.
pub proof fn lemma_rank_segments_same(a: Seq<SegmentView>, b: Seq<SegmentView>)
    ensures
        rank_segments(a, b) == Rank::Same <==> a == b,
    decreases a.len(),
{
    if a.len() != 0 && b.len() != 0 {
        lemma_rank_segment_same(a[0], b[0]);
        lemma_rank_segments_same(a.skip(1), b.skip(1));
        if rank_segments(a, b) == Rank::Same {
            assert(a =~= seq![a[0]] + a.skip(1));
            assert(b =~= seq![b[0]] + b.skip(1));
        }
    } else if a.len() == 0 && b.len() == 0 {
        assert(a =~= b);
    }
}

/// The order on runs of segments is transitive.
pub proof fn lemma_rank_segments_trans(
    a: Seq<SegmentView>,
    b: Seq<SegmentView>,
    c: Seq<SegmentView>,
)
    requires
        rank_segments(a, b) != Rank::After,
        rank_segments(b, c) != Rank::After,
    ensures
        rank_segments(a, c) != Rank::After,
        rank_segments(a, c) == Rank::Same ==> rank_segments(a, b) == Rank::Same && rank_segments(
            b,
            c,
        ) == Rank::Same,
    decreases a.len(),
{
    if a.len() != 0 && b.len() != 0 && c.len() != 0 {
        lemma_rank_segment_trans(a[0], b[0], c[0]);
        if rank_segment(a[0], b[0]) == Rank::Same && rank_segment(b[0], c[0]) == Rank::Same {
            lemma_rank_segments_trans(a.skip(1), b.skip(1), c.skip(1));
        }
    }
}

/// Swapping two terminators flips their rank.
pub proof fn lemma_rank_terminator_flip(a: Option<TerminatorView>, b: Option<TerminatorView>)
    ensures
        rank_terminator(b, a) == rank_terminator(a, b).flip(),
{
    match (a, b) {
        (Some(TerminatorView::Tail(x)), Some(TerminatorView::Tail(y))) => lemma_rank_text_flip(
            x,
            y,
        ),
        _ => {},
    }
}

/// Two terminators rank the same exactly when they are equal.
pub proof fn lemma_rank_terminator_same(a: Option<TerminatorView>, b: Option<TerminatorView>)
    ensures
        rank_terminator(a, b) == Rank::Same <==> a == b,
{
    match (a, b) {
        (Some(TerminatorView::Tail(x)), Some(TerminatorView::Tail(y))) => lemma_rank_text_same(
            x,
            y,
        ),
        _ => {},
    }
}

/// The order on terminators is transitive.
pub proof fn lemma_rank_terminator_trans(
    a: Option<TerminatorView>,
    b: Option<TerminatorView>,
    c: Option<TerminatorView>,
)
    requires
        rank_terminator(a, b) != Rank::After,
        rank_terminator(b, c) != Rank::After,
    ensures
        rank_terminator(a, c) != Rank::After,
        rank_terminator(a, c) == Rank::Same ==> rank_terminator(a, b) == Rank::Same
            && rank_terminator(b, c) == Rank::Same,
{
    match (a, b, c) {
        (
            Some(TerminatorView::Tail(x)),
            Some(TerminatorView::Tail(y)),
            Some(TerminatorView::Tail(z)),
        ) => lemma_rank_text_trans(x, y, z),
        _ => {},
    }
}

/// Swapping two patterns flips their rank.
pub proof fn lemma_rank_pattern_flip(a: PatternView, b: PatternView)
    ensures
        rank_pattern(b, a) == rank_pattern(a, b).flip(),
{
    let ka = lead(a.segments) as int;
    let kb = lead(b.segments) as int;
    lemma_rank_segments_flip(a.segments.take(ka), b.segments.take(kb));
    lemma_rank_terminator_flip(a.terminator, b.terminator);
    lemma_rank_segments_flip(a.segments.skip(ka), b.segments.skip(kb));
}

/// Two patterns rank the same exactly when they are equal.
pub proof fn lemma_rank_pattern_same(a: PatternView, b: PatternView)
    ensures
        rank_pattern(a, b) == Rank::Same <==> a == b,
{
    let ka = lead(a.segments) as int;
    let kb = lead(b.segments) as int;
    lemma_lead_bound(a.segments);
    lemma_lead_bound(b.segments);
    lemma_rank_segments_same(a.segments.take(ka), b.segments.take(kb));
    lemma_rank_terminator_same(a.terminator, b.terminator);
    lemma_rank_segments_same(a.segments.skip(ka), b.segments.skip(kb));
    if rank_pattern(a, b) == Rank::Same {
        assert(a.segments =~= a.segments.take(ka) + a.segments.skip(ka));
        assert(b.segments =~= b.segments.take(kb) + b.segments.skip(kb));
    }
}

/// The order on patterns is transitive.
pub proof fn lemma_rank_pattern_trans(a: PatternView, b: PatternView, c: PatternView)
    requires
        rank_pattern(a, b) != Rank::After,
        rank_pattern(b, c) != Rank::After,
    ensures
        rank_pattern(a, c) != Rank::After,
        rank_pattern(a, c) == Rank::Same ==> rank_pattern(a, b) == Rank::Same && rank_pattern(
            b,
            c,
        ) == Rank::Same,
{
    let ka = lead(a.segments) as int;
    let kb = lead(b.segments) as int;
    let kc = lead(c.segments) as int;
    if ka == kb && kb == kc {
        let (pa, pb, pc) = (a.segments.take(ka), b.segments.take(kb), c.segments.take(kc));
        lemma_rank_segments_trans(pa, pb, pc);
        if rank_segments(pa, pb) == Rank::Same && rank_segments(pb, pc) == Rank::Same {
            lemma_rank_terminator_trans(a.terminator, b.terminator, c.terminator);
            if rank_terminator(a.terminator, b.terminator) == Rank::Same && rank_terminator(
                b.terminator,
                c.terminator,
            ) == Rank::Same {
                lemma_rank_segments_trans(
                    a.segments.skip(ka),
                    b.segments.skip(kb),
                    c.segments.skip(kc),
                );
            }
        }
    }
}

/// Specificity is a strict total order: no pattern precedes itself, of two
/// distinct patterns exactly one precedes the other, and precedence carries
/// over a pattern in between.
pub proof fn lemma_specificity_strict_total(a: PatternView, b: PatternView, c: PatternView)
    ensures
        !precedes(a, a),
        a != b ==> (precedes(a, b) <==> !precedes(b, a)),
        precedes(a, b) && precedes(b, c) ==> precedes(a, c),
{
    lemma_rank_pattern_same(a, a);
    lemma_rank_pattern_same(a, b);
    lemma_rank_pattern_flip(a, b);
    if precedes(a, b) && precedes(b, c) {
        lemma_rank_pattern_trans(a, b, c);
    }
}

} // verus!

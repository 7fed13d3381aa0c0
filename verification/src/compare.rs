//! The standard comparison and conversion traits of segments and patterns:
//! equality is equality of the models, and the order on patterns is the
//! specificity order, most specific first.

use crate::order::Rank;
use crate::parse::{parse_result, segment_of, ParseError};
use crate::pattern::{Pattern, Segment};
use crate::pattern_set::{PatternSet, PatternSetView};
use crate::shape::PatternView;
use crate::text::starts_with;
use crate::specificity::{lemma_rank_pattern_same, lemma_rank_segment_same, rank_pattern};
use core::cmp::Ordering;
use core::str::FromStr;
use vstd::prelude::*;
use vstd::std_specs::cmp::{PartialEqSpecImpl, PartialOrdSpecImpl};

verus! {

impl PartialEq for Segment {
    fn eq(&self, other: &Segment) -> (r: bool) {
        proof {
            lemma_rank_segment_same(self@, other@);
        }
        match self.compare(other) {
            Rank::Same => true,
            _ => false,
        }
    }
}

impl PartialEqSpecImpl for Segment {
    open spec fn obeys_eq_spec() -> bool {
        true
    }

    open spec fn eq_spec(&self, other: &Segment) -> bool {
        self@ == other@
    }
}

impl Eq for Segment {

}

impl FromStr for Segment {
    type Err = ParseError;

    fn from_str(s: &str) -> (r: Result<Segment, ParseError>)
        ensures
            match r {
                Ok(segment) => !starts_with(s@, ':') && segment@ == segment_of(s@),
                Err(e) => starts_with(s@, ':') && e == ParseError::TailNotLast,
            },
    {
        Segment::parse(s)
    }
}

impl PartialEq for Pattern {
    fn eq(&self, other: &Pattern) -> (r: bool) {
        proof {
            lemma_rank_pattern_same(self@, other@);
        }
        match self.compare(other) {
            Rank::Same => true,
            _ => false,
        }
    }
}

impl PartialEqSpecImpl for Pattern {
    open spec fn obeys_eq_spec() -> bool {
        true
    }

    open spec fn eq_spec(&self, other: &Pattern) -> bool {
        self@ == other@
    }
}

impl Eq for Pattern {

}

impl PartialOrd for Pattern {
    fn partial_cmp(&self, other: &Pattern) -> (r: Option<Ordering>) {
        match self.compare(other) {
            Rank::Before => Some(Ordering::Less),
            Rank::Same => Some(Ordering::Equal),
            Rank::After => Some(Ordering::Greater),
        }
    }
}

impl PartialOrdSpecImpl for Pattern {
    open spec fn obeys_partial_cmp_spec() -> bool {
        true
    }

    open spec fn partial_cmp_spec(&self, other: &Pattern) -> Option<Ordering> {
        match rank_pattern(self@, other@) {
            Rank::Before => Some(Ordering::Less),
            Rank::Same => Some(Ordering::Equal),
            Rank::After => Some(Ordering::Greater),
        }
    }
}

impl FromStr for Pattern {
    type Err = ParseError;

    fn from_str(s: &str) -> (r: Result<Pattern, ParseError>)
        ensures
            match r {
                Ok(p) => parse_result(s@) == Ok::<PatternView, ParseError>(p@) && p@.wf(),
                Err(e) => parse_result(s@) == Err::<PatternView, ParseError>(e),
            },
    {
        Pattern::parse(s)
    }
}

impl Default for Pattern {
    fn default() -> (r: Pattern)
        ensures
            r@ == PatternView::empty(),
    {
        Pattern::new()
    }
}

impl Default for PatternSet {
    fn default() -> (r: PatternSet)
        ensures
            r.wf(),
            r@ == PatternSetView::empty(),
    {
        PatternSet::new()
    }
}

} // verus!

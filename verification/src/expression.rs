//! The match-expression derived from a pattern, and the pattern written
//! back as text.

use crate::pattern::{segment_views, Pattern, Segment, Terminator};
use crate::shape::{PatternView, SegmentView, TerminatorView};
use vstd::prelude::*;
use vstd::string::StringExecFns;

verus! {

/// Whether `c` has a meaning of its own in a regular expression.
pub open spec fn is_meta(c: char) -> bool {
    c == '\\' || c == '.' || c == '+' || c == '*' || c == '?' || c == '(' || c == ')' || c == '|'
        || c == '[' || c == ']' || c == '{' || c == '}' || c == '^' || c == '$' || c == '#' || c
        == '&' || c == '-' || c == '~'
}

/// `text` with a backslash before each character that has a meaning of its
/// own in a regular expression.
pub open spec fn escaped(text: Seq<char>) -> Seq<char>
    decreases text.len(),
{
    if text.len() == 0 {
        Seq::empty()
    } else if is_meta(text.last()) {
        escaped(text.drop_last()).push('\\').push(text.last())
    } else {
        escaped(text.drop_last()).push(text.last())
    }
}

/// The texts of `parts` with `sep` between each two neighbours.
pub open spec fn joined(parts: Seq<Seq<char>>, sep: Seq<char>) -> Seq<char>
    decreases parts.len(),
{
    if parts.len() == 0 {
        Seq::empty()
    } else if parts.len() == 1 {
        parts[0]
    } else {
        joined(parts.drop_last(), sep) + sep + parts.last()
    }
}

/// The expression that matches one component as `segment` does: the escaped
/// literal, or a group that captures one component.
pub open spec fn segment_expression(segment: SegmentView) -> Seq<char> {
    match segment {
        SegmentView::Fixed(text) => escaped(text),
        SegmentView::Parameter(_, allow_empty) => if allow_empty {
            "([^/]*)"@
        } else {
            "([^/]+)"@
        },
    }
}

/// What the terminator adds to the expression of a pattern, after a slash
/// where segments stand before it.
pub open spec fn terminator_expression(p: PatternView) -> Seq<char> {
    match p.terminator {
        None => Seq::empty(),
        Some(t) => (if p.segments.len() > 0 {
            "/"@
        } else {
            Seq::empty()
        }) + (match t {
            TerminatorView::OptionalSlash => "?"@,
            TerminatorView::Tail(_) => "(.*)"@,
        }),
    }
}

/// The match-expression of a pattern, anchored at both ends. It is written
/// for a path without its leading slash.
pub open spec fn expression(p: PatternView) -> Seq<char> {
    "^"@ + joined(p.segments.map_values(|s: SegmentView| segment_expression(s)), "/"@)
        + terminator_expression(p) + "$"@
}

/// A segment as it is written in a pattern.
pub open spec fn segment_text(segment: SegmentView) -> Seq<char> {
    match segment {
        SegmentView::Fixed(text) => text,
        SegmentView::Parameter(name, allow_empty) => "{"@ + name + (if allow_empty {
            "?"@
        } else {
            Seq::empty()
        }) + "}"@,
    }
}

/// A terminator as it is written at the end of a pattern.
pub open spec fn terminator_text(terminator: Option<TerminatorView>) -> Seq<char> {
    match terminator {
        None => Seq::empty(),
        Some(TerminatorView::OptionalSlash) => "/?"@,
        Some(TerminatorView::Tail(name)) => "/:"@ + name,
    }
}

/// A pattern written as text.
pub open spec fn rendering(p: PatternView) -> Seq<char> {
    "/"@ + joined(p.segments.map_values(|s: SegmentView| segment_text(s)), "/"@) + terminator_text(
        p.terminator,
    )
}

/// Calls `regex::escape`, which copies `text` and puts a backslash before
/// each of the eighteen characters that `is_meta` lists.
#[verifier::external_body]
fn escape(text: &str) -> (r: String)
    ensures
        r@ == escaped(text@),
{
    regex::escape(text)
}

impl Segment {
    /// The expression that matches one component as this segment does.
    pub fn expression(&self) -> (r: String)
        ensures
            r@ == segment_expression(self@),
    {
        match self {
            Segment::Fixed(text) => escape(text.as_str()),
            Segment::Parameter(_, allow_empty) => if *allow_empty {
                String::from_str("([^/]*)")
            } else {
                String::from_str("([^/]+)")
            },
        }
    }

    /// This segment as it is written in a pattern.
    pub fn render(&self) -> (r: String)
        ensures
            r@ == segment_text(self@),
    {
        match self {
            Segment::Fixed(text) => text.clone(),
            Segment::Parameter(name, allow_empty) => {
                let mut out = String::from_str("{");
                out.append(name.as_str());
                if *allow_empty {
                    out.append("?");
                }
                out.append("}");
                out
            },
        }
    }
}

impl Pattern {
    /// The match-expression of this pattern.
    pub fn to_re_string(&self) -> (r: String)
        ensures
            r@ == expression(self@),
    {
        let segments = self.segments();
        let ghost parts = self@.segments.map_values(|s: SegmentView| segment_expression(s));
        let mut out = String::from_str("^");
        let mut i: usize = 0;
        while i < segments.len()
            invariant
                i <= segments.len(),
                segment_views(segments@) == self@.segments,
                parts == self@.segments.map_values(|s: SegmentView| segment_expression(s)),
                out@ == "^"@ + joined(parts.take(i as int), "/"@),
            decreases segments.len() - i,
        {
            if i > 0 {
                out.append("/");
            }
            let piece = segments[i].expression();
            out.append(piece.as_str());
            proof {
                assert(parts.take(i + 1).drop_last() =~= parts.take(i as int));
            }
            i = i + 1;
        }
        assert(parts.take(i as int) =~= parts);
        match self.terminator() {
            None => {},
            Some(t) => {
                if segments.len() > 0 {
                    out.append("/");
                }
                match t {
                    Terminator::OptionalSlash => out.append("?"),
                    Terminator::Tail(_) => out.append("(.*)"),
                }
            },
        }
        out.append("$");
        out
    }

    /// This pattern written as text.
    pub fn render(&self) -> (r: String)
        ensures
            r@ == rendering(self@),
    {
        let segments = self.segments();
        let ghost parts = self@.segments.map_values(|s: SegmentView| segment_text(s));
        let mut out = String::from_str("/");
        let mut i: usize = 0;
        while i < segments.len()
            invariant
                i <= segments.len(),
                segment_views(segments@) == self@.segments,
                parts == self@.segments.map_values(|s: SegmentView| segment_text(s)),
                out@ == "/"@ + joined(parts.take(i as int), "/"@),
            decreases segments.len() - i,
        {
            if i > 0 {
                out.append("/");
            }
            let piece = segments[i].render();
            out.append(piece.as_str());
            proof {
                assert(parts.take(i + 1).drop_last() =~= parts.take(i as int));
            }
            i = i + 1;
        }
        assert(parts.take(i as int) =~= parts);
        match self.terminator() {
            None => {},
            Some(Terminator::OptionalSlash) => out.append("/?"),
            Some(Terminator::Tail(name)) => {
                out.append("/:");
                out.append(name.as_str());
            },
        }
        out
    }
}

} // verus!

//! The textual form of patterns and its parser.
//!
//! A pattern is written as segments separated by `/`. `{name}` captures one
//! component, `{name?}` one component that may be empty, and any other text
//! is a literal. A trailing `/?` allows one optional slash at the end of the
//! path; a last segment `:name` captures the rest of the path.

use crate::pattern::{segment_views, Pattern, Segment, Terminator};
use crate::shape::{PatternView, SegmentView, TerminatorView};
use crate::text::{chars_of, ends_with, split, split_spans, starts_with};
use vstd::prelude::*;
use vstd::string::{StrSliceExecFns, StringExecFns};

verus! {

/// Why a text is not a pattern.
#[derive(Clone, Copy, Debug, PartialEq, Eq, Structural)]
pub enum ParseError {
    /// A segment that begins with `:` stands before the end.
    TailNotLast,
    /// An empty literal stands before the end, as in `/a//b`.
    MalformedLiteral,
    /// Two captures of the pattern have the same name.
    DuplicateName,
}

/// The index of the last `c` in `s`, or -1 where there is none.
pub open spec fn last_index_of(s: Seq<char>, c: char) -> int
    decreases s.len(),
{
    if s.len() == 0 {
        -1
    } else if s.last() == c {
        s.len() - 1
    } else {
        last_index_of(s.drop_last(), c)
    }
}

/// Whether `text` ends in `/?`.
pub open spec fn has_optional_slash(text: Seq<char>) -> bool {
    text.len() >= 2 && text[text.len() - 2] == '/' && text[text.len() - 1] == '?'
}

/// Whether what follows the last slash of `text` begins with `:`.
pub open spec fn has_tail(text: Seq<char>) -> bool {
    let last = last_index_of(text, '/');
    last >= 0 && last + 1 < text.len() && text[last + 1] == ':'
}

/// The terminator that `text` ends in, if any.
pub open spec fn terminator_of(text: Seq<char>) -> Option<TerminatorView> {
    if has_optional_slash(text) {
        Some(TerminatorView::OptionalSlash)
    } else if has_tail(text) {
        Some(TerminatorView::Tail(text.skip(last_index_of(text, '/') + 2)))
    } else {
        None
    }
}

/// `text` without its terminator and without its leading slash.
pub open spec fn body_of(text: Seq<char>) -> Seq<char> {
    let cut = if has_optional_slash(text) {
        text.take(text.len() - 2)
    } else if has_tail(text) {
        text.take(last_index_of(text, '/'))
    } else {
        text
    };
    if starts_with(cut, '/') {
        cut.skip(1)
    } else {
        cut
    }
}

/// The texts of the segments of `text`. Where a terminator leaves nothing
/// before it there are none; otherwise the body is split at each slash.
pub open spec fn pieces_of(text: Seq<char>) -> Seq<Seq<char>> {
    if body_of(text).len() == 0 && terminator_of(text) is Some {
        Seq::empty()
    } else {
        split(body_of(text), '/')
    }
}

/// The segment that `piece` denotes.
pub open spec fn segment_of(piece: Seq<char>) -> SegmentView {
    if starts_with(piece, '{') && ends_with(piece, '}') {
        let inner = piece.subrange(1, piece.len() - 1);
        if ends_with(inner, '?') {
            SegmentView::Parameter(inner.drop_last(), true)
        } else {
            SegmentView::Parameter(inner, false)
        }
    } else {
        SegmentView::Fixed(piece)
    }
}

/// What `text` denotes when read segment by segment, before any check.
pub open spec fn reading(text: Seq<char>) -> PatternView {
    PatternView {
        segments: pieces_of(text).map_values(|piece: Seq<char>| segment_of(piece)),
        terminator: terminator_of(text),
    }
}

/// Whether one of `pieces` begins with `:`.
pub open spec fn has_sigil(pieces: Seq<Seq<char>>) -> bool {
    exists|i: int| 0 <= i < pieces.len() && starts_with(#[trigger] pieces[i], ':')
}

/// The pattern that `text` denotes, or why it denotes none.
pub open spec fn parse_result(text: Seq<char>) -> Result<PatternView, ParseError> {
    if has_sigil(pieces_of(text)) {
        Err(ParseError::TailNotLast)
    } else if !reading(text).empty_only_last() {
        Err(ParseError::MalformedLiteral)
    } else if !reading(text).names().no_duplicates() {
        Err(ParseError::DuplicateName)
    } else {
        Ok(reading(text))
    }
}

impl ParseError {
    /// A description of the error.
    pub fn message(&self) -> (r: String)
        ensures
            r@ == match self {
                ParseError::TailNotLast => "`:path` must be the last segment"@,
                ParseError::MalformedLiteral => "there cannot be empty segment"@,
                ParseError::DuplicateName => "duplicated parameter name"@,
            },
    {
        match self {
            ParseError::TailNotLast => String::from_str("`:path` must be the last segment"),
            ParseError::MalformedLiteral => String::from_str("there cannot be empty segment"),
            ParseError::DuplicateName => String::from_str("duplicated parameter name"),
        }
    }
}

/// Finds the last `c` in `chars`.
fn find_last(chars: &Vec<char>, c: char) -> (r: Option<usize>)
    ensures
        match r {
            Some(i) => i == last_index_of(chars@, c) && i < chars.len(),
            None => last_index_of(chars@, c) == -1,
        },
{
    let mut i: usize = chars.len();
    assert(chars@.take(i as int) =~= chars@);
    while i > 0
        invariant
            i <= chars.len(),
            last_index_of(chars@, c) == last_index_of(chars@.take(i as int), c),
        decreases i,
    {
        assert(chars@.take(i as int).drop_last() =~= chars@.take(i - 1));
        if chars[i - 1] == c {
            return Some(i - 1);
        }
        i = i - 1;
    }
    None
}

/// Builds the segment that `chars[from..to]` denotes. `text` holds the same
/// characters as `chars`.
fn segment_from(text: &str, chars: &Vec<char>, from: usize, to: usize) -> (r: Segment)
    requires
        text@ == chars@,
        from <= to <= chars.len(),
    ensures
        r@ == segment_of(chars@.subrange(from as int, to as int)),
{
    let ghost piece = chars@.subrange(from as int, to as int);
    if to > from && chars[from] == '{' && chars[to - 1] == '}' {
        let ghost inner = piece.subrange(1, piece.len() - 1);
        assert(inner =~= chars@.subrange(from + 1, to - 1));
        if to - 1 > from + 1 && chars[to - 2] == '?' {
            assert(inner.drop_last() =~= chars@.subrange(from + 1, to - 2));
            Segment::Parameter(String::from_str(text.substring_char(from + 1, to - 2)), true)
        } else {
            Segment::Parameter(String::from_str(text.substring_char(from + 1, to - 1)), false)
        }
    } else {
        Segment::Fixed(String::from_str(text.substring_char(from, to)))
    }
}

impl Segment {
    /// Parses `text` as one segment. A text that begins with `:` is refused:
    /// a tail stands only at the end of a pattern.
    pub fn parse(text: &str) -> (r: Result<Segment, ParseError>)
        ensures
            match r {
                Ok(segment) => !starts_with(text@, ':') && segment@ == segment_of(text@),
                Err(e) => starts_with(text@, ':') && e == ParseError::TailNotLast,
            },
    {
        let chars = chars_of(text);
        if chars.len() > 0 && chars[0] == ':' {
            return Err(ParseError::TailNotLast);
        }
        assert(chars@.subrange(0, chars.len() as int) =~= chars@);
        Ok(segment_from(text, &chars, 0, chars.len()))
    }
}

impl Pattern {
    /// Parses `text` as a pattern.
    #[verifier::loop_isolation(false)]
    pub fn parse(text: &str) -> (r: Result<Pattern, ParseError>)
        ensures
            match r {
                Ok(p) => parse_result(text@) == Ok::<PatternView, ParseError>(p@) && p@.wf(),
                Err(e) => parse_result(text@) == Err::<PatternView, ParseError>(e),
            },
    {
        let chars = chars_of(text);
        let n = chars.len();
        let mut terminator: Option<Terminator> = None;
        let mut end: usize = n;
        if n >= 2 && chars[n - 2] == '/' && chars[n - 1] == '?' {
            terminator = Some(Terminator::OptionalSlash);
            end = n - 2;
        } else {
            match find_last(&chars, '/') {
                Some(last) => {
                    if last + 1 < n && chars[last + 1] == ':' {
                        let name = String::from_str(text.substring_char(last + 2, n));
                        terminator = Some(Terminator::Tail(name));
                        end = last;
                    }
                },
                None => {},
            }
        }
        let start: usize = if end > 0 && chars[0] == '/' {
            1
        } else {
            0
        };
        let ghost body = chars@.subrange(start as int, end as int);
        assert(body =~= body_of(text@));
        let spans = if start == end && terminator.is_some() {
            Vec::new()
        } else {
            split_spans(&chars, start, end, '/')
        };
        let ghost pieces = pieces_of(text@);
        let mut segments: Vec<Segment> = Vec::with_capacity(spans.len());
        let mut sigil = false;
        let mut i: usize = 0;
        while i < spans.len()
            invariant
                i <= spans.len(),
                segment_views(segments@) == pieces.take(i as int).map_values(
                    |piece: Seq<char>| segment_of(piece),
                ),
                sigil == has_sigil(pieces.take(i as int)),
            decreases spans.len() - i,
        {
            let (from, to) = spans[i];
            let ghost before = segments@;
            let segment = segment_from(text, &chars, from, to);
            segments.push(segment);
            proof {
                assert(segment_views(before.push(segment)) =~= segment_views(before).push(
                    segment@,
                ));
            }
            let here = to > from && chars[from] == ':';
            proof {
                let shorter = pieces.take(i as int);
                let longer = pieces.take(i + 1);
                assert(here == starts_with(longer[i as int], ':'));
                if has_sigil(shorter) {
                    let j = choose|j: int|
                        0 <= j < shorter.len() && starts_with(#[trigger] shorter[j], ':');
                    assert(starts_with(longer[j], ':'));
                }
                if has_sigil(longer) && !here {
                    let j = choose|j: int|
                        0 <= j < longer.len() && starts_with(#[trigger] longer[j], ':');
                    assert(starts_with(shorter[j], ':'));
                }
            }
            sigil = sigil || here;
            i = i + 1;
        }
        assert(pieces.take(i as int) =~= pieces);
        let pattern = Pattern::from_parts(segments, terminator);
        if sigil {
            Err(ParseError::TailNotLast)
        } else if !pattern.empty_only_last() {
            Err(ParseError::MalformedLiteral)
        } else if pattern.has_duplicate_names() {
            Err(ParseError::DuplicateName)
        } else {
            Ok(pattern)
        }
    }
}

} // verus!

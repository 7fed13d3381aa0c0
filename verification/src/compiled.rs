//! The compiled form of a pattern set: one simultaneous matcher over the
//! expressions of all patterns, in specificity order, and for each pattern
//! its token, its names and, where it captures anything, its own matcher.

use crate::engine::{
    capture_groups, groups_view, matching, regex_accepts, regex_captures, regex_new,
    regex_set_accepts, regex_set_is_match, regex_set_len, regex_set_matches, regex_set_new,
    regex_set_sources, regex_source, slots, slots_get, slots_insert, slots_with_capacity, texts,
};
use crate::expression::expression;
use crate::pattern_set::{
    first_matching, lemma_first_matching, EntryView, PatternSet, PatternSetView, PatternToken,
};
use crate::text::starts_with;
use regex::{Regex, RegexSet};
use vec_map::VecMap;
use vstd::prelude::*;
use vstd::string::StrSliceExecFns;

verus! {

/// The model of a compiled set. The three sequences have one entry for each
/// pattern, most specific first.
pub struct CompiledView {
    /// The match-expression of each pattern.
    pub expressions: Seq<Seq<char>>,
    /// The token of each pattern.
    pub tokens: Seq<PatternToken>,
    /// The names that each pattern captures.
    pub names: Seq<Seq<Seq<char>>>,
}

/// A captured value: the text of a group, or the empty text for a group
/// that took no part in the match.
pub open spec fn group_text(group: Option<Seq<char>>) -> Seq<char> {
    match group {
        Some(text) => text,
        None => Seq::empty(),
    }
}

/// Each name with the value of the group at its place, as far as both reach.
pub open spec fn paired(names: Seq<Seq<char>>, groups: Seq<Option<Seq<char>>>) -> Seq<
    (Seq<char>, Seq<char>),
> {
    Seq::new(
        if names.len() <= groups.len() {
            names.len()
        } else {
            groups.len()
        },
        |i: int| (names[i], group_text(groups[i])),
    )
}

impl CompiledView {
    /// The compiled form of `set`.
    pub open spec fn of(set: PatternSetView) -> CompiledView {
        CompiledView {
            expressions: set.entries.map_values(|e: EntryView| expression(e.0)),
            tokens: set.entries.map_values(|e: EntryView| e.1),
            names: set.entries.map_values(|e: EntryView| e.0.names()),
        }
    }

    /// Whether the pattern at `index` needs a matcher of its own and the
    /// engine does not compile its expression.
    pub open spec fn refused(self, index: int) -> bool {
        self.names[index].len() > 0 && !regex_accepts(self.expressions[index])
    }

    /// Whether the engine compiles this set: it refuses no pattern and
    /// compiles the expressions as one set.
    pub open spec fn compiles(self) -> bool {
        &&& forall|j: int| 0 <= j < self.expressions.len() ==> !self.refused(j)
        &&& regex_set_accepts(self.expressions)
    }

    /// Whether compiling this set fails with `error`: at the first pattern
    /// that the engine refuses, or else at the set as a whole.
    pub open spec fn fails_with(self, error: CompileError) -> bool {
        match error {
            CompileError::Pattern(index) => {
                &&& index < self.expressions.len()
                &&& self.refused(index as int)
                &&& forall|j: int| 0 <= j < index ==> !self.refused(j)
            },
            CompileError::Whole => {
                &&& forall|j: int| 0 <= j < self.expressions.len() ==> !self.refused(j)
                &&& !regex_set_accepts(self.expressions)
            },
        }
    }

    /// The index of the pattern that wins for `path`: the first of those
    /// whose expressions match the path without its leading slash.
    pub open spec fn winner(self, path: Seq<char>) -> Option<int> {
        let hits = matching(self.expressions, path.skip(1));
        if hits.len() > 0 {
            Some(hits[0] as int)
        } else {
            None
        }
    }

    /// Whether `index` is the index of a pattern of this set and no index
    /// that the engine reports for `path` is lower: among the patterns whose
    /// expressions match, none stands before it in specificity order.
    pub open spec fn lowest_hit(self, path: Seq<char>, index: int) -> bool {
        let hits = matching(self.expressions, path.skip(1));
        &&& 0 <= index < self.expressions.len()
        &&& forall|k: int| 0 <= k < hits.len() ==> index <= #[trigger] hits[k]
    }

    /// The token of the pattern that wins for `path`.
    pub open spec fn matched(self, path: Seq<char>) -> Option<PatternToken> {
        match self.winner(path) {
            Some(index) => Some(self.tokens[index]),
            None => None,
        }
    }

    /// The token of the pattern that wins for `path`, with the names of the
    /// pattern and the values captured for them. A pattern without names
    /// captures nothing. Nothing is resolved where the winner's own matcher
    /// finds no match.
    pub open spec fn resolved(self, path: Seq<char>) -> Option<
        (PatternToken, Seq<(Seq<char>, Seq<char>)>),
    > {
        match self.winner(path) {
            Some(index) => if self.names[index].len() == 0 {
                Some((self.tokens[index], Seq::empty()))
            } else {
                match capture_groups(self.expressions[index], path.skip(1)) {
                    Some(groups) => Some((self.tokens[index], paired(self.names[index], groups))),
                    None => None,
                }
            },
            None => None,
        }
    }
}

/// Whether `hits` is what an engine reports for `path` that matches as the
/// patterns of `set` do: the indices, in ascending order, of exactly those
/// patterns that match the path.
pub open spec fn reports_matches(set: PatternSetView, path: Seq<char>, hits: Seq<usize>) -> bool {
    &&& forall|i: int, j: int| 0 <= i < j < hits.len() ==> hits[i] < hits[j]
    &&& forall|k: int| 0 <= k < hits.len() ==> (#[trigger] hits[k]) < set.entries.len()
    &&& forall|i: int|
        0 <= i < set.entries.len() ==> (hits.contains(i as usize) <==> (
        #[trigger] set.entries[i]).0.matches(path))
}

/// The token that a compiled set gives for what the engine reports: that of
/// the first index, if there is one.
pub open spec fn token_of_hits(tokens: Seq<PatternToken>, hits: Seq<usize>) -> Option<
    PatternToken,
> {
    if hits.len() > 0 {
        Some(tokens[hits[0] as int])
    } else {
        None
    }
}

/// A set and its compiled form have the same size, and they give the same
/// token for a path wherever the engine reports exactly the patterns that
/// match it: the first index it gives is that of the first pattern, in
/// specificity order, that matches.
pub proof fn lemma_compiled_agrees(set: PatternSetView, path: Seq<char>, hits: Seq<usize>)
    requires
        reports_matches(set, path, hits),
    ensures
        CompiledView::of(set).expressions.len() == set.entries.len(),
        token_of_hits(CompiledView::of(set).tokens, hits) == set.matched(path),
        hits.len() > 0 <==> set.matched(path) is Some,
{
    let first = first_matching(set.entries, path);
    lemma_first_matching(set.entries, path);
    if hits.len() > 0 {
        let lowest = hits[0] as int;
        assert(hits.contains(hits[0]));
        assert(set.entries[lowest].0.matches(path));
        if first < lowest {
            assert(hits.contains(first as usize));
            let k = choose|k: int| 0 <= k < hits.len() && hits[k] == first as usize;
            assert(k == 0 || hits[0] < hits[k]);
        }
    } else if first < set.entries.len() {
        assert(hits.contains(first as usize));
    }
}

/// The same of the engine's own report: where it reports for a path exactly
/// the patterns that match it, the compiled form of a set gives the token
/// that the set gives.
pub proof fn lemma_compiled_agrees_on_report(set: PatternSetView, path: Seq<char>)
    ensures
        reports_matches(
            set,
            path,
            matching(CompiledView::of(set).expressions, path.skip(1)),
        ) ==> CompiledView::of(set).matched(path) == set.matched(path),
{
    let hits = matching(CompiledView::of(set).expressions, path.skip(1));
    if reports_matches(set, path, hits) {
        lemma_compiled_agrees(set, path, hits);
    }
}

/// Why a set could not be compiled.
#[derive(Clone, Copy, Debug, PartialEq, Eq, Structural)]
pub enum CompileError {
    /// The engine does not compile the expression of the pattern at this
    /// index, counted from the most specific.
    Pattern(usize),
    /// The engine does not compile the expressions as one set.
    Whole,
}

/// An immutable pattern set, compiled for matching in one pass.
#[derive(Debug)]
pub struct CompiledPatternSet {
    set: RegexSet,
    tokens: VecMap<PatternToken>,
    extractors: Vec<Option<Regex>>,
    names: Vec<Vec<String>>,
}

impl View for CompiledPatternSet {
    type V = CompiledView;

    closed spec fn view(&self) -> CompiledView {
        CompiledView {
            expressions: regex_set_sources(self.set),
            tokens: Seq::new(
                regex_set_sources(self.set).len(),
                |i: int| slots(self.tokens)[i as usize],
            ),
            names: self.names.deep_view(),
        }
    }
}

impl CompiledPatternSet {
    /// The invariant of a compiled set: it has a token and a list of names
    /// for each expression, and a matcher of its own, compiled from the same
    /// expression, for exactly those patterns that capture something.
    pub closed spec fn wf(&self) -> bool {
        let n = regex_set_sources(self.set).len();
        &&& self.extractors@.len() == n
        &&& self.names@.len() == n
        &&& forall|k: usize| k < n ==> slots(self.tokens).contains_key(k)
        &&& forall|i: int|
            0 <= i < n ==> ((#[trigger] self.extractors@[i]) is Some <==> self.names@[i]@.len()
                > 0)
        &&& forall|i: int|
            0 <= i < n ==> ((#[trigger] self.extractors@[i]) matches Some(regex) ==> regex_source(
                regex,
            ) == regex_set_sources(self.set)[i])
    }

    /// A well-formed compiled set has one token and one list of names for
    /// each expression.
    pub proof fn lemma_lengths(&self)
        requires
            self.wf(),
        ensures
            self@.tokens.len() == self@.expressions.len(),
            self@.names.len() == self@.expressions.len(),
    {
    }

    /// The number of patterns.
    pub fn len(&self) -> (n: usize)
        ensures
            n == self@.expressions.len(),
    {
        regex_set_len(&self.set)
    }

    /// Whether the set holds no pattern.
    pub fn is_empty(&self) -> (r: bool)
        ensures
            r == (self@.expressions.len() == 0),
    {
        regex_set_len(&self.set) == 0
    }

    /// Whether some pattern of the set matches `path`.
    pub fn is_match(&self, path: &str) -> (r: bool)
        requires
            starts_with(path@, '/'),
        ensures
            r == self@.matched(path@) is Some,
    {
        let n = path.unicode_len();
        let rest = path.substring_char(1, n);
        regex_set_is_match(&self.set, rest)
    }

    /// The token of the most specific pattern that matches `path`.
    pub fn matched_token(&self, path: &str) -> (r: Option<PatternToken>)
        requires
            self.wf(),
            starts_with(path@, '/'),
        ensures
            r == self@.matched(path@),
            self@.winner(path@) matches Some(index) ==> self@.lowest_hit(path@, index),
    {
        let n = path.unicode_len();
        let rest = path.substring_char(1, n);
        let hits = regex_set_matches(&self.set, rest);
        if hits.len() == 0 {
            return None;
        }
        let index = hits[0];
        slots_get(&self.tokens, index)
    }

    /// The token of the most specific pattern that matches `path`, with the
    /// names of that pattern and the values captured for them.
    pub fn resolve(&self, path: &str) -> (r: Option<(PatternToken, Vec<(String, String)>)>)
        requires
            self.wf(),
            starts_with(path@, '/'),
        ensures
            match r {
                Some((token, params)) => self@.resolved(path@) == Some((token, params.deep_view())),
                None => self@.resolved(path@) is None,
            },
            self@.winner(path@) matches Some(index) ==> self@.lowest_hit(path@, index),
    {
        let n = path.unicode_len();
        let rest = path.substring_char(1, n);
        let hits = regex_set_matches(&self.set, rest);
        if hits.len() == 0 {
            return None;
        }
        let index = hits[0];
        let token = match slots_get(&self.tokens, index) {
            Some(token) => token,
            None => {
                return None;
            },
        };
        let names = &self.names[index];
        let mut params: Vec<(String, String)> = Vec::new();
        match &self.extractors[index] {
            None => {
                Some((token, params))
            },
            Some(regex) => {
                match regex_captures(regex, rest) {
                    None => None,
                    Some(groups) => {
                        let ghost found = groups_view(Some(groups))->0;
                        let ghost expected = paired(names.deep_view(), found);
                        let mut i: usize = 0;
                        while i < names.len() && i < groups.len()
                            invariant
                                i <= names.len(),
                                i <= groups.len(),
                                found == groups_view(Some(groups))->0,
                                expected == paired(names.deep_view(), found),
                                params.deep_view() == expected.take(i as int),
                            decreases names.len() - i,
                        {
                            let value = match &groups[i] {
                                Some(text) => text.clone(),
                                None => String::new(),
                            };
                            let ghost before = params.deep_view();
                            let name = names[i].clone();
                            params.push((name, value));
                            assert(params.deep_view() =~= before.push((name@, value@)));
                            i = i + 1;
                        }
                        Some((token, params))
                    },
                }
            },
        }
    }
}

impl PatternSet {
    /// Compiles the set. The expressions are handed to the engine in
    /// specificity order, so the first index that it reports for a path is
    /// that of the most specific matching pattern.
    pub fn compile(&self) -> (r: Result<CompiledPatternSet, CompileError>)
        ensures
            match r {
                Ok(compiled) => {
                    &&& CompiledView::of(self@).compiles()
                    &&& compiled.wf()
                    &&& compiled@ == CompiledView::of(self@)
                },
                Err(error) => CompiledView::of(self@).fails_with(error),
            },
    {
        let ghost target = CompiledView::of(self@);
        let n = self.len();
        let mut expressions: Vec<String> = Vec::with_capacity(n);
        let mut tokens = slots_with_capacity(n);
        let mut extractors: Vec<Option<Regex>> = Vec::with_capacity(n);
        let mut names: Vec<Vec<String>> = Vec::with_capacity(n);
        let mut i: usize = 0;
        while i < n
            invariant
                i <= n,
                n == self@.entries.len(),
                target == CompiledView::of(self@),
                texts(expressions@) == target.expressions.take(i as int),
                names.deep_view() == target.names.take(i as int),
                extractors@.len() == i,
                forall|k: usize| slots(tokens).contains_key(k) <==> k < i,
                forall|k: usize| k < i ==> slots(tokens)[k] == target.tokens[k as int],
                forall|j: int| 0 <= j < i ==> !target.refused(j),
                forall|j: int|
                    0 <= j < i ==> ((#[trigger] extractors@[j]) is Some <==> target.names[j].len()
                        > 0),
                forall|j: int|
                    0 <= j < i ==> ((#[trigger] extractors@[j]) matches Some(regex)
                        ==> regex_source(regex) == target.expressions[j]),
            decreases n - i,
        {
            let pattern = self.pattern(i);
            let expression = pattern.to_re_string();
            let captured = pattern.param_names();
            let extractor = if captured.len() == 0 {
                None
            } else {
                match regex_new(expression.as_str()) {
                    Ok(regex) => Some(regex),
                    Err(_) => {
                        return Err(CompileError::Pattern(i));
                    },
                }
            };
            let ghost old_expressions = expressions@;
            let ghost old_names = names.deep_view();
            slots_insert(&mut tokens, i, self.token(i));
            expressions.push(expression);
            extractors.push(extractor);
            names.push(captured);
            proof {
                assert(texts(old_expressions.push(expression)) =~= texts(old_expressions).push(
                    expression@,
                ));
                assert(names.deep_view() =~= old_names.push(captured.deep_view()));
            }
            i = i + 1;
        }
        assert(target.expressions.take(i as int) =~= target.expressions);
        assert(target.names.take(i as int) =~= target.names);
        match regex_set_new(&expressions) {
            Ok(set) => {
                let compiled = CompiledPatternSet { set, tokens, extractors, names };
                assert(compiled@.tokens =~= target.tokens);
                Ok(compiled)
            },
            Err(_) => Err(CompileError::Whole),
        }
    }
}

} // verus!

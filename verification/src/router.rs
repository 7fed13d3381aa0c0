//! The router: a builder that collects routes and mounts for each method,
//! and the immutable router that is built from it for dispatch.
//!
//! A handler is whatever the caller registers; the router keeps it and hands
//! it back, and never looks inside.

use crate::compiled::{CompileError, CompiledPatternSet, CompiledView};
use crate::method::{HttpMethodMap, Method, MethodView};
use crate::table::{distinct_keys, key_index, lemma_table_entry, lemma_table_skip, table};
use crate::parse::{parse_result, ParseError};
use crate::pattern::Pattern;
use crate::pattern_set::{
    lemma_combined_all_wf, lemma_inserted_all_wf, lemma_prefixed_all_wf, PatternSet,
    PatternSetView,
};
use crate::shape::PatternView;
use crate::text::starts_with;
use vstd::prelude::*;

verus! {

/// The model of the routes of one method: the patterns and, indexed by
/// token, the handlers.
pub struct RoutesView<H> {
    pub patterns: PatternSetView,
    pub handlers: Seq<H>,
}

impl<H> RoutesView<H> {
    /// The invariant of the routes of one method: the pattern set is well
    /// formed, each of its patterns is well formed, and there is one handler
    /// for each token handed out.
    pub open spec fn wf(self) -> bool {
        &&& self.patterns.wf()
        &&& self.patterns.all_wf()
        &&& self.patterns.next_token == self.handlers.len()
    }

    /// No routes.
    pub open spec fn empty() -> RoutesView<H> {
        RoutesView { patterns: PatternSetView::empty(), handlers: Seq::empty() }
    }

    /// These routes with one more: `pattern`, answered by `handler`.
    pub open spec fn routed(self, pattern: PatternView, handler: H) -> RoutesView<H> {
        RoutesView {
            patterns: self.patterns.inserted(pattern),
            handlers: self.handlers.push(handler),
        }
    }

    /// These routes with each pattern prefixed by the segments of `base`.
    pub open spec fn prefixed(self, base: PatternView) -> RoutesView<H> {
        RoutesView { patterns: self.patterns.prefixed(base), handlers: self.handlers }
    }

    /// These routes followed by those of `other`.
    pub open spec fn combined(self, other: RoutesView<H>) -> RoutesView<H> {
        RoutesView {
            patterns: self.patterns.combined(other.patterns),
            handlers: self.handlers + other.handlers,
        }
    }
}

/// The routes of one method while they are being collected.
pub struct PathRouter<H> {
    patterns: PatternSet,
    handlers: Vec<H>,
}

impl<H> View for PathRouter<H> {
    type V = RoutesView<H>;

    closed spec fn view(&self) -> RoutesView<H> {
        RoutesView { patterns: self.patterns@, handlers: self.handlers@ }
    }
}

impl<H> PathRouter<H> {
    /// No routes.
    pub fn new() -> (r: Self)
        ensures
            r@ == RoutesView::<H>::empty(),
            r@.wf(),
    {
        PathRouter { patterns: PatternSet::new(), handlers: Vec::new() }
    }

    /// Registers `pattern`, to be answered by `handler`.
    pub fn route(&mut self, pattern: Pattern, handler: H)
        requires
            old(self)@.wf(),
            pattern@.wf(),
            !old(self)@.patterns.contains(pattern@),
            old(self)@.patterns.next_token < usize::MAX,
        ensures
            final(self)@.wf(),
            final(self)@ == old(self)@.routed(pattern@, handler),
    {
        proof {
            lemma_inserted_all_wf(self@.patterns, pattern@);
        }
        self.patterns.insert(pattern);
        self.handlers.push(handler);
    }

    /// Whether `pattern` can be registered: it is not registered yet, and a
    /// token is left for it.
    pub fn admits(&self, pattern: &Pattern) -> (r: bool)
        requires
            self@.wf(),
        ensures
            r == (!self@.patterns.contains(pattern@) && self@.patterns.next_token < usize::MAX),
    {
        self.patterns.next_token() < usize::MAX && !self.patterns.contains(pattern)
    }

    /// Whether `base` fits before every pattern of these routes.
    pub fn fits_under(&self, base: &Pattern) -> (r: bool)
        ensures
            r == self@.patterns.fits_under(base@),
    {
        self.patterns.fits_under(base)
    }

    /// These routes under the prefix `base`.
    pub fn prefix(self, base: &Pattern) -> (r: Self)
        requires
            self@.wf(),
            base@.wf(),
            !base@.terminated(),
            self@.patterns.fits_under(base@),
        ensures
            r@.wf(),
            r@ == self@.prefixed(base@),
    {
        proof {
            lemma_prefixed_all_wf(self@.patterns, base@);
        }
        PathRouter { patterns: self.patterns.prefix(base), handlers: self.handlers }
    }

    /// Adds the routes of `other` after these.
    pub fn combine(&mut self, other: PathRouter<H>)
        requires
            old(self)@.wf(),
            other@.wf(),
            old(self)@.patterns.next_token + other@.patterns.next_token <= usize::MAX,
        ensures
            final(self)@.wf(),
            final(self)@ == old(self)@.combined(other@),
    {
        proof {
            lemma_combined_all_wf(self@.patterns, other@.patterns);
        }
        self.patterns.combine(&other.patterns);
        let mut more = other.handlers;
        self.handlers.append(&mut more);
    }

    /// The number of tokens handed out.
    pub fn token_count(&self) -> (n: usize)
        ensures
            n == self@.patterns.next_token,
    {
        self.patterns.next_token()
    }

    /// Compiles the patterns and keeps the handlers.
    pub fn compile(self) -> (r: Result<CompiledPathRouter<H>, CompileError>)
        requires
            self@.wf(),
        ensures
            match r {
                Ok(compiled) => {
                    &&& CompiledView::of(self@.patterns).compiles()
                    &&& compiled.wf()
                    &&& compiled@ == CompiledRoutesView::of(self@)
                },
                Err(error) => CompiledView::of(self@.patterns).fails_with(error),
            },
    {
        match self.patterns.compile() {
            Ok(patterns) => {
                let compiled = CompiledPathRouter { patterns, handlers: self.handlers };
                Ok(compiled)
            },
            Err(error) => Err(error),
        }
    }
}

/// The model of the compiled routes of one method.
pub struct CompiledRoutesView<H> {
    pub patterns: CompiledView,
    pub handlers: Seq<H>,
}

impl<H> CompiledRoutesView<H> {
    /// The compiled form of `routes`.
    pub open spec fn of(routes: RoutesView<H>) -> CompiledRoutesView<H> {
        CompiledRoutesView {
            patterns: CompiledView::of(routes.patterns),
            handlers: routes.handlers,
        }
    }

    /// Whether each token is the index of a handler.
    pub open spec fn tokens_in_range(self) -> bool {
        forall|i: int|
            0 <= i < self.patterns.tokens.len() ==> (#[trigger] self.patterns.tokens[i])
                < self.handlers.len()
    }

    /// The handler that answers `path`, with the names and the captured
    /// values of its pattern.
    pub open spec fn dispatched(self, path: Seq<char>) -> Option<(H, Seq<(Seq<char>, Seq<char>)>)> {
        match self.patterns.resolved(path) {
            Some((token, params)) => Some((self.handlers[token as int], params)),
            None => None,
        }
    }
}

/// The compiled routes of one method.
pub struct CompiledPathRouter<H> {
    patterns: CompiledPatternSet,
    handlers: Vec<H>,
}

impl<H> View for CompiledPathRouter<H> {
    type V = CompiledRoutesView<H>;

    closed spec fn view(&self) -> CompiledRoutesView<H> {
        CompiledRoutesView { patterns: self.patterns@, handlers: self.handlers@ }
    }
}

impl<H> CompiledPathRouter<H> {
    /// The invariant of compiled routes: the compiled set is well formed and
    /// each of its tokens is the index of a handler.
    pub closed spec fn wf(&self) -> bool {
        &&& self.patterns.wf()
        &&& self@.patterns.tokens.len() == self@.patterns.expressions.len()
        &&& self@.tokens_in_range()
    }

    /// The number of routes.
    pub fn len(&self) -> (n: usize)
        ensures
            n == self@.patterns.expressions.len(),
    {
        self.patterns.len()
    }

    /// Whether some route matches `path`.
    pub fn is_match(&self, path: &str) -> (r: bool)
        requires
            starts_with(path@, '/'),
        ensures
            r == self@.patterns.matched(path@) is Some,
    {
        self.patterns.is_match(path)
    }

    /// The handler that answers `path`, with the names and the captured
    /// values of its pattern.
    pub fn handler(&self, path: &str) -> (r: Option<(&H, Vec<(String, String)>)>)
        requires
            self.wf(),
            starts_with(path@, '/'),
        ensures
            match r {
                Some((handler, params)) => self@.dispatched(path@) == Some(
                    (*handler, params.deep_view()),
                ),
                None => self@.dispatched(path@) is None,
            },
    {
        match self.patterns.resolve(path) {
            Some((token, params)) => {
                Some((&self.handlers[token], params))
            },
            None => None,
        }
    }
}

/// The model of a builder: the routes of each method that has any.
pub type TableView<H> = Map<MethodView, RoutesView<H>>;

/// The model of a router: the compiled routes of each method that has any.
pub type CompiledTableView<H> = Map<MethodView, CompiledRoutesView<H>>;

/// The routes of `method`: none where the table has no entry for it.
pub open spec fn routes_for<H>(routes: TableView<H>, method: MethodView) -> RoutesView<H> {
    if routes.contains_key(method) {
        routes[method]
    } else {
        RoutesView::empty()
    }
}

/// Whether `text` can be routed for `method`: it parses, its pattern is not
/// registered for that method yet, and a token is left for it.
pub open spec fn admits_route<H>(
    routes: TableView<H>,
    method: MethodView,
    text: Seq<char>,
) -> bool {
    &&& parse_result(text) matches Ok(pattern)
    &&& !routes_for(routes, method).patterns.contains(pattern)
    &&& routes_for(routes, method).patterns.next_token < usize::MAX
}

/// `routes` with one more route for `method`.
pub open spec fn with_route<H>(
    routes: TableView<H>,
    method: MethodView,
    pattern: PatternView,
    handler: H,
) -> TableView<H> {
    routes.insert(method, routes_for(routes, method).routed(pattern, handler))
}

/// Whether `sub` can be mounted under `text`: it parses to a pattern
/// without terminator, the pattern fits before every pattern of `sub`, so
/// that it has no empty literal and shares no name with any of them, and for
/// each method the tokens of both sides fit.
pub open spec fn admits_mount<H>(routes: TableView<H>, text: Seq<char>, sub: TableView<H>) -> bool {
    &&& parse_result(text) matches Ok(base)
    &&& !base.terminated()
    &&& forall|method: MethodView| #[trigger]
        sub.contains_key(method) ==> sub[method].patterns.fits_under(base)
    &&& forall|method: MethodView| #[trigger]
        sub.contains_key(method) ==> routes_for(routes, method).patterns.next_token
            + sub[method].patterns.next_token <= usize::MAX
}

/// What mounting adds under `method`: the routes of `sub` under the prefix
/// `base`, after those that `routes` has for the method.
pub open spec fn mounted_routes<H>(
    routes: TableView<H>,
    base: PatternView,
    sub: TableView<H>,
    method: MethodView,
) -> RoutesView<H> {
    if routes.contains_key(method) {
        routes[method].combined(sub[method].prefixed(base))
    } else {
        sub[method].prefixed(base)
    }
}

/// `routes` with the routes of `sub` mounted under the prefix `base`.
pub open spec fn with_mount<H>(
    routes: TableView<H>,
    base: PatternView,
    sub: TableView<H>,
) -> TableView<H> {
    Map::new(
        |method: MethodView| routes.contains_key(method) || sub.contains_key(method),
        |method: MethodView|
            if sub.contains_key(method) {
                mounted_routes(routes, base, sub, method)
            } else {
                routes[method]
            },
    )
}

/// Whether the engine compiles the routes of every method.
pub open spec fn all_compile<H>(routes: TableView<H>) -> bool {
    forall|method: MethodView| #[trigger]
        routes.contains_key(method) ==> CompiledView::of(routes[method].patterns).compiles()
}

/// The compiled form of `routes`.
pub open spec fn compiled_table<H>(routes: TableView<H>) -> CompiledTableView<H> {
    routes.map_values(|r: RoutesView<H>| CompiledRoutesView::of(r))
}

/// Why a router could not be built: the routes of `method` did not compile.
#[derive(Debug)]
pub struct BuildError {
    pub method: Method,
    pub error: CompileError,
}

/// Collects routes and mounts; `build` turns it into a router.
pub struct RouterBuilder<H> {
    routes: HttpMethodMap<PathRouter<H>>,
}

impl<H> View for RouterBuilder<H> {
    type V = TableView<H>;

    closed spec fn view(&self) -> TableView<H> {
        self.routes@.map_values(|r: PathRouter<H>| r@)
    }
}

impl<H> RouterBuilder<H> {
    /// The invariant of a builder: the routes of each method are well
    /// formed.
    pub closed spec fn wf(&self) -> bool {
        &&& self.routes.wf()
        &&& forall|method: MethodView| #[trigger]
            self.routes@.contains_key(method) ==> self.routes@[method]@.wf()
    }

    /// A builder without routes.
    pub fn new() -> (r: Self)
        ensures
            r.wf(),
            r@ == Map::<MethodView, RoutesView<H>>::empty(),
    {
        let r = RouterBuilder { routes: HttpMethodMap::new() };
        r
    }

    /// Whether `pattern` can be routed for `method`.
    pub fn can_route(&self, method: &Method, pattern: &str) -> (r: bool)
        requires
            self.wf(),
        ensures
            r == admits_route(self@, method@, pattern@),
    {
        match Pattern::parse(pattern) {
            Ok(parsed) => match self.routes.get(method) {
                Some(routes) => routes.admits(&parsed),
                None => true,
            },
            Err(_) => false,
        }
    }

    /// Registers `handler` for the paths that `pattern` matches under
    /// `method`.
    pub fn route(self, method: Method, pattern: &str, handler: H) -> (r: Self)
        requires
            self.wf(),
            admits_route(self@, method@, pattern@),
        ensures
            r.wf(),
            r@ == with_route(self@, method@, parse_result(pattern@)->Ok_0, handler),
    {
        let mut builder = self;
        let parsed = match Pattern::parse(pattern) {
            Ok(parsed) => parsed,
            Err(_) => {
                return builder;
            },
        };
        let mut routes = match builder.routes.remove(&method) {
            Some(routes) => routes,
            None => PathRouter::new(),
        };
        routes.route(parsed, handler);
        builder.routes.insert(method, routes);
        builder
    }

    /// Whether `sub` can be mounted under `pattern`.
    pub fn can_mount(&self, pattern: &str, sub: &RouterBuilder<H>) -> (r: bool)
        requires
            self.wf(),
            sub.wf(),
        ensures
            r == admits_mount(self@, pattern@, sub@),
    {
        let base = match Pattern::parse(pattern) {
            Ok(base) => base,
            Err(_) => {
                return false;
            },
        };
        if base.terminated() {
            return false;
        }
        proof {
            sub.routes.lemma_entries();
        }
        let ghost listed = sub.routes.entries();
        let n = sub.routes.len();
        let mut i: usize = 0;
        while i < n
            invariant
                i <= n,
                n == listed.len(),
                self.wf(),
                sub.wf(),
                listed == sub.routes.entries(),
                distinct_keys(listed),
                sub.routes@ == table(listed),
                forall|j: int|
                    0 <= j < i ==> routes_for(self@, (#[trigger] listed[j]).0@).patterns.next_token
                        + listed[j].1@.patterns.next_token <= usize::MAX,
                forall|j: int|
                    0 <= j < i ==> (#[trigger] listed[j]).1@.patterns.fits_under(base@),
                parse_result(pattern@) == Ok::<PatternView, ParseError>(base@),
            decreases n - i,
        {
            let (method, theirs) = sub.routes.entry(i);
            proof {
                lemma_table_entry(listed, i as int);
            }
            if !theirs.fits_under(&base) {
                assert(sub@.contains_key(method@));
                assert(sub@[method@] == theirs@);
                return false;
            }
            let mine: usize = match self.routes.get(method) {
                Some(routes) => routes.token_count(),
                None => 0,
            };
            if theirs.token_count() > usize::MAX - mine {
                assert(sub@.contains_key(method@));
                return false;
            }
            i = i + 1;
        }
        proof {
            assert forall|method: MethodView| #[trigger] sub@.contains_key(method) implies {
                &&& sub@[method].patterns.fits_under(base@)
                &&& routes_for(self@, method).patterns.next_token
                    + sub@[method].patterns.next_token <= usize::MAX
            } by {
                let j = key_index(listed, method);
                lemma_table_entry(listed, j);
            }
        }
        true
    }

    /// Mounts the routes of `sub` under `pattern`: each of them is
    /// registered here with the segments of `pattern` before its own.
    pub fn mount(self, pattern: &str, sub: RouterBuilder<H>) -> (r: Self)
        requires
            self.wf(),
            sub.wf(),
            admits_mount(self@, pattern@, sub@),
        ensures
            r.wf(),
            r@ == with_mount(self@, parse_result(pattern@)->Ok_0, sub@),
    {
        let mut builder = self;
        let base = match Pattern::parse(pattern) {
            Ok(base) => base,
            Err(_) => {
                return builder;
            },
        };
        let ghost start = builder@;
        let ghost theirs = sub@;
        let mut rest = sub.routes.into_entries();
        let ghost listed = rest@;
        assert forall|j: int| 0 <= j < listed.len() implies (#[trigger] listed[j]).1@.wf() by {
            lemma_table_entry(listed, j);
        }
        assert(listed.skip(0) =~= listed);
        while rest.len() > 0
            invariant
                builder.wf(),
                !base@.terminated(),
                distinct_keys(listed),
                theirs == table(listed).map_values(|r: PathRouter<H>| r@),
                rest@ == listed.take(rest@.len() as int),
                rest@.len() <= listed.len(),
                forall|j: int| 0 <= j < listed.len() ==> (#[trigger] listed[j]).1@.wf(),
                forall|method: MethodView| #[trigger]
                    theirs.contains_key(method) ==> routes_for(start, method).patterns.next_token
                        + theirs[method].patterns.next_token <= usize::MAX,
                forall|method: MethodView| #[trigger]
                    theirs.contains_key(method) ==> theirs[method].patterns.fits_under(base@),
                base@.wf(),
                builder@ == with_mount(
                    start,
                    base@,
                    table(listed.skip(rest@.len() as int)).map_values(|r: PathRouter<H>| r@),
                ),
            decreases rest.len(),
        {
            let ghost k = rest@.len() as int;
            let ghost before = builder.routes@;
            let ghost current = builder@;
            let (method, routes) = match rest.pop() {
                Some(entry) => entry,
                None => {
                    return builder;
                },
            };
            proof {
                lemma_table_skip(listed, k);
                assert(theirs.contains_key(method@));
            }
            let prefixed = routes.prefix(&base);
            let merged = match builder.routes.remove(&method) {
                Some(mine) => {
                    let mut mine = mine;
                    assert(current.contains_key(method@));
                    assert(current[method@] == mine@);
                    mine.combine(prefixed);
                    mine
                },
                None => {
                    assert(!current.contains_key(method@));
                    prefixed
                },
            };
            builder.routes.insert(method, merged);
            proof {
                let next = table(listed.skip(k - 1)).map_values(|r: PathRouter<H>| r@);
                let goal = with_mount(start, base@, next);
                assert forall|m: MethodView| builder@.contains_key(m) == goal.contains_key(m) by {
                    if m != method@ {
                        assert(before.contains_key(m) == current.contains_key(m));
                    }
                }
                assert forall|m: MethodView| builder@.contains_key(m) implies builder@[m]
                    == goal[m] by {
                    if m != method@ {
                        assert(current[m] == before[m]@);
                        assert(current.contains_key(m));
                    }
                }
            }
        }
        builder
    }

    /// Compiles the routes of every method into a router.
    pub fn build(self) -> (r: Result<Router<H>, BuildError>)
        requires
            self.wf(),
        ensures
            match r {
                Ok(router) => {
                    &&& all_compile(self@)
                    &&& router.wf()
                    &&& router@ == compiled_table(self@)
                },
                Err(failure) => {
                    &&& self@.contains_key(failure.method@)
                    &&& CompiledView::of(self@[failure.method@].patterns).fails_with(failure.error)
                },
            },
    {
        let ghost start = self@;
        let mut rest = self.routes.into_entries();
        let ghost listed = rest@;
        assert forall|j: int| 0 <= j < listed.len() implies (#[trigger] listed[j]).1@.wf() by {
            lemma_table_entry(listed, j);
        }
        let mut router = Router { routes: HttpMethodMap::new() };
        assert(listed.skip(listed.len() as int) =~= Seq::empty());
        while rest.len() > 0
            invariant
                router.wf(),
                distinct_keys(listed),
                start == self@,
                start == table(listed).map_values(|r: PathRouter<H>| r@),
                rest@ == listed.take(rest@.len() as int),
                rest@.len() <= listed.len(),
                forall|j: int| 0 <= j < listed.len() ==> (#[trigger] listed[j]).1@.wf(),
                all_compile(
                    table(listed.skip(rest@.len() as int)).map_values(|r: PathRouter<H>| r@),
                ),
                router@ == compiled_table(
                    table(listed.skip(rest@.len() as int)).map_values(|r: PathRouter<H>| r@),
                ),
            decreases rest.len(),
        {
            let ghost k = rest@.len() as int;
            let ghost done = table(listed.skip(k)).map_values(|r: PathRouter<H>| r@);
            let ghost before = router.routes@;
            let ghost earlier = router@;
            let (method, routes) = match rest.pop() {
                Some(entry) => entry,
                None => {
                    return Ok(router);
                },
            };
            proof {
                lemma_table_skip(listed, k);
            }
            match routes.compile() {
                Ok(compiled) => {
                    router.routes.insert(method, compiled);
                    proof {
                        let next = table(listed.skip(k - 1)).map_values(|r: PathRouter<H>| r@);
                        assert(next =~= done.insert(method@, routes@));
                        let goal = compiled_table(next);
                        let current = compiled_table(done);
                        assert forall|m: MethodView|
                            router@.contains_key(m) == goal.contains_key(m) by {
                            if m != method@ {
                                assert(before.contains_key(m) == earlier.contains_key(m));
                            }
                        }
                        assert forall|m: MethodView| router@.contains_key(m) implies router@[m]
                            == goal[m] by {
                            if m != method@ {
                                assert(earlier.contains_key(m));
                                assert(current[m] == before[m]@);
                            }
                        }
                    }
                },
                Err(error) => {
                    return Err(BuildError { method, error });
                },
            }
        }
        Ok(router)
    }
}

/// An immutable dispatch table: for each method the compiled routes and
/// their handlers.
pub struct Router<H> {
    routes: HttpMethodMap<CompiledPathRouter<H>>,
}

impl<H> View for Router<H> {
    type V = CompiledTableView<H>;

    closed spec fn view(&self) -> CompiledTableView<H> {
        self.routes@.map_values(|r: CompiledPathRouter<H>| r@)
    }
}

impl<H> Router<H> {
    /// The invariant of a router: the compiled routes of each method are
    /// well formed.
    pub closed spec fn wf(&self) -> bool {
        &&& self.routes.wf()
        &&& forall|method: MethodView| #[trigger]
            self.routes@.contains_key(method) ==> self.routes@[method].wf()
    }

    /// A builder without routes.
    pub fn builder() -> (r: RouterBuilder<H>)
        ensures
            r.wf(),
            r@ == Map::<MethodView, RoutesView<H>>::empty(),
    {
        RouterBuilder::new()
    }

    /// The number of routes under `method`.
    pub fn route_count(&self, method: &Method) -> (n: usize)
        requires
            self.wf(),
        ensures
            n == (if self@.contains_key(method@) {
                self@[method@].patterns.expressions.len()
            } else {
                0
            }),
    {
        match self.routes.get(method) {
            Some(routes) => routes.len(),
            None => 0,
        }
    }

    /// Whether a route of `method` matches `path`. A method without routes
    /// matches nothing.
    pub fn is_match(&self, method: &Method, path: &str) -> (r: bool)
        requires
            self.wf(),
            starts_with(path@, '/'),
        ensures
            r == (self@.contains_key(method@) && self@[method@].patterns.matched(path@) is Some),
    {
        match self.routes.get(method) {
            Some(routes) => routes.is_match(path),
            None => false,
        }
    }

    /// The handler of the most specific route of `method` that matches
    /// `path`, with the names and the captured values of its pattern.
    pub fn handler(&self, method: &Method, path: &str) -> (r: Option<(&H, Vec<(String, String)>)>)
        requires
            self.wf(),
            starts_with(path@, '/'),
        ensures
            match r {
                Some((handler, params)) => self@.contains_key(method@) && self@[method@].dispatched(
                    path@,
                ) == Some((*handler, params.deep_view())),
                None => !self@.contains_key(method@) || self@[method@].dispatched(path@) is None,
            },
    {
        match self.routes.get(method) {
            Some(routes) => routes.handler(path),
            None => None,
        }
    }
}

} // verus!

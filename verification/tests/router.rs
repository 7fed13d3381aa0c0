use senya::compiled::CompileError;
use senya::method::{Control, HttpMethodMap, Method};
use senya::router::{Router, RouterBuilder};
use senya::table::Key;

#[test]
fn test_router() {
    let b = Router::builder()
        .route(Method::Get, "/foo/bar", "hello!")
        .route(Method::Get, "/foo/bar/baz/?", "hello!!!")
        .mount(
            "/piyo",
            Router::builder()
                .route(Method::Get, "/piyo", "/piyo/piyo")
                .route(Method::Get, "/param/{v}", "param"),
        )
        .build()
        .expect("failed to compile regex");

    assert_eq!(b.route_count(&Method::Get), 4);

    assert!(b.is_match(&Method::Get, "/foo/bar"));
    assert!(b.is_match(&Method::Get, "/foo/bar/baz/"));
    assert!(b.is_match(&Method::Get, "/piyo/piyo"));
    assert!(b.is_match(&Method::Get, "/piyo/param/fuga"));
    assert!(!b.is_match(&Method::Get, "/piyo"));
    assert!(!b.is_match(&Method::Get, "/foo/bar/"));
    assert!(!b.is_match(&Method::Get, "/foo"));
}

fn sample() -> Router<&'static str> {
    Router::builder()
        .route(Method::Get, "/:path", "fallback")
        .route(Method::Get, "/param/{p}", "param")
        .route(Method::Post, "/param/{p}", "create")
        .route(Method::Extension("PURGE".to_string()), "/cache/{key?}", "purge")
        .mount(
            "/api",
            Router::builder()
                .route(Method::Get, "/users/{id}", "user")
                .route(Method::Delete, "/users/{id}", "remove"),
        )
        .build()
        .expect("failed to compile regex")
}

#[test]
fn handler_resolves_the_most_specific_route() {
    let router = sample();
    let pair = |a: &str, b: &str| (a.to_string(), b.to_string());
    let (h, params) = router.handler(&Method::Get, "/param/42").unwrap();
    assert_eq!(*h, "param");
    assert_eq!(params, vec![pair("p", "42")]);
    let (h, params) = router.handler(&Method::Get, "/other/thing").unwrap();
    assert_eq!(*h, "fallback");
    assert_eq!(params, vec![pair("path", "other/thing")]);
    let (h, params) = router.handler(&Method::Get, "/api/users/9").unwrap();
    assert_eq!(*h, "user");
    assert_eq!(params, vec![pair("id", "9")]);
    let (h, _) = router.handler(&Method::Delete, "/api/users/9").unwrap();
    assert_eq!(*h, "remove");
    let (h, params) = router
        .handler(&Method::Extension("PURGE".to_string()), "/cache/")
        .unwrap();
    assert_eq!(*h, "purge");
    assert_eq!(params, vec![pair("key", "")]);
}

#[test]
fn methods_without_routes_match_nothing() {
    let router = sample();
    assert!(router.handler(&Method::Put, "/param/42").is_none());
    assert!(!router.is_match(&Method::Put, "/param/42"));
    assert!(router.handler(&Method::Post, "/nothing").is_none());
    assert!(router.is_match(&Method::Post, "/param/1"));
    assert!(!router.is_match(&Method::Extension("LOCK".to_string()), "/cache/x"));
    assert_eq!(router.route_count(&Method::Put), 0);
    assert_eq!(router.route_count(&Method::Get), 3);
    let empty = RouterBuilder::<u8>::new().build().expect("failed to compile regex");
    assert!(!empty.is_match(&Method::Get, "/"));
}

#[test]
fn can_route_tells_what_route_takes() {
    let b = Router::builder().route(Method::Get, "/a", 1u8);
    assert!(!b.can_route(&Method::Get, "/a"));
    assert!(b.can_route(&Method::Post, "/a"));
    assert!(b.can_route(&Method::Get, "/b"));
    assert!(!b.can_route(&Method::Get, "/a//b"));
    assert!(!b.can_route(&Method::Get, "/:x/b"));
    assert!(!b.can_route(&Method::Get, "/{x}/{x}"));
    let sub = Router::builder().route(Method::Get, "/c", 2u8);
    assert!(b.can_mount("/m", &sub));
    assert!(!b.can_mount("/m/?", &sub));
    assert!(!b.can_mount("/m/:rest", &sub));
    assert!(!b.can_mount("/m//n", &sub));
}

#[test]
fn mount_needs_a_prefix_that_fits() {
    let parent = Router::builder().route(Method::Get, "/a", 1u8);
    let sub = || {
        Router::builder()
            .route(Method::Get, "/piyo", 2u8)
            .route(Method::Post, "/param/{v}", 3u8)
    };
    assert!(parent.can_mount("/piyo", &sub()));
    assert!(parent.can_mount("/{w}", &sub()));
    assert!(!parent.can_mount("/{v}", &sub()));
    assert!(!parent.can_mount("/x/{v?}", &sub()));
    assert!(!parent.can_mount("/a/", &sub()));
    assert!(!parent.can_mount("/", &sub()));
    assert!(parent.can_mount("/{v}", &Router::builder().route(Method::Get, "/piyo", 2u8)));
    assert!(!parent.can_mount("/{t}", &Router::builder().route(Method::Get, "/x/:t", 2u8)));
    assert!(parent.can_mount("/a/", &RouterBuilder::new()));
}

#[test]
fn mounted_routes_override_equal_patterns() {
    let router = Router::builder()
        .route(Method::Get, "/m/x", "parent")
        .mount("/m", Router::builder().route(Method::Get, "/x", "child"))
        .build()
        .expect("failed to compile regex");
    assert_eq!(router.route_count(&Method::Get), 1);
    assert_eq!(*router.handler(&Method::Get, "/m/x").unwrap().0, "child");
}

#[test]
fn build_reports_an_expression_that_does_not_compile() {
    let long = "a".repeat(2_000_000);
    let text = format!("/{}/{{x}}", long);
    let built = Router::builder().route(Method::Get, &text, 0u8).build();
    match built {
        Err(failure) => {
            assert!(failure.method.same(&Method::Get));
            assert_eq!(failure.error, CompileError::Pattern(0));
        }
        Ok(_) => panic!("the engine compiled an expression over its size limit"),
    }
}

#[test]
fn method_table_holds_one_value_per_method() {
    let mut table: HttpMethodMap<u32> = HttpMethodMap::new();
    assert_eq!(table.insert(Method::Get, 1), None);
    assert_eq!(table.insert(Method::Post, 2), None);
    assert_eq!(table.insert(Method::Extension("PURGE".to_string()), 3), None);
    assert_eq!(table.insert(Method::Get, 4), Some(1));
    assert_eq!(table.len(), 3);
    assert_eq!(table.get(&Method::Get), Some(&4));
    assert_eq!(table.get(&Method::Put), None);
    assert_eq!(table.get(&Method::Extension("PURGE".to_string())), Some(&3));
    assert_eq!(table.get(&Method::Extension("GET".to_string())), None);
    assert!(table.contains_key(&Method::Post));
    assert!(!table.contains_key(&Method::Trace));
    assert_eq!(table.remove(&Method::Post), Some(2));
    assert_eq!(table.remove(&Method::Post), None);
    assert_eq!(table.len(), 2);
    let seen = table.for_each(|method, value| {
        if method.same(&Method::Extension("PURGE".to_string())) {
            Control::Break(*value)
        } else {
            Control::Continue
        }
    });
    assert_eq!(seen, Some(3));
    let none: Option<u32> = table.for_each(|_, _| Control::Continue);
    assert_eq!(none, None);
    let entries = table.into_entries();
    assert_eq!(entries.len(), 2);
}

#[test]
fn methods_compare_by_name() {
    let all = [
        Method::Options, Method::Get, Method::Post, Method::Put, Method::Delete,
        Method::Head, Method::Trace, Method::Connect, Method::Patch,
        Method::Extension("X".to_string()),
    ];
    for (i, a) in all.iter().enumerate() {
        for (j, b) in all.iter().enumerate() {
            assert_eq!(a.same(b), i == j);
        }
        assert!(a.clone().same(a));
    }
    assert!(!Method::Extension("X".to_string()).same(&Method::Extension("Y".to_string())));
}

#[test]
fn control_defaults_to_continue() {
    assert!(matches!(Control::<u8>::default(), Control::Continue));
}

#[test]
fn compile_reports_a_set_that_does_not_compile() {
    let long = "a".repeat(2_000_000);
    let mut set = senya::pattern_set::PatternSet::new();
    set.insert(senya::pattern::Pattern::parse(&format!("/{}", long)).unwrap());
    assert_eq!(set.compile().err(), Some(CompileError::Whole));
}

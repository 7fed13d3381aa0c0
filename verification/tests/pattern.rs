use senya::order::Rank;
use senya::parse::ParseError;
use senya::pattern::{Pattern, Segment, Terminator};
use senya::pattern_set::PatternSet;

#[test]
fn test_pattern() {
    let pat1: Pattern = "/foo/bar/{user}".parse().expect("failed to parse");
    assert!(pat1.is_match("/foo/bar/piyo"));
    assert!(!pat1.is_match("/foo/bar/piyo/"));
    assert!(!pat1.is_match("/foo/bar/"));
    assert!(!pat1.is_match("/foo/bar"));
    assert_eq!(pat1.to_re_string(), "^foo/bar/([^/]+)$");
    assert!(pat1.param_names().iter().next().unwrap() == "user");

    let pat2: Pattern = "/foo/bar/{user?}".parse().expect("failed to parse");
    assert!(pat2.is_match("/foo/bar/piyo"));
    assert!(!pat2.is_match("/foo/bar/piyo/"));
    assert!(pat2.is_match("/foo/bar/"));
    assert!(!pat2.is_match("/foo/bar"));
    assert_eq!(pat2.to_re_string(), "^foo/bar/([^/]*)$");

    let pat3: Pattern = "/foo/bar/".parse().expect("failed to parse");
    assert!(!pat3.is_match("/foo/bar/piyo"));
    assert!(!pat3.is_match("/foo/bar/piyo/"));
    assert!(pat3.is_match("/foo/bar/"));
    assert!(!pat3.is_match("/foo/bar"));
    assert_eq!(pat3.to_re_string(), "^foo/bar/$");

    let pat4: Pattern = "/foo/bar/?".parse().expect("failed to parse");
    assert!(!pat4.is_match("/foo/bar/piyo"));
    assert!(!pat4.is_match("/foo/bar/piyo/"));
    assert!(pat4.is_match("/foo/bar/"));
    assert!(pat4.is_match("/foo/bar"));
    assert_eq!(pat4.to_re_string(), "^foo/bar/?$");

    let pat5: Pattern = "/foo/bar/:path".parse().expect("failed to parse");
    assert!(pat5.is_match("/foo/bar/piyo"));
    assert!(pat5.is_match("/foo/bar/piyo/"));
    assert!(pat5.is_match("/foo/bar/piyo/piyo"));
    assert!(pat5.is_match("/foo/bar/"));
    assert!(!pat5.is_match("/foo/bar"));
    assert_eq!(pat5.to_re_string(), "^foo/bar/(.*)$");

    assert!(pat2 > pat1);
    assert!(pat3 > pat1);
    assert!(pat4 > pat1);
    assert!(pat5 > pat1);

    assert!(pat3 > pat2);
    assert!(pat4 > pat3);
    assert!(pat5 > pat4);

    let pats = vec![pat1, pat2, pat3, pat4, pat5];
    let pset = PatternSet::from_iter(pats.clone());
    assert!(pset.next_token() == 5);
    assert!(pset.patterns().iter().eq(pats.iter()), "{:?}", pset.patterns());

    assert_eq!(pset.matched_token("/foo/bar/"), Some(1)); // `pat3` is unreachable
    assert_eq!(pset.matched_token("/foo/bar/piyo"), Some(0));
    assert_eq!(pset.matched_token("/foo/bar"), Some(3));
    assert_eq!(pset.matched_token("/foo/bar/piyo/"), Some(4));

    let pset = pset.compile().expect("failed to compile regex");
    assert_eq!(pset.matched_token("/foo/bar/"), Some(1));
    assert_eq!(pset.matched_token("/foo/bar/piyo"), Some(0));
    assert_eq!(pset.matched_token("/foo/bar"), Some(3));
    assert_eq!(pset.matched_token("/foo/bar/piyo/"), Some(4));

    let p: Pattern = "/:path".parse().unwrap();
    assert_eq!(p.to_re_string(), "^(.*)$");
    assert!(p.is_match("/hugahuga"));
    assert!(p.is_match("/"));

    let p: Pattern = "/".parse().unwrap();
    assert_eq!(p.to_re_string(), "^$");
    assert!(!p.is_match("/hugahuga"));
    assert!(p.is_match("/"));
}

fn pattern(text: &str) -> Pattern {
    Pattern::parse(text).expect("failed to parse")
}

#[test]
fn parse_rejects_tail_before_the_end() {
    assert_eq!(Pattern::parse("/foo/:rest/bar").unwrap_err(), ParseError::TailNotLast);
    assert_eq!(Pattern::parse("/:rest/?").unwrap_err(), ParseError::TailNotLast);
    assert_eq!(Pattern::parse(":rest").unwrap_err(), ParseError::TailNotLast);
}

#[test]
fn parse_rejects_empty_literal_before_the_end() {
    assert_eq!(Pattern::parse("/foo//bar").unwrap_err(), ParseError::MalformedLiteral);
    assert_eq!(Pattern::parse("//").unwrap_err(), ParseError::MalformedLiteral);
    assert!(Pattern::parse("/foo/").is_ok());
}

#[test]
fn parse_rejects_duplicate_names() {
    assert_eq!(Pattern::parse("/{id}/x/{id}").unwrap_err(), ParseError::DuplicateName);
    assert_eq!(Pattern::parse("/{id}/x/{id?}").unwrap_err(), ParseError::DuplicateName);
    assert_eq!(Pattern::parse("/{id}/:id").unwrap_err(), ParseError::DuplicateName);
    assert!(Pattern::parse("/x/x").is_ok());
    assert!(Pattern::parse("/{a}/{b}").is_ok());
}

#[test]
fn parse_error_messages() {
    assert_eq!(ParseError::TailNotLast.message(), "`:path` must be the last segment");
    assert_eq!(ParseError::MalformedLiteral.message(), "there cannot be empty segment");
    assert_eq!(ParseError::DuplicateName.message(), "duplicated parameter name");
}

#[test]
fn parse_reads_segments_and_terminators() {
    let p = pattern("/a/{b}/{c?}/:d");
    assert_eq!(p.segments().len(), 3);
    assert!(matches!(&p.segments()[0], Segment::Fixed(t) if t == "a"));
    assert!(matches!(&p.segments()[1], Segment::Parameter(n, false) if n == "b"));
    assert!(matches!(&p.segments()[2], Segment::Parameter(n, true) if n == "c"));
    assert!(p.terminated());
    assert_eq!(p.param_names(), vec!["b".to_string(), "c".to_string(), "d".to_string()]);
    assert_eq!(p.render(), "/a/{b}/{c?}/:d");

    let q = pattern("/?");
    assert_eq!(q.segments().len(), 0);
    assert!(q.terminated());
    assert_eq!(q.render(), "//?");

    let r = pattern("/a/b/?");
    assert_eq!(r.render(), "/a/b/?");
    assert!(!pattern("/a/b").terminated());
    assert_eq!(pattern("/a/b/").render(), "/a/b/");
    assert_eq!(pattern("a/b"), pattern("/a/b"));
}

#[test]
fn expression_escapes_literals() {
    assert_eq!(pattern("/a.b/c+d").to_re_string(), r"^a\.b/c\+d$");
    assert_eq!(pattern("/x-y/[z]").to_re_string(), r"^x\-y/\[z\]$");
    assert_eq!(pattern("/{a}/{b?}/:c").to_re_string(), "^([^/]+)/([^/]*)/(.*)$");
    assert_eq!(pattern("/?").to_re_string(), "^?$");
}

#[test]
fn push_builds_a_pattern() {
    let mut p = Pattern::new();
    assert!(!p.terminated());
    let a = Segment::Fixed("a".to_string());
    assert!(p.admits(&a));
    p.push(a);
    let id = Segment::Parameter("id".to_string(), false);
    assert!(p.admits(&id));
    p.push(id);
    assert!(!p.admits(&Segment::Parameter("id".to_string(), true)));
    assert!(p.admits(&Segment::Fixed("a".to_string())));
    p.push(Segment::Fixed(String::new()));
    assert!(!p.admits(&Segment::Fixed("b".to_string())));
    assert_eq!(p, pattern("/a/{id}/"));
    assert_eq!(Pattern::with_capacity(4), Pattern::new());
    assert!(!pattern("/a/?").admits(&Segment::Fixed("b".to_string())));
}

#[test]
fn tail_needs_a_slash_after_the_segments() {
    let p = pattern("/foo/:rest");
    assert!(!p.is_match("/foo"));
    assert!(p.is_match("/foo/"));
    assert!(p.is_match("/foo/a/b"));
    assert!(!p.is_match("/fo"));
    let q = pattern("/a/{x?}/c/:t");
    assert!(!q.is_match("/a/"));
    assert!(q.is_match("/a//c/"));
    let r = pattern("/a/{x?}/:t");
    assert!(!r.is_match("/a/"));
    assert!(r.is_match("/a//"));
    assert!(r.is_match("/a/b/"));
    assert!(!r.is_match("/a/b"));
    assert!(r.is_match("/a//c/d"));
    let s = pattern("/a//:t");
    assert!(!s.is_match("/a/"));
    assert!(s.is_match("/a//"));
}

#[test]
fn tail_matches_as_its_expression_does() {
    let texts = ["/a/{x?}/:t", "/a//:t", "/a/:t", "/:t", "/{x?}/:t", "/{x}/{y?}/:t"];
    let paths = [
        "/", "//", "///", "/a", "/a/", "/a//", "/a///", "/a/b", "/a/b/", "/a/b/c", "/a//c",
        "/b", "/b/", "/b//",
    ];
    for text in texts.iter() {
        let parsed = pattern(text);
        let mut set = PatternSet::new();
        set.insert(pattern(text));
        let compiled = set.compile().expect("failed to compile regex");
        for path in paths.iter() {
            assert_eq!(compiled.is_match(path), parsed.is_match(path), "{} on {}", text, path);
        }
    }
}

#[test]
fn optional_slash_strips_one_slash() {
    let p = pattern("/?");
    assert!(p.is_match("/"));
    assert!(!p.is_match("//"));
    assert!(!p.is_match("/a"));
    let q = pattern("/a/?");
    assert!(q.is_match("/a"));
    assert!(q.is_match("/a/"));
    assert!(!q.is_match("/a//"));
}

#[test]
fn specificity_is_total_on_examples() {
    let texts = [
        "/foo/bar/{user}", "/foo/bar/{user?}", "/foo/bar/", "/foo/bar/?", "/foo/bar/:path",
        "/foo/bar", "/foo", "/", "/?", "/:all", "/{a}", "/{b}", "/{a?}", "/foo/{a}/x",
    ];
    for a in texts.iter() {
        for b in texts.iter() {
            let (pa, pb) = (pattern(a), pattern(b));
            let ab = pa.compare(&pb);
            let ba = pb.compare(&pa);
            if a == b {
                assert_eq!(ab, Rank::Same);
                assert!(pa == pb);
            } else {
                assert!(ab != Rank::Same);
                assert!((ab == Rank::Before) != (ba == Rank::Before));
                assert!(pa != pb);
            }
        }
    }
    assert_eq!(pattern("/foo/bar").compare(&pattern("/foo")), Rank::Before);
    assert_eq!(pattern("/foo").compare(&pattern("/{a}")), Rank::Before);
    assert_eq!(pattern("/{a}").compare(&pattern("/{a?}")), Rank::Before);
    assert_eq!(pattern("/{a}").compare(&pattern("/{b}")), Rank::Before);
    assert_eq!(pattern("/a").compare(&pattern("/b")), Rank::Before);
    assert_eq!(pattern("/a").compare(&pattern("/ab")), Rank::Before);
    assert_eq!(pattern("/a").compare(&pattern("/a/?")), Rank::Before);
    assert_eq!(pattern("/a/?").compare(&pattern("/a/:t")), Rank::Before);
    assert_eq!(pattern("/a/:s").compare(&pattern("/a/:t")), Rank::Before);
    assert_eq!(pattern("/a").compare(&pattern("/a/")), Rank::Before);
    assert_eq!(pattern("/a/").compare(&pattern("/a/?")), Rank::Before);
}

#[test]
fn insert_keeps_order_and_rejects_duplicates() {
    let mut set = PatternSet::new();
    assert!(set.is_empty());
    assert_eq!(set.insert(pattern("/foo/bar/:path")), Some(0));
    assert_eq!(set.insert(pattern("/foo/bar/{user}")), Some(1));
    assert_eq!(set.insert(pattern("/foo/bar/")), Some(2));
    assert_eq!(set.insert(pattern("/foo/bar/{user}")), None);
    assert_eq!(set.insert(pattern("/foo/bar")), Some(3));
    assert_eq!(set.len(), 4);
    assert_eq!(set.next_token(), 4);
    assert!(!set.is_empty());
    let order: Vec<String> = set.patterns().iter().map(|p| p.render()).collect();
    assert_eq!(order, vec!["/foo/bar/{user}", "/foo/bar", "/foo/bar/", "/foo/bar/:path"]);
    assert_eq!(set.matched_token("/foo/bar/piyo"), Some(1));
    assert_eq!(set.matched_token("/foo/bar/"), Some(2));
    assert_eq!(set.matched_token("/foo/bar"), Some(3));
    assert_eq!(set.matched_token("/foo/bar/a/b"), Some(0));
    assert_eq!(set.matched_token("/foo"), None);
    assert!(set.is_match("/foo/bar"));
    assert!(!set.is_match("/foo"));
    assert!(set.contains(&pattern("/foo/bar")));
    assert!(!set.contains(&pattern("/foo")));
}

#[test]
fn winner_does_not_depend_on_insertion_order() {
    let texts = ["/foo/bar/{user}", "/foo/bar/{user?}", "/foo/bar/", "/foo/bar/?", "/foo/bar/:path"];
    let mut forward = PatternSet::new();
    for t in texts.iter() {
        forward.insert(pattern(t));
    }
    let mut backward = PatternSet::new();
    for t in texts.iter().rev() {
        backward.insert(pattern(t));
    }
    assert_eq!(forward.patterns(), backward.patterns());
    for path in ["/foo/bar/", "/foo/bar/piyo", "/foo/bar", "/foo/bar/piyo/", "/nope"] {
        let a = forward.matched_token(path).map(|t| forward.patterns()[t].render());
        let b = backward.matched_token(path).map(|t| texts[texts.len() - 1 - t].to_string());
        assert_eq!(a.is_some(), b.is_some());
        if let (Some(a), Some(b)) = (a, b) {
            let winner_forward = forward
                .patterns()
                .into_iter()
                .find(|p| p.is_match(path))
                .unwrap()
                .render();
            assert_eq!(winner_forward, b);
            let _ = a;
        }
    }
}

#[test]
fn prefix_and_combine() {
    let mut sub = PatternSet::new();
    assert_eq!(sub.insert(pattern("/piyo")), Some(0));
    assert_eq!(sub.insert(pattern("/param/{v}")), Some(1));
    let mounted = sub.prefix(&pattern("/piyo"));
    assert_eq!(mounted.len(), 2);
    assert_eq!(mounted.next_token(), 2);
    assert_eq!(mounted.matched_token("/piyo/piyo"), Some(0));
    assert_eq!(mounted.matched_token("/piyo/param/fuga"), Some(1));
    assert_eq!(mounted.matched_token("/piyo"), None);

    let mut parent = PatternSet::new();
    assert_eq!(parent.insert(pattern("/foo/bar")), Some(0));
    assert_eq!(parent.insert(pattern("/piyo/piyo")), Some(1));
    parent.combine(&mounted);
    assert_eq!(parent.next_token(), 4);
    assert_eq!(parent.len(), 3);
    assert_eq!(parent.matched_token("/foo/bar"), Some(0));
    assert_eq!(parent.matched_token("/piyo/piyo"), Some(2));
    assert_eq!(parent.matched_token("/piyo/param/x"), Some(3));
}

#[test]
fn from_iter_numbers_patterns() {
    let set = PatternSet::from_iter(vec![pattern("/b"), pattern("/a"), pattern("/b")]);
    assert_eq!(set.next_token(), 3);
    assert_eq!(set.len(), 2);
    assert_eq!(set.matched_token("/a"), Some(1));
    assert_eq!(set.matched_token("/b"), Some(2));
    let empty = PatternSet::from_iter(Vec::new());
    assert_eq!(empty.next_token(), 0);
    assert!(empty.is_empty());
}

#[test]
fn compiled_set_agrees_with_the_set() {
    let texts = [
        "/foo/bar/{user}", "/foo/bar/{user?}", "/foo/bar/", "/foo/bar/?", "/foo/bar/:path",
        "/", "/static/:file", "/a.b/{c}",
    ];
    let mut set = PatternSet::new();
    for t in texts.iter() {
        set.insert(pattern(t));
    }
    let compiled = set.compile().expect("failed to compile regex");
    assert_eq!(compiled.len(), texts.len());
    assert!(!compiled.is_empty());
    for path in [
        "/foo/bar/", "/foo/bar/piyo", "/foo/bar", "/foo/bar/piyo/", "/foo/bar/a/b", "/",
        "/static/css/site.css", "/a.b/x", "/axb/x", "/nope",
    ] {
        assert_eq!(compiled.matched_token(path), set.matched_token(path), "{}", path);
        assert_eq!(compiled.is_match(path), set.is_match(path), "{}", path);
    }
    assert!(PatternSet::new().compile().expect("failed to compile regex").is_empty());
}

#[test]
fn compiled_set_captures_values() {
    let mut set = PatternSet::new();
    set.insert(pattern("/user/{id}/posts/{post?}"));
    set.insert(pattern("/static/:file"));
    set.insert(pattern("/plain"));
    let compiled = set.compile().expect("failed to compile regex");
    let pair = |a: &str, b: &str| (a.to_string(), b.to_string());
    assert_eq!(
        compiled.resolve("/user/7/posts/"),
        Some((0, vec![pair("id", "7"), pair("post", "")]))
    );
    assert_eq!(
        compiled.resolve("/user/7/posts/first"),
        Some((0, vec![pair("id", "7"), pair("post", "first")]))
    );
    assert_eq!(compiled.resolve("/static/css/site.css"), Some((1, vec![pair("file", "css/site.css")])));
    assert_eq!(compiled.resolve("/plain"), Some((2, vec![])));
    assert_eq!(compiled.resolve("/none"), None);
}

fn matches_segment_by_segment(pattern: &Pattern, path: &str) -> bool {
    let optional = matches!(pattern.terminator(), Some(Terminator::OptionalSlash));
    let tail = matches!(pattern.terminator(), Some(Terminator::Tail(_)));
    let walked = if optional && path.ends_with('/') {
        &path[..path.len() - 1]
    } else {
        path
    };
    let parts: Vec<&str> = walked.split('/').skip(1).collect();
    let segments = pattern.segments();
    if (tail && parts.len() <= segments.len()) || (!tail && parts.len() != segments.len()) {
        return false;
    }
    for (part, segment) in parts.iter().zip(segments.iter()) {
        let accepted = match segment {
            Segment::Fixed(text) => part == text,
            Segment::Parameter(_, allow_empty) => *allow_empty || !part.is_empty(),
        };
        if !accepted {
            return false;
        }
    }
    true
}

#[test]
fn matching_agrees_with_a_segment_by_segment_matcher() {
    let pieces = ["a", "bc", "{x}", "{y?}", "{z}", ""];
    let ends = ["", "/?", "/:rest"];
    let mut texts: Vec<String> = Vec::new();
    for end in ends.iter() {
        texts.push(format!("{}", end));
        for a in pieces.iter() {
            texts.push(format!("/{}{}", a, end));
            for b in pieces.iter() {
                texts.push(format!("/{}/{}{}", a, b, end));
                for c in pieces.iter() {
                    texts.push(format!("/{}/{}/{}{}", a, b, c, end));
                }
            }
        }
    }
    let parts = ["a", "bc", "x", ""];
    let mut paths: Vec<String> = vec!["/".to_string()];
    for a in parts.iter() {
        paths.push(format!("/{}", a));
        for b in parts.iter() {
            paths.push(format!("/{}/{}", a, b));
            for c in parts.iter() {
                paths.push(format!("/{}/{}/{}", a, b, c));
                for d in parts.iter() {
                    paths.push(format!("/{}/{}/{}/{}", a, b, c, d));
                }
            }
        }
    }
    let mut state: u64 = 0x2545f4914f6cdd1d;
    let mut checked = 0;
    let mut matched = 0;
    for text in texts.iter() {
        let parsed = match Pattern::parse(text) {
            Ok(parsed) => parsed,
            Err(_) => continue,
        };
        for _ in 0..60 {
            state = state.wrapping_mul(6364136223846793005).wrapping_add(1442695040888963407);
            let path = &paths[(state >> 33) as usize % paths.len()];
            let expected = matches_segment_by_segment(&parsed, path);
            assert_eq!(parsed.is_match(path), expected, "{} on {}", text, path);
            checked += 1;
            if expected {
                matched += 1;
            }
        }
    }
    assert!(checked > 5000);
    assert!(matched > 100);
}

#[test]
fn segments_parse_alone() {
    assert_eq!("foo".parse::<Segment>(), Ok(Segment::Fixed("foo".to_string())));
    assert_eq!("{id}".parse::<Segment>(), Ok(Segment::Parameter("id".to_string(), false)));
    assert_eq!("{id?}".parse::<Segment>(), Ok(Segment::Parameter("id".to_string(), true)));
    assert_eq!("{}".parse::<Segment>(), Ok(Segment::Parameter(String::new(), false)));
    assert_eq!("{?}".parse::<Segment>(), Ok(Segment::Parameter(String::new(), true)));
    assert_eq!("{id".parse::<Segment>(), Ok(Segment::Fixed("{id".to_string())));
    assert_eq!("".parse::<Segment>(), Ok(Segment::Fixed(String::new())));
    assert_eq!(Segment::parse(":rest"), Err(ParseError::TailNotLast));
    assert!(Segment::Fixed("a".to_string()) != Segment::Parameter("a".to_string(), false));
    assert!(Segment::Fixed(String::new()).is_empty_fixed());
    assert!(!Segment::Parameter(String::new(), true).is_empty_fixed());
    assert_eq!(Segment::Fixed("a.b".to_string()).expression(), r"a\.b");
    assert_eq!(Segment::Parameter("n".to_string(), true).render(), "{n?}");
}

#[test]
fn join_puts_a_prefix_before_a_pattern() {
    let joined = pattern("/api/{version}").join(&pattern("/users/{id}/:rest"));
    assert_eq!(joined, pattern("/api/{version}/users/{id}/:rest"));
    assert_eq!(joined.param_names(), vec!["version", "id", "rest"]);
    assert_eq!(pattern("/api").join(&pattern("/?")), pattern("/api/?"));
    assert_eq!(joined.clone(), joined);
    assert_eq!(joined.lead_count(), 4);
    assert_eq!(pattern("/a/").lead_count(), 1);
    assert!(!joined.has_duplicate_names());
    assert!(pattern("/{id}").join(&pattern("/{id}")).has_duplicate_names());
    assert!(joined.empty_only_last());
    assert!(!pattern("/a/").join(&pattern("/b")).empty_only_last());
}

#[test]
fn a_prefix_fits_without_empty_literal_or_shared_name() {
    assert!(pattern("/api/{version}").fits_before(&pattern("/users/{id}/:rest")));
    assert!(!pattern("/api/{id}").fits_before(&pattern("/users/{id}")));
    assert!(!pattern("/api/{rest}").fits_before(&pattern("/users/:rest")));
    assert!(!pattern("/api/").fits_before(&pattern("/users")));
    assert!(!pattern("/").fits_before(&pattern("/users")));
    assert!(!pattern("/api/?").fits_before(&pattern("/users")));
    assert!(pattern("/api").fits_before(&pattern("/")));
    let mut set = PatternSet::new();
    set.insert(pattern("/users/{id}"));
    set.insert(pattern("/posts"));
    assert!(set.fits_under(&pattern("/api/{version}")));
    assert!(!set.fits_under(&pattern("/api/{id}")));
    assert!(PatternSet::new().fits_under(&pattern("/api/")));
}

#[test]
fn non_ascii_text_is_read_by_character() {
    let p = pattern("/caf\u{e9}/{na\u{ef}ve?}/:r\u{e9}st");
    assert_eq!(p.param_names(), vec!["na\u{ef}ve", "r\u{e9}st"]);
    assert!(p.is_match("/caf\u{e9}/\u{1f600}/x/y"));
    assert!(!p.is_match("/cafe/x/"));
    assert_eq!(p.render(), "/caf\u{e9}/{na\u{ef}ve?}/:r\u{e9}st");
    assert_eq!(pattern("/\u{e9}").compare(&pattern("/z")), Rank::After);
    assert_eq!(pattern("/\u{e9}").compare(&pattern("/\u{1f600}")), Rank::Before);
    let mut set = PatternSet::new();
    set.insert(p);
    let compiled = set.compile().expect("failed to compile regex");
    assert_eq!(
        compiled.resolve("/caf\u{e9}/\u{1f600}/x/y"),
        Some((0, vec![
            ("na\u{ef}ve".to_string(), "\u{1f600}".to_string()),
            ("r\u{e9}st".to_string(), "x/y".to_string()),
        ]))
    );
}

use facade::error::GatewayError;
use facade::message::{Method, Request, Response};
use facade::path::{split_path, str_equal, tail_at, Params, Pattern, Segment};
use facade::router::{Handler, Matched, RouteTable};

fn strings(items: &[&str]) -> Vec<String> {
    items.iter().map(|s| s.to_string()).collect()
}

fn table(entries: &[(&str, Handler)]) -> RouteTable {
    let mut t = RouteTable::new();
    for (text, handler) in entries {
        assert!(t.register_path(Method::Get, text, *handler).is_ok());
    }
    t
}

fn found(t: &RouteTable, path: &str) -> Matched {
    match t.find(Method::Get, path) {
        Some(m) => m,
        None => panic!("no route for {}", path),
    }
}

#[test]
fn split_path_drops_empty_segments() {
    assert_eq!(split_path("/"), Vec::<String>::new());
    assert_eq!(split_path(""), Vec::<String>::new());
    assert_eq!(split_path("/users/42"), strings(&["users", "42"]));
    assert_eq!(split_path("/a//b/"), strings(&["a", "b"]));
    assert_eq!(split_path("users"), strings(&["users"]));
    assert_eq!(split_path("/caf\u{e9}/x"), strings(&["caf\u{e9}", "x"]));
}

#[test]
fn tail_at_gives_the_path_from_a_segment_on() {
    assert_eq!(tail_at("/a/b/c", 0), "a/b/c");
    assert_eq!(tail_at("/a/b/c", 1), "b/c");
    assert_eq!(tail_at("/a/b/c", 2), "c");
    assert_eq!(tail_at("/a/b/c", 3), "");
    assert_eq!(tail_at("//a//b/", 1), "b/");
    assert_eq!(tail_at("//a//b/", 0), "a//b/");
    assert_eq!(tail_at("", 0), "");
    assert_eq!(tail_at("/", 0), "");
}

#[test]
fn str_equal_compares_characters() {
    assert!(str_equal("abc", "abc"));
    assert!(!str_equal("abc", "abd"));
    assert!(!str_equal("abc", "ab"));
    assert!(str_equal("", ""));
}

#[test]
fn pattern_parse_reads_each_kind_of_segment() {
    let p = Pattern::parse("/users/:userId/*").unwrap();
    assert_eq!(p.segments.len(), 3);
    assert!(matches!(&p.segments[0], Segment::Literal(t) if t == "users"));
    assert!(matches!(&p.segments[1], Segment::Param(n) if n == "userId"));
    assert!(matches!(&p.segments[2], Segment::Wildcard));
    assert!(p.is_valid());
    assert!(p.ends_in_wildcard());
    let root = Pattern::parse("/").unwrap();
    assert_eq!(root.segments.len(), 0);
    assert!(!root.ends_in_wildcard());
}

#[test]
fn pattern_parse_refuses_a_wildcard_before_the_end() {
    assert!(matches!(Pattern::parse("/*/x"), Err(GatewayError::Configuration(_))));
    assert!(matches!(Pattern::parse("/a/*/*"), Err(GatewayError::Configuration(_))));
    assert!(Pattern::parse("/a/*").is_ok());
}

#[test]
fn register_refuses_an_invalid_pattern_and_keeps_the_table() {
    let mut t = table(&[("/", Handler::Home)]);
    let bad = Pattern { segments: vec![Segment::Wildcard, Segment::Literal("x".to_string())] };
    assert!(!bad.is_valid());
    let out = t.register(Method::Get, bad, Handler::Proxy);
    assert!(matches!(out, Err(GatewayError::Configuration(_))));
    assert_eq!(t.routes.len(), 1);
    assert!(matches!(
        t.register_path(Method::Get, "/*/*", Handler::Proxy),
        Err(GatewayError::Configuration(_))
    ));
    assert_eq!(t.routes.len(), 1);
    assert!(t.register_path(Method::Get, "/*", Handler::Proxy).is_ok());
    assert_eq!(t.routes.len(), 2);
}

#[test]
fn literal_route_matches_its_exact_path_and_method() {
    let t = table(&[("/", Handler::Home), ("/about/us", Handler::UserTest)]);
    let m = found(&t, "/about/us");
    assert_eq!(m.index, 1);
    assert_eq!(m.handler, Handler::UserTest);
    assert!(m.params.entries.is_empty());
    assert_eq!(found(&t, "/").handler, Handler::Home);
    assert!(t.find(Method::Post, "/about/us").is_none());
    assert!(t.find(Method::Get, "/about").is_none());
    assert!(t.find(Method::Get, "/about/us/more").is_none());
    assert!(t.find(Method::Get, "/nope").is_none());
}

#[test]
fn parameter_captures_the_segment_as_it_stands() {
    let t = table(&[("/users/:userId", Handler::User)]);
    let m = found(&t, "/users/42");
    assert_eq!(m.params.get("userId"), Some("42".to_string()));
    assert_eq!(m.params.get("other"), None);
    let m = found(&t, "/users/a%20b%2Fc");
    assert_eq!(m.params.get("userId"), Some("a%20b%2Fc".to_string()));
    assert!(t.find(Method::Get, "/users").is_none());
    assert!(t.find(Method::Get, "/users/1/2").is_none());
}

#[test]
fn specific_route_wins_over_wildcard_whatever_the_order() {
    let t = table(&[("/*", Handler::Proxy), ("/users/:userId", Handler::User)]);
    for id in ["42", "7", "x-y", "%41"] {
        let m = found(&t, &format!("/users/{}", id));
        assert_eq!(m.index, 1);
        assert_eq!(m.handler, Handler::User);
        assert_eq!(m.params.get("userId"), Some(id.to_string()));
    }
    let m = found(&t, "/other/thing");
    assert_eq!(m.index, 0);
    assert_eq!(m.handler, Handler::Proxy);
}

#[test]
fn wildcard_captures_the_rest_of_the_path() {
    let t = table(&[("/files/*", Handler::Proxy)]);
    let m = found(&t, "/files/a/b/c");
    assert_eq!(m.params.get("*"), Some("a/b/c".to_string()));
    let m = found(&t, "/files");
    assert_eq!(m.params.get("*"), Some("".to_string()));
    let m = found(&t, "/files/a//b/");
    assert_eq!(m.params.get("*"), Some("a//b/".to_string()));
    let m = found(&t, "/files/caf\u{e9}/%2F");
    assert_eq!(m.params.get("*"), Some("caf\u{e9}/%2F".to_string()));
    assert!(t.find(Method::Get, "/file/a").is_none());
}

#[test]
fn first_registered_route_of_a_class_wins() {
    let t = table(&[
        ("/a/:x", Handler::User),
        ("/a/b", Handler::Home),
        ("/a/*", Handler::Proxy),
        ("/*", Handler::UserTest),
    ]);
    assert_eq!(found(&t, "/a/b").index, 0);
    assert_eq!(found(&t, "/a/b/c").index, 2);
    assert_eq!(found(&t, "/z").index, 3);
}

#[test]
fn params_get_returns_the_first_entry_of_a_name() {
    let p = Params {
        entries: vec![
            ("a".to_string(), "1".to_string()),
            ("b".to_string(), "2".to_string()),
            ("a".to_string(), "3".to_string()),
        ],
    };
    assert_eq!(p.get("a"), Some("1".to_string()));
    assert_eq!(p.get("b"), Some("2".to_string()));
    assert_eq!(p.get("c"), None);
}

#[test]
fn request_new_and_response_constructors() {
    let req = Request::new(Method::Get, "/x", Some("a=1".to_string()));
    assert_eq!(req.method, Method::Get);
    assert_eq!(req.origin, "");
    assert_eq!(req.path, "/x");
    assert_eq!(req.query, Some("a=1".to_string()));
    assert!(req.headers.is_empty());
    assert!(req.body.is_empty());
    assert_eq!(req.target(), "/x?a=1");
    let nf = Response::not_found();
    assert_eq!(nf.status, 404);
    assert_eq!(nf.body, "Not Found");
    let ok = Response::ok("hi".to_string());
    assert_eq!(ok.status, 200);
    assert_eq!(ok.body, "hi");
}

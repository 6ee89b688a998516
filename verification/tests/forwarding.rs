use facade::error::GatewayError;
use facade::logging::{format_record, logger, method_text};
use facade::message::{build_target, Header, Method, Request};
use facade::proxy::{
    finish_rewrite, names_match, proxy_handler, relay, rewrite_to_proxy, should_strip,
    strip_headers, to_lower,
};
use facade::types::{default_origin, Env, State};

fn pairs(headers: &[Header]) -> Vec<(String, String)> {
    headers.iter().map(|h| (h.name.clone(), h.value.clone())).collect()
}

fn pair(name: &str, value: &str) -> (String, String) {
    (name.to_string(), value.to_string())
}

#[test]
fn to_lower_folds_ascii_letters_only() {
    assert_eq!(to_lower('A'), 'a');
    assert_eq!(to_lower('Z'), 'z');
    assert_eq!(to_lower('a'), 'a');
    assert_eq!(to_lower('-'), '-');
    assert_eq!(to_lower('@'), '@');
    assert_eq!(to_lower('['), '[');
    assert_eq!(to_lower('\u{c9}'), '\u{c9}');
}

#[test]
fn names_match_ignores_ascii_case() {
    assert!(names_match("Content-Length", "content-length"));
    assert!(names_match("CONTENT-LENGTH", "content-length"));
    assert!(!names_match("content-length", "content-lengt"));
    assert!(!names_match("content_length", "content-length"));
}

#[test]
fn should_strip_names_exactly_four_headers() {
    for name in ["content-length", "Transfer-Encoding", "ACCEPT-ENCODING", "Content-Encoding"] {
        assert!(should_strip(name), "{}", name);
    }
    for name in ["content-type", "accept", "host", "content-length2", "x-content-length", ""] {
        assert!(!should_strip(name), "{}", name);
    }
}

#[test]
fn strip_headers_keeps_the_others_in_order() {
    let mut req = Request::new(Method::Post, "/x", None);
    req.push_header("Host", "example.com");
    req.push_header("Content-Length", "12");
    req.push_header("X-Tag", "one");
    req.push_header("transfer-encoding", "chunked");
    req.push_header("x-tag", "two");
    req.push_header("Accept-Encoding", "gzip");
    req.push_header("Content-Encoding", "gzip");
    req.push_header("Accept", "*/*");
    let kept = strip_headers(&req.headers);
    assert_eq!(
        pairs(&kept),
        vec![
            pair("Host", "example.com"),
            pair("X-Tag", "one"),
            pair("x-tag", "two"),
            pair("Accept", "*/*"),
        ]
    );
    assert_eq!(req.headers.len(), 8);
}

#[test]
fn build_target_appends_path_and_query() {
    assert_eq!(build_target("https://httpbin.org", "/foo", &None), "https://httpbin.org/foo");
    assert_eq!(
        build_target("https://httpbin.org", "/foo", &Some("bar=baz".to_string())),
        "https://httpbin.org/foo?bar=baz"
    );
    assert_eq!(build_target("http://h", "/", &Some("".to_string())), "http://h/?");
}

#[test]
fn rewrite_keeps_the_query_string_as_it_is() {
    let mut req = Request::new(Method::Get, "/foo", Some("bar=baz".to_string()));
    req.push_header("Content-Length", "0");
    req.push_header("Accept", "text/plain");
    req.body = vec![1, 2, 3];
    let out = rewrite_to_proxy(&mut req, "https://httpbin.org");
    assert!(out.is_ok());
    assert_eq!(req.target(), "https://httpbin.org/foo?bar=baz");
    assert_eq!(req.origin, "https://httpbin.org");
    assert_eq!(req.path, "/foo");
    assert_eq!(req.query, Some("bar=baz".to_string()));
    assert_eq!(req.method, Method::Get);
    assert_eq!(req.body, vec![1, 2, 3]);
    assert_eq!(pairs(&req.headers), vec![pair("Accept", "text/plain")]);
    let mut odd = Request::new(Method::Get, "/foo", Some("a=%20b&c=d%2Fe&&=".to_string()));
    assert!(rewrite_to_proxy(&mut odd, "http://localhost:8080").is_ok());
    assert_eq!(odd.target(), "http://localhost:8080/foo?a=%20b&c=d%2Fe&&=");
}

#[test]
fn rewrite_fails_on_a_target_that_is_no_uri() {
    let mut req = Request::new(Method::Get, "/a b", None);
    req.push_header("Content-Length", "0");
    req.push_header("Accept", "text/plain");
    let out = rewrite_to_proxy(&mut req, "https://httpbin.org");
    match out {
        Err(GatewayError::Upstream(text)) => {
            assert!(text.starts_with("Parsing URI in rewrite_to_proxy: "), "{}", text);
            assert!(text.len() > "Parsing URI in rewrite_to_proxy: ".len());
        }
        other => panic!("unexpected {:?}", other),
    }
    assert_eq!(req.origin, "");
    assert_eq!(req.path, "/a b");
    assert_eq!(pairs(&req.headers), vec![pair("Accept", "text/plain")]);
    let mut empty = Request::new(Method::Get, "", None);
    assert!(matches!(rewrite_to_proxy(&mut empty, ""), Err(GatewayError::Upstream(_))));
}

#[test]
fn finish_rewrite_follows_the_verdict() {
    let mut req = Request::new(Method::Put, "/p", None);
    assert!(finish_rewrite(&mut req, "http://up", Ok(())).is_ok());
    assert_eq!(req.origin, "http://up");
    let mut req = Request::new(Method::Put, "/p", None);
    match finish_rewrite(&mut req, "http://up", Err("bad".to_string())) {
        Err(GatewayError::Upstream(text)) => {
            assert_eq!(text, "Parsing URI in rewrite_to_proxy: bad")
        }
        other => panic!("unexpected {:?}", other),
    }
    assert_eq!(req.origin, "");
}

#[test]
fn proxy_handler_rewrites_for_the_origin_of_the_context() {
    let env = Env::new(default_origin(), State(100));
    assert_eq!(env.origin(), "https://httpbin.org");
    assert_eq!(env.state(), State(100));
    let mut req = Request::new(Method::Get, "/uuid", None);
    req.push_header("accept-encoding", "br");
    req.push_header("User-Agent", "t");
    let sent = proxy_handler(req, &env).unwrap();
    assert_eq!(sent.target(), "https://httpbin.org/uuid");
    assert_eq!(pairs(&sent.headers), vec![pair("User-Agent", "t")]);
    let bad = Request::new(Method::Get, "/\u{7f}", None);
    assert!(matches!(proxy_handler(bad, &env), Err(GatewayError::Upstream(_))));
}

#[test]
fn relay_hands_on_the_response_or_wraps_the_cause() {
    let ok: Result<(u16, Vec<u8>), String> = Ok((418, vec![9, 8]));
    assert_eq!(relay(ok).unwrap(), (418, vec![9, 8]));
    let failed: Result<(u16, Vec<u8>), String> = Err("connection refused".to_string());
    match relay(failed) {
        Err(GatewayError::Upstream(text)) => {
            assert_eq!(text, "Making request to backend server: connection refused")
        }
        other => panic!("unexpected {:?}", other),
    }
}

#[test]
fn error_message_gives_the_cause() {
    assert_eq!(GatewayError::Configuration("a".to_string()).message(), "a");
    assert_eq!(GatewayError::Middleware("b".to_string()).message(), "b");
    assert_eq!(GatewayError::Upstream("c".to_string()).message(), "c");
    assert_eq!(GatewayError::Handler("d".to_string()).message(), "d");
}

#[test]
fn log_lines_have_their_fixed_shape() {
    assert_eq!(
        format_record("[2021-03-04][05:06:07]", "DEBUG", "hello"),
        "[2021-03-04][05:06:07][DEBUG] hello"
    );
    assert_eq!(logger("127.0.0.1:5000", Method::Get, "/users/7"), "127.0.0.1:5000 GET /users/7");
    assert_eq!(method_text(Method::Delete), "DELETE");
    assert_eq!(method_text(Method::Options), "OPTIONS");
}

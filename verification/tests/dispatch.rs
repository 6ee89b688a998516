use facade::error::GatewayError;
use facade::message::{Method, Request, Response};
use facade::path::{Params, Pattern, Segment};
use facade::router::{
    error_handler, home_handler, invoke, settle, user_handler, user_handler_2, Chain, Handled,
    Handler, Outcome, RouteTable, Router, Transform,
};
use facade::types::{Env, State};
use facade::{proxy_handler, router};

fn env() -> Env {
    Env::new("https://httpbin.org".to_string(), State(100))
}

fn get(r: &Router, path: &str) -> Handled {
    r.handle(Request::new(Method::Get, path, None), &env())
}

fn response(h: Handled) -> Response {
    match h.outcome {
        Outcome::Respond(resp) => resp,
        Outcome::Forward(req) => panic!("forwarded to {}", req.target()),
    }
}

fn without_wildcard() -> Router {
    let mut table = RouteTable::new();
    assert!(table.register_path(Method::Get, "/", Handler::Home).is_ok());
    assert!(table.register_path(Method::Get, "/users/:userId", Handler::User).is_ok());
    Router { table, chain: Chain::new() }
}

#[test]
fn default_router_has_four_routes() {
    let r = router(true);
    assert_eq!(r.table.routes.len(), 4);
    assert_eq!(r.chain.transforms.len(), 1);
    assert!(matches!(r.chain.transforms[0], Transform::Log));
    let quiet = router(false);
    assert_eq!(quiet.chain.transforms.len(), 0);
    let handlers: Vec<Handler> = quiet.table.routes.iter().map(|x| x.handler).collect();
    assert_eq!(handlers, vec![Handler::Home, Handler::User, Handler::UserTest, Handler::Proxy]);
    assert!(quiet.table.routes.iter().all(|x| x.method == Method::Get && x.pattern.is_valid()));
}

#[test]
fn default_patterns_are_those_of_their_texts() {
    let r = router(false);
    let texts = ["/", "/users/:userId", "/users/:userId/test", "/*"];
    for (route, text) in r.table.routes.iter().zip(texts.iter()) {
        let parsed = Pattern::parse(text).unwrap();
        assert_eq!(route.pattern.segments.len(), parsed.segments.len());
        for (a, b) in route.pattern.segments.iter().zip(parsed.segments.iter()) {
            let same = match (a, b) {
                (Segment::Literal(x), Segment::Literal(y)) => x == y,
                (Segment::Param(x), Segment::Param(y)) => x == y,
                (Segment::Wildcard, Segment::Wildcard) => true,
                _ => false,
            };
            assert!(same, "{}", text);
        }
    }
}

#[test]
fn home_page_is_served() {
    let h = get(&router(true), "/");
    assert_eq!(h.route, Some(0));
    assert_eq!(h.transforms_run, 1);
    let resp = response(h);
    assert_eq!(resp.status, 200);
    assert_eq!(resp.body, "Home page");
}

#[test]
fn user_page_greets_by_the_captured_id() {
    let h = get(&router(false), "/users/7");
    assert_eq!(h.route, Some(1));
    let resp = response(h);
    assert_eq!(resp.status, 200);
    assert_eq!(resp.body, "Hello 7\n");
    assert!(resp.body.contains("7"));
    let resp = response(get(&router(false), "/users/a%2Fb"));
    assert_eq!(resp.body, "Hello a%2Fb\n");
}

#[test]
fn second_user_page_is_served() {
    let h = get(&router(false), "/users/7/test");
    assert_eq!(h.route, Some(2));
    let resp = response(h);
    assert_eq!(resp.status, 200);
    assert_eq!(resp.body, "User 2 page!");
}

#[test]
fn unknown_path_without_wildcard_is_not_found() {
    let r = without_wildcard();
    let h = get(&r, "/nope");
    assert_eq!(h.route, None);
    let resp = response(h);
    assert_eq!(resp.status, 404);
    let h = r.handle(Request::new(Method::Post, "/", None), &env());
    assert_eq!(response(h).status, 404);
}

#[test]
fn unknown_path_with_wildcard_is_forwarded() {
    let mut req = Request::new(Method::Get, "/anything-else", Some("a=b".to_string()));
    req.push_header("Content-Length", "3");
    req.push_header("X-Keep", "1");
    req.body = vec![7, 7, 7];
    let h = router(false).handle(req, &env());
    assert_eq!(h.route, Some(3));
    match h.outcome {
        Outcome::Forward(sent) => {
            assert_eq!(sent.target(), "https://httpbin.org/anything-else?a=b");
            assert_eq!(sent.method, Method::Get);
            assert_eq!(sent.body, vec![7, 7, 7]);
            assert_eq!(sent.headers.len(), 1);
            assert_eq!(sent.headers[0].name, "X-Keep");
        }
        Outcome::Respond(resp) => panic!("answered locally with {}", resp.status),
    }
}

#[test]
fn post_is_not_routed_by_the_default_routes() {
    let h = router(false).handle(Request::new(Method::Post, "/users/7", None), &env());
    assert_eq!(h.route, None);
    assert_eq!(response(h).status, 404);
}

#[test]
fn failed_rewrite_becomes_a_server_error() {
    let h = get(&router(false), "/bad path");
    assert_eq!(h.route, Some(3));
    let resp = response(h);
    assert_eq!(resp.status, 500);
    assert!(resp.body.starts_with("Something went wrong: Parsing URI in rewrite_to_proxy: "));
}

#[test]
fn rejection_stops_the_chain_and_the_handler() {
    let mut r = router(true);
    r.chain.add(Transform::Reject("denied".to_string()));
    r.chain.add(Transform::Log);
    r.chain.add(Transform::Reject("never".to_string()));
    let h = get(&r, "/");
    assert_eq!(h.transforms_run, 2);
    assert_eq!(h.route, None);
    let resp = response(h);
    assert_eq!(resp.status, 500);
    assert_eq!(resp.body, "Something went wrong: denied");
    let run = r.chain.run(Request::new(Method::Get, "/", None));
    assert_eq!(run.executed, 2);
    assert!(matches!(run.result, Err(GatewayError::Middleware(ref m)) if m == "denied"));
}

#[test]
fn passing_chain_hands_the_request_on_unchanged() {
    let mut chain = Chain::new();
    chain.add(Transform::Log);
    chain.add(Transform::Log);
    let mut req = Request::new(Method::Put, "/p", Some("q".to_string()));
    req.push_header("A", "b");
    let run = chain.run(req);
    assert_eq!(run.executed, 2);
    let out = run.result.unwrap();
    assert_eq!(out.method, Method::Put);
    assert_eq!(out.path, "/p");
    assert_eq!(out.query, Some("q".to_string()));
    assert_eq!(out.headers.len(), 1);
}

#[test]
fn settle_relays_the_upstream_or_answers_the_failure() {
    let ok: Result<(u16, String), String> = Ok((201, "made".to_string()));
    assert_eq!(settle(ok).unwrap(), (201, "made".to_string()));
    let failed: Result<(u16, String), String> = Err("connection refused".to_string());
    let resp = settle(failed).unwrap_err();
    assert_eq!(resp.status, 500);
    assert_eq!(
        resp.body,
        "Something went wrong: Making request to backend server: connection refused"
    );
}

#[test]
fn error_handler_is_the_same_for_every_kind() {
    for e in [
        GatewayError::Configuration("x".to_string()),
        GatewayError::Middleware("x".to_string()),
        GatewayError::Upstream("x".to_string()),
        GatewayError::Handler("x".to_string()),
    ] {
        let resp = error_handler(&e);
        assert_eq!(resp.status, 500);
        assert_eq!(resp.body, "Something went wrong: x");
    }
}

#[test]
fn handlers_answer_on_their_own() {
    assert_eq!(home_handler().body, "Home page");
    assert_eq!(user_handler_2(&env()).body, "User 2 page!");
    let with = Params { entries: vec![("userId".to_string(), "9".to_string())] };
    assert_eq!(user_handler(&with).unwrap().body, "Hello 9\n");
    let without = Params { entries: Vec::new() };
    assert!(matches!(user_handler(&without), Err(GatewayError::Handler(ref m)) if m == "missing parameter userId"));
    let out = invoke(Handler::User, &without, Request::new(Method::Get, "/", None), &env());
    match out {
        Outcome::Respond(resp) => {
            assert_eq!(resp.status, 500);
            assert_eq!(resp.body, "Something went wrong: missing parameter userId");
        }
        Outcome::Forward(_) => panic!("forwarded"),
    }
    let sent = proxy_handler(Request::new(Method::Get, "/get", None), &env()).unwrap();
    assert_eq!(sent.target(), "https://httpbin.org/get");
}

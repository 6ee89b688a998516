//! The dispatcher: an ordered route table, a pre-request middleware chain,
//! the local handlers and the one response that every failure turns into.

use vstd::prelude::*;
use vstd::string::*;
use crate::error::GatewayError;
use crate::message::{Method, Request, Response, header_views, opt_view, target_of};
use crate::path::{
    Params, Pattern, all_literal, captures, has_wildcard, lemma_literal_pattern,
    lemma_literal_text, literal_texts, lookup, path_captures, wildcard_rest, pattern_matches, pieces_of, segments_of, split_path, strs, valid_pieces,
};
use crate::proxy::{forwarded, proxy_handler, relay, rewrite_context, upstream_context, uri_verdict};
use crate::types::Env;

verus! {

/// A reference to one of the handlers that a route can be bound to.
#[derive(Clone, Copy, Debug, PartialEq, Eq, Structural)]
pub enum Handler {
    /// The static home page.
    Home,
    /// Greets the user named by the `userId` parameter.
    User,
    /// A static page that reads the shared state.
    UserTest,
    /// Forwards the request to the upstream origin.
    Proxy,
}

/// One entry of the route table.
#[derive(Clone, Debug)]
pub struct Route {
    pub method: Method,
    pub pattern: Pattern,
    pub handler: Handler,
}

/// Whether a route of the given class (with or without wildcard) answers a
/// request.
pub open spec fn route_hits(r: Route, method: Method, segs: Seq<Seq<char>>, wild: bool) -> bool {
    r.method == method && has_wildcard(r.pattern@) == wild && pattern_matches(r.pattern@, segs)
}

/// The first route of the given class, in registration order, that answers.
pub open spec fn first_hit(routes: Seq<Route>, method: Method, segs: Seq<Seq<char>>, wild: bool)
    -> Option<int>
    decreases routes.len(),
{
    if routes.len() == 0 {
        None
    } else {
        match first_hit(routes.drop_last(), method, segs, wild) {
            Some(i) => Some(i),
            None => if route_hits(routes.last(), method, segs, wild) {
                Some(routes.len() - 1)
            } else {
                None
            },
        }
    }
}

/// The route that wins: the first answering route without a wildcard and,
/// only if there is none, the first answering route with one.
pub open spec fn select(routes: Seq<Route>, method: Method, segs: Seq<Seq<char>>) -> Option<int> {
    match first_hit(routes, method, segs, false) {
        Some(i) => Some(i),
        None => first_hit(routes, method, segs, true),
    }
}

/// The first hit is the least index of an answering route of its class, and
/// there is none exactly when no route of the class answers.
pub proof fn lemma_first_hit_least(
    routes: Seq<Route>,
    method: Method,
    segs: Seq<Seq<char>>,
    wild: bool,
)
    ensures
        match first_hit(routes, method, segs, wild) {
            Some(i) => 0 <= i < routes.len() && route_hits(routes[i], method, segs, wild)
                && forall|j: int| 0 <= j < i ==> !route_hits(#[trigger] routes[j], method, segs, wild),
            None => forall|j: int|
                0 <= j < routes.len() ==> !route_hits(#[trigger] routes[j], method, segs, wild),
        },
    decreases routes.len(),
{
    if routes.len() > 0 {
        let front = routes.drop_last();
        lemma_first_hit_least(front, method, segs, wild);
        assert forall|j: int| 0 <= j < front.len() implies front[j] == routes[j] by {}
        match first_hit(front, method, segs, wild) {
            Some(i) => {
                assert(front[i] == routes[i]);
                assert forall|j: int| 0 <= j < i implies !route_hits(
                    #[trigger] routes[j],
                    method,
                    segs,
                    wild,
                ) by {
                    assert(front[j] == routes[j]);
                }
            },
            None => {
                assert forall|j: int| 0 <= j < routes.len() - 1 implies !route_hits(
                    #[trigger] routes[j],
                    method,
                    segs,
                    wild,
                ) by {
                    assert(front[j] == routes[j]);
                }
            },
        }
    }
}

/// A hit among the first `k` routes is the hit of the whole table.
pub proof fn lemma_first_hit_prefix(
    routes: Seq<Route>,
    method: Method,
    segs: Seq<Seq<char>>,
    wild: bool,
    k: int,
)
    requires
        0 <= k <= routes.len(),
        first_hit(routes.take(k), method, segs, wild) is Some,
    ensures
        first_hit(routes, method, segs, wild) == first_hit(routes.take(k), method, segs, wild),
    decreases routes.len(),
{
    if k == routes.len() {
        assert(routes.take(k) =~= routes);
    } else {
        assert(routes.drop_last().take(k) =~= routes.take(k));
        lemma_first_hit_prefix(routes.drop_last(), method, segs, wild, k);
    }
}

/// A route without a wildcard that answers is never passed over for one
/// with a wildcard: the winner is the first such route, whatever the order
/// of registration.
pub proof fn lemma_specific_before_wildcard(
    routes: Seq<Route>,
    method: Method,
    segs: Seq<Seq<char>>,
    i: int,
)
    requires
        0 <= i < routes.len(),
        route_hits(routes[i], method, segs, false),
    ensures
        select(routes, method, segs) matches Some(k) && 0 <= k <= i && route_hits(
            routes[k],
            method,
            segs,
            false,
        ),
{
    lemma_first_hit_least(routes, method, segs, false);
}

/// The winner answers the request, and no earlier route of its class does;
/// if it has a wildcard, no route without one answers at all. There is no
/// winner exactly when no route answers.
pub proof fn lemma_select_sound(routes: Seq<Route>, method: Method, segs: Seq<Seq<char>>)
    ensures
        match select(routes, method, segs) {
            Some(k) => {
                &&& 0 <= k < routes.len()
                &&& routes[k].method == method
                &&& pattern_matches(routes[k].pattern@, segs)
                &&& forall|j: int|
                    0 <= j < k && has_wildcard(routes[j].pattern@) == has_wildcard(
                        routes[k].pattern@,
                    ) ==> !(#[trigger] routes[j].method == method && pattern_matches(
                        routes[j].pattern@,
                        segs,
                    ))
                &&& has_wildcard(routes[k].pattern@) ==> forall|j: int|
                    0 <= j < routes.len() ==> !route_hits(#[trigger] routes[j], method, segs, false)
            },
            None => forall|j: int|
                0 <= j < routes.len() ==> !(#[trigger] routes[j].method == method
                    && pattern_matches(routes[j].pattern@, segs)),
        },
{
    lemma_first_hit_least(routes, method, segs, false);
    lemma_first_hit_least(routes, method, segs, true);
    match select(routes, method, segs) {
        Some(k) => {
            let wild = has_wildcard(routes[k].pattern@);
            assert forall|j: int|
                0 <= j < k && has_wildcard(routes[j].pattern@) == wild implies !(
            #[trigger] routes[j].method == method && pattern_matches(routes[j].pattern@, segs)) by {
                assert(!route_hits(routes[j], method, segs, wild));
            }
        },
        None => {
            assert forall|j: int| 0 <= j < routes.len() implies !(#[trigger] routes[j].method
                == method && pattern_matches(routes[j].pattern@, segs)) by {
                assert(!route_hits(routes[j], method, segs, false));
                assert(!route_hits(routes[j], method, segs, true));
            }
        },
    }
}

/// A route of literals wins for its own path and method, unless an earlier
/// route without a wildcard answers that path too.
pub proof fn lemma_literal_route_wins(routes: Seq<Route>, i: int)
    requires
        0 <= i < routes.len(),
        all_literal(routes[i].pattern@),
        forall|j: int|
            0 <= j < i ==> !route_hits(
                #[trigger] routes[j],
                routes[i].method,
                literal_texts(routes[i].pattern@),
                false,
            ),
    ensures
        select(routes, routes[i].method, literal_texts(routes[i].pattern@)) == Some(i),
{
    let segs = literal_texts(routes[i].pattern@);
    lemma_literal_pattern(routes[i].pattern@, segs, Seq::empty());
    lemma_first_hit_least(routes, routes[i].method, segs, false);
}

/// A route registered under a text of literals wins for the path that is
/// written like that text, unless an earlier route without a wildcard
/// answers that path too.
pub proof fn lemma_literal_path_wins(routes: Seq<Route>, i: int, text: Seq<char>)
    requires
        0 <= i < routes.len(),
        routes[i].pattern@ == pieces_of(text),
        all_literal(pieces_of(text)),
        forall|j: int|
            0 <= j < i ==> !route_hits(
                #[trigger] routes[j],
                routes[i].method,
                segments_of(text),
                false,
            ),
    ensures
        select(routes, routes[i].method, segments_of(text)) == Some(i),
        path_captures(routes[i].pattern@, text).len() == 0,
{
    lemma_literal_text(text);
    lemma_literal_pattern(
        routes[i].pattern@,
        segments_of(text),
        wildcard_rest(routes[i].pattern@, text),
    );
    lemma_literal_route_wins(routes, i);
}

/// Where no route answers and so none with a wildcard does, there is no
/// winner: the request is not found.
pub proof fn lemma_unrouted(routes: Seq<Route>, method: Method, segs: Seq<Seq<char>>)
    requires
        forall|j: int|
            0 <= j < routes.len() ==> !((#[trigger] routes[j]).method == method
                && pattern_matches(routes[j].pattern@, segs)),
    ensures
        select(routes, method, segs) is None,
{
    lemma_first_hit_least(routes, method, segs, false);
    lemma_first_hit_least(routes, method, segs, true);
}

/// What a successful lookup hands back: the place of the winning route, its
/// handler and the parameters captured from the path.
#[derive(Clone, Debug)]
pub struct Matched {
    pub index: usize,
    pub handler: Handler,
    pub params: Params,
}

/// The ordered route table. Built once; read-only while requests are served.
#[derive(Clone, Debug)]
pub struct RouteTable {
    pub routes: Vec<Route>,
}

impl RouteTable {
    /// Every pattern of the table is valid.
    pub open spec fn wf(&self) -> bool {
        forall|i: int| 0 <= i < self.routes@.len() ==> (#[trigger] self.routes@[i]).pattern.valid()
    }

    /// An empty table.
    pub fn new() -> (table: RouteTable)
        ensures
            table.wf(),
            table.routes@.len() == 0,
    {
        RouteTable { routes: Vec::new() }
    }

    /// Appends a route. A pattern with a wildcard anywhere but in the last
    /// place is refused with a configuration error, and the table stays as
    /// it was.
    pub fn register(&mut self, method: Method, pattern: Pattern, handler: Handler) -> (out: Result<
        (),
        GatewayError,
    >)
        requires
            old(self).wf(),
        ensures
            final(self).wf(),
            out is Ok <==> pattern.valid(),
            out is Ok ==> final(self).routes@ == old(self).routes@.push(
                (Route { method, pattern, handler }),
            ),
            out is Err ==> final(self).routes@ == old(self).routes@,
            out matches Err(e) ==> e is Configuration,
    {
        if pattern.is_valid() {
            self.routes.push(Route { method, pattern, handler });
            Ok(())
        } else {
            Err(GatewayError::Configuration(String::from_str("wildcard must be the last segment")))
        }
    }

    /// Reads the pattern from its text and appends the route.
    pub fn register_path(&mut self, method: Method, text: &str, handler: Handler) -> (out: Result<
        (),
        GatewayError,
    >)
        requires
            old(self).wf(),
        ensures
            final(self).wf(),
            out is Ok <==> valid_pieces(pieces_of(text@)),
            out is Ok ==> {
                &&& final(self).routes@.len() == old(self).routes@.len() + 1
                &&& final(self).routes@.drop_last() == old(self).routes@
                &&& final(self).routes@.last().method == method
                &&& final(self).routes@.last().handler == handler
                &&& final(self).routes@.last().pattern@ == pieces_of(text@)
            },
            out is Err ==> final(self).routes@ == old(self).routes@,
            out matches Err(e) ==> e is Configuration,
    {
        match Pattern::parse(text) {
            Ok(pattern) => {
                let out = self.register(method, pattern, handler);
                assert(self.routes@.drop_last() =~= old(self).routes@);
                out
            },
            Err(e) => Err(e),
        }
    }

    /// The first answering route of one class, in registration order.
    fn scan(&self, method: Method, segs: &Vec<String>, path: &str, wild: bool) -> (out: Option<
        Matched,
    >)
        requires
            self.wf(),
        ensures
            match first_hit(self.routes@, method, strs(segs@), wild) {
                None => out is None,
                Some(i) => out matches Some(m) && m.index == i && m.handler
                    == self.routes@[i].handler && m.params@ == captures(
                    self.routes@[i].pattern@,
                    strs(segs@),
                    wildcard_rest(self.routes@[i].pattern@, path@),
                ),
            },
    {
        let mut i: usize = 0;
        assert(self.routes@.take(0) =~= Seq::<Route>::empty());
        while i < self.routes.len()
            invariant
                i <= self.routes@.len(),
                self.wf(),
                first_hit(self.routes@.take(i as int), method, strs(segs@), wild) is None,
            decreases self.routes@.len() - i,
        {
            let route = &self.routes[i];
            proof {
                assert(self.routes@.take(i + 1).drop_last() =~= self.routes@.take(i as int));
                assert(self.routes@.take(i + 1).last() == self.routes@[i as int]);
            }
            if route.method == method && route.pattern.ends_in_wildcard() == wild {
                match route.pattern.match_segments(segs, path) {
                    Some(params) => {
                        proof {
                            lemma_first_hit_prefix(self.routes@, method, strs(segs@), wild, i + 1);
                        }
                        return Some(Matched { index: i, handler: route.handler, params });
                    },
                    None => {},
                }
            }
            i = i + 1;
        }
        assert(self.routes@.take(i as int) =~= self.routes@);
        None
    }

    /// Finds the route for a request: routes without a wildcard are tried
    /// first, in registration order, then those with one. `None` says that no
    /// route answers.
    pub fn find(&self, method: Method, path: &str) -> (out: Option<Matched>)
        requires
            self.wf(),
        ensures
            match select(self.routes@, method, segments_of(path@)) {
                None => out is None,
                Some(i) => out matches Some(m) && m.index == i && m.handler
                    == self.routes@[i].handler && m.params@ == path_captures(
                    self.routes@[i].pattern@,
                    path@,
                ),
            },
    {
        let segs = split_path(path);
        match self.scan(method, &segs, path, false) {
            Some(m) => Some(m),
            None => self.scan(method, &segs, path, true),
        }
    }
}

/// A pre-request transform.
#[derive(Clone, Debug)]
pub enum Transform {
    /// Notes the request and lets it pass unchanged.
    Log,
    /// Rejects every request, with the given reason.
    Reject(String),
}

/// The first rejecting transform, in the order of addition.
pub open spec fn first_reject(transforms: Seq<Transform>) -> Option<int>
    decreases transforms.len(),
{
    if transforms.len() == 0 {
        None
    } else {
        match first_reject(transforms.drop_last()) {
            Some(i) => Some(i),
            None => if transforms.last() is Reject {
                Some(transforms.len() - 1)
            } else {
                None
            },
        }
    }
}

/// The chain stops at the earliest rejecting transform: none before it
/// rejects, and there is no such place exactly when no transform rejects.
pub proof fn lemma_first_reject_least(transforms: Seq<Transform>)
    ensures
        match first_reject(transforms) {
            Some(i) => 0 <= i < transforms.len() && transforms[i] is Reject && forall|j: int|
                0 <= j < i ==> !((#[trigger] transforms[j]) is Reject),
            None => forall|j: int|
                0 <= j < transforms.len() ==> !((#[trigger] transforms[j]) is Reject),
        },
    decreases transforms.len(),
{
    if transforms.len() > 0 {
        let front = transforms.drop_last();
        lemma_first_reject_least(front);
        match first_reject(front) {
            Some(i) => {
                assert(front[i] == transforms[i]);
                assert forall|j: int| 0 <= j < i implies !((#[trigger] transforms[j]) is Reject) by {
                    assert(front[j] == transforms[j]);
                }
            },
            None => {
                assert forall|j: int| 0 <= j < transforms.len() - 1 implies !((
                #[trigger] transforms[j]) is Reject) by {
                    assert(front[j] == transforms[j]);
                }
            },
        }
    }
}

/// A rejection among the first `k` transforms is the rejection of the chain.
pub proof fn lemma_first_reject_prefix(transforms: Seq<Transform>, k: int)
    requires
        0 <= k <= transforms.len(),
        first_reject(transforms.take(k)) is Some,
    ensures
        first_reject(transforms) == first_reject(transforms.take(k)),
    decreases transforms.len(),
{
    if k == transforms.len() {
        assert(transforms.take(k) =~= transforms);
    } else {
        assert(transforms.drop_last().take(k) =~= transforms.take(k));
        lemma_first_reject_prefix(transforms.drop_last(), k);
    }
}

/// What a run of the chain gave: how many transforms ran, and the request
/// or the failure that stopped the chain.
#[derive(Debug)]
pub struct ChainRun {
    pub executed: usize,
    pub result: Result<Request, GatewayError>,
}

/// The ordered, append-only middleware chain.
#[derive(Clone, Debug)]
pub struct Chain {
    pub transforms: Vec<Transform>,
}

impl Chain {
    /// An empty chain.
    pub fn new() -> (chain: Chain)
        ensures
            chain.transforms@.len() == 0,
    {
        Chain { transforms: Vec::new() }
    }

    /// Appends a transform.
    pub fn add(&mut self, transform: Transform)
        ensures
            final(self).transforms@ == old(self).transforms@.push(transform),
    {
        self.transforms.push(transform);
    }

    /// Runs the transforms in the order of addition. The first rejection
    /// stops the chain: the transforms behind it do not run.
    pub fn run(&self, req: Request) -> (out: ChainRun)
        ensures
            match first_reject(self.transforms@) {
                Some(i) => out.executed == i + 1 && i < self.transforms@.len() && (
                out.result matches Err(e) && e is Middleware && self.transforms@[i] is Reject
                    && e.cause() == self.transforms@[i]->Reject_0@),
                None => out.executed == self.transforms@.len() && out.result == Ok::<
                    Request,
                    GatewayError,
                >(req),
            },
    {
        let mut i: usize = 0;
        assert(self.transforms@.take(0) =~= Seq::<Transform>::empty());
        while i < self.transforms.len()
            invariant
                i <= self.transforms@.len(),
                first_reject(self.transforms@.take(i as int)) is None,
            decreases self.transforms@.len() - i,
        {
            proof {
                assert(self.transforms@.take(i + 1).drop_last() =~= self.transforms@.take(
                    i as int,
                ));
                assert(self.transforms@.take(i + 1).last() == self.transforms@[i as int]);
            }
            match &self.transforms[i] {
                Transform::Log => {},
                Transform::Reject(reason) => {
                    proof {
                        lemma_first_reject_prefix(self.transforms@, i + 1);
                    }
                    return ChainRun {
                        executed: i + 1,
                        result: Err(GatewayError::Middleware(reason.clone())),
                    };
                },
            }
            i = i + 1;
        }
        assert(self.transforms@.take(i as int) =~= self.transforms@);
        ChainRun { executed: i, result: Ok(req) }
    }
}

/// Whether a response is the answer to a failure with this cause:
/// a server error whose body names the cause.
pub open spec fn is_failure(resp: Response, cause: Seq<char>) -> bool {
    resp.status == 500 && resp.body@ == "Something went wrong: "@ + cause
}

/// Whether a response has status 200 and this body.
pub open spec fn is_page(resp: Response, body: Seq<char>) -> bool {
    resp.status == 200 && resp.body@ == body
}

/// Turns any failure into the one response that clients see for it.
pub fn error_handler(err: &GatewayError) -> (resp: Response)
    ensures
        is_failure(resp, err.cause()),
{
    let mut body = String::from_str("Something went wrong: ");
    let cause = err.message();
    body.append(cause.as_str());
    Response { status: 500, body }
}

/// The home page.
pub fn home_handler() -> (resp: Response)
    ensures
        is_page(resp, "Home page"@),
{
    Response::ok(String::from_str("Home page"))
}

/// The body of the greeting for a user.
pub open spec fn greeting(id: Seq<char>) -> Seq<char> {
    "Hello "@ + id + "\n"@
}

/// Greets the user named by the `userId` parameter; without that parameter
/// the handler fails.
pub fn user_handler(params: &Params) -> (out: Result<Response, GatewayError>)
    ensures
        match lookup(params@, "userId"@) {
            Some(id) => out matches Ok(resp) && is_page(resp, greeting(id)),
            None => out matches Err(e) && e is Handler && e.cause() == "missing parameter userId"@,
        },
{
    match params.get("userId") {
        Some(id) => {
            let mut body = String::from_str("Hello ");
            body.append(id.as_str());
            body.append("\n");
            Ok(Response::ok(body))
        },
        None => Err(GatewayError::Handler(String::from_str("missing parameter userId"))),
    }
}

/// The second user page, which has the shared context at hand.
pub fn user_handler_2(env: &Env) -> (resp: Response)
    ensures
        is_page(resp, "User 2 page!"@),
{
    Response::ok(String::from_str("User 2 page!"))
}

/// What the dispatcher decided: a response of its own, or a request that
/// is to be sent to the upstream origin.
#[derive(Debug)]
pub enum Outcome {
    Respond(Response),
    Forward(Request),
}

/// The decision for one request, with what ran on the way to it.
#[derive(Debug)]
pub struct Handled {
    /// The response, or the request to forward.
    pub outcome: Outcome,
    /// How many transforms of the chain ran.
    pub transforms_run: usize,
    /// The place of the route whose handler ran, if one did.
    pub route: Option<usize>,
}

/// Whether an outcome forwards this request to this origin: the target
/// rewritten, the stripped headers gone, all else as it came.
pub open spec fn forwards(outcome: Outcome, req: Request, origin: Seq<char>) -> bool {
    outcome matches Outcome::Forward(sent) && {
        &&& sent.method == req.method
        &&& sent.origin@ == origin
        &&& sent.path == req.path
        &&& sent.query == req.query
        &&& sent.body == req.body
        &&& header_views(sent.headers@) == forwarded(header_views(req.headers@))
        &&& sent.target_view() == target_of(origin, req.path@, opt_view(req.query))
    }
}

/// Whether an outcome is what a handler gives for a request with these
/// captured parameters.
pub open spec fn handler_gives(
    handler: Handler,
    params: Seq<(Seq<char>, Seq<char>)>,
    req: Request,
    origin: Seq<char>,
    outcome: Outcome,
) -> bool {
    match handler {
        Handler::Home => outcome matches Outcome::Respond(resp) && is_page(resp, "Home page"@),
        Handler::User => match lookup(params, "userId"@) {
            Some(id) => outcome matches Outcome::Respond(resp) && is_page(resp, greeting(id)),
            None => outcome matches Outcome::Respond(resp) && is_failure(
                resp,
                "missing parameter userId"@,
            ),
        },
        Handler::UserTest => outcome matches Outcome::Respond(resp) && is_page(
            resp,
            "User 2 page!"@,
        ),
        Handler::Proxy => match uri_verdict(target_of(origin, req.path@, opt_view(req.query))) {
            Ok(_) => forwards(outcome, req, origin),
            Err(why) => outcome matches Outcome::Respond(resp) && is_failure(
                resp,
                rewrite_context() + why,
            ),
        },
    }
}

/// Runs one handler; a failure of the handler becomes a server-error response.
pub fn invoke(handler: Handler, params: &Params, req: Request, env: &Env) -> (outcome: Outcome)
    ensures
        handler_gives(handler, params@, req, env.origin@, outcome),
{
    match handler {
        Handler::Home => Outcome::Respond(home_handler()),
        Handler::User => match user_handler(params) {
            Ok(resp) => Outcome::Respond(resp),
            Err(e) => Outcome::Respond(error_handler(&e)),
        },
        Handler::UserTest => Outcome::Respond(user_handler_2(env)),
        Handler::Proxy => match proxy_handler(req, env) {
            Ok(sent) => Outcome::Forward(sent),
            Err(e) => Outcome::Respond(error_handler(&e)),
        },
    }
}

/// Settles a forwarded request once the outbound call has returned: the
/// upstream's response as it is, or the server-error response for the failure.
pub fn settle<R>(upstream: Result<R, String>) -> (out: Result<R, Response>)
    ensures
        upstream matches Ok(resp) ==> out == Ok::<R, Response>(resp),
        upstream matches Err(why) ==> out matches Err(resp) && is_failure(
            resp,
            upstream_context() + why@,
        ),
{
    match relay(upstream) {
        Ok(resp) => Ok(resp),
        Err(e) => Err(error_handler(&e)),
    }
}

/// The route table and the middleware chain of one server.
#[derive(Clone, Debug)]
pub struct Router {
    pub table: RouteTable,
    pub chain: Chain,
}

impl Router {
    /// The table is well formed.
    pub open spec fn wf(&self) -> bool {
        self.table.wf()
    }

    /// Handles one request: the chain first, then the lookup, then the
    /// handler of the winning route. A rejection stops everything behind it;
    /// a path without a route gets the not-found response.
    pub fn handle(&self, req: Request, env: &Env) -> (out: Handled)
        requires
            self.wf(),
        ensures
            match first_reject(self.chain.transforms@) {
                Some(i) => {
                    &&& out.transforms_run == i + 1
                    &&& out.route is None
                    &&& self.chain.transforms@[i] is Reject
                    &&& out.outcome matches Outcome::Respond(resp) && is_failure(
                        resp,
                        self.chain.transforms@[i]->Reject_0@,
                    )
                },
                None => {
                    &&& out.transforms_run == self.chain.transforms@.len()
                    &&& match select(self.table.routes@, req.method, segments_of(req.path@)) {
                        None => out.route is None && (out.outcome matches Outcome::Respond(resp)
                            && resp.status == 404 && resp.body@ == "Not Found"@),
                        Some(k) => out.route == Some(k as usize) && handler_gives(
                            self.table.routes@[k].handler,
                            path_captures(self.table.routes@[k].pattern@, req.path@),
                            req,
                            env.origin@,
                            out.outcome,
                        ),
                    }
                },
            },
    {
        let run = self.chain.run(req);
        match run.result {
            Err(e) => Handled {
                outcome: Outcome::Respond(error_handler(&e)),
                transforms_run: run.executed,
                route: None,
            },
            Ok(req) => match self.table.find(req.method, req.path.as_str()) {
                None => Handled {
                    outcome: Outcome::Respond(Response::not_found()),
                    transforms_run: run.executed,
                    route: None,
                },
                Some(m) => Handled {
                    outcome: invoke(m.handler, &m.params, req, env),
                    transforms_run: run.executed,
                    route: Some(m.index),
                },
            },
        }
    }
}

} // verus!

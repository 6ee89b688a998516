//! The default configuration: the routes that the server exposes and the
//! chain in front of them.

use vstd::prelude::*;
use vstd::string::*;
use crate::message::Method;
use crate::path::{
    Pattern, Piece, Segment, lemma_param_captures_segment, lemma_segments_prepend, path_captures,
    lookup, segments_of, wildcard_rest,
};
use crate::router::{
    Chain, Handler, RouteTable, Router, Transform, lemma_first_hit_least, route_hits, select,
};

verus! {

/// Whether a table holds the default routes, in their order: `GET /`,
/// `GET /users/:userId`, `GET /users/:userId/test` and `GET /*`.
pub open spec fn is_default_table(table: RouteTable) -> bool {
    let routes = table.routes@;
    &&& routes.len() == 4
    &&& routes[0].method == Method::Get
    &&& routes[0].handler == Handler::Home
    &&& routes[0].pattern@ == Seq::<Piece>::empty()
    &&& routes[1].method == Method::Get
    &&& routes[1].handler == Handler::User
    &&& routes[1].pattern@ == seq![Piece::Literal("users"@), Piece::Param("userId"@)]
    &&& routes[2].method == Method::Get
    &&& routes[2].handler == Handler::UserTest
    &&& routes[2].pattern@ == seq![
        Piece::Literal("users"@),
        Piece::Param("userId"@),
        Piece::Literal("test"@),
    ]
    &&& routes[3].method == Method::Get
    &&& routes[3].handler == Handler::Proxy
    &&& routes[3].pattern@ == seq![Piece::Wildcard]
}

/// Builds the default router. With `verbose` the chain holds the logging
/// transform; without it the chain is empty.
pub fn router(verbose: bool) -> (r: Router)
    ensures
        r.wf(),
        is_default_table(r.table),
        verbose ==> r.chain.transforms@ == seq![Transform::Log],
        !verbose ==> r.chain.transforms@ == Seq::<Transform>::empty(),
{
    let mut chain = Chain::new();
    if verbose {
        chain.add(Transform::Log);
        assert(chain.transforms@ =~= seq![Transform::Log]);
    } else {
        assert(chain.transforms@ =~= Seq::<Transform>::empty());
    }
    let home = Pattern { segments: Vec::new() };
    let user = Pattern {
        segments: vec![
            Segment::Literal(String::from_str("users")),
            Segment::Param(String::from_str("userId")),
        ],
    };
    let user_test = Pattern {
        segments: vec![
            Segment::Literal(String::from_str("users")),
            Segment::Param(String::from_str("userId")),
            Segment::Literal(String::from_str("test")),
        ],
    };
    let rest = Pattern { segments: vec![Segment::Wildcard] };
    proof {
        assert(home@ =~= Seq::<Piece>::empty());
        assert(user@ =~= seq![Piece::Literal("users"@), Piece::Param("userId"@)]);
        assert(user_test@ =~= seq![
            Piece::Literal("users"@),
            Piece::Param("userId"@),
            Piece::Literal("test"@),
        ]);
        assert(rest@ =~= seq![Piece::Wildcard]);
    }
    let mut table = RouteTable::new();
    let _ = table.register(Method::Get, home, Handler::Home);
    let _ = table.register(Method::Get, user, Handler::User);
    let _ = table.register(Method::Get, user_test, Handler::UserTest);
    let _ = table.register(Method::Get, rest, Handler::Proxy);
    Router { table, chain }
}

/// With the default routes, `/users/` followed by any one segment goes to
/// the user page, never to the catch-all, and the `userId` parameter is that
/// segment, character for character.
pub proof fn lemma_user_route_wins(table: RouteTable, id: Seq<char>)
    requires
        is_default_table(table),
        id.len() > 0,
        forall|k: int| 0 <= k < id.len() ==> id[k] != '/',
    ensures
        segments_of("/users/"@ + id) == seq!["users"@, id],
        select(table.routes@, Method::Get, segments_of("/users/"@ + id)) == Some(1int),
        lookup(path_captures(table.routes@[1].pattern@, "/users/"@ + id), "userId"@) == Some(id),
{
    reveal_strlit("/users/");
    reveal_strlit("users");
    let none = Seq::<char>::empty();
    let path = "/users/"@ + id;
    assert(path =~= seq!['/'] + "users"@ + (seq!['/'] + id + none));
    lemma_segments_prepend("users"@, seq!['/'] + id + none);
    lemma_segments_prepend(id, none);
    let segs = segments_of(path);
    assert(segs =~= seq!["users"@, id]);
    let routes = table.routes@;
    lemma_first_hit_least(routes, Method::Get, segs, false);
    assert(route_hits(routes[1], Method::Get, segs, false));
    assert(!route_hits(routes[0], Method::Get, segs, false));
    lemma_param_captures_segment(
        routes[1].pattern@,
        segs,
        wildcard_rest(routes[1].pattern@, path),
        1,
    );
}

/// With the default routes every `GET` request finds a route: what no other
/// route answers goes to the catch-all.
pub proof fn lemma_default_always_routed(table: RouteTable, segs: Seq<Seq<char>>)
    requires
        is_default_table(table),
    ensures
        select(table.routes@, Method::Get, segs) is Some,
{
    let routes = table.routes@;
    lemma_first_hit_least(routes, Method::Get, segs, true);
    assert(route_hits(routes[3], Method::Get, segs, true));
}

} // verus!

//! Requests and responses as plain values.

use vstd::prelude::*;
use vstd::string::*;

verus! {

/// The request method.
#[derive(Clone, Copy, Debug, PartialEq, Eq, Structural)]
pub enum Method {
    Get,
    Head,
    Post,
    Put,
    Delete,
    Options,
    Patch,
}

/// One header line. Names compare without regard to ASCII case; a name may
/// occur more than once, and the order of the lines is kept.
#[derive(Clone, Debug)]
pub struct Header {
    pub name: String,
    pub value: String,
}

/// The header lines as pairs of name and value.
pub open spec fn header_views(headers: Seq<Header>) -> Seq<(Seq<char>, Seq<char>)> {
    Seq::new(headers.len(), |i: int| (headers[i].name@, headers[i].value@))
}

/// The view of an optional string.
pub open spec fn opt_view(text: Option<String>) -> Option<Seq<char>> {
    match text {
        Some(t) => Some(t@),
        None => None,
    }
}

/// The full target of a request: the origin, the path and, where there is a
/// query string, `?` and the query string as it stands.
pub open spec fn target_of(origin: Seq<char>, path: Seq<char>, query: Option<Seq<char>>) -> Seq<
    char,
> {
    match query {
        None => origin + path,
        Some(q) => origin + path + seq!['?'] + q,
    }
}

/// An inbound or outbound request. `origin` is empty on an inbound request
/// and holds scheme and authority once the request has been rewritten.
#[derive(Clone, Debug)]
pub struct Request {
    pub method: Method,
    pub origin: String,
    pub path: String,
    pub query: Option<String>,
    pub headers: Vec<Header>,
    pub body: Vec<u8>,
}

impl Request {
    /// An inbound request without headers or body.
    pub fn new(method: Method, path: &str, query: Option<String>) -> (req: Request)
        ensures
            req.method == method,
            req.origin@ == Seq::<char>::empty(),
            req.path@ == path@,
            req.query == query,
            req.headers@ == Seq::<Header>::empty(),
            req.body@ == Seq::<u8>::empty(),
    {
        Request {
            method,
            origin: String::new(),
            path: String::from_str(path),
            query,
            headers: Vec::new(),
            body: Vec::new(),
        }
    }

    /// Appends a header line.
    pub fn push_header(&mut self, name: &str, value: &str)
        ensures
            header_views(final(self).headers@) == header_views(old(self).headers@).push(
                (name@, value@),
            ),
            final(self).method == old(self).method,
            final(self).origin == old(self).origin,
            final(self).path == old(self).path,
            final(self).query == old(self).query,
            final(self).body == old(self).body,
    {
        let header = Header { name: String::from_str(name), value: String::from_str(value) };
        self.headers.push(header);
        assert(header_views(self.headers@) =~= header_views(old(self).headers@).push(
            (name@, value@),
        ));
    }

    /// The target as a spec value.
    pub open spec fn target_view(&self) -> Seq<char> {
        target_of(self.origin@, self.path@, opt_view(self.query))
    }

    /// The full target: origin, path and query string.
    pub fn target(&self) -> (text: String)
        ensures
            text@ == self.target_view(),
    {
        build_target(self.origin.as_str(), self.path.as_str(), &self.query)
    }
}

/// Writes out origin, path and query string as one target.
pub fn build_target(origin: &str, path: &str, query: &Option<String>) -> (text: String)
    ensures
        text@ == target_of(origin@, path@, opt_view(*query)),
{
    let mut text = String::from_str(origin);
    text.append(path);
    match query {
        None => {},
        Some(q) => {
            proof {
                reveal_strlit("?");
                assert("?"@ =~= seq!['?']);
            }
            text.append("?");
            text.append(q.as_str());
        },
    }
    text
}

/// A response produced by the core itself: a status code and a text body.
#[derive(Clone, Debug)]
pub struct Response {
    pub status: u16,
    pub body: String,
}

impl Response {
    /// A response with status 200 and the given body.
    pub fn ok(body: String) -> (resp: Response)
        ensures
            resp.status == 200,
            resp.body == body,
    {
        Response { status: 200, body }
    }

    /// The response for a path that no route matches: status 404.
    pub fn not_found() -> (resp: Response)
        ensures
            resp.status == 404,
            resp.body@ == "Not Found"@,
    {
        Response { status: 404, body: String::from_str("Not Found") }
    }
}

} // verus!

//! The upstream forwarder: header sanitization and target rewrite.

use vstd::prelude::*;
use vstd::string::*;
use crate::error::GatewayError;
use crate::message::{Header, Request, build_target, header_views, opt_view, target_of};
use crate::types::Env;

verus! {

/// The lower-case form of an ASCII letter; any other character is itself.
pub open spec fn fold_ascii(c: char) -> char {
    if 'A' <= c && c <= 'Z' {
        ((c as u8 + 32) as u8) as char
    } else {
        c
    }
}

/// Whether two names are equal without regard to ASCII case.
pub open spec fn same_name(a: Seq<char>, b: Seq<char>) -> bool {
    &&& a.len() == b.len()
    &&& forall|i: int| 0 <= i < a.len() ==> fold_ascii(a[i]) == fold_ascii(b[i])
}

/// Whether a header is removed before forwarding: its value describes the
/// framing of the inbound body and would be stale on the outbound message.
pub open spec fn is_stripped(name: Seq<char>) -> bool {
    ||| same_name(name, "content-length"@)
    ||| same_name(name, "transfer-encoding"@)
    ||| same_name(name, "accept-encoding"@)
    ||| same_name(name, "content-encoding"@)
}

/// The header lines that are forwarded: all but the stripped ones, in their
/// order, duplicates included.
pub open spec fn forwarded(headers: Seq<(Seq<char>, Seq<char>)>) -> Seq<(Seq<char>, Seq<char>)> {
    headers.filter(|h: (Seq<char>, Seq<char>)| !is_stripped(h.0))
}

/// Forwarding removes exactly the stripped headers: every line that is
/// forwarded came in and is none of them, and every line that came in and is
/// none of them is forwarded. The order of the lines stays.
pub proof fn lemma_forwarded_exact(headers: Seq<(Seq<char>, Seq<char>)>)
    ensures
        forall|i: int|
            0 <= i < forwarded(headers).len() ==> !is_stripped((#[trigger] forwarded(headers)[i]).0)
                && headers.contains(forwarded(headers)[i]),
        forall|i: int|
            0 <= i < headers.len() && !is_stripped((#[trigger] headers[i]).0) ==> forwarded(
                headers,
            ).contains(headers[i]),
        forall|i: int|
            0 <= i < headers.len() && is_stripped((#[trigger] headers[i]).0) ==> !forwarded(
                headers,
            ).contains(headers[i]),
{
    let keep = |h: (Seq<char>, Seq<char>)| !is_stripped(h.0);
    let kept = headers.filter(keep);
    assert forall|i: int| 0 <= i < kept.len() implies !is_stripped((#[trigger] kept[i]).0)
        && headers.contains(kept[i]) by {
        headers.lemma_filter_pred(keep, i);
        assert(kept.contains(kept[i]));
        headers.lemma_filter_contains_rev(keep, kept[i]);
    }
    assert forall|i: int| 0 <= i < headers.len() && !is_stripped(
        (#[trigger] headers[i]).0,
    ) implies kept.contains(headers[i]) by {
        headers.lemma_filter_contains(keep, i);
    }
    assert forall|i: int| 0 <= i < headers.len() && is_stripped(
        (#[trigger] headers[i]).0,
    ) implies !kept.contains(headers[i]) by {
        if kept.contains(headers[i]) {
            let k = choose|k: int| 0 <= k < kept.len() && kept[k] == headers[i];
            headers.lemma_filter_pred(keep, k);
        }
    }
}

/// A request without stripped headers keeps all its headers.
pub proof fn lemma_forwarded_all(headers: Seq<(Seq<char>, Seq<char>)>)
    requires
        forall|i: int| 0 <= i < headers.len() ==> !is_stripped((#[trigger] headers[i]).0),
    ensures
        forwarded(headers) == headers,
    decreases headers.len(),
{
    reveal(Seq::filter);
    if headers.len() > 0 {
        lemma_forwarded_all(headers.drop_last());
        assert(headers.drop_last().push(headers.last()) =~= headers);
    }
}

/// Lower-cases one character.
pub fn to_lower(c: char) -> (out: char)
    ensures
        out == fold_ascii(c),
{
    if 'A' <= c && c <= 'Z' {
        ((c as u8) + 32u8) as char
    } else {
        c
    }
}

/// Compares two names without regard to ASCII case.
pub fn names_match(a: &str, b: &str) -> (same: bool)
    ensures
        same == same_name(a@, b@),
{
    let n: usize = a.unicode_len();
    if n != b.unicode_len() {
        return false;
    }
    let mut i: usize = 0;
    while i < n
        invariant
            i <= n,
            n == a@.len(),
            n == b@.len(),
            forall|k: int| 0 <= k < i ==> fold_ascii(a@[k]) == fold_ascii(b@[k]),
        decreases n - i,
    {
        if to_lower(a.get_char(i)) != to_lower(b.get_char(i)) {
            return false;
        }
        i = i + 1;
    }
    true
}

/// Whether a header of this name is removed before forwarding.
pub fn should_strip(name: &str) -> (out: bool)
    ensures
        out == is_stripped(name@),
{
    names_match(name, "content-length") || names_match(name, "transfer-encoding") || names_match(
        name,
        "accept-encoding",
    ) || names_match(name, "content-encoding")
}

/// Copies the header lines that are forwarded.
pub fn strip_headers(headers: &Vec<Header>) -> (kept: Vec<Header>)
    ensures
        header_views(kept@) == forwarded(header_views(headers@)),
{
    let ghost all = header_views(headers@);
    let ghost keep = |h: (Seq<char>, Seq<char>)| !is_stripped(h.0);
    let mut kept: Vec<Header> = Vec::new();
    let mut i: usize = 0;
    proof {
        reveal(Seq::filter);
        assert(all.take(0).filter(keep) =~= header_views(kept@));
    }
    while i < headers.len()
        invariant
            i <= headers@.len(),
            all == header_views(headers@),
            keep == |h: (Seq<char>, Seq<char>)| !is_stripped(h.0),
            header_views(kept@) == all.take(i as int).filter(keep),
        decreases headers@.len() - i,
    {
        proof {
            reveal(Seq::filter);
            assert(all.take(i + 1).drop_last() =~= all.take(i as int));
            assert(all.take(i + 1).last() == (headers@[i as int].name@, headers@[i as int].value@));
        }
        if !should_strip(headers[i].name.as_str()) {
            let ghost before = header_views(kept@);
            let line = Header { name: headers[i].name.clone(), value: headers[i].value.clone() };
            kept.push(line);
            assert(header_views(kept@) =~= before.push(all[i as int]));
        }
        i = i + 1;
    }
    assert(all.take(i as int) =~= all);
    kept
}

/// What parsing a text as a URI gives: nothing to report, or the parser's
/// description of what is wrong with it.
pub uninterp spec fn uri_verdict(text: Seq<char>) -> Result<(), Seq<char>>;

/// The view of a verdict.
pub open spec fn verdict_view(verdict: Result<(), String>) -> Result<(), Seq<char>> {
    match verdict {
        Ok(_) => Ok(()),
        Err(why) => Err(why@),
    }
}

/// Parses the text with `hyper::Uri`'s `FromStr` and reports whether it was
/// accepted; on refusal the error's `Display` text is handed back. The
/// outcome is trusted to be the one that `uri_verdict` names for this text.
#[verifier::external_body]
fn check_uri(text: &str) -> (out: Result<(), String>)
    ensures
        verdict_view(out) == uri_verdict(text@),
{
    match text.parse::<hyper::Uri>() {
        Ok(_) => Ok(()),
        Err(e) => Err(e.to_string()),
    }
}

/// The text that introduces the cause of a failed rewrite.
pub open spec fn rewrite_context() -> Seq<char> {
    "Parsing URI in rewrite_to_proxy: "@
}

/// The text that introduces the cause of a failed outbound call.
pub open spec fn upstream_context() -> Seq<char> {
    "Making request to backend server: "@
}

/// Completes a rewrite once the new target has been judged: an accepted
/// target puts the origin into the request, a refused one leaves the request
/// as it is and fails with an upstream error that carries the cause.
pub fn finish_rewrite(req: &mut Request, origin: &str, verdict: Result<(), String>) -> (out: Result<
    (),
    GatewayError,
>)
    ensures
        final(req).method == old(req).method,
        final(req).path == old(req).path,
        final(req).query == old(req).query,
        final(req).headers == old(req).headers,
        final(req).body == old(req).body,
        out is Ok <==> verdict is Ok,
        out is Ok ==> final(req).origin@ == origin@,
        out is Err ==> final(req).origin == old(req).origin,
        (out, verdict) matches (Err(e), Err(why)) ==> e is Upstream && e.cause()
            == rewrite_context() + why@,
{
    match verdict {
        Ok(()) => {
            req.origin = String::from_str(origin);
            Ok(())
        },
        Err(why) => {
            let mut text = String::from_str("Parsing URI in rewrite_to_proxy: ");
            text.append(why.as_str());
            Err(GatewayError::Upstream(text))
        },
    }
}

/// Prepares a request for the upstream origin. The stripped headers are
/// removed whatever follows. The target becomes origin, path and query string;
/// if that is no URI, the target stays as it was and the call fails.
pub fn rewrite_to_proxy(req: &mut Request, origin: &str) -> (out: Result<(), GatewayError>)
    ensures
        header_views(final(req).headers@) == forwarded(header_views(old(req).headers@)),
        final(req).method == old(req).method,
        final(req).path == old(req).path,
        final(req).query == old(req).query,
        final(req).body == old(req).body,
        out is Ok <==> uri_verdict(
            target_of(origin@, old(req).path@, opt_view(old(req).query)),
        ) is Ok,
        out is Ok ==> final(req).origin@ == origin@ && final(req).target_view() == target_of(
            origin@,
            old(req).path@,
            opt_view(old(req).query),
        ),
        out is Err ==> final(req).origin == old(req).origin,
        out matches Err(e) ==> e is Upstream && uri_verdict(
            target_of(origin@, old(req).path@, opt_view(old(req).query)),
        ) is Err && e.cause() == rewrite_context() + uri_verdict(
            target_of(origin@, old(req).path@, opt_view(old(req).query)),
        )->Err_0,
{
    let kept = strip_headers(&req.headers);
    req.headers = kept;
    let target = build_target(origin, req.path.as_str(), &req.query);
    let verdict = check_uri(target.as_str());
    finish_rewrite(req, origin, verdict)
}

/// The handler behind the catch-all route: rewrites the request for the
/// upstream origin of the context. The outbound call itself is the caller's.
pub fn proxy_handler(req: Request, env: &Env) -> (out: Result<Request, GatewayError>)
    ensures
        out is Ok <==> uri_verdict(target_of(env.origin@, req.path@, opt_view(req.query))) is Ok,
        out matches Ok(sent) ==> {
            &&& sent.method == req.method
            &&& sent.origin@ == env.origin@
            &&& sent.path == req.path
            &&& sent.query == req.query
            &&& sent.body == req.body
            &&& header_views(sent.headers@) == forwarded(header_views(req.headers@))
            &&& sent.target_view() == target_of(env.origin@, req.path@, opt_view(req.query))
        },
        out matches Err(e) ==> e is Upstream && e.cause() == rewrite_context() + uri_verdict(
            target_of(env.origin@, req.path@, opt_view(req.query)),
        )->Err_0,
{
    let mut req = req;
    match rewrite_to_proxy(&mut req, env.origin()) {
        Ok(()) => Ok(req),
        Err(e) => Err(e),
    }
}

/// Hands on what the outbound call gave: the upstream's response as it is,
/// or an upstream error that carries the cause of the failure.
pub fn relay<R>(upstream: Result<R, String>) -> (out: Result<R, GatewayError>)
    ensures
        upstream matches Ok(resp) ==> out == Ok::<R, GatewayError>(resp),
        upstream matches Err(why) ==> out matches Err(e) && e is Upstream && e.cause()
            == upstream_context() + why@,
{
    match upstream {
        Ok(resp) => Ok(resp),
        Err(why) => {
            let mut text = String::from_str("Making request to backend server: ");
            text.append(why.as_str());
            Err(GatewayError::Upstream(text))
        },
    }
}

} // verus!

//! The text of log lines. Writing them out is left to the caller.

use vstd::prelude::*;
use vstd::string::*;
use crate::message::Method;

verus! {

/// The name of a method as it stands in a request line.
pub open spec fn method_name(method: Method) -> Seq<char> {
    match method {
        Method::Get => "GET"@,
        Method::Head => "HEAD"@,
        Method::Post => "POST"@,
        Method::Put => "PUT"@,
        Method::Delete => "DELETE"@,
        Method::Options => "OPTIONS"@,
        Method::Patch => "PATCH"@,
    }
}

/// The name of a method.
pub fn method_text(method: Method) -> (name: &'static str)
    ensures
        name@ == method_name(method),
{
    match method {
        Method::Get => "GET",
        Method::Head => "HEAD",
        Method::Post => "POST",
        Method::Put => "PUT",
        Method::Delete => "DELETE",
        Method::Options => "OPTIONS",
        Method::Patch => "PATCH",
    }
}

/// One line of the log: the time stamp, the level in square brackets and the
/// message.
pub fn format_record(stamp: &str, level: &str, message: &str) -> (line: String)
    ensures
        line@ == stamp@ + "["@ + level@ + "] "@ + message@,
{
    let mut line = String::from_str(stamp);
    line.append("[");
    line.append(level);
    line.append("] ");
    line.append(message);
    line
}

/// What the logging transform notes of a request: the peer's address, the
/// method and the path.
pub fn logger(remote: &str, method: Method, path: &str) -> (line: String)
    ensures
        line@ == remote@ + " "@ + method_name(method) + " "@ + path@,
{
    let mut line = String::from_str(remote);
    line.append(" ");
    line.append(method_text(method));
    line.append(" ");
    line.append(path);
    line
}

} // verus!

//! What building means: the serialized text of a request, recomputed from
//! the live fields.
//!
//! The request line is `METHOD target VERSION`, where the target is the path
//! with every query parameter appended as `name=value`, preceded by `?` when
//! the text so far has no `?` yet and by `&` otherwise. Each header follows
//! as `Name: Value`, the lines are joined with `"\r\n"`, a blank line closes
//! the head, and the body follows verbatim. The stale `full_path` snapshot
//! is never used: the target always comes from the live path and query
//! collection.
use vstd::prelude::*;

use crate::method::method_text;
use crate::model::{PairView, RequestModel};
use crate::text::{contains_char, crlf, join_with};

verus! {

/// The target text after appending every query parameter in order to the
/// accumulated text `acc`: each parameter adds `name=value`, preceded by
/// `?` when `acc` does not yet contain one and by `&` otherwise.
pub open spec fn build_target_rec(acc: Seq<char>, q: Seq<PairView>) -> Seq<char>
    decreases q.len(),
{
    if q.len() == 0 {
        acc
    } else {
        let sep: Seq<char> = if contains_char(acc, '?') { seq!['&'] } else { seq!['?'] };
        build_target_rec(acc + sep + q[0].name + seq!['='] + q[0].value, q.drop_first())
    }
}

/// The target of the request line: the path with the query parameters
/// appended.
pub open spec fn build_target(path: Seq<char>, q: Seq<PairView>) -> Seq<char> {
    build_target_rec(path, q)
}

/// The request line: method token, target and version, space-separated.
pub open spec fn request_line_text(m: RequestModel) -> Seq<char> {
    method_text(m.method) + seq![' '] + build_target(m.path, m.query) + seq![' '] + m.version
}

/// One serialized header line: `Name: Value`.
pub open spec fn header_line_text(p: PairView) -> Seq<char> {
    p.name + seq![':', ' '] + p.value
}

/// The serialized header lines, in storage order.
pub open spec fn header_lines_text(hs: Seq<PairView>) -> Seq<Seq<char>> {
    hs.map_values(|p: PairView| header_line_text(p))
}

/// The whole serialized request: request line and header lines joined with
/// `"\r\n"`, then a blank line, then the body verbatim with no trailing
/// terminator.
pub open spec fn build_text(m: RequestModel) -> Seq<char> {
    join_with(seq![request_line_text(m)] + header_lines_text(m.headers), crlf()) + crlf()
        + crlf() + m.body
}

} // verus!

//! The closed set of HTTP request methods, with the total, bidirectional
//! mapping between a method and its canonical uppercase token.
use vstd::prelude::*;

use crate::text::str_eq;

verus! {

/// One of the nine standard HTTP request methods.
#[derive(PartialEq, Eq, Structural, Clone, Copy, Debug)]
pub enum Method {
    GET,
    POST,
    PUT,
    DELETE,
    HEAD,
    OPTIONS,
    CONNECT,
    TRACE,
    PATCH,
}

/// The canonical uppercase token of a method.
pub open spec fn method_text(m: Method) -> Seq<char> {
    match m {
        Method::GET => "GET"@,
        Method::POST => "POST"@,
        Method::PUT => "PUT"@,
        Method::DELETE => "DELETE"@,
        Method::HEAD => "HEAD"@,
        Method::OPTIONS => "OPTIONS"@,
        Method::CONNECT => "CONNECT"@,
        Method::TRACE => "TRACE"@,
        Method::PATCH => "PATCH"@,
    }
}

/// The method a token denotes: exact, case-sensitive match against the nine
/// canonical tokens; any other token denotes no method.
pub open spec fn method_of_text(s: Seq<char>) -> Option<Method> {
    if s == "GET"@ {
        Some(Method::GET)
    } else if s == "POST"@ {
        Some(Method::POST)
    } else if s == "PUT"@ {
        Some(Method::PUT)
    } else if s == "DELETE"@ {
        Some(Method::DELETE)
    } else if s == "HEAD"@ {
        Some(Method::HEAD)
    } else if s == "OPTIONS"@ {
        Some(Method::OPTIONS)
    } else if s == "CONNECT"@ {
        Some(Method::CONNECT)
    } else if s == "TRACE"@ {
        Some(Method::TRACE)
    } else if s == "PATCH"@ {
        Some(Method::PATCH)
    } else {
        None
    }
}

/// Reveals the nine canonical tokens, so that their characters are known.
pub proof fn reveal_method_tokens()
    ensures
        "GET"@ =~= seq!['G', 'E', 'T'],
        "POST"@ =~= seq!['P', 'O', 'S', 'T'],
        "PUT"@ =~= seq!['P', 'U', 'T'],
        "DELETE"@ =~= seq!['D', 'E', 'L', 'E', 'T', 'E'],
        "HEAD"@ =~= seq!['H', 'E', 'A', 'D'],
        "OPTIONS"@ =~= seq!['O', 'P', 'T', 'I', 'O', 'N', 'S'],
        "CONNECT"@ =~= seq!['C', 'O', 'N', 'N', 'E', 'C', 'T'],
        "TRACE"@ =~= seq!['T', 'R', 'A', 'C', 'E'],
        "PATCH"@ =~= seq!['P', 'A', 'T', 'C', 'H'],
{
    reveal_strlit("GET");
    reveal_strlit("POST");
    reveal_strlit("PUT");
    reveal_strlit("DELETE");
    reveal_strlit("HEAD");
    reveal_strlit("OPTIONS");
    reveal_strlit("CONNECT");
    reveal_strlit("TRACE");
    reveal_strlit("PATCH");
}

/// No method token contains a space or a line break, and none is empty.
pub proof fn lemma_method_text_plain(m: Method)
    ensures
        !crate::text::contains_char(method_text(m), ' '),
        !crate::text::contains_char(method_text(m), '\r'),
        !crate::text::contains_char(method_text(m), '\n'),
        method_text(m).len() > 0,
{
    reveal_method_tokens();
}

/// Rendering a method and reading the token back yields the same method.
pub proof fn lemma_method_round_trip(m: Method)
    ensures
        method_of_text(method_text(m)) == Some(m),
{
    reveal_method_tokens();
}

impl Method {
    /// Renders the canonical uppercase token of this method.
    pub fn to_text(&self) -> (r: &'static str)
        ensures
            r@ == method_text(*self),
    {
        match self {
            Method::GET => "GET",
            Method::POST => "POST",
            Method::PUT => "PUT",
            Method::DELETE => "DELETE",
            Method::HEAD => "HEAD",
            Method::OPTIONS => "OPTIONS",
            Method::CONNECT => "CONNECT",
            Method::TRACE => "TRACE",
            Method::PATCH => "PATCH",
        }
    }

    /// Reads a method from its token: exact, case-sensitive match against
    /// the nine canonical tokens; any other token is a parse failure,
    /// reported as `None`.
    pub fn from_text(s: &str) -> (r: Option<Method>)
        ensures
            r == method_of_text(s@),
    {
        if str_eq(s, "GET") {
            Some(Method::GET)
        } else if str_eq(s, "POST") {
            Some(Method::POST)
        } else if str_eq(s, "PUT") {
            Some(Method::PUT)
        } else if str_eq(s, "DELETE") {
            Some(Method::DELETE)
        } else if str_eq(s, "HEAD") {
            Some(Method::HEAD)
        } else if str_eq(s, "OPTIONS") {
            Some(Method::OPTIONS)
        } else if str_eq(s, "CONNECT") {
            Some(Method::CONNECT)
        } else if str_eq(s, "TRACE") {
            Some(Method::TRACE)
        } else if str_eq(s, "PATCH") {
            Some(Method::PATCH)
        } else {
            None
        }
    }
}

} // verus!

//! The request aggregate: method, path, full path, version, ordered headers,
//! ordered query parameters and body, with accessors, mutators and lookups.
//!
//! A request starts uninitialized with every field at its default; any parse
//! or mutator call latches `initialized` to true, and it never reverts.
use vstd::prelude::*;

use crate::serialize::{
    build_target, build_target_rec, build_text, header_line_text, header_lines_text,
    request_line_text,
};
use crate::header::Header;
use crate::method::Method;
use crate::model::{first_match_ci, first_match_exact, PairView, RequestModel};
use crate::model::{lemma_first_match_ci, lemma_first_match_exact};
use crate::parse::{
    apply_header_line, apply_request_line, apply_target, fold_lines, lemma_fold_lines_snoc,
    lemma_parse_pairs_snoc, parse_pairs, spec_parse, step_line, ParseState,
};
use crate::query::Query;
use crate::render::{
    header_entries, lemma_header_entries_snoc, lemma_query_entries_snoc, query_entries,
    render_text,
};
use crate::text::{
    contains_char, contains_char_exec, contains_colon_space_exec, crlf, join_strs,
    lemma_split_colon_space_whole, lemma_split_on_nonempty, lines_of, lines_vec, lower,
    split_str, split_str_colon_space, str_eq, str_eq_ignore_case,
};

verus! {

/// An HTTP/1.1 request: an aggregate of the parsed or assembled fields.
#[derive(Clone)]
pub struct Request {
    headers: Vec<Header>,
    query: Vec<Query>,
    body: String,
    method: Method,
    full_path: String,
    path: String,
    initialized: bool,
    version: String,
}

impl View for Request {
    type V = RequestModel;

    closed spec fn view(&self) -> RequestModel {
        RequestModel {
            headers: self.headers.deep_view(),
            query: self.query.deep_view(),
            body: self.body@,
            method: self.method,
            full_path: self.full_path@,
            path: self.path@,
            initialized: self.initialized,
            version: self.version@,
        }
    }
}

impl Request {
    /// Makes an empty, uninitialized request: no headers, no query
    /// parameters, empty body and paths, method GET, version `HTTP/1.1`.
    pub fn new() -> (r: Request)
        ensures
            r@ == RequestModel::init(),
    {
        let r = Request {
            headers: Vec::new(),
            query: Vec::new(),
            body: String::new(),
            method: Method::GET,
            path: String::new(),
            full_path: String::new(),
            version: "HTTP/1.1".to_owned(),
            initialized: false,
        };
        assert(r@.headers =~= Seq::<PairView>::empty());
        assert(r@.query =~= Seq::<PairView>::empty());
        r
    }

    /// The ordered header collection.
    pub fn headers(&self) -> (r: &Vec<Header>)
        ensures
            r.deep_view() == self@.headers,
    {
        &self.headers
    }

    /// The ordered query parameter collection.
    pub fn query(&self) -> (r: &Vec<Query>)
        ensures
            r.deep_view() == self@.query,
    {
        &self.query
    }

    /// The request body.
    pub fn body(&self) -> (r: &String)
        ensures
            r@ == self@.body,
    {
        &self.body
    }

    /// Replaces the body and latches `initialized`.
    pub fn set_body(&mut self, body: &str)
        ensures
            final(self)@ == (RequestModel { body: body@, initialized: true, ..old(self)@ }),
    {
        self.initialized = true;
        self.body = body.to_owned();
    }

    /// The HTTP version token.
    pub fn version(&self) -> (r: &String)
        ensures
            r@ == self@.version,
    {
        &self.version
    }

    /// Replaces the version token and latches `initialized`.
    pub fn set_version(&mut self, version: &str)
        ensures
            final(self)@ == (RequestModel {
                version: version@,
                initialized: true,
                ..old(self)@
            }),
    {
        self.initialized = true;
        self.version = version.to_owned();
    }

    /// The request method.
    pub fn method(&self) -> (r: &Method)
        ensures
            *r == self@.method,
    {
        &self.method
    }

    /// Replaces the method and latches `initialized`.
    pub fn set_method(&mut self, method: Method)
        ensures
            final(self)@ == (RequestModel { method, initialized: true, ..old(self)@ }),
    {
        self.initialized = true;
        self.method = method;
    }

    /// The raw path-plus-query target as received at parse time.
    pub fn full_path(&self) -> (r: &String)
        ensures
            r@ == self@.full_path,
    {
        &self.full_path
    }

    /// Replaces the full path and latches `initialized`.
    pub fn set_full_path(&mut self, full_path: String)
        ensures
            final(self)@ == (RequestModel {
                full_path: full_path@,
                initialized: true,
                ..old(self)@
            }),
    {
        self.initialized = true;
        self.full_path = full_path;
    }

    /// The path without its query string.
    pub fn path(&self) -> (r: &String)
        ensures
            r@ == self@.path,
    {
        &self.path
    }

    /// Replaces the path and latches `initialized`.
    pub fn set_path(&mut self, path: &str)
        ensures
            final(self)@ == (RequestModel { path: path@, initialized: true, ..old(self)@ }),
    {
        self.initialized = true;
        self.path = path.to_owned();
    }

    /// Finds the first header whose name matches `name` case-insensitively.
    pub fn find_header(&self, name: &str) -> (r: Option<&Header>)
        ensures
            match first_match_ci(self@.headers, name@) {
                None => r is None,
                Some(i) => r matches Some(h) && h@ == self@.headers[i],
            },
    {
        proof {
            lemma_first_match_ci(self@.headers, name@);
        }
        let n = self.headers.len();
        let mut i: usize = 0;
        while i < n
            invariant
                i <= n,
                forall|j: int| 0 <= j < i ==> lower(self@.headers[j].name) != lower(name@),
            decreases n - i,
        {
            if str_eq_ignore_case(self.headers[i].name().as_str(), name) {
                proof {
                    assert(lower(self@.headers[i as int].name) == lower(name@));
                    assert(first_match_ci(self@.headers, name@) == Some(i as int));
                    assert(self.headers@[i as int]@ == self@.headers[i as int]);
                }
                return Some(&self.headers[i]);
            }
            i = i + 1;
        }
        None
    }

    /// Overwrites the value of the first header whose name matches
    /// case-insensitively, keeping that header's stored name and position;
    /// appends a new header when none matches. Latches `initialized`.
    pub fn set_header(&mut self, header_name: &str, header_value: &str)
        ensures
            final(self)@ == (RequestModel {
                headers: match first_match_ci(old(self)@.headers, header_name@) {
                    Some(i) => old(self)@.headers.update(
                        i,
                        PairView {
                            name: old(self)@.headers[i].name,
                            value: header_value@,
                        },
                    ),
                    None => old(self)@.headers.push(
                        PairView { name: header_name@, value: header_value@ },
                    ),
                },
                initialized: true,
                ..old(self)@
            }),
    {
        proof {
            lemma_first_match_ci(self@.headers, header_name@);
        }
        self.initialized = true;
        let n = self.headers.len();
        let mut i: usize = 0;
        while i < n
            invariant
                i <= n,
                n == self.headers.len(),
                self.initialized,
                *self == (Request { initialized: true, ..*old(self) }),
                forall|j: int| 0 <= j < i ==> lower(self@.headers[j].name) != lower(
                    header_name@,
                ),
            decreases n - i,
        {
            if str_eq_ignore_case(self.headers[i].name().as_str(), header_name) {
                proof {
                    assert(self@.headers =~= old(self)@.headers);
                    assert(lower(old(self)@.headers[i as int].name) == lower(header_name@));
                    assert(first_match_ci(old(self)@.headers, header_name@) == Some(i as int));
                }
                let kept_name = self.headers[i].name().clone();
                self.headers[i] = Header::new(kept_name, header_value.to_owned());
                assert(self@.headers =~= old(self)@.headers.update(
                    i as int,
                    PairView {
                        name: old(self)@.headers[i as int].name,
                        value: header_value@,
                    },
                ));
                return ;
            }
            i = i + 1;
        }
        proof {
            assert(self@.headers =~= old(self)@.headers);
            assert(first_match_ci(old(self)@.headers, header_name@) is None);
        }
        self.headers.push(Header::new(header_name.to_owned(), header_value.to_owned()));
        assert(self@.headers =~= old(self)@.headers.push(
            PairView { name: header_name@, value: header_value@ },
        ));
    }

    /// Adds a header; when a name already matches case-insensitively this
    /// degrades to an update of that header's value, so duplicates are
    /// never created. Latches `initialized`.
    pub fn add_header(&mut self, header_name: &str, header_value: &str)
        ensures
            final(self)@ == (RequestModel {
                headers: match first_match_ci(old(self)@.headers, header_name@) {
                    Some(i) => old(self)@.headers.update(
                        i,
                        PairView {
                            name: old(self)@.headers[i].name,
                            value: header_value@,
                        },
                    ),
                    None => old(self)@.headers.push(
                        PairView { name: header_name@, value: header_value@ },
                    ),
                },
                initialized: true,
                ..old(self)@
            }),
    {
        self.set_header(header_name, header_value);
    }

    /// Finds the first query parameter whose name matches `name` exactly
    /// (case-sensitively).
    pub fn find_query(&self, name: &str) -> (r: Option<&Query>)
        ensures
            match first_match_exact(self@.query, name@) {
                None => r is None,
                Some(i) => r matches Some(q) && q@ == self@.query[i],
            },
    {
        proof {
            lemma_first_match_exact(self@.query, name@);
        }
        let n = self.query.len();
        let mut i: usize = 0;
        while i < n
            invariant
                i <= n,
                forall|j: int| 0 <= j < i ==> self@.query[j].name != name@,
            decreases n - i,
        {
            if str_eq(self.query[i].name().as_str(), name) {
                proof {
                    assert(self@.query[i as int].name == name@);
                    assert(first_match_exact(self@.query, name@) == Some(i as int));
                    assert(self.query@[i as int]@ == self@.query[i as int]);
                }
                return Some(&self.query[i]);
            }
            i = i + 1;
        }
        None
    }

    /// Overwrites the value of the first query parameter whose name matches
    /// exactly, keeping its position; appends a new parameter when none
    /// matches. Latches `initialized`.
    pub fn set_query(&mut self, query_name: &str, query_value: &str)
        ensures
            final(self)@ == (RequestModel {
                query: match first_match_exact(old(self)@.query, query_name@) {
                    Some(i) => old(self)@.query.update(
                        i,
                        PairView { name: old(self)@.query[i].name, value: query_value@ },
                    ),
                    None => old(self)@.query.push(
                        PairView { name: query_name@, value: query_value@ },
                    ),
                },
                initialized: true,
                ..old(self)@
            }),
    {
        proof {
            lemma_first_match_exact(self@.query, query_name@);
        }
        self.initialized = true;
        let n = self.query.len();
        let mut i: usize = 0;
        while i < n
            invariant
                i <= n,
                n == self.query.len(),
                self.initialized,
                *self == (Request { initialized: true, ..*old(self) }),
                forall|j: int| 0 <= j < i ==> self@.query[j].name != query_name@,
            decreases n - i,
        {
            if str_eq(self.query[i].name().as_str(), query_name) {
                proof {
                    assert(self@.query =~= old(self)@.query);
                    assert(old(self)@.query[i as int].name == query_name@);
                    assert(first_match_exact(old(self)@.query, query_name@) == Some(i as int));
                }
                let kept_name = self.query[i].name().clone();
                self.query[i] = Query::new(kept_name, query_value.to_owned());
                assert(self@.query =~= old(self)@.query.update(
                    i as int,
                    PairView { name: old(self)@.query[i as int].name, value: query_value@ },
                ));
                return ;
            }
            i = i + 1;
        }
        proof {
            assert(self@.query =~= old(self)@.query);
            assert(first_match_exact(old(self)@.query, query_name@) is None);
        }
        self.query.push(Query::new(query_name.to_owned(), query_value.to_owned()));
        assert(self@.query =~= old(self)@.query.push(
            PairView { name: query_name@, value: query_value@ },
        ));
    }

    /// Adds a query parameter; when a name already matches exactly this
    /// degrades to an update of that parameter's value, so duplicates are
    /// never created. Latches `initialized`.
    pub fn add_query(&mut self, query_name: &str, query_value: &str)
        ensures
            final(self)@ == (RequestModel {
                query: match first_match_exact(old(self)@.query, query_name@) {
                    Some(i) => old(self)@.query.update(
                        i,
                        PairView { name: old(self)@.query[i].name, value: query_value@ },
                    ),
                    None => old(self)@.query.push(
                        PairView { name: query_name@, value: query_value@ },
                    ),
                },
                initialized: true,
                ..old(self)@
            }),
    {
        self.set_query(query_name, query_value);
    }

    /// The value of the header stored under exactly the lowercase name
    /// `content-type`, if any. The lookup is case-sensitive, so a header
    /// stored with other casing is not found here.
    pub fn content_type(&self) -> (r: Option<String>)
        ensures
            match first_match_exact(self@.headers, "content-type"@) {
                None => r is None,
                Some(i) => r matches Some(v) && v@ == self@.headers[i].value,
            },
    {
        proof {
            lemma_first_match_exact(self@.headers, "content-type"@);
        }
        let n = self.headers.len();
        let mut i: usize = 0;
        while i < n
            invariant
                i <= n,
                forall|j: int| 0 <= j < i ==> self@.headers[j].name != "content-type"@,
            decreases n - i,
        {
            if str_eq(self.headers[i].name().as_str(), "content-type") {
                proof {
                    assert(self@.headers[i as int].name == "content-type"@);
                    assert(first_match_exact(self@.headers, "content-type"@) == Some(i as int));
                }
                return Some(self.headers[i].value().clone());
            }
            i = i + 1;
        }
        None
    }

    /// The value of the header stored under exactly the lowercase name
    /// `content-length`, if any. The lookup is case-sensitive, like
    /// `content_type`.
    pub fn content_length(&self) -> (r: Option<String>)
        ensures
            match first_match_exact(self@.headers, "content-length"@) {
                None => r is None,
                Some(i) => r matches Some(v) && v@ == self@.headers[i].value,
            },
    {
        proof {
            lemma_first_match_exact(self@.headers, "content-length"@);
        }
        let n = self.headers.len();
        let mut i: usize = 0;
        while i < n
            invariant
                i <= n,
                forall|j: int| 0 <= j < i ==> self@.headers[j].name != "content-length"@,
            decreases n - i,
        {
            if str_eq(self.headers[i].name().as_str(), "content-length") {
                proof {
                    assert(self@.headers[i as int].name == "content-length"@);
                    assert(first_match_exact(self@.headers, "content-length"@) == Some(i as int));
                }
                return Some(self.headers[i].value().clone());
            }
            i = i + 1;
        }
        None
    }

    /// Renders the human-readable diagnostic form, as `render_text`
    /// describes; a request that was never initialized renders as the
    /// fixed placeholder line.
    pub fn render(&self) -> (r: String)
        ensures
            r@ == render_text(self@),
    {
        if !self.initialized {
            return "Request read not initialized".to_owned();
        }
        let mut headers_block = String::new();
        if self.headers.len() > 0 {
            headers_block.append("\u{1b}[1mHeaders:\n\u{1b}[0m");
            let hn = self.headers.len();
            let mut i: usize = 0;
            proof {
                assert(self@.headers.take(0) =~= Seq::<PairView>::empty());
                assert(headers_block@ =~= "\u{1b}[1mHeaders:\n\u{1b}[0m"@ + header_entries(
                    self@.headers.take(0),
                ));
            }
            while i < hn
                invariant
                    i <= hn,
                    headers_block@ == "\u{1b}[1mHeaders:\n\u{1b}[0m"@ + header_entries(
                        self@.headers.take(i as int),
                    ),
                decreases hn - i,
            {
                headers_block.append("  \"");
                headers_block.append(self.headers[i].name().as_str());
                headers_block.append("\": \"");
                headers_block.append(self.headers[i].value().as_str());
                headers_block.append("\"\r\n");
                proof {
                    assert(self@.headers.take(i as int + 1) =~= self@.headers.take(
                        i as int,
                    ).push(self@.headers[i as int]));
                    lemma_header_entries_snoc(
                        self@.headers.take(i as int),
                        self@.headers[i as int],
                    );
                    assert(headers_block@ =~= "\u{1b}[1mHeaders:\n\u{1b}[0m"@
                        + header_entries(self@.headers.take(i as int + 1)));
                }
                i = i + 1;
            }
            proof {
                assert(self@.headers.take(hn as int) =~= self@.headers);
            }
        }
        let mut query_block = String::new();
        if self.query.len() > 0 {
            query_block.append("\u{1b}[1mQueries:\n\u{1b}[0m");
            let qn = self.query.len();
            let mut i: usize = 0;
            proof {
                assert(self@.query.take(0) =~= Seq::<PairView>::empty());
                assert(query_block@ =~= "\u{1b}[1mQueries:\n\u{1b}[0m"@ + query_entries(
                    self@.query.take(0),
                ));
            }
            while i < qn
                invariant
                    i <= qn,
                    query_block@ == "\u{1b}[1mQueries:\n\u{1b}[0m"@ + query_entries(
                        self@.query.take(i as int),
                    ),
                decreases qn - i,
            {
                query_block.append("  \"");
                query_block.append(self.query[i].name().as_str());
                query_block.append("\" = \"");
                query_block.append(self.query[i].value().as_str());
                query_block.append("\"\n");
                proof {
                    assert(self@.query.take(i as int + 1) =~= self@.query.take(i as int).push(
                        self@.query[i as int],
                    ));
                    lemma_query_entries_snoc(
                        self@.query.take(i as int),
                        self@.query[i as int],
                    );
                    assert(query_block@ =~= "\u{1b}[1mQueries:\n\u{1b}[0m"@ + query_entries(
                        self@.query.take(i as int + 1),
                    ));
                }
                i = i + 1;
            }
            proof {
                assert(self@.query.take(qn as int) =~= self@.query);
            }
        }
        let mut body_block = String::new();
        if !self.body.as_str().is_empty() {
            body_block.append("\u{1b}[1mBody:\n\u{1b}[0m  \"");
            body_block.append(self.body.as_str());
            body_block.append("\"");
        }
        let mut out = String::new();
        out.append("\u{1b}[1mRequest:\u{1b}[0m\n  ");
        out.append(self.method.to_text());
        out.append(" ");
        out.append(self.path.as_str());
        out.append(" ");
        out.append(self.version.as_str());
        out.append("\n");
        out.append(headers_block.as_str());
        out.append(query_block.as_str());
        out.append(body_block.as_str());
        proof {
            assert(out@ =~= render_text(self@));
        }
        out
    }

    /// Serializes this request, as `build_text` describes. The target is
    /// recomputed from the live path and query collection, never from the
    /// `full_path` snapshot.
    pub fn build(&self) -> (r: String)
        ensures
            r@ == build_text(self@),
    {
        let mut target: String = self.path.clone();
        let qn = self.query.len();
        let mut k: usize = 0;
        proof {
            assert(self@.query.skip(0) =~= self@.query);
        }
        while k < qn
            invariant
                k <= qn,
                build_target_rec(target@, self@.query.skip(k as int)) == build_target(
                    self@.path,
                    self@.query,
                ),
            decreases qn - k,
        {
            let ghost acc0 = target@;
            if contains_char_exec(target.as_str(), '?') {
                target.append("&");
            } else {
                target.append("?");
            }
            target.append(self.query[k].name().as_str());
            target.append("=");
            target.append(self.query[k].value().as_str());
            proof {
                reveal_strlit("&");
                reveal_strlit("?");
                reveal_strlit("=");
                let sep: Seq<char> = if contains_char(acc0, '?') {
                    seq!['&']
                } else {
                    seq!['?']
                };
                assert(target@ =~= acc0 + sep + self@.query[k as int].name + seq!['=']
                    + self@.query[k as int].value);
                let qs = self@.query.skip(k as int);
                assert(qs[0] == self@.query[k as int]);
                assert(qs.drop_first() =~= self@.query.skip(k as int + 1));
            }
            k = k + 1;
        }
        proof {
            assert(self@.query.skip(qn as int) =~= Seq::<PairView>::empty());
        }
        assert(target@ == build_target(self@.path, self@.query));
        let mut lines: Vec<String> = Vec::new();
        let mut line0 = String::new();
        line0.append(self.method.to_text());
        line0.append(" ");
        line0.append(target.as_str());
        line0.append(" ");
        line0.append(self.version.as_str());
        proof {
            reveal_strlit(" ");
            assert(line0@ =~= request_line_text(self@));
        }
        lines.push(line0);
        let hn = self.headers.len();
        let mut i: usize = 0;
        proof {
            assert(lines.deep_view() =~= seq![request_line_text(self@)] + header_lines_text(
                self@.headers.take(0),
            ));
        }
        while i < hn
            invariant
                i <= hn,
                lines.deep_view() == seq![request_line_text(self@)] + header_lines_text(
                    self@.headers.take(i as int),
                ),
            decreases hn - i,
        {
            let ghost pre = lines.deep_view();
            let mut hl = String::new();
            hl.append(self.headers[i].name().as_str());
            hl.append(": ");
            hl.append(self.headers[i].value().as_str());
            proof {
                reveal_strlit(": ");
                assert(hl@ =~= header_line_text(self@.headers[i as int]));
            }
            lines.push(hl);
            proof {
                assert(lines.deep_view() =~= pre.push(
                    header_line_text(self@.headers[i as int]),
                ));
                assert(header_lines_text(self@.headers.take(i as int + 1)) =~= header_lines_text(
                    self@.headers.take(i as int),
                ).push(header_line_text(self@.headers[i as int])));
                assert(lines.deep_view() =~= seq![request_line_text(self@)]
                    + header_lines_text(self@.headers.take(i as int + 1)));
            }
            i = i + 1;
        }
        proof {
            assert(self@.headers.take(hn as int) =~= self@.headers);
        }
        let mut out = join_strs(&lines, "\r\n");
        out.append("\r\n");
        out.append("\r\n");
        out.append(self.body.as_str());
        proof {
            reveal_strlit("\r\n");
            assert("\r\n"@ =~= crlf());
            assert(out@ =~= build_text(self@));
        }
        out
    }

    /// Parses a raw request text into this request, as `spec_parse`
    /// describes. Malformed pieces are skipped, every well-formed piece is
    /// still taken, and the request is initialized unconditionally.
    pub fn parse_from_str(&mut self, request: &str)
        ensures
            final(self)@ == spec_parse(old(self)@, request@),
    {
        self.parse_request(request.to_owned());
    }

    /// Runs the line-oriented pass of `spec_parse` over the request text.
    fn parse_request(&mut self, request: String)
        ensures
            final(self)@ == spec_parse(old(self)@, request@),
    {
        let lines = lines_vec(request.as_str());
        let ghost ls = lines_of(request@);
        let n = lines.len();
        if n == 0 {
            self.body = String::new();
            self.initialized = true;
            return ;
        }
        self.parse_method_line(lines[0].as_str());
        let ghost st0 = ParseState {
            m: self@,
            read_body: false,
            body_lines: Seq::empty(),
        };
        let mut body_lines: Vec<String> = Vec::new();
        let mut read_body: bool = false;
        let mut i: usize = 1;
        proof {
            assert(ls.subrange(1, 1) =~= Seq::<Seq<char>>::empty());
            assert(body_lines.deep_view() =~= Seq::<Seq<char>>::empty());
        }
        while i < n
            invariant
                1 <= i <= n,
                fold_lines(st0, ls.subrange(1, i as int)) == (ParseState {
                    m: self@,
                    read_body: read_body,
                    body_lines: body_lines.deep_view(),
                }),
            decreases n - i,
        {
            let ghost pre = ParseState {
                m: self@,
                read_body: read_body,
                body_lines: body_lines.deep_view(),
            };
            let line: &str = lines[i].as_str();
            assert(line@ == ls[i as int]);
            if line.is_empty() {
                if self.method == Method::POST || self.method == Method::PUT {
                    read_body = true;
                }
            } else if read_body {
                body_lines.push(line.to_owned());
                assert(body_lines.deep_view() =~= pre.body_lines.push(line@));
            } else {
                if contains_colon_space_exec(line) {
                    self.parse_header_line(line);
                } else {
                    proof {
                        lemma_split_colon_space_whole(line@);
                        assert(apply_header_line(self@, line@) == self@);
                    }
                }
            }
            proof {
                assert((ParseState {
                    m: self@,
                    read_body: read_body,
                    body_lines: body_lines.deep_view(),
                }) == step_line(pre, ls[i as int]));
                assert(ls.subrange(1, i as int + 1) =~= ls.subrange(1, i as int).push(
                    ls[i as int],
                ));
                lemma_fold_lines_snoc(st0, ls.subrange(1, i as int), ls[i as int]);
            }
            i = i + 1;
        }
        let body = join_strs(&body_lines, "\r\n");
        self.body = body;
        self.initialized = true;
        proof {
            reveal_strlit("\r\n");
            assert("\r\n"@ =~= crlf());
            assert(ls.subrange(1, n as int) == ls.subrange(1, ls.len() as int));
        }
    }

    /// Reads the request line, as `apply_request_line` describes: method,
    /// verbatim full path and version are taken only from a line of exactly
    /// three space-separated tokens whose method token is recognized.
    fn parse_method_line(&mut self, line: &str)
        ensures
            final(self)@ == apply_request_line(old(self)@, line@),
    {
        let parts = split_str(line, ' ');
        if parts.len() != 3 {
            return ;
        }
        match Method::from_text(parts[0].as_str()) {
            None => {
                return ;
            },
            Some(meth) => {
                self.method = meth;
                self.full_path = parts[1].clone();
                self.version = parts[2].clone();
                assert(self@ == (RequestModel {
                    method: meth,
                    full_path: parts.deep_view()[1],
                    version: parts.deep_view()[2],
                    ..old(self)@
                }));
                self.parse_query_string(parts[1].as_str());
            },
        }
    }

    /// Reads the target token, as `apply_target` describes: the path is
    /// everything before the first `?`, and when splitting on `?` gives
    /// exactly two parts the second part's `&`-separated `name=value`
    /// pairs are appended to the query collection, skipping any piece that
    /// does not split on `=` into exactly two parts.
    fn parse_query_string(&mut self, string: &str)
        ensures
            final(self)@ == apply_target(old(self)@, string@),
    {
        proof {
            lemma_split_on_nonempty(string@, '?');
        }
        let parts = split_str(string, '?');
        let path0 = parts[0].clone();
        self.path = path0;
        let ghost mid = self@;
        if parts.len() == 2 {
            let pieces = split_str(parts[1].as_str(), '&');
            let qn = pieces.len();
            let mut k: usize = 0;
            proof {
                assert(pieces.deep_view().take(0) =~= Seq::<Seq<char>>::empty());
                assert(self@.query =~= old(self)@.query + parse_pairs(
                    pieces.deep_view().take(0),
                ));
            }
            while k < qn
                invariant
                    k <= qn,
                    self@ == (RequestModel {
                        query: old(self)@.query + parse_pairs(
                            pieces.deep_view().take(k as int),
                        ),
                        ..mid
                    }),
                decreases qn - k,
            {
                let ghost prequery = self@.query;
                let piece: &str = pieces[k].as_str();
                let query_parts = split_str(piece, '=');
                if query_parts.len() == 2 {
                    self.query.push(
                        Query::new(query_parts[0].clone(), query_parts[1].clone()),
                    );
                    assert(self@.query =~= prequery.push(
                        PairView {
                            name: query_parts.deep_view()[0],
                            value: query_parts.deep_view()[1],
                        },
                    ));
                }
                proof {
                    assert(pieces.deep_view().take(k as int + 1) =~= pieces.deep_view().take(
                        k as int,
                    ).push(pieces.deep_view()[k as int]));
                    lemma_parse_pairs_snoc(
                        pieces.deep_view().take(k as int),
                        pieces.deep_view()[k as int],
                    );
                    assert(self@.query =~= old(self)@.query + parse_pairs(
                        pieces.deep_view().take(k as int + 1),
                    ));
                }
                k = k + 1;
            }
            proof {
                assert(pieces.deep_view().take(qn as int) =~= pieces.deep_view());
            }
        }
    }

    /// Reads one header line, as `apply_header_line` describes: a line that
    /// splits on `": "` into exactly two parts appends a header, unless a
    /// header of that name already exists under case-insensitive
    /// comparison (the first occurrence wins).
    fn parse_header_line(&mut self, line: &str)
        ensures
            final(self)@ == apply_header_line(old(self)@, line@),
    {
        let parts = split_str_colon_space(line);
        if parts.len() != 2 {
            return ;
        }
        proof {
            lemma_first_match_ci(self@.headers, parts.deep_view()[0]);
        }
        let name: &str = parts[0].as_str();
        let n = self.headers.len();
        let mut i: usize = 0;
        while i < n
            invariant
                i <= n,
                n == self.headers.len(),
                *self == *old(self),
                forall|j: int| 0 <= j < i ==> lower(self@.headers[j].name) != lower(
                    parts.deep_view()[0],
                ),
            decreases n - i,
        {
            if str_eq_ignore_case(self.headers[i].name().as_str(), name) {
                proof {
                    assert(lower(self@.headers[i as int].name) == lower(
                        parts.deep_view()[0],
                    ));
                    assert(first_match_ci(self@.headers, parts.deep_view()[0]) == Some(
                        i as int,
                    ));
                }
                return ;
            }
            i = i + 1;
        }
        proof {
            assert(first_match_ci(self@.headers, parts.deep_view()[0]) is None);
        }
        self.headers.push(Header::new(parts[0].clone(), parts[1].clone()));
        assert(self@.headers =~= old(self)@.headers.push(
            PairView { name: parts.deep_view()[0], value: parts.deep_view()[1] },
        ));
    }
}

} // verus!

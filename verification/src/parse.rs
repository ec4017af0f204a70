//! What parsing means: a line-oriented pass over the input, specified as a
//! fold over its lines.
//!
//! Line zero is the request line `METHOD target VERSION`, split on single
//! spaces; any other token count, or an unrecognized method token, leaves the
//! request-line fields untouched while later lines are still processed. The
//! target splits once on `?` into the path and, when present, a query string
//! of `&`-separated `name=value` pairs; a pair that does not split on `=`
//! into exactly two parts is skipped. Later lines are headers (`": "`
//! separated, first name wins under case-insensitive comparison) until a
//! blank line; the blank line opens the body only when the method is POST or
//! PUT. Body lines are collected verbatim and joined with `"\r\n"`. After
//! the pass the request is initialized unconditionally.
use vstd::prelude::*;

use crate::method::{method_of_text, Method};
use crate::model::{first_match_ci, PairView, RequestModel};
use crate::text::{crlf, join_with, split_colon_space, split_on};

verus! {

/// The query parameters read from the `&`-separated pieces of a query
/// string: each piece that splits on `=` into exactly two parts becomes a
/// pair, in order; every other piece is skipped.
pub open spec fn parse_pairs(pieces: Seq<Seq<char>>) -> Seq<PairView>
    decreases pieces.len(),
{
    if pieces.len() == 0 {
        Seq::empty()
    } else {
        let parts = split_on(pieces[0], '=');
        let rest = parse_pairs(pieces.drop_first());
        if parts.len() == 2 {
            seq![PairView { name: parts[0], value: parts[1] }] + rest
        } else {
            rest
        }
    }
}

/// The request after its target token is read: the path is everything
/// before the first `?`; when splitting on `?` gives exactly two parts, the
/// second is a query string whose pairs are appended to the query
/// collection.
pub open spec fn apply_target(m: RequestModel, target: Seq<char>) -> RequestModel {
    let parts = split_on(target, '?');
    let m1 = RequestModel { path: parts[0], ..m };
    if parts.len() == 2 {
        RequestModel { query: m1.query + parse_pairs(split_on(parts[1], '&')), ..m1 }
    } else {
        m1
    }
}

/// The request after the request line is read. A line that does not split
/// on single spaces into exactly three tokens, or whose method token is
/// unrecognized, changes nothing; otherwise the method, the verbatim full
/// path, and the version are taken, and the target is read.
pub open spec fn apply_request_line(m: RequestModel, line: Seq<char>) -> RequestModel {
    let parts = split_on(line, ' ');
    if parts.len() != 3 {
        m
    } else {
        match method_of_text(parts[0]) {
            None => m,
            Some(meth) => apply_target(
                RequestModel { method: meth, full_path: parts[1], version: parts[2], ..m },
                parts[1],
            ),
        }
    }
}

/// The request after one header line is read. A line that does not split on
/// `": "` into exactly two parts changes nothing; so does one whose name is
/// already present under case-insensitive comparison (the first occurrence
/// wins); otherwise the pair is appended.
pub open spec fn apply_header_line(m: RequestModel, line: Seq<char>) -> RequestModel {
    let parts = split_colon_space(line);
    if parts.len() != 2 {
        m
    } else if first_match_ci(m.headers, parts[0]) is Some {
        m
    } else {
        RequestModel {
            headers: m.headers.push(PairView { name: parts[0], value: parts[1] }),
            ..m
        }
    }
}

/// The parser's running state over the lines after the request line.
pub struct ParseState {
    pub m: RequestModel,
    pub read_body: bool,
    pub body_lines: Seq<Seq<char>>,
}

/// One line's effect. A blank line opens the body when the method is POST
/// or PUT and is otherwise skipped; in the body every line is collected
/// verbatim; before the body a line is read as a header line.
pub open spec fn step_line(st: ParseState, line: Seq<char>) -> ParseState {
    if line.len() == 0 {
        if st.m.method == Method::POST || st.m.method == Method::PUT {
            ParseState { read_body: true, ..st }
        } else {
            st
        }
    } else if st.read_body {
        ParseState { body_lines: st.body_lines.push(line), ..st }
    } else {
        ParseState { m: apply_header_line(st.m, line), ..st }
    }
}

/// The lines' effects, applied in order.
pub open spec fn fold_lines(st: ParseState, lines: Seq<Seq<char>>) -> ParseState
    decreases lines.len(),
{
    if lines.len() == 0 {
        st
    } else {
        fold_lines(step_line(st, lines[0]), lines.drop_first())
    }
}

/// What parsing a raw request text does to a request in state `m`: the
/// request line, then the remaining lines, then the collected body lines
/// joined with `"\r\n"`, and `initialized` latched unconditionally. An
/// input without lines only clears the body and latches `initialized`.
pub open spec fn spec_parse(m: RequestModel, input: Seq<char>) -> RequestModel {
    let ls = crate::text::lines_of(input);
    if ls.len() == 0 {
        RequestModel { body: Seq::empty(), initialized: true, ..m }
    } else {
        let st0 = ParseState {
            m: apply_request_line(m, ls[0]),
            read_body: false,
            body_lines: Seq::empty(),
        };
        let st = fold_lines(st0, ls.subrange(1, ls.len() as int));
        RequestModel { body: join_with(st.body_lines, crlf()), initialized: true, ..st.m }
    }
}

/// Folding one more line at the end is one more step after folding the rest.
pub proof fn lemma_fold_lines_snoc(st: ParseState, lines: Seq<Seq<char>>, x: Seq<char>)
    ensures
        fold_lines(st, lines.push(x)) == step_line(fold_lines(st, lines), x),
    decreases lines.len(),
{
    if lines.len() == 0 {
        assert(lines.push(x)[0] == x);
        assert(lines.push(x).drop_first() =~= Seq::<Seq<char>>::empty());
        assert(fold_lines(st, lines.push(x)) == fold_lines(
            step_line(st, x),
            lines.push(x).drop_first(),
        ));
        assert(fold_lines(step_line(st, x), lines.push(x).drop_first()) == step_line(st, x));
    } else {
        assert(lines.push(x)[0] == lines[0]);
        assert(lines.push(x).drop_first() =~= lines.drop_first().push(x));
        lemma_fold_lines_snoc(step_line(st, lines[0]), lines.drop_first(), x);
    }
}

/// Folding a concatenation of line sequences is folding the first, then the
/// second from where the first left off.
pub proof fn lemma_fold_lines_app(st: ParseState, a: Seq<Seq<char>>, b: Seq<Seq<char>>)
    ensures
        fold_lines(st, a + b) == fold_lines(fold_lines(st, a), b),
    decreases a.len(),
{
    if a.len() == 0 {
        assert(a + b =~= b);
    } else {
        assert((a + b)[0] == a[0]);
        assert((a + b).drop_first() =~= a.drop_first() + b);
        lemma_fold_lines_app(step_line(st, a[0]), a.drop_first(), b);
    }
}

/// Reading one more query-string piece at the end appends its pair, when it
/// has one.
pub proof fn lemma_parse_pairs_snoc(pieces: Seq<Seq<char>>, x: Seq<char>)
    ensures
        parse_pairs(pieces.push(x)) == parse_pairs(pieces) + (if split_on(x, '=').len()
            == 2 {
            seq![
                PairView { name: split_on(x, '=')[0], value: split_on(x, '=')[1] },
            ]
        } else {
            Seq::<PairView>::empty()
        }),
    decreases pieces.len(),
{
    let tail = if split_on(x, '=').len() == 2 {
        seq![PairView { name: split_on(x, '=')[0], value: split_on(x, '=')[1] }]
    } else {
        Seq::<PairView>::empty()
    };
    if pieces.len() == 0 {
        assert(pieces.push(x)[0] == x);
        assert(pieces.push(x).drop_first() =~= Seq::<Seq<char>>::empty());
        assert(parse_pairs(pieces.push(x).drop_first()) =~= Seq::<PairView>::empty());
        assert(parse_pairs(pieces) + tail =~= tail);
        assert(parse_pairs(pieces.push(x)) =~= tail);
    } else {
        assert(pieces.push(x)[0] == pieces[0]);
        assert(pieces.push(x).drop_first() =~= pieces.drop_first().push(x));
        lemma_parse_pairs_snoc(pieces.drop_first(), x);
        assert(parse_pairs(pieces.push(x)) =~= parse_pairs(pieces) + tail);
    }
}

} // verus!

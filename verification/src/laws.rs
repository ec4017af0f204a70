//! The round-trip law: parsing the serialized text of a well-formed request
//! into a fresh request reproduces its method, path, version, headers,
//! query parameters and body.
//!
//! `rebuildable` states the well-formedness needed: the fields are free of
//! the characters that serve as delimiters in the serialized text, header
//! names are unique under case-insensitive comparison (a duplicate would be
//! dropped on reparse, first occurrence winning), and a non-empty body
//! belongs to a POST or PUT request (any other method never opens the body
//! section) and is a `"\r\n"` join of non-empty lines (blank body lines are
//! consumed as section separators, not collected). Every request populated
//! by a successful parse of such a text has this shape.
use vstd::prelude::*;

use crate::method::{
    lemma_method_round_trip, lemma_method_text_plain, method_of_text, method_text, Method,
};
use crate::model::{first_match_ci, lemma_first_match_ci, PairView, RequestModel};
use crate::parse::{
    apply_header_line, apply_request_line, apply_target, fold_lines, lemma_fold_lines_app,
    parse_pairs, spec_parse, step_line, ParseState,
};
use crate::serialize::{
    build_target, build_target_rec, build_text, header_line_text, header_lines_text,
    request_line_text,
};
use crate::text::{
    contains_char, contains_colon_space, crlf, join_with, lemma_contains_char_app,
    lemma_lines_crlf, lemma_lines_no_lf, lemma_lines_of_join, lemma_lines_whole,
    lemma_split_colon_space_pieces, lemma_split_colon_space_step,
    lemma_split_colon_space_whole, lemma_split_on_no_sep_in_pieces, lemma_split_on_nonempty,
    lemma_split_on_pieces_carry, lemma_split_on_step, lemma_split_on_whole, lines_of, lower,
    split_colon_space, split_on,
};

verus! {

/// A query name or value that serializes faithfully: free of the
/// characters that delimit the request line and the query string.
pub open spec fn query_text_ok(s: Seq<char>) -> bool {
    &&& !contains_char(s, '&')
    &&& !contains_char(s, '=')
    &&& !contains_char(s, '?')
    &&& !contains_char(s, ' ')
    &&& !contains_char(s, '\n')
}

/// A query parameter whose name and value serialize faithfully.
pub open spec fn query_piece_ok(p: PairView) -> bool {
    query_text_ok(p.name) && query_text_ok(p.value)
}

/// A header name or value that serializes faithfully: free of line breaks
/// and of the `": "` separator.
pub open spec fn header_text_ok(s: Seq<char>) -> bool {
    !contains_colon_space(s) && !contains_char(s, '\n')
}

/// A header whose name and value serialize faithfully.
pub open spec fn header_piece_ok(p: PairView) -> bool {
    header_text_ok(p.name) && header_text_ok(p.value)
}

/// A body that survives the round trip: empty, or carried by a POST or PUT
/// request and equal to the `"\r\n"` join of its non-empty lines.
pub open spec fn body_ok(body: Seq<char>, meth: Method) -> bool {
    ||| body.len() == 0
    ||| {
        &&& meth == Method::POST || meth == Method::PUT
        &&& join_with(lines_of(body), crlf()) == body
        &&& forall|i: int| 0 <= i < lines_of(body).len() ==> #[trigger] lines_of(
            body,
        )[i].len() > 0
    }
}

/// Headers as the parser keeps them: every name and value serializes
/// faithfully, and names are unique under case-insensitive comparison.
pub open spec fn headers_wf(hs: Seq<PairView>) -> bool {
    &&& forall|i: int| 0 <= i < hs.len() ==> header_piece_ok(#[trigger] hs[i])
    &&& forall|i: int, j: int|
        #![trigger hs[i], hs[j]]
        0 <= i < j < hs.len() ==> lower(hs[i].name) != lower(hs[j].name)
}

/// A request whose serialized text parses back to the same method, path,
/// version, headers, query parameters and body.
pub open spec fn rebuildable(m: RequestModel) -> bool {
    &&& !contains_char(m.path, '?')
    &&& !contains_char(m.path, ' ')
    &&& !contains_char(m.path, '\n')
    &&& !contains_char(m.version, ' ')
    &&& !contains_char(m.version, '\n')
    &&& forall|i: int| 0 <= i < m.query.len() ==> query_piece_ok(#[trigger] m.query[i])
    &&& headers_wf(m.headers)
    &&& body_ok(m.body, m.method)
}

/// The serialized `name=value` piece of one query parameter.
pub open spec fn pair_piece(p: PairView) -> Seq<char> {
    p.name + seq!['='] + p.value
}

/// The `&`-prefixed pieces of the query parameters after the first.
pub open spec fn amp_tail(q: Seq<PairView>) -> Seq<char>
    decreases q.len(),
{
    if q.len() == 0 {
        Seq::empty()
    } else {
        seq!['&'] + pair_piece(q[0]) + amp_tail(q.drop_first())
    }
}

/// The whole query string: the first piece, then the rest `&`-prefixed.
pub open spec fn query_string_text(q: Seq<PairView>) -> Seq<char> {
    if q.len() == 0 {
        Seq::empty()
    } else {
        pair_piece(q[0]) + amp_tail(q.drop_first())
    }
}

/// The serialized pieces, one per query parameter, in order.
pub open spec fn pair_pieces(q: Seq<PairView>) -> Seq<Seq<char>>
    decreases q.len(),
{
    if q.len() == 0 {
        Seq::empty()
    } else {
        seq![pair_piece(q[0])] + pair_pieces(q.drop_first())
    }
}

/// A faithful piece's serialization avoids the delimiters around it.
proof fn lemma_pair_piece_plain(p: PairView)
    requires
        query_piece_ok(p),
    ensures
        !contains_char(pair_piece(p), '&'),
        !contains_char(pair_piece(p), '?'),
        !contains_char(pair_piece(p), ' '),
        !contains_char(pair_piece(p), '\n'),
{
    assert(!contains_char(seq!['='], '&'));
    assert(!contains_char(seq!['='], '?'));
    assert(!contains_char(seq!['='], ' '));
    assert(!contains_char(seq!['='], '\n'));
    lemma_contains_char_app(p.name, seq!['='], '&');
    lemma_contains_char_app(p.name + seq!['='], p.value, '&');
    lemma_contains_char_app(p.name, seq!['='], '?');
    lemma_contains_char_app(p.name + seq!['='], p.value, '?');
    lemma_contains_char_app(p.name, seq!['='], ' ');
    lemma_contains_char_app(p.name + seq!['='], p.value, ' ');
    lemma_contains_char_app(p.name, seq!['='], '\n');
    lemma_contains_char_app(p.name + seq!['='], p.value, '\n');
}

/// The tail of the query string avoids the request line's delimiters.
proof fn lemma_amp_tail_plain(q: Seq<PairView>)
    requires
        forall|i: int| 0 <= i < q.len() ==> query_piece_ok(#[trigger] q[i]),
    ensures
        !contains_char(amp_tail(q), '?'),
        !contains_char(amp_tail(q), ' '),
        !contains_char(amp_tail(q), '\n'),
    decreases q.len(),
{
    if q.len() > 0 {
        lemma_pair_piece_plain(q[0]);
        assert(forall|i: int|
            0 <= i < q.drop_first().len() ==> q.drop_first()[i] == q[i + 1]);
        lemma_amp_tail_plain(q.drop_first());
        assert(!contains_char(seq!['&'], '?'));
        assert(!contains_char(seq!['&'], ' '));
        assert(!contains_char(seq!['&'], '\n'));
        lemma_contains_char_app(seq!['&'], pair_piece(q[0]), '?');
        lemma_contains_char_app(seq!['&'] + pair_piece(q[0]), amp_tail(q.drop_first()), '?');
        lemma_contains_char_app(seq!['&'], pair_piece(q[0]), ' ');
        lemma_contains_char_app(seq!['&'] + pair_piece(q[0]), amp_tail(q.drop_first()), ' ');
        lemma_contains_char_app(seq!['&'], pair_piece(q[0]), '\n');
        lemma_contains_char_app(seq!['&'] + pair_piece(q[0]), amp_tail(q.drop_first()), '\n');
        assert(amp_tail(q) =~= (seq!['&'] + pair_piece(q[0])) + amp_tail(q.drop_first()));
    }
}

/// The whole query string avoids the request line's delimiters.
proof fn lemma_query_string_plain(q: Seq<PairView>)
    requires
        forall|i: int| 0 <= i < q.len() ==> query_piece_ok(#[trigger] q[i]),
    ensures
        !contains_char(query_string_text(q), '?'),
        !contains_char(query_string_text(q), ' '),
        !contains_char(query_string_text(q), '\n'),
{
    if q.len() > 0 {
        lemma_pair_piece_plain(q[0]);
        assert(forall|i: int|
            0 <= i < q.drop_first().len() ==> q.drop_first()[i] == q[i + 1]);
        lemma_amp_tail_plain(q.drop_first());
        lemma_contains_char_app(pair_piece(q[0]), amp_tail(q.drop_first()), '?');
        lemma_contains_char_app(pair_piece(q[0]), amp_tail(q.drop_first()), ' ');
        lemma_contains_char_app(pair_piece(q[0]), amp_tail(q.drop_first()), '\n');
    }
}

/// Once the accumulated target contains a `?`, every remaining parameter
/// is appended with `&`.
proof fn lemma_build_target_amp(acc: Seq<char>, q: Seq<PairView>)
    requires
        contains_char(acc, '?'),
    ensures
        build_target_rec(acc, q) == acc + amp_tail(q),
    decreases q.len(),
{
    if q.len() == 0 {
        assert(acc + amp_tail(q) =~= acc);
    } else {
        let acc1 = acc + seq!['&'] + q[0].name + seq!['='] + q[0].value;
        assert(contains_char(acc1, '?')) by {
            let i = choose|i: int| 0 <= i < acc.len() && acc[i] == '?';
            assert(acc1[i] == '?');
        }
        lemma_build_target_amp(acc1, q.drop_first());
        assert(acc1 =~= acc + (seq!['&'] + pair_piece(q[0])));
        assert(acc1 + amp_tail(q.drop_first()) =~= acc + amp_tail(q));
    }
}

/// The built target of a `?`-free path: the path alone without parameters,
/// else the path, one `?`, and the query string.
proof fn lemma_build_target_shape(path: Seq<char>, q: Seq<PairView>)
    requires
        !contains_char(path, '?'),
    ensures
        build_target(path, q) == if q.len() == 0 {
            path
        } else {
            path + seq!['?'] + query_string_text(q)
        },
{
    if q.len() > 0 {
        let acc1 = path + seq!['?'] + q[0].name + seq!['='] + q[0].value;
        assert(contains_char(acc1, '?')) by {
            assert(acc1[path.len() as int] == '?');
        }
        lemma_build_target_amp(acc1, q.drop_first());
        assert(acc1 =~= (path + seq!['?']) + pair_piece(q[0]));
        assert(acc1 + amp_tail(q.drop_first()) =~= path + seq!['?'] + query_string_text(q));
    }
}

/// Splitting the query string on `&` recovers the serialized pieces.
proof fn lemma_split_query_string(q: Seq<PairView>)
    requires
        q.len() > 0,
        forall|i: int| 0 <= i < q.len() ==> query_piece_ok(#[trigger] q[i]),
    ensures
        split_on(query_string_text(q), '&') == pair_pieces(q),
    decreases q.len(),
{
    lemma_pair_piece_plain(q[0]);
    assert(forall|i: int| 0 <= i < q.drop_first().len() ==> q.drop_first()[i] == q[i + 1]);
    if q.len() == 1 {
        assert(query_string_text(q) =~= pair_piece(q[0]));
        lemma_split_on_whole(pair_piece(q[0]), '&');
        assert(pair_pieces(q.drop_first()) =~~= Seq::<Seq<char>>::empty());
        assert(pair_pieces(q) =~~= seq![pair_piece(q[0])]);
    } else {
        let rest = q.drop_first();
        assert(amp_tail(rest) =~= seq!['&'] + pair_piece(rest[0]) + amp_tail(rest.drop_first()));
        assert(query_string_text(q) =~= pair_piece(q[0]) + seq!['&'] + query_string_text(rest));
        lemma_split_on_step(pair_piece(q[0]), query_string_text(rest), '&');
        lemma_split_query_string(rest);
        assert(split_on(query_string_text(q), '&') =~~= seq![pair_piece(q[0])] + pair_pieces(
            rest,
        ));
    }
}

/// Reading the serialized pieces back yields the parameters themselves.
proof fn lemma_parse_pair_pieces(q: Seq<PairView>)
    requires
        forall|i: int| 0 <= i < q.len() ==> query_piece_ok(#[trigger] q[i]),
    ensures
        parse_pairs(pair_pieces(q)) == q,
    decreases q.len(),
{
    if q.len() > 0 {
        let piece = pair_piece(q[0]);
        lemma_split_on_step(q[0].name, q[0].value, '=');
        lemma_split_on_whole(q[0].value, '=');
        assert(split_on(piece, '=') =~~= seq![q[0].name, q[0].value]);
        assert(forall|i: int|
            0 <= i < q.drop_first().len() ==> q.drop_first()[i] == q[i + 1]);
        lemma_parse_pair_pieces(q.drop_first());
        assert(pair_pieces(q)[0] == piece);
        assert(pair_pieces(q).drop_first() =~~= pair_pieces(q.drop_first()));
        assert(PairView { name: q[0].name, value: q[0].value } == q[0]);
        assert(parse_pairs(pair_pieces(q)) =~= seq![q[0]] + q.drop_first());
        assert(seq![q[0]] + q.drop_first() =~= q);
    }
}

/// A faithful header's line splits on `": "` back into its name and value,
/// is never empty, and contains no line feed.
proof fn lemma_header_line_split(p: PairView)
    requires
        header_piece_ok(p),
    ensures
        split_colon_space(header_line_text(p)) == seq![p.name, p.value],
        header_line_text(p).len() > 0,
        !contains_char(header_line_text(p), '\n'),
{
    lemma_split_colon_space_step(p.name, p.value);
    lemma_split_colon_space_whole(p.value);
    assert(split_colon_space(header_line_text(p)) =~~= seq![p.name, p.value]);
    assert(!contains_char(seq![':', ' '], '\n'));
    lemma_contains_char_app(p.name, seq![':', ' '], '\n');
    lemma_contains_char_app(p.name + seq![':', ' '], p.value, '\n');
    assert(header_line_text(p) =~= (p.name + seq![':', ' ']) + p.value);
}

/// Folding faithfully serialized header lines, none of whose names is
/// already present, appends exactly those headers in order.
proof fn lemma_fold_header_lines(st: ParseState, hs: Seq<PairView>)
    requires
        !st.read_body,
        forall|i: int| 0 <= i < hs.len() ==> header_piece_ok(#[trigger] hs[i]),
        forall|i: int, j: int|
            #![trigger hs[i], hs[j]]
            0 <= i < j < hs.len() ==> lower(hs[i].name) != lower(hs[j].name),
        forall|i: int, j: int|
            #![trigger hs[i], st.m.headers[j]]
            0 <= i < hs.len() && 0 <= j < st.m.headers.len() ==> lower(st.m.headers[j].name)
                != lower(hs[i].name),
    ensures
        fold_lines(st, header_lines_text(hs)) == (ParseState {
            m: RequestModel { headers: st.m.headers + hs, ..st.m },
            ..st
        }),
    decreases hs.len(),
{
    if hs.len() == 0 {
        assert(header_lines_text(hs) =~~= Seq::<Seq<char>>::empty());
        assert(st.m.headers + hs =~= st.m.headers);
        assert(RequestModel { headers: st.m.headers + hs, ..st.m } == st.m);
    } else {
        let line = header_line_text(hs[0]);
        assert(header_lines_text(hs)[0] == line);
        lemma_header_line_split(hs[0]);
        lemma_first_match_ci(st.m.headers, hs[0].name);
        assert(first_match_ci(st.m.headers, hs[0].name) is None) by {
            match first_match_ci(st.m.headers, hs[0].name) {
                Some(k) => {
                    assert(lower(st.m.headers[k].name) != lower(hs[0].name));
                    assert(false);
                },
                None => {},
            }
        }
        let m1 = RequestModel { headers: st.m.headers.push(hs[0]), ..st.m };
        assert(apply_header_line(st.m, line) == m1);
        let st1 = ParseState { m: m1, ..st };
        assert(step_line(st, line) == st1);
        let rest = hs.drop_first();
        assert(forall|i: int| 0 <= i < rest.len() ==> rest[i] == hs[i + 1]);
        assert(forall|i: int, j: int|
            #![trigger rest[i], m1.headers[j]]
            0 <= i < rest.len() && 0 <= j < m1.headers.len() ==> lower(m1.headers[j].name)
                != lower(rest[i].name)) by {
            assert(forall|j: int|
                0 <= j < m1.headers.len() ==> m1.headers[j] == if j < st.m.headers.len() {
                    st.m.headers[j]
                } else {
                    hs[0]
                });
        }
        lemma_fold_header_lines(st1, rest);
        assert(header_lines_text(hs).drop_first() =~~= header_lines_text(rest));
        assert(m1.headers + rest =~= st.m.headers + hs);
    }
}

/// Folding non-empty lines in the body section collects them all.
proof fn lemma_fold_body_lines(st: ParseState, bls: Seq<Seq<char>>)
    requires
        st.read_body,
        forall|i: int| 0 <= i < bls.len() ==> #[trigger] bls[i].len() > 0,
    ensures
        fold_lines(st, bls) == (ParseState { body_lines: st.body_lines + bls, ..st }),
    decreases bls.len(),
{
    if bls.len() == 0 {
        assert(st.body_lines + bls =~= st.body_lines);
    } else {
        let st1 = ParseState { body_lines: st.body_lines.push(bls[0]), ..st };
        assert(step_line(st, bls[0]) == st1);
        assert(forall|i: int|
            0 <= i < bls.drop_first().len() ==> bls.drop_first()[i] == bls[i + 1]);
        lemma_fold_body_lines(st1, bls.drop_first());
        assert(st1.body_lines + bls.drop_first() =~= st.body_lines + bls);
    }
}

/// The lines of line-feed-free pieces joined with `"\r\n"`, followed by one
/// more `"\r\n"` and a tail, are the pieces themselves and then the tail's
/// lines.
proof fn lemma_lines_of_joined(parts: Seq<Seq<char>>, tail: Seq<char>)
    requires
        parts.len() > 0,
        forall|i: int| 0 <= i < parts.len() ==> !contains_char(#[trigger] parts[i], '\n'),
    ensures
        lines_of(join_with(parts, crlf()) + crlf() + tail) == parts + lines_of(tail),
    decreases parts.len(),
{
    if parts.len() == 1 {
        assert(join_with(parts, crlf()) + crlf() + tail =~= parts[0] + crlf() + tail);
        lemma_lines_crlf(parts[0], tail);
        assert(seq![parts[0]] + lines_of(tail) =~~= parts + lines_of(tail));
    } else {
        let rest = parts.drop_first();
        assert(forall|i: int| 0 <= i < rest.len() ==> rest[i] == parts[i + 1]);
        assert(join_with(parts, crlf()) + crlf() + tail =~= parts[0] + crlf() + (join_with(
            rest,
            crlf(),
        ) + crlf() + tail));
        lemma_lines_crlf(parts[0], join_with(rest, crlf()) + crlf() + tail);
        lemma_lines_of_joined(rest, tail);
        assert(seq![parts[0]] + (rest + lines_of(tail)) =~~= parts + lines_of(tail));
    }
}

/// Parsing the serialized text of a well-formed request into a fresh
/// request reproduces its method, path, version, headers, query parameters
/// and body, and leaves the request initialized. The `full_path` snapshot
/// is exempt: building never reconstructs it.
pub proof fn lemma_parse_build_round_trip(r: RequestModel)
    requires
        rebuildable(r),
    ensures
        spec_parse(RequestModel::init(), build_text(r)).method == r.method,
        spec_parse(RequestModel::init(), build_text(r)).path == r.path,
        spec_parse(RequestModel::init(), build_text(r)).version == r.version,
        spec_parse(RequestModel::init(), build_text(r)).headers == r.headers,
        spec_parse(RequestModel::init(), build_text(r)).query == r.query,
        spec_parse(RequestModel::init(), build_text(r)).body == r.body,
        spec_parse(RequestModel::init(), build_text(r)).initialized,
{
    let init = RequestModel::init();
    let text = build_text(r);
    let reqline = request_line_text(r);
    let target = build_target(r.path, r.query);
    let head = seq![reqline] + header_lines_text(r.headers);

    // the serialized target and its freedom from delimiters
    lemma_query_string_plain(r.query);
    lemma_build_target_shape(r.path, r.query);
    assert(!contains_char(target, ' ') && !contains_char(target, '\n')) by {
        if r.query.len() == 0 {
        } else {
            assert(!contains_char(seq!['?'], ' '));
            assert(!contains_char(seq!['?'], '\n'));
            lemma_contains_char_app(r.path, seq!['?'], ' ');
            lemma_contains_char_app(r.path + seq!['?'], query_string_text(r.query), ' ');
            lemma_contains_char_app(r.path, seq!['?'], '\n');
            lemma_contains_char_app(r.path + seq!['?'], query_string_text(r.query), '\n');
            assert(target =~= (r.path + seq!['?']) + query_string_text(r.query));
        }
    }

    // the request line splits into its three tokens
    lemma_method_text_plain(r.method);
    assert(reqline =~= method_text(r.method) + seq![' '] + (target + seq![' '] + r.version));
    lemma_split_on_step(method_text(r.method), target + seq![' '] + r.version, ' ');
    lemma_split_on_step(target, r.version, ' ');
    lemma_split_on_whole(r.version, ' ');
    let parts = split_on(reqline, ' ');
    assert(parts =~~= seq![method_text(r.method), target, r.version]);
    assert(!contains_char(reqline, '\n')) by {
        assert(!contains_char(seq![' '], '\n'));
        lemma_contains_char_app(method_text(r.method), seq![' '], '\n');
        lemma_contains_char_app(
            method_text(r.method) + seq![' '],
            target + seq![' '] + r.version,
            '\n',
        );
        lemma_contains_char_app(target, seq![' '], '\n');
        lemma_contains_char_app(target + seq![' '], r.version, '\n');
    }

    // reading the request line back
    lemma_method_round_trip(r.method);
    let m1 = apply_target(
        RequestModel { method: r.method, full_path: target, version: r.version, ..init },
        target,
    );
    assert(apply_request_line(init, reqline) == m1);
    if r.query.len() == 0 {
        lemma_split_on_whole(target, '?');
        assert(m1.path == r.path && m1.query =~= r.query);
    } else {
        let qs = query_string_text(r.query);
        assert(target =~= r.path + seq!['?'] + qs);
        lemma_split_on_step(r.path, qs, '?');
        lemma_split_on_whole(qs, '?');
        assert(split_on(target, '?') =~~= seq![r.path, qs]);
        lemma_split_query_string(r.query);
        lemma_parse_pair_pieces(r.query);
        assert(m1.path == r.path);
        assert(m1.query =~= Seq::<PairView>::empty() + r.query);
        assert(m1.query =~= r.query);
    }
    assert(m1.method == r.method && m1.version == r.version && m1.headers =~= Seq::<
        PairView,
    >::empty());

    // the lines of the whole text
    assert(forall|i: int| 0 <= i < head.len() ==> !contains_char(#[trigger] head[i], '\n'))
        by {
        assert(head[0] == reqline);
        assert forall|i: int| 1 <= i < head.len() implies !contains_char(head[i], '\n') by {
            assert(head[i] == header_lines_text(r.headers)[i - 1]);
            lemma_header_line_split(r.headers[i - 1]);
        }
    }
    assert(text =~= join_with(head, crlf()) + crlf() + (crlf() + r.body));
    lemma_lines_of_joined(head, crlf() + r.body);
    assert(crlf() + r.body =~= Seq::<char>::empty() + crlf() + r.body);
    lemma_lines_crlf(Seq::empty(), r.body);
    let ls = lines_of(text);
    assert(ls =~~= seq![reqline] + header_lines_text(r.headers) + seq![Seq::<char>::empty()]
        + lines_of(r.body));
    assert(ls.len() > 0 && ls[0] == reqline);

    // folding the remaining lines
    let st0 = ParseState { m: m1, read_body: false, body_lines: Seq::empty() };
    let rest = ls.subrange(1, ls.len() as int);
    assert(rest =~~= header_lines_text(r.headers) + (seq![Seq::<char>::empty()] + lines_of(
        r.body,
    )));
    lemma_fold_lines_app(
        st0,
        header_lines_text(r.headers),
        seq![Seq::<char>::empty()] + lines_of(r.body),
    );
    lemma_fold_header_lines(st0, r.headers);
    let stA = fold_lines(st0, header_lines_text(r.headers));
    assert(stA.m.headers =~= r.headers);
    assert(stA.m == (RequestModel { headers: stA.m.headers, ..m1 }));
    lemma_fold_lines_app(stA, seq![Seq::<char>::empty()], lines_of(r.body));
    let stB = fold_lines(stA, seq![Seq::<char>::empty()]);
    let blank: Seq<char> = Seq::empty();
    assert(seq![blank][0] == blank);
    assert(seq![blank].drop_first() =~~= Seq::<Seq<char>>::empty());
    assert(fold_lines(step_line(stA, blank), seq![blank].drop_first()) == step_line(
        stA,
        blank,
    ));
    assert(stB == step_line(stA, blank));
    let stC = fold_lines(stB, lines_of(r.body));
    if r.body.len() == 0 {
        lemma_lines_whole(r.body);
        assert(lines_of(r.body) =~~= Seq::<Seq<char>>::empty());
        assert(stC == stB);
        assert(stC.body_lines =~= Seq::<Seq<char>>::empty());
        assert(join_with(stC.body_lines, crlf()) =~= r.body);
    } else {
        assert(r.method == Method::POST || r.method == Method::PUT);
        assert(stB.read_body);
        lemma_fold_body_lines(stB, lines_of(r.body));
        assert(stC.body_lines =~= lines_of(r.body));
        assert(join_with(stC.body_lines, crlf()) == r.body);
    }
    assert(fold_lines(st0, rest) == stC);
    assert(stC.m == stA.m);

    // the parsed request
    let p = spec_parse(init, text);
    assert(p == (RequestModel {
        body: join_with(stC.body_lines, crlf()),
        initialized: true,
        ..stC.m
    }));
}

/// Every pair read from pieces free of the request line's and query
/// string's delimiters is itself free of them.
proof fn lemma_parse_pairs_wf(pieces: Seq<Seq<char>>)
    requires
        forall|i: int|
            0 <= i < pieces.len() ==> !contains_char(#[trigger] pieces[i], '&')
                && !contains_char(pieces[i], '?') && !contains_char(pieces[i], ' ')
                && !contains_char(pieces[i], '\n'),
    ensures
        forall|i: int|
            0 <= i < parse_pairs(pieces).len() ==> query_piece_ok(
                #[trigger] parse_pairs(pieces)[i],
            ),
    decreases pieces.len(),
{
    if pieces.len() > 0 {
        let parts = split_on(pieces[0], '=');
        lemma_split_on_no_sep_in_pieces(pieces[0], '=');
        lemma_split_on_pieces_carry(pieces[0], '=', '&');
        lemma_split_on_pieces_carry(pieces[0], '=', '?');
        lemma_split_on_pieces_carry(pieces[0], '=', ' ');
        lemma_split_on_pieces_carry(pieces[0], '=', '\n');
        assert(forall|i: int|
            0 <= i < pieces.drop_first().len() ==> pieces.drop_first()[i] == pieces[i + 1]);
        lemma_parse_pairs_wf(pieces.drop_first());
        let rest = parse_pairs(pieces.drop_first());
        if parts.len() == 2 {
            assert(query_piece_ok(PairView { name: parts[0], value: parts[1] }));
            assert(forall|i: int|
                1 <= i < parse_pairs(pieces).len() ==> parse_pairs(pieces)[i] == rest[i
                    - 1]);
        } else {
            assert(parse_pairs(pieces) == rest);
        }
    }
}

/// Reading one header line keeps the headers well formed and touches no
/// other field.
proof fn lemma_apply_header_line_wf(m: RequestModel, line: Seq<char>)
    requires
        headers_wf(m.headers),
        !contains_char(line, '\n'),
    ensures
        headers_wf(apply_header_line(m, line).headers),
        apply_header_line(m, line) == (RequestModel {
            headers: apply_header_line(m, line).headers,
            ..m
        }),
{
    let parts = split_colon_space(line);
    lemma_split_colon_space_pieces(line, '\n');
    if parts.len() == 2 && !(first_match_ci(m.headers, parts[0]) is Some) {
        lemma_first_match_ci(m.headers, parts[0]);
        let hs2 = m.headers.push(PairView { name: parts[0], value: parts[1] });
        assert(headers_wf(hs2)) by {
            assert(forall|i: int|
                0 <= i < m.headers.len() ==> hs2[i] == m.headers[i]);
            assert(hs2[hs2.len() - 1] == (PairView { name: parts[0], value: parts[1] }));
            assert(header_piece_ok(hs2[hs2.len() - 1]));
            assert forall|i: int, j: int|
                #![trigger hs2[i], hs2[j]]
                0 <= i < j < hs2.len() implies lower(hs2[i].name) != lower(hs2[j].name) by {
                if j < hs2.len() - 1 {
                    assert(hs2[i] == m.headers[i] && hs2[j] == m.headers[j]);
                } else {
                    assert(hs2[i] == m.headers[i]);
                    assert(lower(m.headers[i].name) != lower(parts[0]));
                }
            }
        }
    }
}

/// Folding lines free of line feeds keeps the headers well formed, keeps
/// the collected body lines non-empty and free of line feeds, touches no
/// field beyond the headers, and collects a body line only for a POST or
/// PUT request.
proof fn lemma_fold_wf(st: ParseState, lines: Seq<Seq<char>>)
    requires
        headers_wf(st.m.headers),
        st.read_body ==> st.m.method == Method::POST || st.m.method == Method::PUT,
        forall|i: int|
            0 <= i < st.body_lines.len() ==> (#[trigger] st.body_lines[i]).len() > 0
                && !contains_char(st.body_lines[i], '\n'),
        forall|i: int|
            0 <= i < lines.len() ==> !contains_char(#[trigger] lines[i], '\n'),
    ensures
        headers_wf(fold_lines(st, lines).m.headers),
        fold_lines(st, lines).m == (RequestModel {
            headers: fold_lines(st, lines).m.headers,
            ..st.m
        }),
        forall|i: int|
            0 <= i < fold_lines(st, lines).body_lines.len() ==> (#[trigger] fold_lines(
                st,
                lines,
            ).body_lines[i]).len() > 0 && !contains_char(
                fold_lines(st, lines).body_lines[i],
                '\n',
            ),
        fold_lines(st, lines).body_lines.len() > 0 ==> st.body_lines.len() > 0
            || st.m.method == Method::POST || st.m.method == Method::PUT,
    decreases lines.len(),
{
    if lines.len() > 0 {
        let line = lines[0];
        let st1 = step_line(st, line);
        assert(forall|i: int|
            0 <= i < lines.drop_first().len() ==> lines.drop_first()[i] == lines[i + 1]);
        if line.len() == 0 {
            lemma_fold_wf(st1, lines.drop_first());
        } else if st.read_body {
            assert(forall|i: int|
                0 <= i < st1.body_lines.len() ==> st1.body_lines[i]
                    == if i < st.body_lines.len() {
                    st.body_lines[i]
                } else {
                    line
                });
            lemma_fold_wf(st1, lines.drop_first());
        } else {
            lemma_apply_header_line_wf(st.m, line);
            lemma_fold_wf(st1, lines.drop_first());
        }
    }
}

/// Parsing any text into a fresh request yields a request that serializes
/// faithfully: together with `lemma_parse_build_round_trip`, parsing,
/// building and parsing again reproduces the same method, path, version,
/// headers, query parameters and body.
pub proof fn lemma_parsed_is_rebuildable(input: Seq<char>)
    ensures
        rebuildable(spec_parse(RequestModel::init(), input)),
{
    let init = RequestModel::init();
    let p = spec_parse(init, input);
    assert(!contains_char("HTTP/1.1"@, ' ') && !contains_char("HTTP/1.1"@, '\n')) by {
        reveal_strlit("HTTP/1.1");
        if contains_char("HTTP/1.1"@, ' ') {
            let j = choose|j: int|
                0 <= j < "HTTP/1.1"@.len() && "HTTP/1.1"@[j] == ' ';
            assert(false);
        }
        if contains_char("HTTP/1.1"@, '\n') {
            let j = choose|j: int|
                0 <= j < "HTTP/1.1"@.len() && "HTTP/1.1"@[j] == '\n';
            assert(false);
        }
    }
    let ls = lines_of(input);
    lemma_lines_no_lf(input);
    if ls.len() == 0 {
        assert(rebuildable(p));
    } else {
        let m1 = apply_request_line(init, ls[0]);
        let parts = split_on(ls[0], ' ');
        lemma_split_on_no_sep_in_pieces(ls[0], ' ');
        lemma_split_on_pieces_carry(ls[0], ' ', '\n');
        if parts.len() == 3 && method_of_text(parts[0]) is Some {
            let target = parts[1];
            let tparts = split_on(target, '?');
            lemma_split_on_no_sep_in_pieces(target, '?');
            lemma_split_on_pieces_carry(target, '?', ' ');
            lemma_split_on_pieces_carry(target, '?', '\n');
            lemma_split_on_nonempty(target, '?');
            if tparts.len() == 2 {
                let qpieces = split_on(tparts[1], '&');
                lemma_split_on_no_sep_in_pieces(tparts[1], '&');
                lemma_split_on_pieces_carry(tparts[1], '&', '?');
                lemma_split_on_pieces_carry(tparts[1], '&', ' ');
                lemma_split_on_pieces_carry(tparts[1], '&', '\n');
                lemma_parse_pairs_wf(qpieces);
                assert(m1.query =~= parse_pairs(qpieces));
            }
        }
        assert(!contains_char(m1.path, '?') && !contains_char(m1.path, ' ')
            && !contains_char(m1.path, '\n'));
        assert(!contains_char(m1.version, ' ') && !contains_char(m1.version, '\n'));
        assert(forall|i: int|
            0 <= i < m1.query.len() ==> query_piece_ok(#[trigger] m1.query[i]));
        assert(m1.headers =~= Seq::<PairView>::empty());
        let st0 = ParseState { m: m1, read_body: false, body_lines: Seq::empty() };
        let rest = ls.subrange(1, ls.len() as int);
        assert(forall|i: int|
            0 <= i < rest.len() ==> !contains_char(#[trigger] rest[i], '\n')) by {
            assert(forall|i: int| 0 <= i < rest.len() ==> rest[i] == ls[i + 1]);
        }
        lemma_fold_wf(st0, rest);
        let st = fold_lines(st0, rest);
        assert(body_ok(p.body, p.method)) by {
            if st.body_lines.len() > 0 {
                assert(p.method == Method::POST || p.method == Method::PUT);
                lemma_lines_of_join(st.body_lines);
                assert(lines_of(p.body) == st.body_lines);
            }
        }
        assert(rebuildable(p));
    }
}

} // verus!

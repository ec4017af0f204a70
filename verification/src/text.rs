//! Character and string utilities shared by the request parser and builder:
//! ASCII case folding, substring search, splitting and joining, all specified
//! over `Seq<char>` views.
use vstd::prelude::*;

verus! {

/// ASCII lowercase of one character: `'A'..='Z'` map to `'a'..='z'`, all
/// other characters are unchanged.
pub open spec fn lower_char(c: char) -> char {
    if 'A' <= c && c <= 'Z' {
        (((c as u32) + 32) as char)
    } else {
        c
    }
}

/// ASCII lowercase of a character sequence, applied pointwise.
pub open spec fn lower(s: Seq<char>) -> Seq<char> {
    s.map_values(|c: char| lower_char(c))
}

/// Whether the character `sep` occurs anywhere in `s`.
pub open spec fn contains_char(s: Seq<char>, sep: char) -> bool {
    exists|i: int| 0 <= i < s.len() && s[i] == sep
}

/// Whether the two-character separator `": "` occurs at position `i` of `s`.
pub open spec fn colon_space_at(s: Seq<char>, i: int) -> bool {
    0 <= i && i + 1 < s.len() && s[i] == ':' && s[i + 1] == ' '
}

/// Whether the separator `": "` occurs anywhere in `s`.
pub open spec fn contains_colon_space(s: Seq<char>) -> bool {
    exists|i: int| colon_space_at(s, i)
}

/// Executable ASCII lowercase of one character.
pub fn lower_char_exec(c: char) -> (r: char)
    ensures
        r == lower_char(c),
{
    if 'A' <= c && c <= 'Z' {
        let u: u32 = (c as u32) + 32;
        assert(u <= 122);
        ((u as u8) as char)
    } else {
        c
    }
}

/// Exact equality of two string slices, decided character by character.
pub fn str_eq(a: &str, b: &str) -> (r: bool)
    ensures
        r == (a@ == b@),
{
    let an = a.unicode_len();
    let bn = b.unicode_len();
    if an != bn {
        assert(a@ != b@);
        return false;
    }
    let mut i: usize = 0;
    while i < an
        invariant
            i <= an,
            forall|j: int| 0 <= j < i ==> a@[j] == b@[j],
        decreases an - i,
    {
        if a.get_char(i) != b.get_char(i) {
            return false;
        }
        i = i + 1;
    }
    assert(a@ =~= b@);
    true
}

/// Case-insensitive (ASCII) equality of two string slices.
pub fn str_eq_ignore_case(a: &str, b: &str) -> (r: bool)
    ensures
        r == (lower(a@) == lower(b@)),
{
    let an = a.unicode_len();
    let bn = b.unicode_len();
    if an != bn {
        assert(lower(a@).len() != lower(b@).len());
        return false;
    }
    let mut i: usize = 0;
    while i < an
        invariant
            i <= an,
            forall|j: int| 0 <= j < i ==> lower_char(a@[j]) == lower_char(b@[j]),
        decreases an - i,
    {
        if lower_char_exec(a.get_char(i)) != lower_char_exec(b.get_char(i)) {
            assert(lower(a@)[i as int] != lower(b@)[i as int]);
            return false;
        }
        i = i + 1;
    }
    assert(lower(a@) =~= lower(b@));
    true
}

/// Index of the first occurrence of the character `sep` in `s`, if any.
pub fn find_char(s: &str, sep: char) -> (r: Option<usize>)
    ensures
        match r {
            Some(i) => i < s@.len() && s@[i as int] == sep && forall|j: int|
                0 <= j < i ==> s@[j] != sep,
            None => !contains_char(s@, sep),
        },
{
    let n = s.unicode_len();
    let mut i: usize = 0;
    while i < n
        invariant
            i <= n,
            forall|j: int| 0 <= j < i ==> s@[j] != sep,
        decreases n - i,
    {
        if s.get_char(i) == sep {
            return Some(i);
        }
        i = i + 1;
    }
    None
}

/// Whether the character `sep` occurs in `s` (executable form).
pub fn contains_char_exec(s: &str, sep: char) -> (r: bool)
    ensures
        r == contains_char(s@, sep),
{
    match find_char(s, sep) {
        Some(i) => {
            assert(contains_char(s@, sep));
            true
        },
        None => false,
    }
}

/// Index of the first occurrence of the separator `": "` in `s`, if any.
pub fn find_colon_space(s: &str) -> (r: Option<usize>)
    ensures
        match r {
            Some(i) => colon_space_at(s@, i as int) && forall|j: int|
                0 <= j < i ==> !colon_space_at(s@, j),
            None => !contains_colon_space(s@),
        },
{
    let n = s.unicode_len();
    if n < 2 {
        assert(forall|j: int| !colon_space_at(s@, j));
        return None;
    }
    let mut i: usize = 0;
    while i + 1 < n
        invariant
            i + 1 <= n,
            forall|j: int| 0 <= j < i ==> !colon_space_at(s@, j),
        decreases n - i,
    {
        if s.get_char(i) == ':' && s.get_char(i + 1) == ' ' {
            return Some(i);
        }
        i = i + 1;
    }
    assert(forall|j: int| 0 <= j ==> !colon_space_at(s@, j));
    None
}

/// The pieces of `s` between occurrences of the character `sep`, in order.
/// A string without `sep` is a single piece; every occurrence of `sep`
/// contributes a boundary, so the result always has one more piece than
/// there are occurrences.
pub open spec fn split_on(s: Seq<char>, sep: char) -> Seq<Seq<char>>
    decreases s.len(),
{
    if s.len() == 0 {
        seq![Seq::<char>::empty()]
    } else if s[0] == sep {
        seq![Seq::<char>::empty()] + split_on(s.drop_first(), sep)
    } else {
        let rest = split_on(s.drop_first(), sep);
        seq![seq![s[0]] + rest[0]] + rest.drop_first()
    }
}

/// The pieces of `s` between non-overlapping occurrences of `": "`, found
/// left to right, in order.
pub open spec fn split_colon_space(s: Seq<char>) -> Seq<Seq<char>>
    decreases s.len(),
{
    if s.len() < 2 {
        seq![s]
    } else if s[0] == ':' && s[1] == ' ' {
        seq![Seq::<char>::empty()] + split_colon_space(s.skip(2))
    } else {
        let rest = split_colon_space(s.drop_first());
        seq![seq![s[0]] + rest[0]] + rest.drop_first()
    }
}

/// The pieces joined back together with `sep` between consecutive pieces.
pub open spec fn join_with(parts: Seq<Seq<char>>, sep: Seq<char>) -> Seq<char>
    decreases parts.len(),
{
    if parts.len() == 0 {
        Seq::<char>::empty()
    } else if parts.len() == 1 {
        parts[0]
    } else {
        parts[0] + sep + join_with(parts.drop_first(), sep)
    }
}

/// The carriage-return/line-feed pair used between lines of a request.
pub open spec fn crlf() -> Seq<char> {
    seq!['\r', '\n']
}

/// `s` without a single trailing carriage return, if it has one.
pub open spec fn strip_one_cr(s: Seq<char>) -> Seq<char> {
    if s.len() > 0 && s[s.len() - 1] == '\r' { s.drop_last() } else { s }
}

/// The lines of `s`: pieces split on line feeds, with a carriage return
/// stripped from the end of each piece that was terminated by a line feed,
/// and without a final empty piece (a trailing line terminator does not
/// open a new line).
pub open spec fn lines_of(s: Seq<char>) -> Seq<Seq<char>> {
    let parts = split_on(s, '\n');
    let stripped = Seq::new(
        parts.len(),
        |i: int| if i + 1 < parts.len() { strip_one_cr(parts[i]) } else { parts[i] },
    );
    if stripped.len() > 0 && stripped.last().len() == 0 {
        stripped.drop_last()
    } else {
        stripped
    }
}

/// A character occurs in a concatenation exactly when it occurs in one of
/// the two parts.
pub proof fn lemma_contains_char_app(a: Seq<char>, b: Seq<char>, c: char)
    ensures
        contains_char(a + b, c) == (contains_char(a, c) || contains_char(b, c)),
{
    if contains_char(a, c) {
        let i = choose|i: int| 0 <= i < a.len() && a[i] == c;
        assert((a + b)[i] == c);
    }
    if contains_char(b, c) {
        let i = choose|i: int| 0 <= i < b.len() && b[i] == c;
        assert((a + b)[a.len() + i] == c);
    }
    if contains_char(a + b, c) {
        let i = choose|i: int| 0 <= i < (a + b).len() && (a + b)[i] == c;
        if i < a.len() {
            assert(a[i] == c);
        } else {
            assert(b[i - a.len()] == c);
        }
    }
}

/// Splitting always yields at least one piece.
pub proof fn lemma_split_on_nonempty(s: Seq<char>, sep: char)
    ensures
        split_on(s, sep).len() >= 1,
    decreases s.len(),
{
    if s.len() > 0 {
        lemma_split_on_nonempty(s.drop_first(), sep);
    }
}

/// A string free of the separator splits into itself alone.
pub proof fn lemma_split_on_whole(s: Seq<char>, sep: char)
    requires
        !contains_char(s, sep),
    ensures
        split_on(s, sep) =~~= seq![s],
    decreases s.len(),
{
    if s.len() > 0 {
        assert(s[0] != sep);
        assert(!contains_char(s.drop_first(), sep)) by {
            assert(forall|i: int|
                0 <= i < s.drop_first().len() ==> s.drop_first()[i] == s[i + 1]);
        }
        lemma_split_on_whole(s.drop_first(), sep);
        assert(seq![s[0]] + s.drop_first() =~= s);
    }
}

/// Splitting a string whose head piece `a` is free of the separator peels
/// off `a` and continues in the remainder.
pub proof fn lemma_split_on_step(a: Seq<char>, b: Seq<char>, sep: char)
    requires
        !contains_char(a, sep),
    ensures
        split_on(a + seq![sep] + b, sep) =~~= seq![a] + split_on(b, sep),
    decreases a.len(),
{
    let s = a + seq![sep] + b;
    lemma_split_on_nonempty(b, sep);
    if a.len() == 0 {
        assert(s =~= seq![sep] + b);
        assert(s.drop_first() =~= b);
    } else {
        assert(s[0] == a[0]);
        assert(a[0] != sep);
        assert(!contains_char(a.drop_first(), sep)) by {
            assert(forall|i: int|
                0 <= i < a.drop_first().len() ==> a.drop_first()[i] == a[i + 1]);
        }
        lemma_split_on_step(a.drop_first(), b, sep);
        assert(s.drop_first() =~= a.drop_first() + seq![sep] + b);
        let rest = split_on(s.drop_first(), sep);
        assert(rest =~~= seq![a.drop_first()] + split_on(b, sep));
        assert(rest.len() >= 1);
        assert(seq![s[0]] + rest[0] =~= a);
        assert((seq![a] + split_on(b, sep)).drop_first() =~~= split_on(b, sep));
    }
}

/// A string free of `": "` splits on `": "` into itself alone.
pub proof fn lemma_split_colon_space_whole(s: Seq<char>)
    requires
        !contains_colon_space(s),
    ensures
        split_colon_space(s) =~~= seq![s],
    decreases s.len(),
{
    if s.len() >= 2 {
        assert(!colon_space_at(s, 0));
        assert(!(s[0] == ':' && s[1] == ' '));
        assert(!contains_colon_space(s.drop_first())) by {
            assert(forall|i: int|
                colon_space_at(s.drop_first(), i) ==> colon_space_at(s, i + 1));
        }
        lemma_split_colon_space_whole(s.drop_first());
        assert(seq![s[0]] + s.drop_first() =~= s);
    }
}

/// Splitting on `": "` when the head piece `a` is free of `": "` peels off
/// `a` and continues in the remainder.
pub proof fn lemma_split_colon_space_step(a: Seq<char>, b: Seq<char>)
    requires
        !contains_colon_space(a),
    ensures
        split_colon_space(a + seq![':', ' '] + b) =~~= seq![a] + split_colon_space(b),
    decreases a.len(),
{
    let s = a + seq![':', ' '] + b;
    if a.len() == 0 {
        assert(s =~= seq![':', ' '] + b);
        assert(s[0] == ':' && s[1] == ' ');
        assert(s.skip(2) =~= b);
    } else {
        assert(s[0] == a[0]);
        if s.len() >= 2 && s[0] == ':' && s[1] == ' ' {
            // impossible: an occurrence of ": " at position 0 would lie in
            // `a` (if a has two characters) or straddle its end, where the
            // following character is ':'
            if a.len() >= 2 {
                assert(colon_space_at(a, 0));
                assert(false);
            } else {
                assert(a.len() == 1 && s[1] == ':');
                assert(false);
            }
        }
        assert(!contains_colon_space(a.drop_first())) by {
            assert(forall|i: int|
                colon_space_at(a.drop_first(), i) ==> colon_space_at(a, i + 1));
        }
        lemma_split_colon_space_step(a.drop_first(), b);
        assert(s.drop_first() =~= a.drop_first() + seq![':', ' '] + b);
        let rest = split_colon_space(s.drop_first());
        assert(rest =~~= seq![a.drop_first()] + split_colon_space(b));
        assert(seq![s[0]] + rest[0] =~= a);
        assert((seq![a] + split_colon_space(b)).drop_first() =~~= split_colon_space(b));
    }
}

/// No piece of a split contains the separator it was split on.
pub proof fn lemma_split_on_no_sep_in_pieces(s: Seq<char>, sep: char)
    ensures
        forall|i: int|
            0 <= i < split_on(s, sep).len() ==> !contains_char(
                #[trigger] split_on(s, sep)[i],
                sep,
            ),
    decreases s.len(),
{
    if s.len() == 0 {
        assert(!contains_char(split_on(s, sep)[0], sep));
    } else {
        let rest = split_on(s.drop_first(), sep);
        lemma_split_on_no_sep_in_pieces(s.drop_first(), sep);
        lemma_split_on_nonempty(s.drop_first(), sep);
        if s[0] == sep {
            assert(forall|i: int|
                1 <= i < split_on(s, sep).len() ==> split_on(s, sep)[i] == rest[i - 1]);
            assert(!contains_char(split_on(s, sep)[0], sep));
        } else {
            assert(!contains_char(seq![s[0]], sep));
            lemma_contains_char_app(seq![s[0]], rest[0], sep);
            assert(forall|i: int|
                1 <= i < split_on(s, sep).len() ==> split_on(s, sep)[i] == rest[i]);
        }
    }
}

/// A character absent from a string is absent from every piece of a split.
pub proof fn lemma_split_on_pieces_carry(s: Seq<char>, sep: char, c: char)
    requires
        !contains_char(s, c),
    ensures
        forall|i: int|
            0 <= i < split_on(s, sep).len() ==> !contains_char(
                #[trigger] split_on(s, sep)[i],
                c,
            ),
    decreases s.len(),
{
    if s.len() == 0 {
        assert(!contains_char(split_on(s, sep)[0], c));
    } else {
        assert(s[0] != c);
        assert(!contains_char(s.drop_first(), c)) by {
            assert(forall|i: int|
                0 <= i < s.drop_first().len() ==> s.drop_first()[i] == s[i + 1]);
        }
        let rest = split_on(s.drop_first(), sep);
        lemma_split_on_pieces_carry(s.drop_first(), sep, c);
        lemma_split_on_nonempty(s.drop_first(), sep);
        if s[0] == sep {
            assert(forall|i: int|
                1 <= i < split_on(s, sep).len() ==> split_on(s, sep)[i] == rest[i - 1]);
            assert(!contains_char(split_on(s, sep)[0], c));
        } else {
            assert(!contains_char(seq![s[0]], c));
            lemma_contains_char_app(seq![s[0]], rest[0], c);
            assert(forall|i: int|
                1 <= i < split_on(s, sep).len() ==> split_on(s, sep)[i] == rest[i]);
        }
    }
}

/// Splitting on `": "` always yields at least one piece.
pub proof fn lemma_split_colon_space_nonempty(s: Seq<char>)
    ensures
        split_colon_space(s).len() >= 1,
    decreases s.len(),
{
    if s.len() >= 2 {
        if s[0] == ':' && s[1] == ' ' {
            lemma_split_colon_space_nonempty(s.skip(2));
        } else {
            lemma_split_colon_space_nonempty(s.drop_first());
        }
    }
}

/// No piece of a split on `": "` contains `": "`, and a character absent
/// from the string is absent from every piece.
pub proof fn lemma_split_colon_space_pieces(s: Seq<char>, c: char)
    requires
        !contains_char(s, c),
    ensures
        forall|i: int|
            0 <= i < split_colon_space(s).len() ==> !contains_colon_space(
                #[trigger] split_colon_space(s)[i],
            ) && !contains_char(split_colon_space(s)[i], c),
    decreases s.len(),
{
    let ps = split_colon_space(s);
    if s.len() < 2 {
        assert(forall|j: int| colon_space_at(s, j) ==> false);
        assert(!contains_colon_space(ps[0]) && !contains_char(ps[0], c));
    } else if s[0] == ':' && s[1] == ' ' {
        assert(!contains_char(s.skip(2), c)) by {
            assert(forall|i: int| 0 <= i < s.skip(2).len() ==> s.skip(2)[i] == s[i + 2]);
        }
        lemma_split_colon_space_pieces(s.skip(2), c);
        let rest = split_colon_space(s.skip(2));
        assert(forall|i: int| 1 <= i < ps.len() ==> ps[i] == rest[i - 1]);
        assert(!contains_colon_space(ps[0]) && !contains_char(ps[0], c));
    } else {
        assert(s[0] != c);
        assert(!contains_char(s.drop_first(), c)) by {
            assert(forall|i: int|
                0 <= i < s.drop_first().len() ==> s.drop_first()[i] == s[i + 1]);
        }
        lemma_split_colon_space_pieces(s.drop_first(), c);
        lemma_split_colon_space_nonempty(s.drop_first());
        let rest = split_colon_space(s.drop_first());
        assert(forall|i: int| 1 <= i < ps.len() ==> ps[i] == rest[i]);
        let head = seq![s[0]] + rest[0];
        assert(ps[0] == head);
        assert(!contains_char(head, c)) by {
            assert(!contains_char(seq![s[0]], c));
            lemma_contains_char_app(seq![s[0]], rest[0], c);
        }
        assert(!contains_colon_space(head)) by {
            if contains_colon_space(head) {
                let j = choose|j: int| colon_space_at(head, j);
                if j == 0 {
                    // an occurrence at the head would need `s` to begin with
                    // `": "`, which this branch rules out: the piece begins
                    // with s[0], and its next character, when there is one,
                    // is the first character of the remainder's first piece,
                    // which is s[1]
                    assert(head[0] == s[0]);
                    assert(head[1] == rest[0][0]);
                    assert(rest[0].len() >= 1);
                    if s.drop_first().len() < 2 {
                        assert(rest[0] == s.drop_first());
                        assert(head[1] == s[1]);
                        assert(false);
                    } else if s.drop_first()[0] == ':' && s.drop_first()[1] == ' ' {
                        assert(rest[0].len() == 0);
                        assert(false);
                    } else {
                        assert(rest[0][0] == s.drop_first()[0]);
                        assert(head[1] == s[1]);
                        assert(false);
                    }
                } else {
                    assert(colon_space_at(rest[0], j - 1));
                    assert(false);
                }
            }
        }
    }
}

/// No line contains a line feed.
pub proof fn lemma_lines_no_lf(s: Seq<char>)
    ensures
        forall|i: int|
            0 <= i < lines_of(s).len() ==> !contains_char(#[trigger] lines_of(s)[i], '\n'),
{
    lemma_split_on_no_sep_in_pieces(s, '\n');
    let parts = split_on(s, '\n');
    assert forall|i: int| 0 <= i < lines_of(s).len() implies !contains_char(
        lines_of(s)[i],
        '\n',
    ) by {
        let stripped = Seq::new(
            parts.len(),
            |k: int| if k + 1 < parts.len() { strip_one_cr(parts[k]) } else { parts[k] },
        );
        assert(lines_of(s)[i] == stripped[i]);
        assert(!contains_char(parts[i], '\n'));
        if contains_char(stripped[i], '\n') {
            let j = choose|j: int|
                0 <= j < stripped[i].len() && stripped[i][j] == '\n';
            assert(parts[i][j] == '\n');
            assert(false);
        }
    }
}

/// Joining non-empty, line-feed-free lines with `"\r\n"` and splitting the
/// result back into lines recovers them exactly.
pub proof fn lemma_lines_of_join(parts: Seq<Seq<char>>)
    requires
        forall|i: int|
            0 <= i < parts.len() ==> (#[trigger] parts[i]).len() > 0 && !contains_char(
                parts[i],
                '\n',
            ),
    ensures
        lines_of(join_with(parts, crlf())) == parts,
    decreases parts.len(),
{
    if parts.len() == 0 {
        lemma_lines_whole(Seq::empty());
        assert(lines_of(join_with(parts, crlf())) =~~= parts);
    } else if parts.len() == 1 {
        lemma_lines_whole(parts[0]);
        assert(lines_of(join_with(parts, crlf())) =~~= parts);
    } else {
        let rest = parts.drop_first();
        assert(forall|i: int| 0 <= i < rest.len() ==> rest[i] == parts[i + 1]);
        assert(join_with(parts, crlf()) =~= parts[0] + crlf() + join_with(rest, crlf()));
        lemma_lines_crlf(parts[0], join_with(rest, crlf()));
        lemma_lines_of_join(rest);
        assert(seq![parts[0]] + rest =~~= parts);
    }
}

/// A string without line feeds is one line (or none, when it is empty).
pub proof fn lemma_lines_whole(s: Seq<char>)
    requires
        !contains_char(s, '\n'),
    ensures
        lines_of(s) =~~= if s.len() == 0 { Seq::<Seq<char>>::empty() } else { seq![s] },
{
    lemma_split_on_whole(s, '\n');
    let parts = split_on(s, '\n');
    assert(parts =~~= seq![s]);
}

/// Peeling one line terminated by `"\r\n"` off the front of a string: the
/// line's carriage return is stripped, and the remaining text contributes
/// its own lines.
pub proof fn lemma_lines_crlf(a: Seq<char>, rest: Seq<char>)
    requires
        !contains_char(a, '\n'),
    ensures
        lines_of(a + crlf() + rest) =~~= seq![a] + lines_of(rest),
{
    let s = a + crlf() + rest;
    let a1 = a + seq!['\r'];
    assert(!contains_char(a1, '\n')) by {
        assert(forall|i: int| 0 <= i < a.len() ==> a1[i] == a[i]);
        assert(a1[a.len() as int] == '\r');
    }
    assert(s =~= a1 + seq!['\n'] + rest);
    lemma_split_on_step(a1, rest, '\n');
    lemma_split_on_nonempty(rest, '\n');
    let parts = split_on(s, '\n');
    let rparts = split_on(rest, '\n');
    assert(parts =~~= seq![a1] + rparts);
    let stripped = Seq::new(
        parts.len(),
        |i: int| if i + 1 < parts.len() { strip_one_cr(parts[i]) } else { parts[i] },
    );
    let rstripped = Seq::new(
        rparts.len(),
        |i: int| if i + 1 < rparts.len() { strip_one_cr(rparts[i]) } else { rparts[i] },
    );
    assert(strip_one_cr(a1) =~= a);
    assert(stripped =~~= seq![a] + rstripped) by {
        assert(stripped.len() == 1 + rstripped.len());
        assert(stripped[0] == strip_one_cr(a1));
        assert(forall|i: int| 1 <= i < stripped.len() ==> stripped[i] == rstripped[i - 1]);
    }
    assert(stripped.last() == rstripped.last());
    if rstripped.last().len() == 0 {
        assert(lines_of(rest) =~~= rstripped.drop_last());
        assert(lines_of(s) =~~= stripped.drop_last());
        assert(stripped.drop_last() =~~= seq![a] + rstripped.drop_last());
    } else {
        assert(lines_of(rest) =~~= rstripped);
        assert(lines_of(s) =~~= stripped);
    }
}

/// Joining one more piece onto the end: a separator goes in front of it
/// unless it is the only piece.
pub proof fn lemma_join_with_push(parts: Seq<Seq<char>>, x: Seq<char>, sep: Seq<char>)
    ensures
        join_with(parts.push(x), sep) =~= if parts.len() == 0 {
            x
        } else {
            join_with(parts, sep) + sep + x
        },
    decreases parts.len(),
{
    let p = parts.push(x);
    if parts.len() == 0 {
        assert(p.len() == 1);
        assert(p[0] == x);
    } else if parts.len() == 1 {
        assert(p.len() == 2);
        assert(p[0] == parts[0]);
        assert(p.drop_first() =~= seq![x]);
        assert(join_with(seq![x], sep) == x);
    } else {
        assert(p.drop_first() =~= parts.drop_first().push(x));
        lemma_join_with_push(parts.drop_first(), x, sep);
        assert(p[0] == parts[0]);
        assert(join_with(parts.drop_first().push(x), sep) =~= join_with(
            parts.drop_first(),
            sep,
        ) + sep + x);
    }
}

/// Splits `s` into the pieces between occurrences of the character `sep`.
pub fn split_str(s: &str, sep: char) -> (r: Vec<String>)
    ensures
        r.deep_view() =~~= split_on(s@, sep),
{
    let mut out: Vec<String> = Vec::new();
    let mut rest: &str = s;
    #[verifier::loop_isolation(true)]
    loop
        invariant_except_break
            out.deep_view() + split_on(rest@, sep) =~~= split_on(s@, sep),
        ensures
            out.deep_view() =~~= split_on(s@, sep),
        decreases rest@.len(),
    {
        match find_char(rest, sep) {
            None => {
                proof {
                    lemma_split_on_whole(rest@, sep);
                }
                let ghost pre = out.deep_view();
                out.push(rest.to_owned());
                assert(out.deep_view() =~~= pre.push(rest@));
                assert(out.deep_view() =~~= pre + seq![rest@]);
                break;
            },
            Some(i) => {
                let n = rest.unicode_len();
                let head = rest.substring_char(0, i);
                let tail = rest.substring_char(i + 1, n);
                proof {
                    assert(rest@ =~= head@ + seq![sep] + tail@);
                    lemma_split_on_step(head@, tail@, sep);
                }
                let ghost pre = out.deep_view();
                out.push(head.to_owned());
                assert(out.deep_view() =~~= pre.push(head@));
                assert(out.deep_view() + split_on(tail@, sep) =~~= pre + (seq![head@]
                    + split_on(tail@, sep)));
                rest = tail;
            },
        }
    }
    out
}

/// Splits `s` into the pieces between occurrences of `": "`.
pub fn split_str_colon_space(s: &str) -> (r: Vec<String>)
    ensures
        r.deep_view() =~~= split_colon_space(s@),
{
    let mut out: Vec<String> = Vec::new();
    let mut rest: &str = s;
    #[verifier::loop_isolation(true)]
    loop
        invariant_except_break
            out.deep_view() + split_colon_space(rest@) =~~= split_colon_space(s@),
        ensures
            out.deep_view() =~~= split_colon_space(s@),
        decreases rest@.len(),
    {
        match find_colon_space(rest) {
            None => {
                proof {
                    lemma_split_colon_space_whole(rest@);
                }
                let ghost pre = out.deep_view();
                out.push(rest.to_owned());
                assert(out.deep_view() =~~= pre.push(rest@));
                assert(out.deep_view() =~~= pre + seq![rest@]);
                break;
            },
            Some(i) => {
                let n = rest.unicode_len();
                let head = rest.substring_char(0, i);
                let tail = rest.substring_char(i + 2, n);
                proof {
                    assert(rest@ =~= head@ + seq![':', ' '] + tail@);
                    assert(!contains_colon_space(head@)) by {
                        assert(forall|j: int|
                            colon_space_at(head@, j) ==> colon_space_at(rest@, j));
                    }
                    lemma_split_colon_space_step(head@, tail@);
                }
                let ghost pre = out.deep_view();
                out.push(head.to_owned());
                assert(out.deep_view() =~~= pre.push(head@));
                assert(out.deep_view() + split_colon_space(tail@) =~~= pre + (seq![head@]
                    + split_colon_space(tail@)));
                rest = tail;
            },
        }
    }
    out
}

/// Splits `s` into its lines, as `lines_of` describes.
pub fn lines_vec(s: &str) -> (r: Vec<String>)
    ensures
        r.deep_view() =~~= lines_of(s@),
{
    let raw = split_str(s, '\n');
    let ghost parts = split_on(s@, '\n');
    let ghost stripped = Seq::new(
        parts.len(),
        |i: int| if i + 1 < parts.len() { strip_one_cr(parts[i]) } else { parts[i] },
    );
    let n = raw.len();
    let mut out: Vec<String> = Vec::new();
    let mut i: usize = 0;
    while i < n
        invariant
            i <= n,
            out.deep_view() =~~= stripped.take(i as int),
        decreases n - i,
    {
        let ghost pre = out.deep_view();
        let p: &str = raw[i].as_str();
        let m = p.unicode_len();
        if i + 1 < n && m > 0 && p.get_char(m - 1) == '\r' {
            let q = p.substring_char(0, m - 1);
            assert(q@ =~= strip_one_cr(p@));
            out.push(q.to_owned());
        } else {
            assert(p@ =~= stripped[i as int]);
            out.push(p.to_owned());
        }
        assert(out.deep_view() =~~= pre.push(stripped[i as int]));
        assert(out.deep_view() =~~= stripped.take(i as int + 1));
        i = i + 1;
    }
    assert(out.deep_view() =~~= stripped);
    if out.len() > 0 && out[out.len() - 1].as_str().is_empty() {
        out.pop();
        assert(out.deep_view() =~~= stripped.drop_last());
    }
    out
}

/// Joins the pieces with `sep` between consecutive pieces.
pub fn join_strs(parts: &Vec<String>, sep: &str) -> (r: String)
    ensures
        r@ =~= join_with(parts.deep_view(), sep@),
{
    let mut r = String::new();
    let n = parts.len();
    let mut i: usize = 0;
    while i < n
        invariant
            i <= n,
            r@ =~= join_with(parts.deep_view().take(i as int), sep@),
        decreases n - i,
    {
        if i > 0 {
            r.append(sep);
        }
        r.append(parts[i].as_str());
        proof {
            let pv = parts.deep_view();
            assert(pv.take(i as int + 1) =~= pv.take(i as int).push(pv[i as int]));
            lemma_join_with_push(pv.take(i as int), pv[i as int], sep@);
        }
        i = i + 1;
    }
    assert(parts.deep_view().take(n as int) =~= parts.deep_view());
    r
}

/// Whether the separator `": "` occurs in `s` (executable form).
pub fn contains_colon_space_exec(s: &str) -> (r: bool)
    ensures
        r == contains_colon_space(s@),
{
    match find_colon_space(s) {
        Some(i) => {
            assert(contains_colon_space(s@));
            true
        },
        None => false,
    }
}

} // verus!

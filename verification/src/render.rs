//! What the human-readable diagnostic rendering of a request contains: a
//! bold one-line summary of method, path and version, then a `Headers:`
//! block, a `Queries:` block and a `Body:` block, each omitted entirely
//! when its collection or field is empty. A request that was never
//! initialized renders as a single fixed placeholder line instead.
use vstd::prelude::*;

use crate::method::method_text;
use crate::model::{PairView, RequestModel};

verus! {

/// One header's line in the `Headers:` block.
pub open spec fn header_entry(p: PairView) -> Seq<char> {
    "  \""@ + p.name + "\": \""@ + p.value + "\"\r\n"@
}

/// One query parameter's line in the `Queries:` block.
pub open spec fn query_entry(p: PairView) -> Seq<char> {
    "  \""@ + p.name + "\" = \""@ + p.value + "\"\n"@
}

/// The headers' lines, one after the other.
pub open spec fn header_entries(ps: Seq<PairView>) -> Seq<char>
    decreases ps.len(),
{
    if ps.len() == 0 {
        Seq::empty()
    } else {
        header_entry(ps[0]) + header_entries(ps.drop_first())
    }
}

/// The query parameters' lines, one after the other.
pub open spec fn query_entries(ps: Seq<PairView>) -> Seq<char>
    decreases ps.len(),
{
    if ps.len() == 0 {
        Seq::empty()
    } else {
        query_entry(ps[0]) + query_entries(ps.drop_first())
    }
}

/// Rendering one more header at the end appends its line.
pub proof fn lemma_header_entries_snoc(ps: Seq<PairView>, x: PairView)
    ensures
        header_entries(ps.push(x)) == header_entries(ps) + header_entry(x),
    decreases ps.len(),
{
    if ps.len() == 0 {
        assert(ps.push(x)[0] == x);
        assert(ps.push(x).drop_first() =~= Seq::<PairView>::empty());
        assert(header_entries(ps.push(x).drop_first()) =~= Seq::<char>::empty());
        assert(header_entries(ps.push(x)) =~= header_entry(x));
        assert(header_entries(ps) + header_entry(x) =~= header_entry(x));
    } else {
        assert(ps.push(x)[0] == ps[0]);
        assert(ps.push(x).drop_first() =~= ps.drop_first().push(x));
        lemma_header_entries_snoc(ps.drop_first(), x);
        assert(header_entries(ps.push(x)) =~= header_entries(ps) + header_entry(x));
    }
}

/// Rendering one more query parameter at the end appends its line.
pub proof fn lemma_query_entries_snoc(ps: Seq<PairView>, x: PairView)
    ensures
        query_entries(ps.push(x)) == query_entries(ps) + query_entry(x),
    decreases ps.len(),
{
    if ps.len() == 0 {
        assert(ps.push(x)[0] == x);
        assert(ps.push(x).drop_first() =~= Seq::<PairView>::empty());
        assert(query_entries(ps.push(x).drop_first()) =~= Seq::<char>::empty());
        assert(query_entries(ps.push(x)) =~= query_entry(x));
        assert(query_entries(ps) + query_entry(x) =~= query_entry(x));
    } else {
        assert(ps.push(x)[0] == ps[0]);
        assert(ps.push(x).drop_first() =~= ps.drop_first().push(x));
        lemma_query_entries_snoc(ps.drop_first(), x);
        assert(query_entries(ps.push(x)) =~= query_entries(ps) + query_entry(x));
    }
}

/// The whole rendering: the placeholder line for an uninitialized request;
/// otherwise the summary line followed by the three optional blocks.
pub open spec fn render_text(m: RequestModel) -> Seq<char> {
    if !m.initialized {
        "Request read not initialized"@
    } else {
        "\u{1b}[1mRequest:\u{1b}[0m\n  "@ + method_text(m.method) + " "@ + m.path + " "@
            + m.version + "\n"@ + (if m.headers.len() > 0 {
            "\u{1b}[1mHeaders:\n\u{1b}[0m"@ + header_entries(m.headers)
        } else {
            Seq::<char>::empty()
        }) + (if m.query.len() > 0 {
            "\u{1b}[1mQueries:\n\u{1b}[0m"@ + query_entries(m.query)
        } else {
            Seq::<char>::empty()
        }) + (if m.body.len() > 0 {
            "\u{1b}[1mBody:\n\u{1b}[0m  \""@ + m.body + "\""@
        } else {
            Seq::<char>::empty()
        })
    }
}

} // verus!

//! The mathematical model of a request: every field reduced to sequences of
//! characters, and the lookup functions over name/value pair collections
//! that the contracts are stated with.
use vstd::prelude::*;

use crate::method::Method;
use crate::text::lower;

verus! {

/// The model of one name/value text pair (a header or a query parameter).
pub struct PairView {
    pub name: Seq<char>,
    pub value: Seq<char>,
}

/// The model of a request: what each accessor returns and what the parser
/// and builder are specified against.
pub struct RequestModel {
    pub headers: Seq<PairView>,
    pub query: Seq<PairView>,
    pub body: Seq<char>,
    pub method: Method,
    pub full_path: Seq<char>,
    pub path: Seq<char>,
    pub initialized: bool,
    pub version: Seq<char>,
}

impl RequestModel {
    /// The state of a freshly constructed, untouched request: every field
    /// at its default, not yet initialized.
    pub open spec fn init() -> RequestModel {
        RequestModel {
            headers: Seq::empty(),
            query: Seq::empty(),
            body: Seq::empty(),
            method: Method::GET,
            full_path: Seq::empty(),
            path: Seq::empty(),
            initialized: false,
            version: "HTTP/1.1"@,
        }
    }
}

/// Index of the first pair whose name equals `name` under ASCII
/// case-insensitive comparison, if any.
pub open spec fn first_match_ci(ps: Seq<PairView>, name: Seq<char>) -> Option<int>
    decreases ps.len(),
{
    if ps.len() == 0 {
        None
    } else if lower(ps[0].name) == lower(name) {
        Some(0)
    } else {
        match first_match_ci(ps.drop_first(), name) {
            None => None,
            Some(i) => Some(i + 1),
        }
    }
}

/// Index of the first pair whose name equals `name` exactly, if any.
pub open spec fn first_match_exact(ps: Seq<PairView>, name: Seq<char>) -> Option<int>
    decreases ps.len(),
{
    if ps.len() == 0 {
        None
    } else if ps[0].name == name {
        Some(0)
    } else {
        match first_match_exact(ps.drop_first(), name) {
            None => None,
            Some(i) => Some(i + 1),
        }
    }
}

/// What `first_match_ci` finds: the first index whose name matches
/// case-insensitively, or nothing when no name matches.
pub proof fn lemma_first_match_ci(ps: Seq<PairView>, name: Seq<char>)
    ensures
        match first_match_ci(ps, name) {
            None => forall|i: int| 0 <= i < ps.len() ==> lower(ps[i].name) != lower(name),
            Some(i) => 0 <= i < ps.len() && lower(ps[i].name) == lower(name) && forall|j: int|
                0 <= j < i ==> lower(ps[j].name) != lower(name),
        },
    decreases ps.len(),
{
    if ps.len() > 0 && lower(ps[0].name) != lower(name) {
        let rest = ps.drop_first();
        lemma_first_match_ci(rest, name);
        match first_match_ci(rest, name) {
            None => {
                assert forall|i: int| 0 <= i < ps.len() implies lower(ps[i].name) != lower(
                    name,
                ) by {
                    if i > 0 {
                        assert(ps[i] == rest[i - 1]);
                    }
                }
            },
            Some(k) => {
                assert(ps[k + 1] == rest[k]);
                assert forall|j: int| 0 <= j < k + 1 implies lower(ps[j].name) != lower(
                    name,
                ) by {
                    if j > 0 {
                        assert(ps[j] == rest[j - 1]);
                    }
                }
            },
        }
    }
}

/// What `first_match_exact` finds: the first index whose name matches
/// exactly, or nothing when no name matches.
pub proof fn lemma_first_match_exact(ps: Seq<PairView>, name: Seq<char>)
    ensures
        match first_match_exact(ps, name) {
            None => forall|i: int| 0 <= i < ps.len() ==> ps[i].name != name,
            Some(i) => 0 <= i < ps.len() && ps[i].name == name && forall|j: int|
                0 <= j < i ==> ps[j].name != name,
        },
    decreases ps.len(),
{
    if ps.len() > 0 && ps[0].name != name {
        let rest = ps.drop_first();
        lemma_first_match_exact(rest, name);
        match first_match_exact(rest, name) {
            None => {
                assert forall|i: int| 0 <= i < ps.len() implies ps[i].name != name by {
                    if i > 0 {
                        assert(ps[i] == rest[i - 1]);
                    }
                }
            },
            Some(k) => {
                assert(ps[k + 1] == rest[k]);
                assert forall|j: int| 0 <= j < k + 1 implies ps[j].name != name by {
                    if j > 0 {
                        assert(ps[j] == rest[j - 1]);
                    }
                }
            },
        }
    }
}

} // verus!

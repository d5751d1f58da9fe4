//! Prefix completion: the first of a list of known strings that continues what was typed.

use crate::encoding::{lemma_prefix_len, lemma_prefix_of_encoding};
use vstd::prelude::*;
use vstd::string::*;

verus! {

/// `candidate` completes `search`: it starts with `search` and is strictly longer.
///
/// A candidate equal to `search` completes nothing, and every non-empty candidate
/// completes the empty search.
pub open spec fn completes(candidate: Seq<char>, search: Seq<char>) -> bool {
    search.is_prefix_of(candidate) && candidate.len() > search.len()
}

/// `index` is the position of the first candidate that completes `search`.
pub open spec fn is_first_completion(
    candidates: Seq<Seq<char>>,
    search: Seq<char>,
    index: int,
) -> bool {
    &&& 0 <= index < candidates.len()
    &&& completes(candidates[index], search)
    &&& forall|j: int| 0 <= j < index ==> !completes(#[trigger] candidates[j], search)
}

/// The first candidate, in the order given, that completes `search`; `None` where none does.
pub open spec fn first_completion(candidates: Seq<Seq<char>>, search: Seq<char>) -> Option<
    Seq<char>,
> {
    if exists|i: int| is_first_completion(candidates, search, i) {
        Some(candidates[choose|i: int| is_first_completion(candidates, search, i)])
    } else {
        None
    }
}

/// The text that was found, if any.
pub open spec fn text_of(found: Option<String>) -> Option<Seq<char>> {
    match found {
        Some(text) => Some(text@),
        None => None,
    }
}

/// At most one position is the first completion.
pub proof fn lemma_first_completion_unique(
    candidates: Seq<Seq<char>>,
    search: Seq<char>,
    i: int,
    j: int,
)
    requires
        is_first_completion(candidates, search, i),
        is_first_completion(candidates, search, j),
    ensures
        i == j,
{
    if i < j {
        assert(!completes(candidates[i], search));
    }
    if j < i {
        assert(!completes(candidates[j], search));
    }
}

/// `first_completion` is the candidate at the first completing position, and is
/// `None` exactly when no candidate completes `search`.
pub proof fn lemma_first_completion(candidates: Seq<Seq<char>>, search: Seq<char>)
    ensures
        match first_completion(candidates, search) {
            Some(found) => exists|i: int|
                is_first_completion(candidates, search, i) && found == candidates[i],
            None => forall|i: int|
                0 <= i < candidates.len() ==> !completes(#[trigger] candidates[i], search),
        },
{
    if first_completion(candidates, search) is None {
        assert forall|i: int| 0 <= i < candidates.len() implies !completes(
            #[trigger] candidates[i],
            search,
        ) by {
            if completes(candidates[i], search) {
                lemma_some_completion_has_first(candidates, search, i);
            }
        }
    }
}

/// Where some candidate completes `search`, one of them is the first to do so.
proof fn lemma_some_completion_has_first(candidates: Seq<Seq<char>>, search: Seq<char>, i: int)
    requires
        0 <= i < candidates.len(),
        completes(candidates[i], search),
    ensures
        exists|k: int| is_first_completion(candidates, search, k),
    decreases i,
{
    if exists|j: int| 0 <= j < i && completes(#[trigger] candidates[j], search) {
        let j = choose|j: int| 0 <= j < i && completes(#[trigger] candidates[j], search);
        lemma_some_completion_has_first(candidates, search, j);
    } else {
        assert(is_first_completion(candidates, search, i));
    }
}

/// Searching the same candidates for the same text twice finds the same text.
pub proof fn lemma_first_similarity_repeatable(
    candidates: Seq<Seq<char>>,
    search: Seq<char>,
    first: Option<String>,
    second: Option<String>,
)
    requires
        text_of(first) == first_completion(candidates, search),
        text_of(second) == first_completion(candidates, search),
    ensures
        text_of(first) == text_of(second),
{
}

/// Whether `text` begins with the bytes of `prefix`.
fn starts_with_bytes(text: &[u8], prefix: &[u8]) -> (found: bool)
    ensures
        found == prefix@.is_prefix_of(text@),
{
    if prefix.len() > text.len() {
        return false;
    }
    let mut i: usize = 0;
    while i < prefix.len()
        invariant
            i <= prefix.len() <= text.len(),
            forall|j: int| 0 <= j < i ==> prefix@[j] == text@[j],
        decreases prefix.len() - i,
    {
        if prefix[i] != text[i] {
            return false;
        }
        i += 1;
    }
    true
}

/// Whether `candidate` starts with `search` and is strictly longer than it.
pub fn is_completion(candidate: &str, search: &str) -> (yes: bool)
    ensures
        yes == completes(candidate@, search@),
{
    let text = candidate.as_bytes();
    let prefix = search.as_bytes();
    proof {
        lemma_prefix_of_encoding(search@, candidate@);
        if search@.is_prefix_of(candidate@) {
            lemma_prefix_len(search@, candidate@);
        }
    }
    starts_with_bytes(text, prefix) && text.len() > prefix.len()
}

/// Within a list of strings, finds the first that starts with `search` and is
/// strictly longer than it, and returns a copy of it.
///
/// The scan is linear and stops at the first match; the order of `possibilities`
/// decides between several matches.
pub fn first_similarity(possibilities: &[String], search: &str) -> (result: Option<String>)
    ensures
        text_of(result) == first_completion(possibilities.deep_view(), search@),
{
    let ghost candidates = possibilities.deep_view();
    let mut i: usize = 0;
    while i < possibilities.len()
        invariant
            i <= possibilities.len(),
            candidates == possibilities.deep_view(),
            forall|j: int| 0 <= j < i ==> !completes(#[trigger] candidates[j], search@),
        decreases possibilities.len() - i,
    {
        if is_completion(possibilities[i].as_str(), search) {
            proof {
                let k = choose|k: int| is_first_completion(candidates, search@, k);
                lemma_first_completion_unique(candidates, search@, i as int, k);
            }
            return Some(possibilities[i].clone());
        }
        i += 1;
    }
    proof {
        if exists|k: int| is_first_completion(candidates, search@, k) {
            let k = choose|k: int| is_first_completion(candidates, search@, k);
            assert(completes(candidates[k], search@));
        }
    }
    None
}

} // verus!

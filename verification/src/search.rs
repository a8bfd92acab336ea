//! Substring search over bytes, by the `memchr` crate's `memmem` module.

use vstd::prelude::*;

verus! {

/// Whether `needle` occurs in `hay` starting at index `i`.
pub open spec fn occurs_at(hay: Seq<u8>, needle: Seq<u8>, i: int) -> bool {
    0 <= i && i + needle.len() <= hay.len() && hay.subrange(i, i + needle.len()) == needle
}

/// The least index `i >= from` at which `needle` occurs in `hay`.
pub open spec fn first_occurrence_from(hay: Seq<u8>, needle: Seq<u8>, from: int) -> Option<int>
    decreases hay.len() + 1 - from,
{
    if from < 0 || from + needle.len() > hay.len() {
        None
    } else if occurs_at(hay, needle, from) {
        Some(from)
    } else {
        first_occurrence_from(hay, needle, from + 1)
    }
}

/// How far a search moves past an occurrence: the needle's length, or one
/// for an empty needle.
pub open spec fn step_past(needle: Seq<u8>) -> int {
    if needle.len() == 0 {
        1
    } else {
        needle.len() as int
    }
}

/// The starts of the non-overlapping occurrences of `needle` in `hay` at or
/// after `from`, leftmost first: each search resumes just past the previous
/// occurrence.
pub open spec fn occurrences_from(hay: Seq<u8>, needle: Seq<u8>, from: int) -> Seq<int>
    decreases hay.len() + 1 - from,
{
    match first_occurrence_from(hay, needle, from) {
        None => Seq::empty(),
        Some(i) => {
            // A first occurrence never lies before `from` or past the end
            // (`lemma_first_occurrence`); the test only shows termination.
            if i < from || i + needle.len() > hay.len() {
                Seq::empty()
            } else {
                seq![i] + occurrences_from(hay, needle, i + step_past(needle))
            }
        },
    }
}

/// What a first occurrence is: an occurrence, with none before it from `from`
/// on; and where there is none, no occurrence at or after `from`.
pub proof fn lemma_first_occurrence(hay: Seq<u8>, needle: Seq<u8>, from: int)
    requires
        from >= 0,
    ensures
        first_occurrence_from(hay, needle, from) matches Some(i) ==> {
            &&& from <= i
            &&& occurs_at(hay, needle, i)
            &&& forall|j: int| from <= j < i ==> !occurs_at(hay, needle, j)
        },
        first_occurrence_from(hay, needle, from) is None ==> forall|j: int|
            from <= j ==> !occurs_at(hay, needle, j),
    decreases hay.len() + 1 - from,
{
    if from + needle.len() > hay.len() {
    } else if occurs_at(hay, needle, from) {
    } else {
        lemma_first_occurrence(hay, needle, from + 1);
    }
}

/// An occurrence with no occurrence before it from `from` on is the first.
pub proof fn lemma_first_occurrence_is(hay: Seq<u8>, needle: Seq<u8>, from: int, i: int)
    requires
        0 <= from <= i,
        occurs_at(hay, needle, i),
        forall|j: int| from <= j < i ==> !occurs_at(hay, needle, j),
    ensures
        first_occurrence_from(hay, needle, from) == Some(i),
    decreases i - from,
{
    if from < i {
        assert(!occurs_at(hay, needle, from));
        lemma_first_occurrence_is(hay, needle, from + 1, i);
    }
}

/// Where the needle does not occur at or after `from`, there is no first
/// occurrence.
pub proof fn lemma_no_occurrence(hay: Seq<u8>, needle: Seq<u8>, from: int)
    requires
        0 <= from,
        forall|j: int| from <= j ==> !occurs_at(hay, needle, j),
    ensures
        first_occurrence_from(hay, needle, from) is None,
    decreases hay.len() + 1 - from,
{
    if from + needle.len() <= hay.len() {
        assert(!occurs_at(hay, needle, from));
        lemma_no_occurrence(hay, needle, from + 1);
    }
}

/// The occurrences listed by `occurrences_from` are occurrences, in
/// increasing order, each found by searching from just past the previous one.
pub proof fn lemma_occurrences(hay: Seq<u8>, needle: Seq<u8>, from: int)
    requires
        from >= 0,
    ensures
        ({
            let occ = occurrences_from(hay, needle, from);
            &&& forall|k: int| 0 <= k < occ.len() ==> from <= #[trigger] occ[k]
            &&& forall|k: int| 0 <= k < occ.len() ==> occurs_at(hay, needle, #[trigger] occ[k])
            &&& occ.len() > 0 ==> first_occurrence_from(hay, needle, from) == Some(occ[0])
            &&& occ.len() == 0 ==> first_occurrence_from(hay, needle, from) is None
            &&& forall|k: int|
                0 <= k < occ.len() - 1 ==> first_occurrence_from(
                    hay,
                    needle,
                    #[trigger] occ[k] + step_past(needle),
                ) == Some(occ[k + 1])
            &&& forall|k: int|
                0 <= k < occ.len() - 1 ==> #[trigger] occ[k] + step_past(needle) <= occ[k + 1]
            &&& occ.len() > 0 ==> first_occurrence_from(
                hay,
                needle,
                occ[occ.len() - 1] + step_past(needle),
            ) is None
        }),
    decreases hay.len() + 1 - from,
{
    lemma_first_occurrence(hay, needle, from);
    match first_occurrence_from(hay, needle, from) {
        None => {},
        Some(i) => {
            let next = i + step_past(needle);
            lemma_occurrences(hay, needle, next);
            let rest = occurrences_from(hay, needle, next);
            let occ = occurrences_from(hay, needle, from);
            assert(occ =~= seq![i] + rest);
            assert forall|k: int| 0 <= k < occ.len() implies from <= #[trigger] occ[k] by {
                if k > 0 {
                    assert(occ[k] == rest[k - 1]);
                }
            }
            assert forall|k: int| 0 <= k < occ.len() implies occurs_at(
                hay,
                needle,
                #[trigger] occ[k],
            ) by {
                if k > 0 {
                    assert(occ[k] == rest[k - 1]);
                }
            }
            assert forall|k: int| 0 <= k < occ.len() - 1 implies first_occurrence_from(
                hay,
                needle,
                #[trigger] occ[k] + step_past(needle),
            ) == Some(occ[k + 1]) by {
                if k > 0 {
                    assert(occ[k] == rest[k - 1]);
                    assert(occ[k + 1] == rest[k]);
                } else {
                    assert(occ[1] == rest[0]);
                }
            }
            assert forall|k: int| 0 <= k < occ.len() - 1 implies #[trigger] occ[k] + step_past(
                needle,
            ) <= occ[k + 1] by {
                if k > 0 {
                    assert(occ[k] == rest[k - 1]);
                    assert(occ[k + 1] == rest[k]);
                } else {
                    assert(occ[1] == rest[0]);
                }
            }
            if rest.len() > 0 {
                assert(occ[occ.len() - 1] == rest[rest.len() - 1]);
            }
        },
    }
}

/// `memchr::memmem::find`: the first occurrence of `needle` in `hay`.
#[verifier::external_body]
pub(crate) fn find_first(hay: &[u8], needle: &[u8]) -> (r: Option<usize>)
    ensures
        match r {
            Some(i) => first_occurrence_from(hay@, needle@, 0) == Some(i as int),
            None => first_occurrence_from(hay@, needle@, 0) is None,
        },
{
    memchr::memmem::find(hay, needle)
}

/// `memchr::memmem::find_iter`, collected: the starts of all non-overlapping
/// occurrences of `needle` in `hay`, leftmost first.
#[verifier::external_body]
pub(crate) fn find_all(hay: &[u8], needle: &[u8]) -> (r: Vec<usize>)
    ensures
        r@.len() == occurrences_from(hay@, needle@, 0).len(),
        forall|k: int|
            0 <= k < r@.len() ==> #[trigger] r@[k] as int == occurrences_from(hay@, needle@, 0)[k],
{
    memchr::memmem::find_iter(hay, needle).collect()
}

} // verus!

//! The pieces of a `multipart/form-data` upload: the boundary marker named by
//! the `Content-Type` header, the parts between markers, each part's field
//! name and its content.

use vstd::prelude::*;
use vstd::utf8::valid_utf8;
use crate::search::{
    find_all, find_first, first_occurrence_from, lemma_first_occurrence, lemma_first_occurrence_is,
    lemma_no_occurrence, lemma_occurrences, occurrences_from,
    occurs_at, step_past,
};

verus! {

/// The marker that separates parts: `--` followed by everything after the
/// first `=` of the `Content-Type` value; none without an `=`.
pub open spec fn boundary_spec(content_type: Seq<u8>) -> Option<Seq<u8>> {
    match first_occurrence_from(content_type, seq![61u8], 0) {
        None => None,
        Some(i) => Some(seq![45u8, 45u8] + content_type.subrange(i + 1, content_type.len() as int)),
    }
}

/// The parts of `body`: the bytes strictly between each marker and the next
/// one; none where the marker does not occur at all. What follows the last
/// marker is no part.
pub open spec fn parts_spec(body: Seq<u8>, marker: Seq<u8>) -> Option<Seq<Seq<u8>>> {
    let occ = occurrences_from(body, marker, 0);
    if occ.len() == 0 {
        None
    } else {
        Some(
            Seq::new(
                (occ.len() - 1) as nat,
                |k: int| body.subrange(occ[k] + marker.len(), occ[k + 1]),
            ),
        )
    }
}

/// The content of a part: what follows the first blank line (`\r\n\r\n`),
/// without one trailing `\r\n`; none without a blank line.
pub open spec fn part_content_spec(part: Seq<u8>) -> Option<Seq<u8>> {
    match first_occurrence_from(part, seq![13u8, 10u8, 13u8, 10u8], 0) {
        None => None,
        Some(i) => {
            let rest = part.subrange(i + 4, part.len() as int);
            if rest.len() >= 2 && rest[rest.len() - 2] == 13u8 && rest[rest.len() - 1] == 10u8 {
                Some(rest.subrange(0, rest.len() - 2))
            } else {
                Some(rest)
            }
        },
    }
}

/// The pattern that picks a part's field name out of its headers.
pub open spec fn name_pattern() -> Seq<char> {
    "; name=\"(.*?)\""@
}

/// The bytes that open a part's field name: `; name="`.
pub open spec fn name_opener() -> Seq<u8> {
    seq![59u8, 32u8, 110u8, 97u8, 109u8, 101u8, 61u8, 34u8]
}

/// Whether `t` is the quoted field name in `hay`: the first `; name="` in
/// `hay` is followed by `t` and then a `"`, where `t` is UTF-8 text that holds
/// no `"` and no line feed.
pub open spec fn quoted_name(hay: Seq<u8>, t: Seq<u8>) -> bool {
    match first_occurrence_from(hay, name_opener(), 0) {
        None => false,
        Some(p) => {
            &&& p + 8 + t.len() < hay.len()
            &&& hay.subrange(p + 8, p + 8 + t.len()) == t
            &&& hay[p + 8 + t.len()] == 34u8
            &&& forall|i: int| 0 <= i < t.len() ==> t[i] != 34u8 && t[i] != 10u8
            &&& valid_utf8(t)
        },
    }
}

/// The bytes an optional vector holds.
pub open spec fn bytes_of(r: Option<Vec<u8>>) -> Option<Seq<u8>> {
    match r {
        Some(g) => Some(g@),
        None => None,
    }
}

/// Whether `found` is the quoted name of `hay` wherever `hay` has one.
pub open spec fn captures_quoted_name(hay: Seq<u8>, found: Option<Seq<u8>>) -> bool {
    forall|t: Seq<u8>| quoted_name(hay, t) ==> found == Some(t)
}

/// The characters of the pattern `; name="(.*?)"`, one by one.
pub open spec fn name_pattern_chars() -> Seq<char> {
    seq![';', ' ', 'n', 'a', 'm', 'e', '=', '"', '(', '.', '*', '?', ')', '"']
}

/// What the `regex` crate's `bytes::Regex` built from `pattern` captures as
/// its first group in the leftmost match in `haystack`; none where the
/// pattern does not compile or does not match.
pub uninterp spec fn regex_first_group(pattern: Seq<char>, haystack: Seq<u8>) -> Option<Seq<u8>>;

/// `regex::bytes::Regex::new` then `captures`: the first group of the
/// leftmost match of `pattern` in `haystack`. Its contract claims that the
/// result is a function of the pattern and the haystack, and, for the pattern
/// `; name="(.*?)"`, what the crate's documentation gives: the match starts at
/// the first `; name="`, and in the default Unicode mode the lazy `.*?`
/// (any scalar value but a line feed) stops before the first `"`; so where the
/// text up to that `"` is UTF-8 without a line feed, it is the group. Other
/// patterns and other haystacks are left to the name alone.
#[verifier::external_body]
fn regex_capture(pattern: &str, haystack: &[u8]) -> (r: Option<Vec<u8>>)
    ensures
        match r {
            Some(g) => regex_first_group(pattern@, haystack@) == Some(g@),
            None => regex_first_group(pattern@, haystack@) is None,
        },
        pattern@ == name_pattern_chars() ==> captures_quoted_name(haystack@, bytes_of(r)),
{
    let re = regex::bytes::Regex::new(pattern).ok()?;
    let caps = re.captures(haystack)?;
    caps.get(1).map(|m| m.as_bytes().to_vec())
}

/// The boundary marker named by a `Content-Type` header value.
pub fn boundary_from_content_type(content_type: &[u8]) -> (r: Option<Vec<u8>>)
    ensures
        match r {
            Some(m) => boundary_spec(content_type@) == Some(m@),
            None => boundary_spec(content_type@) is None,
        },
{
    let eq: Vec<u8> = vec![61u8];
    assert(eq@ =~= seq![61u8]);
    match find_first(content_type, eq.as_slice()) {
        None => None,
        Some(i) => {
            proof {
                lemma_first_occurrence(content_type@, seq![61u8], 0);
                assert(occurs_at(content_type@, seq![61u8], i as int));
            }
            let n = content_type.len();
            assert(i + 1 <= n);
            let mut marker: Vec<u8> = Vec::new();
            marker.push(45u8);
            marker.push(45u8);
            let mut j = i + 1;
            while j < content_type.len()
                invariant
                    i + 1 <= j <= content_type@.len(),
                    marker@ =~= seq![45u8, 45u8] + content_type@.subrange(i + 1, j as int),
                decreases content_type@.len() - j,
            {
                marker.push(content_type[j]);
                j = j + 1;
            }
            Some(marker)
        },
    }
}

/// Copies `s[from..to]` into a new vector.
fn copy_range(s: &[u8], from: usize, to: usize) -> (r: Vec<u8>)
    requires
        from <= to <= s@.len(),
    ensures
        r@ == s@.subrange(from as int, to as int),
{
    let mut out: Vec<u8> = Vec::new();
    let mut j = from;
    while j < to
        invariant
            from <= j <= to <= s@.len(),
            out@ =~= s@.subrange(from as int, j as int),
        decreases to - j,
    {
        out.push(s[j]);
        j = j + 1;
    }
    out
}

/// Splits an upload body at the occurrences of `marker`.
#[verifier::rlimit(40)]
pub fn split_parts(body: &[u8], marker: &[u8]) -> (r: Option<Vec<Vec<u8>>>)
    ensures
        match r {
            Some(parts) => parts_spec(body@, marker@) matches Some(ps) && parts@.len() == ps.len()
                && forall|k: int| 0 <= k < ps.len() ==> #[trigger] parts@[k]@ == ps[k],
            None => parts_spec(body@, marker@) is None,
        },
{
    let found = find_all(body, marker);
    let ghost occ = occurrences_from(body@, marker@, 0);
    proof {
        lemma_occurrences(body@, marker@, 0);
    }
    if found.len() == 0 {
        return None;
    }
    let mut parts: Vec<Vec<u8>> = Vec::new();
    let mut k: usize = 0;
    while k < found.len() - 1
        invariant
            found@.len() == occ.len(),
            found@.len() > 0,
            forall|m: int| 0 <= m < found@.len() ==> #[trigger] found@[m] as int == occ[m],
            forall|m: int| 0 <= m < occ.len() ==> occurs_at(body@, marker@, #[trigger] occ[m]),
            forall|m: int|
                0 <= m < occ.len() - 1 ==> #[trigger] occ[m] + step_past(marker@) <= occ[m + 1],
            k < found@.len(),
            parts@.len() == k,
            forall|m: int|
                0 <= m < k ==> #[trigger] parts@[m]@ == body@.subrange(
                    occ[m] + marker@.len(),
                    occ[m + 1],
                ),
        decreases found@.len() - k,
    {
        let start = found[k];
        let end = found[k + 1];
        assert(occurs_at(body@, marker@, occ[k as int]));
        assert(occ[k as int] + step_past(marker@) <= occ[k + 1]);
        let piece = copy_range(body, start + marker.len(), end);
        parts.push(piece);
        k = k + 1;
    }
    proof {
        let ps = parts_spec(body@, marker@).unwrap();
        assert(ps.len() == parts@.len());
        assert forall|m: int| 0 <= m < ps.len() implies #[trigger] parts@[m]@ == ps[m] by {
            assert(parts@[m]@ == body@.subrange(occ[m] + marker@.len(), occ[m + 1]));
        }
    }
    Some(parts)
}

/// The field name of a part, as the name pattern captures it.
pub fn part_name(part: &[u8]) -> (r: Option<Vec<u8>>)
    ensures
        match r {
            Some(g) => regex_first_group(name_pattern(), part@) == Some(g@),
            None => regex_first_group(name_pattern(), part@) is None,
        },
        captures_quoted_name(part@, bytes_of(r)),
{
    proof {
        reveal_strlit("; name=\"(.*?)\"");
        assert("; name=\"(.*?)\""@ =~= name_pattern_chars());
    }
    regex_capture("; name=\"(.*?)\"", part)
}

/// The content of a part.
pub fn part_content(part: &[u8]) -> (r: Option<Vec<u8>>)
    ensures
        match r {
            Some(c) => part_content_spec(part@) == Some(c@),
            None => part_content_spec(part@) is None,
        },
{
    let blank: Vec<u8> = vec![13u8, 10u8, 13u8, 10u8];
    assert(blank@ =~= seq![13u8, 10u8, 13u8, 10u8]);
    match find_first(part, blank.as_slice()) {
        None => None,
        Some(i) => {
            proof {
                lemma_first_occurrence(part@, seq![13u8, 10u8, 13u8, 10u8], 0);
                assert(occurs_at(part@, seq![13u8, 10u8, 13u8, 10u8], i as int));
            }
            let len = part.len();
            let start = i + 4;
            let end = if len - start >= 2 && part[len - 2] == 13u8 && part[len - 1] == 10u8 {
                len - 2
            } else {
                len
            };
            let content = copy_range(part, start, end);
            proof {
                let rest = part@.subrange(start as int, len as int);
                assert(rest.len() >= 2 ==> rest[rest.len() - 2] == part@[len - 2]);
                assert(rest.len() >= 2 ==> rest[rest.len() - 1] == part@[len - 1]);
                if rest.len() >= 2 {
                    assert(rest.subrange(0, rest.len() - 2) =~= part@.subrange(
                        start as int,
                        len - 2,
                    ));
                }
            }
            Some(content)
        },
    }
}

/// No part contains the marker: each part ends at the very next occurrence of
/// the marker after the one that opens it.
pub proof fn lemma_parts_hold_no_marker(body: Seq<u8>, marker: Seq<u8>)
    requires
        marker.len() > 0,
    ensures
        parts_spec(body, marker) matches Some(ps) ==> forall|k: int, j: int|
            0 <= k < ps.len() ==> !#[trigger] occurs_at(ps[k], marker, j),
{
    if let Some(ps) = parts_spec(body, marker) {
        let occ = occurrences_from(body, marker, 0);
        lemma_occurrences(body, marker, 0);
        assert forall|k: int, j: int| 0 <= k < ps.len() implies !#[trigger] occurs_at(
            ps[k],
            marker,
            j,
        ) by {
            let a = occ[k] + marker.len();
            lemma_first_occurrence(body, marker, a);
            assert(first_occurrence_from(body, marker, a) == Some(occ[k + 1]));
            if occurs_at(ps[k], marker, j) {
                let part = ps[k];
                assert(part == body.subrange(a, occ[k + 1]));
                assert(body.subrange(a + j, a + j + marker.len()) =~= part.subrange(
                    j,
                    j + marker.len(),
                ));
                assert(occurs_at(body, marker, a + j));
            }
        }
    }
}

/// The marker is `--` followed by exactly the bytes after the first `=`,
/// byte for byte: for a value `a ++ "=" ++ t` where `a` holds no `=`, it is
/// `"--" ++ t`.
pub proof fn lemma_boundary_after_first_equals(a: Seq<u8>, t: Seq<u8>)
    requires
        forall|i: int| 0 <= i < a.len() ==> a[i] != 61u8,
    ensures
        boundary_spec(a + seq![61u8] + t) == Some(seq![45u8, 45u8] + t),
{
    let v = a + seq![61u8] + t;
    let eq = seq![61u8];
    assert(v.subrange(a.len() as int, a.len() + 1int) =~= eq);
    assert forall|j: int| 0 <= j < a.len() implies !occurs_at(v, eq, j) by {
        assert(v.subrange(j, j + 1)[0] == a[j]);
    }
    lemma_first_occurrence_is(v, eq, 0, a.len() as int);
    assert(v.subrange(a.len() + 1int, v.len() as int) =~= t);
}

/// A value without `=` names no marker.
pub proof fn lemma_no_equals_no_boundary(v: Seq<u8>)
    requires
        forall|i: int| 0 <= i < v.len() ==> v[i] != 61u8,
    ensures
        boundary_spec(v) is None,
{
    let eq = seq![61u8];
    assert forall|j: int| 0 <= j implies !occurs_at(v, eq, j) by {
        if occurs_at(v, eq, j) {
            assert(v.subrange(j, j + 1)[0] == v[j]);
        }
    }
    lemma_no_occurrence(v, eq, 0);
}

/// The blank line that ends a part's headers.
pub open spec fn blank_line() -> Seq<u8> {
    seq![13u8, 10u8, 13u8, 10u8]
}

/// A part's content is everything after its first blank line, less one
/// trailing `\r\n`, whatever bytes it holds: for a part
/// `h ++ "\r\n\r\n" ++ d ++ "\r\n"` whose first blank line is the one after
/// `h`, the content is `d`; without the trailing `\r\n`, where `d` does not
/// itself end in one, the content is also `d`.
pub proof fn lemma_content_after_blank_line(h: Seq<u8>, d: Seq<u8>)
    requires
        forall|j: int| 0 <= j < h.len() ==> !occurs_at(h + blank_line(), blank_line(), j),
    ensures
        part_content_spec(h + blank_line() + d + seq![13u8, 10u8]) == Some(d),
        !(d.len() >= 2 && d[d.len() - 2] == 13u8 && d[d.len() - 1] == 10u8)
            ==> part_content_spec(h + blank_line() + d) == Some(d),
{
    let blank = blank_line();
    let head = h + blank;
    assert(blank =~= seq![13u8, 10u8, 13u8, 10u8]);
    let part = head + d + seq![13u8, 10u8];
    let part2 = head + d;
    assert(part.subrange(h.len() as int, h.len() + 4int) =~= blank);
    assert(part2.subrange(h.len() as int, h.len() + 4int) =~= blank);
    assert forall|j: int| 0 <= j < h.len() implies !occurs_at(part, blank, j) by {
        assert(!occurs_at(h + blank_line(), blank_line(), j));
        assert(part.subrange(j, j + 4) =~= head.subrange(j, j + 4));
    }
    assert forall|j: int| 0 <= j < h.len() implies !occurs_at(part2, blank, j) by {
        assert(!occurs_at(h + blank_line(), blank_line(), j));
        assert(part2.subrange(j, j + 4) =~= head.subrange(j, j + 4));
    }
    lemma_first_occurrence_is(part, blank, 0, h.len() as int);
    lemma_first_occurrence_is(part2, blank, 0, h.len() as int);
    let rest = part.subrange(h.len() + 4int, part.len() as int);
    assert(rest =~= d + seq![13u8, 10u8]);
    assert(rest.subrange(0, rest.len() - 2) =~= d);
    assert(part2.subrange(h.len() + 4int, part2.len() as int) =~= d);
}

/// A part's field name is the text between its first `; name="` and the
/// next `"`, whatever it holds (letters, digits, spaces, punctuation, any
/// UTF-8), so long as it has no `"` and no line feed: such a part has that
/// text as its quoted name, which `part_name` returns.
pub proof fn lemma_quoted_name_of_part(h: Seq<u8>, t: Seq<u8>, rest: Seq<u8>)
    requires
        forall|j: int| 0 <= j < h.len() ==> !occurs_at(h + name_opener(), name_opener(), j),
        forall|i: int| 0 <= i < t.len() ==> t[i] != 34u8 && t[i] != 10u8,
        valid_utf8(t),
    ensures
        quoted_name(h + name_opener() + t + seq![34u8] + rest, t),
        forall|found: Option<Seq<u8>>|
            captures_quoted_name(h + name_opener() + t + seq![34u8] + rest, found) ==> found == Some(
                t,
            ),
{
    let opener = name_opener();
    let head = h + opener;
    let part = head + t + seq![34u8] + rest;
    assert(part.subrange(h.len() as int, h.len() + 8int) =~= opener);
    assert forall|j: int| 0 <= j < h.len() implies !occurs_at(part, opener, j) by {
        assert(!occurs_at(h + name_opener(), name_opener(), j));
        assert(part.subrange(j, j + 8) =~= head.subrange(j, j + 8));
    }
    lemma_first_occurrence_is(part, opener, 0, h.len() as int);
    let p = h.len() as int;
    assert(part.subrange(p + 8, p + 8 + t.len()) =~= t);
    assert(part[p + 8 + t.len()] == 34u8);
}

} // verus!

//! The note store's rules: the counter that numbers uploads, the storage keys
//! of a note's recording, cleaned transcript and summary, when a stored note
//! is complete, and how a summary is previewed.

use vstd::prelude::*;
use vstd::string::{StringExecFns, StringSliceAdditionalSpecFns};
use vstd::utf8::{decode_utf8, encode_utf8_decode_utf8, is_char_boundary};
use crate::text::{decimal_of, decimal_text, lemma_decimal_parse_roundtrip, parse_i32, parsed_i32};

verus! {

/// A note as the notes page shows it.
pub struct Note {
    pub title: String,
    pub cleaned: String,
    pub summary: String,
}

/// Why the stored upload counter cannot be used.
#[derive(Clone, Copy, Debug, PartialEq, Eq, Structural)]
pub enum CountError {
    /// No counter is stored.
    Missing,
    /// The stored counter is not the text of an `i32`.
    NotANumber,
    /// The stored counter is already the largest `i32`.
    Overflow,
}

/// The number of the next upload, given the stored counter: 0 when none is
/// stored, else one more than the stored number.
pub open spec fn next_id_spec(stored: Option<Seq<char>>) -> Result<i32, CountError> {
    match stored {
        None => Ok(0),
        Some(t) => match parsed_i32(t) {
            None => Err(CountError::NotANumber),
            Some(n) => if n == i32::MAX {
                Err(CountError::Overflow)
            } else {
                Ok((n + 1) as i32)
            },
        },
    }
}

/// The number of notes that the stored counter names, for listing them.
pub open spec fn note_count_spec(stored: Option<Seq<char>>) -> Result<i32, CountError> {
    match stored {
        None => Err(CountError::Missing),
        Some(t) => match parsed_i32(t) {
            None => Err(CountError::NotANumber),
            Some(n) => Ok(n),
        },
    }
}

/// The view of an optional text.
pub open spec fn text_view(s: Option<&str>) -> Option<Seq<char>> {
    match s {
        None => None,
        Some(t) => Some(t@),
    }
}

/// The number for the next upload.
pub fn next_note_id(stored: Option<&str>) -> (r: Result<i32, CountError>)
    ensures
        r == next_id_spec(text_view(stored)),
{
    match stored {
        None => Ok(0),
        Some(t) => match parse_i32(t) {
            None => Err(CountError::NotANumber),
            Some(n) => if n == i32::MAX {
                Err(CountError::Overflow)
            } else {
                Ok(n + 1)
            },
        },
    }
}

/// The number of notes to list.
pub fn stored_note_count(stored: Option<&str>) -> (r: Result<i32, CountError>)
    ensures
        r == note_count_spec(text_view(stored)),
{
    match stored {
        None => Err(CountError::Missing),
        Some(t) => match parse_i32(t) {
            None => Err(CountError::NotANumber),
            Some(n) => Ok(n),
        },
    }
}

/// Storing the counter as the decimal text of the upload's number makes the
/// next upload's number one more: numbers are handed out in order.
pub proof fn lemma_counter_roundtrip(id: i32)
    requires
        id < i32::MAX,
    ensures
        next_id_spec(Some(decimal_of(id as int))) == Ok::<i32, CountError>((id + 1) as i32),
        note_count_spec(Some(decimal_of(id as int))) == Ok::<i32, CountError>(id),
{
    lemma_decimal_parse_roundtrip(id);
}

/// The text of a note's number, as keys and the workflow use it.
pub fn note_id_text(id: i32) -> (r: String)
    ensures
        r@ == decimal_of(id as int),
{
    decimal_text(id as i64)
}

/// The key of a note's uploaded recording.
pub fn raw_key(id: &str) -> (r: String)
    ensures
        r@ == "raw/"@ + id@,
{
    String::from_str("raw/").concat(id)
}

/// The key of a note's cleaned transcript.
pub fn cleaned_key(id: &str) -> (r: String)
    ensures
        r@ == "cleaned/"@ + id@,
{
    String::from_str("cleaned/").concat(id)
}

/// The key of a note's summary.
pub fn summary_key(id: &str) -> (r: String)
    ensures
        r@ == "summary/"@ + id@,
{
    String::from_str("summary/").concat(id)
}

/// A stored note is listed only when its title, cleaned transcript and
/// summary are all there.
pub fn note_from_parts(title: Option<String>, cleaned: Option<String>, summary: Option<String>) -> (r:
    Option<Note>)
    ensures
        r is Some <==> (title is Some && cleaned is Some && summary is Some),
        r matches Some(n) ==> n.title == title->Some_0 && n.cleaned == cleaned->Some_0
            && n.summary == summary->Some_0,
{
    match (title, cleaned, summary) {
        (Some(title), Some(cleaned), Some(summary)) => Some(Note { title, cleaned, summary }),
        _ => None,
    }
}

/// A preview of `text`: its first `max_length` bytes and `...` when it is
/// longer, else all of it.
pub fn truncate_text(text: &str, max_length: usize) -> (r: String)
    requires
        text.spec_bytes().len() <= usize::MAX,
        text.spec_bytes().len() > max_length ==> is_char_boundary(
            text.spec_bytes(),
            max_length as int,
        ),
    ensures
        text.spec_bytes().len() > max_length ==> r@ == decode_utf8(
            text.spec_bytes().subrange(0, max_length as int),
        ) + "..."@,
        text.spec_bytes().len() <= max_length ==> r@ == text@,
{
    if text.len() > max_length {
        let (head, _) = text.split_at(max_length);
        proof {
            encode_utf8_decode_utf8(head@);
            assert(head.spec_bytes() == text.spec_bytes().subrange(0, max_length as int));
            assert(decode_utf8(text.spec_bytes().subrange(0, max_length as int)) == head@);
        }
        String::from_str(head).concat("...")
    } else {
        String::from_str(text)
    }
}

} // verus!

use notes_cf::notes::{
    cleaned_key, next_note_id, note_from_parts, note_id_text, raw_key, stored_note_count,
    summary_key, truncate_text, CountError,
};

#[test]
fn number_texts() {
    assert_eq!(note_id_text(-42), "-42");
    assert_eq!(note_id_text(0), "0");
    assert_eq!(note_id_text(1234567), "1234567");
    assert_eq!(stored_note_count(Some("+5")), Ok(5));
    assert_eq!(stored_note_count(Some("-0")), Ok(0));
    assert_eq!(stored_note_count(Some("007")), Ok(7));
    assert_eq!(stored_note_count(Some("-2147483648")), Ok(i32::MIN));
    assert_eq!(stored_note_count(Some("2147483648")), Err(CountError::NotANumber));
    assert_eq!(stored_note_count(Some("")), Err(CountError::NotANumber));
    assert_eq!(stored_note_count(Some("-")), Err(CountError::NotANumber));
    assert_eq!(stored_note_count(Some("1 ")), Err(CountError::NotANumber));
    assert_eq!(next_note_id(Some("-1")), Ok(0));
}

#[test]
fn counter_numbers_uploads() {
    assert_eq!(next_note_id(None), Ok(0));
    assert_eq!(next_note_id(Some("5")), Ok(6));
    assert_eq!(next_note_id(Some("five")), Err(CountError::NotANumber));
    assert_eq!(next_note_id(Some("2147483647")), Err(CountError::Overflow));
    let id = 41;
    let stored = note_id_text(id);
    assert_eq!(next_note_id(Some(&stored)), Ok(42));
    assert_eq!(stored_note_count(Some(&stored)), Ok(41));
    assert_eq!(stored_note_count(None), Err(CountError::Missing));
    assert_eq!(stored_note_count(Some("x")), Err(CountError::NotANumber));
}

#[test]
fn storage_keys() {
    assert_eq!(raw_key("7"), "raw/7");
    assert_eq!(cleaned_key("7"), "cleaned/7");
    assert_eq!(summary_key(&note_id_text(12)), "summary/12");
}

#[test]
fn complete_notes_only() {
    let n = note_from_parts(Some("t".into()), Some("c".into()), Some("s".into())).unwrap();
    assert_eq!((n.title.as_str(), n.cleaned.as_str(), n.summary.as_str()), ("t", "c", "s"));
    assert!(note_from_parts(None, Some("c".into()), Some("s".into())).is_none());
    assert!(note_from_parts(Some("t".into()), None, Some("s".into())).is_none());
    assert!(note_from_parts(Some("t".into()), Some("c".into()), None).is_none());
}

#[test]
fn summary_preview() {
    assert_eq!(truncate_text("short", 150), "short");
    let long = "a".repeat(151);
    assert_eq!(truncate_text(&long, 150), format!("{}...", "a".repeat(150)));
    assert_eq!(truncate_text("abcdef", 6), "abcdef");
    assert_eq!(truncate_text("héllo", 3), "hé...");
}

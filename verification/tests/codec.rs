use recall::errors::RecallError;
use recall::note::{Note, NoteContent};
use recall::rows::{decode_content, encode_content};
use recall::store::Store;

#[test]
fn encode_then_decode_returns_the_same_variant() {
    let cases: Vec<Option<NoteContent>> = vec![
        None,
        Some(NoteContent::Path("/tmp/a".to_string())),
        Some(NoteContent::Link("https://x/y".to_string())),
        Some(NoteContent::Text("some text".to_string())),
    ];
    for c in cases {
        let (path, link, text) = encode_content(&c);
        let back = decode_content(&path, &link, &text).unwrap();
        match (&c, &back) {
            (None, None) => {}
            (Some(NoteContent::Path(a)), Some(NoteContent::Path(b))) => assert_eq!(a, b),
            (Some(NoteContent::Link(a)), Some(NoteContent::Link(b))) => assert_eq!(a, b),
            (Some(NoteContent::Text(a)), Some(NoteContent::Text(b))) => assert_eq!(a, b),
            _ => panic!("variant changed across the round trip"),
        }
    }
}

#[test]
fn encode_populates_exactly_the_matching_column() {
    let (p, l, t) = encode_content(&Some(NoteContent::Text("x".to_string())));
    assert!(p.is_none() && l.is_none());
    assert_eq!(t.as_deref(), Some("x"));
    let (p, l, t) = encode_content(&Some(NoteContent::Path("/a".to_string())));
    assert_eq!(p.as_deref(), Some("/a"));
    assert!(l.is_none() && t.is_none());
    let (p, l, t) = encode_content(&Some(NoteContent::Link("https://a".to_string())));
    assert_eq!(l.as_deref(), Some("https://a"));
    assert!(p.is_none() && t.is_none());
    let (p, l, t) = encode_content(&None);
    assert!(p.is_none() && l.is_none() && t.is_none());
}

#[test]
fn decode_rejects_more_than_one_populated_column() {
    let two = decode_content(
        &Some("/a".to_string()),
        &Some("https://b".to_string()),
        &None,
    );
    assert!(matches!(two, Err(RecallError::InvalidRow)));
    let other_two = decode_content(&None, &Some("https://b".to_string()), &Some("t".to_string()));
    assert!(matches!(other_two, Err(RecallError::InvalidRow)));
    let three = decode_content(
        &Some("/a".to_string()),
        &Some("https://b".to_string()),
        &Some("t".to_string()),
    );
    assert!(matches!(three, Err(RecallError::InvalidRow)));
}

#[test]
fn text_note_round_trips_through_the_store_as_text() {
    let mut s = Store::new();
    s.insert(Note::new_with_text("note".to_string(), "x".to_string(), 100));
    let n = s.read_nth(0).unwrap();
    match n.content {
        Some(NoteContent::Text(t)) => assert_eq!(t, "x"),
        Some(NoteContent::Link(_)) => panic!("text note came back as a link"),
        Some(NoteContent::Path(_)) => panic!("text note came back as a path"),
        None => panic!("text note came back bare"),
    }
}

#[test]
fn error_messages_name_each_error() {
    assert_eq!(RecallError::NotFound.message(), "note not found");
    assert_eq!(
        RecallError::InvalidRow.message(),
        "a stored row violates the store invariants"
    );
    assert_eq!(
        RecallError::EmptyEditorCommand.message(),
        "the first entry in editor_command must be the path to a text editor program"
    );
    assert_eq!(
        RecallError::ConflictingContentFlags.message(),
        "at most one of path, link and text may be supplied"
    );
    assert_eq!(
        RecallError::EmptyTitle.message(),
        "a note title must not be empty"
    );
}

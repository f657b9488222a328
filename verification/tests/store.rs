use recall::note::{Note, NoteContent};
use recall::errors::RecallError;
use recall::rows::{encode_content, RawRow};
use recall::store::Store;

fn bare(title: &str, at: i64) -> Note {
    Note::new(title.to_string(), at)
}

#[test]
fn empty_store_lists_nothing() {
    let s = Store::new();
    assert_eq!(s.list().len(), 0);
    assert!(matches!(s.read_nth(0), Err(RecallError::NotFound)));
}

#[test]
fn insert_then_list_returns_all_in_order() {
    let mut s = Store::new();
    // inserted out of timestamp order on purpose
    s.insert(bare("c", 3000));
    s.insert(bare("a", 1000));
    s.insert(bare("e", 5000));
    s.insert(bare("b", 2000));
    s.insert(bare("d", 4000));
    let notes = s.list();
    assert_eq!(notes.len(), 5);
    let titles: Vec<&str> = notes.iter().map(|n| n.title.as_str()).collect();
    assert_eq!(titles, vec!["a", "b", "c", "d", "e"]);
    for w in notes.windows(2) {
        assert!(w[0].datetime_millis <= w[1].datetime_millis);
    }
}

#[test]
fn equal_timestamps_keep_insertion_order() {
    let mut s = Store::new();
    s.insert(bare("first", 1000));
    s.insert(bare("second", 1000));
    s.insert(bare("third", 1000));
    let notes = s.list();
    let titles: Vec<&str> = notes.iter().map(|n| n.title.as_str()).collect();
    assert_eq!(titles, vec!["first", "second", "third"]);
}

#[test]
fn read_nth_matches_list_order() {
    let mut s = Store::new();
    s.insert(bare("one", 10));
    s.insert(bare("two", 20));
    s.insert(bare("three", 30));
    let notes = s.list();
    for i in 0..notes.len() {
        let n = s.read_nth(i).unwrap();
        assert_eq!(n.title, notes[i].title);
        assert_eq!(n.datetime_millis, notes[i].datetime_millis);
    }
    assert!(matches!(s.read_nth(3), Err(RecallError::NotFound)));
    assert!(matches!(s.read_nth(1000), Err(RecallError::NotFound)));
}

#[test]
fn archive_removes_note_and_shrinks_count_by_one() {
    let mut s = Store::new();
    s.insert(bare("one", 10));
    s.insert(bare("two", 20));
    s.insert(bare("three", 30));
    let (_, title) = s.archive(1).unwrap();
    assert_eq!(title, "two");
    let notes = s.list();
    assert_eq!(notes.len(), 2);
    assert!(notes.iter().all(|n| n.title != "two"));
    let titles: Vec<&str> = notes.iter().map(|n| n.title.as_str()).collect();
    assert_eq!(titles, vec!["one", "three"]);
    // the same index now names the note that moved up
    let n = s.read_nth(1).unwrap();
    assert_eq!(n.title, "three");
}

#[test]
fn archive_out_of_range_changes_nothing() {
    let mut s = Store::new();
    s.insert(bare("one", 10));
    s.insert(bare("two", 20));
    assert!(matches!(s.archive(2), Err(RecallError::NotFound)));
    assert!(matches!(s.archive(100), Err(RecallError::NotFound)));
    let titles: Vec<String> = s.list().into_iter().map(|n| n.title).collect();
    assert_eq!(titles, vec!["one".to_string(), "two".to_string()]);
}

#[test]
fn archive_all_then_none_left() {
    let mut s = Store::new();
    s.insert(bare("one", 10));
    s.insert(bare("two", 20));
    s.archive(0).unwrap();
    s.archive(0).unwrap();
    assert_eq!(s.list().len(), 0);
    assert!(matches!(s.archive(0), Err(RecallError::NotFound)));
}

#[test]
fn update_nth_text_replaces_content_in_place() {
    let mut s = Store::new();
    s.insert(Note::new_with_text("todo".to_string(), "old body".to_string(), 10));
    s.insert(bare("later", 20));
    s.update_nth_text(0, "new body".to_string()).unwrap();
    let n = s.read_nth(0).unwrap();
    assert_eq!(n.title, "todo");
    match n.content {
        Some(NoteContent::Text(t)) => assert_eq!(t, "new body"),
        _ => panic!("expected text content"),
    }
    assert_eq!(s.list().len(), 2);
    assert!(matches!(
        s.update_nth_text(2, "x".to_string()),
        Err(RecallError::NotFound)
    ));
}

fn raw(id: i64, at: i64, archived: bool, title: &str) -> RawRow {
    RawRow {
        id,
        datetime_millis: at,
        archived,
        title: title.to_string(),
        path: None,
        link: None,
        text: None,
    }
}

#[test]
fn from_rows_accepts_ordered_rows_and_skips_archived_in_listing() {
    let rows = vec![
        raw(1, 100, false, "one"),
        raw(2, 200, true, "two"),
        raw(3, 300, false, "three"),
    ];
    let s = Store::from_rows(&rows).unwrap();
    let titles: Vec<String> = s.list().into_iter().map(|n| n.title).collect();
    assert_eq!(titles, vec!["one".to_string(), "three".to_string()]);
}

#[test]
fn from_rows_then_insert_assigns_a_fresh_id() {
    let rows = vec![raw(4, 100, false, "one"), raw(7, 200, false, "two")];
    let mut s = Store::from_rows(&rows).unwrap();
    let id = s.insert(bare("three", 300));
    assert_eq!(id, 8);
}

#[test]
fn from_rows_rejects_a_row_with_two_content_columns() {
    let mut bad = raw(1, 100, false, "one");
    bad.path = Some("/tmp/a".to_string());
    bad.link = Some("https://x/y".to_string());
    assert!(matches!(
        Store::from_rows(&vec![bad]),
        Err(RecallError::InvalidRow)
    ));
}

#[test]
fn from_rows_rejects_an_empty_title() {
    assert!(matches!(
        Store::from_rows(&vec![raw(1, 100, false, "")]),
        Err(RecallError::InvalidRow)
    ));
}

#[test]
fn from_rows_rejects_a_negative_timestamp() {
    assert!(matches!(
        Store::from_rows(&vec![raw(1, -5, false, "one")]),
        Err(RecallError::InvalidRow)
    ));
}

#[test]
fn from_rows_rejects_rows_out_of_key_order() {
    let rows = vec![raw(2, 200, false, "two"), raw(1, 100, false, "one")];
    assert!(matches!(
        Store::from_rows(&rows),
        Err(RecallError::InvalidRow)
    ));
    // equal timestamps must come in ascending id order
    let rows = vec![raw(2, 100, false, "two"), raw(1, 100, false, "one")];
    assert!(matches!(
        Store::from_rows(&rows),
        Err(RecallError::InvalidRow)
    ));
}

#[test]
fn listing_survives_a_trip_through_persisted_rows() {
    let mut s = Store::new();
    s.insert(Note::new_with_path(
        "doc".to_string(),
        "/tmp/doc".to_string(),
        100,
    ));
    s.insert(Note::new_with_text("todo".to_string(), "milk".to_string(), 200));
    s.insert(bare("plain", 300));
    let notes = s.list();
    // encode each note the way the persistence layer stores it
    let rows: Vec<RawRow> = notes
        .iter()
        .enumerate()
        .map(|(i, n)| {
            let (path, link, text) = encode_content(&n.content);
            RawRow {
                id: i as i64 + 1,
                datetime_millis: n.datetime_millis,
                archived: false,
                title: n.title.clone(),
                path,
                link,
                text,
            }
        })
        .collect();
    let reloaded = Store::from_rows(&rows).unwrap();
    let back = reloaded.list();
    assert_eq!(back.len(), notes.len());
    for (a, b) in notes.iter().zip(back.iter()) {
        assert_eq!(a.title, b.title);
        assert_eq!(a.datetime_millis, b.datetime_millis);
        match (&a.content, &b.content) {
            (None, None) => {}
            (Some(NoteContent::Path(x)), Some(NoteContent::Path(y))) => assert_eq!(x, y),
            (Some(NoteContent::Link(x)), Some(NoteContent::Link(y))) => assert_eq!(x, y),
            (Some(NoteContent::Text(x)), Some(NoteContent::Text(y))) => assert_eq!(x, y),
            _ => panic!("content variant changed across persistence"),
        }
    }
}

#[test]
fn example_scenario() {
    let mut s = Store::new();
    s.insert(Note::new("buy milk".to_string(), 1000));
    s.insert(Note::new_with_link(
        "deploy".to_string(),
        "https://x/y".to_string(),
        2000,
    ));
    let notes = s.list();
    let titles: Vec<&str> = notes.iter().map(|n| n.title.as_str()).collect();
    assert_eq!(titles, vec!["buy milk", "deploy"]);
    let n = s.read_nth(1).unwrap();
    assert_eq!(n.title, "deploy");
    match n.content {
        Some(NoteContent::Link(l)) => assert_eq!(l, "https://x/y"),
        _ => panic!("expected link content"),
    }
    let (_, archived_title) = s.archive(0).unwrap();
    assert_eq!(archived_title, "buy milk");
    let titles: Vec<String> = s.list().into_iter().map(|n| n.title).collect();
    assert_eq!(titles, vec!["deploy".to_string()]);
}

use recall::cli::{decide, open_command, parse_index, resolve_editor_command, Action, Request};
use recall::errors::RecallError;
use recall::note::{Note, NoteContent};

fn request(positional: Option<&str>) -> Request {
    Request {
        note_title_or_index: positional.map(|s| s.to_string()),
        archive: false,
        edit: false,
        path: None,
        link: None,
        text: None,
    }
}

#[test]
fn parse_index_accepts_plain_digit_strings() {
    assert_eq!(parse_index("0"), Some(0));
    assert_eq!(parse_index("2"), Some(2));
    assert_eq!(parse_index("007"), Some(7));
    assert_eq!(parse_index("123456"), Some(123456));
}

#[test]
fn parse_index_rejects_anything_else() {
    assert_eq!(parse_index(""), None);
    assert_eq!(parse_index("-3"), None);
    assert_eq!(parse_index("+3"), None);
    assert_eq!(parse_index("12a"), None);
    assert_eq!(parse_index("1 "), None);
    assert_eq!(parse_index("1.5"), None);
    assert_eq!(parse_index("buy milk"), None);
    assert_eq!(parse_index("²"), None);
    assert_eq!(parse_index("九"), None);
    // far beyond any index
    assert_eq!(parse_index("99999999999999999999999999999"), None);
}

#[test]
fn no_positional_argument_lists() {
    assert!(matches!(decide(request(None), 1000), Action::List));
}

#[test]
fn archive_without_index_is_a_usage_error() {
    let mut r = request(None);
    r.archive = true;
    assert!(matches!(decide(r, 1000), Action::ArchiveUsage));
}

#[test]
fn archive_with_index_archives() {
    let mut r = request(Some("2"));
    r.archive = true;
    assert!(matches!(decide(r, 1000), Action::ArchiveAt(2)));
}

#[test]
fn archive_with_a_non_index_is_reported() {
    let mut r = request(Some("buy milk"));
    r.archive = true;
    assert!(matches!(decide(r, 1000), Action::ArchiveBadIndex));
}

#[test]
fn an_index_is_shown_or_edited() {
    assert!(matches!(decide(request(Some("1")), 1000), Action::Show(1)));
    let mut r = request(Some("1"));
    r.edit = true;
    assert!(matches!(decide(r, 1000), Action::EditAt(1)));
}

#[test]
fn a_title_inserts_a_bare_note() {
    match decide(request(Some("buy milk")), 1234) {
        Action::Insert(n) => {
            assert_eq!(n.title, "buy milk");
            assert_eq!(n.datetime_millis, 1234);
            assert!(n.content.is_none());
        }
        _ => panic!("expected an insert"),
    }
}

#[test]
fn a_title_with_one_content_flag_inserts_that_variant() {
    let mut r = request(Some("docs"));
    r.path = Some("/tmp/doc.txt".to_string());
    match decide(r, 10) {
        Action::Insert(n) => match n.content {
            Some(NoteContent::Path(p)) => assert_eq!(p, "/tmp/doc.txt"),
            _ => panic!("expected path content"),
        },
        _ => panic!("expected an insert"),
    }
    let mut r = request(Some("deploy"));
    r.link = Some("https://x/y".to_string());
    match decide(r, 10) {
        Action::Insert(n) => match n.content {
            Some(NoteContent::Link(l)) => assert_eq!(l, "https://x/y"),
            _ => panic!("expected link content"),
        },
        _ => panic!("expected an insert"),
    }
    let mut r = request(Some("todo"));
    r.text = Some("remember".to_string());
    match decide(r, 10) {
        Action::Insert(n) => match n.content {
            Some(NoteContent::Text(t)) => assert_eq!(t, "remember"),
            _ => panic!("expected text content"),
        },
        _ => panic!("expected an insert"),
    }
}

#[test]
fn two_content_flags_are_rejected() {
    let mut r = request(Some("docs"));
    r.path = Some("/a".to_string());
    r.link = Some("https://b".to_string());
    assert!(matches!(
        decide(r, 10),
        Action::Reject(RecallError::ConflictingContentFlags)
    ));
    let mut r = request(Some("docs"));
    r.link = Some("https://b".to_string());
    r.text = Some("t".to_string());
    assert!(matches!(
        decide(r, 10),
        Action::Reject(RecallError::ConflictingContentFlags)
    ));
}

#[test]
fn edit_with_a_title_composes_in_the_editor() {
    let mut r = request(Some("journal"));
    r.edit = true;
    match decide(r, 10) {
        Action::ComposeNew(title) => assert_eq!(title, "journal"),
        _ => panic!("expected editor composition"),
    }
}

#[test]
fn edit_with_a_content_flag_is_rejected() {
    let mut r = request(Some("journal"));
    r.edit = true;
    r.text = Some("t".to_string());
    assert!(matches!(
        decide(r, 10),
        Action::Reject(RecallError::ConflictingContentFlags)
    ));
}

#[test]
fn an_empty_title_is_rejected() {
    assert!(matches!(
        decide(request(Some("")), 10),
        Action::Reject(RecallError::EmptyTitle)
    ));
}

#[test]
fn editor_command_defaults_to_vi() {
    let (prog, args) = resolve_editor_command(&None).unwrap();
    assert_eq!(prog, "vi");
    assert!(args.is_empty());
}

#[test]
fn editor_command_splits_into_program_and_arguments() {
    let cmd = Some(vec![
        "code".to_string(),
        "--wait".to_string(),
        "--new-window".to_string(),
    ]);
    let (prog, args) = resolve_editor_command(&cmd).unwrap();
    assert_eq!(prog, "code");
    assert_eq!(args, vec!["--wait".to_string(), "--new-window".to_string()]);
}

#[test]
fn an_empty_editor_command_is_rejected() {
    assert!(matches!(
        resolve_editor_command(&Some(vec![])),
        Err(RecallError::EmptyEditorCommand)
    ));
}

#[test]
fn open_command_picks_the_opener_for_each_variant() {
    let n = Note::new_with_path("a".to_string(), "/tmp/a".to_string(), 1);
    let (prog, arg) = open_command(&n).unwrap();
    assert_eq!((prog, arg.as_str()), ("open", "/tmp/a"));
    let n = Note::new_with_link("b".to_string(), "https://x".to_string(), 1);
    let (prog, arg) = open_command(&n).unwrap();
    assert_eq!((prog, arg.as_str()), ("open", "https://x"));
    let n = Note::new_with_text("c".to_string(), "hello".to_string(), 1);
    let (prog, arg) = open_command(&n).unwrap();
    assert_eq!((prog, arg.as_str()), ("echo", "hello"));
    let n = Note::new("d".to_string(), 1);
    assert!(open_command(&n).is_none());
}

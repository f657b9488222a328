//! The command-line decision logic: what one invocation should do, as a
//! pure function from the parsed arguments to an action. The surrounding
//! program performs the action (querying the store, printing, spawning an
//! opener or editor) and owns all input and output.

use vstd::prelude::*;

use crate::errors::RecallError;
use crate::note::ContentView;
use crate::note::Note;
use crate::note::NoteContent;
use crate::note::NoteView;
use crate::rows::opt_string_view;

verus! {

/// One invocation's parsed arguments: the optional positional argument
/// (a note title or an index), the archive and edit flags, and the
/// optional content sources for a new note.
pub struct Request {
    pub note_title_or_index: Option<String>,
    pub archive: bool,
    pub edit: bool,
    pub path: Option<String>,
    pub link: Option<String>,
    pub text: Option<String>,
}

/// The mathematical value of a `Request`.
pub ghost struct RequestView {
    pub note_title_or_index: Option<Seq<char>>,
    pub archive: bool,
    pub edit: bool,
    pub path: Option<Seq<char>>,
    pub link: Option<Seq<char>>,
    pub text: Option<Seq<char>>,
}

impl View for Request {
    type V = RequestView;

    open spec fn view(&self) -> RequestView {
        RequestView {
            note_title_or_index: opt_string_view(self.note_title_or_index),
            archive: self.archive,
            edit: self.edit,
            path: opt_string_view(self.path),
            link: opt_string_view(self.link),
            text: opt_string_view(self.text),
        }
    }
}

/// What one invocation should do. The surrounding program carries the
/// action out: it lists, shows or archives through the store, spawns the
/// editor or opener, prints the usage messages, and reports rejections.
pub enum Action {
    /// List the unarchived notes.
    List,
    /// Display the note at this listing position and open its content.
    Show(usize),
    /// Edit the text of the note at this listing position.
    EditAt(usize),
    /// Archive the note at this listing position.
    ArchiveAt(usize),
    /// The archive flag came without a positional argument.
    ArchiveUsage,
    /// The archive flag came with a positional argument that is no index.
    ArchiveBadIndex,
    /// Compose a new text note with this title in the editor.
    ComposeNew(String),
    /// Insert this new note.
    Insert(Note),
    /// The request is rejected with this error.
    Reject(RecallError),
}

/// The mathematical value of an `Action`.
pub ghost enum ActionView {
    List,
    Show(int),
    EditAt(int),
    ArchiveAt(int),
    ArchiveUsage,
    ArchiveBadIndex,
    ComposeNew(Seq<char>),
    Insert(NoteView),
    Reject(RecallError),
}

impl View for Action {
    type V = ActionView;

    open spec fn view(&self) -> ActionView {
        match self {
            Action::List => ActionView::List,
            Action::Show(i) => ActionView::Show(*i as int),
            Action::EditAt(i) => ActionView::EditAt(*i as int),
            Action::ArchiveAt(i) => ActionView::ArchiveAt(*i as int),
            Action::ArchiveUsage => ActionView::ArchiveUsage,
            Action::ArchiveBadIndex => ActionView::ArchiveBadIndex,
            Action::ComposeNew(t) => ActionView::ComposeNew(t@),
            Action::Insert(n) => ActionView::Insert(n@),
            Action::Reject(e) => ActionView::Reject(*e),
        }
    }
}

/// Whether every character of `s` is a decimal digit.
pub open spec fn spec_is_digits(s: Seq<char>) -> bool {
    forall|i: int| 0 <= i < s.len() ==> '0' as int <= #[trigger] s[i] as int <= '9' as int
}

/// The numeric value of a digit string.
pub open spec fn digits_value(s: Seq<char>) -> int
    decreases s.len(),
{
    if s.len() == 0 {
        0
    } else {
        digits_value(s.drop_last()) * 10 + (s.last() as int - '0' as int)
    }
}

/// What parsing a positional argument as an index yields: its numeric
/// value when it is a non-empty, all-digit string whose value fits an
/// index, and nothing otherwise — the argument is then a title.
pub open spec fn spec_parse_index(s: Seq<char>) -> Option<int> {
    if s.len() > 0 && spec_is_digits(s) && digits_value(s) <= usize::MAX {
        Option::Some(digits_value(s))
    } else {
        Option::None
    }
}

/// The value of a digit string is never negative.
proof fn lemma_digits_value_nonneg(s: Seq<char>)
    requires
        spec_is_digits(s),
    ensures
        digits_value(s) >= 0,
    decreases s.len(),
{
    if s.len() > 0 {
        let d = s.drop_last();
        assert forall|i: int| 0 <= i < d.len() implies '0' as int <= #[trigger] d[i] as int
            <= '9' as int by {
            assert(d[i] == s[i]);
        }
        lemma_digits_value_nonneg(d);
    }
}

/// Extending a digit string never shrinks its value.
proof fn lemma_digits_value_prefix(s: Seq<char>, k: int)
    requires
        spec_is_digits(s),
        0 <= k <= s.len(),
    ensures
        digits_value(s.take(k)) <= digits_value(s),
    decreases s.len() - k,
{
    assert forall|j: int, i: int|
        0 <= j <= s.len() && 0 <= i < s.take(j).len() implies '0' as int
        <= #[trigger] s.take(j)[i] as int <= '9' as int by {
        assert(s.take(j)[i] == s[i]);
    }
    if k == s.len() {
        assert(s.take(k) =~= s);
    } else {
        assert(s.take(k + 1).drop_last() =~= s.take(k));
        assert(s.take(k + 1).last() == s[k]);
        lemma_digits_value_nonneg(s.take(k));
        lemma_digits_value_prefix(s, k + 1);
    }
}

/// Parses a positional argument as a zero-based index: a non-empty,
/// all-digit string whose value fits an index. Anything else — including
/// a sign, other characters, or a value out of range — is no index.
pub fn parse_index(s: &str) -> (r: Option<usize>)
    ensures
        match r {
            Option::Some(v) => spec_parse_index(s@) == Option::Some(v as int),
            Option::None => spec_parse_index(s@) is None,
        },
{
    if !s.is_ascii() {
        proof {
            assert(!vstd::utf8::is_ascii_chars(s@));
            let i = choose|i: int| 0 <= i < s@.len() && !('\0' <= #[trigger] s@[i] <= '\u{7f}');
            assert(!('0' as int <= s@[i] as int <= '9' as int));
        }
        return Option::None;
    }
    let n = s.unicode_len();
    if n == 0 {
        return Option::None;
    }
    let mut acc: usize = 0;
    let mut i: usize = 0;
    while i < n
        invariant
            s.is_ascii(),
            n == s@.len(),
            0 <= i <= n,
            spec_is_digits(s@.take(i as int)),
            acc == digits_value(s@.take(i as int)),
        decreases n - i,
    {
        let c = s.get_char(i);
        let d = c as u32;
        if d < 48 || d > 57 {
            proof {
                assert(!('0' as int <= s@[i as int] as int <= '9' as int));
            }
            return Option::None;
        }
        let dv = (d - 48) as usize;
        if acc > (usize::MAX - dv) / 10 {
            proof {
                assert(s@.take(i as int + 1).drop_last() =~= s@.take(i as int));
                assert(s@.take(i as int + 1).last() == s@[i as int]);
                assert(digits_value(s@.take(i as int + 1)) == acc * 10 + dv);
                assert(acc * 10 + dv > usize::MAX) by {
                    assert(acc >= (usize::MAX - dv) / 10 + 1);
                    assert(((usize::MAX - dv) / 10 + 1) * 10 > usize::MAX - dv) by (nonlinear_arith);
                    assert(acc * 10 >= ((usize::MAX - dv) / 10 + 1) * 10) by (nonlinear_arith)
                        requires
                            acc >= (usize::MAX - dv) / 10 + 1,
                    ;
                }
                if spec_is_digits(s@) {
                    assert forall|k: int| 0 <= k < i + 1 implies '0' as int
                        <= #[trigger] s@.take(i as int + 1)[k] as int <= '9' as int by {
                        assert(s@.take(i as int + 1)[k] == s@[k]);
                    }
                    lemma_digits_value_prefix(s@, i as int + 1);
                }
            }
            return Option::None;
        }
        proof {
            assert(acc * 10 + dv <= usize::MAX) by {
                assert(acc <= (usize::MAX - dv) / 10);
                assert(((usize::MAX - dv) / 10) * 10 <= usize::MAX - dv) by (nonlinear_arith);
                assert(acc * 10 <= ((usize::MAX - dv) / 10) * 10) by (nonlinear_arith)
                    requires
                        acc <= (usize::MAX - dv) / 10,
                ;
            }
            assert(s@.take(i as int + 1).drop_last() =~= s@.take(i as int));
            assert(s@.take(i as int + 1).last() == s@[i as int]);
            assert forall|k: int| 0 <= k < i + 1 implies '0' as int
                <= #[trigger] s@.take(i as int + 1)[k] as int <= '9' as int by {
                assert(s@.take(i as int + 1)[k] == s@[k]);
            }
        }
        acc = acc * 10 + dv;
        i = i + 1;
    }
    proof {
        assert(s@.take(n as int) =~= s@);
    }
    Option::Some(acc)
}

/// Resolves the configured editor command into a program and its leading
/// arguments: the configured list's head and tail when one is configured,
/// rejecting an empty list, and the plain default editor otherwise.
pub fn resolve_editor_command(cmd: &Option<Vec<String>>) -> (r: Result<
    (String, Vec<String>),
    RecallError,
>)
    ensures
        match r {
            Result::Ok(pa) => match *cmd {
                Option::None => pa.0@ == "vi"@ && pa.1@ == Seq::<String>::empty(),
                Option::Some(v) => {
                    &&& v@.len() > 0
                    &&& pa.0@ == v@[0]@
                    &&& pa.1@.len() == v@.len() - 1
                    &&& forall|i: int| 0 <= i < pa.1@.len() ==> (#[trigger] pa.1@[i])@ == v@[i
                        + 1]@
                },
            },
            Result::Err(e) => {
                &&& e == RecallError::EmptyEditorCommand
                &&& match *cmd {
                    Option::Some(v) => v@.len() == 0,
                    Option::None => false,
                }
            },
        },
{
    match cmd {
        Option::None => {
            let prog = "vi".to_owned();
            Result::Ok((prog, Vec::new()))
        },
        Option::Some(v) => {
            if v.len() == 0 {
                return Result::Err(RecallError::EmptyEditorCommand);
            }
            let prog = v[0].clone();
            let mut args: Vec<String> = Vec::new();
            let mut i: usize = 1;
            while i < v.len()
                invariant
                    1 <= i <= v@.len(),
                    args@.len() == i - 1,
                    forall|k: int| 0 <= k < args@.len() ==> (#[trigger] args@[k])@ == v@[k + 1]@,
                decreases v@.len() - i,
            {
                args.push(v[i].clone());
                i = i + 1;
            }
            Result::Ok((prog, args))
        },
    }
}

/// What a request that makes a new note decides: a rejection for an empty
/// title or for more than one content source, composition in the editor
/// when the edit flag stands alone, and otherwise an insert of the note
/// with whichever single content source was supplied.
pub open spec fn spec_decide_new_note(q: RequestView, title: Seq<char>, now: int) -> ActionView {
    if title.len() == 0 {
        ActionView::Reject(RecallError::EmptyTitle)
    } else if q.edit {
        if q.path is Some || q.link is Some || q.text is Some {
            ActionView::Reject(RecallError::ConflictingContentFlags)
        } else {
            ActionView::ComposeNew(title)
        }
    } else {
        match (q.path, q.link, q.text) {
            (Option::Some(p), Option::None, Option::None) => ActionView::Insert(
                NoteView {
                    datetime_millis: now,
                    title: title,
                    content: Option::Some(ContentView::Path(p)),
                },
            ),
            (Option::None, Option::Some(l), Option::None) => ActionView::Insert(
                NoteView {
                    datetime_millis: now,
                    title: title,
                    content: Option::Some(ContentView::Link(l)),
                },
            ),
            (Option::None, Option::None, Option::Some(t)) => ActionView::Insert(
                NoteView {
                    datetime_millis: now,
                    title: title,
                    content: Option::Some(ContentView::Text(t)),
                },
            ),
            (Option::None, Option::None, Option::None) => ActionView::Insert(
                NoteView { datetime_millis: now, title: title, content: Option::None },
            ),
            _ => ActionView::Reject(RecallError::ConflictingContentFlags),
        }
    }
}

/// What one invocation decides, from the parsed arguments and the current
/// time. With the archive flag, the positional argument must be an index,
/// which is archived. Without a positional argument the notes are listed.
/// A positional argument that is an index is shown, or edited with the
/// edit flag; one that is no index is the title of a new note.
pub open spec fn spec_decide(q: RequestView, now: int) -> ActionView {
    if q.archive {
        match q.note_title_or_index {
            Option::None => ActionView::ArchiveUsage,
            Option::Some(s) => match spec_parse_index(s) {
                Option::Some(i) => ActionView::ArchiveAt(i),
                Option::None => ActionView::ArchiveBadIndex,
            },
        }
    } else {
        match q.note_title_or_index {
            Option::None => ActionView::List,
            Option::Some(s) => match spec_parse_index(s) {
                Option::Some(i) => if q.edit {
                    ActionView::EditAt(i)
                } else {
                    ActionView::Show(i)
                },
                Option::None => spec_decide_new_note(q, s, now),
            },
        }
    }
}

/// Decides what one invocation should do. The decision is a pure function
/// of the parsed arguments and the current time.
pub fn decide(req: Request, now_millis: i64) -> (r: Action)
    requires
        0 <= now_millis,
    ensures
        r@ == spec_decide(req@, now_millis as int),
{
    let Request { note_title_or_index, archive, edit, path, link, text } = req;
    if archive {
        match note_title_or_index {
            Option::None => Action::ArchiveUsage,
            Option::Some(s) => match parse_index(s.as_str()) {
                Option::Some(i) => Action::ArchiveAt(i),
                Option::None => Action::ArchiveBadIndex,
            },
        }
    } else {
        match note_title_or_index {
            Option::None => Action::List,
            Option::Some(s) => match parse_index(s.as_str()) {
                Option::Some(i) => if edit {
                    Action::EditAt(i)
                } else {
                    Action::Show(i)
                },
                Option::None => {
                    let title = s;
                    if title.as_str().is_empty() {
                        Action::Reject(RecallError::EmptyTitle)
                    } else if edit {
                        if path.is_some() || link.is_some() || text.is_some() {
                            Action::Reject(RecallError::ConflictingContentFlags)
                        } else {
                            Action::ComposeNew(title)
                        }
                    } else {
                        match (path, link, text) {
                            (Option::Some(p), Option::None, Option::None) => Action::Insert(
                                Note::new_with_path(title, p, now_millis),
                            ),
                            (Option::None, Option::Some(l), Option::None) => Action::Insert(
                                Note::new_with_link(title, l, now_millis),
                            ),
                            (Option::None, Option::None, Option::Some(t)) => Action::Insert(
                                Note::new_with_text(title, t, now_millis),
                            ),
                            (Option::None, Option::None, Option::None) => Action::Insert(
                                Note::new(title, now_millis),
                            ),
                            _ => Action::Reject(RecallError::ConflictingContentFlags),
                        }
                    }
                },
            },
        }
    }
}

/// The program and argument to hand to the operating system to open a
/// note: the opener on a path or link, a plain echo of freeform text, and
/// nothing for a bare note.
pub fn open_command(note: &Note) -> (r: Option<(&'static str, String)>)
    ensures
        match r {
            Option::Some(pa) => match note@.content {
                Option::Some(ContentView::Path(p)) => pa.0@ == "open"@ && pa.1@ == p,
                Option::Some(ContentView::Link(l)) => pa.0@ == "open"@ && pa.1@ == l,
                Option::Some(ContentView::Text(t)) => pa.0@ == "echo"@ && pa.1@ == t,
                Option::None => false,
            },
            Option::None => note@.content is None,
        },
{
    match &note.content {
        Option::Some(NoteContent::Link(link)) => Option::Some(("open", link.clone())),
        Option::Some(NoteContent::Path(path)) => Option::Some(("open", path.clone())),
        Option::Some(NoteContent::Text(text)) => Option::Some(("echo", text.clone())),
        Option::None => Option::None,
    }
}

} // verus!

//! The persisted encoding of a note's content variant.
//!
//! A row stores the variant as three nullable columns (path, link, text) of
//! which the writer populates at most one. Encoding maps the variant onto
//! that triple; decoding maps the triple back and rejects a row in which
//! more than one column is populated.

use vstd::prelude::*;

use crate::errors::RecallError;
use crate::note::ContentView;
use crate::note::NoteContent;

verus! {

/// One persisted row, as plain column values.
pub struct RawRow {
    pub id: i64,
    pub datetime_millis: i64,
    pub archived: bool,
    pub title: String,
    pub path: Option<String>,
    pub link: Option<String>,
    pub text: Option<String>,
}

/// The mathematical value of a `RawRow`.
pub ghost struct RawRowView {
    pub id: int,
    pub datetime_millis: int,
    pub archived: bool,
    pub title: Seq<char>,
    pub path: Option<Seq<char>>,
    pub link: Option<Seq<char>>,
    pub text: Option<Seq<char>>,
}

impl View for RawRow {
    type V = RawRowView;

    open spec fn view(&self) -> RawRowView {
        RawRowView {
            id: self.id as int,
            datetime_millis: self.datetime_millis as int,
            archived: self.archived,
            title: self.title@,
            path: opt_string_view(self.path),
            link: opt_string_view(self.link),
            text: opt_string_view(self.text),
        }
    }
}

/// The view of an optional string column.
pub open spec fn opt_string_view(o: Option<String>) -> Option<Seq<char>> {
    match o {
        Option::None => Option::None,
        Option::Some(s) => Option::Some(s@),
    }
}

/// How a content variant is laid out over the three nullable columns:
/// at most one column is populated.
pub open spec fn spec_encode_content(c: Option<ContentView>) -> (
    Option<Seq<char>>,
    Option<Seq<char>>,
    Option<Seq<char>>,
) {
    match c {
        Option::None => (Option::None, Option::None, Option::None),
        Option::Some(ContentView::Path(p)) => (Option::Some(p), Option::None, Option::None),
        Option::Some(ContentView::Link(l)) => (Option::None, Option::Some(l), Option::None),
        Option::Some(ContentView::Text(t)) => (Option::None, Option::None, Option::Some(t)),
    }
}

/// What decoding the three columns yields: the variant of the one populated
/// column, no content when all three are null, and a rejection when more
/// than one column is populated.
pub open spec fn spec_decode_content(
    path: Option<Seq<char>>,
    link: Option<Seq<char>>,
    text: Option<Seq<char>>,
) -> Result<Option<ContentView>, RecallError> {
    if path is Some && (link is Some || text is Some) {
        Result::Err(RecallError::InvalidRow)
    } else if link is Some && text is Some {
        Result::Err(RecallError::InvalidRow)
    } else {
        match (path, link, text) {
            (Option::Some(p), _, _) => Result::Ok(Option::Some(ContentView::Path(p))),
            (_, Option::Some(l), _) => Result::Ok(Option::Some(ContentView::Link(l))),
            (_, _, Option::Some(t)) => Result::Ok(Option::Some(ContentView::Text(t))),
            _ => Result::Ok(Option::None),
        }
    }
}

/// The view of a decoded content result.
pub open spec fn decoded_view(r: Result<Option<NoteContent>, RecallError>) -> Result<
    Option<ContentView>,
    RecallError,
> {
    match r {
        Result::Ok(Option::None) => Result::Ok(Option::None),
        Result::Ok(Option::Some(c)) => Result::Ok(Option::Some(c@)),
        Result::Err(e) => Result::Err(e),
    }
}

/// Encodes a content variant as the three nullable columns of a row.
pub fn encode_content(c: &Option<NoteContent>) -> (r: (
    Option<String>,
    Option<String>,
    Option<String>,
))
    ensures
        (opt_string_view(r.0), opt_string_view(r.1), opt_string_view(r.2))
            == spec_encode_content(match *c {
                Option::None => Option::None,
                Option::Some(cc) => Option::Some(cc@),
            }),
{
    match c {
        Option::None => (Option::None, Option::None, Option::None),
        Option::Some(NoteContent::Path(p)) => (Option::Some(p.clone()), Option::None, Option::None),
        Option::Some(NoteContent::Link(l)) => (Option::None, Option::Some(l.clone()), Option::None),
        Option::Some(NoteContent::Text(t)) => (Option::None, Option::None, Option::Some(t.clone())),
    }
}

/// Decodes the three nullable columns of a row back into a content variant,
/// rejecting a row in which more than one column is populated.
pub fn decode_content(path: &Option<String>, link: &Option<String>, text: &Option<String>) -> (r:
    Result<Option<NoteContent>, RecallError>)
    ensures
        decoded_view(r) == spec_decode_content(
            opt_string_view(*path),
            opt_string_view(*link),
            opt_string_view(*text),
        ),
{
    match (path, link, text) {
        (Option::None, Option::None, Option::None) => Result::Ok(Option::None),
        (Option::Some(p), Option::None, Option::None) => Result::Ok(
            Option::Some(NoteContent::Path(p.clone())),
        ),
        (Option::None, Option::Some(l), Option::None) => Result::Ok(
            Option::Some(NoteContent::Link(l.clone())),
        ),
        (Option::None, Option::None, Option::Some(t)) => Result::Ok(
            Option::Some(NoteContent::Text(t.clone())),
        ),
        _ => Result::Err(RecallError::InvalidRow),
    }
}

/// The content a valid row decodes to; an invalid row is mapped to no
/// content (decoding proper rejects it first).
pub open spec fn decoded_content_of(r: RawRowView) -> Option<ContentView> {
    match spec_decode_content(r.path, r.link, r.text) {
        Result::Ok(c) => c,
        Result::Err(_) => Option::None,
    }
}

/// A content variant survives the trip onto the nullable columns and back:
/// decoding what encoding produced yields the variant itself, never a
/// different one and never a rejection.
pub proof fn lemma_content_round_trip(c: Option<ContentView>)
    ensures
        spec_decode_content(
            spec_encode_content(c).0,
            spec_encode_content(c).1,
            spec_encode_content(c).2,
        ) == Result::<Option<ContentView>, RecallError>::Ok(c),
{
}

} // verus!

//! The in-memory note model: a titled, timestamped record with an optional
//! content variant.

use vstd::prelude::*;

verus! {

/// The content attached to a note: exactly one of a filesystem path to open,
/// a link to open, or freeform text.
pub enum NoteContent {
    Path(String),
    Link(String),
    Text(String),
}

/// The mathematical value of a `NoteContent`.
pub ghost enum ContentView {
    Path(Seq<char>),
    Link(Seq<char>),
    Text(Seq<char>),
}

impl View for NoteContent {
    type V = ContentView;

    open spec fn view(&self) -> ContentView {
        match self {
            NoteContent::Path(s) => ContentView::Path(s@),
            NoteContent::Link(s) => ContentView::Link(s@),
            NoteContent::Text(s) => ContentView::Text(s@),
        }
    }
}

impl Clone for NoteContent {
    fn clone(&self) -> (r: Self)
        ensures
            r@ == self@,
    {
        match self {
            NoteContent::Path(s) => NoteContent::Path(s.clone()),
            NoteContent::Link(s) => NoteContent::Link(s.clone()),
            NoteContent::Text(s) => NoteContent::Text(s.clone()),
        }
    }
}

/// One note: a creation timestamp in milliseconds since the epoch, a title,
/// and an optional content variant. At most one variant is ever populated;
/// the type makes more than one unrepresentable.
pub struct Note {
    pub datetime_millis: i64,
    pub title: String,
    pub content: Option<NoteContent>,
}

/// The mathematical value of a `Note`.
pub ghost struct NoteView {
    pub datetime_millis: int,
    pub title: Seq<char>,
    pub content: Option<ContentView>,
}

impl View for Note {
    type V = NoteView;

    open spec fn view(&self) -> NoteView {
        NoteView {
            datetime_millis: self.datetime_millis as int,
            title: self.title@,
            content: match self.content {
                Option::None => Option::None,
                Option::Some(c) => Option::Some(c@),
            },
        }
    }
}

impl NoteView {
    /// A well-formed note has a non-empty title and a non-negative
    /// creation timestamp.
    pub open spec fn valid(self) -> bool {
        &&& 0 <= self.datetime_millis <= i64::MAX
        &&& self.title.len() > 0
    }
}

impl Clone for Note {
    fn clone(&self) -> (r: Self)
        ensures
            r@ == self@,
    {
        Note {
            datetime_millis: self.datetime_millis,
            title: self.title.clone(),
            content: match &self.content {
                Option::None => Option::None,
                Option::Some(c) => Option::Some(c.clone()),
            },
        }
    }
}

impl Note {
    /// A bare note: a title with no content.
    pub fn new(title: String, datetime_millis: i64) -> (r: Note)
        requires
            title@.len() > 0,
            0 <= datetime_millis,
        ensures
            r@ == (NoteView {
                datetime_millis: datetime_millis as int,
                title: title@,
                content: Option::None,
            }),
            r@.valid(),
    {
        Note { datetime_millis, title, content: Option::None }
    }

    /// A note holding a filesystem path.
    pub fn new_with_path(title: String, path: String, datetime_millis: i64) -> (r: Note)
        requires
            title@.len() > 0,
            0 <= datetime_millis,
        ensures
            r@ == (NoteView {
                datetime_millis: datetime_millis as int,
                title: title@,
                content: Option::Some(ContentView::Path(path@)),
            }),
            r@.valid(),
    {
        Note { datetime_millis, title, content: Option::Some(NoteContent::Path(path)) }
    }

    /// A note holding a link.
    pub fn new_with_link(title: String, link: String, datetime_millis: i64) -> (r: Note)
        requires
            title@.len() > 0,
            0 <= datetime_millis,
        ensures
            r@ == (NoteView {
                datetime_millis: datetime_millis as int,
                title: title@,
                content: Option::Some(ContentView::Link(link@)),
            }),
            r@.valid(),
    {
        Note { datetime_millis, title, content: Option::Some(NoteContent::Link(link)) }
    }

    /// A note holding freeform text.
    pub fn new_with_text(title: String, text: String, datetime_millis: i64) -> (r: Note)
        requires
            title@.len() > 0,
            0 <= datetime_millis,
        ensures
            r@ == (NoteView {
                datetime_millis: datetime_millis as int,
                title: title@,
                content: Option::Some(ContentView::Text(text@)),
            }),
            r@.valid(),
    {
        Note { datetime_millis, title, content: Option::Some(NoteContent::Text(text)) }
    }

    /// The string handed to an external opener for this note: the path or
    /// the link, and the empty string for text notes and bare notes.
    pub fn content_display_string(&self) -> (r: String)
        ensures
            r@ == spec_content_display_string(self@),
    {
        match &self.content {
            Option::Some(c) => match c {
                NoteContent::Link(link) => link.clone(),
                NoteContent::Path(path) => path.clone(),
                NoteContent::Text(_) => String::new(),
            },
            Option::None => String::new(),
        }
    }
}

/// What `content_display_string` returns: the path or link of the note,
/// and the empty string otherwise.
pub open spec fn spec_content_display_string(n: NoteView) -> Seq<char> {
    match n.content {
        Option::Some(ContentView::Path(p)) => p,
        Option::Some(ContentView::Link(l)) => l,
        _ => Seq::<char>::empty(),
    }
}

} // verus!

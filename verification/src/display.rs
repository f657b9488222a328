//! Display formatting for notes: a line holding the local creation time,
//! the content kind label, and the title.

use vstd::prelude::*;
use vstd::string::StringExecFns;

use crate::note::ContentView;
use crate::note::Note;
use crate::note::NoteContent;
use crate::note::NoteView;

verus! {

/// One past the last millisecond of year 9999: timestamps handed to the
/// datetime formatter must lie below it, keeping them inside the range the
/// formatter accepts.
pub const MAX_DISPLAY_MILLIS: i64 = 253402300800000;

/// The label naming a note's content kind.
pub open spec fn spec_kind_label(c: ContentView) -> Seq<char> {
    match c {
        ContentView::Path(_) => "path"@,
        ContentView::Link(_) => "link"@,
        ContentView::Text(_) => "text"@,
    }
}

/// The display line for a note whose creation time reads `ts`: the time,
/// the content kind label (blank for a bare note), and the title, separated
/// by tabs.
pub open spec fn spec_display_line(ts: Seq<char>, n: NoteView) -> Seq<char> {
    match n.content {
        Option::None => ts + "\t\t"@ + n.title,
        Option::Some(c) => ts + "\t"@ + spec_kind_label(c) + "\t"@ + n.title,
    }
}

/// Relies on chrono: `DateTime<Local>` built from a `SystemTime` and
/// rendered with the strftime pattern `%F %H:%M:%S`. The result depends on
/// the machine's local time zone, so nothing is stated of it; the bound on
/// `millis` keeps the timestamp inside the range chrono accepts without
/// panicking.
#[verifier::external_body]
fn format_local_datetime(millis: i64) -> (r: String)
    requires
        0 <= millis < MAX_DISPLAY_MILLIS,
{
    let t = std::time::UNIX_EPOCH + std::time::Duration::from_millis(millis as u64);
    let dt = chrono::DateTime::<chrono::Local>::from(t);
    format!("{}", dt.format("%F %H:%M:%S"))
}

/// The label naming the note's content kind, or nothing for a bare note.
pub fn content_kind_label(note: &Note) -> (r: Option<&'static str>)
    ensures
        match r {
            Option::Some(s) => note@.content is Some && s@ == spec_kind_label(
                note@.content->Some_0,
            ),
            Option::None => note@.content is None,
        },
{
    match &note.content {
        Option::None => Option::None,
        Option::Some(NoteContent::Path(_)) => Option::Some("path"),
        Option::Some(NoteContent::Link(_)) => Option::Some("link"),
        Option::Some(NoteContent::Text(_)) => Option::Some("text"),
    }
}

/// Builds the display line for a note out of an already formatted creation
/// time.
pub fn note_display_line(time_str: &str, note: &Note) -> (r: String)
    ensures
        r@ == spec_display_line(time_str@, note@),
{
    let mut r = String::from_str(time_str);
    match content_kind_label(note) {
        Option::None => {
            r.append("\t\t");
            proof {
                assert(r@ =~= time_str@ + "\t\t"@);
            }
        },
        Option::Some(label) => {
            r.append("\t");
            r.append(label);
            r.append("\t");
            proof {
                assert(r@ =~= time_str@ + "\t"@ + spec_kind_label(note@.content->Some_0)
                    + "\t"@);
            }
        },
    }
    r.append(note.title.as_str());
    proof {
        assert(r@ =~= spec_display_line(time_str@, note@));
    }
    r
}

/// The display line for a note: its creation time in the machine's local
/// time zone, the content kind label, and the title. The time string comes
/// from the time zone, so the line is pinned down only up to it.
pub fn note_display_string(note: &Note) -> (r: String)
    requires
        0 <= note.datetime_millis < MAX_DISPLAY_MILLIS,
    ensures
        exists|ts: Seq<char>| r@ == spec_display_line(ts, note@),
{
    let ts = format_local_datetime(note.datetime_millis);
    let r = note_display_line(ts.as_str(), note);
    proof {
        assert(r@ == spec_display_line(ts@, note@));
    }
    r
}

} // verus!

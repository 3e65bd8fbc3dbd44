//! The edit buffer: the text in which a note is shown to its author, and
//! what becomes of the log when the author hands the buffer back.

use vstd::prelude::*;
use vstd::string::StringExecFns;
use crate::identifier::{is_identifier, rand_string};
use crate::note::{parsed, Note, NoteView};
use crate::text::{join, joined};

verus! {

/// The pattern in which dates are written: year, month, day, hour, minute
/// and second, as `chrono` spells them.
pub const DATE_FORMAT: &'static str = "%Y-%m-%d %H:%M:%S";

/// The edit buffer of a note: each field on a labelled line of its own.
pub open spec fn rendered(note: NoteView) -> Seq<char> {
    "ID: "@ + note.id + "\n\n---\n\nTitle: "@ + note.title + "\n\nText: "@ + note.text
        + "\n\nDate: "@ + note.date + "\n\nLabels: #"@ + joined(note.labels, ", #"@)
}

/// A note that has an identifier and a date, and nothing else yet.
pub open spec fn blank(id: Seq<char>, instance: Seq<char>, date: Seq<char>) -> NoteView {
    NoteView {
        id,
        instance,
        title: Seq::empty(),
        text: Seq::empty(),
        date,
        labels: Seq::empty(),
    }
}

/// The log after an edit buffer was handed back: the note that the buffer
/// describes is appended where it has a title and a body, and the log stays
/// as it was where either is empty.
pub open spec fn committed(log: Seq<NoteView>, note: NoteView) -> Seq<NoteView> {
    if note.title.len() > 0 && note.text.len() > 0 {
        log.push(note)
    } else {
        log
    }
}

/// The edit buffer for a new note with the identifier `id`, where `date`
/// is the time of its creation as text: the buffer of a blank note, and
/// none where there is no such text.
pub open spec fn new_buffer(
    id: Seq<char>,
    instance: Seq<char>,
    date: Option<Seq<char>>,
) -> Option<Seq<char>> {
    match date {
        Some(date) => Some(rendered(blank(id, instance, date))),
        None => None,
    }
}

/// What `chrono` writes, in `pattern`, of the moment that lies `seconds`
/// seconds after the start of 1970 in universal time. `None` where `chrono`
/// cannot hold that moment or cannot write it in that pattern.
pub uninterp spec fn chrono_utc_text(seconds: i64, pattern: Seq<char>) -> Option<Seq<char>>;

/// Reads the clock with `chrono::Utc::now` and gives the whole seconds since
/// the start of 1970 with `DateTime::timestamp`. The contract claims
/// nothing of the number: it depends on the clock. `Utc::now` aborts the
/// program if the clock stands before 1970; no argument decides that.
#[verifier::external_body]
fn clock_seconds() -> (seconds: i64) {
    chrono::Utc::now().timestamp()
}

/// Makes the moment `seconds` after the start of 1970 with
/// `chrono::DateTime::from_timestamp` and writes it in the pattern given,
/// with `DateTime::format` and `DelayedFormat::write_to`. `None` where
/// either refuses. The contract claims that the outcome depends on the two
/// arguments alone.
#[verifier::external_body]
fn utc_text(seconds: i64, pattern: &str) -> (text: Option<String>)
    ensures
        text.deep_view() == chrono_utc_text(seconds, pattern@),
{
    let moment = match chrono::DateTime::from_timestamp(seconds, 0) {
        Some(moment) => moment,
        None => return None,
    };
    let mut text = String::new();
    match moment.format(pattern).write_to(&mut text) {
        Ok(()) => Some(text),
        Err(_) => None,
    }
}

/// The moment `seconds` after the start of 1970, in universal time, written
/// as a date of the log. `None` where `chrono` cannot hold or write it.
pub fn date_text(seconds: i64) -> (date: Option<String>)
    ensures
        date.deep_view() == chrono_utc_text(seconds, DATE_FORMAT@),
{
    utc_text(seconds, DATE_FORMAT)
}

/// The edit buffer for an existing note, filled with what the note holds.
pub fn show_existed_note(note: &Note) -> (buffer: String)
    ensures
        buffer@ == rendered(note@),
{
    let mut buffer = String::new();
    buffer.append("ID: ");
    buffer.append(note.get_id());
    buffer.append("\n\n---\n\nTitle: ");
    buffer.append(note.get_title());
    buffer.append("\n\nText: ");
    buffer.append(note.get_text());
    buffer.append("\n\nDate: ");
    buffer.append(note.get_date());
    buffer.append("\n\nLabels: #");
    buffer.append(join(note.get_tags(), ", #").as_str());
    buffer
}

/// A note without title, body or labels, for the author to fill in.
pub fn blank_note(id: String, instance: &str, date: String) -> (note: Note)
    ensures
        note@ == blank(id@, instance@, date@),
{
    let note = Note::new(
        id,
        instance.to_owned(),
        String::new(),
        String::new(),
        date,
        Vec::new(),
    );
    assert(note@.labels =~= Seq::empty());
    note
}

/// The edit buffer for a new note that was created at the time `date`:
/// the buffer of a blank note with that identifier and that date. `None`
/// where there is no date.
pub fn new_note_buffer(id: String, instance: &str, date: Option<String>) -> (buffer: Option<
    String,
>)
    ensures
        buffer.deep_view() == new_buffer(id@, instance@, date.deep_view()),
{
    match date {
        Some(date) => Some(show_existed_note(&blank_note(id, instance, date))),
        None => None,
    }
}

/// The edit buffer for a new note: a fresh random identifier, the current
/// time, and the other fields empty. The identifier is some ten letters and
/// digits, and the date is what `chrono` writes of some moment in the
/// format of dates; the buffer is `None` only where `chrono` writes none
/// of that moment.
pub fn initial_note(instance: &str) -> (buffer: Option<String>)
    ensures
        exists|id: Seq<char>, seconds: i64|
            is_identifier(id) && buffer.deep_view() == #[trigger] new_buffer(
                id,
                instance@,
                chrono_utc_text(seconds, DATE_FORMAT@),
            ),
{
    let id = rand_string();
    let seconds = clock_seconds();
    let buffer = new_note_buffer(id, instance, date_text(seconds));
    assert(buffer.deep_view() == new_buffer(
        id@,
        instance@,
        chrono_utc_text(seconds, DATE_FORMAT@),
    ));
    buffer
}

/// Takes an edit buffer back. The note that the buffer describes is
/// appended to the log if it has a title and a body; an edit that leaves
/// either empty is dropped and the log stays as it was. Returns whether the
/// note was appended.
pub fn update_notes_with_content(log: &mut Vec<Note>, content: &str, instance: &str) -> (appended:
    bool)
    ensures
        final(log).deep_view() == committed(old(log).deep_view(), parsed(content@, instance@)),
        appended == (parsed(content@, instance@).title.len() > 0 && parsed(
            content@,
            instance@,
        ).text.len() > 0),
{
    let note = Note::new_from_content(content, instance);
    if !note.get_title().is_empty() && !note.get_text().is_empty() {
        log.push(note);
        true
    } else {
        false
    }
}

} // verus!

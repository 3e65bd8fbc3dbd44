//! One version of a note, and its mathematical model.

use vstd::prelude::*;
use vstd::string::StringExecFns;
use crate::pattern::{
    capture_string_by_regex, capture_strings_by_regex, captured_text, captured_texts,
    regex_all_captures, regex_first_capture,
};
use crate::text::{contains_text, join, joined, replace_char, replaced};

verus! {

/// What a note version holds, as plain sequences of characters.
pub struct NoteView {
    pub id: Seq<char>,
    pub instance: Seq<char>,
    pub title: Seq<char>,
    pub text: Seq<char>,
    pub date: Seq<char>,
    pub labels: Seq<Seq<char>>,
}

/// One version of a logical note. All versions of a note share its `id`.
#[derive(Debug)]
pub struct Note {
    id: String,
    instance: String,
    title: String,
    text: String,
    date: String,
    labels: Vec<String>,
}

impl View for Note {
    type V = NoteView;

    closed spec fn view(&self) -> NoteView {
        NoteView {
            id: self.id@,
            instance: self.instance@,
            title: self.title@,
            text: self.text@,
            date: self.date@,
            labels: self.labels.deep_view(),
        }
    }
}

impl DeepView for Note {
    type V = NoteView;

    open spec fn deep_view(&self) -> NoteView {
        self@
    }
}

/// The expression that finds the identifier in an edit buffer.
pub const ID_PATTERN: &'static str = "(?m)ID: ?(.*)$";

/// The expression that finds the title in an edit buffer.
pub const TITLE_PATTERN: &'static str = "(?m)Title: ?(.*)$";

/// The expression that finds the body in an edit buffer: what stands
/// between `Text:` and `Date:`, over as many lines as it takes.
pub const TEXT_PATTERN: &'static str = "(?ms).*Text: ?(.*)Date:";

/// The expression that finds the date in an edit buffer.
pub const DATE_PATTERN: &'static str = "(?m).*Date: ?(.*)$";

/// The expression that finds the line of labels in an edit buffer.
pub const LABELS_PATTERN: &'static str = "(?m).*Labels: ?.*$";

/// The expression that finds one label in the line of labels: `#` and a run
/// of word characters and hyphens.
pub const LABEL_PATTERN: &'static str = "#([\\w-]+)";

/// The field that `pattern` finds in an edit buffer: the text of its first
/// group in its first match, without the white space around it, and the
/// empty string where the buffer has no such field.
pub open spec fn field_of(content: Seq<char>, pattern: Seq<char>) -> Seq<char> {
    captured_text(regex_first_capture(content, pattern, 1))
}

/// The labels that an edit buffer names: each match of `LABEL_PATTERN` in
/// the first line that holds `Labels:`, without its `#`.
pub open spec fn labels_of(content: Seq<char>) -> Seq<Seq<char>> {
    captured_texts(
        regex_all_captures(
            captured_text(regex_first_capture(content, LABELS_PATTERN@, 0)),
            LABEL_PATTERN@,
            1,
        ),
    )
}

/// The note that an edit buffer describes, as written on the replica
/// `instance`.
pub open spec fn parsed(content: Seq<char>, instance: Seq<char>) -> NoteView {
    NoteView {
        id: field_of(content, ID_PATTERN@),
        instance,
        title: field_of(content, TITLE_PATTERN@),
        text: field_of(content, TEXT_PATTERN@),
        date: field_of(content, DATE_PATTERN@),
        labels: labels_of(content),
    }
}

/// A colour code where colours are wanted, and nothing where they are not.
pub open spec fn painted(with_colors: bool, code: Seq<char>) -> Seq<char> {
    if with_colors {
        code
    } else {
        Seq::empty()
    }
}

/// A note as it is listed: the date, the title and the identifier on one
/// line, then the body with each of its lines indented, then the labels.
/// With colours, the codes of a terminal stand round the parts; the parts
/// are the same either way.
pub open spec fn formatted(note: NoteView, with_colors: bool) -> Seq<char> {
    painted(with_colors, "\x1B[38;5;6m"@) + "["@ + note.date + "]"@ + painted(
        with_colors,
        "\x1B[39m"@,
    ) + " "@ + painted(with_colors, "\x1B[1m"@) + note.title + " ("@ + note.id + ") "@ + painted(
        with_colors,
        "\x1B[0m"@,
    ) + "\n\t"@ + painted(with_colors, "\x1B[38;5;2m"@) + replaced(note.text, '\n', "\n\t"@)
        + painted(with_colors, "\x1B[39m"@) + " "@ + painted(with_colors, "\x1B[38;5;8m"@) + "#"@
        + joined(note.labels, " #"@) + "\n"@
}

/// Appends a colour code to a line where colours are wanted.
fn paint(line: &mut String, with_colors: bool, code: &str)
    ensures
        final(line)@ == old(line)@ + painted(with_colors, code@),
{
    if with_colors {
        line.append(code);
    }
}

/// A copy of `labels`, label by label.
fn copy_labels(labels: &Vec<String>) -> (out: Vec<String>)
    ensures
        out.deep_view() == labels.deep_view(),
{
    let mut out: Vec<String> = Vec::new();
    let mut i: usize = 0;
    while i < labels.len()
        invariant
            i <= labels.len(),
            out.len() == i,
            forall|k: int| 0 <= k < i ==> out[k]@ == labels[k]@,
        decreases labels.len() - i,
    {
        out.push(labels[i].clone());
        i += 1;
    }
    out
}

impl Clone for Note {
    fn clone(&self) -> (copy: Note)
        ensures
            copy@ == self@,
    {
        Note {
            id: self.id.clone(),
            instance: self.instance.clone(),
            title: self.title.clone(),
            text: self.text.clone(),
            date: self.date.clone(),
            labels: copy_labels(&self.labels),
        }
    }
}

impl Note {
    /// Builds a note version from its six fields, as they are.
    pub fn new(
        id: String,
        instance: String,
        title: String,
        text: String,
        date: String,
        labels: Vec<String>,
    ) -> (note: Note)
        ensures
            note@ == (NoteView {
                id: id@,
                instance: instance@,
                title: title@,
                text: text@,
                date: date@,
                labels: labels.deep_view(),
            }),
    {
        Note { id, instance, title, text, date, labels }
    }

    /// Reads a note from an edit buffer. Each field is what its expression
    /// finds in `content`; a field that the buffer does not hold is empty.
    pub fn new_from_content(content: &str, instance: &str) -> (note: Note)
        ensures
            note@ == parsed(content@, instance@),
    {
        let labels_line = capture_string_by_regex(content, LABELS_PATTERN, 0);
        let labels = capture_strings_by_regex(labels_line.as_str(), LABEL_PATTERN, 1);
        Note::new(
            capture_string_by_regex(content, ID_PATTERN, 1),
            instance.to_owned(),
            capture_string_by_regex(content, TITLE_PATTERN, 1),
            capture_string_by_regex(content, TEXT_PATTERN, 1),
            capture_string_by_regex(content, DATE_PATTERN, 1),
            labels,
        )
    }

    /// Renders the note for a listing: the date, the title, the
    /// identifier, the body with its lines indented, and the labels, with
    /// the colour codes of a terminal round them or without.
    pub fn format(&self, with_colors: bool) -> (line: String)
        ensures
            line@ == formatted(self@, with_colors),
    {
        let mut line = String::new();
        paint(&mut line, with_colors, "\x1B[38;5;6m");
        line.append("[");
        line.append(self.date.as_str());
        line.append("]");
        paint(&mut line, with_colors, "\x1B[39m");
        line.append(" ");
        paint(&mut line, with_colors, "\x1B[1m");
        line.append(self.title.as_str());
        line.append(" (");
        line.append(self.id.as_str());
        line.append(") ");
        paint(&mut line, with_colors, "\x1B[0m");
        line.append("\n\t");
        paint(&mut line, with_colors, "\x1B[38;5;2m");
        line.append(replace_char(self.text.as_str(), '\n', "\n\t").as_str());
        paint(&mut line, with_colors, "\x1B[39m");
        line.append(" ");
        paint(&mut line, with_colors, "\x1B[38;5;8m");
        line.append("#");
        line.append(join(&self.labels, " #").as_str());
        line.append("\n");
        line
    }

    /// The identifier shared by all versions of this note.
    pub fn get_id(&self) -> (id: &str)
        ensures
            id@ == self@.id,
    {
        self.id.as_str()
    }

    /// The replica that produced this version.
    pub fn get_instance(&self) -> (instance: &str)
        ensures
            instance@ == self@.instance,
    {
        self.instance.as_str()
    }

    /// The title line.
    pub fn get_title(&self) -> (title: &str)
        ensures
            title@ == self@.title,
    {
        self.title.as_str()
    }

    /// The body.
    pub fn get_text(&self) -> (text: &str)
        ensures
            text@ == self@.text,
    {
        self.text.as_str()
    }

    /// The time at which the note was created, as text.
    pub fn get_date(&self) -> (date: &str)
        ensures
            date@ == self@.date,
    {
        self.date.as_str()
    }

    /// The labels, in the order in which they were given.
    pub fn get_tags(&self) -> (tags: &Vec<String>)
        ensures
            tags.deep_view() == self@.labels,
    {
        &self.labels
    }

    /// Whether `tag` is one of the labels.
    pub fn has_tag(&self, tag: &str) -> (found: bool)
        ensures
            found == self@.labels.contains(tag@),
    {
        contains_text(&self.labels, tag)
    }
}

} // verus!

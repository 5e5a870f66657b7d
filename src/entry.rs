//! One editable buffer of the list: the text of one entry, with its cursor
//! and selection, kept by iced's text editor.

use vstd::prelude::*;
use crate::lines::{chars_of, single_line, string_of};

verus! {

/// An edit that a text editor can apply: a cursor move, a selection, an insertion...
#[verifier::external_type_specification]
#[verifier::external_body]
pub struct ExAction(iced::widget::text_editor::Action);

/// A text buffer with cursor and selection.
#[verifier::external_body]
pub struct EditableEntry {
    /// The editor state, for the widget that shows it.
    pub content: iced::widget::text_editor::Content,
}

/// What iced's `Content::text` returns for the buffer: its lines, each followed by `'\n'`.
pub uninterp spec fn content_text(e: EditableEntry) -> Seq<char>;

/// `t` without one trailing `'\n'`, if it ends with one.
pub open spec fn without_final_break(t: Seq<char>) -> Seq<char> {
    if t.len() > 0 && t.last() == '\n' {
        t.drop_last()
    } else {
        t
    }
}

impl View for EditableEntry {
    type V = Seq<char>;

    /// The text that the buffer shows.
    open spec fn view(&self) -> Seq<char> {
        without_final_break(content_text(*self))
    }
}

/// Relies on iced's `Content::with_text`: cosmic-text breaks the text into lines at
/// `'\n'` and `'\r'`, and `Content::text` joins the lines and ends them with one `'\n'`.
#[verifier::external_body]
fn content_with_text(s: &str) -> (r: EditableEntry)
    ensures
        single_line(s@) ==> content_text(r) == s@.push('\n'),
{
    EditableEntry { content: iced::widget::text_editor::Content::with_text(s) }
}

/// Relies on iced's `Content::perform`, which applies the action to the buffer.
#[verifier::external_body]
fn content_perform(e: &mut EditableEntry, action: iced::widget::text_editor::Action) {
    e.content.perform(action)
}

/// Relies on iced's `Content::text`: the lines joined by `'\n'`, with a `'\n'` at the end.
#[verifier::external_body]
fn content_text_of(e: &EditableEntry) -> (r: String)
    ensures
        r@ == content_text(*e),
        r@.len() > 0,
        r@.last() == '\n',
{
    e.content.text()
}

impl EditableEntry {
    /// A buffer that holds `s`.
    pub fn new(s: &str) -> (r: EditableEntry)
        ensures
            single_line(s@) ==> r@ == s@,
    {
        let r = content_with_text(s);
        proof {
            if single_line(s@) {
                assert(s@.push('\n').drop_last() =~= s@);
            }
        }
        r
    }

    /// Applies `action` to the buffer and returns the text it then holds.
    pub fn perform(&mut self, action: iced::widget::text_editor::Action) -> (r: String)
        ensures
            r@ == final(self)@,
    {
        content_perform(self, action);
        self.text()
    }

    /// The text that the buffer holds, without the line break that ends its last line.
    pub fn text(&self) -> (r: String)
        ensures
            r@ == self@,
    {
        let raw = content_text_of(self);
        let mut cs = chars_of(raw.as_str());
        cs.pop();
        proof {
            assert(cs@ =~= without_final_break(content_text(*self)));
        }
        string_of(&cs)
    }
}

} // verus!

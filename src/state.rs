//! The application state and the reducer, the only place where it changes.

use vstd::prelude::*;
use iced::widget::text_editor::Action;
use crate::clock::{clock_text_of, shown_on_clock, Timestamp};
use crate::entry::EditableEntry;
use crate::lines::{
    join_lines, join_lines_of, lemma_join_free_of, lemma_split_single_lines, single_line, split_lines,
    split_lines_of, texts,
};

verus! {

/// Classes of file access failure, the same for reading and writing.
#[derive(Clone, Copy, Debug, PartialEq, Eq, Structural)]
pub enum ErrorKind {
    NotFound,
    PermissionDenied,
    Other,
}

/// An input of the reducer: a user action, a clock tick, or the outcome of file access.
#[derive(Debug)]
pub enum Message {
    /// The feature flag is set to the given value.
    Enable(bool),
    /// The clock shows the given instant.
    Tick(Timestamp),
    Increment,
    Decrement,
    /// The outcome of reading the list file.
    FileOpened(Result<String, ErrorKind>),
    /// The outcome of writing the list file.
    Save(Result<(), ErrorKind>),
    /// The user asks for the list to be written.
    SaveButton,
    /// The user adds an empty entry at the end.
    Add,
    /// The buffer at the index receives an edit.
    Update(usize, Action),
    Noop,
}

/// File access that the reducer asks the host to perform.
#[derive(Debug, PartialEq, Eq)]
pub enum Command {
    /// Read the whole file at this path; its outcome comes back as `Message::FileOpened`.
    Load(String),
    /// Replace the file at this path with this text; the outcome comes back as `Message::Save`.
    Save(String, String),
}

/// The state of the editor.
pub struct Home {
    /// The list file.
    pub file: String,
    /// The feature flag.
    pub enabled: bool,
    /// The counter.
    pub num: i32,
    /// The entries of the list, one per line of the file.
    pub filters: Vec<String>,
    /// The clock text of the last tick.
    pub clock: String,
    /// The instant of the last tick.
    pub time: Option<Timestamp>,
    /// One editable buffer per entry.
    pub contents: Vec<EditableEntry>,
    /// The last file access failure.
    pub error: Option<ErrorKind>,
    /// Whether that failure came from writing rather than from reading.
    pub error_on_save: bool,
}

/// `c` plus one, wrapping past the largest value.
pub open spec fn bump(c: i32) -> i32 {
    if c == i32::MAX {
        i32::MIN
    } else {
        (c + 1) as i32
    }
}

/// `c` minus one, wrapping past the smallest value.
pub open spec fn drop_one(c: i32) -> i32 {
    if c == i32::MIN {
        i32::MAX
    } else {
        (c - 1) as i32
    }
}

/// A tick at `now` takes effect: it is not the instant of the last tick.
pub open spec fn is_new_tick(last: Option<Timestamp>, now: Timestamp) -> bool {
    last != Some(now)
}

/// The counter after message `m`.
pub open spec fn counter_step(c: i32, enabled: bool, last: Option<Timestamp>, m: Message) -> i32 {
    match m {
        Message::Tick(now) => if is_new_tick(last, now) && enabled {
            bump(c)
        } else {
            c
        },
        Message::Increment => bump(c),
        Message::Decrement => drop_one(c),
        _ => c,
    }
}

/// The feature flag after message `m`.
pub open spec fn enabled_step(enabled: bool, m: Message) -> bool {
    match m {
        Message::Enable(b) => b,
        _ => enabled,
    }
}

/// The instant of the last tick after message `m`.
pub open spec fn time_step(last: Option<Timestamp>, m: Message) -> Option<Timestamp> {
    match m {
        Message::Tick(now) => Some(now),
        _ => last,
    }
}

/// No entry holds a `'\r'`.
pub open spec fn free_of_cr(es: Seq<Seq<char>>) -> bool {
    forall|i: int| 0 <= i < es.len() ==> !(#[trigger] es[i]).contains('\r')
}

/// No entry holds a `'\n'`: the entries are the lines of their joined text.
pub open spec fn normalized(es: Seq<Seq<char>>) -> bool {
    forall|i: int| 0 <= i < es.len() ==> !(#[trigger] es[i]).contains('\n')
}

impl Home {
    /// Each entry is the text of the buffer at its index.
    pub open spec fn wf(&self) -> bool {
        &&& self.filters.len() == self.contents.len()
        &&& forall|i: int| 0 <= i < self.filters.len() ==> (#[trigger] self.filters[i])@ == self.contents[i]@
    }

    /// A state with no entries that will edit the list at `file`, and the command that reads it.
    pub fn new(num: i32, file: String) -> (r: (Home, Command))
        ensures
            r.0.wf(),
            r.0.file == file,
            r.0.num == num,
            !r.0.enabled,
            r.0.filters.len() == 0,
            r.0.time is None,
            r.0.clock@.len() == 0,
            r.0.error is None,
            r.1 == Command::Load(file),
    {
        let home = Home {
            file: file.clone(),
            enabled: false,
            num,
            filters: Vec::new(),
            clock: String::new(),
            time: None,
            contents: Vec::new(),
            error: None,
            error_on_save: false,
        };
        (home, Command::Load(file))
    }

    /// Applies `message` and returns the file access that it asks for, if any.
    pub fn update(&mut self, message: Message) -> (r: Option<Command>)
        requires
            old(self).wf(),
            message matches Message::Update(i, _) ==> i < old(self).contents.len(),
        ensures
            final(self).wf(),
            final(self).file == old(self).file,
            final(self).num == counter_step(old(self).num, old(self).enabled, old(self).time, message),
            final(self).enabled == enabled_step(old(self).enabled, message),
            final(self).time == time_step(old(self).time, message),
            final(self).clock@ == (match message {
                Message::Tick(now) => if is_new_tick(old(self).time, now) && shown_on_clock(now) {
                    clock_text_of(now.secs as int)
                } else {
                    old(self).clock@
                },
                _ => old(self).clock@,
            }),
            final(self).error == (match message {
                Message::FileOpened(Err(k)) => Some(k),
                Message::Save(Err(k)) => Some(k),
                Message::FileOpened(Ok(_)) => if old(self).error_on_save { old(self).error } else { None },
                Message::Save(Ok(_)) => if old(self).error_on_save { None } else { old(self).error },
                _ => old(self).error,
            }),
            final(self).error is Some ==> final(self).error_on_save == (match message {
                Message::FileOpened(Err(_)) => false,
                Message::Save(Err(_)) => true,
                _ => old(self).error_on_save,
            }),
            message is SaveButton ==> (r matches Some(Command::Save(path, text))
                && path == old(self).file && text@ == join_lines(texts(old(self).filters@))),
            !(message is SaveButton) ==> r is None,
            message matches Message::FileOpened(Ok(text)) ==> {
                &&& final(self).filters.len() == old(self).filters.len() + split_lines(text@).len()
                &&& forall|j: int| 0 <= j < old(self).filters.len() ==> final(self).filters[j]
                    == old(self).filters[j] && final(self).contents[j] == old(self).contents[j]
                &&& !text@.contains('\r') ==> texts(final(self).filters@) == texts(old(self).filters@)
                    + split_lines(text@)
            },
            message is Add ==> {
                &&& final(self).filters.len() == old(self).filters.len() + 1
                &&& texts(final(self).filters@) == texts(old(self).filters@).push(Seq::<char>::empty())
                &&& forall|j: int| 0 <= j < old(self).filters.len() ==> final(self).contents[j]
                    == old(self).contents[j]
            },
            message matches Message::Update(i, _) ==> {
                &&& final(self).filters.len() == old(self).filters.len()
                &&& forall|j: int| 0 <= j < old(self).filters.len() && j != i ==> final(self).filters[j]
                    == old(self).filters[j] && final(self).contents[j] == old(self).contents[j]
            },
            message matches Message::Save(Ok(_)) ==> if normalized(texts(old(self).filters@)) {
                final(self).filters == old(self).filters && final(self).contents == old(self).contents
            } else {
                let pieces = split_lines(join_lines(texts(old(self).filters@)));
                &&& final(self).filters.len() == pieces.len()
                &&& forall|k: int| 0 <= k < pieces.len() && single_line(#[trigger] pieces[k])
                    ==> final(self).filters[k]@ == pieces[k]
                &&& free_of_cr(texts(old(self).filters@)) ==> texts(final(self).filters@) == pieces
            },
            !(message is FileOpened || message is Add || message is Update || message is Save)
                ==> final(self).filters == old(self).filters && final(self).contents == old(self).contents,
    {
        match message {
            Message::Enable(status) => {
                self.enabled = status;
                None
            },
            Message::Tick(now) => {
                let fresh = match self.time {
                    Some(last) => last != now,
                    None => true,
                };
                if fresh {
                    self.time = Some(now);
                    match now.clock_text() {
                        Some(t) => {
                            self.clock = t;
                        },
                        None => {},
                    }
                    if self.enabled {
                        self.num = if self.num == i32::MAX { i32::MIN } else { self.num + 1 };
                    }
                }
                None
            },
            Message::Increment => {
                self.num = if self.num == i32::MAX { i32::MIN } else { self.num + 1 };
                None
            },
            Message::Decrement => {
                self.num = if self.num == i32::MIN { i32::MAX } else { self.num - 1 };
                None
            },
            Message::FileOpened(Ok(text)) => {
                let lines = split_lines_of(text.as_str());
                self.push_lines(&lines);
                proof {
                    if !text@.contains('\r') {
                        lemma_split_single_lines(text@);
                        assert(texts(self.filters@) =~= texts(old(self).filters@) + split_lines(text@)) by {
                            assert forall|k: int| 0 <= k < lines.len() implies single_line(#[trigger] lines[k]@) by {
                                assert(texts(lines@)[k] == lines[k]@);
                            }
                            assert forall|j: int| 0 <= j < self.filters.len() implies
                                texts(self.filters@)[j] == (texts(old(self).filters@) + split_lines(text@))[j] by {
                                if j >= old(self).filters.len() {
                                    let k = j - old(self).filters.len();
                                    assert(texts(lines@)[k] == lines[k]@);
                                    assert(single_line(lines[k]@));
                                }
                            }
                        }
                    }
                }
                if !self.error_on_save {
                    self.error = None;
                }
                None
            },
            Message::FileOpened(Err(kind)) => {
                self.error = Some(kind);
                self.error_on_save = false;
                None
            },
            Message::SaveButton => {
                let text = join_lines_of(&self.filters);
                Some(Command::Save(self.file.clone(), text))
            },
            Message::Save(Ok(())) => {
                self.renormalize();
                if self.error_on_save {
                    self.error = None;
                }
                None
            },
            Message::Save(Err(kind)) => {
                self.error = Some(kind);
                self.error_on_save = true;
                None
            },
            Message::Add => {
                let buffer = EditableEntry::new("");
                let shown = buffer.text();
                proof {
                    assert(single_line(""@)) by {
                        reveal_strlit("");
                    }
                    reveal_strlit("");
                    assert(shown@ =~= Seq::<char>::empty());
                }
                self.contents.push(buffer);
                self.filters.push(shown);
                proof {
                    assert(texts(self.filters@) =~= texts(old(self).filters@).push(Seq::<char>::empty()));
                }
                None
            },
            Message::Update(index, action) => {
                let mut buffer = EditableEntry::new("");
                std::mem::swap(&mut buffer, &mut self.contents[index]);
                let shown = buffer.perform(action);
                std::mem::swap(&mut buffer, &mut self.contents[index]);
                self.filters.set(index, shown);
                None
            },
            Message::Noop => None,
        }
    }

    /// Splits the entries again at their line breaks, so that each is one line of the file.
    fn renormalize(&mut self)
        requires
            old(self).wf(),
        ensures
            final(self).wf(),
            if normalized(texts(old(self).filters@)) {
                final(self).filters == old(self).filters && final(self).contents == old(self).contents
            } else {
                let pieces = split_lines(join_lines(texts(old(self).filters@)));
                &&& final(self).filters.len() == pieces.len()
                &&& forall|k: int| 0 <= k < pieces.len() && single_line(#[trigger] pieces[k])
                    ==> final(self).filters[k]@ == pieces[k]
                &&& free_of_cr(texts(old(self).filters@)) ==> texts(final(self).filters@) == pieces
            },
            final(self).file == old(self).file,
            final(self).enabled == old(self).enabled,
            final(self).num == old(self).num,
            final(self).clock == old(self).clock,
            final(self).time == old(self).time,
            final(self).error == old(self).error,
            final(self).error_on_save == old(self).error_on_save,
    {
        let mut i: usize = 0;
        let mut plain = true;
        while i < self.filters.len()
            invariant
                0 <= i <= self.filters.len(),
                plain == forall|j: int| 0 <= j < i ==> !(#[trigger] texts(self.filters@)[j]).contains('\n'),
            decreases self.filters.len() - i,
        {
            let cs = crate::lines::chars_of(self.filters[i].as_str());
            let mut k: usize = 0;
            let mut found = false;
            while k < cs.len()
                invariant
                    0 <= k <= cs.len(),
                    found == exists|q: int| 0 <= q < k && cs@[q] == '\n',
                decreases cs.len() - k,
            {
                if cs[k] == '\n' {
                    found = true;
                }
                k = k + 1;
            }
            proof {
                assert(texts(self.filters@)[i as int] == cs@);
                if found {
                    let q = choose|q: int| 0 <= q < cs.len() && cs@[q] == '\n';
                    assert(cs@.contains('\n'));
                } else {
                    assert(!cs@.contains('\n'));
                }
            }
            if found {
                plain = false;
            }
            i = i + 1;
        }
        if !plain {
            let text = join_lines_of(&self.filters);
            let lines = split_lines_of(text.as_str());
            self.filters = Vec::new();
            self.contents = Vec::new();
            self.push_lines(&lines);
            proof {
                assert forall|k: int| 0 <= k < lines.len() implies texts(lines@)[k] == lines[k]@ by {}
                if free_of_cr(texts(old(self).filters@)) {
                    lemma_join_free_of(texts(old(self).filters@), '\r');
                    lemma_split_single_lines(text@);
                    assert forall|k: int| 0 <= k < lines.len() implies single_line(#[trigger] lines[k]@) by {
                        assert(texts(lines@)[k] == lines[k]@);
                    }
                    assert(texts(self.filters@) =~= texts(lines@));
                }
            }
        }
    }

    /// Appends one buffer per line and, beside it, the text that the buffer holds.
    fn push_lines(&mut self, lines: &Vec<String>)
        requires
            old(self).wf(),
        ensures
            final(self).wf(),
            final(self).filters.len() == old(self).filters.len() + lines.len(),
            forall|j: int| 0 <= j < old(self).filters.len() ==> final(self).filters[j] == old(self).filters[j]
                && final(self).contents[j] == old(self).contents[j],
            forall|k: int| 0 <= k < lines.len() && single_line(#[trigger] lines[k]@)
                ==> final(self).filters[old(self).filters.len() + k]@ == lines[k]@,
            final(self).file == old(self).file,
            final(self).enabled == old(self).enabled,
            final(self).num == old(self).num,
            final(self).clock == old(self).clock,
            final(self).time == old(self).time,
            final(self).error == old(self).error,
            final(self).error_on_save == old(self).error_on_save,
    {
        let ghost n = self.filters.len();
        let mut k: usize = 0;
        while k < lines.len()
            invariant
                self.wf(),
                0 <= k <= lines.len(),
                self.filters.len() == n + k,
                forall|j: int| 0 <= j < n ==> self.filters[j] == old(self).filters[j]
                    && self.contents[j] == old(self).contents[j],
                forall|q: int| 0 <= q < k && single_line(#[trigger] lines[q]@)
                    ==> self.filters[n + q]@ == lines[q]@,
                self.file == old(self).file,
                self.enabled == old(self).enabled,
                self.num == old(self).num,
                self.clock == old(self).clock,
                self.time == old(self).time,
                self.error == old(self).error,
                self.error_on_save == old(self).error_on_save,
                n == old(self).filters.len(),
            decreases lines.len() - k,
        {
            let buffer = EditableEntry::new(lines[k].as_str());
            let shown = buffer.text();
            self.contents.push(buffer);
            self.filters.push(shown);
            k = k + 1;
        }
    }
}

/// The counter after the messages `ms` in turn, from counter `c`, flag `enabled` and
/// last tick `last`, as `Home::update` moves it.
pub open spec fn counter_after(c: i32, enabled: bool, last: Option<Timestamp>, ms: Seq<Message>) -> i32
    decreases ms.len(),
{
    if ms.len() == 0 {
        c
    } else {
        counter_after(
            counter_step(c, enabled, last, ms[0]),
            enabled_step(enabled, ms[0]),
            time_step(last, ms[0]),
            ms.drop_first(),
        )
    }
}

/// With the flag set, a tick delivered twice at the same new instant raises the
/// counter once, not twice.
pub proof fn lemma_tick_twice_counts_once(c: i32, last: Option<Timestamp>, now: Timestamp)
    requires
        is_new_tick(last, now),
    ensures
        counter_after(c, true, last, seq![Message::Tick(now), Message::Tick(now)]) == bump(c),
{
    let ms = seq![Message::Tick(now), Message::Tick(now)];
    assert(ms.drop_first() =~= seq![Message::Tick(now)]);
    assert(ms.drop_first().drop_first() =~= Seq::<Message>::empty());
    reveal_with_fuel(counter_after, 3);
}

/// Raising the counter and then setting the flag, before a tick, leaves the counter
/// where setting the flag first and then raising it does.
pub proof fn lemma_enable_commutes_with_increment(
    c: i32,
    enabled: bool,
    last: Option<Timestamp>,
    now: Timestamp,
)
    ensures
        counter_after(
            c,
            enabled,
            last,
            seq![Message::Increment, Message::Enable(true), Message::Tick(now)],
        ) == counter_after(
            c,
            enabled,
            last,
            seq![Message::Enable(true), Message::Increment, Message::Tick(now)],
        ),
{
    let a = seq![Message::Increment, Message::Enable(true), Message::Tick(now)];
    let b = seq![Message::Enable(true), Message::Increment, Message::Tick(now)];
    assert(a.drop_first() =~= seq![Message::Enable(true), Message::Tick(now)]);
    assert(b.drop_first() =~= seq![Message::Increment, Message::Tick(now)]);
    assert(a.drop_first().drop_first() =~= seq![Message::Tick(now)]);
    assert(b.drop_first().drop_first() =~= seq![Message::Tick(now)]);
    assert(seq![Message::Tick(now)].drop_first() =~= Seq::<Message>::empty());
    reveal_with_fuel(counter_after, 4);
}

} // verus!

use std::sync::Arc;

use iced::widget::text_editor::{Action, Edit};
use netfilter::clock::Timestamp;
use netfilter::entry::EditableEntry;
use netfilter::lines::{join_lines_of, split_lines_of};
use netfilter::state::{Command, ErrorKind, Home, Message};

fn fresh() -> Home {
    Home::new(5, "filter.txt".to_owned()).0
}

fn scenario_a() -> Home {
    let mut home = fresh();
    let r = home.update(Message::FileOpened(Ok("a\nb\nc".to_owned())));
    assert!(r.is_none());
    home
}

fn strings(v: &[&str]) -> Vec<String> {
    v.iter().map(|s| s.to_string()).collect()
}

fn assert_in_sync(home: &Home) {
    assert_eq!(home.filters.len(), home.contents.len());
    for (i, e) in home.filters.iter().enumerate() {
        assert_eq!(*e, home.contents[i].text());
    }
}

fn at(secs: i64) -> Timestamp {
    Timestamp { secs, nanos: 0 }
}

#[test]
fn new_asks_to_load_the_file() {
    let (home, cmd) = Home::new(5, "filter.txt".to_owned());
    assert_eq!(cmd, Command::Load("filter.txt".to_owned()));
    assert_eq!(home.num, 5);
    assert!(!home.enabled);
    assert!(home.filters.is_empty());
    assert!(home.contents.is_empty());
    assert_eq!(home.error, None);
}

#[test]
fn scenario_a_load_splits_lines() {
    let home = scenario_a();
    assert_eq!(home.filters, strings(&["a", "b", "c"]));
    assert_eq!(home.contents.len(), 3);
    assert_in_sync(&home);
}

#[test]
fn scenario_b_add_entry() {
    let mut home = scenario_a();
    assert!(home.update(Message::Add).is_none());
    assert_eq!(home.filters, strings(&["a", "b", "c", ""]));
    assert_in_sync(&home);
}

#[test]
fn scenario_c_edit_entry() {
    let mut home = scenario_a();
    assert!(home.update(Message::Update(1, Action::SelectAll)).is_none());
    let paste = Action::Edit(Edit::Paste(Arc::new("bb".to_owned())));
    assert!(home.update(Message::Update(1, paste)).is_none());
    assert_eq!(home.filters, strings(&["a", "bb", "c"]));
    assert_eq!(home.contents[1].text(), "bb");
    assert_in_sync(&home);
}

#[test]
fn scenario_d_load_error() {
    let mut home = fresh();
    home.update(Message::FileOpened(Err(ErrorKind::NotFound)));
    assert!(home.filters.is_empty());
    assert!(home.contents.is_empty());
    assert_eq!(home.error, Some(ErrorKind::NotFound));
}

#[test]
fn scenario_e_request_save() {
    let mut home = scenario_a();
    let cmd = home.update(Message::SaveButton);
    assert_eq!(cmd, Some(Command::Save("filter.txt".to_owned(), "a\nb\nc".to_owned())));
    assert_eq!(home.filters, strings(&["a", "b", "c"]));
}

#[test]
fn tick_same_instant_counts_once() {
    let mut home = fresh();
    home.update(Message::Enable(true));
    home.update(Message::Tick(at(1000)));
    home.update(Message::Tick(at(1000)));
    assert_eq!(home.num, 6);
    home.update(Message::Tick(at(1001)));
    assert_eq!(home.num, 7);
}

#[test]
fn tick_without_flag_keeps_counter() {
    let mut home = fresh();
    home.update(Message::Tick(at(1000)));
    assert_eq!(home.num, 5);
    assert_eq!(home.time, Some(at(1000)));
}

#[test]
fn tick_sets_clock_text() {
    let mut home = fresh();
    home.update(Message::Tick(at(86_400 + 3_600 + 61)));
    assert_eq!(home.clock, "02/01/1970 01:01:01");
}

#[test]
fn clock_text_of_epoch_and_out_of_range() {
    assert_eq!(at(0).clock_text(), Some("01/01/1970 00:00:00".to_owned()));
    assert_eq!(at(253_402_300_799).clock_text(), Some("31/12/9999 23:59:59".to_owned()));
    assert_eq!(at(253_402_300_800).clock_text(), None);
}

#[test]
fn enable_commutes_with_increment() {
    let mut first = fresh();
    first.update(Message::Increment);
    first.update(Message::Enable(true));
    first.update(Message::Tick(at(50)));
    let mut second = fresh();
    second.update(Message::Enable(true));
    second.update(Message::Increment);
    second.update(Message::Tick(at(50)));
    assert_eq!(first.num, second.num);
    assert_eq!(first.num, 7);
}

#[test]
fn counter_wraps_at_the_limits() {
    let mut home = Home::new(i32::MAX, "f".to_owned()).0;
    home.update(Message::Increment);
    assert_eq!(home.num, i32::MIN);
    home.update(Message::Decrement);
    assert_eq!(home.num, i32::MAX);
    home.update(Message::Decrement);
    assert_eq!(home.num, i32::MAX - 1);
}

#[test]
fn split_then_join_round_trip() {
    for text in ["a\nb\nc", "", "one", "x\n\ny", "end\n"] {
        assert_eq!(join_lines_of(&split_lines_of(text)), text);
    }
    assert_eq!(split_lines_of("a\nb\nc"), strings(&["a", "b", "c"]));
    assert_eq!(split_lines_of(""), strings(&[""]));
    assert_eq!(split_lines_of("a\n"), strings(&["a", ""]));
    assert_eq!(join_lines_of(&Vec::new()), "");
}

#[test]
fn editable_entry_holds_its_text() {
    assert_eq!(EditableEntry::new("abc").text(), "abc");
    assert_eq!(EditableEntry::new("").text(), "");
    let mut e = EditableEntry::new("ab");
    e.perform(Action::SelectAll);
    let shown = e.perform(Action::Edit(Edit::Insert('z')));
    assert_eq!(shown, "z");
    assert_eq!(e.text(), "z");
}

#[test]
fn load_appends_to_existing_entries() {
    let mut home = scenario_a();
    home.update(Message::FileOpened(Ok("d".to_owned())));
    assert_eq!(home.filters, strings(&["a", "b", "c", "d"]));
    assert_in_sync(&home);
}

#[test]
fn load_with_carriage_returns_keeps_sync() {
    let mut home = fresh();
    home.update(Message::FileOpened(Ok("a\r\nb".to_owned())));
    assert_eq!(home.filters.len(), 2);
    assert_eq!(home.filters[1], "b");
    assert_in_sync(&home);
}

#[test]
fn save_ok_keeps_plain_entries() {
    let mut home = scenario_a();
    home.update(Message::Add);
    assert!(home.update(Message::Save(Ok(()))).is_none());
    assert_eq!(home.filters, strings(&["a", "b", "c", ""]));
    assert_in_sync(&home);
}

#[test]
fn save_ok_splits_entry_with_line_break() {
    let mut home = scenario_a();
    home.update(Message::Update(1, Action::Move(iced::widget::text_editor::Motion::End)));
    home.update(Message::Update(1, Action::Edit(Edit::Enter)));
    home.update(Message::Update(1, Action::Edit(Edit::Insert('x'))));
    assert_eq!(home.filters, strings(&["a", "b\nx", "c"]));
    let cmd = home.update(Message::SaveButton);
    assert_eq!(cmd, Some(Command::Save("filter.txt".to_owned(), "a\nb\nx\nc".to_owned())));
    home.update(Message::Save(Ok(())));
    assert_eq!(home.filters, strings(&["a", "b", "x", "c"]));
    assert_in_sync(&home);
}

#[test]
fn errors_are_cleared_by_success_of_the_same_kind() {
    let mut home = scenario_a();
    home.update(Message::Save(Err(ErrorKind::PermissionDenied)));
    assert_eq!(home.error, Some(ErrorKind::PermissionDenied));
    home.update(Message::FileOpened(Ok("d".to_owned())));
    assert_eq!(home.error, Some(ErrorKind::PermissionDenied));
    home.update(Message::Save(Ok(())));
    assert_eq!(home.error, None);
    home.update(Message::FileOpened(Err(ErrorKind::Other)));
    home.update(Message::Save(Ok(())));
    assert_eq!(home.error, Some(ErrorKind::Other));
    home.update(Message::FileOpened(Ok("e".to_owned())));
    assert_eq!(home.error, None);
}

#[test]
fn noop_and_enable_leave_entries() {
    let mut home = scenario_a();
    home.update(Message::Noop);
    home.update(Message::Enable(true));
    assert!(home.enabled);
    home.update(Message::Enable(false));
    assert!(!home.enabled);
    assert_eq!(home.filters, strings(&["a", "b", "c"]));
}

use std::cell::RefCell;

use deepscan::tui::action::{trash_selected_with, TrashFailure, TrashItem, TrashOutcome};
use deepscan::tui::keys::{meaning_of, Key, Move};
use deepscan::tui::list::{
    bar, bar_scale, centered, confirm_question, list_header, meta_column, row_line, ListAction,
    ListConfig, ListSession,
};
use deepscan::tui::widget::{Row, RowMeta, Sort};

fn item(path: &str, bytes: u64) -> TrashItem {
    TrashItem { path: path.into(), bytes }
}

fn row(bytes: u64, name: &str) -> Row {
    Row::new(bytes, name.into(), format!("/Users/t/files/{name}"), RowMeta::Blank)
}

#[test]
fn guard_refuses_dangerous_paths_and_trashes_safe_ones() {
    let home = Some("/Users/tester".to_string());
    let items = vec![
        item("/Users/tester/Library/Caches/foo", 100),
        item("/", 0), // must be refused
    ];
    let deleted = RefCell::new(Vec::new());
    let outcome = trash_selected_with(&items, &home, |p: &String| {
        deleted.borrow_mut().push(p.clone());
        Ok(())
    });
    assert_eq!(outcome.freed_bytes, 100);
    assert_eq!(outcome.failures.len(), 1, "root refused");
    assert_eq!(deleted.borrow().len(), 1, "only the safe path was deleted");
    assert_eq!(outcome.failures[0].error, "refused: failed safety guard");
    assert_eq!(outcome.failures[0].path, "/");
}

#[test]
fn failed_items_are_reported_with_their_error() {
    let items = vec![
        item("/Users/t/a/one", 1),
        item("/Users/t/a/two", 2),
        item("/Users/t", 4),
    ];
    let home = Some("/Users/t".to_string());
    let outcome = trash_selected_with(&items, &home, |p: &String| {
        if p.ends_with("two") {
            Err("busy".to_string())
        } else {
            Ok(())
        }
    });
    assert_eq!(outcome.freed_bytes, 1);
    let failures: Vec<(&str, &str)> = outcome
        .failures
        .iter()
        .map(|f| (f.path.as_str(), f.error.as_str()))
        .collect();
    assert_eq!(
        failures,
        vec![
            ("/Users/t/a/two", "busy"),
            ("/Users/t", "refused: failed safety guard"),
        ]
    );
}

#[test]
fn keys_have_one_meaning() {
    assert_eq!(meaning_of(Key::Char('q')), Move::Quit);
    assert_eq!(meaning_of(Key::Esc), Move::Quit);
    assert_eq!(meaning_of(Key::Char('k')), Move::Up);
    assert_eq!(meaning_of(Key::Up), Move::Up);
    assert_eq!(meaning_of(Key::Char('j')), Move::Down);
    assert_eq!(meaning_of(Key::Down), Move::Down);
    assert_eq!(meaning_of(Key::Char('h')), Move::Back);
    assert_eq!(meaning_of(Key::Left), Move::Back);
    assert_eq!(meaning_of(Key::Char('l')), Move::In);
    assert_eq!(meaning_of(Key::Right), Move::In);
    assert_eq!(meaning_of(Key::Enter), Move::In);
    assert_eq!(meaning_of(Key::Char('x')), Move::Nothing);
    assert_eq!(meaning_of(Key::Other), Move::Nothing);
}

#[test]
fn a_session_trashes_only_after_confirmation() {
    let mut s = ListSession::new(vec![row(1, "a"), row(9, "b"), row(4, "c")], Sort::Size);
    // Nothing selected: `d` does not open the modal.
    assert!(matches!(s.on_key(Key::Char('d')), ListAction::Stay));
    assert!(!s.confirming);
    s.on_key(Key::Char(' '));
    assert!(matches!(s.on_key(Key::Char('d')), ListAction::Stay));
    assert!(s.confirming);
    // Other keys are ignored while confirming; `n` closes the modal.
    s.on_key(Key::Char('a'));
    assert_eq!(s.state.selected_count(), 1);
    s.on_key(Key::Char('n'));
    assert!(!s.confirming);
    assert_eq!(s.state.selected_count(), 1, "closing keeps the selection");
    s.on_key(Key::Enter);
    assert!(s.confirming);
    let items = match s.on_key(Key::Char('y')) {
        ListAction::Trash(items) => items,
        other => panic!("unexpected {other:?}"),
    };
    assert_eq!(items.len(), 1);
    assert_eq!(items[0].path, "/Users/t/files/b");
    assert_eq!(items[0].bytes, 9);
}

#[test]
fn trashed_rows_leave_and_failed_ones_stay() {
    let mut s = ListSession::new(vec![row(1, "a"), row(9, "b"), row(4, "c")], Sort::Size);
    s.on_key(Key::Char('a'));
    s.on_key(Key::Down);
    s.on_key(Key::Down);
    s.on_key(Key::Char('d'));
    let items = match s.on_key(Key::Char('Y')) {
        ListAction::Trash(items) => items,
        other => panic!("unexpected {other:?}"),
    };
    assert_eq!(items.len(), 3);
    let round = TrashOutcome {
        freed_bytes: 10,
        failures: vec![TrashFailure { path: "/Users/t/files/c".into(), error: "busy".into() }],
    };
    s.after_trash(&items, round);
    assert_eq!(s.state.rows.len(), 1);
    assert_eq!(s.state.rows[0].label, "c");
    assert!(!s.state.rows[0].selected);
    assert_eq!(s.state.cursor, 0);
    assert!(!s.confirming);
    assert_eq!(s.outcome.freed_bytes, 10);
    assert_eq!(s.outcome.failures.len(), 1);
}

#[test]
fn sort_key_cycles_and_reveal_gives_the_path() {
    let mut s = ListSession::new(vec![row(1, "a"), row(9, "b")], Sort::Size);
    s.on_key(Key::Char('s'));
    assert_eq!(s.state.sort, Sort::Age);
    s.on_key(Key::Char('s'));
    assert_eq!(s.state.sort, Sort::Name);
    s.on_key(Key::Char('s'));
    assert_eq!(s.state.sort, Sort::Size);
    match s.on_key(Key::Char('f')) {
        ListAction::Reveal(p) => assert_eq!(p, "/Users/t/files/b"),
        other => panic!("unexpected {other:?}"),
    }
    assert!(matches!(s.on_key(Key::Esc), ListAction::Quit));
}

#[test]
fn list_texts() {
    let mut s = ListSession::new(vec![row(2048, "a")], Sort::Size);
    s.on_key(Key::Char(' '));
    let config = ListConfig { title: "deepscan clean".into(), home: None };
    assert_eq!(
        list_header(&config, &s.state),
        " deepscan clean   [selected: 1 · 2.0 KB]"
    );
    assert_eq!(
        row_line(&s.state.rows[0], 9000),
        " [x] ███···········      2.0 KB          a"
    );
    assert_eq!(
        confirm_question(2, 2048),
        "Move 2 item(s) (2.0 KB) to the Trash?\n\n[y] confirm    [n] cancel"
    );
    assert_eq!(meta_column(&RowMeta::Age(Some(12))), "12d");
    assert_eq!(meta_column(&RowMeta::Age(None)), "?");
    assert_eq!(meta_column(&RowMeta::Tag("safe".into())), "safe");
    assert_eq!(meta_column(&RowMeta::Confidence("high".into())), "high");
    assert_eq!(meta_column(&RowMeta::Blank), "");
    assert_eq!(bar(2, 4), "██··");
    assert_eq!(bar_scale(&s.state.rows), 2048);
    assert_eq!(bar_scale(&Vec::new()), 1);
}

#[test]
fn boxes_are_centred() {
    assert_eq!(centered(0, 100, 60), (20, 60));
    assert_eq!(centered(5, 41, 60), (5, 41));
    assert_eq!(centered(2, 9, 7), (3, 7));
}

use deepscan::tui::widget::{ListState, Row, RowMeta, Sort};

fn row(bytes: u64, name: &str, group: Option<usize>) -> Row {
    Row {
        bytes,
        label: name.into(),
        path: format!("/x/{name}"),
        selected: false,
        meta: RowMeta::Blank,
        group,
    }
}

fn aged(bytes: u64, name: &str, days: Option<u64>) -> Row {
    Row::new(bytes, name.into(), format!("/x/{name}"), RowMeta::Age(days))
}

fn labels(s: &ListState) -> Vec<&str> {
    s.rows.iter().map(|r| r.label.as_str()).collect()
}

#[test]
fn navigation_clamps() {
    let mut s = ListState::new(
        vec![row(3, "a", None), row(2, "b", None), row(1, "c", None)],
        Sort::Size,
    );
    s.move_up();
    assert_eq!(s.cursor, 0);
    s.move_down();
    s.move_down();
    s.move_down();
    assert_eq!(s.cursor, 2);
}

#[test]
fn toggle_and_totals() {
    let mut s = ListState::new(vec![row(10, "a", None), row(5, "b", None)], Sort::Size);
    s.toggle(); // select "a" (cursor 0, largest)
    assert_eq!(s.selected_count(), 1);
    assert_eq!(s.selected_bytes(), 10);
    s.toggle(); // deselect
    assert_eq!(s.selected_count(), 0);
}

#[test]
fn dupes_protect_last_copy() {
    // Two copies of one set; you may select one but never both.
    let mut s = ListState::new(
        vec![row(4, "copy1", Some(1)), row(4, "copy2", Some(1))],
        Sort::Size,
    );
    s.toggle(); // select copy1 (cursor 0)
    s.move_down();
    s.toggle(); // try to select copy2: refused (would be all)
    assert_eq!(s.selected_count(), 1, "one copy must remain unselected");
}

#[test]
fn select_all_keeps_one_per_group() {
    let mut s = ListState::new(
        vec![
            row(4, "c1", Some(1)),
            row(4, "c2", Some(1)),
            row(9, "solo", None),
        ],
        Sort::Size,
    );
    s.select_all();
    assert_eq!(s.selected_count(), 2, "solo + one redundant copy");
    // exactly one member of group 1 is unselected
    let unsel = s
        .rows
        .iter()
        .filter(|r| r.group == Some(1) && !r.selected)
        .count();
    assert_eq!(unsel, 1);
}

#[test]
fn sort_keeps_cursor_on_row() {
    let mut s = ListState::new(vec![row(1, "a", None), row(9, "b", None)], Sort::Size);
    // cursor 0 == "b" (largest). Switch to Name: "a","b"; cursor should follow "b".
    s.set_sort(Sort::Name);
    assert_eq!(s.rows[s.cursor].label, "b");
}

#[test]
fn rows_are_sorted_stably_in_each_way() {
    let rows = || vec![
        aged(5, "beta", Some(3)),
        aged(7, "Alpha", None),
        aged(5, "gamma", Some(90)),
        aged(9, "delta", Some(3)),
    ];
    let s = ListState::new(rows(), Sort::Size);
    assert_eq!(labels(&s), vec!["delta", "Alpha", "beta", "gamma"]);
    let s = ListState::new(rows(), Sort::Age);
    assert_eq!(labels(&s), vec!["gamma", "beta", "delta", "Alpha"]);
    let s = ListState::new(rows(), Sort::Name);
    assert_eq!(labels(&s), vec!["Alpha", "beta", "delta", "gamma"]);
}

#[test]
fn names_are_compared_in_lower_case() {
    // In code point order "Zeta" would come before "alpha".
    let s = ListState::new(vec![row(1, "Zeta", None), row(1, "alpha", None)], Sort::Name);
    assert_eq!(labels(&s), vec!["alpha", "Zeta"]);
}

#[test]
fn a_copy_is_kept_whatever_is_pressed() {
    let mut s = ListState::new(
        vec![
            row(4, "c1", Some(1)),
            row(4, "c2", Some(1)),
            row(4, "c3", Some(1)),
            row(2, "d1", Some(2)),
            row(2, "d2", Some(2)),
        ],
        Sort::Size,
    );
    for step in 0..40usize {
        match step % 7 {
            0 | 2 | 4 => s.toggle(),
            1 | 3 => s.move_down(),
            5 => s.set_sort(if step % 2 == 0 { Sort::Name } else { Sort::Age }),
            _ => s.select_all(),
        }
        if step % 11 == 0 {
            s.cursor = 0;
        }
        for g in [1, 2] {
            assert!(s.rows.iter().any(|r| r.group == Some(g) && !r.selected));
        }
    }
}

#[test]
fn a_single_copy_cannot_be_selected() {
    let mut s = ListState::new(vec![row(1, "only", Some(7))], Sort::Size);
    assert!(!s.can_select(0));
    s.toggle();
    assert_eq!(s.selected_count(), 0);
    s.select_all();
    assert_eq!(s.selected_count(), 0);
}

#[test]
fn select_none_clears_and_selected_lists() {
    let mut s = ListState::new(vec![row(3, "a", None), row(2, "b", None)], Sort::Size);
    s.select_all();
    let picked: Vec<&str> = s.selected().iter().map(|r| r.label.as_str()).collect();
    assert_eq!(picked, vec!["a", "b"]);
    assert_eq!(s.selected_bytes(), 5);
    s.select_none();
    assert_eq!(s.selected().len(), 0);
}

#[test]
fn an_empty_list_stays_put() {
    let mut s = ListState::new(Vec::new(), Sort::Size);
    s.move_down();
    s.move_up();
    s.toggle();
    s.set_sort(Sort::Name);
    assert_eq!(s.cursor, 0);
    assert_eq!(s.selected_count(), 0);
}

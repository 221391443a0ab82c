use memtop::event_loop::{AppState, Key, KeyAction};
use memtop::panes::{ProcessListOrTree, ProcessListPane, ProcessTreePane};
use memtop::process_list::{ProcessInfoLine, ProcessList};
use memtop::process_tree::ProcessTree;
use memtop::table::{SelectableTable, SelectionState};
use memtop::tabs::TabsPane;
use memtop::tree_layout::{tree_display_name, tree_print_line};

fn list_of(n: u32) -> ProcessList {
    ProcessList(
        (0..n)
            .map(|i| ProcessInfoLine { pid: i + 1, name: format!("p{}", i), pss: 0, rss: 0 })
            .collect(),
    )
}

#[test]
fn tabs_wrap_around() {
    let mut tabs = TabsPane { titles: ["Process List", "Process"], selected_tab: 0 };
    tabs.next();
    assert_eq!(tabs.selected_tab, 1);
    tabs.next();
    assert_eq!(tabs.selected_tab, 0);
    tabs.previous();
    assert_eq!(tabs.selected_tab, 1);
    tabs.previous();
    assert_eq!(tabs.selected_tab, 0);
    // next then previous returns to the same tab
    tabs.next();
    tabs.previous();
    assert_eq!(tabs.selected_tab, 0);
}

#[test]
fn table_starts_on_first_row() {
    let t = SelectableTable::new(list_of(3));
    assert_eq!(t.state, SelectionState { selected: Some(0), selected_column: Some(0), offset: 0 });
    assert_eq!(t.get_selected().unwrap().pid, 1);
}

#[test]
fn table_moves_and_wraps() {
    let mut t = SelectableTable::new(list_of(3));
    t.select_next(1);
    assert_eq!(t.state.selected, Some(1));
    t.select_next(1);
    assert_eq!(t.state.selected, Some(2));
    t.select_next(1);
    assert_eq!(t.state.selected, Some(0));
    t.select_previous(1);
    assert_eq!(t.state.selected, Some(2));
    t.select_previous(5);
    assert_eq!(t.state.selected, Some(0));
    t.select_next(usize::MAX);
    assert_eq!(t.state.selected, Some(0));
    t.select_last();
    assert_eq!(t.state.selected, Some(2));
    assert_eq!(t.get_selected().unwrap().pid, 3);
    t.select_first();
    assert_eq!(t.state.selected, Some(0));
}

#[test]
fn table_down_then_up_returns() {
    for start in 0..4usize {
        let mut t = SelectableTable::new(list_of(4));
        t.state.selected = Some(start);
        t.select_next(1);
        t.select_previous(1);
        assert_eq!(t.state.selected, Some(start));
    }
}

#[test]
fn table_empty_and_unselected() {
    let mut t = SelectableTable::new(list_of(0));
    assert!(t.get_selected().is_none());
    t.select_previous(1);
    assert_eq!(t.state.selected, Some(0));
    t.select_last();
    assert_eq!(t.state.selected, Some(0));
    t.state.select(None);
    t.state.offset = 4;
    t.state.select(None);
    assert_eq!(t.state.offset, 0);
    t.select_next(1);
    assert_eq!(t.state.selected, Some(0));
}

#[test]
fn panes_start_as_list() {
    match ProcessListOrTree::default() {
        ProcessListOrTree::List(p) => assert!(p.process_list.items.0.is_empty()),
        ProcessListOrTree::Tree(_) => panic!("the list is shown first"),
    }
    assert!(ProcessTreePane::new().process_tree.items.0.is_empty());
    assert!(ProcessListPane::new().process_list.items.0.is_empty());
}

#[test]
fn app_state_at_start() {
    let s = AppState::new();
    assert_eq!(s.update_period_ms, 500);
    assert!(s.show_system_usage);
    assert!(!s.toggle_threads);
    assert!(!s.should_quit);
    assert!(s.needs_redraw);
    assert_eq!(s.tabs.selected_tab, 0);
    assert_eq!(s.system_usage_pane_height(), 3);
    assert!(s.shows_processes());
}

#[test]
fn period_keys_stay_in_bounds() {
    let mut s = AppState::new();
    for _ in 0..100 {
        s.handle_key(Key::Char('+'));
    }
    assert_eq!(s.update_period_ms, 5000);
    s.handle_key(Key::Char('-'));
    assert_eq!(s.update_period_ms, 4900);
    for _ in 0..100 {
        s.handle_key(Key::Char('-'));
    }
    assert_eq!(s.update_period_ms, 100);
    s.handle_key(Key::Char('+'));
    assert_eq!(s.update_period_ms, 200);
}

#[test]
fn keys_and_redraws() {
    let mut s = AppState::new();
    assert!(s.take_redraw());
    assert!(!s.take_redraw());
    assert_eq!(s.handle_key(Key::Char('+')), KeyAction::Continue);
    assert!(!s.take_redraw());
    s.handle_key(Key::Char('1'));
    assert!(!s.show_system_usage);
    assert_eq!(s.system_usage_pane_height(), 0);
    assert!(s.take_redraw());
    s.handle_key(Key::Char('d'));
    assert_eq!(s.tabs.selected_tab, 1);
    assert!(!s.shows_processes());
    s.handle_key(Key::Char('a'));
    assert_eq!(s.tabs.selected_tab, 0);
    s.handle_key(Key::Other);
    s.handle_key(Key::Char('x'));
    assert!(!s.should_quit);
    s.handle_key(Key::Esc);
    assert!(s.should_quit);
    let mut t = AppState::new();
    t.handle_key(Key::Char('q'));
    assert!(t.should_quit);
}

#[test]
fn switching_views_asks_for_reload() {
    let mut s = AppState::new();
    assert_eq!(s.handle_key(Key::Char('c')), KeyAction::ReloadTree);
    assert!(matches!(s.processes, ProcessListOrTree::Tree(_)));
    s.reload_processes(&None);
    assert_eq!(s.handle_key(Key::Char('c')), KeyAction::ReloadList);
    assert!(matches!(s.processes, ProcessListOrTree::List(_)));
}

#[test]
fn updates_fill_the_shown_pane_and_keys_move_selection() {
    let mut s = AppState::new();
    s.take_redraw();
    s.apply_update(list_of(3), ProcessTree::new());
    assert!(s.take_redraw());
    match &s.processes {
        ProcessListOrTree::List(p) => assert_eq!(p.process_list.items.0.len(), 3),
        ProcessListOrTree::Tree(_) => panic!("list expected"),
    }
    s.handle_key(Key::Down);
    s.handle_key(Key::Char('j'));
    match &s.processes {
        ProcessListOrTree::List(p) => assert_eq!(p.process_list.state.selected, Some(2)),
        ProcessListOrTree::Tree(_) => panic!("list expected"),
    }
    s.handle_key(Key::Up);
    s.handle_key(Key::Char('k'));
    s.handle_key(Key::Char('k'));
    match &s.processes {
        ProcessListOrTree::List(p) => assert_eq!(p.process_list.state.selected, Some(2)),
        ProcessListOrTree::Tree(_) => panic!("list expected"),
    }
}

#[test]
fn tree_row_texts() {
    assert_eq!(tree_display_name(0, "init"), "├─ init");
    assert_eq!(tree_display_name(2, "sh"), "│  │  ├─ sh");
    assert_eq!(tree_print_line(1, "sh", 42), "  ├─ sh (PID 42)");
}

#[test]
fn quitting_stays_decided() {
    let mut s = AppState::new();
    s.handle_key(Key::Char('q'));
    for k in [Key::Char('c'), Key::Char('+'), Key::Down, Key::Char('1'), Key::Other] {
        s.handle_key(k);
        assert!(s.should_quit);
    }
}

#[test]
fn usage_pane_toggles_back() {
    let mut s = AppState::new();
    s.handle_key(Key::Char('1'));
    s.handle_key(Key::Char('1'));
    assert!(s.show_system_usage);
}

use speki::tabs::{App, MyKey, Progress, TabKind, TabsState};

#[test]
fn tabs_move_within_bounds() {
    let mut t = TabsState::new();
    assert_eq!(t.index, 0);
    t.previous();
    assert_eq!(t.index, 0);
    for _ in 0..10 {
        t.next();
    }
    assert_eq!(t.index, 3);
}

#[test]
fn swapping_keeps_selected_tab() {
    let mut t = TabsState::new();
    t.swap_right();
    assert_eq!(t.index, 1);
    assert_eq!(t.tabs[1], TabKind::Review);
    assert_eq!(t.tabs[0], TabKind::AddCard);
    t.swap_left();
    t.swap_left();
    assert_eq!(t.index, 0);
    assert_eq!(t.tabs[0], TabKind::Review);
}

#[test]
fn global_keys() {
    let mut app = App::new(false);
    app.keyhandler(MyKey::F(1));
    assert!(app.display_help);
    app.keyhandler(MyKey::Tab);
    assert_eq!(app.tabs.index, 1);
    app.keyhandler(MyKey::BackTab);
    assert_eq!(app.tabs.index, 0);
    app.keyhandler(MyKey::Char('q'));
    assert!(!app.should_quit);
    app.keyhandler(MyKey::Alt('q'));
    assert!(app.should_quit);
}

#[test]
fn progress_ends_on_last_item() {
    let mut p = Progress::new("Import".to_string());
    assert_eq!(p.get_title(), "Import");
    p.advance(3, 10);
    assert!(!p.done);
    assert_eq!(p.current, 3);
    p.advance(9, 10);
    assert!(p.done);
    let mut q = Progress::new("x".to_string());
    q.advance(0, 0);
    assert!(!q.done);
    q.disconnect();
    assert!(q.done);
}

#[test]
fn swap_keys_move_selected_tab() {
    let mut app = App::new(false);
    assert_eq!(
        app.tabs.tabs,
        vec![TabKind::Review, TabKind::AddCard, TabKind::IncrementalReading, TabKind::Import]
    );
    app.keyhandler(MyKey::BackSwapTab);
    assert_eq!(app.tabs.index, 0);
    assert_eq!(app.tabs.tabs[0], TabKind::Review);
    app.keyhandler(MyKey::SwapTab);
    assert_eq!(app.tabs.index, 1);
    assert_eq!(
        app.tabs.tabs,
        vec![TabKind::AddCard, TabKind::Review, TabKind::IncrementalReading, TabKind::Import]
    );
    app.keyhandler(MyKey::SwapTab);
    app.keyhandler(MyKey::SwapTab);
    app.keyhandler(MyKey::SwapTab);
    assert_eq!(app.tabs.index, 3);
    assert_eq!(app.tabs.tabs[3], TabKind::Review);
    app.keyhandler(MyKey::BackSwapTab);
    assert_eq!(app.tabs.index, 2);
    assert_eq!(app.tabs.tabs[2], TabKind::Review);
    assert_eq!(app.tabs.tabs[3], TabKind::Import);
}

use modsize::nav::AppMode;
use modsize::nav::AppState;
use modsize::nav::NavKey;
use modsize::scan::ModuleInfo;

fn module(name: &str, size: u64) -> ModuleInfo {
    ModuleInfo {
        name: name.to_string(),
        size,
        dependency_count: None,
        last_updated: None,
        license: None,
        version: None,
        description: None,
        author: None,
        homepage: None,
        repository: None,
        files_count: None,
        file_types: None,
        is_dev_dependency: false,
    }
}

fn modules(n: usize) -> Vec<ModuleInfo> {
    let mut v = Vec::new();
    for i in 0..n {
        v.push(module(&format!("m{}", i), 1000 - i as u64));
    }
    v
}

#[test]
fn test_app_state_init() {
    let modules = vec![module("test1", 100), module("test2", 200)];
    let app_state = AppState {
        modules: modules.clone(),
        scroll_offset: 0,
        selected_index: None,
        mode: AppMode::List,
    };
    assert_eq!(app_state.modules.len(), 2);
    assert_eq!(app_state.scroll_offset, 0);
    assert_eq!(app_state.selected_index, None);
    match app_state.mode {
        AppMode::List => {}
        _ => panic!("Expected AppMode::List"),
    }
}

#[test]
fn navigation_walk_stays_in_bounds() {
    // ten records, viewport of height 8: four visible rows, so the scroll
    // offset may range over [0, 6] and the selection over [0, 9]
    let mut st = AppState::new(modules(10));
    let h: usize = 8;

    st.handle_key(NavKey::Down, h);
    assert_eq!((st.scroll_offset, st.selected_index), (0, Some(0)));
    for _ in 0..4 {
        st.handle_key(NavKey::Down, h);
    }
    assert_eq!((st.scroll_offset, st.selected_index), (1, Some(4)));

    st.handle_key(NavKey::End, h);
    assert_eq!((st.scroll_offset, st.selected_index), (6, Some(9)));
    st.handle_key(NavKey::Down, h);
    assert_eq!((st.scroll_offset, st.selected_index), (6, Some(9)));

    st.handle_key(NavKey::Up, h);
    assert_eq!((st.scroll_offset, st.selected_index), (6, Some(8)));

    st.handle_key(NavKey::Home, h);
    assert_eq!((st.scroll_offset, st.selected_index), (0, Some(0)));
    st.handle_key(NavKey::Up, h);
    assert_eq!((st.scroll_offset, st.selected_index), (0, Some(0)));

    st.handle_key(NavKey::PageDown, h);
    assert_eq!((st.scroll_offset, st.selected_index), (4, Some(4)));
    st.handle_key(NavKey::PageDown, h);
    assert_eq!((st.scroll_offset, st.selected_index), (6, Some(8)));
    st.handle_key(NavKey::PageUp, h);
    assert_eq!((st.scroll_offset, st.selected_index), (2, Some(4)));
    st.handle_key(NavKey::PageUp, h);
    assert_eq!((st.scroll_offset, st.selected_index), (0, Some(0)));
}

#[test]
fn scrolling_up_pulls_window_along() {
    let mut st = AppState::new(modules(10));
    let h: usize = 8;
    st.handle_key(NavKey::Down, h);
    st.handle_key(NavKey::End, h);
    assert_eq!((st.scroll_offset, st.selected_index), (6, Some(9)));
    for _ in 0..3 {
        st.handle_key(NavKey::Up, h);
    }
    assert_eq!((st.scroll_offset, st.selected_index), (6, Some(6)));
    st.handle_key(NavKey::Up, h);
    assert_eq!((st.scroll_offset, st.selected_index), (5, Some(5)));
    st.handle_key(NavKey::Up, h);
    assert_eq!((st.scroll_offset, st.selected_index), (4, Some(4)));
}

#[test]
fn tiny_viewport_keeps_bounds() {
    // height 3 leaves no visible rows: the window bound is the whole length
    let mut st = AppState::new(modules(3));
    let h: usize = 3;
    st.handle_key(NavKey::Down, h);
    assert_eq!((st.scroll_offset, st.selected_index), (0, Some(0)));
    st.handle_key(NavKey::Down, h);
    assert_eq!((st.scroll_offset, st.selected_index), (1, Some(1)));
    st.handle_key(NavKey::End, h);
    assert_eq!((st.scroll_offset, st.selected_index), (3, Some(2)));
    st.handle_key(NavKey::PageUp, h);
    assert_eq!((st.scroll_offset, st.selected_index), (3, Some(2)));
}

#[test]
fn detail_round_trip_restores_navigation() {
    let mut st = AppState::new(modules(10));
    let h: usize = 8;
    st.handle_key(NavKey::End, h);
    st.handle_key(NavKey::Up, h);
    let scroll_before = st.scroll_offset;
    let selected_before = st.selected_index;

    st.handle_key(NavKey::Enter, h);
    assert!(matches!(st.mode, AppMode::Detail));
    st.handle_key(NavKey::Down, h);
    st.handle_key(NavKey::Home, h);
    assert!(matches!(st.mode, AppMode::Detail));
    st.handle_key(NavKey::Escape, h);
    assert!(matches!(st.mode, AppMode::List));
    assert_eq!(st.scroll_offset, scroll_before);
    assert_eq!(st.selected_index, selected_before);
}

#[test]
fn enter_without_selection_stays_in_list() {
    let mut st = AppState::new(modules(4));
    st.handle_key(NavKey::Enter, 20);
    assert!(matches!(st.mode, AppMode::List));
    assert_eq!(st.selected_index, None);
}

#[test]
fn empty_collection_ignores_every_key() {
    let mut st = AppState::new(Vec::new());
    let keys = [
        NavKey::Up,
        NavKey::Down,
        NavKey::PageUp,
        NavKey::PageDown,
        NavKey::Home,
        NavKey::End,
        NavKey::Enter,
        NavKey::Escape,
        NavKey::Other,
    ];
    for h in [0usize, 3, 8, 100] {
        for k in keys {
            let quit = st.handle_key(k, h);
            assert!(!quit);
            assert_eq!(st.scroll_offset, 0);
            assert_eq!(st.selected_index, None);
            assert!(matches!(st.mode, AppMode::List));
        }
    }
    assert!(st.handle_key(NavKey::Quit, 8));
}

#[test]
fn quit_reported_from_both_modes() {
    let mut st = AppState::new(modules(2));
    assert!(!st.handle_key(NavKey::Down, 8));
    assert!(st.handle_key(NavKey::Quit, 8));
    st.handle_key(NavKey::Enter, 8);
    assert!(matches!(st.mode, AppMode::Detail));
    assert!(st.handle_key(NavKey::Quit, 8));
}

#[test]
fn resize_reclamp_is_idempotent_and_keeps_selection() {
    let mut st = AppState::new(modules(10));
    let h: usize = 8;
    st.handle_key(NavKey::Down, h);
    st.handle_key(NavKey::End, h);
    assert_eq!((st.scroll_offset, st.selected_index), (6, Some(9)));
    // the terminal grew: the whole collection fits, the scroll drops to 0
    st.clamp_scroll(20);
    assert_eq!((st.scroll_offset, st.selected_index), (0, Some(9)));
    st.clamp_scroll(20);
    assert_eq!((st.scroll_offset, st.selected_index), (0, Some(9)));
    // it shrank again: 6 is still within the bound for height 8
    st.handle_key(NavKey::End, h);
    st.clamp_scroll(h);
    assert_eq!((st.scroll_offset, st.selected_index), (6, Some(9)));
}

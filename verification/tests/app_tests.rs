use faceitui::app::{Extent, Scroll};
use faceitui::api::{LifetimeSegment, MatchItem, PlayerLifetimeStats, PlayerProfile, StatValue};
use faceitui::app::{
    App, Command, ExportKind, InputMode, Key, LoadingState, Lookup, MouseButton, MouseInput,
    MouseKind, Rect, Toast,
};

fn app() -> App {
    App::new(vec!["nord".to_string(), "flexoki-dark".to_string(), "dracula".to_string()], "flexoki-dark", Some("sk-test".to_string()))
}

fn profile() -> PlayerProfile {
    PlayerProfile {
        player_id: "11111111-2222-3333-4444-555555555555".to_string(),
        nickname: "ropz".to_string(),
        avatar: None,
        country: None,
        games: None,
    }
}

fn matches(n: usize) -> Vec<MatchItem> {
    (0..n).map(|i| vec![("Map".to_string(), format!("map{}", i))]).collect()
}

fn lifetime(n: usize) -> PlayerLifetimeStats {
    PlayerLifetimeStats {
        player_id: "p".to_string(),
        game_id: "cs2".to_string(),
        lifetime: Some((0..n).map(|i| (format!("k{}", i), StatValue::Text("1".to_string()))).collect()),
        segments: Some(vec![
            LifetimeSegment {
                type_field: Some("Map".to_string()),
                mode: None,
                label: Some("Mirage".to_string()),
                img_regular: None,
                stats: Some(vec![]),
            },
            LifetimeSegment {
                type_field: Some("Mode".to_string()),
                mode: None,
                label: None,
                img_regular: None,
                stats: None,
            },
        ]),
    }
}

fn loaded_app() -> App {
    let mut a = app();
    a.input = "ropz".to_string();
    a.player_info = Some(profile());
    a.lifetime_stats = Some(lifetime(5));
    a.match_history = Some(matches(12));
    a.loading_state = LoadingState::Success;
    a
}

fn press(a: &mut App, keys: &[Key]) -> Vec<Command> {
    keys.iter().map(|k| a.handle_key_event(*k)).collect()
}

fn click(a: &mut App, column: u16, row: u16) {
    a.handle_mouse_event(MouseInput { kind: MouseKind::Down(MouseButton::Left), column, row });
}

#[test]
fn new_app_selects_the_named_theme() {
    let a = app();
    assert_eq!(a.theme_index, 1);
    assert_eq!(a.input_mode, InputMode::Normal);
    assert_eq!(a.loading_state, LoadingState::Idle);
    let b = App::new(vec!["nord".to_string()], "unknown-theme", None);
    assert_eq!(b.theme_index, 0);
}

#[test]
fn q_quits() {
    let mut a = app();
    assert!(matches!(a.handle_key_event(Key::Char('q')), Command::Quit));
    assert!(matches!(a.handle_key_event(Key::Char('Q')), Command::Quit));
}

#[test]
fn typing_and_searching() {
    let mut a = app();
    press(&mut a, &[Key::Char('i')]);
    assert_eq!(a.input_mode, InputMode::Editing);
    press(&mut a, &[Key::Char('r'), Key::Char('o'), Key::Char('p'), Key::Char('z'), Key::Char('x')]);
    press(&mut a, &[Key::Backspace]);
    assert_eq!(a.input, "ropz");
    assert!(matches!(a.handle_key_event(Key::Enter), Command::FetchStats));
    assert_eq!(a.input_mode, InputMode::Normal);
    assert_eq!(a.search_history, vec!["ropz".to_string()]);
}

#[test]
fn blank_search_does_nothing() {
    let mut a = app();
    press(&mut a, &[Key::Char('i'), Key::Char(' ')]);
    assert!(matches!(a.handle_key_event(Key::Enter), Command::Nothing));
    assert_eq!(a.input_mode, InputMode::Normal);
    assert!(a.search_history.is_empty());
}

#[test]
fn delete_clears_and_esc_leaves_editing() {
    let mut a = app();
    press(&mut a, &[Key::Char('i'), Key::Char('a'), Key::Delete]);
    assert_eq!(a.input, "");
    press(&mut a, &[Key::Esc]);
    assert_eq!(a.input_mode, InputMode::Normal);
}

#[test]
fn history_keeps_ten_distinct_searches() {
    let mut a = app();
    for i in 0..12 {
        a.input = format!("player{}", i);
        a.input_mode = InputMode::Editing;
        a.handle_key_event(Key::Enter);
    }
    a.input = "player11".to_string();
    a.input_mode = InputMode::Editing;
    a.handle_key_event(Key::Enter);
    assert_eq!(a.search_history.len(), 10);
    assert_eq!(a.search_history[0], "player2");
    assert_eq!(a.search_history[9], "player11");
}

#[test]
fn history_navigation() {
    let mut a = app();
    a.search_history = vec!["a".to_string(), "b".to_string(), "c".to_string()];
    a.input_mode = InputMode::Editing;
    press(&mut a, &[Key::Up]);
    assert_eq!((a.history_index, a.input.as_str()), (Some(2), "c"));
    press(&mut a, &[Key::Up, Key::Up, Key::Up]);
    assert_eq!((a.history_index, a.input.as_str()), (Some(0), "a"));
    press(&mut a, &[Key::Down]);
    assert_eq!((a.history_index, a.input.as_str()), (Some(1), "b"));
    press(&mut a, &[Key::Down, Key::Down]);
    assert_eq!((a.history_index, a.input.as_str()), (None, ""));
}

#[test]
fn esc_goes_home() {
    let mut a = loaded_app();
    a.selected_tab = 1;
    a.selected_row = 3;
    a.current_page = 2;
    a.ai_response = Some("answer".to_string());
    press(&mut a, &[Key::Esc]);
    assert_eq!(a.ai_response, None);
    press(&mut a, &[Key::Esc]);
    assert_eq!(a.loading_state, LoadingState::Idle);
    assert!(a.player_info.is_none() && a.lifetime_stats.is_none() && a.match_history.is_none());
    assert_eq!((a.selected_tab, a.selected_row, a.current_page), (0, 0, 0));
    assert_eq!(a.input, "ropz");
}

#[test]
fn tab_cycles_through_three_tabs() {
    let mut a = loaded_app();
    a.selected_row = 2;
    press(&mut a, &[Key::Tab]);
    assert_eq!((a.selected_tab, a.selected_row), (1, 0));
    press(&mut a, &[Key::Tab, Key::Tab]);
    assert_eq!(a.selected_tab, 0);
}

#[test]
fn rows_stay_within_the_tab() {
    let mut a = loaded_app();
    assert_eq!(a.tab_item_count(), 5);
    press(&mut a, &[Key::Down; 8]);
    assert_eq!(a.selected_row, 4);
    press(&mut a, &[Key::PageUp]);
    assert_eq!(a.selected_row, 0);
    press(&mut a, &[Key::Up]);
    assert_eq!(a.selected_row, 0);
    press(&mut a, &[Key::Tab, Key::PageDown]);
    assert_eq!(a.selected_row, 10);
    press(&mut a, &[Key::PageDown]);
    assert_eq!(a.selected_row, 11);
    press(&mut a, &[Key::Tab]);
    assert_eq!(a.tab_item_count(), 1);
}

#[test]
fn match_details_popup() {
    let mut a = loaded_app();
    a.selected_tab = 1;
    a.selected_row = 3;
    press(&mut a, &[Key::Enter]);
    assert!(a.show_match_popup);
    assert!(matches!(a.handle_key_event(Key::Char('q')), Command::Nothing));
    press(&mut a, &[Key::Esc]);
    assert!(!a.show_match_popup);
}

#[test]
fn map_details_popup() {
    let mut a = loaded_app();
    a.selected_tab = 2;
    press(&mut a, &[Key::Enter]);
    assert!(a.show_map_popup);
    press(&mut a, &[Key::Enter]);
    assert!(!a.show_map_popup);
}

#[test]
fn enter_on_lifetime_tab_edits() {
    let mut a = loaded_app();
    press(&mut a, &[Key::Enter]);
    assert_eq!(a.input_mode, InputMode::Editing);
}

#[test]
fn help_screen_closes_on_any_key() {
    let mut a = app();
    press(&mut a, &[Key::Char('?')]);
    assert!(a.show_help);
    assert!(matches!(a.handle_key_event(Key::Char('q')), Command::Nothing));
    assert!(!a.show_help);
}

#[test]
fn theme_selector() {
    let mut a = app();
    press(&mut a, &[Key::Char('t')]);
    assert!(a.show_theme_selector);
    assert_eq!(a.theme_selector_row, 1);
    press(&mut a, &[Key::Down, Key::Down]);
    assert_eq!(a.theme_selector_row, 2);
    press(&mut a, &[Key::Home]);
    assert_eq!(a.theme_selector_row, 0);
    press(&mut a, &[Key::End]);
    assert_eq!(a.theme_selector_row, 2);
    press(&mut a, &[Key::PageUp]);
    assert_eq!(a.theme_selector_row, 0);
    match a.handle_key_event(Key::Enter) {
        Command::LoadTheme(name) => assert_eq!(name, "nord"),
        _ => panic!("expected a theme"),
    }
    assert!(!a.show_theme_selector);
    assert_eq!(a.theme_index, 0);
    assert_eq!(a.toasts.last().unwrap().message, "Theme: nord");
}

#[test]
fn copy_player_id() {
    let mut a = loaded_app();
    match a.handle_key_event(Key::Char('c')) {
        Command::CopyText(t) => assert_eq!(t, "11111111-2222-3333-4444-555555555555"),
        _ => panic!("expected a copy"),
    }
    let mut b = app();
    b.input = "11111111-2222-3333-4444-555555555555".to_string();
    assert!(matches!(b.handle_key_event(Key::Char('c')), Command::CopyText(_)));
    b.input = "short".to_string();
    assert!(matches!(b.handle_key_event(Key::Char('c')), Command::Nothing));
    a.copy_finished("x", Ok(()));
    assert_eq!(a.toasts.last().unwrap().message, "Copied: x");
    a.copy_finished("x", Err("no clipboard".to_string()));
    assert_eq!(a.toasts.last().unwrap().message, "Copy failed: no clipboard");
    assert!(a.toasts.last().unwrap().is_error);
}

#[test]
fn pages() {
    let mut a = loaded_app();
    a.selected_tab = 1;
    a.has_more_pages = true;
    assert!(matches!(a.handle_key_event(Key::Char('n')), Command::FetchPage(1)));
    assert!(matches!(a.handle_key_event(Key::Char('p')), Command::Nothing));
    let req = a.begin_page(1);
    assert_eq!((req.player_id.as_str(), req.offset, req.limit), ("11111111-2222-3333-4444-555555555555", 30, 30));
    assert_eq!(a.loading_state, LoadingState::Loading);
    a.finish_page(1, Ok(matches(30)));
    assert_eq!((a.current_page, a.selected_row, a.has_more_pages), (1, 0, true));
    assert_eq!(a.loading_state, LoadingState::Success);
    assert!(matches!(a.handle_key_event(Key::Char('p')), Command::FetchPage(0)));
    a.finish_page(2, Err("timeout".to_string()));
    assert_eq!(a.loading_state, LoadingState::Error("Page load failed: timeout".to_string()));
}

#[test]
fn ai_analysis_flow() {
    let mut a = loaded_app();
    match a.handle_key_event(Key::Char('a')) {
        Command::Analyze(req) => {
            assert_eq!(req.name, "ropz");
            assert_eq!(req.lifetime.lines().count(), 5);
            assert_eq!(req.maps, "Mirage: M:- W:- WR:-");
            assert_eq!(req.matches.lines().count(), 12);
            assert_eq!(req.key, Some("sk-test".to_string()));
        }
        _ => panic!("expected an analysis"),
    }
    assert!(a.ai_loading);
    assert!(matches!(a.handle_key_event(Key::Char('a')), Command::Nothing));
    a.receive_ai(&vec!["Güçlü ".to_string(), "oyuncu".to_string()], false);
    assert_eq!(a.ai_partial, "Güçlü oyuncu");
    a.receive_ai(&vec![], true);
    assert_eq!(a.ai_response, Some("Güçlü oyuncu".to_string()));
    assert!(!a.ai_loading);
    assert_eq!(a.ai_partial, "");
}

#[test]
fn ai_key_is_asked_for_once() {
    let mut a = loaded_app();
    a.ai_key = None;
    assert!(matches!(a.handle_key_event(Key::Char('a')), Command::Nothing));
    assert!(a.show_ai_key_popup);
    assert!(!a.ai_loading);
    press(&mut a, &[Key::Char(' '), Key::Char('s'), Key::Char('k'), Key::Char('x'), Key::Backspace]);
    assert_eq!(a.ai_key_input, " sk");
    match a.handle_key_event(Key::Enter) {
        Command::Analyze(req) => assert_eq!(req.key, Some("sk".to_string())),
        _ => panic!("expected an analysis"),
    }
    assert!(!a.show_ai_key_popup);
    assert_eq!(a.ai_key_input, "");
    assert_eq!(a.ai_key, Some("sk".to_string()));
    assert!(a.ai_loading);
}

#[test]
fn ai_key_prompt_can_be_left() {
    let mut a = loaded_app();
    a.ai_key = None;
    a.handle_key_event(Key::Char('a'));
    press(&mut a, &[Key::Char(' ')]);
    assert!(matches!(a.handle_key_event(Key::Enter), Command::Nothing));
    assert!(a.show_ai_key_popup);
    assert!(matches!(a.handle_key_event(Key::Char('q')), Command::Nothing));
    a.handle_key_event(Key::Esc);
    assert!(!a.show_ai_key_popup);
    assert_eq!(a.ai_key_input, "");
    assert_eq!(a.ai_key, None);
    assert!(!a.ai_loading);
    assert_eq!(a.loading_state, LoadingState::Success);
}

#[test]
fn empty_ai_answer_is_an_error() {
    let mut a = loaded_app();
    a.handle_key_event(Key::Char('a'));
    a.receive_ai(&vec![], true);
    assert!(a.ai_response.is_none());
    assert!(!a.ai_loading);
    let t = a.toasts.last().unwrap();
    assert_eq!(t.message, "AI returned empty response");
    assert!(t.is_error);
}

#[test]
fn fetch_by_name_and_by_id() {
    let mut a = app();
    a.input = "  ropz ".to_string();
    match a.fetch_stats() {
        Lookup::ByName(q) => assert_eq!(q, "ropz"),
        _ => panic!("expected a name"),
    }
    assert_eq!(a.loading_state, LoadingState::Loading);
    a.input = "11111111-2222-3333-4444-555555555555".to_string();
    assert!(matches!(a.fetch_stats(), Lookup::ById(_)));
    a.input = "111111112222333344445555555555555555".to_string();
    assert!(matches!(a.fetch_stats(), Lookup::ByName(_)));
}

#[test]
fn fetch_results() {
    let mut a = app();
    a.input = "ropz".to_string();
    a.fetch_stats();
    let id = a.search_found(profile());
    assert_eq!(id, "11111111-2222-3333-4444-555555555555");
    a.finish_fetch(None, Some(matches(30)));
    assert_eq!(a.loading_state, LoadingState::Success);
    assert!(a.has_more_pages);
    assert_eq!(a.toasts.last().unwrap().message, "Stats loaded successfully");

    let mut b = app();
    b.fetch_stats();
    b.finish_fetch(None, None);
    assert_eq!(b.loading_state, LoadingState::Error("No data found. Check the player name.".to_string()));

    let mut c = app();
    c.fetch_stats();
    c.search_failed("search: not found (404)".to_string());
    assert_eq!(c.loading_state, LoadingState::Error("search: not found (404)".to_string()));
}

#[test]
fn export_plans() {
    let mut a = loaded_app();
    let p = a.begin_export(1700000000).ok().unwrap();
    assert_eq!((p.filename.as_str(), p.kind), ("faceit_ropz_lifetime_1700000000.json", ExportKind::Lifetime));
    a.selected_tab = 1;
    a.current_page = 3;
    let p = a.begin_export(5).ok().unwrap();
    assert_eq!((p.filename.as_str(), p.kind), ("faceit_ropz_matches_p3_5.json", ExportKind::Matches));
    a.selected_tab = 2;
    let p = a.begin_export(5).ok().unwrap();
    assert_eq!(p.filename, "faceit_ropz_maps_5.json");
    let b = app();
    assert_eq!(b.begin_export(1).err(), Some("No lifetime data".to_string()));
    a.finish_export(Ok("/tmp/x.json".to_string()));
    assert_eq!(a.toasts.last().unwrap().message, "Exported /tmp/x.json");
    a.finish_export(Err("No map data".to_string()));
    assert_eq!(a.toasts.last().unwrap().message, "Export failed: No map data");
}

#[test]
fn export_without_data() {
    let mut a = app();
    a.selected_tab = 1;
    assert_eq!(a.begin_export(1).err(), Some("No match data".to_string()));
    a.selected_tab = 2;
    assert_eq!(a.begin_export(1).err(), Some("No map data".to_string()));
    assert!(matches!(a.handle_key_event(Key::Char('e')), Command::Export));
}

#[test]
fn tick_moves_the_spinner_and_drops_old_toasts() {
    let mut a = app();
    a.spinner_frame = 9;
    a.add_toast(Toast::info("old".to_string()));
    a.add_toast(Toast::error("new".to_string()));
    a.add_toast(Toast::info("fresh".to_string()));
    a.tick_with(&vec![3, 3, 0]);
    assert_eq!(a.spinner_frame, 0);
    assert_eq!(a.toasts.len(), 2);
    assert_eq!(a.toasts[0].message, "new");
    assert_eq!(a.toasts[1].message, "fresh");
    a.tick();
    assert_eq!(a.spinner_frame, 1);
    assert_eq!(a.toasts.len(), 2);
    assert!(!a.spinner().is_empty());
}

#[test]
fn toast_expiry() {
    let t = Toast::info("x".to_string());
    assert_eq!(t.duration_secs, 3);
    assert!(!t.expired_after(2));
    assert!(t.expired_after(3));
    assert!(!t.expired());
    let e = Toast::error("y".to_string());
    assert_eq!(e.duration_secs, 4);
    assert!(e.is_error);
}

#[test]
fn mouse_clicks() {
    let mut a = loaded_app();
    a.input_rect = Some(Rect { x: 0, y: 1, width: 80, height: 3 });
    a.player_card_rect = Some(Rect { x: 0, y: 4, width: 80, height: 4 });
    a.last_content_rect = Some(Rect { x: 0, y: 8, width: 90, height: 20 });
    click(&mut a, 10, 2);
    assert_eq!(a.input_mode, InputMode::Editing);
    click(&mut a, 10, 5);
    assert_eq!(a.input_mode, InputMode::Normal);
    click(&mut a, 45, 8);
    assert_eq!(a.selected_tab, 1);
    click(&mut a, 70, 8);
    assert_eq!(a.selected_tab, 2);
    click(&mut a, 5, 8);
    assert_eq!(a.selected_tab, 0);
    click(&mut a, 5, 13);
    assert_eq!(a.selected_row, 2);
    click(&mut a, 5, 27);
    assert_eq!(a.selected_row, 2);
}

#[test]
fn clicking_toasts_dismisses_them() {
    let mut a = loaded_app();
    a.last_content_rect = Some(Rect { x: 0, y: 8, width: 90, height: 20 });
    a.add_toast(Toast::info("hello".to_string()));
    click(&mut a, 60, 10);
    assert!(a.toasts.is_empty());
}

#[test]
fn clicks_close_popups() {
    let mut a = loaded_app();
    a.show_match_popup = true;
    a.handle_mouse_event(MouseInput { kind: MouseKind::Down(MouseButton::Right), column: 0, row: 0 });
    assert!(!a.show_match_popup);
    a.show_help = true;
    a.handle_mouse_event(MouseInput { kind: MouseKind::ScrollDown, column: 0, row: 0 });
    assert!(a.show_help);
    click(&mut a, 0, 0);
    assert!(!a.show_help);
}

#[test]
fn scroll_positions() {
    let mut s = Scroll::new();
    assert_eq!((s.x, s.y, s.size, s.page), (0, 0, None, None));
    s.up();
    assert_eq!(s.y, 0);
    s.down();
    s.down();
    assert_eq!(s.row(), 2);
    s.page_down();
    assert_eq!(s.y, 2);
    s.page_up();
    assert_eq!(s.y, 2);
    s.drawn(3, 4, Extent { width: 80, height: 50 }, Extent { width: 80, height: 10 });
    assert_eq!((s.x, s.y), (3, 4));
    s.page_down();
    assert_eq!(s.y, 13);
    s.page_up();
    assert_eq!(s.y, 4);
    s.page_up();
    assert_eq!(s.y, 0);
    s.to_bottom();
    assert_eq!(s.y, 49);
    s.set_row(7);
    assert_eq!((s.x, s.y), (0, 7));
    s.to_top();
    assert_eq!((s.x, s.y), (0, 0));
    let mut t = Scroll::new();
    t.to_bottom();
    assert_eq!(t.y, u16::MAX);
    t.down();
    assert_eq!(t.y, u16::MAX);
}

#[test]
fn table_scrolling_follows_the_selection() {
    let mut a = loaded_app();
    a.selected_tab = 1;
    press(&mut a, &[Key::Down, Key::Down]);
    assert_eq!(a.matches_sv.y, 2);
    assert_eq!(a.lifetime_sv.y, 0);
    a.handle_mouse_event(MouseInput { kind: MouseKind::ScrollDown, column: 0, row: 0 });
    assert_eq!(a.matches_sv.y, 3);
    a.handle_mouse_event(MouseInput { kind: MouseKind::ScrollUp, column: 0, row: 0 });
    a.handle_mouse_event(MouseInput { kind: MouseKind::ScrollUp, column: 0, row: 0 });
    assert_eq!(a.matches_sv.y, 1);
}

#[test]
fn popups_and_answer_scroll_with_keys() {
    let mut a = loaded_app();
    a.selected_tab = 1;
    press(&mut a, &[Key::Enter]);
    assert!(a.show_match_popup);
    press(&mut a, &[Key::Down, Key::Down, Key::Down, Key::Up]);
    assert_eq!(a.match_popup_sv.y, 2);
    press(&mut a, &[Key::Esc]);
    assert!(!a.show_match_popup);
    a.selected_tab = 2;
    a.selected_row = 0;
    press(&mut a, &[Key::Enter]);
    assert!(a.show_map_popup);
    press(&mut a, &[Key::PageDown]);
    assert_eq!(a.map_popup_sv.y, 0);
    press(&mut a, &[Key::Down, Key::PageUp]);
    assert_eq!(a.map_popup_sv.y, 1);
    press(&mut a, &[Key::Enter]);
    a.ai_response = Some("answer".to_string());
    press(&mut a, &[Key::Down, Key::Down]);
    assert_eq!(a.ai_sv.y, 2);
    press(&mut a, &[Key::Char('a')]);
    assert!(a.ai_response.is_none());
    assert_eq!(a.ai_sv.y, 0);
}

#[test]
fn tab_returns_the_table_to_its_top() {
    let mut a = loaded_app();
    a.maps_sv.set_row(5);
    press(&mut a, &[Key::Tab, Key::Tab]);
    assert_eq!(a.selected_tab, 2);
    assert_eq!(a.maps_sv.y, 0);
    press(&mut a, &[Key::Tab, Key::PageDown]);
    assert_eq!(a.selected_row, 4);
    assert_eq!(a.lifetime_sv.y, 4);
}

#[test]
fn theme_list_scrolls_with_its_cursor_and_the_wheel() {
    let mut a = app();
    press(&mut a, &[Key::Char('t')]);
    assert!(a.show_theme_selector);
    assert_eq!(a.theme_selector_row, 1);
    assert_eq!(a.theme_sv.y, 0);
    press(&mut a, &[Key::Down]);
    assert_eq!(a.theme_sv.y, 2);
    a.handle_mouse_event(MouseInput { kind: MouseKind::ScrollUp, column: 0, row: 0 });
    assert_eq!(a.theme_sv.y, 1);
    assert_eq!(a.theme_selector_row, 2);
    click(&mut a, 0, 0);
    assert!(a.show_theme_selector);
    assert_eq!(a.theme_selector_row, 2);
}

#[test]
fn wheel_leaves_tables_alone_before_data_loads() {
    let mut a = app();
    a.handle_mouse_event(MouseInput { kind: MouseKind::ScrollDown, column: 0, row: 0 });
    assert_eq!((a.lifetime_sv.y, a.matches_sv.y, a.maps_sv.y), (0, 0, 0));
}

#[test]
fn click_selects_a_row_of_the_scrolled_table() {
    let mut a = loaded_app();
    a.selected_tab = 1;
    a.last_content_rect = Some(Rect { x: 0, y: 8, width: 90, height: 20 });
    a.matches_sv.set_row(4);
    click(&mut a, 5, 13);
    assert_eq!(a.selected_row, 6);
}

#[test]
fn only_clicks_on_the_main_screen_need_the_areas_in_range() {
    let mut a = loaded_app();
    a.last_content_rect = Some(Rect { x: 0, y: 65530, width: 60000, height: 100 });
    assert!(!a.mouse_in_range());
    let wheel = MouseInput { kind: MouseKind::ScrollDown, column: 0, row: 0 };
    assert!(!a.click_reaches_main(wheel));
    a.handle_mouse_event(wheel);
    assert_eq!(a.lifetime_sv.y, 1);
    let click = MouseInput { kind: MouseKind::Down(MouseButton::Left), column: 0, row: 0 };
    assert!(a.click_reaches_main(click));
    a.show_help = true;
    assert!(!a.click_reaches_main(click));
}

use faceitui::api::{
    Cs2Info, LifetimeSegment, MatchItem, PlayerGames, PlayerLifetimeStats, PlayerProfile, StatValue,
};
use faceitui::app::{App, InputMode, LoadingState, Rect, Toast};
use faceitui::view::{
    ai_key_display, answer_box_height, card_form, card_header, card_stats, i32_text, detail_rows, detail_value, footer_hints,
    input_cursor, input_display, input_hint, lifetime_rows, map_popup, map_row,
    map_segment_positions, match_row, matches_title, parse_u32, tab_titles, theme_rows,
    toast_area, toast_lines, welcome_input, welcome_top, StatCell,
};

fn item(fields: &[(&str, &str)]) -> MatchItem {
    fields.iter().map(|(k, v)| (k.to_string(), v.to_string())).collect()
}

fn app() -> App {
    App::new(vec!["nord".to_string(), "dracula".to_string()], "dracula", None)
}

fn segment(kind: &str, label: Option<&str>, stats: Option<Vec<(String, StatValue)>>) -> LifetimeSegment {
    LifetimeSegment {
        type_field: Some(kind.to_string()),
        mode: None,
        label: label.map(|l| l.to_string()),
        img_regular: None,
        stats,
    }
}

#[test]
fn match_row_shows_kills_and_deaths() {
    let m = item(&[
        ("Map", "de_mirage"),
        ("Score", "13 / 9"),
        ("Result", "1"),
        ("Kills", "25"),
        ("Deaths", "14"),
        ("K/D Ratio", "1.79"),
        ("ADR", "97.3"),
        ("Headshots %", "52"),
        ("Headshots", "13"),
    ]);
    let r = match_row(&m);
    assert_eq!(r.map, "de_mirage");
    assert_eq!(r.score, "13 / 9");
    assert_eq!(r.result, "W");
    assert_eq!(r.kd, "25/14");
    assert_eq!(r.adr, "97.3");
    assert_eq!(r.headshots, "52");
}

#[test]
fn match_row_falls_back() {
    let m = item(&[("Result", "0"), ("Kills", "25"), ("K/D Ratio", "0.8"), ("Headshots", "13")]);
    let r = match_row(&m);
    assert_eq!(r.map, "");
    assert_eq!(r.result, "L");
    assert_eq!(r.kd, "0.8");
    assert_eq!(r.headshots, "13");
    let r = match_row(&item(&[("Result", "2")]));
    assert_eq!(r.result, "?");
}

#[test]
fn parse_u32_follows_str_parse() {
    assert_eq!(parse_u32("42"), Some(42));
    assert_eq!(parse_u32("+7"), Some(7));
    assert_eq!(parse_u32("007"), Some(7));
    assert_eq!(parse_u32("4294967295"), Some(u32::MAX));
    assert_eq!(parse_u32("4294967296"), None);
    assert_eq!(parse_u32(""), None);
    assert_eq!(parse_u32("+"), None);
    assert_eq!(parse_u32("-1"), None);
    assert_eq!(parse_u32("1.234"), None);
    assert_eq!(parse_u32(" 1"), None);
    for s in ["0", "12", "+99", "1e3", "99999999999", "12a"] {
        assert_eq!(parse_u32(s), s.parse::<u32>().ok());
    }
}

#[test]
fn map_row_counts_losses() {
    let r = map_row(
        &Some("Mirage".to_string()),
        Some("20".to_string()),
        Some("12".to_string()),
        Some("60".to_string()),
        None,
    );
    assert_eq!(r.label, "Mirage");
    assert_eq!(r.matches, "20");
    assert_eq!(r.wins, "12");
    assert_eq!(r.win_rate, "60");
    assert_eq!(r.losses, "8");
    let r = map_row(&None, Some("3".to_string()), Some("5".to_string()), None, None);
    assert_eq!(r.label, "?");
    assert_eq!(r.losses, "0");
    assert_eq!(r.win_rate, "");
    let r = map_row(&None, Some("1.234".to_string()), Some("5".to_string()), None, None);
    assert_eq!(r.losses, "0");
    let r = map_row(&None, None, None, None, Some("4".to_string()));
    assert_eq!(r.losses, "4");
}

#[test]
fn map_positions_keep_maps_only() {
    let segs = vec![
        segment("Map", Some("Mirage"), Some(vec![])),
        segment("Mode", None, None),
        segment("Map", None, None),
    ];
    assert_eq!(map_segment_positions(&segs), vec![0, 2]);
    assert_eq!(map_popup(&segs, 0), Some((0, " Mirage Details ".to_string())));
    assert_eq!(map_popup(&segs, 1), None);
    assert_eq!(map_popup(&segs, 2), None);
}

#[test]
fn detail_value_formats_dates() {
    assert_eq!(detail_value("Created At", "2024-07-15T14:30:00Z"), Some("15.07.2024 14:30".to_string()));
    assert_eq!(detail_value("Map", "2024-07-15T14:30:00Z"), Some("2024-07-15T14:30:00Z".to_string()));
    assert_eq!(detail_value("Updated", "soon"), Some("soon".to_string()));
    assert_eq!(detail_value("Date", "2024-07-1\u{e9}T14:30:00"), None);
}

#[test]
fn detail_rows_order_known_fields_first() {
    let m = item(&[
        ("zz", "last"),
        ("Kills", "20"),
        ("Map", "de_nuke"),
        ("Finished At", "2024-01-02 03:04:05"),
    ]);
    let rows = detail_rows(&m).unwrap();
    let names: Vec<&str> = rows.iter().map(|r| r.0.as_str()).collect();
    assert_eq!(names[0], "Map");
    assert_eq!(names[1], "Kills");
    assert_eq!(rows.len(), 4);
    let finished = rows.iter().find(|r| r.0 == "Finished At").unwrap();
    assert_eq!(finished.1, "02.01.2024 03:04");
    let bad = item(&[("Date", "2024-07-1\u{e9}T14:30:00")]);
    assert_eq!(detail_rows(&bad), None);
}

#[test]
fn detail_rows_show_each_field_once_by_rank() {
    let m = item(&[
        ("b", "1"),
        ("Score", "2"),
        ("a", "3"),
        ("Map", "4"),
        ("Kills", "5"),
        ("ab", "6"),
        ("ba", "7"),
    ]);
    let rows = detail_rows(&m).unwrap();
    let names: Vec<&str> = rows.iter().map(|r| r.0.as_str()).collect();
    // Known fields first in their usual order; "ab" and "ba" have the same
    // byte sum and keep their first order.
    assert_eq!(names, vec!["Map", "Score", "Kills", "a", "b", "ab", "ba"]);
}

#[test]
fn lifetime_rows_show_each_statistic_once() {
    let entries: Vec<(String, StatValue)> = ["K/D", "ADR", "Wins", "ADR", "Kills"]
        .iter()
        .enumerate()
        .map(|(i, k)| (k.to_string(), StatValue::Text(i.to_string())))
        .collect();
    let shown: Vec<String> = (0..5).map(|i| i.to_string()).collect();
    let rows = lifetime_rows(&entries, &shown).unwrap();
    let listed: Vec<(String, String)> = rows
        .into_iter()
        .map(|r| match r.cell {
            StatCell::Text(t) => (r.name, t),
            StatCell::Form(_) => panic!("text expected"),
        })
        .collect();
    assert_eq!(
        listed,
        vec![
            ("ADR".to_string(), "1".to_string()),
            ("ADR".to_string(), "3".to_string()),
            ("K/D".to_string(), "0".to_string()),
            ("Kills".to_string(), "4".to_string()),
            ("Wins".to_string(), "2".to_string()),
        ]
    );
}

#[test]
fn lifetime_rows_sorted_by_name() {
    let entries = vec![
        ("Wins".to_string(), StatValue::Number("10".to_string())),
        ("Recent Results".to_string(), StatValue::List(vec![Some("1".to_string()), Some("0".to_string()), None], "[]".to_string())),
        ("Average K/D Ratio".to_string(), StatValue::Text("1.1".to_string())),
    ];
    let shown = vec!["10".to_string(), "[..]".to_string(), "1,10".to_string()];
    let rows = lifetime_rows(&entries, &shown).unwrap();
    assert_eq!(rows.len(), 3);
    assert_eq!(rows[0].name, "Average K/D Ratio");
    assert_eq!(rows[1].name, "Recent Results");
    assert_eq!(rows[2].name, "Wins");
    match &rows[0].cell {
        StatCell::Text(t) => assert_eq!(t, "1,10"),
        StatCell::Form(_) => panic!("text expected"),
    }
    match &rows[1].cell {
        StatCell::Form(w) => assert_eq!(w, &vec![true, false, false]),
        StatCell::Text(_) => panic!("form expected"),
    }
}

#[test]
fn card_form_takes_fifteen() {
    let results: Vec<Option<String>> = (0..20).map(|i| Some(if i % 2 == 0 { "1" } else { "0" }.to_string())).collect();
    let entries = vec![("Recent Results".to_string(), StatValue::List(results, "[]".to_string()))];
    let form = card_form(&entries).unwrap();
    assert_eq!(form.len(), 15);
    assert!(form[0] && !form[1]);
    assert_eq!(card_form(&vec![]), None);
}

#[test]
fn card_stats_skip_empty() {
    let c = card_stats("120", "", "1,21", "48");
    assert_eq!(c.matches, Some("M:120".to_string()));
    assert_eq!(c.win_rate, None);
    assert_eq!(c.kd, Some("K/D:1,21".to_string()));
    assert_eq!(c.headshots, Some("HS:48".to_string()));
    let c = card_stats("", "55", "", "");
    assert_eq!(c.matches, None);
    assert_eq!(c.win_rate, Some("WR:55".to_string()));
}

#[test]
fn tab_titles_count_everything() {
    let stats = PlayerLifetimeStats {
        player_id: "p".to_string(),
        game_id: "cs2".to_string(),
        lifetime: Some(vec![("a".to_string(), StatValue::Null)]),
        segments: Some(vec![segment("Map", None, None), segment("Mode", None, None)]),
    };
    let history: Option<Vec<MatchItem>> = Some(vec![vec![], vec![], vec![]]);
    assert_eq!(tab_titles(&Some(stats), &history), vec![" Lifetime (1) ", " Matches (3) ", " Maps (2) "]);
    assert_eq!(tab_titles(&None, &None), vec![" Lifetime (0) ", " Matches (0) ", " Maps (0) "]);
}

#[test]
fn titles_and_hints() {
    let mut a = app();
    assert_eq!(matches_title(&a), " Matches ");
    let hints = footer_hints(&a);
    assert_eq!(hints.len(), 4);
    assert_eq!(hints[0], ("i", " edit "));
    a.loading_state = LoadingState::Success;
    a.match_history = Some(vec![]);
    a.current_page = 2;
    assert_eq!(matches_title(&a), " Matches (p.3) ");
    assert_eq!(footer_hints(&a).len(), 9);
    a.selected_tab = 1;
    let hints = footer_hints(&a);
    assert_eq!(hints.len(), 11);
    assert_eq!(hints[10], ("Ent", " detail"));
    a.input_mode = InputMode::Editing;
    assert_eq!(footer_hints(&a), vec![("Enter", " submit "), ("Esc", " cancel")]);
}

#[test]
fn search_field_texts() {
    let mut a = app();
    assert_eq!(input_display(&a), "");
    assert_eq!(input_hint(&a), None);
    a.input_mode = InputMode::Editing;
    assert_eq!(input_display(&a), "nickname or player ID...");
    a.search_history = vec!["s1mple".to_string(), "ropz".to_string()];
    assert_eq!(input_hint(&a), Some(" [2 hist]".to_string()));
    a.history_index = Some(0);
    assert_eq!(input_hint(&a), Some(" [1 / 2]".to_string()));
    a.input = "zywoo".to_string();
    assert_eq!(input_display(&a), "zywoo");
    let area = Rect { x: 3, y: 4, width: 40, height: 3 };
    assert_eq!(input_cursor(area, "zywoo"), (9, 5));
    assert_eq!(input_cursor(area, "é"), (5, 5));
}

#[test]
fn ai_key_field() {
    let mut a = app();
    assert_eq!(ai_key_display(&a), "sk-...");
    a.ai_key_input = "sk-1".to_string();
    assert_eq!(ai_key_display(&a), "sk-1");
}

#[test]
fn welcome_layout() {
    assert_eq!(welcome_top(30, 6), 10);
    assert_eq!(welcome_top(10, 6), 0);
    assert_eq!(welcome_top(11, 6), 0);
    let r = welcome_input(Rect { x: 0, y: 5, width: 120, height: 3 });
    assert_eq!(r, Rect { x: 35, y: 5, width: 50, height: 3 });
    let r = welcome_input(Rect { x: 2, y: 5, width: 30, height: 3 });
    assert_eq!(r, Rect { x: 2, y: 5, width: 30, height: 3 });
}

#[test]
fn toasts_in_corner() {
    let area = Rect { x: 0, y: 0, width: 100, height: 40 };
    assert_eq!(toast_area(area, 1), Rect { x: 61, y: 36, width: 38, height: 3 });
    assert_eq!(toast_area(area, 5), Rect { x: 61, y: 35, width: 38, height: 4 });
    let small = Rect { x: 0, y: 0, width: 20, height: 2 };
    assert_eq!(toast_area(small, 0), Rect { x: 1, y: 0, width: 18, height: 2 });
    let toasts = vec![
        Toast::info("one".to_string()),
        Toast::error("two".to_string()),
        Toast::info("three".to_string()),
    ];
    assert_eq!(toast_lines(&toasts), vec![(false, "three".to_string()), (true, "two".to_string())]);
    assert_eq!(toast_lines(&toasts[..1].to_vec()), vec![(false, "one".to_string())]);
}

#[test]
fn theme_rows_mark_current() {
    let names = vec!["nord".to_string(), "dracula".to_string()];
    assert_eq!(theme_rows(&names, 1), vec!["  nord", "\u{2726} dracula"]);
}

#[test]
fn answer_box_grows_with_text() {
    assert_eq!(answer_box_height(100, 50, "short"), Some((20, 3)));
    assert_eq!(answer_box_height(100, 13, "short"), None);
    assert_eq!(answer_box_height(1093, 50, "short"), None);
    let long: String = std::iter::repeat("a".repeat(54)).take(30).collect::<Vec<_>>().join("\n");
    // 30 lines of 54 bytes at 54 per line take 2 rows each: the box would need 66 of 50 rows.
    assert_eq!(answer_box_height(100, 50, &long), Some((70, 62)));
    let medium: String = std::iter::repeat("x").take(10).collect::<Vec<_>>().join("\n");
    // 10 rows + 2 + 4 = 16 of 50 rows: 32%.
    assert_eq!(answer_box_height(100, 50, &medium), Some((32, 12)));
    // 700 lines need a box of 706 rows, whose percentage overflows a u16.
    let tall: String = std::iter::repeat("x").take(700).collect::<Vec<_>>().join("\n");
    assert_eq!(answer_box_height(100, 1000, &tall), None);
}

#[test]
fn card_header_shows_rank_elo_and_country() {
    let p = PlayerProfile {
        player_id: "id".to_string(),
        nickname: "ropz".to_string(),
        avatar: None,
        country: Some("ee".to_string()),
        games: Some(PlayerGames {
            cs2: Some(Cs2Info {
                skill_level: Some(10),
                faceit_elo: Some(3412),
                game_player_name: None,
                region: None,
            }),
        }),
    };
    let h = card_header(&p);
    assert_eq!(h.nickname, "ropz");
    assert_eq!(h.rank.as_deref(), Some("10"));
    assert_eq!(h.elo.as_deref(), Some("3412"));
    assert_eq!(h.country.as_deref(), Some("EE"));
    let bare = PlayerProfile { country: None, games: None, ..p };
    let h = card_header(&bare);
    assert_eq!((h.rank, h.elo, h.country), (None, None, None));
}

#[test]
fn i32_text_writes_signed_numbers() {
    assert_eq!(i32_text(0), "0");
    assert_eq!(i32_text(-45), "-45");
    assert_eq!(i32_text(i32::MIN), "-2147483648");
    assert_eq!(i32_text(2147483647), "2147483647");
}

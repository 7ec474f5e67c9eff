use faceitui::api::{
    bearer_header, count_map_segments, history_items, lifetime_stats_url, lookup, match_field, match_history_url,
    match_item_from, match_value_to_text, response_error, search_player_url, segment_is_map,
    value_to_text, Cs2Info, LifetimeSegment, MatchValue, PlayerGames, PlayerProfile, StatValue,
};

fn profile(games: Option<PlayerGames>) -> PlayerProfile {
    PlayerProfile {
        player_id: "id-1".to_string(),
        nickname: "s1mple".to_string(),
        avatar: None,
        country: Some("ua".to_string()),
        games,
    }
}

fn segment(kind: Option<&str>) -> LifetimeSegment {
    LifetimeSegment {
        type_field: kind.map(|k| k.to_string()),
        mode: None,
        label: None,
        img_regular: None,
        stats: None,
    }
}

#[test]
fn cs2_record() {
    let info = Cs2Info {
        skill_level: Some(10),
        faceit_elo: Some(3200),
        game_player_name: None,
        region: Some("EU".to_string()),
    };
    let p = profile(Some(PlayerGames { cs2: Some(info) }));
    let c = p.cs2().expect("cs2 record");
    assert_eq!(c.skill_level, Some(10));
    assert_eq!(c.faceit_elo, Some(3200));
    assert!(profile(Some(PlayerGames { cs2: None })).cs2().is_none());
    assert!(profile(None).cs2().is_none());
}

#[test]
fn search_url_encodes_the_nickname() {
    assert_eq!(
        search_player_url("s1mple"),
        "https://open.faceit.com/data/v4/players?nickname=s1mple"
    );
    assert_eq!(
        search_player_url("a b&c/ä~_.-"),
        "https://open.faceit.com/data/v4/players?nickname=a%20b%26c%2F%C3%A4~_.-"
    );
}

#[test]
fn stats_urls() {
    assert_eq!(
        lifetime_stats_url("abc"),
        "https://open.faceit.com/data/v4/players/abc/stats/cs2"
    );
    assert_eq!(
        match_history_url("abc", 60, 30),
        "https://open.faceit.com/data/v4/players/abc/games/cs2/stats?offset=60&limit=30"
    );
}

#[test]
fn response_statuses() {
    assert_eq!(response_error(200, "search"), None);
    assert_eq!(response_error(299, "search"), None);
    assert_eq!(response_error(404, "search"), Some("search: not found (404)".to_string()));
    assert_eq!(response_error(302, "search"), Some("search failed (HTTP 302)".to_string()));
    assert_eq!(response_error(199, "x"), Some("x failed (HTTP 199)".to_string()));
}

#[test]
fn bearer() {
    assert_eq!(bearer_header("k3y"), Some("Bearer k3y".to_string()));
    assert_eq!(bearer_header(""), None);
}

#[test]
fn match_values() {
    assert_eq!(match_value_to_text(&MatchValue::Text("de_dust2".to_string())), "de_dust2");
    assert_eq!(match_value_to_text(&MatchValue::Int(12345)), "12.345");
    assert_eq!(match_value_to_text(&MatchValue::UInt(1000)), "1.000");
    assert_eq!(match_value_to_text(&MatchValue::UInt(u64::MAX)), "-1");
    assert_eq!(match_value_to_text(&MatchValue::Bool(true)), "true");
    assert_eq!(match_value_to_text(&MatchValue::Bool(false)), "false");
    assert_eq!(match_value_to_text(&MatchValue::Null), "");
    assert_eq!(match_value_to_text(&MatchValue::Written("1,50".to_string())), "1,50");
}

#[test]
fn match_items() {
    let item = match_item_from(&vec![
        ("Map".to_string(), MatchValue::Text("de_inferno".to_string())),
        ("Kills".to_string(), MatchValue::Int(23)),
    ]);
    assert_eq!(item.len(), 2);
    assert_eq!(match_field(&item, "Map"), "de_inferno");
    assert_eq!(match_field(&item, "Kills"), "23");
    assert_eq!(match_field(&item, "Deaths"), "");
}

#[test]
fn stat_values() {
    assert_eq!(value_to_text(&StatValue::Null), "");
    assert_eq!(value_to_text(&StatValue::Bool(true)), "true");
    assert_eq!(value_to_text(&StatValue::Number("1.5".to_string())), "1.5");
    assert_eq!(value_to_text(&StatValue::Text("55".to_string())), "55");
    assert_eq!(
        value_to_text(&StatValue::List(vec![Some("1".to_string())], "[\"1\"]".to_string())),
        "[\"1\"]"
    );
    assert_eq!(value_to_text(&StatValue::Object("{}".to_string())), "{}");
}

#[test]
fn stat_lookup() {
    let entries = vec![
        ("Matches".to_string(), StatValue::Text("10".to_string())),
        ("Wins".to_string(), StatValue::Text("6".to_string())),
    ];
    match lookup(&entries, "Wins") {
        Some(StatValue::Text(t)) => assert_eq!(t, "6"),
        _ => panic!("Wins not found"),
    }
    assert!(lookup(&entries, "Losses").is_none());
}

#[test]
fn map_segments() {
    let segs = vec![segment(Some("Map")), segment(Some("Mode")), segment(None), segment(Some("Map"))];
    assert!(segment_is_map(&segs[0]));
    assert!(!segment_is_map(&segs[1]));
    assert_eq!(count_map_segments(&segs), 2);
    assert_eq!(count_map_segments(&vec![]), 0);
}

#[test]
fn history_items_keep_items_with_stats() {
    let raw = vec![
        Some(vec![("Map".to_string(), MatchValue::Written("de_mirage".to_string()))]),
        None,
        Some(vec![
            ("Kills".to_string(), MatchValue::Written("21".to_string())),
            ("Result".to_string(), MatchValue::Null),
        ]),
    ];
    let items = history_items(&raw);
    assert_eq!(items.len(), 2);
    assert_eq!(items[0], vec![("Map".to_string(), "de_mirage".to_string())]);
    assert_eq!(items[1], vec![("Kills".to_string(), "21".to_string()), ("Result".to_string(), String::new())]);
}

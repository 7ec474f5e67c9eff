use faceitui::api::{LifetimeSegment, PlayerLifetimeStats, StatValue};
use faceitui::summary::{lifetime_summary, maps_summary, matches_summary};

fn stats(lifetime: Option<Vec<(String, StatValue)>>, segments: Option<Vec<LifetimeSegment>>) -> PlayerLifetimeStats {
    PlayerLifetimeStats {
        player_id: "p".to_string(),
        game_id: "cs2".to_string(),
        lifetime,
        segments,
    }
}

fn text(s: &str) -> StatValue {
    StatValue::Text(s.to_string())
}

#[test]
fn lifetime_summary_is_sorted_by_name() {
    let lt = vec![
        ("Wins".to_string(), text("60")),
        ("Average K/D Ratio".to_string(), text("1.2")),
        ("Matches".to_string(), StatValue::Number("100".to_string())),
    ];
    let s = lifetime_summary(&Some(stats(Some(lt), None)));
    assert_eq!(s, "Average K/D Ratio: 1.2\nMatches: 100\nWins: 60");
}

#[test]
fn recent_results_become_a_form_guide() {
    let results = StatValue::List(
        vec![Some("1".to_string()), Some("0".to_string()), None, Some("1".to_string())],
        "[\"1\",\"0\",null,\"1\"]".to_string(),
    );
    let lt = vec![("Recent Results".to_string(), results)];
    assert_eq!(lifetime_summary(&Some(stats(Some(lt), None))), "Recent Results: W L L W");
}

#[test]
fn lifetime_summary_keeps_twenty_lines() {
    let lt: Vec<(String, StatValue)> =
        (0..25).map(|i| (format!("k{:02}", i), text("v"))).collect();
    let s = lifetime_summary(&Some(stats(Some(lt), None)));
    let lines: Vec<&str> = s.lines().collect();
    assert_eq!(lines.len(), 20);
    assert_eq!(lines[0], "k00: v");
    assert_eq!(lines[19], "k19: v");
}

#[test]
fn empty_summaries() {
    assert_eq!(lifetime_summary(&None), "");
    assert_eq!(lifetime_summary(&Some(stats(None, None))), "");
    assert_eq!(maps_summary(&None), "");
    assert_eq!(matches_summary(&None), "");
}

#[test]
fn maps_summary_lines() {
    let map = LifetimeSegment {
        type_field: Some("Map".to_string()),
        mode: Some("5v5".to_string()),
        label: Some("Mirage".to_string()),
        img_regular: None,
        stats: Some(vec![
            ("Matches".to_string(), text("40")),
            ("Wins".to_string(), text("22")),
            ("Win Rate %".to_string(), StatValue::Number("55".to_string())),
        ]),
    };
    let unlabeled = LifetimeSegment {
        type_field: Some("Map".to_string()),
        mode: None,
        label: None,
        img_regular: None,
        stats: Some(vec![]),
    };
    let mode = LifetimeSegment {
        type_field: Some("Mode".to_string()),
        mode: None,
        label: Some("5v5".to_string()),
        img_regular: None,
        stats: Some(vec![]),
    };
    let s = maps_summary(&Some(stats(None, Some(vec![map, unlabeled, mode]))));
    assert_eq!(s, "Mirage: M:40 W:22 WR:-");
}

#[test]
fn matches_summary_lines() {
    let m1 = vec![
        ("Map".to_string(), "de_nuke".to_string()),
        ("Score".to_string(), "13 / 9".to_string()),
        ("Result".to_string(), "1".to_string()),
        ("K/D Ratio".to_string(), "1.4".to_string()),
    ];
    let m2 = vec![("Result".to_string(), "0".to_string())];
    let m3 = vec![("Result".to_string(), "x".to_string())];
    let s = matches_summary(&Some(vec![m1, m2, m3]));
    assert_eq!(s, "de_nuke | 13 / 9 | W | KD:1.4\n |  | L | KD:\n |  | ? | KD:");
}

#[test]
fn matches_summary_keeps_twenty() {
    let h: Vec<Vec<(String, String)>> = (0..30).map(|_| vec![]).collect();
    assert_eq!(matches_summary(&Some(h)).lines().count(), 20);
}

use faceitui::format::{
    api_error, clean_error_msg, fmt_thousands, fmt_timestamp, is_timestamp_key, match_key_order,
};

#[test]
fn thousands_small_numbers_have_no_separator() {
    assert_eq!(fmt_thousands(0), "0");
    assert_eq!(fmt_thousands(7), "7");
    assert_eq!(fmt_thousands(999), "999");
}

#[test]
fn thousands_groups_of_three() {
    assert_eq!(fmt_thousands(1000), "1.000");
    assert_eq!(fmt_thousands(1234567), "1.234.567");
    assert_eq!(fmt_thousands(100000), "100.000");
}

#[test]
fn thousands_negative_numbers() {
    assert_eq!(fmt_thousands(-5), "-5");
    assert_eq!(fmt_thousands(-123), "-123");
    assert_eq!(fmt_thousands(-1234), "-1.234");
    assert_eq!(fmt_thousands(-1234567), "-1.234.567");
}

#[test]
fn thousands_extremes() {
    assert_eq!(fmt_thousands(i64::MAX), "9.223.372.036.854.775.807");
    assert_eq!(fmt_thousands(i64::MIN), "-9.223.372.036.854.775.808");
}

#[test]
fn thousands_without_dots_is_plain_decimal() {
    for n in [0i64, 12, 1000, 98765, -4321, 1_000_000_007, i64::MIN] {
        assert_eq!(fmt_thousands(n).replace('.', ""), n.to_string());
    }
}

#[test]
fn api_error_known_statuses() {
    assert_eq!(
        api_error(401, "search"),
        "Invalid API key (401) \u{2014} check your config.toml"
    );
    assert_eq!(
        api_error(403, "search"),
        "Access denied (403) \u{2014} check API key permissions"
    );
    assert_eq!(api_error(404, "lifetime stats"), "lifetime stats: not found (404)");
    assert_eq!(
        api_error(429, "search"),
        "Rate limited (429) \u{2014} try again in a moment"
    );
}

#[test]
fn api_error_other_statuses() {
    assert_eq!(api_error(500, "match history"), "match history failed (HTTP 500)");
    assert_eq!(api_error(0, "search"), "search failed (HTTP 0)");
    assert_eq!(api_error(65535, "x"), "x failed (HTTP 65535)");
}

#[test]
fn clean_error_messages() {
    assert_eq!(clean_error_msg("HTTP 401 Unauthorized"), "Invalid API key. Check your config.toml");
    assert_eq!(clean_error_msg("FORBIDDEN"), "Access denied. Check API key permissions");
    assert_eq!(clean_error_msg("search: not found (404)"), "Player not found");
    assert_eq!(clean_error_msg("Rate Limit hit"), "Too many requests. Wait a moment");
    assert_eq!(clean_error_msg("operation timed out"), "Request timed out. Check your connection");
    assert_eq!(clean_error_msg("DNS error"), "Network error. Check your internet");
    assert_eq!(clean_error_msg("Network error: check your connection"), "Network error. Check your internet");
    assert_eq!(clean_error_msg("weird"), "Something went wrong");
}

#[test]
fn clean_error_first_rule_wins() {
    assert_eq!(clean_error_msg("401 and 404"), "Invalid API key. Check your config.toml");
}

#[test]
fn timestamp_keys() {
    assert!(is_timestamp_key("Created At"));
    assert!(is_timestamp_key("match_finished"));
    assert!(is_timestamp_key("Updated"));
    assert!(is_timestamp_key("DURATION"));
    assert!(is_timestamp_key("started_at"));
    assert!(!is_timestamp_key("Kills"));
    assert!(!is_timestamp_key("Map"));
}

#[test]
fn key_order_fixed_keys() {
    assert_eq!(match_key_order("Map"), 0);
    assert_eq!(match_key_order("Score"), 1);
    assert_eq!(match_key_order("K/D Ratio"), 6);
    assert_eq!(match_key_order("Headshots %"), 9);
    assert_eq!(match_key_order("Match ID"), 24);
}

#[test]
fn key_order_other_keys_follow_the_fixed_ones() {
    // 'A' + 'B' = 65 + 66
    assert_eq!(match_key_order("AB"), 25 + 131);
    assert_eq!(match_key_order(""), 25);
    assert!(match_key_order("Zzz") > match_key_order("Match ID"));
}

#[test]
fn timestamp_with_time() {
    assert_eq!(fmt_timestamp("2024-07-15T14:30:00Z"), Some("15.07.2024 14:30".to_string()));
    assert_eq!(fmt_timestamp("2024-07-15 14:30:00"), Some("15.07.2024 14:30".to_string()));
}

#[test]
fn timestamp_without_time_separator() {
    assert_eq!(fmt_timestamp("2024-07-15X14:30:00"), Some("15.07.2024".to_string()));
}

#[test]
fn not_a_timestamp() {
    assert_eq!(fmt_timestamp("2024-07-15"), None);
    assert_eq!(fmt_timestamp("20240715T143000Z0"), None);
    assert_eq!(fmt_timestamp("hello world, this is long"), None);
}

#[test]
fn thousands_groups_sit_after_a_short_first_group() {
    for (n, s) in [(12i64, "12"), (12345, "12.345"), (-1234567, "-1.234.567"), (i64::MIN, "-9.223.372.036.854.775.808")] {
        let out = fmt_thousands(n);
        assert_eq!(out, s);
        let body = out.trim_start_matches('-');
        let groups: Vec<&str> = body.split('.').collect();
        assert!((1..=3).contains(&groups[0].len()));
        assert!(groups[1..].iter().all(|g| g.len() == 3));
    }
}

#[test]
fn known_fields_rank_first_in_list_order() {
    assert_eq!(match_key_order("Map"), 0);
    assert_eq!(match_key_order("Match ID"), 24);
    assert!(match_key_order("Kills") < match_key_order("Deaths"));
    assert!(match_key_order("Match ID") < match_key_order("A"));
    assert_eq!(match_key_order("A"), 25 + 65);
}

#[test]
fn request_failures_clean_to_friendly_messages() {
    for ctx in ["search", "lifetime stats", "match history"] {
        assert_eq!(clean_error_msg(&api_error(404, ctx)), "Player not found");
        assert_eq!(clean_error_msg(&api_error(500, ctx)), "Something went wrong");
        assert_eq!(clean_error_msg(&api_error(401, ctx)), "Invalid API key. Check your config.toml");
        assert_eq!(clean_error_msg(&api_error(403, ctx)), "Access denied. Check API key permissions");
        assert_eq!(clean_error_msg(&api_error(429, ctx)), "Too many requests. Wait a moment");
    }
}

use faceitui::config::{
    assignment_line, find_key, first_non_empty, load_ai_api_key, load_api_key, load_key,
    load_theme_name, resolve_api_key, save_theme_name, update_or_append_key, ConfigFile,
};

fn text(s: &str) -> ConfigFile {
    ConfigFile::Text(s.to_string())
}

#[test]
fn key_value_lines() {
    let c = "# comment\n\napi_key = \"abc\"\ntheme = \"nord\"\n";
    assert_eq!(find_key(c, "api_key"), Some("abc".to_string()));
    assert_eq!(find_key(c, "theme"), Some("nord".to_string()));
    assert_eq!(find_key(c, "other"), None);
}

#[test]
fn values_are_trimmed_and_unquoted() {
    assert_eq!(find_key("  theme   =   \"  nord  \"  ", "theme"), Some("nord".to_string()));
    assert_eq!(find_key("theme=nord", "theme"), Some("nord".to_string()));
    assert_eq!(find_key("theme = \"\"\"x\"\"\"", "theme"), Some("x".to_string()));
}

#[test]
fn empty_values_are_skipped() {
    let c = "theme = \"\"\ntheme = second\n";
    assert_eq!(find_key(c, "theme"), Some("second".to_string()));
    assert_eq!(find_key("theme =   ", "theme"), None);
}

#[test]
fn bare_line_is_an_api_key() {
    assert_eq!(find_key("0123456789abcdef\n", "api_key"), Some("0123456789abcdef".to_string()));
    assert_eq!(find_key("short\n", "api_key"), None);
    assert_eq!(find_key("[section-heading]\n", "api_key"), None);
    assert_eq!(find_key("0123456789abcdef\n", "theme"), None);
}

#[test]
fn comments_are_ignored() {
    assert_eq!(find_key("# api_key = \"x\"\n#0123456789abcdef", "api_key"), None);
}

#[test]
fn crlf_lines() {
    assert_eq!(find_key("a = 1\r\ntheme = dark\r\n", "theme"), Some("dark".to_string()));
}

#[test]
fn first_file_with_a_value_wins() {
    let files = vec![
        ConfigFile::Missing,
        text("theme = one\n"),
        ConfigFile::Unreadable,
        text("api_key = \"second-file-key\"\n"),
    ];
    assert_eq!(load_api_key(&files), Some("second-file-key".to_string()));
    assert_eq!(load_key(&files, "theme"), Some("one".to_string()));
    assert_eq!(load_key(&files, "missing"), None);
}

#[test]
fn theme_name_from_environment_first() {
    let files = vec![text("theme = file-theme\n")];
    assert_eq!(load_theme_name(Some("env-theme".to_string()), &files), Some("env-theme".to_string()));
    assert_eq!(load_theme_name(Some(String::new()), &files), Some("file-theme".to_string()));
    assert_eq!(load_theme_name(None, &files), Some("file-theme".to_string()));
    assert_eq!(load_theme_name(None, &vec![]), None);
}

#[test]
fn ai_key_choice() {
    assert_eq!(load_ai_api_key(Some("a".to_string()), Some("b".to_string())), Some("a".to_string()));
    assert_eq!(load_ai_api_key(Some(String::new()), Some("b".to_string())), Some("b".to_string()));
    assert_eq!(load_ai_api_key(None, Some(String::new())), None);
    assert_eq!(first_non_empty(None, None), None);
}

#[test]
fn api_key_resolution_order() {
    let files = vec![text("api_key = file\n")];
    assert_eq!(resolve_api_key(Some("env".to_string()), &files, Some("built".to_string())), "env");
    assert_eq!(resolve_api_key(None, &files, Some("built".to_string())), "file");
    assert_eq!(resolve_api_key(Some(String::new()), &vec![], Some("built".to_string())), "built");
    assert_eq!(resolve_api_key(None, &vec![], None), "");
}

#[test]
fn assignment_format() {
    assert_eq!(assignment_line("theme", "nord"), "theme = \"nord\"\n");
}

#[test]
fn update_replaces_first_assignment() {
    let c = "# settings\napi_key = \"k\"\ntheme = \"old\"\ntheme = \"older\"";
    assert_eq!(
        update_or_append_key(c, "theme", "new"),
        "# settings\napi_key = \"k\"\ntheme = \"new\"\ntheme = \"older\"\n"
    );
}

#[test]
fn update_appends_when_missing() {
    assert_eq!(update_or_append_key("a = 1\n", "theme", "x"), "a = 1\ntheme = \"x\"\n");
    assert_eq!(update_or_append_key("a = 1", "theme", "x"), "a = 1\n\ntheme = \"x\"\n");
    assert_eq!(update_or_append_key("", "theme", "x"), "\ntheme = \"x\"\n");
}

#[test]
fn update_skips_comments() {
    assert_eq!(
        update_or_append_key("# theme = \"a\"\n", "theme", "b"),
        "# theme = \"a\"\ntheme = \"b\"\n"
    );
}

#[test]
fn saved_theme_reads_back() {
    let c = "api_key = \"k\"\ntheme = \"old\"\n";
    let updated = update_or_append_key(c, "theme", "dracula");
    assert_eq!(find_key(&updated, "theme"), Some("dracula".to_string()));
    assert_eq!(find_key(&updated, "api_key"), Some("k".to_string()));
}

#[test]
fn save_theme_targets() {
    let w = save_theme_name("nord", &vec![ConfigFile::Missing, text("a = 1\n"), text("theme = x\n")]);
    assert_eq!(w.target, Some(1));
    assert_eq!(w.content, "a = 1\ntheme = \"nord\"\n");

    let w = save_theme_name("nord", &vec![ConfigFile::Unreadable]);
    assert_eq!(w.target, Some(0));
    assert_eq!(w.content, "theme = \"nord\"\n");

    let w = save_theme_name("nord", &vec![ConfigFile::Missing]);
    assert_eq!(w.target, None);
    assert_eq!(w.content, "theme = \"nord\"\n");
}

#[test]
fn written_keys_read_back() {
    let contents = [
        "",
        "theme = \"old\"",
        "# theme = \"commented\"\r\nx = 1\r\n",
        "theme =\nother = 2\n",
        "a = 1\r\r\ntheme = \"x\"\ntheme = \"y\"\n",
    ];
    for c in contents {
        for (key, value) in [("theme", "nord"), ("ui.color", "dark blue"), ("", "v")] {
            let updated = update_or_append_key(c, key, value);
            assert_eq!(find_key(&updated, key), Some(value.to_string()), "{:?}", c);
        }
    }
}

#[test]
fn api_key_written_after_a_bare_line_is_not_read_back() {
    let c = "sk-0123456789abcdef\n";
    let updated = update_or_append_key(c, "api_key", "new-key");
    assert_eq!(find_key(&updated, "api_key"), Some("sk-0123456789abcdef".to_string()));
    let updated = update_or_append_key("short\n", "api_key", "new-key");
    assert_eq!(find_key(&updated, "api_key"), Some("new-key".to_string()));
}

#[test]
fn writing_a_key_keeps_the_others() {
    let c = "api_key = \"abc\"\r\ntheme = \"nord\"\nlang = en";
    let w = update_or_append_key(c, "theme", "dracula");
    assert_eq!(find_key(&w, "theme"), Some("dracula".to_string()));
    assert_eq!(find_key(&w, "api_key"), Some("abc".to_string()));
    assert_eq!(find_key(&w, "lang"), Some("en".to_string()));
    let w2 = update_or_append_key(c, "mode", "dark");
    assert_eq!(find_key(&w2, "mode"), Some("dark".to_string()));
    assert_eq!(find_key(&w2, "theme"), Some("nord".to_string()));
    assert_eq!(find_key(&w2, "lang"), Some("en".to_string()));
}

#[test]
fn saved_theme_loads_back() {
    let files = vec![
        ConfigFile::Missing,
        text("api_key = \"abc\"\ntheme = \"nord\"\n"),
        text("theme = \"other\"\n"),
    ];
    let w = save_theme_name("dracula", &files);
    assert_eq!(w.target, Some(1));
    let mut after = files;
    after[1] = ConfigFile::Text(w.content);
    assert_eq!(load_theme_name(None, &after), Some("dracula".to_string()));
    let none = vec![ConfigFile::Missing, ConfigFile::Missing];
    let w = save_theme_name("nord", &none);
    assert_eq!(w.target, None);
    let mut created = none;
    created[0] = ConfigFile::Text(w.content);
    assert_eq!(load_theme_name(None, &created), Some("nord".to_string()));
}

use deepseek_desktop::json_field::extract_json_string_field;
use deepseek_desktop::web_url::parse_web_url;

/// The vendored package.json version is extracted without a JSON parser.
#[test]
fn extracts_version_from_package_json_shape() {
    let text = r#"{ "name": "@deepseek-ai/dsh", "version": "0.1.1-rc.2", "bin": {} }"#;
    assert_eq!(
        extract_json_string_field(text, "version").as_deref(),
        Some("0.1.1-rc.2")
    );
}

/// The authenticated URL is recovered from the host's stdout line.
#[test]
fn parses_authenticated_web_url_from_host_stdout() {
    let text = "noise\ndsh web: http://127.0.0.1:3080/?token=abc123 \nmore";
    assert_eq!(
        parse_web_url(text).as_deref(),
        Some("http://127.0.0.1:3080/?token=abc123")
    );
}

/// A fallback re-spawn prints a fresh token; the latest line wins.
#[test]
fn prefers_last_web_url_when_host_respawns() {
    let text = "dsh web: http://127.0.0.1:3080/?token=stale\ndsh web: http://127.0.0.1:3080/?token=fresh";
    assert_eq!(
        parse_web_url(text).as_deref(),
        Some("http://127.0.0.1:3080/?token=fresh")
    );
}

/// Non-URL output yields no URL (older hosts print no token line).
#[test]
fn no_web_url_without_host_line() {
    assert_eq!(parse_web_url("some other output"), None);
}

#[test]
fn json_field_missing_key_is_none() {
    assert_eq!(extract_json_string_field(r#"{ "name": "x" }"#, "version"), None);
}

#[test]
fn json_field_without_colon_is_none() {
    assert_eq!(extract_json_string_field(r#"{ "version" "1.0" }"#, "version"), None);
}

#[test]
fn json_field_without_closing_quote_is_none() {
    assert_eq!(extract_json_string_field(r#"{ "version": "1.0 }"#, "version"), None);
}

#[test]
fn json_field_takes_top_level_member_not_nested_one() {
    let text = r#"{"engines": {"version": ">=18"}, "version": "0.2.0"}"#;
    assert_eq!(extract_json_string_field(text, "version").as_deref(), Some("0.2.0"));
    let text = r#"{"version": "1.0", "nested": {"version": "2.0"}}"#;
    assert_eq!(extract_json_string_field(text, "version").as_deref(), Some("1.0"));
    let text = r#"{"list": [{"version": "x"}], "other": 1}"#;
    assert_eq!(extract_json_string_field(text, "version"), None);
}

#[test]
fn json_field_ignores_keys_inside_string_values() {
    let text = r#"{"description": "set \"version\": \"9\" here", "version": "3.1"}"#;
    assert_eq!(extract_json_string_field(text, "version").as_deref(), Some("3.1"));
    let text = r#"{"note": "\"version\": \"9\""}"#;
    assert_eq!(extract_json_string_field(text, "version"), None);
}

#[test]
fn json_field_keeps_escapes_as_written() {
    let text = r#"{"version": "a\"b"}"#;
    assert_eq!(extract_json_string_field(text, "version").as_deref(), Some(r#"a\"b"#));
}

#[test]
fn json_field_non_string_value_is_none() {
    let text = r#"{"bin": {}, "name": "dsh"}"#;
    assert_eq!(extract_json_string_field(text, "bin"), None);
    assert_eq!(extract_json_string_field(r#"{"version": 2}"#, "version"), None);
}

#[test]
fn json_field_reads_bare_member_list() {
    assert_eq!(
        extract_json_string_field(r#""version": "1.0""#, "version").as_deref(),
        Some("1.0")
    );
    assert_eq!(
        extract_json_string_field(r#""name": "dsh", "version": "1.0""#, "version").as_deref(),
        Some("1.0")
    );
}

#[test]
fn json_field_leading_member_law() {
    let text = "{\"key\": \"value-1\" and more \"text\"";
    assert_eq!(extract_json_string_field(text, "key").as_deref(), Some("value-1"));
}

#[test]
fn json_field_handles_non_ascii() {
    let text = "{\"名\": \"版本\", \"version\": \"ü1.0\"}";
    assert_eq!(extract_json_string_field(text, "version").as_deref(), Some("ü1.0"));
    assert_eq!(extract_json_string_field(text, "名").as_deref(), Some("版本"));
}

#[test]
fn web_url_accepts_https_and_crlf() {
    let text = "starting\r\ndsh web: https://example.test/?token=t\r\n";
    assert_eq!(parse_web_url(text).as_deref(), Some("https://example.test/?token=t"));
}

#[test]
fn web_url_trims_line_and_skips_extra_spaces() {
    let text = "   dsh web:    http://h/x   extra words  ";
    assert_eq!(parse_web_url(text).as_deref(), Some("http://h/x"));
}

#[test]
fn web_url_rejects_non_http_token() {
    assert_eq!(parse_web_url("dsh web: ftp://h/x"), None);
    assert_eq!(parse_web_url("dsh web: "), None);
    assert_eq!(parse_web_url("dsh web:http://h"), None);
    assert_eq!(parse_web_url(""), None);
}

#[test]
fn web_url_later_non_url_lines_do_not_hide_earlier_url() {
    let text = "dsh web: http://a/?token=1\nlistening\ndsh web: nothing\n";
    assert_eq!(parse_web_url(text).as_deref(), Some("http://a/?token=1"));
}

#[test]
fn web_url_later_output_decides_law() {
    let earlier = "dsh web: http://old/?token=x";
    for later in ["dsh web: http://new/?token=y", "no url here", ""] {
        let joined = format!("{}\n{}", earlier, later);
        assert_eq!(parse_web_url(&joined), parse_web_url(later).or(parse_web_url(earlier)));
    }
}

#[test]
fn web_url_latest_line_wins_law() {
    let earlier = "dsh web: http://old/?token=x\nnoise";
    let text = format!("{}\n{}", earlier, "dsh web: http://new/?token=y");
    assert_eq!(parse_web_url(&text).as_deref(), Some("http://new/?token=y"));
}

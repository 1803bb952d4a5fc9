use lupp::format::json::{enhance, State};
use lupp::styling::{Label, Theme};

fn mock_theme() -> Theme<Label> {
    Theme {
        highlight: Label::new("[HIGHLIGHT]"),
        dim: Label::new("[DIM]"),
        trace: Label::new("[TRACE]"),
        debug: Label::new("[DEBUG]"),
        info: Label::new("[INFO]"),
        warn: Label::new("[WARN]"),
        error: Label::new("[ERROR]"),
        fatal: Label::new("[FATAL]"),
        info_text: Label::new("[INFO_TEXT]"),
        error_text: Label::new("[ERROR_TEXT]"),
        debug_text: Label::new("[DEBUG_TEXT]"),
    }
}

fn strip_codes(s: &str) -> String {
    let mut out = String::new();
    let mut in_code = false;
    for c in s.chars() {
        if in_code {
            in_code = c != 'm';
        } else if c == '\u{1b}' {
            in_code = true;
        } else {
            out.push(c);
        }
    }
    out
}

fn run_mock(line: &str) -> String {
    let mut out = String::new();
    enhance(&mock_theme(), line, &mut out);
    out
}

#[test]
fn test_enhance_json() {
    let log_row = r#"{"unimportant": "string", "msg": "hello world"}"#;
    let mut writer = String::new();

    let theme = Theme::default();

    enhance(&theme, log_row, &mut writer);

    let enhanced = writer;

    assert!(enhanced.contains("\x1b"));
    assert!(log_row.len() < enhanced.len());
    assert!(
        enhanced.contains("unimportant")
            && enhanced.contains("string")
            && enhanced.contains("msg")
            && enhanced.contains("hello world")
    );
}

#[test]
fn json_scenario_strips_back_to_the_line() {
    let log_row = r#"{"unimportant": "string", "msg": "hello world"}"#;
    let mut out = String::new();
    enhance(&Theme::default(), log_row, &mut out);
    assert_eq!(strip_codes(&out), log_row);
}

#[test]
fn json_small_object_exact_ansi() {
    let mut out = String::new();
    enhance(&Theme::default(), r#"{"a":1}"#, &mut out);
    assert_eq!(
        out,
        "\x1b[37m{\x1b[0m\x1b[38;5;242m\"\x1b[0m\x1b[38;5;242ma\x1b[0m\x1b[38;5;242m\"\x1b[0m:\x1b[38;5;242m1\x1b[0m\x1b[37m}\x1b[0m"
    );
}

#[test]
fn json_roles_of_keys_and_values() {
    assert_eq!(
        run_mock(r#"{"msg":"hi","level":"warn","err":"x"}"#),
        "[HIGHLIGHT]{[DIM]\"[HIGHLIGHT]msg[DIM]\":[DIM]\"[INFO_TEXT]hi[DIM]\"[HIGHLIGHT],\
[DIM]\"[HIGHLIGHT]level[DIM]\":[DIM]\"[WARN]warn[DIM]\"[HIGHLIGHT],\
[DIM]\"[ERROR]err[DIM]\":[DIM]\"[ERROR_TEXT]x[DIM]\"[HIGHLIGHT]}"
    );
}

#[test]
fn json_array_value() {
    assert_eq!(
        run_mock(r#"{"a":[1,2,3]}"#),
        "[HIGHLIGHT]{[DIM]\"[DIM]a[DIM]\":[HIGHLIGHT][[DIM]1[HIGHLIGHT],[DIM]2[HIGHLIGHT],[DIM]3[HIGHLIGHT]][HIGHLIGHT]}"
    );
}

#[test]
fn json_braced_list_after_equals() {
    assert_eq!(
        run_mock("a={1,2,3}"),
        "a=[HIGHLIGHT]{1[HIGHLIGHT],2[HIGHLIGHT],3[HIGHLIGHT]}"
    );
}

#[test]
fn json_trailing_number_is_written() {
    assert_eq!(
        run_mock(r#"{"status": 200"#),
        "[HIGHLIGHT]{[DIM]\"[HIGHLIGHT]status[DIM]\": [HIGHLIGHT]200"
    );
}

#[test]
fn json_unterminated_tokens_are_written() {
    assert_eq!(run_mock(r#"{"ke"#), "[HIGHLIGHT]{[DIM]\"[DIM]ke");
    assert_eq!(run_mock(r#"{"k":"va"#), "[HIGHLIGHT]{[DIM]\"[DIM]k[DIM]\":[DIM]\"[DIM]va");
    assert_eq!(run_mock(r#"{"k":[1,2"#), "[HIGHLIGHT]{[DIM]\"[DIM]k[DIM]\":[HIGHLIGHT][[DIM]1[HIGHLIGHT],[DIM]2");
}

#[test]
fn json_escaped_quote_stays_in_the_string() {
    assert_eq!(
        run_mock(r#"{"k\"q":"a\"b"}"#),
        "[HIGHLIGHT]{[DIM]\"[DIM]k\\\"q[DIM]\":[DIM]\"[DIM]a\\\"b[DIM]\"[HIGHLIGHT]}"
    );
}

#[test]
fn json_bare_words_and_nested_objects() {
    assert_eq!(
        run_mock(r#"{"ok":true,"n":{"x":null}}"#),
        "[HIGHLIGHT]{[DIM]\"[DIM]ok[DIM]\":[DIM]true[HIGHLIGHT],\
[DIM]\"[DIM]n[DIM]\":[HIGHLIGHT]{[DIM]\"[DIM]x[DIM]\":[DIM]null[HIGHLIGHT]}[HIGHLIGHT]}"
    );
}

#[test]
fn json_output_is_appended() {
    let mut out = String::from("before ");
    enhance(&mock_theme(), "{}", &mut out);
    assert_eq!(out, "before [HIGHLIGHT]{[HIGHLIGHT]}");
}

#[test]
fn json_non_ascii_text_is_kept() {
    let line = "{\"k\":\"héllo ✓\"} ünïcode";
    let mut out = String::new();
    enhance(&Theme::default(), line, &mut out);
    assert_eq!(strip_codes(&out), line);
    assert!(out.len() > line.len());
}

#[test]
fn json_state_starts_fresh() {
    let _state = State::new();
    assert_eq!(run_mock(""), "");
}

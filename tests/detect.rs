use lupp::format::{detect, enhance_line, LogFormat};
use lupp::styling::{Label, Theme};

#[test]
fn test_detect_format() {
    let tests = [
        (
            r#"field=thing other="hello world" status=200"#,
            LogFormat::Logfmt,
        ),
        (
            r#"{"field": "value", "other": "hello world", "status": 200}"#,
            LogFormat::Json,
        ),
        (
            "{\"field\": \"value\", \"\u{1b}[37mother\": \"hello world\", \"status\": 200}\u{1b}[0m",
            LogFormat::Colored,
        ),
        (
            r#"This is not a strucutured log line, just some text"#,
            LogFormat::Unknown,
        ),
    ];

    for (log_row, expected_format) in tests {
        assert_eq!(detect(log_row), expected_format)
    }
}

#[test]
fn escape_anywhere_means_colored() {
    assert_eq!(detect("\u{1b}"), LogFormat::Colored);
    assert_eq!(detect("level=info \u{1b}[0m"), LogFormat::Colored);
    assert_eq!(detect("plain text \u{1b}"), LogFormat::Colored);
}

#[test]
fn brace_first_means_json() {
    assert_eq!(detect("{"), LogFormat::Json);
    assert_eq!(detect("{not really json"), LogFormat::Json);
    assert_eq!(detect(" {\"a\":1}"), LogFormat::Unknown);
}

#[test]
fn letters_then_equals_means_logfmt() {
    assert_eq!(detect("a=1"), LogFormat::Logfmt);
    assert_eq!(detect("Level=info"), LogFormat::Logfmt);
    assert_eq!(detect("a={1,2,3}"), LogFormat::Logfmt);
}

#[test]
fn other_lines_are_unknown() {
    assert_eq!(detect("=value"), LogFormat::Unknown);
    assert_eq!(detect("status_code=200"), LogFormat::Unknown);
    assert_eq!(detect("key1=value"), LogFormat::Unknown);
    assert_eq!(detect("justletters"), LogFormat::Unknown);
    assert_eq!(detect("two words=x"), LogFormat::Unknown);
}

#[test]
fn empty_line_is_unknown_and_passes_through() {
    assert_eq!(detect(""), LogFormat::Unknown);
    let theme = Theme::default();
    let mut out = String::new();
    enhance_line(&theme, "", &mut out);
    assert_eq!(out, "");
}

#[test]
fn colored_line_is_written_unchanged() {
    let theme = Theme::default();
    let line = "level=info \u{1b}[31mred\u{1b}[0m";
    let mut out = String::new();
    enhance_line(&theme, line, &mut out);
    assert_eq!(out, line);
}

#[test]
fn unknown_line_is_written_unchanged() {
    let theme = Theme::default();
    let line = "just some text, with = signs";
    let mut out = String::from("> ");
    enhance_line(&theme, line, &mut out);
    assert_eq!(out, "> just some text, with = signs");
}

#[test]
fn dispatch_sends_each_kind_to_its_highlighter() {
    let theme = Theme {
        highlight: Label::new("[H]"),
        dim: Label::new("[D]"),
        trace: Label::new("[T]"),
        debug: Label::new("[G]"),
        info: Label::new("[I]"),
        warn: Label::new("[W]"),
        error: Label::new("[E]"),
        fatal: Label::new("[F]"),
        info_text: Label::new("[IT]"),
        error_text: Label::new("[ET]"),
        debug_text: Label::new("[DT]"),
    };
    let mut out = String::new();
    enhance_line(&theme, "a={1,2,3}", &mut out);
    assert_eq!(out, "[D]a=[D]{1,2,3}");
    let mut out = String::new();
    enhance_line(&theme, "{\"a\":1}", &mut out);
    assert_eq!(out, "[H]{[D]\"[D]a[D]\":[D]1[H]}");
}

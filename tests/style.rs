use lupp::styling::{AnsiColor, Label, Style, StyleBuilder, Styler, Theme};

#[test]
fn test_write_styles() {
    let tests = [
        (
            StyleBuilder::new().bold().build(),
            "text",
            "\x1b[1mtext\x1b[0m",
        ),
        (
            StyleBuilder::new().color_red().build(),
            "text",
            "\x1b[31mtext\x1b[0m",
        ),
        (
            StyleBuilder::new().color_256(214).build(),
            "text",
            "\x1b[38;5;214mtext\x1b[0m",
        ),
        (
            StyleBuilder::new().color_rgb(200, 100, 0).bold().build(),
            "text",
            "\x1b[1m\x1b[38;2;200;100;0mtext\x1b[0m",
        ),
    ];

    for (style, input, output) in tests {
        let mut writer = String::new();
        style.write(input, &mut writer);
        assert_eq!(writer, output);
    }
}

fn written(style: Style, text: &str) -> String {
    let mut out = String::new();
    style.write(text, &mut out);
    out
}

#[test]
fn unset_style_writes_only_the_reset() {
    assert_eq!(written(StyleBuilder::new().build(), "x"), "x\x1b[0m");
    assert_eq!(written(StyleBuilder::new().build(), ""), "\x1b[0m");
}

#[test]
fn basic_colors_have_their_codes() {
    let cases = [
        (StyleBuilder::new().color_black().build(), "30"),
        (StyleBuilder::new().color_red().build(), "31"),
        (StyleBuilder::new().color_green().build(), "32"),
        (StyleBuilder::new().color_yellow().build(), "33"),
        (StyleBuilder::new().color_blue().build(), "34"),
        (StyleBuilder::new().color_magenta().build(), "35"),
        (StyleBuilder::new().color_cyan().build(), "36"),
        (StyleBuilder::new().color_white().build(), "37"),
    ];
    for (style, code) in cases {
        assert_eq!(written(style, "t"), format!("\x1b[{}mt\x1b[0m", code));
    }
}

#[test]
fn palette_numbers_are_written_in_decimal() {
    for (n, digits) in [(0u8, "0"), (7, "7"), (10, "10"), (99, "99"), (100, "100"), (255, "255")] {
        assert_eq!(
            written(StyleBuilder::new().color_256(n).build(), "t"),
            format!("\x1b[38;5;{}mt\x1b[0m", digits)
        );
    }
}

#[test]
fn rgb_extremes() {
    assert_eq!(
        written(StyleBuilder::new().color_rgb(255, 0, 0).bold().build(), "F"),
        "\x1b[1m\x1b[38;2;255;0;0mF\x1b[0m"
    );
    assert_eq!(
        written(StyleBuilder::new().color_rgb(0, 9, 10).build(), ""),
        "\x1b[38;2;0;9;10m\x1b[0m"
    );
}

#[test]
fn last_color_wins_and_bold_keeps() {
    let style = StyleBuilder::new().bold().color_red().color_256(45).build();
    assert_eq!(style, Style { bold: true, color: Some(AnsiColor::Color256(45)) });
    assert_eq!(written(style, "x"), "\x1b[1m\x1b[38;5;45mx\x1b[0m");
}

#[test]
fn style_write_appends() {
    let mut out = String::from("a");
    StyleBuilder::new().color_green().build().write("b", &mut out);
    assert_eq!(out, "a\x1b[32mb\x1b[0m");
}

#[test]
fn label_writes_mark_then_text() {
    let label = Label::new("<x>");
    let mut out = String::from("=");
    Styler::write(&label, "text", &mut out);
    assert_eq!(out, "=<x>text");
}

#[test]
fn theme_highlighted_and_dimmed() {
    let theme = Theme::default();
    let mut out = String::new();
    theme.write_highlighted("{", &mut out);
    theme.write_dimmed("v", &mut out);
    assert_eq!(out, "\x1b[37m{\x1b[0m\x1b[38;5;242mv\x1b[0m");
}

#[test]
fn theme_keys_match_names_exactly() {
    let theme = Theme::default();
    let key = |k: &str| {
        let mut out = String::new();
        theme.write_key(k, &mut out);
        out
    };
    assert_eq!(key("lvl"), "\x1b[37mlvl\x1b[0m");
    assert_eq!(key("lvls"), "\x1b[38;5;242mlvls\x1b[0m");
    assert_eq!(key("Level"), "\x1b[38;5;242mLevel\x1b[0m");
    assert_eq!(key("err"), "\x1b[1m\x1b[31merr\x1b[0m");
    assert_eq!(key(""), "\x1b[38;5;242m\x1b[0m");
}

#[test]
fn theme_values_by_role() {
    let theme = Theme::default();
    let value = |k: &str, v: &str| {
        let mut out = String::new();
        theme.write_value(k, v, &mut out);
        out
    };
    assert_eq!(value("level", "fatal"), "\x1b[1m\x1b[38;2;255;0;0mfatal\x1b[0m");
    assert_eq!(value("lvl", "debug"), "\x1b[1m\x1b[34mdebug\x1b[0m");
    assert_eq!(value("severity", "TRACE"), "\x1b[1m\x1b[35mTRACE\x1b[0m");
    assert_eq!(value("level", "warning"), "\x1b[1m\x1b[33mwarning\x1b[0m");
    assert_eq!(value("level", "ERROR"), "\x1b[1m\x1b[31mERROR\x1b[0m");
    assert_eq!(value("level", "verbose"), "\x1b[38;5;242mverbose\x1b[0m");
    assert_eq!(value("msg", "info"), "\x1b[38;5;45minfo\x1b[0m");
    assert_eq!(value("error", "bad"), "\x1b[31mbad\x1b[0m");
    assert_eq!(value("trace_id", "ab"), "\x1b[35mab\x1b[0m");
    assert_eq!(value("status", "200"), "\x1b[37m200\x1b[0m");
    assert_eq!(value("user", "info"), "\x1b[38;5;242minfo\x1b[0m");
}

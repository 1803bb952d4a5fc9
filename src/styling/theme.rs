use vstd::prelude::*;

use super::style::{AnsiColor, Style, StyleBuilder, Styler};
use crate::text::same_text;

verus! {

/// The style of each role that a key or a value can take.
pub struct Theme<S> {
    pub highlight: S,
    pub dim: S,
    pub trace: S,
    pub debug: S,
    pub info: S,
    pub warn: S,
    pub error: S,
    pub fatal: S,
    pub info_text: S,
    pub error_text: S,
    pub debug_text: S,
}

/// Keys that name the severity of a record.
pub open spec fn level_key(k: Seq<char>) -> bool {
    k == "level"@ || k == "lvl"@ || k == "severity"@
}

pub open spec fn message_key(k: Seq<char>) -> bool {
    k == "msg"@ || k == "message"@
}

pub open spec fn status_key(k: Seq<char>) -> bool {
    k == "status"@ || k == "status_code"@
}

pub open spec fn error_key(k: Seq<char>) -> bool {
    k == "error"@ || k == "err"@
}

/// Keys that carry a trace or span identifier.
pub open spec fn trace_key(k: Seq<char>) -> bool {
    k == "trace_id"@ || k == "span_path"@ || k == "span"@
}

/// Keys whose name is shown highlighted.
pub open spec fn marked_key(k: Seq<char>) -> bool {
    level_key(k) || message_key(k) || status_key(k) || trace_key(k)
}

pub open spec fn trace_level(v: Seq<char>) -> bool {
    v == "trace"@ || v == "Trace"@ || v == "TRACE"@
}

pub open spec fn debug_level(v: Seq<char>) -> bool {
    v == "debug"@ || v == "Debug"@ || v == "DEBUG"@
}

pub open spec fn info_level(v: Seq<char>) -> bool {
    v == "info"@ || v == "Info"@ || v == "INFO"@
}

pub open spec fn warn_level(v: Seq<char>) -> bool {
    v == "warn"@ || v == "Warn"@ || v == "WARN"@ || v == "warning"@ || v == "Warning"@
        || v == "WARNING"@
}

pub open spec fn error_level(v: Seq<char>) -> bool {
    v == "error"@ || v == "Error"@ || v == "ERROR"@
}

pub open spec fn fatal_level(v: Seq<char>) -> bool {
    v == "fatal"@ || v == "Fatal"@ || v == "FATAL"@
}

impl<S: Styler> Theme<S> {
    /// The style of a key's name.
    pub open spec fn key_style(&self, key: Seq<char>) -> S {
        if marked_key(key) {
            self.highlight
        } else if error_key(key) {
            self.error
        } else {
            self.dim
        }
    }

    /// The style of a severity value.
    pub open spec fn level_style(&self, value: Seq<char>) -> S {
        if trace_level(value) {
            self.trace
        } else if debug_level(value) {
            self.debug
        } else if info_level(value) {
            self.info
        } else if warn_level(value) {
            self.warn
        } else if error_level(value) {
            self.error
        } else if fatal_level(value) {
            self.fatal
        } else {
            self.dim
        }
    }

    /// The style of the value that follows `key`: the first group of keys
    /// that holds `key` decides.
    pub open spec fn value_style(&self, key: Seq<char>, value: Seq<char>) -> S {
        if level_key(key) {
            self.level_style(value)
        } else if message_key(key) {
            self.info_text
        } else if status_key(key) {
            self.highlight
        } else if error_key(key) {
            self.error_text
        } else if trace_key(key) {
            self.debug_text
        } else {
            self.dim
        }
    }

    pub open spec fn styled_key(&self, key: Seq<char>) -> Seq<char> {
        self.key_style(key).styled(key)
    }

    pub open spec fn styled_value(&self, key: Seq<char>, value: Seq<char>) -> Seq<char> {
        self.value_style(key, value).styled(value)
    }

    pub fn write_highlighted(&self, text: &str, out: &mut String)
        ensures
            final(out)@ == old(out)@ + self.highlight.styled(text@),
    {
        self.highlight.write(text, out)
    }

    pub fn write_dimmed(&self, text: &str, out: &mut String)
        ensures
            final(out)@ == old(out)@ + self.dim.styled(text@),
    {
        self.dim.write(text, out)
    }

    /// Writes a key's name in the style of its role.
    pub fn write_key(&self, key: &str, out: &mut String)
        ensures
            final(out)@ == old(out)@ + self.styled_key(key@),
    {
        if matches_level_key(key) || matches_message_key(key) || matches_status_key(key)
            || matches_trace_key(key) {
            self.highlight.write(key, out)
        } else if matches_error_key(key) {
            self.error.write(key, out)
        } else {
            self.dim.write(key, out)
        }
    }

    /// Writes the value that follows `key` in the style of its role.
    pub fn write_value(&self, key: &str, value: &str, out: &mut String)
        ensures
            final(out)@ == old(out)@ + self.styled_value(key@, value@),
    {
        if matches_level_key(key) {
            self.level(value).write(value, out)
        } else if matches_message_key(key) {
            self.info_text.write(value, out)
        } else if matches_status_key(key) {
            self.highlight.write(value, out)
        } else if matches_error_key(key) {
            self.error_text.write(value, out)
        } else if matches_trace_key(key) {
            self.debug_text.write(value, out)
        } else {
            self.dim.write(value, out)
        }
    }

    fn level(&self, value: &str) -> (r: &S)
        ensures
            *r == self.level_style(value@),
    {
        if same_text(value, "trace") || same_text(value, "Trace") || same_text(value, "TRACE") {
            &self.trace
        } else if same_text(value, "debug") || same_text(value, "Debug") || same_text(
            value,
            "DEBUG",
        ) {
            &self.debug
        } else if same_text(value, "info") || same_text(value, "Info") || same_text(
            value,
            "INFO",
        ) {
            &self.info
        } else if same_text(value, "warn") || same_text(value, "Warn") || same_text(value, "WARN")
            || same_text(value, "warning") || same_text(value, "Warning") || same_text(
            value,
            "WARNING",
        ) {
            &self.warn
        } else if same_text(value, "error") || same_text(value, "Error") || same_text(
            value,
            "ERROR",
        ) {
            &self.error
        } else if same_text(value, "fatal") || same_text(value, "Fatal") || same_text(
            value,
            "FATAL",
        ) {
            &self.fatal
        } else {
            &self.dim
        }
    }
}

fn matches_level_key(k: &str) -> (r: bool)
    ensures
        r == level_key(k@),
{
    same_text(k, "level") || same_text(k, "lvl") || same_text(k, "severity")
}

fn matches_message_key(k: &str) -> (r: bool)
    ensures
        r == message_key(k@),
{
    same_text(k, "msg") || same_text(k, "message")
}

fn matches_status_key(k: &str) -> (r: bool)
    ensures
        r == status_key(k@),
{
    same_text(k, "status") || same_text(k, "status_code")
}

fn matches_error_key(k: &str) -> (r: bool)
    ensures
        r == error_key(k@),
{
    same_text(k, "error") || same_text(k, "err")
}

fn matches_trace_key(k: &str) -> (r: bool)
    ensures
        r == trace_key(k@),
{
    same_text(k, "trace_id") || same_text(k, "span_path") || same_text(k, "span")
}

/// The ANSI theme used by default.
pub open spec fn default_theme() -> Theme<Style> {
    Theme {
        highlight: Style { bold: false, color: Some(AnsiColor::Color16(37)) },
        dim: Style { bold: false, color: Some(AnsiColor::Color256(242)) },
        trace: Style { bold: true, color: Some(AnsiColor::Color16(35)) },
        debug: Style { bold: true, color: Some(AnsiColor::Color16(34)) },
        info: Style { bold: true, color: Some(AnsiColor::Color16(32)) },
        warn: Style { bold: true, color: Some(AnsiColor::Color16(33)) },
        error: Style { bold: true, color: Some(AnsiColor::Color16(31)) },
        fatal: Style { bold: true, color: Some(AnsiColor::Rgb(255, 0, 0)) },
        info_text: Style { bold: false, color: Some(AnsiColor::Color256(45)) },
        error_text: Style { bold: false, color: Some(AnsiColor::Color16(31)) },
        debug_text: Style { bold: false, color: Some(AnsiColor::Color16(35)) },
    }
}

impl Default for Theme<Style> {
    fn default() -> (r: Theme<Style>)
        ensures
            r == default_theme(),
    {
        Theme {
            highlight: StyleBuilder::new().color_white().build(),
            dim: StyleBuilder::new().color_256(242).build(),
            trace: StyleBuilder::new().color_magenta().bold().build(),
            debug: StyleBuilder::new().color_blue().bold().build(),
            info: StyleBuilder::new().color_green().bold().build(),
            warn: StyleBuilder::new().color_yellow().bold().build(),
            error: StyleBuilder::new().color_red().bold().build(),
            fatal: StyleBuilder::new().color_rgb(255, 0, 0).bold().build(),
            info_text: StyleBuilder::new().color_256(45).build(),
            error_text: StyleBuilder::new().color_red().build(),
            debug_text: StyleBuilder::new().color_magenta().build(),
        }
    }
}

} // verus!

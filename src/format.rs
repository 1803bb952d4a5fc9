//! Telling the kind of a line, and sending it to the highlighter for that kind.
use vstd::prelude::*;

use crate::styling::ansi::{esc_char, lemma_plain_clean, plain, strip_ansi};
use crate::styling::style::{Style, Styler};
use crate::styling::theme::Theme;
use crate::text::push_text;

pub mod json;
pub mod logfmt;

verus! {

#[derive(PartialEq, Eq, Debug, Clone, Copy, Structural)]
pub enum LogFormat {
    Json,
    Logfmt,
    Colored,
    Unknown,
}

pub open spec fn is_alpha(c: char) -> bool {
    ('a' <= c && c <= 'z') || ('A' <= c && c <= 'Z')
}

pub open spec fn opens_object(s: Seq<char>) -> bool {
    s.len() > 0 && s[0] == '{'
}

/// `s` starts with one or more ASCII letters followed by `=`.
pub open spec fn logfmt_head(s: Seq<char>) -> bool {
    exists|k: int|
        0 < k < s.len() && s[k] == '=' && forall|j: int| 0 <= j < k ==> is_alpha(#[trigger] s[j])
}

pub open spec fn detected(s: Seq<char>) -> LogFormat {
    if !plain(s) {
        LogFormat::Colored
    } else if opens_object(s) {
        LogFormat::Json
    } else if logfmt_head(s) {
        LogFormat::Logfmt
    } else {
        LogFormat::Unknown
    }
}

/// The kind of a line. This is shallow on purpose: a line is taken as JSON
/// from its first character alone, and as logfmt from its first key alone.
pub fn detect(line: &str) -> (r: LogFormat)
    ensures
        r == detected(line@),
        r == LogFormat::Colored <==> !plain(line@),
        r == LogFormat::Json <==> plain(line@) && opens_object(line@),
        r == LogFormat::Logfmt <==> plain(line@) && !opens_object(line@) && logfmt_head(line@),
        r == LogFormat::Unknown <==> plain(line@) && !opens_object(line@) && !logfmt_head(
            line@,
        ),
{
    let ghost s = line@;
    let mut colored = false;
    let mut brace = false;
    let mut decided = false;
    let mut head = false;
    let mut letters = false;
    let mut first = true;
    for ch in it: line.chars()
        invariant
            it.seq() == s,
            first <==> it.index() == 0,
            colored <==> exists|i: int| 0 <= i < it.index() && s[i] == esc_char(),
            brace <==> it.index() > 0 && s[0] == '{',
            !decided ==> (forall|j: int| 0 <= j < it.index() ==> is_alpha(#[trigger] s[j])) && (
            letters <==> it.index() > 0),
            decided ==> (head <==> logfmt_head(s)),
    {
        let ghost k = it.index();
        if ch == '\u{1b}' {
            colored = true;
        }
        if first && ch == '{' {
            brace = true;
        }
        if !decided {
            if ('a' <= ch && ch <= 'z') || ('A' <= ch && ch <= 'Z') {
                letters = true;
            } else {
                decided = true;
                head = ch == '=' && letters;
                proof {
                    if head {
                        assert(logfmt_head(s)) by {
                            assert(0 < k < s.len() && s[k] == '=' && forall|j: int|
                                0 <= j < k ==> is_alpha(#[trigger] s[j]));
                        }
                    } else {
                        assert forall|k2: int|
                            0 < k2 < s.len() && s[k2] == '=' implies !(forall|j: int|
                            0 <= j < k2 ==> is_alpha(#[trigger] s[j])) by {
                            if k2 > k {
                                assert(!is_alpha(s[k]));
                            } else if k2 < k {
                                assert(is_alpha(s[k2]));
                            }
                        }
                    }
                }
            }
        }
        first = false;
    }
    proof {
        if !decided {
            assert forall|k2: int| 0 < k2 < s.len() && s[k2] == '=' implies !(forall|j: int|
                0 <= j < k2 ==> is_alpha(#[trigger] s[j])) by {
                assert(is_alpha(s[k2]));
            }
        }
    }
    if colored {
        LogFormat::Colored
    } else if brace {
        LogFormat::Json
    } else if decided && head {
        LogFormat::Logfmt
    } else {
        LogFormat::Unknown
    }
}

/// What is written for a line: its highlighted form for JSON and logfmt, the
/// line as it is otherwise.
pub open spec fn line_output<S: Styler>(theme: &Theme<S>, line: Seq<char>) -> Seq<char> {
    match detected(line) {
        LogFormat::Json => json::highlighted(theme, line),
        LogFormat::Logfmt => logfmt::highlighted(theme, line),
        _ => line,
    }
}

/// Appends to `out` what is written for `line` (without a line end).
pub fn enhance_line<S: Styler>(theme: &Theme<S>, line: &str, out: &mut String)
    ensures
        final(out)@ == old(out)@ + line_output(theme, line@),
{
    match detect(line) {
        LogFormat::Json => json::enhance(theme, line, out),
        LogFormat::Logfmt => logfmt::enhance(theme, line, out),
        _ => push_text(out, line),
    }
}

/// A line that already holds an escape is written as it is: nothing is
/// styled twice.
pub proof fn lemma_colored_passes_through<S: Styler>(theme: &Theme<S>, line: Seq<char>)
    requires
        !plain(line),
    ensures
        line_output(theme, line) == line,
{
}

/// With ANSI styles, what is written for any line reads, once its codes are
/// taken out, as the line itself does; and it is never shorter than the line.
pub proof fn lemma_line_output_keeps_text(theme: &Theme<Style>, line: Seq<char>)
    ensures
        strip_ansi(line_output(theme, line)) == strip_ansi(line),
        line_output(theme, line).len() >= line.len(),
{
    match detected(line) {
        LogFormat::Json => {
            json::lemma_strip_highlighted(theme, line);
            json::lemma_highlighted_len(theme, line);
            lemma_plain_clean(line);
        },
        LogFormat::Logfmt => {
            logfmt::lemma_strip_highlighted(theme, line);
            logfmt::lemma_highlighted_len(theme, line);
            lemma_plain_clean(line);
        },
        _ => {},
    }
}

} // verus!

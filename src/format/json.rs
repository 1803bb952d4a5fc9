//! Highlighting of compact, single-line JSON objects.
//!
//! The scan is shallow: it tracks no depth, so a nested object puts it back
//! in the same context as the outer one, and array elements are not told
//! apart by type.
use vstd::prelude::*;

use crate::styling::ansi::{
    clean, esc_char, lemma_clean_concat, lemma_marked_concat, lemma_plain_clean, lemma_strip_len,
    plain, strip_ansi,
};
use crate::styling::style::{lemma_style_clean, lemma_style_marked, Style, Styler};
use crate::styling::theme::Theme;
use crate::text::push_char;

verus! {

/// Where in the object the scan stands.
#[derive(Clone, Copy, PartialEq, Eq, Debug, Structural)]
pub enum Context {
    /// Between tokens.
    Between,
    /// Right after a `:`, before the value.
    Value,
    /// Inside a quoted value.
    ValueString,
    /// Inside an unquoted value (a number, `true`, `false`, `null`).
    ValueNumber,
    /// Inside an array value.
    ValueArray,
    /// Inside a quoted key.
    Key,
}

/// The scan state as values: `current` is the token being read, `key` the
/// last key read (empty once its value is written), `escaped` whether the
/// last character was a backslash inside quotes that still waits for its
/// partner.
pub struct Scan {
    pub context: Context,
    pub current: Seq<char>,
    pub key: Seq<char>,
    pub escaped: bool,
}

pub open spec fn initial() -> Scan {
    Scan { context: Context::Between, current: Seq::empty(), key: Seq::empty(), escaped: false }
}

pub open spec fn is_scalar_start(c: char) -> bool {
    ('0' <= c && c <= '9') || ('a' <= c && c <= 'z')
}

/// A text between two dimmed quotes.
pub open spec fn quoted<S: Styler>(theme: &Theme<S>, inner: Seq<char>) -> Seq<char> {
    theme.dim.styled(seq!['"']) + inner + theme.dim.styled(seq!['"'])
}

/// Reading one character: the next state, and what is written for it.
pub open spec fn step<S: Styler>(theme: &Theme<S>, st: Scan, c: char) -> (Scan, Seq<char>) {
    let grown = Scan { current: st.current.push(c), ..st };
    match st.context {
        Context::Between => if c == '{' || c == '}' || c == ',' {
            (st, theme.highlight.styled(seq![c]))
        } else if c == '"' {
            (Scan { context: Context::Key, ..st }, Seq::empty())
        } else if c == ':' {
            (Scan { context: Context::Value, ..st }, seq![':'])
        } else {
            (st, seq![c])
        },
        Context::Value => if c == '"' {
            (Scan { context: Context::ValueString, ..st }, Seq::empty())
        } else if is_scalar_start(c) {
            (Scan { context: Context::ValueNumber, ..grown }, Seq::empty())
        } else if c == '{' {
            (Scan { context: Context::Between, ..st }, theme.highlight.styled(seq![c]))
        } else if c == '[' {
            (Scan { context: Context::ValueArray, ..st }, theme.highlight.styled(seq![c]))
        } else {
            (st, seq![c])
        },
        Context::Key => if st.escaped {
            (Scan { escaped: false, ..grown }, Seq::empty())
        } else if c == '\\' {
            (Scan { escaped: true, ..grown }, Seq::empty())
        } else if c == '"' {
            (
                Scan { context: Context::Between, current: Seq::empty(), key: st.current, ..st },
                quoted(theme, theme.styled_key(st.current)),
            )
        } else {
            (grown, Seq::empty())
        },
        Context::ValueString => if st.escaped {
            (Scan { escaped: false, ..grown }, Seq::empty())
        } else if c == '\\' {
            (Scan { escaped: true, ..grown }, Seq::empty())
        } else if c == '"' {
            (
                Scan {
                    context: Context::Between,
                    current: Seq::empty(),
                    key: Seq::empty(),
                    ..st
                },
                quoted(theme, theme.styled_value(st.key, st.current)),
            )
        } else {
            (grown, Seq::empty())
        },
        Context::ValueNumber => if c == ',' || c == '}' {
            (
                Scan {
                    context: Context::Between,
                    current: Seq::empty(),
                    key: Seq::empty(),
                    ..st
                },
                theme.styled_value(st.key, st.current) + theme.highlight.styled(seq![c]),
            )
        } else {
            (grown, Seq::empty())
        },
        Context::ValueArray => if c == ']' {
            (
                Scan { context: Context::Between, current: Seq::empty(), ..st },
                theme.dim.styled(st.current) + theme.highlight.styled(seq![c]),
            )
        } else if c == ',' {
            (
                Scan { current: Seq::empty(), ..st },
                theme.dim.styled(st.current) + theme.highlight.styled(seq![c]),
            )
        } else {
            (grown, Seq::empty())
        },
    }
}

/// Reading `s` from the initial state: the state reached, and what was written.
pub open spec fn run<S: Styler>(theme: &Theme<S>, s: Seq<char>) -> (Scan, Seq<char>)
    decreases s.len(),
{
    if s.len() == 0 {
        (initial(), Seq::empty())
    } else {
        let before = run(theme, s.drop_last());
        let after = step(theme, before.0, s.last());
        (after.0, before.1 + after.1)
    }
}

/// What is written at the end of the line for a token still pending, so that
/// no character of the line is lost.
pub open spec fn flush<S: Styler>(theme: &Theme<S>, st: Scan) -> Seq<char> {
    match st.context {
        Context::Key => theme.dim.styled(seq!['"']) + theme.styled_key(st.current),
        Context::ValueString => theme.dim.styled(seq!['"']) + theme.styled_value(
            st.key,
            st.current,
        ),
        Context::ValueNumber => theme.styled_value(st.key, st.current),
        Context::ValueArray => theme.dim.styled(st.current),
        _ => Seq::empty(),
    }
}

/// The highlighted form of a line.
pub open spec fn highlighted<S: Styler>(theme: &Theme<S>, line: Seq<char>) -> Seq<char> {
    run(theme, line).1 + flush(theme, run(theme, line).0)
}

/// The scan state of one line.
pub struct State {
    current: String,
    current_key: String,
    context: Context,
    escaped: bool,
}

impl View for State {
    type V = Scan;

    closed spec fn view(&self) -> Scan {
        Scan {
            context: self.context,
            current: self.current@,
            key: self.current_key@,
            escaped: self.escaped,
        }
    }
}

fn char_text(c: char) -> (r: String)
    ensures
        r@ == seq![c],
{
    let mut s = String::new();
    push_char(&mut s, c);
    s
}

fn write_quoted_end<S: Styler>(theme: &Theme<S>, out: &mut String)
    ensures
        final(out)@ == old(out)@ + theme.dim.styled(seq!['"']),
{
    theme.write_dimmed(char_text('"').as_str(), out);
}

impl State {
    pub fn new() -> (r: State)
        ensures
            r@ == initial(),
    {
        State {
            current: String::new(),
            current_key: String::new(),
            context: Context::Between,
            escaped: false,
        }
    }

    fn grow(&mut self, ch: char)
        ensures
            final(self)@ == (Scan { current: old(self)@.current.push(ch), ..old(self)@ }),
    {
        push_char(&mut self.current, ch);
    }

    /// Takes the token out, leaving it empty.
    fn take_token(&mut self) -> (r: String)
        ensures
            r@ == old(self)@.current,
            final(self)@ == (Scan { current: Seq::empty(), ..old(self)@ }),
    {
        let mut token = String::new();
        std::mem::swap(&mut token, &mut self.current);
        token
    }

    fn advance<S: Styler>(&mut self, theme: &Theme<S>, ch: char, out: &mut String)
        ensures
            final(self)@ == step(theme, old(self)@, ch).0,
            final(out)@ == old(out)@ + step(theme, old(self)@, ch).1,
    {
        let ghost start = out@;
        match self.context {
            Context::Between => {
                if ch == '{' || ch == '}' || ch == ',' {
                    theme.write_highlighted(char_text(ch).as_str(), out);
                } else if ch == '"' {
                    self.context = Context::Key;
                    assert(out@ =~= start + Seq::<char>::empty());
                } else if ch == ':' {
                    push_char(out, ':');
                    self.context = Context::Value;
                } else {
                    push_char(out, ch);
                }
            },
            Context::Value => {
                if ch == '"' {
                    self.context = Context::ValueString;
                    assert(out@ =~= start + Seq::<char>::empty());
                } else if ('0' <= ch && ch <= '9') || ('a' <= ch && ch <= 'z') {
                    self.grow(ch);
                    self.context = Context::ValueNumber;
                    assert(out@ =~= start + Seq::<char>::empty());
                } else if ch == '{' {
                    theme.write_highlighted(char_text(ch).as_str(), out);
                    self.context = Context::Between;
                } else if ch == '[' {
                    theme.write_highlighted(char_text(ch).as_str(), out);
                    self.context = Context::ValueArray;
                } else {
                    push_char(out, ch);
                }
            },
            Context::Key => {
                if self.escaped {
                    self.escaped = false;
                    self.grow(ch);
                    assert(out@ =~= start + Seq::<char>::empty());
                } else if ch == '\\' {
                    self.escaped = true;
                    self.grow(ch);
                    assert(out@ =~= start + Seq::<char>::empty());
                } else if ch == '"' {
                    write_quoted_end(theme, out);
                    let token = self.take_token();
                    theme.write_key(token.as_str(), out);
                    write_quoted_end(theme, out);
                    self.current_key = token;
                    self.context = Context::Between;
                    assert(out@ =~= start + quoted(theme, theme.styled_key(token@)));
                } else {
                    self.grow(ch);
                    assert(out@ =~= start + Seq::<char>::empty());
                }
            },
            Context::ValueString => {
                if self.escaped {
                    self.escaped = false;
                    self.grow(ch);
                    assert(out@ =~= start + Seq::<char>::empty());
                } else if ch == '\\' {
                    self.escaped = true;
                    self.grow(ch);
                    assert(out@ =~= start + Seq::<char>::empty());
                } else if ch == '"' {
                    write_quoted_end(theme, out);
                    theme.write_value(self.current_key.as_str(), self.current.as_str(), out);
                    write_quoted_end(theme, out);
                    assert(out@ =~= start + quoted(
                        theme,
                        theme.styled_value(self.current_key@, self.current@),
                    ));
                    self.current = String::new();
                    self.current_key = String::new();
                    self.context = Context::Between;
                } else {
                    self.grow(ch);
                    assert(out@ =~= start + Seq::<char>::empty());
                }
            },
            Context::ValueNumber => {
                if ch == ',' || ch == '}' {
                    theme.write_value(self.current_key.as_str(), self.current.as_str(), out);
                    theme.write_highlighted(char_text(ch).as_str(), out);
                    self.current = String::new();
                    self.current_key = String::new();
                    self.context = Context::Between;
                } else {
                    self.grow(ch);
                    assert(out@ =~= start + Seq::<char>::empty());
                }
            },
            Context::ValueArray => {
                if ch == ']' || ch == ',' {
                    theme.write_dimmed(self.current.as_str(), out);
                    theme.write_highlighted(char_text(ch).as_str(), out);
                    self.current = String::new();
                    if ch == ']' {
                        self.context = Context::Between;
                    }
                } else {
                    self.grow(ch);
                    assert(out@ =~= start + Seq::<char>::empty());
                }
            },
        }
    }

    /// Writes the token still pending at the end of the line.
    fn finish<S: Styler>(self, theme: &Theme<S>, out: &mut String)
        ensures
            final(out)@ == old(out)@ + flush(theme, self@),
    {
        let ghost start = out@;
        match self.context {
            Context::Key => {
                write_quoted_end(theme, out);
                theme.write_key(self.current.as_str(), out);
            },
            Context::ValueString => {
                write_quoted_end(theme, out);
                theme.write_value(self.current_key.as_str(), self.current.as_str(), out);
            },
            Context::ValueNumber => {
                theme.write_value(self.current_key.as_str(), self.current.as_str(), out);
            },
            Context::ValueArray => {
                theme.write_dimmed(self.current.as_str(), out);
            },
            _ => {
                assert(out@ =~= start + Seq::<char>::empty());
            },
        }
    }
}

/// Appends the highlighted form of `line` to `out`.
pub fn enhance<S: Styler>(theme: &Theme<S>, line: &str, out: &mut String)
    ensures
        final(out)@ == old(out)@ + highlighted(theme, line@),
{
    let ghost start = out@;
    let ghost s = line@;
    let mut state = State::new();
    for ch in it: line.chars()
        invariant
            it.seq() == s,
            state@ == run(theme, s.take(it.index() as int)).0,
            out@ == start + run(theme, s.take(it.index() as int)).1,
    {
        let ghost k = it.index() as int;
        proof {
            assert(s.take(k + 1).drop_last() =~= s.take(k));
            assert(s.take(k + 1).last() == ch);
        }
        state.advance(theme, ch, out);
        assert(out@ =~= start + run(theme, s.take(k + 1)).1);
    }
    assert(s.take(s.len() as int) =~= s);
    state.finish(theme, out);
    assert(out@ =~= start + highlighted(theme, s));
}

/// The characters of the line that the scan holds and has not written yet.
pub open spec fn pending(st: Scan) -> Seq<char> {
    match st.context {
        Context::Key | Context::ValueString => seq!['"'] + st.current,
        Context::ValueNumber | Context::ValueArray => st.current,
        _ => Seq::empty(),
    }
}

/// What holds of every state that the scan reaches on a line without escapes.
pub open spec fn sound(st: Scan) -> bool {
    &&& plain(st.current)
    &&& plain(st.key)
    &&& (st.context == Context::Between || st.context == Context::Value) ==> st.current.len() == 0
}

proof fn lemma_plain_push(s: Seq<char>, c: char)
    requires
        plain(s),
        c != esc_char(),
    ensures
        plain(s.push(c)),
{
    assert forall|i: int| 0 <= i < s.push(c).len() implies s.push(c)[i] != esc_char() by {
        if i < s.len() {
            assert(s.push(c)[i] == s[i]);
        }
    }
}

proof fn lemma_styled_char(style: Style, c: char)
    requires
        c != esc_char(),
    ensures
        clean(style.styled(seq![c]), seq![c]),
{
    lemma_style_clean(style, seq![c]);
}

proof fn lemma_quoted_clean(theme: &Theme<Style>, style: Style, inner: Seq<char>)
    requires
        plain(inner),
    ensures
        clean(
            theme.dim.styled(seq!['"']) + style.styled(inner) + theme.dim.styled(seq!['"']),
            seq!['"'] + inner + seq!['"'],
        ),
{
    lemma_styled_char(theme.dim, '"');
    lemma_style_clean(style, inner);
    lemma_clean_concat(theme.dim.styled(seq!['"']), seq!['"'], style.styled(inner), inner);
    lemma_clean_concat(
        theme.dim.styled(seq!['"']) + style.styled(inner),
        seq!['"'] + inner,
        theme.dim.styled(seq!['"']),
        seq!['"'],
    );
}

/// One step writes, without its codes, what it takes out of the pending characters.
proof fn lemma_step_clean(theme: &Theme<Style>, st: Scan, c: char) -> (text: Seq<char>)
    requires
        sound(st),
        c != esc_char(),
    ensures
        sound(step(theme, st, c).0),
        clean(step(theme, st, c).1, text),
        text + pending(step(theme, st, c).0) == pending(st).push(c),
{
    let next = step(theme, st, c).0;
    let o = step(theme, st, c).1;
    let e = Seq::<char>::empty();
    lemma_plain_push(st.current, c);
    lemma_plain_clean(e);
    lemma_plain_clean(seq![c]);
    assert(plain(seq![c]));
    assert(plain(e));
    match st.context {
        Context::Between => {
            if c == '{' || c == '}' || c == ',' {
                lemma_styled_char(theme.highlight, c);
            }
            if c == '"' {
                assert(e + pending(next) =~= pending(st).push(c));
                e
            } else {
                assert(seq![c] + pending(next) =~= pending(st).push(c));
                seq![c]
            }
        },
        Context::Value => {
            if c == '{' || c == '[' {
                lemma_styled_char(theme.highlight, c);
            }
            if c == '"' || is_scalar_start(c) {
                assert(e + pending(next) =~= pending(st).push(c));
                e
            } else {
                assert(seq![c] + pending(next) =~= pending(st).push(c));
                seq![c]
            }
        },
        Context::Key | Context::ValueString => {
            if !st.escaped && c == '"' {
                let style = if st.context == Context::Key {
                    theme.key_style(st.current)
                } else {
                    theme.value_style(st.key, st.current)
                };
                lemma_quoted_clean(theme, style, st.current);
                let t = seq!['"'] + st.current + seq!['"'];
                assert(t + pending(next) =~= pending(st).push(c));
                t
            } else {
                assert(e + pending(next) =~= pending(st).push(c));
                e
            }
        },
        Context::ValueNumber => {
            if c == ',' || c == '}' {
                let style = theme.value_style(st.key, st.current);
                lemma_style_clean(style, st.current);
                lemma_styled_char(theme.highlight, c);
                lemma_clean_concat(
                    style.styled(st.current),
                    st.current,
                    theme.highlight.styled(seq![c]),
                    seq![c],
                );
                let t = st.current + seq![c];
                assert(t + pending(next) =~= pending(st).push(c));
                t
            } else {
                assert(e + pending(next) =~= pending(st).push(c));
                e
            }
        },
        Context::ValueArray => {
            if c == ',' || c == ']' {
                lemma_style_clean(theme.dim, st.current);
                lemma_styled_char(theme.highlight, c);
                lemma_clean_concat(
                    theme.dim.styled(st.current),
                    st.current,
                    theme.highlight.styled(seq![c]),
                    seq![c],
                );
                let t = st.current + seq![c];
                assert(t + pending(next) =~= pending(st).push(c));
                t
            } else {
                assert(e + pending(next) =~= pending(st).push(c));
                e
            }
        },
    }
}

proof fn lemma_run_clean(theme: &Theme<Style>, s: Seq<char>)
    requires
        plain(s),
    ensures
        sound(run(theme, s).0),
        clean(run(theme, s).1, strip_ansi(run(theme, s).1)),
        strip_ansi(run(theme, s).1) + pending(run(theme, s).0) == s,
    decreases s.len(),
{
    if s.len() == 0 {
        lemma_plain_clean(Seq::<char>::empty());
        assert(Seq::<char>::empty() + Seq::<char>::empty() =~= s);
    } else {
        let prev = s.drop_last();
        let c = s.last();
        assert(plain(prev));
        lemma_run_clean(theme, prev);
        let before = run(theme, prev);
        let t = lemma_step_clean(theme, before.0, c);
        let x = strip_ansi(before.1);
        lemma_clean_concat(before.1, x, step(theme, before.0, c).1, t);
        assert(prev.push(c) =~= s);
        assert(x + (pending(before.0).push(c)) =~= (x + pending(before.0)).push(c));
        assert(x + t + pending(run(theme, s).0) =~= x + (t + pending(run(theme, s).0)));
    }
}

/// Taking the ANSI codes out of a highlighted line gives the line back, for
/// every line without escape characters of its own: no character is lost,
/// doubled or moved.
pub proof fn lemma_strip_highlighted(theme: &Theme<Style>, line: Seq<char>)
    requires
        plain(line),
    ensures
        strip_ansi(highlighted(theme, line)) == line,
{
    lemma_run_clean(theme, line);
    let r = run(theme, line);
    let x = strip_ansi(r.1);
    let p = pending(r.0);
    let e = Seq::<char>::empty();
    match r.0.context {
        Context::Key => {
            lemma_quoted_clean(theme, theme.key_style(r.0.current), r.0.current);
            lemma_styled_char(theme.dim, '"');
            lemma_style_clean(theme.key_style(r.0.current), r.0.current);
            lemma_clean_concat(
                theme.dim.styled(seq!['"']),
                seq!['"'],
                theme.styled_key(r.0.current),
                r.0.current,
            );
        },
        Context::ValueString => {
            lemma_styled_char(theme.dim, '"');
            lemma_style_clean(theme.value_style(r.0.key, r.0.current), r.0.current);
            lemma_clean_concat(
                theme.dim.styled(seq!['"']),
                seq!['"'],
                theme.styled_value(r.0.key, r.0.current),
                r.0.current,
            );
        },
        Context::ValueNumber => {
            lemma_style_clean(theme.value_style(r.0.key, r.0.current), r.0.current);
        },
        Context::ValueArray => {
            lemma_style_clean(theme.dim, r.0.current);
        },
        _ => {
            lemma_plain_clean(e);
            assert(p =~= e);
        },
    }
    lemma_clean_concat(r.1, x, flush(theme, r.0), p);
}

/// The scan holds a token that will be written styled.
pub open spec fn holding(st: Scan) -> bool {
    st.context == Context::Key || st.context == Context::ValueString || st.context
        == Context::ValueNumber || st.context == Context::ValueArray
}

pub open spec fn has_brace(s: Seq<char>) -> bool {
    exists|i: int| 0 <= i < s.len() && s[i] == '{'
}

proof fn lemma_step_marks(theme: &Theme<Style>, st: Scan, c: char)
    requires
        holding(st) || c == '{',
    ensures
        !plain(step(theme, st, c).1) || holding(step(theme, st, c).0),
{
    let dq = theme.dim.styled(seq!['"']);
    let k = theme.styled_key(st.current);
    let v = theme.styled_value(st.key, st.current);
    let d = theme.dim.styled(st.current);
    let h = theme.highlight.styled(seq![c]);
    lemma_style_marked(theme.highlight, seq![c]);
    lemma_style_marked(theme.dim, seq!['"']);
    lemma_marked_concat(dq, k);
    lemma_marked_concat(dq + k, dq);
    lemma_marked_concat(dq, v);
    lemma_marked_concat(dq + v, dq);
    lemma_marked_concat(v, h);
    lemma_marked_concat(d, h);
}

proof fn lemma_run_marks(theme: &Theme<Style>, s: Seq<char>)
    requires
        has_brace(s),
    ensures
        !plain(run(theme, s).1) || holding(run(theme, s).0),
    decreases s.len(),
{
    let prev = s.drop_last();
    let c = s.last();
    let before = run(theme, prev);
    if has_brace(prev) {
        lemma_run_marks(theme, prev);
        if holding(before.0) {
            lemma_step_marks(theme, before.0, c);
        }
    } else {
        let i = choose|i: int| 0 <= i < s.len() && s[i] == '{';
        if i < s.len() - 1 {
            assert(prev[i] == '{');
        }
        lemma_step_marks(theme, before.0, c);
    }
    lemma_marked_concat(before.1, step(theme, before.0, c).1);
}

/// Highlighting never shortens a line without escapes of its own, and
/// lengthens every one that holds a `{` (so every line taken as JSON).
pub proof fn lemma_highlighted_len(theme: &Theme<Style>, line: Seq<char>)
    requires
        plain(line),
    ensures
        highlighted(theme, line).len() >= line.len(),
        has_brace(line) ==> highlighted(theme, line).len() > line.len(),
{
    let out = highlighted(theme, line);
    lemma_strip_highlighted(theme, line);
    lemma_strip_len(out, false);
    if has_brace(line) {
        lemma_run_marks(theme, line);
        let r = run(theme, line);
        let dq = theme.dim.styled(seq!['"']);
        lemma_style_marked(theme.dim, seq!['"']);
        lemma_style_marked(theme.value_style(r.0.key, r.0.current), r.0.current);
        lemma_style_marked(theme.dim, r.0.current);
        lemma_marked_concat(dq, theme.styled_key(r.0.current));
        lemma_marked_concat(dq, theme.styled_value(r.0.key, r.0.current));
        lemma_marked_concat(r.1, flush(theme, r.0));
    }
}

} // verus!

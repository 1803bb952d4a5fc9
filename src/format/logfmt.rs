//! Highlighting of logfmt lines: `key=value` pairs separated by spaces, where
//! a value may be double-quoted to hold spaces.
use vstd::prelude::*;

use crate::styling::ansi::{
    clean, esc_char, lemma_clean_concat, lemma_marked_concat, lemma_plain_clean, lemma_strip_len,
    plain, strip_ansi,
};
use crate::styling::style::{lemma_style_clean, lemma_style_marked, Style, Styler};
use crate::styling::theme::Theme;
use crate::text::push_char;

verus! {

#[derive(Clone, Copy, PartialEq, Eq, Debug, Structural)]
pub enum Context {
    Key,
    Value,
}

/// The scan state as values: `current` is the token being read, `key` the
/// key of the value being read, `escaped` whether the last character was a
/// backslash that still waits for its partner, `quoted` whether the scan is
/// inside double quotes.
pub struct Scan {
    pub context: Context,
    pub current: Seq<char>,
    pub key: Seq<char>,
    pub escaped: bool,
    pub quoted: bool,
}

pub open spec fn initial() -> Scan {
    Scan {
        context: Context::Key,
        current: Seq::empty(),
        key: Seq::empty(),
        escaped: false,
        quoted: false,
    }
}

/// Reading one character: the next state, and what is written for it.
pub open spec fn step<S: Styler>(theme: &Theme<S>, st: Scan, c: char) -> (Scan, Seq<char>) {
    let grown = Scan { current: st.current.push(c), ..st };
    match st.context {
        Context::Key => if c == '=' {
            (
                Scan { context: Context::Value, current: Seq::empty(), key: st.current, ..st },
                theme.styled_key(st.current) + seq!['='],
            )
        } else {
            (grown, Seq::empty())
        },
        Context::Value => if st.escaped {
            (Scan { escaped: false, ..grown }, Seq::empty())
        } else if c == '\\' {
            (Scan { escaped: true, ..grown }, Seq::empty())
        } else if c == '"' {
            (Scan { quoted: !st.quoted, ..grown }, Seq::empty())
        } else if c == ' ' && !st.quoted {
            (
                Scan { context: Context::Key, current: Seq::empty(), key: Seq::empty(), ..st },
                theme.styled_value(st.key, st.current) + seq![' '],
            )
        } else {
            (grown, Seq::empty())
        },
    }
}

/// Reading `s` from the initial state: the state reached, and what was written.
pub open spec fn run<S: Styler>(theme: &Theme<S>, s: Seq<char>) -> (Scan, Seq<char>)
    decreases s.len(),
{
    if s.len() == 0 {
        (initial(), Seq::empty())
    } else {
        let before = run(theme, s.drop_last());
        let after = step(theme, before.0, s.last());
        (after.0, before.1 + after.1)
    }
}

/// The last value has no space after it: it is written at the end of the line.
pub open spec fn flush<S: Styler>(theme: &Theme<S>, st: Scan) -> Seq<char> {
    theme.styled_value(st.key, st.current)
}

/// The highlighted form of a line.
pub open spec fn highlighted<S: Styler>(theme: &Theme<S>, line: Seq<char>) -> Seq<char> {
    run(theme, line).1 + flush(theme, run(theme, line).0)
}

struct State {
    current: String,
    current_key: String,
    context: Context,
    escaped: bool,
    quoted: bool,
}

impl View for State {
    type V = Scan;

    closed spec fn view(&self) -> Scan {
        Scan {
            context: self.context,
            current: self.current@,
            key: self.current_key@,
            escaped: self.escaped,
            quoted: self.quoted,
        }
    }
}

impl State {
    fn new() -> (r: State)
        ensures
            r@ == initial(),
    {
        State {
            current: String::new(),
            current_key: String::new(),
            context: Context::Key,
            escaped: false,
            quoted: false,
        }
    }

    fn advance<S: Styler>(&mut self, theme: &Theme<S>, ch: char, out: &mut String)
        ensures
            final(self)@ == step(theme, old(self)@, ch).0,
            final(out)@ == old(out)@ + step(theme, old(self)@, ch).1,
    {
        let ghost start = out@;
        match self.context {
            Context::Key => {
                if ch == '=' {
                    theme.write_key(self.current.as_str(), out);
                    push_char(out, '=');
                    std::mem::swap(&mut self.current_key, &mut self.current);
                    self.current = String::new();
                    self.context = Context::Value;
                } else {
                    push_char(&mut self.current, ch);
                    assert(out@ =~= start + Seq::<char>::empty());
                }
            },
            Context::Value => {
                if self.escaped {
                    self.escaped = false;
                    push_char(&mut self.current, ch);
                    assert(out@ =~= start + Seq::<char>::empty());
                } else if ch == '\\' {
                    self.escaped = true;
                    push_char(&mut self.current, ch);
                    assert(out@ =~= start + Seq::<char>::empty());
                } else if ch == '"' {
                    self.quoted = !self.quoted;
                    push_char(&mut self.current, ch);
                    assert(out@ =~= start + Seq::<char>::empty());
                } else if ch == ' ' && !self.quoted {
                    theme.write_value(self.current_key.as_str(), self.current.as_str(), out);
                    push_char(out, ' ');
                    self.current = String::new();
                    self.current_key = String::new();
                    self.context = Context::Key;
                } else {
                    push_char(&mut self.current, ch);
                    assert(out@ =~= start + Seq::<char>::empty());
                }
            },
        }
    }
}

/// Appends the highlighted form of `line` to `out`.
pub fn enhance<S: Styler>(theme: &Theme<S>, line: &str, out: &mut String)
    ensures
        final(out)@ == old(out)@ + highlighted(theme, line@),
{
    let ghost start = out@;
    let ghost s = line@;
    let mut state = State::new();
    for ch in it: line.chars()
        invariant
            it.seq() == s,
            state@ == run(theme, s.take(it.index() as int)).0,
            out@ == start + run(theme, s.take(it.index() as int)).1,
    {
        let ghost k = it.index() as int;
        proof {
            assert(s.take(k + 1).drop_last() =~= s.take(k));
            assert(s.take(k + 1).last() == ch);
        }
        state.advance(theme, ch, out);
        assert(out@ =~= start + run(theme, s.take(k + 1)).1);
    }
    assert(s.take(s.len() as int) =~= s);
    theme.write_value(state.current_key.as_str(), state.current.as_str(), out);
    assert(out@ =~= start + highlighted(theme, s));
}

/// What holds of every state that the scan reaches on a line without escapes.
pub open spec fn sound(st: Scan) -> bool {
    plain(st.current) && plain(st.key)
}

/// One step writes, without its codes, what it takes out of the pending token.
proof fn lemma_step_clean(theme: &Theme<Style>, st: Scan, c: char) -> (text: Seq<char>)
    requires
        sound(st),
        c != esc_char(),
    ensures
        sound(step(theme, st, c).0),
        clean(step(theme, st, c).1, text),
        text + step(theme, st, c).0.current == st.current.push(c),
{
    let next = step(theme, st, c).0;
    let e = Seq::<char>::empty();
    assert forall|i: int| 0 <= i < st.current.push(c).len() implies st.current.push(c)[i]
        != esc_char() by {
        if i < st.current.len() {
            assert(st.current.push(c)[i] == st.current[i]);
        }
    }
    lemma_plain_clean(e);
    lemma_plain_clean(seq![c]);
    assert(plain(seq![c]));
    let style = if st.context == Context::Key {
        theme.key_style(st.current)
    } else {
        theme.value_style(st.key, st.current)
    };
    let ends = (st.context == Context::Key && c == '=') || (st.context == Context::Value
        && !st.escaped && c == ' ' && !st.quoted);
    if ends {
        lemma_style_clean(style, st.current);
        lemma_clean_concat(style.styled(st.current), st.current, seq![c], seq![c]);
        let t = st.current + seq![c];
        assert(t + next.current =~= st.current.push(c));
        t
    } else {
        assert(e + next.current =~= st.current.push(c));
        e
    }
}

proof fn lemma_run_clean(theme: &Theme<Style>, s: Seq<char>)
    requires
        plain(s),
    ensures
        sound(run(theme, s).0),
        clean(run(theme, s).1, strip_ansi(run(theme, s).1)),
        strip_ansi(run(theme, s).1) + run(theme, s).0.current == s,
    decreases s.len(),
{
    if s.len() == 0 {
        lemma_plain_clean(Seq::<char>::empty());
        assert(Seq::<char>::empty() + Seq::<char>::empty() =~= s);
    } else {
        let prev = s.drop_last();
        let c = s.last();
        assert(plain(prev));
        lemma_run_clean(theme, prev);
        let before = run(theme, prev);
        let t = lemma_step_clean(theme, before.0, c);
        let x = strip_ansi(before.1);
        lemma_clean_concat(before.1, x, step(theme, before.0, c).1, t);
        assert(prev.push(c) =~= s);
        assert(x + (before.0.current.push(c)) =~= (x + before.0.current).push(c));
        assert(x + t + run(theme, s).0.current =~= x + (t + run(theme, s).0.current));
    }
}

/// Taking the ANSI codes out of a highlighted line gives the line back, for
/// every line without escape characters of its own: no character is lost,
/// doubled or moved.
pub proof fn lemma_strip_highlighted(theme: &Theme<Style>, line: Seq<char>)
    requires
        plain(line),
    ensures
        strip_ansi(highlighted(theme, line)) == line,
{
    lemma_run_clean(theme, line);
    let r = run(theme, line);
    lemma_style_clean(theme.value_style(r.0.key, r.0.current), r.0.current);
    lemma_clean_concat(r.1, strip_ansi(r.1), flush(theme, r.0), r.0.current);
}

/// The highlighted form of a line without escapes of its own is longer than
/// the line: the last value is always written styled.
pub proof fn lemma_highlighted_len(theme: &Theme<Style>, line: Seq<char>)
    requires
        plain(line),
    ensures
        highlighted(theme, line).len() > line.len(),
{
    let out = highlighted(theme, line);
    let r = run(theme, line);
    lemma_strip_highlighted(theme, line);
    lemma_style_marked(theme.value_style(r.0.key, r.0.current), r.0.current);
    lemma_marked_concat(r.1, flush(theme, r.0));
    lemma_strip_len(out, false);
}

} // verus!

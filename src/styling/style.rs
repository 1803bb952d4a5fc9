use vstd::prelude::*;

use super::ansi::{
    clean, decimal, digit, esc_char, lemma_clean_concat, lemma_decimal_digits, lemma_plain_clean,
    lemma_sgr_clean, plain, sgr,
};
use crate::text::{push_char, push_text};

verus! {

/// Something that wraps a text in rendering marks.
pub trait Styler {
    /// The characters that `write` appends for `text`.
    spec fn styled(&self, text: Seq<char>) -> Seq<char>;

    fn write(&self, text: &str, out: &mut String)
        ensures
            final(out)@ == old(out)@ + self.styled(text@),
    ;
}

/// A foreground color in one of the three ANSI encodings.
#[derive(Clone, Copy, Debug, PartialEq, Eq, Structural)]
pub enum AnsiColor {
    /// 24-bit color: `38;2;r;g;b`.
    Rgb(u8, u8, u8),
    /// One of the 16 basic colors, by its code (`30` to `37`).
    Color16(u8),
    /// An entry of the 256-color palette: `38;5;n`.
    Color256(u8),
}

/// The parameters of the code that selects `color`.
pub open spec fn color_params(color: AnsiColor) -> Seq<char> {
    match color {
        AnsiColor::Rgb(r, g, b) => seq!['3', '8', ';', '2', ';'] + decimal(r as nat) + seq![';']
            + decimal(g as nat) + seq![';'] + decimal(b as nat),
        AnsiColor::Color16(code) => decimal(code as nat),
        AnsiColor::Color256(code) => seq!['3', '8', ';', '5', ';'] + decimal(code as nat),
    }
}

/// Terminal rendering of a text: bold or not, with an optional foreground color.
#[derive(Clone, Copy, Debug, PartialEq, Eq, Structural)]
pub struct Style {
    pub bold: bool,
    pub color: Option<AnsiColor>,
}

/// A style with neither bold nor color.
pub open spec fn style_unset() -> Style {
    Style { bold: false, color: None }
}

impl Style {
    /// The bold code if set, then the color code if any, the text, and the reset code.
    pub open spec fn ansi(&self, text: Seq<char>) -> Seq<char> {
        (if self.bold {
            sgr(seq!['1'])
        } else {
            Seq::empty()
        }) + match self.color {
            Some(c) => sgr(color_params(c)),
            None => Seq::empty(),
        } + text + sgr(seq!['0'])
    }

    /// Appends `text` to `out`, wrapped in this style's codes.
    pub fn write(&self, text: &str, out: &mut String)
        ensures
            final(out)@ == old(out)@ + self.ansi(text@),
    {
        let ghost start = out@;
        let ghost lead: Seq<char> = if self.bold {
            sgr(seq!['1'])
        } else {
            Seq::empty()
        };
        if self.bold {
            push_sgr_start(out);
            push_char(out, '1');
            push_char(out, 'm');
            assert(out@ =~= start + lead);
        } else {
            assert(out@ =~= start + lead);
        }
        let ghost colored: Seq<char> = match self.color {
            Some(c) => sgr(color_params(c)),
            None => Seq::empty(),
        };
        match self.color {
            Some(c) => {
                let ghost before = out@;
                push_sgr_start(out);
                push_color_params(out, c);
                push_char(out, 'm');
                assert(out@ =~= before + colored);
            },
            None => {
                assert(out@ =~= start + lead + colored);
            },
        }
        let ghost before = out@;
        push_text(out, text);
        push_sgr_start(out);
        push_char(out, '0');
        push_char(out, 'm');
        assert(out@ =~= before + text@ + sgr(seq!['0']));
        assert(out@ =~= start + self.ansi(text@));
    }
}

impl Styler for Style {
    open spec fn styled(&self, text: Seq<char>) -> Seq<char> {
        self.ansi(text)
    }

    fn write(&self, text: &str, out: &mut String) {
        Style::write(self, text, out)
    }
}

/// A style that writes a fixed mark in front of the text and nothing after
/// it, for output that is read as plain text.
pub struct Label {
    pub mark: String,
}

impl Label {
    pub fn new(mark: &str) -> (r: Label)
        ensures
            r.mark@ == mark@,
    {
        Label { mark: mark.to_owned() }
    }
}

impl Styler for Label {
    open spec fn styled(&self, text: Seq<char>) -> Seq<char> {
        self.mark@ + text
    }

    fn write(&self, text: &str, out: &mut String) {
        let ghost start = out@;
        push_text(out, self.mark.as_str());
        push_text(out, text);
        assert(out@ =~= start + self.mark@ + text@);
    }
}

/// Builds a `Style` one attribute at a time.
pub struct StyleBuilder {
    style: Style,
}

impl View for StyleBuilder {
    type V = Style;

    closed spec fn view(&self) -> Style {
        self.style
    }
}

impl StyleBuilder {
    /// A builder for a style with neither bold nor color.
    pub fn new() -> (r: StyleBuilder)
        ensures
            r@ == style_unset(),
    {
        StyleBuilder { style: Style { bold: false, color: None } }
    }

    pub fn build(self) -> (r: Style)
        ensures
            r == self@,
    {
        self.style
    }

    pub fn bold(self) -> (r: StyleBuilder)
        ensures
            r@ == (Style { bold: true, ..self@ }),
    {
        let mut b = self;
        b.style.bold = true;
        b
    }

    pub fn color_black(self) -> (r: StyleBuilder)
        ensures
            r@ == (Style { color: Some(AnsiColor::Color16(30)), ..self@ }),
    {
        self.with_color(AnsiColor::Color16(30))
    }

    pub fn color_red(self) -> (r: StyleBuilder)
        ensures
            r@ == (Style { color: Some(AnsiColor::Color16(31)), ..self@ }),
    {
        self.with_color(AnsiColor::Color16(31))
    }

    pub fn color_green(self) -> (r: StyleBuilder)
        ensures
            r@ == (Style { color: Some(AnsiColor::Color16(32)), ..self@ }),
    {
        self.with_color(AnsiColor::Color16(32))
    }

    pub fn color_yellow(self) -> (r: StyleBuilder)
        ensures
            r@ == (Style { color: Some(AnsiColor::Color16(33)), ..self@ }),
    {
        self.with_color(AnsiColor::Color16(33))
    }

    pub fn color_blue(self) -> (r: StyleBuilder)
        ensures
            r@ == (Style { color: Some(AnsiColor::Color16(34)), ..self@ }),
    {
        self.with_color(AnsiColor::Color16(34))
    }

    pub fn color_magenta(self) -> (r: StyleBuilder)
        ensures
            r@ == (Style { color: Some(AnsiColor::Color16(35)), ..self@ }),
    {
        self.with_color(AnsiColor::Color16(35))
    }

    pub fn color_cyan(self) -> (r: StyleBuilder)
        ensures
            r@ == (Style { color: Some(AnsiColor::Color16(36)), ..self@ }),
    {
        self.with_color(AnsiColor::Color16(36))
    }

    pub fn color_white(self) -> (r: StyleBuilder)
        ensures
            r@ == (Style { color: Some(AnsiColor::Color16(37)), ..self@ }),
    {
        self.with_color(AnsiColor::Color16(37))
    }

    pub fn color_256(self, color: u8) -> (r: StyleBuilder)
        ensures
            r@ == (Style { color: Some(AnsiColor::Color256(color)), ..self@ }),
    {
        self.with_color(AnsiColor::Color256(color))
    }

    pub fn color_rgb(self, r: u8, g: u8, b: u8) -> (res: StyleBuilder)
        ensures
            res@ == (Style { color: Some(AnsiColor::Rgb(r, g, b)), ..self@ }),
    {
        self.with_color(AnsiColor::Rgb(r, g, b))
    }

    fn with_color(self, color: AnsiColor) -> (r: StyleBuilder)
        ensures
            r@ == (Style { color: Some(color), ..self@ }),
    {
        let mut b = self;
        b.style.color = Some(color);
        b
    }
}

/// No `m` among the characters: a code with these parameters ends at its own `m`.
pub open spec fn no_m(s: Seq<char>) -> bool {
    forall|i: int| 0 <= i < s.len() ==> s[i] != 'm'
}

proof fn lemma_no_m_concat(a: Seq<char>, b: Seq<char>)
    requires
        no_m(a),
        no_m(b),
    ensures
        no_m(a + b),
{
    assert forall|i: int| 0 <= i < (a + b).len() implies (a + b)[i] != 'm' by {
        if i < a.len() {
            assert((a + b)[i] == a[i]);
        } else {
            assert((a + b)[i] == b[i - a.len()]);
        }
    }
}

proof fn lemma_decimal_no_m(n: nat)
    ensures
        no_m(decimal(n)),
{
    lemma_decimal_digits(n);
    assert forall|i: int| 0 <= i < decimal(n).len() implies decimal(n)[i] != 'm' by {
        assert('0' <= decimal(n)[i] <= '9');
    }
}

proof fn lemma_color_params_no_m(color: AnsiColor)
    ensures
        no_m(color_params(color)),
{
    match color {
        AnsiColor::Rgb(r, g, b) => {
            let head = seq!['3', '8', ';', '2', ';'];
            let sep = seq![';'];
            assert(no_m(head));
            assert(no_m(sep));
            lemma_decimal_no_m(r as nat);
            lemma_decimal_no_m(g as nat);
            lemma_decimal_no_m(b as nat);
            lemma_no_m_concat(head, decimal(r as nat));
            lemma_no_m_concat(head + decimal(r as nat), sep);
            lemma_no_m_concat(head + decimal(r as nat) + sep, decimal(g as nat));
            lemma_no_m_concat(head + decimal(r as nat) + sep + decimal(g as nat), sep);
            lemma_no_m_concat(
                head + decimal(r as nat) + sep + decimal(g as nat) + sep,
                decimal(b as nat),
            );
        },
        AnsiColor::Color16(code) => {
            lemma_decimal_no_m(code as nat);
        },
        AnsiColor::Color256(code) => {
            let head = seq!['3', '8', ';', '5', ';'];
            assert(no_m(head));
            lemma_decimal_no_m(code as nat);
            lemma_no_m_concat(head, decimal(code as nat));
        },
    }
}

/// Taking the codes out of a styled text gives the text back.
pub proof fn lemma_style_clean(style: Style, text: Seq<char>)
    requires
        plain(text),
    ensures
        clean(style.ansi(text), text),
{
    let e = Seq::<char>::empty();
    assert(clean(e, e));
    let lead: Seq<char> = if style.bold {
        sgr(seq!['1'])
    } else {
        e
    };
    if style.bold {
        lemma_sgr_clean(seq!['1']);
    }
    let colored: Seq<char> = match style.color {
        Some(c) => sgr(color_params(c)),
        None => e,
    };
    if let Some(c) = style.color {
        lemma_color_params_no_m(c);
        lemma_sgr_clean(color_params(c));
    }
    lemma_plain_clean(text);
    lemma_sgr_clean(seq!['0']);
    lemma_clean_concat(lead, e, colored, e);
    lemma_clean_concat(lead + colored, e + e, text, text);
    lemma_clean_concat(lead + colored + text, e + e + text, sgr(seq!['0']), e);
    assert(e + e + text + e =~= text);
}

/// A styled text always holds a code: at least the reset at its end.
pub proof fn lemma_style_marked(style: Style, text: Seq<char>)
    ensures
        !plain(style.ansi(text)),
{
    let a = style.ansi(text);
    let reset = sgr(seq!['0']);
    assert(a[a.len() - reset.len()] == esc_char());
}

fn push_sgr_start(out: &mut String)
    ensures
        final(out)@ == old(out)@ + seq![esc_char(), '['],
{
    let ghost start = out@;
    push_char(out, '\u{1b}');
    push_char(out, '[');
    assert(out@ =~= start + seq![esc_char(), '[']);
}

fn digit_char(d: u8) -> (c: char)
    requires
        d < 10,
    ensures
        c == digit(d as nat),
{
    if d == 0 {
        '0'
    } else if d == 1 {
        '1'
    } else if d == 2 {
        '2'
    } else if d == 3 {
        '3'
    } else if d == 4 {
        '4'
    } else if d == 5 {
        '5'
    } else if d == 6 {
        '6'
    } else if d == 7 {
        '7'
    } else if d == 8 {
        '8'
    } else {
        '9'
    }
}

/// Appends `n` in decimal.
fn push_decimal(out: &mut String, n: u8)
    ensures
        final(out)@ == old(out)@ + decimal(n as nat),
{
    let ghost start = out@;
    reveal_with_fuel(decimal, 3);
    if n >= 100 {
        push_char(out, digit_char(n / 100));
        assert(decimal((n / 100) as nat) == seq![digit((n / 100) as nat)]);
    }
    if n >= 10 {
        push_char(out, digit_char((n / 10) % 10));
        assert((n / 10) as nat / 10 == (n / 100) as nat);
        assert(decimal((n / 10) as nat) =~= out@.subrange(start.len() as int, out@.len() as int));
    }
    push_char(out, digit_char(n % 10));
    assert(out@ =~= start + decimal(n as nat));
}

fn push_color_params(out: &mut String, color: AnsiColor)
    ensures
        final(out)@ == old(out)@ + color_params(color),
{
    let ghost start = out@;
    match color {
        AnsiColor::Rgb(r, g, b) => {
            push_char(out, '3');
            push_char(out, '8');
            push_char(out, ';');
            push_char(out, '2');
            push_char(out, ';');
            push_decimal(out, r);
            push_char(out, ';');
            push_decimal(out, g);
            push_char(out, ';');
            push_decimal(out, b);
        },
        AnsiColor::Color16(code) => {
            push_decimal(out, code);
        },
        AnsiColor::Color256(code) => {
            push_char(out, '3');
            push_char(out, '8');
            push_char(out, ';');
            push_char(out, '5');
            push_char(out, ';');
            push_decimal(out, code);
        },
    }
    assert(out@ =~= start + color_params(color));
}

} // verus!

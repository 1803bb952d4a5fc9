//! ANSI "select graphic rendition" codes: how they are written, and what is
//! left of a text once they are taken out again.
use vstd::prelude::*;

verus! {

/// The escape character that starts every code.
pub open spec fn esc_char() -> char {
    '\u{1b}'
}

/// The code `ESC [ params m`.
pub open spec fn sgr(params: Seq<char>) -> Seq<char> {
    seq![esc_char(), '['] + params + seq!['m']
}

/// A text with no escape character in it.
pub open spec fn plain(s: Seq<char>) -> bool {
    forall|i: int| 0 <= i < s.len() ==> s[i] != esc_char()
}

/// The ASCII digit for `d` (below ten).
pub open spec fn digit(d: nat) -> char {
    if d == 0 {
        '0'
    } else if d == 1 {
        '1'
    } else if d == 2 {
        '2'
    } else if d == 3 {
        '3'
    } else if d == 4 {
        '4'
    } else if d == 5 {
        '5'
    } else if d == 6 {
        '6'
    } else if d == 7 {
        '7'
    } else if d == 8 {
        '8'
    } else {
        '9'
    }
}

/// `n` in decimal, without leading zeros.
pub open spec fn decimal(n: nat) -> Seq<char>
    decreases n,
{
    if n < 10 {
        seq![digit(n)]
    } else {
        decimal(n / 10).push(digit(n % 10))
    }
}

/// What is left of `s` once every code is taken out, reading from a point
/// that is inside a code (`in_code`) or not. A code runs from the escape
/// character through the first `m` after it.
pub open spec fn strip_from(s: Seq<char>, in_code: bool) -> Seq<char>
    decreases s.len(),
{
    if s.len() == 0 {
        Seq::empty()
    } else if in_code {
        strip_from(s.drop_first(), s[0] != 'm')
    } else if s[0] == esc_char() {
        strip_from(s.drop_first(), true)
    } else {
        seq![s[0]] + strip_from(s.drop_first(), false)
    }
}

/// Whether reading `s` from the point `in_code` ends inside an unfinished code.
pub open spec fn open_after(s: Seq<char>, in_code: bool) -> bool
    decreases s.len(),
{
    if s.len() == 0 {
        in_code
    } else if in_code {
        open_after(s.drop_first(), s[0] != 'm')
    } else {
        open_after(s.drop_first(), s[0] == esc_char())
    }
}

/// `s` with all its ANSI codes taken out.
pub open spec fn strip_ansi(s: Seq<char>) -> Seq<char> {
    strip_from(s, false)
}

/// `piece` holds only whole codes, and `text` is what is left of it without them.
pub open spec fn clean(piece: Seq<char>, text: Seq<char>) -> bool {
    strip_from(piece, false) == text && !open_after(piece, false)
}

pub proof fn lemma_strip_concat(a: Seq<char>, b: Seq<char>, in_code: bool)
    ensures
        strip_from(a + b, in_code) == strip_from(a, in_code) + strip_from(
            b,
            open_after(a, in_code),
        ),
        open_after(a + b, in_code) == open_after(b, open_after(a, in_code)),
    decreases a.len(),
{
    if a.len() == 0 {
        assert(a + b =~= b);
        assert(strip_from(a, in_code) + strip_from(b, in_code) =~= strip_from(b, in_code));
    } else {
        assert((a + b).drop_first() =~= a.drop_first() + b);
        let next = if in_code {
            a[0] != 'm'
        } else {
            a[0] == esc_char()
        };
        lemma_strip_concat(a.drop_first(), b, next);
        if !in_code && a[0] != esc_char() {
            let x = strip_from(a.drop_first(), false);
            let y = strip_from(b, open_after(a.drop_first(), false));
            assert(seq![a[0]] + (x + y) =~= (seq![a[0]] + x) + y);
        }
    }
}

pub proof fn lemma_clean_concat(a: Seq<char>, x: Seq<char>, b: Seq<char>, y: Seq<char>)
    requires
        clean(a, x),
        clean(b, y),
    ensures
        clean(a + b, x + y),
{
    lemma_strip_concat(a, b, false);
}

pub proof fn lemma_plain_clean(s: Seq<char>)
    requires
        plain(s),
    ensures
        clean(s, s),
    decreases s.len(),
{
    if s.len() > 0 {
        assert(plain(s.drop_first()));
        lemma_plain_clean(s.drop_first());
        assert(seq![s[0]] + s.drop_first() =~= s);
    } else {
        assert(strip_from(s, false) =~= s);
    }
}

proof fn lemma_inside_code(p: Seq<char>)
    requires
        forall|i: int| 0 <= i < p.len() ==> p[i] != 'm',
    ensures
        strip_from(p, true) == Seq::<char>::empty(),
        open_after(p, true),
    decreases p.len(),
{
    if p.len() > 0 {
        lemma_inside_code(p.drop_first());
    }
}

/// A code whose parameters hold no `m` leaves nothing once stripped.
pub proof fn lemma_sgr_clean(params: Seq<char>)
    requires
        forall|i: int| 0 <= i < params.len() ==> params[i] != 'm',
    ensures
        clean(sgr(params), Seq::empty()),
{
    let s = sgr(params);
    let tail = seq!['['] + params + seq!['m'];
    let rest = params + seq!['m'];
    let m = seq!['m'];
    assert(s[0] == esc_char());
    assert(s.drop_first() =~= tail);
    assert(tail[0] == '[');
    assert(tail.drop_first() =~= rest);
    lemma_inside_code(params);
    lemma_strip_concat(params, m, true);
    assert(m.drop_first() =~= Seq::<char>::empty());
    assert(m[0] == 'm');
    assert(strip_from(m, true) == strip_from(m.drop_first(), false));
    assert(open_after(m, true) == open_after(m.drop_first(), false));
    assert(strip_from(m, true) =~= Seq::<char>::empty());
    assert(!open_after(m, true));
    assert(strip_from(rest, true) =~= Seq::<char>::empty());
    assert(strip_from(tail, true) == strip_from(rest, true));
    assert(strip_from(s, false) == strip_from(tail, true));
    assert(open_after(tail, true) == open_after(rest, true));
    assert(open_after(s, false) == open_after(tail, true));
}

/// The decimal digits of a number are digits: no `m` and no escape among them.
pub proof fn lemma_decimal_digits(n: nat)
    ensures
        forall|i: int|
            0 <= i < decimal(n).len() ==> '0' <= #[trigger] decimal(n)[i] && decimal(n)[i] <= '9',
    decreases n,
{
    let d = digit(n % 10);
    assert('0' <= d && d <= '9');
    if n >= 10 {
        lemma_decimal_digits(n / 10);
        let prev = decimal(n / 10);
        assert(decimal(n) == prev.push(d));
        assert forall|i: int| 0 <= i < decimal(n).len() implies '0' <= #[trigger] decimal(n)[i]
            && decimal(n)[i] <= '9' by {
            if i < prev.len() {
                assert(decimal(n)[i] == prev[i]);
            }
        }
    } else {
        assert(digit(n) == d);
    }
}

/// Stripping never lengthens a text, and shortens one that holds an escape.
pub proof fn lemma_strip_len(s: Seq<char>, in_code: bool)
    ensures
        strip_from(s, in_code).len() <= s.len(),
        !plain(s) ==> strip_from(s, in_code).len() < s.len(),
    decreases s.len(),
{
    if s.len() > 0 {
        let next = if in_code {
            s[0] != 'm'
        } else {
            s[0] == esc_char()
        };
        lemma_strip_len(s.drop_first(), next);
        if !plain(s) && s[0] != esc_char() {
            let i = choose|i: int| 0 <= i < s.len() && s[i] == esc_char();
            assert(s.drop_first()[i - 1] == esc_char());
        }
    }
}

/// A text that has an escape in one of its parts has one as a whole.
pub proof fn lemma_marked_concat(a: Seq<char>, b: Seq<char>)
    ensures
        !plain(a) ==> !plain(a + b),
        !plain(b) ==> !plain(a + b),
{
    if !plain(a) {
        let i = choose|i: int| 0 <= i < a.len() && a[i] == esc_char();
        assert((a + b)[i] == esc_char());
    }
    if !plain(b) {
        let i = choose|i: int| 0 <= i < b.len() && b[i] == esc_char();
        assert((a + b)[a.len() + i] == esc_char());
    }
}

} // verus!

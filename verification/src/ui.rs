//! Text the dashboard shows: values fitted to a column, and the uptime.

use vstd::prelude::*;
use crate::text::{append_chars, slice_chars, string_from_chars, to_chars};

verus! {

/// `s` fitted into `max` characters: unchanged when it fits, otherwise cut
/// to `max - 1` characters followed by `…` (nothing at all when `max` is 0).
pub open spec fn fit_spec(s: Seq<char>, max: nat) -> Seq<char> {
    if s.len() <= max {
        s
    } else if max == 0 {
        Seq::<char>::empty()
    } else {
        s.take(max - 1).push('…')
    }
}

/// Truncate to at most `max` display characters, marking elision with `…`.
pub fn truncate_fit(s: &str, max: usize) -> (r: String)
    ensures
        r@ == fit_spec(s@, max as nat),
        r@.len() <= max,
{
    let c = to_chars(s);
    if c.len() <= max {
        string_from_chars(&c)
    } else if max == 0 {
        String::new()
    } else {
        let mut kept = slice_chars(&c, 0, max - 1);
        kept.push('…');
        string_from_chars(&kept)
    }
}

/// The spaces between a left and a right text on a row `width` characters
/// wide: what the two leave over, or none when they fill the row.
pub fn pad_between(left: &str, right: &str, width: usize) -> (r: usize)
    ensures
        r as int == if left@.len() + right@.len() >= width {
            0
        } else {
            width - left@.len() - right@.len()
        },
{
    let a = to_chars(left).len();
    let b = to_chars(right).len();
    if a >= width {
        0
    } else if b >= width - a {
        0
    } else {
        width - a - b
    }
}

/// Width of the left half of a two-column document row.
pub const DOC_COLUMN: usize = 42;

/// Width of the label before a document row's left value.
pub const DOC_LABEL: usize = 11;

/// The left value of a document row, fitted so that at least one space is
/// left before the right label, and the spaces that follow it up to the
/// right column.
pub fn doc_left_value(value: &str) -> (r: (String, usize))
    ensures
        r.0@ == fit_spec(value@, (DOC_COLUMN - DOC_LABEL - 1) as nat),
        r.1 == DOC_COLUMN - DOC_LABEL - r.0@.len(),
        r.1 >= 1,
{
    let v = truncate_fit(value, DOC_COLUMN - DOC_LABEL - 1);
    let n = to_chars(v.as_str()).len();
    (v, DOC_COLUMN - DOC_LABEL - n)
}

/// How far a view of `height` rows can scroll over `rows` rows: the rows
/// that do not fit, at most `u16::MAX`.
pub fn max_scroll(rows: usize, height: u16) -> (r: u16)
    ensures
        r as int == if rows <= height {
            0
        } else if rows - height > u16::MAX {
            u16::MAX as int
        } else {
            rows - height
        },
{
    let h = height as usize;
    if rows <= h {
        0
    } else if rows - h > 65535 {
        65535
    } else {
        (rows - h) as u16
    }
}

/// The decimal digit character for `d` (0..=9).
pub open spec fn digit_char(d: int) -> char {
    ((d + 48) as u32) as char
}

/// `n` written in decimal, without leading zeros.
pub open spec fn decimal(n: nat) -> Seq<char>
    decreases n,
{
    if n < 10 {
        seq![digit_char(n as int)]
    } else {
        decimal(n / 10).push(digit_char((n % 10) as int))
    }
}

/// Append `n` in decimal to `out`.
pub fn push_decimal(out: &mut Vec<char>, n: u64)
    ensures
        final(out)@ == old(out)@ + decimal(n as nat),
    decreases n,
{
    if n >= 10 {
        push_decimal(out, n / 10);
    }
    let d: u8 = (n % 10) as u8;
    let c: char = (d + 48) as char;
    assert(c == digit_char((n % 10) as int));
    let ghost before = out@;
    out.push(c);
    if n >= 10 {
        assert(out@ =~= old(out)@ + decimal((n / 10) as nat).push(c));
    } else {
        assert(out@ =~= old(out)@ + seq![c]);
    }
}

/// The uptime text for `s` seconds: `{d}d {h}h {m}m {s}s`, without the day
/// part when under a day.
pub open spec fn uptime_text(s: nat) -> Seq<char> {
    let d = s / 86400;
    let h = (s % 86400) / 3600;
    let m = (s % 3600) / 60;
    let sec = s % 60;
    let days = if d > 0 {
        decimal(d) + seq!['d', ' ']
    } else {
        Seq::<char>::empty()
    };
    days + decimal(h) + seq!['h', ' '] + decimal(m) + seq!['m', ' '] + decimal(sec) + seq!['s']
}

/// Format an uptime in seconds for display, e.g. `7h 58m 41s` or `2d 3h 0m 5s`.
pub fn fmt_uptime(s: u64) -> (r: String)
    ensures
        r@ == uptime_text(s as nat),
{
    let d = s / 86400;
    let h = (s % 86400) / 3600;
    let m = (s % 3600) / 60;
    let sec = s % 60;
    let mut out: Vec<char> = Vec::new();
    if d > 0 {
        push_decimal(&mut out, d);
        out.push('d');
        out.push(' ');
    }
    push_decimal(&mut out, h);
    out.push('h');
    out.push(' ');
    push_decimal(&mut out, m);
    out.push('m');
    out.push(' ');
    push_decimal(&mut out, sec);
    out.push('s');
    assert(out@ =~= uptime_text(s as nat));
    string_from_chars(&out)
}

/// The days, hours, minutes and seconds that `fmt_uptime` shows add back up
/// to the uptime, and each but the days is within its unit.
pub proof fn lemma_uptime_fields(s: nat)
    ensures
        (s / 86400) * 86400 + ((s % 86400) / 3600) * 3600 + ((s % 3600) / 60) * 60 + s % 60 == s,
        (s % 86400) / 3600 < 24,
        (s % 3600) / 60 < 60,
        s % 60 < 60,
{
    let d = s / 86400;
    let r1 = s % 86400;
    let h = r1 / 3600;
    let r2 = r1 % 3600;
    vstd::arithmetic::div_mod::lemma_fundamental_div_mod(s as int, 86400);
    vstd::arithmetic::div_mod::lemma_fundamental_div_mod(r1 as int, 3600);
    vstd::arithmetic::div_mod::lemma_fundamental_div_mod((s % 3600) as int, 60);
    vstd::arithmetic::div_mod::lemma_mod_mod(s as int, 3600, 24);
    assert(r2 == s % 3600) by {
        assert(86400 == 3600 * 24);
    }
    vstd::arithmetic::div_mod::lemma_fundamental_div_mod(r2 as int, 60);
}


/// Fitting keeps a text that fits and otherwise fills the column exactly:
/// its first `max - 1` characters and `…`. Fitting twice changes nothing
/// more, and a wider column never shows less.
pub proof fn lemma_fit(s: Seq<char>, max: nat, wider: nat)
    ensures
        fit_spec(s, max).len() <= max,
        s.len() <= max ==> fit_spec(s, max) == s,
        s.len() > max && max > 0 ==> fit_spec(s, max).len() == max && fit_spec(s, max).last()
            == '…' && forall|i: int| 0 <= i < max - 1 ==> #[trigger] fit_spec(s, max)[i] == s[i],
        max == 0 ==> fit_spec(s, max).len() == 0,
        fit_spec(fit_spec(s, max), max) == fit_spec(s, max),
        max <= wider ==> fit_spec(s, max).len() <= fit_spec(s, wider).len(),
{
}

} // verus!

//! Character-level helpers shared by the parsers: whitespace, splitting into
//! pieces, lines and words, trimming, prefixes and unsigned decimal numbers.
//! Each executable helper is proved against a spec function over `Seq<char>`.

use vstd::prelude::*;

verus! {

/// The Unicode `White_Space` property, which `char::is_whitespace` tests.
pub open spec fn is_ws(c: char) -> bool {
    let u = c as u32;
    ||| 0x9 <= u && u <= 0xD
    ||| u == 0x20
    ||| u == 0x85
    ||| u == 0xA0
    ||| u == 0x1680
    ||| 0x2000 <= u && u <= 0x200A
    ||| u == 0x2028
    ||| u == 0x2029
    ||| u == 0x202F
    ||| u == 0x205F
    ||| u == 0x3000
}

/// Whether `c` is whitespace in the sense of `char::is_whitespace`.
pub fn char_is_ws(c: char) -> (b: bool)
    ensures
        b == is_ws(c),
{
    let u: u32 = c as u32;
    (0x9 <= u && u <= 0xD) || u == 0x20 || u == 0x85 || u == 0xA0 || u == 0x1680 || (0x2000
        <= u && u <= 0x200A) || u == 0x2028 || u == 0x2029 || u == 0x202F || u == 0x205F || u
        == 0x3000
}

/// An ASCII decimal digit.
pub open spec fn is_digit(c: char) -> bool {
    '0' <= c && c <= '9'
}

/// The value of an ASCII decimal digit.
pub open spec fn digit_val(c: char) -> int {
    (c as u32) - ('0' as u32)
}

/// The views of a sequence of character vectors.
pub open spec fn views(v: Seq<Vec<char>>) -> Seq<Seq<char>> {
    v.map_values(|x: Vec<char>| x@)
}

/// `s` begins with `p`.
pub open spec fn has_prefix(s: Seq<char>, p: Seq<char>) -> bool {
    p.len() <= s.len() && s.take(p.len() as int) == p
}

/// The pieces of `s` between occurrences of `sep`, as `str::split` yields
/// them: `n` separators give `n + 1` pieces, and the empty text one empty piece.
pub open spec fn pieces(s: Seq<char>, sep: char) -> Seq<Seq<char>>
    decreases s.len(),
{
    if s.len() == 0 {
        seq![Seq::<char>::empty()]
    } else {
        let p = pieces(s.drop_last(), sep);
        if s.last() == sep {
            p.push(Seq::<char>::empty())
        } else {
            p.update(p.len() - 1, p.last().push(s.last()))
        }
    }
}

/// A line without the carriage return of a `\r\n` ending.
pub open spec fn strip_cr(l: Seq<char>) -> Seq<char> {
    if l.len() > 0 && l.last() == '\r' {
        l.drop_last()
    } else {
        l
    }
}

/// Each of `p` without the carriage return of a `\r\n` ending.
pub open spec fn strip_all(p: Seq<Seq<char>>) -> Seq<Seq<char>> {
    p.map_values(|l: Seq<char>| strip_cr(l))
}

/// The lines of `s`, as `str::lines` yields them: split at `\n`, a `\r`
/// before a `\n` dropped, and no empty line after a final `\n`.
pub open spec fn lines(s: Seq<char>) -> Seq<Seq<char>> {
    let p = pieces(s, '\n');
    let body = strip_all(p.drop_last());
    if p.last().len() > 0 {
        body.push(p.last())
    } else {
        body
    }
}

/// The maximal runs of non-whitespace characters of `s`, in order, as
/// `str::split_whitespace` yields them.
pub open spec fn words(s: Seq<char>) -> Seq<Seq<char>>
    decreases s.len(),
{
    if s.len() == 0 {
        Seq::<Seq<char>>::empty()
    } else {
        let w = words(s.drop_last());
        let c = s.last();
        if is_ws(c) {
            w
        } else if s.len() > 1 && !is_ws(s[s.len() - 2]) {
            w.update(w.len() - 1, w.last().push(c))
        } else {
            w.push(seq![c])
        }
    }
}

/// `s` without leading whitespace.
pub open spec fn trim_start(s: Seq<char>) -> Seq<char>
    decreases s.len(),
{
    if s.len() > 0 && is_ws(s[0]) {
        trim_start(s.drop_first())
    } else {
        s
    }
}

/// `s` without trailing whitespace.
pub open spec fn trim_end(s: Seq<char>) -> Seq<char>
    decreases s.len(),
{
    if s.len() > 0 && is_ws(s.last()) {
        trim_end(s.drop_last())
    } else {
        s
    }
}

/// `s` without leading and trailing whitespace, as `str::trim` gives it.
pub open spec fn trim(s: Seq<char>) -> Seq<char> {
    trim_end(trim_start(s))
}

/// Every character of `s` is a decimal digit.
pub open spec fn all_digits(s: Seq<char>) -> bool {
    forall|i: int| 0 <= i < s.len() ==> is_digit(#[trigger] s[i])
}

/// The number that the decimal digits `s` spell.
pub open spec fn digits_value(s: Seq<char>) -> int
    decreases s.len(),
{
    if s.len() == 0 {
        0
    } else {
        digits_value(s.drop_last()) * 10 + digit_val(s.last())
    }
}

/// `s` without one leading `+`.
pub open spec fn unsigned_digits(s: Seq<char>) -> Seq<char> {
    if s.len() > 0 && s[0] == '+' {
        s.drop_first()
    } else {
        s
    }
}

/// What `str::parse::<u64>` accepts: an optional `+`, then at least one
/// decimal digit, of a value that fits in a `u64`.
pub open spec fn parse_u64_spec(s: Seq<char>) -> Option<u64> {
    let d = unsigned_digits(s);
    if d.len() > 0 && all_digits(d) && digits_value(d) <= u64::MAX {
        Some(digits_value(d) as u64)
    } else {
        None
    }
}

/// `s` has a piece at all times.
pub proof fn lemma_pieces_len(s: Seq<char>, sep: char)
    ensures
        pieces(s, sep).len() >= 1,
    decreases s.len(),
{
    if s.len() > 0 {
        lemma_pieces_len(s.drop_last(), sep);
    }
}

/// A text that ends inside a word has a last word.
pub proof fn lemma_words_last(s: Seq<char>)
    ensures
        s.len() > 0 && !is_ws(s.last()) ==> words(s).len() > 0,
    decreases s.len(),
{
    if s.len() > 0 {
        lemma_words_last(s.drop_last());
    }
}

/// Every word is a non-empty run of non-whitespace characters.
pub proof fn lemma_words_shape(s: Seq<char>)
    ensures
        forall|k: int|
            0 <= k < words(s).len() ==> #[trigger] words(s)[k].len() > 0 && forall|j: int|
                0 <= j < words(s)[k].len() ==> !is_ws(words(s)[k][j]),
    decreases s.len(),
{
    if s.len() > 0 {
        lemma_words_shape(s.drop_last());
        lemma_words_last(s.drop_last());
        let w = words(s.drop_last());
        let c = s.last();
        if !is_ws(c) && s.len() > 1 && !is_ws(s[s.len() - 2]) {
            assert forall|k: int| 0 <= k < words(s).len() implies #[trigger] words(s)[k].len() > 0
                && forall|j: int| 0 <= j < words(s)[k].len() ==> !is_ws(words(s)[k][j]) by {
                if k == w.len() - 1 {
                    assert(words(s)[k] == w.last().push(c));
                    assert forall|j: int| 0 <= j < words(s)[k].len() implies !is_ws(
                        words(s)[k][j],
                    ) by {
                        if j < w.last().len() {
                            assert(words(s)[k][j] == w[k][j]);
                        }
                    }
                }
            }
        }
    }
}

/// Digits spell a non-negative number.
pub proof fn lemma_digits_value_nonneg(s: Seq<char>)
    requires
        all_digits(s),
    ensures
        digits_value(s) >= 0,
    decreases s.len(),
{
    if s.len() > 0 {
        assert(all_digits(s.drop_last()));
        lemma_digits_value_nonneg(s.drop_last());
        assert(is_digit(s[s.len() - 1]));
    }
}

/// A prefix of digits spells at most the number that all of them spell.
pub proof fn lemma_digits_value_prefix(s: Seq<char>, k: int)
    requires
        all_digits(s),
        0 <= k <= s.len(),
    ensures
        digits_value(s.take(k)) <= digits_value(s),
    decreases s.len(),
{
    if k == s.len() {
        assert(s.take(k) =~= s);
    } else {
        assert(all_digits(s.drop_last()));
        lemma_digits_value_prefix(s.drop_last(), k);
        assert(s.drop_last().take(k) =~= s.take(k));
        lemma_digits_value_nonneg(s.drop_last());
        assert(is_digit(s[s.len() - 1]));
    }
}

/// The characters of `s`, in order.
pub fn to_chars(s: &str) -> (v: Vec<char>)
    ensures
        v@ == s@,
{
    let mut v: Vec<char> = Vec::new();
    for c in it: s.chars()
        invariant
            v@ == it.seq().take(it.index()),
    {
        v.push(c);
    }
    v
}

/// A `String` that holds the characters of `v` (std's `FromIterator<char>`).
#[verifier::external_body]
pub(crate) fn string_from_chars(v: &Vec<char>) -> (s: String)
    ensures
        s@ == v@,
{
    v.iter().collect()
}

/// The characters of `v` from `lo` up to `hi`.
pub fn slice_chars(v: &Vec<char>, lo: usize, hi: usize) -> (r: Vec<char>)
    requires
        lo <= hi <= v.len(),
    ensures
        r@ == v@.subrange(lo as int, hi as int),
{
    let mut r: Vec<char> = Vec::new();
    let mut i = lo;
    while i < hi
        invariant
            lo <= i <= hi <= v.len(),
            r@ == v@.subrange(lo as int, i as int),
        decreases hi - i,
    {
        r.push(v[i]);
        i += 1;
    }
    r
}

/// Whether `a` and `b` hold the same characters.
pub fn chars_eq(a: &Vec<char>, b: &Vec<char>) -> (r: bool)
    ensures
        r == (a@ == b@),
{
    if a.len() != b.len() {
        return false;
    }
    let mut i: usize = 0;
    while i < a.len()
        invariant
            a.len() == b.len(),
            0 <= i <= a.len(),
            forall|j: int| 0 <= j < i ==> a@[j] == b@[j],
        decreases a.len() - i,
    {
        if a[i] != b[i] {
            return false;
        }
        i += 1;
    }
    assert(a@ =~= b@);
    true
}

/// Whether `s` begins with `p`.
pub fn starts_with(s: &Vec<char>, p: &Vec<char>) -> (r: bool)
    ensures
        r == has_prefix(s@, p@),
{
    if p.len() > s.len() {
        return false;
    }
    let mut i: usize = 0;
    while i < p.len()
        invariant
            p.len() <= s.len(),
            0 <= i <= p.len(),
            forall|j: int| 0 <= j < i ==> s@[j] == p@[j],
        decreases p.len() - i,
    {
        if s[i] != p[i] {
            assert(s@.take(p.len() as int)[i as int] != p@[i as int]);
            return false;
        }
        i += 1;
    }
    assert(s@.take(p.len() as int) =~= p@);
    true
}

/// Whether `c` occurs in `s`.
pub fn contains_char(s: &Vec<char>, c: char) -> (r: bool)
    ensures
        r == s@.contains(c),
{
    let mut i: usize = 0;
    while i < s.len()
        invariant
            0 <= i <= s.len(),
            forall|j: int| 0 <= j < i ==> s@[j] != c,
        decreases s.len() - i,
    {
        if s[i] == c {
            assert(s@[i as int] == c);
            return true;
        }
        i += 1;
    }
    false
}

/// The pieces of `s` between occurrences of `sep` (as `str::split`).
pub fn split_on(s: &Vec<char>, sep: char) -> (r: Vec<Vec<char>>)
    ensures
        views(r@) == pieces(s@, sep),
{
    let mut out: Vec<Vec<char>> = Vec::new();
    let mut cur: Vec<char> = Vec::new();
    let mut i: usize = 0;
    assert(s@.take(0) =~= Seq::<char>::empty());
    assert(views(out@).push(cur@) =~= seq![Seq::<char>::empty()]);
    while i < s.len()
        invariant
            0 <= i <= s.len(),
            views(out@).push(cur@) == pieces(s@.take(i as int), sep),
        decreases s.len() - i,
    {
        let c = s[i];
        let ghost prev = s@.take(i as int);
        assert(s@.take(i + 1).drop_last() =~= prev);
        assert(s@.take(i + 1).last() == c);
        if c == sep {
            let ghost before = views(out@);
            out.push(cur);
            cur = Vec::new();
            assert(views(out@) =~= before.push(pieces(prev, sep).last()));
            assert(views(out@).push(cur@) =~= pieces(s@.take(i + 1), sep));
        } else {
            cur.push(c);
            assert(views(out@).push(cur@) =~= pieces(s@.take(i + 1), sep));
        }
        i += 1;
    }
    assert(s@.take(s.len() as int) =~= s@);
    let ghost before = views(out@);
    out.push(cur);
    assert(views(out@) =~= before.push(cur@));
    out
}

/// The lines of `s` (as `str::lines`).
pub fn lines_of(s: &Vec<char>) -> (r: Vec<Vec<char>>)
    ensures
        views(r@) == lines(s@),
{
    let p = split_on(s, '\n');
    proof {
        lemma_pieces_len(s@, '\n');
    }
    let n = p.len();
    let ghost ps = pieces(s@, '\n');
    let ghost body = strip_all(ps.drop_last());
    let mut out: Vec<Vec<char>> = Vec::new();
    let mut k: usize = 0;
    assert(body.len() == n - 1);
    assert(views(out@) =~= body.take(0));
    while k + 1 < n
        invariant
            n == p.len(),
            n >= 1,
            views(p@) == ps,
            0 <= k <= n - 1,
            body.len() == n - 1,
            forall|j: int| 0 <= j < n - 1 ==> #[trigger] body[j] == strip_cr(ps[j]),
            views(out@) == body.take(k as int),
        decreases n - k,
    {
        let l = &p[k];
        assert(l@ == ps[k as int]);
        let stripped = if l.len() > 0 && l[l.len() - 1] == '\r' {
            slice_chars(l, 0, l.len() - 1)
        } else {
            slice_chars(l, 0, l.len())
        };
        assert(stripped@ == strip_cr(l@));
        let ghost before = views(out@);
        out.push(stripped);
        assert(views(out@) =~= before.push(stripped@));
        assert(body.take(k + 1) =~= body.take(k as int).push(body[k as int]));
        k += 1;
    }
    assert(body.take(k as int) =~= body);
    let last = &p[n - 1];
    assert(last@ == ps.last());
    if last.len() > 0 {
        let copy = slice_chars(last, 0, last.len());
        assert(copy@ =~= last@);
        let ghost before = views(out@);
        out.push(copy);
        assert(views(out@) =~= before.push(copy@));
    }
    out
}

/// The words of `s` (as `str::split_whitespace`).
pub fn words_of(s: &Vec<char>) -> (r: Vec<Vec<char>>)
    ensures
        views(r@) == words(s@),
{
    let mut out: Vec<Vec<char>> = Vec::new();
    let mut cur: Vec<char> = Vec::new();
    let mut i: usize = 0;
    assert(s@.take(0) =~= Seq::<char>::empty());
    assert(views(out@) =~= Seq::<Seq<char>>::empty());
    while i < s.len()
        invariant
            0 <= i <= s.len(),
            cur@.len() > 0 <==> (i > 0 && !is_ws(s@[i - 1])),
            words(s@.take(i as int)) == if cur@.len() > 0 {
                views(out@).push(cur@)
            } else {
                views(out@)
            },
        decreases s.len() - i,
    {
        let c = s[i];
        let ghost prev = s@.take(i as int);
        let ghost next = s@.take(i + 1);
        assert(next.drop_last() =~= prev);
        assert(next.last() == c);
        assert(i > 0 ==> next[next.len() - 2] == s@[i - 1]);
        if char_is_ws(c) {
            if cur.len() > 0 {
                let ghost before = views(out@);
                out.push(cur);
                cur = Vec::new();
                assert(views(out@) =~= before.push(out@.last()@));
            }
            assert(words(next) == words(prev));
        } else {
            let had = cur.len() > 0;
            cur.push(c);
            if had {
                assert(views(out@).push(cur@) =~= words(prev).update(
                    words(prev).len() - 1,
                    words(prev).last().push(c),
                ));
            } else {
                assert(cur@ =~= seq![c]);
            }
        }
        i += 1;
    }
    assert(s@.take(s.len() as int) =~= s@);
    if cur.len() > 0 {
        let ghost before = views(out@);
        out.push(cur);
        assert(views(out@) =~= before.push(out@.last()@));
    }
    out
}

/// `s` without leading and trailing whitespace (as `str::trim`).
pub fn trim_chars(s: &Vec<char>) -> (r: Vec<char>)
    ensures
        r@ == trim(s@),
{
    let n = s.len();
    let mut a: usize = 0;
    assert(s@.subrange(0, n as int) =~= s@);
    while a < n && char_is_ws(s[a])
        invariant
            n == s.len(),
            0 <= a <= n,
            trim_start(s@) == trim_start(s@.subrange(a as int, n as int)),
        decreases n - a,
    {
        assert(s@.subrange(a as int, n as int).drop_first() =~= s@.subrange(a + 1, n as int));
        a += 1;
    }
    let ghost ts = s@.subrange(a as int, n as int);
    assert(trim_start(ts) == ts);
    let mut b: usize = n;
    while b > a && char_is_ws(s[b - 1])
        invariant
            n == s.len(),
            0 <= a <= b <= n,
            ts == s@.subrange(a as int, n as int),
            trim_end(ts) == trim_end(s@.subrange(a as int, b as int)),
        decreases b - a,
    {
        assert(s@.subrange(a as int, b as int).drop_last() =~= s@.subrange(a as int, b - 1));
        b -= 1;
    }
    slice_chars(s, a, b)
}

/// The number that `s` spells (as `str::parse::<u64>`), if any.
pub fn parse_u64(s: &Vec<char>) -> (r: Option<u64>)
    ensures
        r == parse_u64_spec(s@),
{
    let n = s.len();
    let st: usize = if n > 0 && s[0] == '+' {
        1
    } else {
        0
    };
    let ghost d = s@.subrange(st as int, n as int);
    assert(d =~= unsigned_digits(s@));
    if st == n {
        return None;
    }
    let mut v: u64 = 0;
    let mut i: usize = st;
    assert(d.take(0) =~= Seq::<char>::empty());
    while i < n
        invariant
            n == s.len(),
            st <= i <= n,
            d == s@.subrange(st as int, n as int),
            d == unsigned_digits(s@),
            forall|j: int| 0 <= j < i - st ==> is_digit(#[trigger] d[j]),
            v == digits_value(d.take(i - st)),
        decreases n - i,
    {
        let c = s[i];
        assert(d[i - st] == c);
        if !('0' <= c && c <= '9') {
            assert(!is_digit(d[i - st]));
            return None;
        }
        let dv: u64 = (c as u32 - '0' as u32) as u64;
        let ghost next = d.take(i - st + 1);
        assert(next.drop_last() =~= d.take(i - st));
        assert(next.last() == c);
        match v.checked_mul(10) {
            None => {
                proof {
                    assert(all_digits(d.take(i - st)));
                    lemma_digits_value_nonneg(d.take(i - st));
                    if all_digits(d) {
                        lemma_digits_value_prefix(d, i - st + 1);
                    }
                }
                return None;
            },
            Some(m) => match m.checked_add(dv) {
                None => {
                    proof {
                        assert(digits_value(next) == v * 10 + dv);
                        if all_digits(d) {
                            lemma_digits_value_prefix(d, i - st + 1);
                        }
                    }
                    return None;
                },
                Some(w) => {
                    v = w;
                },
            },
        }
        i += 1;
    }
    assert(d.take(n - st) =~= d);
    Some(v)
}


/// `s` with every occurrence of `p` taken out, scanning left to right
/// without overlap, as `str::replace(p, "")` leaves it.
pub open spec fn remove_all(s: Seq<char>, p: Seq<char>) -> Seq<char>
    decreases s.len(),
{
    if s.len() == 0 {
        s
    } else if p.len() > 0 && has_prefix(s, p) {
        remove_all(s.skip(p.len() as int), p)
    } else {
        seq![s[0]] + remove_all(s.drop_first(), p)
    }
}

/// `s` up to (and without) the first `c`; all of `s` when `c` does not occur.
pub open spec fn take_until(s: Seq<char>, c: char) -> Seq<char>
    decreases s.len(),
{
    if s.len() == 0 {
        s
    } else if s[0] == c {
        Seq::<char>::empty()
    } else {
        seq![s[0]] + take_until(s.drop_first(), c)
    }
}

/// The pieces `ws` joined with `sep` between each two.
pub open spec fn join(ws: Seq<Seq<char>>, sep: Seq<char>) -> Seq<char>
    decreases ws.len(),
{
    if ws.len() == 0 {
        Seq::<char>::empty()
    } else if ws.len() == 1 {
        ws[0]
    } else {
        join(ws.drop_last(), sep) + sep + ws.last()
    }
}

/// The first line of `s`, or nothing when `s` has no line.
pub open spec fn first_line(s: Seq<char>) -> Seq<char> {
    if lines(s).len() > 0 {
        lines(s)[0]
    } else {
        Seq::<char>::empty()
    }
}

/// `take_until` is the prefix before the first occurrence.
pub proof fn lemma_take_until(s: Seq<char>, c: char, i: int)
    requires
        0 <= i <= s.len(),
        forall|j: int| 0 <= j < i ==> s[j] != c,
        i == s.len() || s[i] == c,
    ensures
        take_until(s, c) == s.take(i),
    decreases s.len(),
{
    if s.len() > 0 && i > 0 {
        lemma_take_until(s.drop_first(), c, i - 1);
        assert(seq![s[0]] + s.drop_first().take(i - 1) =~= s.take(i));
    } else {
        assert(s.take(i) =~= Seq::<char>::empty());
    }
}

/// Whether `p` occurs in `s` at position `i`.
pub fn matches_at(s: &Vec<char>, i: usize, p: &Vec<char>) -> (r: bool)
    requires
        i <= s.len(),
    ensures
        r == has_prefix(s@.skip(i as int), p@),
{
    if p.len() > s.len() - i {
        return false;
    }
    let mut k: usize = 0;
    while k < p.len()
        invariant
            i <= s.len(),
            p.len() <= s.len() - i,
            0 <= k <= p.len(),
            forall|j: int| 0 <= j < k ==> s@[i + j] == p@[j],
        decreases p.len() - k,
    {
        if s[i + k] != p[k] {
            assert(s@.skip(i as int).take(p.len() as int)[k as int] != p@[k as int]);
            return false;
        }
        k += 1;
    }
    assert(s@.skip(i as int).take(p.len() as int) =~= p@);
    true
}

/// `s` with every occurrence of `p` taken out (as `str::replace(p, "")`).
pub fn remove_all_of(s: &Vec<char>, p: &Vec<char>) -> (r: Vec<char>)
    requires
        p.len() > 0,
    ensures
        r@ == remove_all(s@, p@),
{
    let mut out: Vec<char> = Vec::new();
    let mut i: usize = 0;
    assert(s@.skip(0) =~= s@);
    while i < s.len()
        invariant
            p.len() > 0,
            0 <= i <= s.len(),
            remove_all(s@, p@) == out@ + remove_all(s@.skip(i as int), p@),
        decreases s.len() - i,
    {
        let ghost rest = s@.skip(i as int);
        if matches_at(s, i, p) {
            assert(rest.skip(p.len() as int) =~= s@.skip(i + p.len()));
            i += p.len();
        } else {
            assert(rest.drop_first() =~= s@.skip(i + 1));
            assert(rest[0] == s@[i as int]);
            out.push(s[i]);
            assert(out@ + remove_all(s@.skip(i + 1), p@) =~= out@.drop_last() + (seq![rest[0]]
                + remove_all(rest.drop_first(), p@)));
            i += 1;
        }
    }
    assert(s@.skip(i as int) =~= Seq::<char>::empty());
    assert(out@ + Seq::<char>::empty() =~= out@);
    out
}

/// `s` up to (and without) the first `c` (as `truncate` at `find(c)`).
pub fn take_until_char(s: &Vec<char>, c: char) -> (r: Vec<char>)
    ensures
        r@ == take_until(s@, c),
{
    let mut i: usize = 0;
    while i < s.len() && s[i] != c
        invariant
            0 <= i <= s.len(),
            forall|j: int| 0 <= j < i ==> s@[j] != c,
        decreases s.len() - i,
    {
        i += 1;
    }
    proof {
        lemma_take_until(s@, c, i as int);
    }
    slice_chars(s, 0, i)
}

/// The first line of `s`, or nothing (as `lines().next().unwrap_or("")`).
pub fn first_line_of(s: &Vec<char>) -> (r: Vec<char>)
    ensures
        r@ == first_line(s@),
{
    let ls = lines_of(s);
    if ls.len() > 0 {
        let l = &ls[0];
        assert(l@ == lines(s@)[0]);
        slice_chars(l, 0, l.len())
    } else {
        Vec::new()
    }
}


/// Append the characters of `w` to `out`.
pub fn append_chars(out: &mut Vec<char>, w: &Vec<char>)
    ensures
        final(out)@ == old(out)@ + w@,
{
    let ghost start = out@;
    let mut i: usize = 0;
    while i < w.len()
        invariant
            0 <= i <= w.len(),
            out@ == start + w@.take(i as int),
        decreases w.len() - i,
    {
        out.push(w[i]);
        assert(w@.take(i + 1) =~= w@.take(i as int).push(w@[i as int]));
        i += 1;
    }
    assert(w@.take(w.len() as int) =~= w@);
}


/// A run of non-whitespace characters: non-empty, no whitespace in it.
pub open spec fn is_word(w: Seq<char>) -> bool {
    w.len() > 0 && forall|j: int| 0 <= j < w.len() ==> !is_ws(#[trigger] w[j])
}

/// Text followed by one space and a word has one word more.
pub proof fn lemma_words_space_word(p: Seq<char>, w: Seq<char>)
    requires
        is_word(w),
    ensures
        words(p + seq![' '] + w) == words(p).push(w),
    decreases w.len(),
{
    let ps = p + seq![' '];
    assert((ps).drop_last() =~= p);
    assert(is_ws(' '));
    assert(words(ps) == words(p));
    if w.len() == 1 {
        let t = ps + w;
        assert(t.drop_last() =~= ps);
        assert(t[t.len() - 2] == ' ');
        assert(w =~= seq![w[0]]);
    } else {
        let wp = w.drop_last();
        assert(is_word(wp)) by {
            assert forall|j: int| 0 <= j < wp.len() implies !is_ws(#[trigger] wp[j]) by {
                assert(wp[j] == w[j]);
            }
        }
        lemma_words_space_word(p, wp);
        let t = ps + w;
        assert(t.drop_last() =~= ps + wp);
        assert(t[t.len() - 2] == w[w.len() - 2]);
        assert(!is_ws(w[w.len() - 2]));
        assert(!is_ws(w[w.len() - 1]));
        assert(wp.push(w.last()) =~= w);
        assert(words(p).push(wp).update(words(p).len() as int, wp.push(w.last())) =~= words(p).push(w));
    }
}

/// A word alone is one word.
pub proof fn lemma_words_single(w: Seq<char>)
    requires
        is_word(w),
    ensures
        words(w) == seq![w],
    decreases w.len(),
{
    if w.len() == 1 {
        assert(w.drop_last() =~= Seq::<char>::empty());
        assert(words(w.drop_last()) =~= Seq::<Seq<char>>::empty());
        assert(!is_ws(w[0]));
        assert(w =~= seq![w[0]]);
        assert(words(w) =~= seq![seq![w[0]]]);
    } else {
        let wp = w.drop_last();
        assert(is_word(wp)) by {
            assert forall|j: int| 0 <= j < wp.len() implies !is_ws(#[trigger] wp[j]) by {
                assert(wp[j] == w[j]);
            }
        }
        lemma_words_single(wp);
        assert(!is_ws(w[w.len() - 2]));
        assert(!is_ws(w[w.len() - 1]));
        assert(wp.push(w.last()) =~= w);
        assert(seq![wp].update(0, wp.push(w.last())) =~= seq![w]);
        assert(words(w) == words(wp).update(0, wp.push(w.last())));
    }
}

/// Words joined by single spaces split back into the same words.
pub proof fn lemma_words_join(ws: Seq<Seq<char>>)
    requires
        forall|k: int| 0 <= k < ws.len() ==> is_word(#[trigger] ws[k]),
    ensures
        words(join(ws, seq![' '])) == ws,
    decreases ws.len(),
{
    if ws.len() == 0 {
    } else if ws.len() == 1 {
        lemma_words_single(ws[0]);
        assert(seq![ws[0]] =~= ws);
    } else {
        let wp = ws.drop_last();
        assert forall|k: int| 0 <= k < wp.len() implies is_word(#[trigger] wp[k]) by {
            assert(wp[k] == ws[k]);
        }
        lemma_words_join(wp);
        assert(is_word(ws[ws.len() - 1]));
        lemma_words_space_word(join(wp, seq![' ']), ws.last());
        assert(wp.push(ws.last()) =~= ws);
    }
}

/// A character that is not in the text is in none of its words.
pub proof fn lemma_words_without(t: Seq<char>, c: char)
    requires
        !t.contains(c),
    ensures
        forall|k: int| 0 <= k < words(t).len() ==> !(#[trigger] words(t)[k]).contains(c),
    decreases t.len(),
{
    if t.len() > 0 {
        let tp = t.drop_last();
        assert(!tp.contains(c)) by {
            if tp.contains(c) {
                let i = choose|i: int| 0 <= i < tp.len() && tp[i] == c;
                assert(t[i] == c);
            }
        }
        lemma_words_without(tp, c);
        lemma_words_last(tp);
        let w = words(tp);
        assert(t[t.len() - 1] != c);
        assert forall|k: int| 0 <= k < words(t).len() implies !(#[trigger] words(t)[k]).contains(c) by {
            if k < w.len() && words(t)[k] != w[k] {
                let x = words(t)[k];
                assert(x == w[k].push(t.last()));
                if x.contains(c) {
                    let j = choose|j: int| 0 <= j < x.len() && x[j] == c;
                    assert(j < w[k].len());
                    assert(w[k][j] == c);
                }
            } else if k == w.len() {
                assert(words(t)[k] == seq![t.last()]);
            }
        }
    }
}

/// Joined pieces hold only the pieces' characters and the separator.
pub proof fn lemma_join_chars(ws: Seq<Seq<char>>, sep: char, c: char)
    requires
        c != sep,
        forall|k: int| 0 <= k < ws.len() ==> !(#[trigger] ws[k]).contains(c),
    ensures
        !join(ws, seq![sep]).contains(c),
    decreases ws.len(),
{
    if ws.len() == 1 {
        assert(!ws[0].contains(c));
    } else if ws.len() > 1 {
        let wp = ws.drop_last();
        assert forall|k: int| 0 <= k < wp.len() implies !(#[trigger] wp[k]).contains(c) by {
            assert(wp[k] == ws[k]);
        }
        lemma_join_chars(wp, sep, c);
        let a = join(wp, seq![sep]);
        let x = a + seq![sep] + ws.last();
        assert(!ws[ws.len() - 1].contains(c));
        if x.contains(c) {
            let j = choose|j: int| 0 <= j < x.len() && x[j] == c;
            if j < a.len() {
                assert(a[j] == c);
            } else if j == a.len() {
            } else {
                assert(ws.last()[j - a.len() - 1] == c);
            }
        }
    }
}

/// `take_until` stops before the first `c`.
pub proof fn lemma_take_until_without(s: Seq<char>, c: char)
    ensures
        !take_until(s, c).contains(c),
    decreases s.len(),
{
    if s.len() > 0 && s[0] != c {
        lemma_take_until_without(s.drop_first(), c);
        let r = take_until(s, c);
        let rest = take_until(s.drop_first(), c);
        if r.contains(c) {
            let j = choose|j: int| 0 <= j < r.len() && r[j] == c;
            assert(j > 0);
            assert(rest[j - 1] == c);
        }
    }
}

/// Splitting `a`, a separator, then `b` gives the pieces of `a` followed by
/// the pieces of `b`.
pub proof fn lemma_pieces_concat(a: Seq<char>, b: Seq<char>, sep: char)
    ensures
        pieces(a + seq![sep] + b, sep) == pieces(a, sep) + pieces(b, sep),
    decreases b.len(),
{
    let t = a + seq![sep] + b;
    if b.len() == 0 {
        assert(t =~= a + seq![sep]);
        assert((a + seq![sep]).drop_last() =~= a);
        assert(pieces(a, sep).push(Seq::<char>::empty()) =~= pieces(a, sep) + seq![
            Seq::<char>::empty(),
        ]);
    } else {
        let bp = b.drop_last();
        lemma_pieces_concat(a, bp, sep);
        lemma_pieces_len(bp, sep);
        assert(t.drop_last() =~= a + seq![sep] + bp);
        assert(t.last() == b.last());
        let pa = pieces(a, sep);
        let pb = pieces(bp, sep);
        if b.last() == sep {
            assert((pa + pb).push(Seq::<char>::empty()) =~= pa + pb.push(Seq::<char>::empty()));
        } else {
            assert((pa + pb).update((pa + pb).len() - 1, (pa + pb).last().push(b.last())) =~= pa
                + pb.update(pb.len() - 1, pb.last().push(b.last())));
        }
    }
}

/// A text without the separator is a single piece.
pub proof fn lemma_pieces_single(s: Seq<char>, sep: char)
    requires
        !s.contains(sep),
    ensures
        pieces(s, sep) == seq![s],
    decreases s.len(),
{
    if s.len() == 0 {
        assert(s =~= Seq::<char>::empty());
    } else {
        let sp = s.drop_last();
        assert(!sp.contains(sep)) by {
            if sp.contains(sep) {
                let i = choose|i: int| 0 <= i < sp.len() && sp[i] == sep;
                assert(s[i] == sep);
            }
        }
        lemma_pieces_single(sp, sep);
        assert(s[s.len() - 1] != sep);
        assert(sp.push(s.last()) =~= s);
        assert(seq![sp].update(0, sp.push(s.last())) =~= seq![s]);
    }
}

/// A carriage return at the end of a line does not change its words.
pub proof fn lemma_words_strip_cr(l: Seq<char>)
    ensures
        words(strip_cr(l)) == words(l),
{
    if l.len() > 0 && l.last() == '\r' {
        assert(is_ws('\r'));
    }
}

} // verus!

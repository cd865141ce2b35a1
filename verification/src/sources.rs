//! Parsers for what the dashboard reads from the system: interface and
//! block-device names, `/proc/diskstats`, `/proc/net/route`, the output of
//! `route -n get default`, cpufreq files, DRM `uevent` files, a line of
//! `nvidia-smi` CSV, and CPU brand strings.

use vstd::prelude::*;
use crate::text::{
    lemma_pieces_concat, lemma_pieces_len, lemma_pieces_single, lemma_words_strip_cr, strip_all, strip_cr, is_word, lemma_join_chars, lemma_take_until_without, lemma_words_join, lemma_words_shape,
    lemma_words_without, append_chars, join, pieces, remove_all, remove_all_of, split_on, take_until,
    take_until_char, chars_eq, contains_char, first_line, first_line_of, has_prefix, is_digit, lines, lines_of,
    parse_u64, parse_u64_spec, slice_chars, starts_with, string_from_chars, to_chars, trim,
    trim_chars, views, words, words_of,
};

verus! {

/// The view of an optional `String`.
pub open spec fn opt_view(o: Option<String>) -> Option<Seq<char>> {
    match o {
        Some(s) => Some(s@),
        None => None,
    }
}

/// `lo` (Linux) or `lo` followed by one or more digits (`lo0`, `lo1`, BSD/macOS).
pub open spec fn is_loopback_spec(s: Seq<char>) -> bool {
    ||| s == seq!['l', 'o']
    ||| s.len() > 2 && s[0] == 'l' && s[1] == 'o' && forall|i: int|
        2 <= i < s.len() ==> is_digit(#[trigger] s[i])
}

/// True for loopback interfaces: `lo` and `lo0`, `lo1`, ... Deliberately
/// narrow, so that real interfaces such as `lobby0` are not hidden.
pub fn is_loopback(name: &str) -> (r: bool)
    ensures
        r == is_loopback_spec(name@),
{
    let s = to_chars(name);
    let n = s.len();
    if n < 2 || s[0] != 'l' || s[1] != 'o' {
        return false;
    }
    if n == 2 {
        assert(s@ =~= seq!['l', 'o']);
        return true;
    }
    let mut i: usize = 2;
    while i < n
        invariant
            n == s.len(),
            s@ == name@,
            2 <= i <= n,
            forall|j: int| 2 <= j < i ==> is_digit(#[trigger] s@[j]),
        decreases n - i,
    {
        if !('0' <= s[i] && s[i] <= '9') {
            assert(!is_digit(s@[i as int]));
            assert(s@.len() != seq!['l', 'o'].len());
            assert(!is_loopback_spec(s@));
            return false;
        }
        i += 1;
    }
    true
}

/// Whole-disk device names: `mmcblk*` and `nvme*` without a `p` (their
/// partitions carry a trailing `pN`), and `sd*`, `vd*`, `hd*` that do not end
/// in a digit (`sda1` is a partition). Everything else is not a whole disk.
pub open spec fn is_whole_disk_spec(s: Seq<char>) -> bool {
    if has_prefix(s, "mmcblk"@) || has_prefix(s, "nvme"@) {
        !s.contains('p')
    } else if has_prefix(s, "sd"@) || has_prefix(s, "vd"@) || has_prefix(s, "hd"@) {
        !(s.len() > 0 && is_digit(s.last()))
    } else {
        false
    }
}

fn whole_disk_chars(s: &Vec<char>) -> (r: bool)
    ensures
        r == is_whole_disk_spec(s@),
{
    let mmc = to_chars("mmcblk");
    let nvme = to_chars("nvme");
    if starts_with(s, &mmc) || starts_with(s, &nvme) {
        !contains_char(s, 'p')
    } else {
        let sd = to_chars("sd");
        let vd = to_chars("vd");
        let hd = to_chars("hd");
        if starts_with(s, &sd) || starts_with(s, &vd) || starts_with(s, &hd) {
            let n = s.len();
            !(n > 0 && '0' <= s[n - 1] && s[n - 1] <= '9')
        } else {
            false
        }
    }
}

/// True for whole-disk device names, so that partitions are not counted twice.
pub fn is_whole_disk(name: &str) -> (r: bool)
    ensures
        r == is_whole_disk_spec(name@),
{
    let s = to_chars(name);
    whole_disk_chars(&s)
}

/// A parsed number, or zero when the text is not one.
pub open spec fn or_zero(o: Option<u64>) -> int {
    match o {
        Some(v) => v as int,
        None => 0,
    }
}

/// What one line of `/proc/diskstats` adds: (sectors read, sectors written)
/// from fields 5 and 9 when the line has at least 10 fields and field 2
/// names a whole disk; nothing otherwise.
pub open spec fn diskstats_line(l: Seq<char>) -> (int, int) {
    let f = words(l);
    if f.len() < 10 || !is_whole_disk_spec(f[2]) {
        (0, 0)
    } else {
        (or_zero(parse_u64_spec(f[5])), or_zero(parse_u64_spec(f[9])))
    }
}

/// The sums of `diskstats_line` over `ls`.
pub open spec fn diskstats_sum(ls: Seq<Seq<char>>) -> (int, int)
    decreases ls.len(),
{
    if ls.len() == 0 {
        (0, 0)
    } else {
        let t = diskstats_sum(ls.drop_last());
        let d = diskstats_line(ls.last());
        (t.0 + d.0, t.1 + d.1)
    }
}

/// 2^64, the modulus of `u64` arithmetic.
pub open spec fn u64_modulus() -> int {
    0x1_0000_0000_0000_0000
}

proof fn lemma_wrapping_step(t: int, r: u64, d: u64)
    requires
        t >= 0,
        r == t % u64_modulus(),
    ensures
        vstd::wrapping::u64_specs::wrapping_add(r, d) == (t + d) % u64_modulus(),
{
    vstd::arithmetic::div_mod::lemma_add_mod_noop(t, d as int, u64_modulus());
    vstd::arithmetic::div_mod::lemma_small_mod(d as nat, u64_modulus() as nat);
    vstd::arithmetic::div_mod::lemma_small_mod(r as nat, u64_modulus() as nat);
    if r + d >= u64_modulus() {
        vstd::arithmetic::div_mod::lemma_mod_sub_multiples_vanish((r + d) as int, u64_modulus());
        vstd::arithmetic::div_mod::lemma_small_mod(
            (r + d - u64_modulus()) as nat,
            u64_modulus() as nat,
        );
    } else {
        vstd::arithmetic::div_mod::lemma_small_mod((r + d) as nat, u64_modulus() as nat);
    }
}

proof fn lemma_diskstats_sum_nonneg(ls: Seq<Seq<char>>)
    ensures
        diskstats_sum(ls).0 >= 0,
        diskstats_sum(ls).1 >= 0,
    decreases ls.len(),
{
    if ls.len() > 0 {
        lemma_diskstats_sum_nonneg(ls.drop_last());
    }
}

/// Sums over consecutive runs of lines add up.
proof fn lemma_diskstats_sum_concat(p: Seq<Seq<char>>, q: Seq<Seq<char>>)
    ensures
        diskstats_sum(p + q) == (diskstats_sum(p).0 + diskstats_sum(q).0, diskstats_sum(p).1
            + diskstats_sum(q).1),
    decreases q.len(),
{
    if q.len() == 0 {
        assert(p + q =~= p);
    } else {
        lemma_diskstats_sum_concat(p, q.drop_last());
        assert((p + q).drop_last() =~= p + q.drop_last());
        assert((p + q).last() == q.last());
    }
}

/// A carriage return at the end of each line changes no sum.
proof fn lemma_diskstats_sum_strip(q: Seq<Seq<char>>)
    ensures
        diskstats_sum(strip_all(q)) == diskstats_sum(q),
    decreases q.len(),
{
    if q.len() > 0 {
        lemma_diskstats_sum_strip(q.drop_last());
        assert(strip_all(q).drop_last() =~= strip_all(q.drop_last()));
        lemma_words_strip_cr(q.last());
        assert(strip_all(q).last() == strip_cr(q.last()));
    }
}

/// The sums over the lines of `s` are the sums over its `\n`-separated pieces.
proof fn lemma_diskstats_lines_pieces(s: Seq<char>)
    ensures
        diskstats_sum(lines(s)) == diskstats_sum(pieces(s, '\n')),
{
    let p = pieces(s, '\n');
    lemma_pieces_len(s, '\n');
    let q = p.drop_last();
    let body = strip_all(q);
    lemma_diskstats_sum_strip(q);
    assert(diskstats_sum(p) == (diskstats_sum(q).0 + diskstats_line(p.last()).0, diskstats_sum(
        q,
    ).1 + diskstats_line(p.last()).1));
    if p.last().len() > 0 {
        let l = body.push(p.last());
        assert(l.drop_last() =~= body);
        assert(l.last() == p.last());
    } else {
        assert(words(p.last()) =~= Seq::<Seq<char>>::empty());
        assert(diskstats_line(p.last()) == (0int, 0int));
    }
}

/// `/proc/diskstats` sums add over text: the sums of `a`, a newline, then
/// `b` are the sums of `a` plus the sums of `b`. So where the two totals
/// fit in a `u64`, what `parse_diskstats` returns for the joined text is
/// what it returns for `a` plus what it returns for `b`, read for read and
/// written for written.
pub proof fn lemma_diskstats_additive(a: Seq<char>, b: Seq<char>)
    ensures
        diskstats_sum(lines(a + seq!['\n'] + b)) == (diskstats_sum(lines(a)).0 + diskstats_sum(
            lines(b),
        ).0, diskstats_sum(lines(a)).1 + diskstats_sum(lines(b)).1),
        diskstats_sum(lines(a)).0 + diskstats_sum(lines(b)).0 < u64_modulus() ==> diskstats_sum(
            lines(a + seq!['\n'] + b),
        ).0 % u64_modulus() == diskstats_sum(lines(a)).0 % u64_modulus() + diskstats_sum(
            lines(b),
        ).0 % u64_modulus(),
        diskstats_sum(lines(a)).1 + diskstats_sum(lines(b)).1 < u64_modulus() ==> diskstats_sum(
            lines(a + seq!['\n'] + b),
        ).1 % u64_modulus() == diskstats_sum(lines(a)).1 % u64_modulus() + diskstats_sum(
            lines(b),
        ).1 % u64_modulus(),
{
    lemma_diskstats_lines_pieces(a + seq!['\n'] + b);
    lemma_diskstats_lines_pieces(a);
    lemma_diskstats_lines_pieces(b);
    lemma_pieces_concat(a, b, '\n');
    lemma_diskstats_sum_concat(pieces(a, '\n'), pieces(b, '\n'));
    let sa = diskstats_sum(lines(a));
    let sb = diskstats_sum(lines(b));
    lemma_diskstats_sum_nonneg(lines(a));
    lemma_diskstats_sum_nonneg(lines(b));
    if sa.0 + sb.0 < u64_modulus() {
        vstd::arithmetic::div_mod::lemma_small_mod(sa.0 as nat, u64_modulus() as nat);
        vstd::arithmetic::div_mod::lemma_small_mod(sb.0 as nat, u64_modulus() as nat);
        vstd::arithmetic::div_mod::lemma_small_mod((sa.0 + sb.0) as nat, u64_modulus() as nat);
    }
    if sa.1 + sb.1 < u64_modulus() {
        vstd::arithmetic::div_mod::lemma_small_mod(sa.1 as nat, u64_modulus() as nat);
        vstd::arithmetic::div_mod::lemma_small_mod(sb.1 as nat, u64_modulus() as nat);
        vstd::arithmetic::div_mod::lemma_small_mod((sa.1 + sb.1) as nat, u64_modulus() as nat);
    }
}

/// One line of `/proc/diskstats` contributes exactly `diskstats_line`: its
/// fields 5 and 9 when it has at least 10 fields and field 2 is a whole
/// disk, nothing otherwise. Each contribution fits in a `u64`, so
/// `parse_diskstats` of a single line returns it unchanged.
pub proof fn lemma_diskstats_one_line(l: Seq<char>)
    requires
        !l.contains('\n'),
    ensures
        diskstats_sum(lines(l)) == diskstats_line(l),
        0 <= diskstats_line(l).0 < u64_modulus(),
        0 <= diskstats_line(l).1 < u64_modulus(),
        diskstats_line(l).0 % u64_modulus() == diskstats_line(l).0,
        diskstats_line(l).1 % u64_modulus() == diskstats_line(l).1,
{
    lemma_diskstats_lines_pieces(l);
    lemma_pieces_single(l, '\n');
    assert(seq![l].drop_last() =~= Seq::<Seq<char>>::empty());
    assert(seq![l].last() == l);
    assert(diskstats_sum(seq![l]) == (diskstats_sum(Seq::<Seq<char>>::empty()).0 + diskstats_line(
        l,
    ).0, diskstats_sum(Seq::<Seq<char>>::empty()).1 + diskstats_line(l).1));
    vstd::arithmetic::div_mod::lemma_small_mod(diskstats_line(l).0 as nat, u64_modulus() as nat);
    vstd::arithmetic::div_mod::lemma_small_mod(diskstats_line(l).1 as nat, u64_modulus() as nat);
}

/// Sum (sectors read, sectors written) over the whole-disk lines of
/// `/proc/diskstats` (fields: [2] name, [5] sectors read, [9] sectors
/// written). Short lines and partitions add nothing; a field that is not a
/// number adds zero. The sums wrap around at 2^64, as release builds of
/// `u64` addition do.
pub fn parse_diskstats(content: &str) -> (r: (u64, u64))
    ensures
        r.0 == diskstats_sum(lines(content@)).0 % u64_modulus(),
        r.1 == diskstats_sum(lines(content@)).1 % u64_modulus(),
{
    let s = to_chars(content);
    let ls = lines_of(&s);
    let ghost lv = lines(content@);
    let mut read: u64 = 0;
    let mut written: u64 = 0;
    let mut k: usize = 0;
    assert(lv.take(0) =~= Seq::<Seq<char>>::empty());
    while k < ls.len()
        invariant
            views(ls@) == lv,
            0 <= k <= ls.len(),
            read == diskstats_sum(lv.take(k as int)).0 % u64_modulus(),
            written == diskstats_sum(lv.take(k as int)).1 % u64_modulus(),
        decreases ls.len() - k,
    {
        let line = &ls[k];
        assert(line@ == lv[k as int]);
        let ghost prev = lv.take(k as int);
        let ghost next = lv.take(k + 1);
        assert(next.drop_last() =~= prev);
        assert(next.last() == line@);
        proof {
            lemma_diskstats_sum_nonneg(prev);
        }
        let f = words_of(line);
        let mut dr: u64 = 0;
        let mut dw: u64 = 0;
        if f.len() >= 10 {
            assert(f[2]@ == words(line@)[2]);
            if whole_disk_chars(&f[2]) {
                assert(f[5]@ == words(line@)[5]);
                assert(f[9]@ == words(line@)[9]);
                dr = match parse_u64(&f[5]) {
                    Some(v) => v,
                    None => 0,
                };
                dw = match parse_u64(&f[9]) {
                    Some(v) => v,
                    None => 0,
                };
            }
        }
        assert(dr == diskstats_line(line@).0 && dw == diskstats_line(line@).1);
        proof {
            lemma_wrapping_step(diskstats_sum(prev).0, read, dr);
            lemma_wrapping_step(diskstats_sum(prev).1, written, dw);
        }
        read = read.wrapping_add(dr);
        written = written.wrapping_add(dw);
        k += 1;
    }
    assert(lv.take(k as int) =~= lv);
    (read, written)
}

/// The interface of a `/proc/net/route` row whose Destination (second
/// column) is `00000000`, the default route.
pub open spec fn route_row_iface(l: Seq<char>) -> Option<Seq<char>> {
    let f = words(l);
    if f.len() >= 2 && f[1] == "00000000"@ {
        Some(f[0])
    } else {
        None
    }
}

/// The first default-route interface among the rows `ls` from `i` on.
pub open spec fn first_route_from(ls: Seq<Seq<char>>, i: int) -> Option<Seq<char>>
    decreases ls.len() - i,
{
    if i < 0 || i >= ls.len() {
        None
    } else {
        match route_row_iface(ls[i]) {
            Some(x) => Some(x),
            None => first_route_from(ls, i + 1),
        }
    }
}

/// The interface backing the default route in `/proc/net/route` content:
/// the first row after the header whose Destination is `00000000`.
pub fn parse_default_route(content: &str) -> (r: Option<String>)
    ensures
        opt_view(r) == first_route_from(lines(content@), 1),
{
    let s = to_chars(content);
    let ls = lines_of(&s);
    let ghost lv = lines(content@);
    let zeros = to_chars("00000000");
    let mut k: usize = 1;
    while k < ls.len()
        invariant
            views(ls@) == lv,
            lv == lines(content@),
            zeros@ == "00000000"@,
            1 <= k,
            first_route_from(lv, 1) == first_route_from(lv, k as int),
        decreases ls.len() - k,
    {
        let line = &ls[k];
        assert(line@ == lv[k as int]);
        let f = words_of(line);
        if f.len() >= 2 {
            assert(f[1]@ == words(line@)[1]);
            if chars_eq(&f[1], &zeros) {
                assert(f[0]@ == words(line@)[0]);
                assert(ls@.len() == lv.len());
                assert(route_row_iface(lv[k as int]) == Some(f[0]@));
                assert(first_route_from(lv, k as int) == Some(f[0]@));
                return Some(string_from_chars(&f[0]));
            }
        }
        k += 1;
    }
    None
}

/// The value after `interface:` on a line of `route -n get default` output.
pub open spec fn interface_row(l: Seq<char>) -> Option<Seq<char>> {
    let t = trim(l);
    if has_prefix(t, "interface:"@) {
        Some(t.skip("interface:"@.len() as int))
    } else {
        None
    }
}

/// The first `interface:` value among the lines `ls` from `i` on.
pub open spec fn first_interface_from(ls: Seq<Seq<char>>, i: int) -> Option<Seq<char>>
    decreases ls.len() - i,
{
    if i < 0 || i >= ls.len() {
        None
    } else {
        match interface_row(ls[i]) {
            Some(x) => Some(x),
            None => first_interface_from(ls, i + 1),
        }
    }
}

/// The interface named by the first `interface:` line, trimmed; none when
/// there is no such line or its value is empty.
pub open spec fn macos_route_spec(out: Seq<char>) -> Option<Seq<char>> {
    match first_interface_from(lines(out), 0) {
        Some(v) => if trim(v).len() > 0 {
            Some(trim(v))
        } else {
            None
        },
        None => None,
    }
}

/// Parse `route -n get default` output (macOS): the line `  interface: en0`.
pub fn parse_macos_route(output: &str) -> (r: Option<String>)
    ensures
        opt_view(r) == macos_route_spec(output@),
{
    let s = to_chars(output);
    let ls = lines_of(&s);
    let ghost lv = lines(output@);
    let key = to_chars("interface:");
    let mut k: usize = 0;
    while k < ls.len()
        invariant
            views(ls@) == lv,
            lv == lines(output@),
            key@ == "interface:"@,
            first_interface_from(lv, 0) == first_interface_from(lv, k as int),
        decreases ls.len() - k,
    {
        let line = &ls[k];
        assert(line@ == lv[k as int]);
        let t = trim_chars(line);
        assert(ls@.len() == lv.len());
        if starts_with(&t, &key) {
            let rest = slice_chars(&t, key.len(), t.len());
            assert(rest@ =~= t@.skip(key@.len() as int));
            assert(interface_row(lv[k as int]) == Some(rest@));
            assert(first_interface_from(lv, k as int) == Some(rest@));
            let v = trim_chars(&rest);
            if v.len() > 0 {
                return Some(string_from_chars(&v));
            } else {
                return None;
            }
        }
        k += 1;
    }
    None
}

/// The driver named on the first `DRIVER=` line of a DRM `uevent` file.
pub open spec fn driver_row(l: Seq<char>) -> Option<Seq<char>> {
    if has_prefix(l, "DRIVER="@) {
        Some(l.skip("DRIVER="@.len() as int))
    } else {
        None
    }
}

/// The first `DRIVER=` value among the lines `ls` from `i` on.
pub open spec fn first_driver_from(ls: Seq<Seq<char>>, i: int) -> Option<Seq<char>>
    decreases ls.len() - i,
{
    if i < 0 || i >= ls.len() {
        None
    } else {
        match driver_row(ls[i]) {
            Some(x) => Some(x),
            None => first_driver_from(ls, i + 1),
        }
    }
}

/// The DRM card's driver name from the content of its `uevent` file: what
/// follows `DRIVER=` on the first line that starts with it.
pub fn drm_driver(uevent: &str) -> (r: Option<String>)
    ensures
        opt_view(r) == first_driver_from(lines(uevent@), 0),
{
    let s = to_chars(uevent);
    let ls = lines_of(&s);
    let ghost lv = lines(uevent@);
    let key = to_chars("DRIVER=");
    let mut k: usize = 0;
    while k < ls.len()
        invariant
            views(ls@) == lv,
            lv == lines(uevent@),
            key@ == "DRIVER="@,
            first_driver_from(lv, 0) == first_driver_from(lv, k as int),
        decreases ls.len() - k,
    {
        let line = &ls[k];
        assert(line@ == lv[k as int]);
        assert(ls@.len() == lv.len());
        if starts_with(line, &key) {
            let rest = slice_chars(line, key.len(), line.len());
            assert(rest@ =~= line@.skip(key@.len() as int));
            assert(driver_row(lv[k as int]) == Some(rest@));
            assert(first_driver_from(lv, k as int) == Some(rest@));
            return Some(string_from_chars(&rest));
        }
        k += 1;
    }
    None
}

/// The first line of `content`, trimmed (empty when there is none).
pub fn first_line_trimmed(content: &str) -> (r: String)
    ensures
        r@ == trim(first_line(content@)),
{
    let s = to_chars(content);
    let l = first_line_of(&s);
    let t = trim_chars(&l);
    string_from_chars(&t)
}

/// A cpufreq value in kHz, read from the first line of a cpufreq file, in MHz.
pub open spec fn khz_file_mhz(content: Option<Seq<char>>) -> Option<u64> {
    match content {
        Some(c) => match parse_u64_spec(trim(first_line(c))) {
            Some(khz) => Some(khz / 1000),
            None => None,
        },
        None => None,
    }
}

/// The view of an optional `&str`.
pub open spec fn opt_str_view(o: Option<&str>) -> Option<Seq<char>> {
    match o {
        Some(s) => Some(s@),
        None => None,
    }
}

fn khz_to_mhz(content: Option<&str>) -> (r: Option<u64>)
    ensures
        r == khz_file_mhz(opt_str_view(content)),
{
    match content {
        Some(c) => {
            let s = to_chars(c);
            let l = first_line_of(&s);
            let t = trim_chars(&l);
            match parse_u64(&t) {
                Some(khz) => Some(khz / 1000),
                None => None,
            }
        },
        None => None,
    }
}

/// Current CPU frequency in MHz from the content of cpufreq's
/// `scaling_cur_freq` (kHz), or `None` when the file could not be read
/// (`content` is `None`) or does not hold a number.
pub fn read_cpu_freq_mhz(scaling_cur_freq: Option<&str>) -> (r: Option<u64>)
    ensures
        r == khz_file_mhz(opt_str_view(scaling_cur_freq)),
{
    khz_to_mhz(scaling_cur_freq)
}

/// The cpufreq hardware ceiling in MHz from the content of
/// `cpuinfo_max_freq` (kHz), or `None` when it could not be read or parsed.
pub fn read_cpu_max_freq_mhz(cpuinfo_max_freq: Option<&str>) -> (r: Option<u64>)
    ensures
        r == khz_file_mhz(opt_str_view(cpuinfo_max_freq)),
{
    khz_to_mhz(cpuinfo_max_freq)
}


/// A brand with the `(R)`, `(r)`, `(TM)` and `(tm)` marks taken out, in
/// that order.
pub open spec fn strip_marks(s: Seq<char>) -> Seq<char> {
    remove_all(remove_all(remove_all(remove_all(s, "(R)"@), "(r)"@), "(TM)"@), "(tm)"@)
}

/// The words of `ws` other than the filler word `CPU`.
pub open spec fn drop_cpu(ws: Seq<Seq<char>>) -> Seq<Seq<char>>
    decreases ws.len(),
{
    if ws.len() == 0 {
        ws
    } else {
        let r = drop_cpu(ws.drop_last());
        if ws.last() == "CPU"@ {
            r
        } else {
            r.push(ws.last())
        }
    }
}

/// A CPU brand tidied for display: marks taken out, everything from the
/// first `@` (the clock) dropped, the word `CPU` dropped, and the remaining
/// words joined by single spaces.
pub open spec fn clean_brand_spec(b: Seq<char>) -> Seq<char> {
    join(drop_cpu(words(take_until(strip_marks(b), '@'))), seq![' '])
}

fn join_without_cpu(ws: &Vec<Vec<char>>) -> (r: Vec<char>)
    ensures
        r@ == join(drop_cpu(views(ws@)), seq![' ']),
{
    let cpu = to_chars("CPU");
    let ghost v = views(ws@);
    let mut out: Vec<char> = Vec::new();
    let mut nk: usize = 0;
    let mut i: usize = 0;
    assert(v.take(0) =~= Seq::<Seq<char>>::empty());
    while i < ws.len()
        invariant
            v == views(ws@),
            cpu@ == "CPU"@,
            0 <= i <= ws.len(),
            nk <= i,
            nk == drop_cpu(v.take(i as int)).len(),
            out@ == join(drop_cpu(v.take(i as int)), seq![' ']),
        decreases ws.len() - i,
    {
        let w = &ws[i];
        assert(w@ == v[i as int]);
        let ghost prev = v.take(i as int);
        let ghost next = v.take(i + 1);
        assert(next.drop_last() =~= prev);
        assert(next.last() == w@);
        if !chars_eq(w, &cpu) {
            let ghost d = drop_cpu(prev);
            assert(drop_cpu(next) == d.push(w@));
            assert(d.push(w@).drop_last() =~= d);
            if nk > 0 {
                out.push(' ');
            }
            append_chars(&mut out, w);
            if nk == 0 {
                assert(out@ =~= w@);
            } else {
                assert(out@ =~= join(d, seq![' ']) + seq![' '] + w@);
            }
            nk += 1;
        }
        i += 1;
    }
    assert(v.take(ws.len() as int) =~= v);
    out
}

proof fn lemma_drop_cpu_facts(ws: Seq<Seq<char>>)
    ensures
        forall|k: int| 0 <= k < drop_cpu(ws).len() ==> #[trigger] drop_cpu(ws)[k] != "CPU"@,
        forall|k: int|
            0 <= k < drop_cpu(ws).len() ==> exists|m: int| 0 <= m < ws.len() && ws[m] == #[trigger] drop_cpu(ws)[k],
    decreases ws.len(),
{
    if ws.len() > 0 {
        let wp = ws.drop_last();
        lemma_drop_cpu_facts(wp);
        let d = drop_cpu(ws);
        assert forall|k: int| 0 <= k < d.len() implies exists|m: int| 0 <= m < ws.len() && ws[m]
            == #[trigger] d[k] by {
            if k < drop_cpu(wp).len() {
                let m = choose|m: int| 0 <= m < wp.len() && wp[m] == drop_cpu(wp)[k];
                assert(ws[m] == d[k]);
            } else {
                assert(ws[ws.len() - 1] == d[k]);
            }
        }
    }
}

/// The tidied brand is tidy: it holds no `@` (the clock is gone), it splits
/// into exactly the kept words again (single spaces, no leading or trailing
/// whitespace), and none of those words is `CPU`.
pub proof fn lemma_clean_brand_tidy(b: Seq<char>)
    ensures
        !clean_brand_spec(b).contains('@'),
        words(clean_brand_spec(b)) == drop_cpu(words(take_until(strip_marks(b), '@'))),
        forall|k: int|
            0 <= k < words(clean_brand_spec(b)).len() ==> #[trigger] words(clean_brand_spec(b))[k] != "CPU"@,
{
    let t = take_until(strip_marks(b), '@');
    let ws = words(t);
    let d = drop_cpu(ws);
    lemma_take_until_without(strip_marks(b), '@');
    lemma_words_without(t, '@');
    lemma_words_shape(t);
    lemma_drop_cpu_facts(ws);
    assert forall|k: int| 0 <= k < d.len() implies is_word(#[trigger] d[k]) && !d[k].contains('@') by {
        let m = choose|m: int| 0 <= m < ws.len() && ws[m] == d[k];
        assert(ws[m].len() > 0);
    }
    lemma_words_join(d);
    lemma_join_chars(d, ' ', '@');
}

/// Tidy a CPU brand for display: drop the `(R)`/`(TM)` marks, the filler word
/// `CPU` and the trailing `@ x.yGHz` clock, and collapse whitespace. Turns
/// "Intel(R) Xeon(R) CPU E5-2620 v3 @ 2.40GHz" into "Intel Xeon E5-2620 v3".
pub fn clean_brand(brand: &str) -> (r: String)
    ensures
        r@ == clean_brand_spec(brand@),
{
    let s = to_chars(brand);
    let m1 = to_chars("(R)");
    let m2 = to_chars("(r)");
    let m3 = to_chars("(TM)");
    let m4 = to_chars("(tm)");
    proof {
        reveal_strlit("(R)");
        reveal_strlit("(r)");
        reveal_strlit("(TM)");
        reveal_strlit("(tm)");
    }
    let a = remove_all_of(&s, &m1);
    let b = remove_all_of(&a, &m2);
    let c = remove_all_of(&b, &m3);
    let d = remove_all_of(&c, &m4);
    let e = take_until_char(&d, '@');
    let ws = words_of(&e);
    let out = join_without_cpu(&ws);
    string_from_chars(&out)
}

/// The CPU model shown for the system: the tidied brand of the first CPU when
/// there is one and it is not empty, else the operating system's name, else
/// `Unknown`.
pub open spec fn cpu_model_spec(brand: Option<Seq<char>>, os_name: Option<Seq<char>>) -> Seq<
    char,
> {
    match brand {
        Some(b) if clean_brand_spec(b).len() > 0 => clean_brand_spec(b),
        _ => match os_name {
            Some(n) => n,
            None => "Unknown"@,
        },
    }
}

/// The CPU model shown for the system (see `cpu_model_spec`).
pub fn cpu_model(first_brand: Option<&str>, os_name: Option<String>) -> (r: String)
    ensures
        r@ == cpu_model_spec(opt_str_view(first_brand), opt_view(os_name)),
{
    if let Some(b) = first_brand {
        let c = clean_brand(b);
        if !c.as_str().is_empty() {
            return c;
        }
    }
    match os_name {
        Some(n) => n,
        None => String::from_str("Unknown"),
    }
}

/// The text fields of one `nvidia-smi` CSV line
/// (`name, util, temp, mem_used, mem_total`), each trimmed.
pub struct NvidiaFields {
    pub name: String,
    pub util: String,
    pub temp: String,
    pub mem_used: String,
    pub mem_total: String,
}

/// The trimmed comma-separated fields of `line` when there are at least five
/// and the first (the name) is not empty.
pub open spec fn nvidia_fields_spec(line: Seq<char>) -> Option<Seq<Seq<char>>> {
    let p = pieces(line, ',');
    if p.len() < 5 || trim(p[0]).len() == 0 {
        None
    } else {
        Some(seq![trim(p[0]), trim(p[1]), trim(p[2]), trim(p[3]), trim(p[4])])
    }
}

/// The views of the fields of a parsed `nvidia-smi` line.
pub open spec fn nvidia_view(o: Option<NvidiaFields>) -> Option<Seq<Seq<char>>> {
    match o {
        Some(f) => Some(seq![f.name@, f.util@, f.temp@, f.mem_used@, f.mem_total@]),
        None => None,
    }
}

/// Split one `nvidia-smi` CSV line (`name, util, temp, mem_used, mem_total`)
/// into its trimmed fields; `None` when there are fewer than five fields or
/// the name is empty. The numeric fields are left as text: `[N/A]` and other
/// non-numbers stay for the caller to turn into "no value".
pub fn parse_nvidia_smi(line: &str) -> (r: Option<NvidiaFields>)
    ensures
        nvidia_view(r) == nvidia_fields_spec(line@),
{
    let s = to_chars(line);
    nvidia_fields_of(&s)
}

/// The fields of the first GPU's line (the first line) of `nvidia-smi` output.
pub fn parse_nvidia_smi_output(stdout: &str) -> (r: Option<NvidiaFields>)
    ensures
        nvidia_view(r) == nvidia_fields_spec(first_line(stdout@)),
{
    let s = to_chars(stdout);
    let l = first_line_of(&s);
    nvidia_fields_of(&l)
}

fn nvidia_fields_of(s: &Vec<char>) -> (r: Option<NvidiaFields>)
    ensures
        nvidia_view(r) == nvidia_fields_spec(s@),
{
    let p = split_on(s, ',');
    if p.len() < 5 {
        return None;
    }
    let ghost pv = pieces(s@, ',');
    assert(p[0]@ == pv[0] && p[1]@ == pv[1] && p[2]@ == pv[2] && p[3]@ == pv[3] && p[4]@
        == pv[4]);
    let f0 = trim_chars(&p[0]);
    if f0.len() == 0 {
        return None;
    }
    let f1 = trim_chars(&p[1]);
    let f2 = trim_chars(&p[2]);
    let f3 = trim_chars(&p[3]);
    let f4 = trim_chars(&p[4]);
    let r = NvidiaFields {
        name: string_from_chars(&f0),
        util: string_from_chars(&f1),
        temp: string_from_chars(&f2),
        mem_used: string_from_chars(&f3),
        mem_total: string_from_chars(&f4),
    };
    assert(nvidia_view(Some(r)).unwrap() =~= nvidia_fields_spec(s@).unwrap());
    Some(r)
}


/// A device name that starts with `sd`, `vd` or `hd` and ends in a digit
/// names a partition (`sda1`, `vda1`, `hda2`), never a whole disk, so a
/// `/proc/diskstats` line that names one in its third field adds nothing.
pub proof fn lemma_numbered_name_is_partition(l: Seq<char>)
    requires
        words(l).len() > 2,
        has_prefix(words(l)[2], "sd"@) || has_prefix(words(l)[2], "vd"@) || has_prefix(
            words(l)[2],
            "hd"@,
        ),
        '0' <= words(l)[2].last() <= '9',
    ensures
        !is_whole_disk_spec(words(l)[2]),
        diskstats_line(l) == (0int, 0int),
{
    lemma_disk_prefixes_exclusive(words(l)[2]);
}

/// Names under `sd`, `vd` or `hd` can start with neither `mmcblk` nor
/// `nvme`.
proof fn lemma_disk_prefixes_exclusive(s: Seq<char>)
    ensures
        (has_prefix(s, "sd"@) || has_prefix(s, "vd"@) || has_prefix(s, "hd"@)) ==> !has_prefix(
            s,
            "mmcblk"@,
        ) && !has_prefix(s, "nvme"@) && s.len() >= 2,
{
    reveal_strlit("sd");
    reveal_strlit("vd");
    reveal_strlit("hd");
    reveal_strlit("mmcblk");
    reveal_strlit("nvme");
    if s.len() >= 2 {
        assert(s.take(2)[0] == s[0]);
        if s.len() >= 4 {
            assert(s.take(4)[0] == s[0]);
        }
        if s.len() >= 6 {
            assert(s.take(6)[0] == s[0]);
        }
    }
}

/// A name under `sd`, `vd` or `hd` that does not end in a digit (`sda`,
/// `vda`, `hdb`) is a whole disk, and a `/proc/diskstats` line of at least
/// ten fields that names one adds its fields 5 and 9 (sectors read and
/// written; zero for a field that is not a number).
pub proof fn lemma_lettered_name_is_disk(l: Seq<char>)
    requires
        words(l).len() >= 10,
        has_prefix(words(l)[2], "sd"@) || has_prefix(words(l)[2], "vd"@) || has_prefix(
            words(l)[2],
            "hd"@,
        ),
        !('0' <= words(l)[2].last() <= '9'),
    ensures
        is_whole_disk_spec(words(l)[2]),
        diskstats_line(l) == (or_zero(parse_u64_spec(words(l)[5])), or_zero(
            parse_u64_spec(words(l)[9]),
        )),
{
    lemma_disk_prefixes_exclusive(words(l)[2]);
}

/// `mmcblk` and `nvme` devices are whole disks exactly when their name has
/// no `p` (`nvme0n1` is a disk, `nvme0n1p1` a partition); names under none
/// of `mmcblk`, `nvme`, `sd`, `vd`, `hd` (`loop0`, `dm-0`) are never whole
/// disks.
pub proof fn lemma_other_disk_names(s: Seq<char>)
    ensures
        has_prefix(s, "mmcblk"@) || has_prefix(s, "nvme"@) ==> (is_whole_disk_spec(s)
            <==> !s.contains('p')),
        !has_prefix(s, "mmcblk"@) && !has_prefix(s, "nvme"@) && !has_prefix(s, "sd"@)
            && !has_prefix(s, "vd"@) && !has_prefix(s, "hd"@) ==> !is_whole_disk_spec(s),
{
}

/// The model shown is the tidied brand whenever that is not empty, whatever
/// the OS name; only a missing or empty brand falls back to the OS name, and
/// without that too the model is `Unknown`.
pub proof fn lemma_cpu_model_prefers_brand(
    brand: Option<Seq<char>>,
    os_name: Option<Seq<char>>,
    other_os: Option<Seq<char>>,
)
    ensures
        brand is Some && clean_brand_spec(brand->0).len() > 0 ==> cpu_model_spec(brand, os_name)
            == clean_brand_spec(brand->0),
        brand is Some && clean_brand_spec(brand->0).len() > 0 ==> cpu_model_spec(brand, os_name)
            == cpu_model_spec(brand, other_os),
        !(brand is Some && clean_brand_spec(brand->0).len() > 0) ==> cpu_model_spec(
            brand,
            os_name,
        ) == match os_name {
            Some(n) => n,
            None => "Unknown"@,
        },
        cpu_model_spec(brand, os_name).len() == 0 ==> os_name == Some(Seq::<char>::empty()),
{
    reveal_strlit("Unknown");
}

/// The default-route interface is that of the first row after the header
/// (line 0) whose second field is `00000000`: when there is one, it is
/// found, earlier rows are not default routes, and its first field is the
/// answer; when there is none, there is no answer. In particular a default
/// route on line 1 is always the answer.
pub proof fn lemma_default_route_is_first_default_row(content: Seq<char>)
    ensures
        first_route_from(lines(content), 1) is None <==> forall|k: int|
            1 <= k < lines(content).len() ==> !(words(#[trigger] lines(content)[k]).len() >= 2
                && words(lines(content)[k])[1] == "00000000"@),
        first_route_from(lines(content), 1) is Some ==> exists|k: int|
            1 <= k < lines(content).len() && words(#[trigger] lines(content)[k]).len() >= 2
                && words(lines(content)[k])[1] == "00000000"@ && first_route_from(
                lines(content),
                1,
            )->0 == words(lines(content)[k])[0] && forall|j: int|
                1 <= j < k ==> !(words(#[trigger] lines(content)[j]).len() >= 2 && words(
                    lines(content)[j],
                )[1] == "00000000"@),
        lines(content).len() > 1 && words(lines(content)[1]).len() >= 2 && words(
            lines(content)[1],
        )[1] == "00000000"@ ==> first_route_from(lines(content), 1) == Some(
            words(lines(content)[1])[0],
        ),
{
    lemma_first_route_from(lines(content), 1);
}

proof fn lemma_first_route_from(ls: Seq<Seq<char>>, i: int)
    requires
        0 <= i,
    ensures
        first_route_from(ls, i) is None <==> forall|k: int|
            i <= k < ls.len() ==> !(words(#[trigger] ls[k]).len() >= 2 && words(ls[k])[1]
                == "00000000"@),
        first_route_from(ls, i) is Some ==> exists|k: int|
            i <= k < ls.len() && words(#[trigger] ls[k]).len() >= 2 && words(ls[k])[1]
                == "00000000"@ && first_route_from(ls, i)->0 == words(ls[k])[0] && forall|j: int|
                i <= j < k ==> !(words(#[trigger] ls[j]).len() >= 2 && words(ls[j])[1]
                    == "00000000"@),
    decreases ls.len() - i,
{
    if i < ls.len() {
        lemma_first_route_from(ls, i + 1);
        if words(ls[i]).len() >= 2 && words(ls[i])[1] == "00000000"@ {
            assert(words(ls[i]).len() >= 2);
        } else {
            if first_route_from(ls, i + 1) is Some {
                let k = choose|k: int|
                    i + 1 <= k < ls.len() && words(#[trigger] ls[k]).len() >= 2 && words(ls[k])[1]
                        == "00000000"@ && first_route_from(ls, i + 1)->0 == words(ls[k])[0]
                        && forall|j: int|
                        i + 1 <= j < k ==> !(words(#[trigger] ls[j]).len() >= 2 && words(
                            ls[j],
                        )[1] == "00000000"@);
                assert(words(ls[k]).len() >= 2);
            }
        }
    }
}


/// Loopback names are exactly `lo` and `lo` followed by digits only: any
/// other character after `lo` (`lobby0`, `local0`) or another start makes a
/// real interface.
pub proof fn lemma_loopback_names(s: Seq<char>)
    ensures
        is_loopback_spec(seq!['l', 'o']),
        is_loopback_spec(s) ==> s.len() >= 2 && s[0] == 'l' && s[1] == 'o',
        is_loopback_spec(s) ==> forall|i: int| 2 <= i < s.len() ==> '0' <= #[trigger] s[i] <= '9',
        s.len() >= 2 && s[0] == 'l' && s[1] == 'o' && (forall|i: int|
            2 <= i < s.len() ==> '0' <= #[trigger] s[i] <= '9') ==> is_loopback_spec(s),
{
    if s.len() == 2 && s[0] == 'l' && s[1] == 'o' {
        assert(s =~= seq!['l', 'o']);
    }
}

/// `l`, trimmed, starts with `interface:`.
pub open spec fn is_interface_line(l: Seq<char>) -> bool {
    has_prefix(trim(l), "interface:"@)
}

/// The value on an `interface:` line: what follows the key, trimmed.
pub open spec fn interface_value(l: Seq<char>) -> Seq<char> {
    trim(trim(l).skip("interface:"@.len() as int))
}

/// The macOS route answer is taken from the first line whose trimmed text
/// starts with `interface:`: earlier lines have no such prefix, and the
/// answer is the rest of that line, trimmed, when that is not empty. Without
/// such a line, or with an empty value on it, there is no answer.
pub proof fn lemma_macos_route_first_interface_line(out: Seq<char>)
    ensures
        macos_route_spec(out) matches Some(v) ==> v.len() > 0 && exists|k: int|
            0 <= k < lines(out).len() && is_interface_line(#[trigger] lines(out)[k]) && v
                == interface_value(lines(out)[k]) && forall|j: int|
                0 <= j < k ==> !is_interface_line(#[trigger] lines(out)[j]),
        (forall|k: int| 0 <= k < lines(out).len() ==> !is_interface_line(#[trigger] lines(out)[k]))
            ==> macos_route_spec(out) is None,
        forall|k: int|
            0 <= k < lines(out).len() && is_interface_line(#[trigger] lines(out)[k]) && (forall|
                j: int,
            | 0 <= j < k ==> !is_interface_line(#[trigger] lines(out)[j]))
                ==> macos_route_spec(out) == if interface_value(lines(out)[k]).len() > 0 {
                Some(interface_value(lines(out)[k]))
            } else {
                None::<Seq<char>>
            },
{
    let ls = lines(out);
    lemma_first_interface_from(ls, 0);
}

proof fn lemma_first_interface_from(ls: Seq<Seq<char>>, i: int)
    requires
        0 <= i,
    ensures
        first_interface_from(ls, i) is None <==> forall|k: int|
            i <= k < ls.len() ==> !is_interface_line(#[trigger] ls[k]),
        first_interface_from(ls, i) is Some ==> exists|k: int|
            i <= k < ls.len() && is_interface_line(#[trigger] ls[k]) && first_interface_from(
                ls,
                i,
            )->0 == trim(ls[k]).skip("interface:"@.len() as int) && forall|j: int|
                i <= j < k ==> !is_interface_line(#[trigger] ls[j]),
        forall|k: int|
            i <= k < ls.len() && is_interface_line(#[trigger] ls[k]) && (forall|j: int|
                i <= j < k ==> !is_interface_line(#[trigger] ls[j])) ==> first_interface_from(ls, i)
                == Some(trim(ls[k]).skip("interface:"@.len() as int)),
    decreases ls.len() - i,
{
    if i < ls.len() {
        lemma_first_interface_from(ls, i + 1);
        if !is_interface_line(ls[i]) && first_interface_from(ls, i + 1) is Some {
            let k = choose|k: int|
                i + 1 <= k < ls.len() && is_interface_line(#[trigger] ls[k]) && first_interface_from(
                    ls,
                    i + 1,
                )->0 == trim(ls[k]).skip("interface:"@.len() as int) && forall|j: int|
                    i + 1 <= j < k ==> !is_interface_line(#[trigger] ls[j]);
            assert(is_interface_line(ls[k]));
        }
        assert forall|k: int|
            i <= k < ls.len() && is_interface_line(#[trigger] ls[k]) && (forall|j: int|
                i <= j < k ==> !is_interface_line(#[trigger] ls[j])) implies first_interface_from(
            ls,
            i,
        ) == Some(trim(ls[k]).skip("interface:"@.len() as int)) by {
            if k > i {
                assert(!is_interface_line(ls[i]));
            }
        }
    }
}

/// The DRM driver is what follows `DRIVER=` on the first line that starts
/// with it; earlier lines do not; without such a line there is none.
pub proof fn lemma_drm_driver_first_line(uevent: Seq<char>)
    ensures
        first_driver_from(lines(uevent), 0) is None <==> forall|k: int|
            0 <= k < lines(uevent).len() ==> !has_prefix(#[trigger] lines(uevent)[k], "DRIVER="@),
        forall|k: int|
            0 <= k < lines(uevent).len() && has_prefix(#[trigger] lines(uevent)[k], "DRIVER="@)
                && (forall|j: int|
                0 <= j < k ==> !has_prefix(#[trigger] lines(uevent)[j], "DRIVER="@))
                ==> first_driver_from(lines(uevent), 0) == Some(
                lines(uevent)[k].skip("DRIVER="@.len() as int),
            ),
{
    lemma_first_driver_from(lines(uevent), 0);
}

proof fn lemma_first_driver_from(ls: Seq<Seq<char>>, i: int)
    requires
        0 <= i,
    ensures
        first_driver_from(ls, i) is None <==> forall|k: int|
            i <= k < ls.len() ==> !has_prefix(#[trigger] ls[k], "DRIVER="@),
        forall|k: int|
            i <= k < ls.len() && has_prefix(#[trigger] ls[k], "DRIVER="@) && (forall|j: int|
                i <= j < k ==> !has_prefix(#[trigger] ls[j], "DRIVER="@))
                ==> first_driver_from(ls, i) == Some(ls[k].skip("DRIVER="@.len() as int)),
    decreases ls.len() - i,
{
    if i < ls.len() {
        lemma_first_driver_from(ls, i + 1);
        assert forall|k: int|
            i <= k < ls.len() && has_prefix(#[trigger] ls[k], "DRIVER="@) && (forall|j: int|
                i <= j < k ==> !has_prefix(#[trigger] ls[j], "DRIVER="@))
                implies first_driver_from(ls, i) == Some(ls[k].skip("DRIVER="@.len() as int)) by {
            if k > i {
                assert(!has_prefix(ls[i], "DRIVER="@));
            }
        }
    }
}

/// A cpufreq file gives a frequency exactly when its first line, trimmed,
/// is a number of kHz, and then the MHz `m` it gives is that number rounded
/// down: `1000 * m <= kHz < 1000 * (m + 1)`. A file that could not be read
/// gives none.
pub proof fn lemma_khz_to_mhz(content: Option<Seq<char>>)
    ensures
        content is None ==> khz_file_mhz(content) is None,
        content matches Some(c) ==> (khz_file_mhz(content) is Some <==> parse_u64_spec(
            trim(first_line(c)),
        ) is Some),
        content matches Some(c) ==> (khz_file_mhz(content) matches Some(m) ==> 1000 * m
            <= parse_u64_spec(trim(first_line(c)))->0 < 1000 * (m + 1)),
{
}

/// A `nvidia-smi` line parses exactly when it has at least five
/// comma-separated fields and the first, trimmed, is not empty; the fields
/// returned are then the first five, each trimmed, in order.
pub proof fn lemma_nvidia_fields(line: Seq<char>)
    ensures
        nvidia_fields_spec(line) is Some <==> pieces(line, ',').len() >= 5 && trim(
            pieces(line, ',')[0],
        ).len() > 0,
        nvidia_fields_spec(line) matches Some(f) ==> f.len() == 5 && forall|i: int|
            0 <= i < 5 ==> #[trigger] f[i] == trim(pieces(line, ',')[i]),
{
}

} // verus!

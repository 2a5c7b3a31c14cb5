//! Numbers as people like to read them: durations and amounts of data.

use crate::text::{dec, is_digit, lemma_dec, push_dec};
use vstd::arithmetic::div_mod::lemma_fundamental_div_mod_converse;
use vstd::prelude::*;

verus! {

/// A duration by its largest units.
pub open spec fn duration_text(total: nat) -> Seq<char> {
    let days = total / 86400;
    let hours = total % 86400 / 3600;
    let mins = total % 3600 / 60;
    let secs = total % 60;
    if days > 0 {
        dec(days) + "d "@ + dec(hours) + "h "@ + dec(mins) + "m"@
    } else if hours > 0 {
        dec(hours) + "h "@ + dec(mins) + "m "@ + dec(secs) + "s"@
    } else if mins > 0 {
        dec(mins) + "m "@ + dec(secs) + "s"@
    } else {
        dec(secs) + "s"@
    }
}

/// A duration such as `1h 4m 12s`.
pub fn duration(total_secs: u64) -> (s: String)
    ensures
        s@ == duration_text(total_secs as nat),
{
    let days: u64 = total_secs / 86400;
    let hours: u64 = (total_secs % 86400) / 3600;
    let mins: u64 = (total_secs % 3600) / 60;
    let secs: u64 = total_secs % 60;
    let mut s = String::new();
    if days > 0 {
        push_dec(&mut s, days);
        s.push_str("d ");
        push_dec(&mut s, hours);
        s.push_str("h ");
        push_dec(&mut s, mins);
        s.push_str("m");
    } else if hours > 0 {
        push_dec(&mut s, hours);
        s.push_str("h ");
        push_dec(&mut s, mins);
        s.push_str("m ");
        push_dec(&mut s, secs);
        s.push_str("s");
    } else if mins > 0 {
        push_dec(&mut s, mins);
        s.push_str("m ");
        push_dec(&mut s, secs);
        s.push_str("s");
    } else {
        push_dec(&mut s, secs);
        s.push_str("s");
    }
    assert(s@ =~= duration_text(total_secs as nat));
    s
}

// ---------------------------------------------------------------------
// Amounts of data
// ---------------------------------------------------------------------

/// `a / b` rounded to the nearest integer, and to the even one of two.
pub open spec fn nearest(a: nat, b: nat) -> nat {
    let q = a / b;
    let r = a % b;
    if 2 * r < b || (2 * r == b && q % 2 == 0) {
        q
    } else {
        q + 1
    }
}

/// The distance between the numbers of 53 significant bits around `n`.
pub open spec fn spacing(n: nat) -> nat
    decreases n,
{
    if n < 0x20_0000_0000_0000 {
        1
    } else {
        2 * spacing(n / 2)
    }
}

/// `n` rounded to 53 significant bits, as in double precision.
pub open spec fn rounded(n: nat) -> nat {
    nearest(n, spacing(n)) * spacing(n)
}

/// The unit that an amount of at least 1024 is given in: its size in bytes, and
/// its name. An amount beyond the last unit stays in it.
pub open spec fn unit_of(v: nat) -> (nat, Seq<char>) {
    if v < 0x10_0000 {
        (0x400, "KB"@)
    } else if v < 0x4000_0000 {
        (0x10_0000, "MB"@)
    } else if v < 0x100_0000_0000 {
        (0x4000_0000, "GB"@)
    } else {
        (0x100_0000_0000, "TB"@)
    }
}

/// An amount of data, with one decimal in the unit that suits it.
pub open spec fn bytes_text(n: nat) -> Seq<char> {
    if n < 1024 {
        dec(n) + " B"@
    } else {
        let v = rounded(n);
        let (size, name) = unit_of(v);
        let tenths = nearest(10 * v, size);
        dec(tenths / 10) + "."@ + dec(tenths % 10) + " "@ + name
    }
}

fn div_nearest(a: u128, b: u128) -> (q: u128)
    requires
        0 < b <= 0x1_0000_0000_0000_0000,
        a <= 0x10_0000_0000_0000_0000,
    ensures
        q == nearest(a as nat, b as nat),
        q <= a / b + 1,
{
    let q: u128 = a / b;
    let r: u128 = a % b;
    assert(q <= a) by (nonlinear_arith)
        requires
            q == a / b,
            b > 0,
    ;
    if 2 * r < b || (2 * r == b && q % 2 == 0) {
        q
    } else {
        q + 1
    }
}

fn spacing_of(n: u64) -> (p: u64)
    ensures
        p == spacing(n as nat),
        1 <= p <= 2048,
        n <= 0x1f_ffff_ffff_ffff ==> p == 1,
        p > 1 ==> p <= n,
    decreases n,
{
    if n < 0x20_0000_0000_0000 {
        1
    } else {
        proof {
            lemma_spacing_bound((n / 2) as nat);
        }
        2 * spacing_of(n / 2)
    }
}

proof fn lemma_spacing_bound(n: nat)
    ensures
        n <= 0x1f_ffff_ffff_ffff ==> spacing(n) <= 1,
        n <= 0x3f_ffff_ffff_ffff ==> spacing(n) <= 2,
        n <= 0x7f_ffff_ffff_ffff ==> spacing(n) <= 4,
        n <= 0xff_ffff_ffff_ffff ==> spacing(n) <= 8,
        n <= 0x1ff_ffff_ffff_ffff ==> spacing(n) <= 16,
        n <= 0x3ff_ffff_ffff_ffff ==> spacing(n) <= 32,
        n <= 0x7ff_ffff_ffff_ffff ==> spacing(n) <= 64,
        n <= 0xfff_ffff_ffff_ffff ==> spacing(n) <= 128,
        n <= 0x1fff_ffff_ffff_ffff ==> spacing(n) <= 256,
        n <= 0x3fff_ffff_ffff_ffff ==> spacing(n) <= 512,
        n <= 0x7fff_ffff_ffff_ffff ==> spacing(n) <= 1024,
        n <= 0xffff_ffff_ffff_ffff ==> spacing(n) <= 2048,
    decreases n,
{
    if n >= 0x20_0000_0000_0000 {
        lemma_spacing_bound(n / 2);
    }
}

/// An amount of data such as `4.2 MB`.
pub fn bytes(n: u64) -> (s: String)
    ensures
        s@ == bytes_text(n as nat),
{
    let mut s = String::new();
    if n < 1024 {
        push_dec(&mut s, n);
        s.push_str(" B");
        assert(s@ =~= bytes_text(n as nat));
        return s;
    }
    let p: u128 = spacing_of(n) as u128;
    let q: u128 = div_nearest(n as u128, p);
    assert(q * p <= n + p) by (nonlinear_arith)
        requires
            q <= n as u128 / p + 1,
            p > 0,
    ;
    let v: u128 = q * p;
    let (size, name): (u128, &str) = if v < 0x10_0000 {
        (0x400, "KB")
    } else if v < 0x4000_0000 {
        (0x10_0000, "MB")
    } else if v < 0x100_0000_0000 {
        (0x4000_0000, "GB")
    } else {
        (0x100_0000_0000, "TB")
    };
    let tenths: u128 = div_nearest(10 * v, size);
    push_dec(&mut s, (tenths / 10) as u64);
    s.push_str(".");
    push_dec(&mut s, (tenths % 10) as u64);
    s.push_str(" ");
    s.push_str(name);
    assert(s@ =~= bytes_text(n as nat));
    s
}

/// A rate such as `1.2 KB/s`, given in whole bytes a second.
pub fn rate(bytes_per_sec: u64) -> (s: String)
    ensures
        s@ == bytes_text(bytes_per_sec as nat) + "/s"@,
{
    let mut s = bytes(bytes_per_sec);
    s.push_str("/s");
    s
}

/// Amounts below 2^53 are not rounded before they are scaled, and the decimal
/// that is shown is off by at most half of itself.
pub proof fn law_amount_is_close(n: nat, size: nat)
    requires
        n < 0x20_0000_0000_0000,
        size > 0,
    ensures
        rounded(n) == n,
        2 * (10 * n) <= size * (2 * nearest(10 * n, size) + 1),
        size * (2 * nearest(10 * n, size)) <= 2 * (10 * n) + size,
{
    assert(spacing(n) == 1);
    assert(n % 1 == 0 && n / 1 == n);
    assert(nearest(n, 1) == n);
    assert(rounded(n) == n) by (nonlinear_arith)
        requires
            rounded(n) == nearest(n, 1) * 1,
            nearest(n, 1) == n,
    ;
    lemma_nearest(10 * n, size);
}

/// A number that something other than a digit follows ends where that begins.
proof fn lemma_number_first(a: nat, x: Seq<char>, b: nat, y: Seq<char>)
    requires
        dec(a) + x == dec(b) + y,
        x.len() > 0,
        y.len() > 0,
        !is_digit(x[0]),
        !is_digit(y[0]),
    ensures
        a == b,
        x == y,
{
    lemma_dec(a);
    lemma_dec(b);
    let s = dec(a) + x;
    let m = dec(a).len() as int;
    let n = dec(b).len() as int;
    assert(s[m] == x[0] && s[n] == y[0]);
    if m < n {
        assert(s[m] == dec(b)[m]);
        assert(is_digit(dec(b)[m]));
    } else if n < m {
        assert(s[n] == dec(a)[n]);
        assert(is_digit(dec(a)[n]));
    }
    assert(dec(a) =~= s.take(m));
    assert(dec(b) =~= s.take(m));
    assert(x =~= s.skip(m));
    assert(y =~= s.skip(m));
}

/// What stands behind the first number of a duration.
#[verifier::opaque]
spec fn tail_text(total: nat) -> Seq<char> {
    let hours = total % 86400 / 3600;
    let mins = total % 3600 / 60;
    let secs = total % 60;
    if total >= 86400 {
        "d "@ + (dec(hours) + ("h "@ + (dec(mins) + "m"@)))
    } else if total >= 3600 {
        "h "@ + (dec(mins) + ("m "@ + (dec(secs) + "s"@)))
    } else if total >= 60 {
        "m "@ + (dec(secs) + "s"@)
    } else {
        "s"@
    }
}

/// The first number of a duration.
#[verifier::opaque]
spec fn lead_number(total: nat) -> nat {
    if total >= 86400 {
        total / 86400
    } else if total >= 3600 {
        total / 3600
    } else if total >= 60 {
        total / 60
    } else {
        total
    }
}

#[verifier::rlimit(40)]
proof fn lemma_duration_parts(total: nat)
    ensures
        duration_text(total) == dec(lead_number(total)) + tail_text(total),
        tail_text(total).len() > 0,
        tail_text(total)[0] == (if total >= 86400 {
            'd'
        } else if total >= 3600 {
            'h'
        } else if total >= 60 {
            'm'
        } else {
            's'
        }),
{
    reveal_strlit("d ");
    reveal_strlit("h ");
    reveal_strlit("m ");
    reveal_strlit("s");
    reveal(tail_text);
    reveal(lead_number);
    assert(duration_text(total) =~= dec(lead_number(total)) + tail_text(total));
}

proof fn lemma_behind(unit: Seq<char>, x: Seq<char>, y: Seq<char>)
    requires
        unit + x == unit + y,
    ensures
        x == y,
{
    assert(x =~= (unit + x).skip(unit.len() as int));
    assert(y =~= (unit + y).skip(unit.len() as int));
}

/// Two numbers with their units, the first of which a space follows.
proof fn lemma_two_numbers(a: nat, c: nat, b: nat, d: nat, unit: Seq<char>, last: Seq<char>)
    requires
        unit.len() > 0,
        last.len() > 0,
        !is_digit(unit[0]),
        !is_digit(last[0]),
        dec(a) + (unit + (dec(c) + last)) == dec(b) + (unit + (dec(d) + last)),
    ensures
        a == b,
        c == d,
{
    let x = unit + (dec(c) + last);
    let y = unit + (dec(d) + last);
    assert(x[0] == unit[0] && y[0] == unit[0]);
    lemma_number_first(a, x, b, y);
    lemma_behind(unit, dec(c) + last, dec(d) + last);
    lemma_number_first(c, last, d, last);
}

proof fn lemma_tails(a: nat, b: nat)
    requires
        tail_text(a) == tail_text(b),
        a >= 86400 <==> b >= 86400,
        a >= 3600 <==> b >= 3600,
        a >= 60 <==> b >= 60,
    ensures
        a >= 86400 ==> a % 86400 / 3600 == b % 86400 / 3600,
        a >= 3600 ==> a % 3600 / 60 == b % 3600 / 60,
        60 <= a < 86400 ==> a % 60 == b % 60,
{
    reveal_strlit("h ");
    reveal_strlit("m ");
    reveal_strlit("m");
    reveal_strlit("s");
    reveal(tail_text);
    let (ah, am, sa) = (a % 86400 / 3600, a % 3600 / 60, a % 60);
    let (bh, bm, sb) = (b % 86400 / 3600, b % 3600 / 60, b % 60);
    if a >= 86400 {
        let x = dec(ah) + ("h "@ + (dec(am) + "m"@));
        let y = dec(bh) + ("h "@ + (dec(bm) + "m"@));
        lemma_behind("d "@, x, y);
        lemma_two_numbers(ah, am, bh, bm, "h "@, "m"@);
    } else if a >= 3600 {
        let x = dec(am) + ("m "@ + (dec(sa) + "s"@));
        let y = dec(bm) + ("m "@ + (dec(sb) + "s"@));
        lemma_behind("h "@, x, y);
        lemma_two_numbers(am, sa, bm, sb, "m "@, "s"@);
    } else if a >= 60 {
        lemma_behind("m "@, dec(sa) + "s"@, dec(sb) + "s"@);
        lemma_number_first(sa, "s"@, sb, "s"@);
    }
}

/// A time is the sum of its days, hours, minutes and seconds.
proof fn lemma_clock(t: nat)
    ensures
        t == 86400 * (t / 86400) + 3600 * (t % 86400 / 3600) + 60 * (t % 3600 / 60) + t % 60,
        t / 60 == 1440 * (t / 86400) + 60 * (t % 86400 / 3600) + t % 3600 / 60,
{
    let d = t as int / 86400;
    let r = t as int % 86400;
    let h = r / 3600;
    let q = r % 3600;
    assert(t == 3600 * (24 * d + h) + q);
    lemma_fundamental_div_mod_converse(t as int, 3600, 24 * d + h, q);
    let m = q / 60;
    let s = q % 60;
    assert(t == 60 * (1440 * d + 60 * h + m) + s);
    lemma_fundamental_div_mod_converse(t as int, 60, 1440 * d + 60 * h + m, s);
}

proof fn lemma_same_time(a: nat, b: nat)
    requires
        lead_number(a) == lead_number(b),
        a >= 86400 <==> b >= 86400,
        a >= 3600 <==> b >= 3600,
        a >= 60 <==> b >= 60,
        a >= 86400 ==> a % 86400 / 3600 == b % 86400 / 3600,
        a >= 3600 ==> a % 3600 / 60 == b % 3600 / 60,
        60 <= a < 86400 ==> a % 60 == b % 60,
    ensures
        a / 60 == b / 60,
        a < 86400 ==> a == b,
{
    reveal(lead_number);
    lemma_clock(a);
    lemma_clock(b);
}

/// Durations that are shown alike differ by less than a minute, and not at all
/// where they are shorter than a day.
pub proof fn law_durations_are_told_apart(a: nat, b: nat)
    requires
        duration_text(a) == duration_text(b),
    ensures
        a / 60 == b / 60,
        a < 86400 ==> a == b,
{
    lemma_duration_parts(a);
    lemma_duration_parts(b);
    lemma_number_first(lead_number(a), tail_text(a), lead_number(b), tail_text(b));
    lemma_tails(a, b);
    lemma_same_time(a, b);
}

/// A duration of days, hours, minutes and seconds is told by its largest unit and the
/// two units below it, or by those that there are.
pub proof fn law_duration_tells_its_parts(d: nat, h: nat, m: nat, s: nat)
    requires
        h < 24,
        m < 60,
        s < 60,
    ensures
        duration_text(86400 * d + 3600 * h + 60 * m + s) == (if d > 0 {
            dec(d) + "d "@ + dec(h) + "h "@ + dec(m) + "m"@
        } else if h > 0 {
            dec(h) + "h "@ + dec(m) + "m "@ + dec(s) + "s"@
        } else if m > 0 {
            dec(m) + "m "@ + dec(s) + "s"@
        } else {
            dec(s) + "s"@
        }),
{
    let total = 86400 * d + 3600 * h + 60 * m + s;
    assert(total / 86400 == d);
    assert(total % 86400 == 3600 * h + 60 * m + s);
    assert(total % 3600 == 60 * m + s);
    assert(total % 60 == s);
}

/// An amount below a kilobyte is told in bytes; a larger one in kilobytes, megabytes,
/// gigabytes or terabytes, of 1024 each, with one decimal that is as close as can be.
pub proof fn law_amount_is_told_in_its_unit(n: nat)
    requires
        n < 0x20_0000_0000_0000,
    ensures
        n < 1024 ==> bytes_text(n) == dec(n) + " B"@,
        n >= 1024 ==> exists|tenths: nat, size: nat, name: Seq<char>|
            #![trigger told_as(tenths, name), is_unit(size, name)]
            bytes_text(n) == told_as(tenths, name) && is_unit(size, name) && size <= n && (n < 1024
                * size || size == 0x100_0000_0000) && 2 * (10 * n) <= size * (2 * tenths + 1) && size
                * (2 * tenths) <= 2 * (10 * n) + size,
{
    if n >= 1024 {
        let (size, name) = unit_of(n);
        law_amount_is_close(n, size);
        let tenths = nearest(10 * n, size);
        assert(bytes_text(n) == told_as(tenths, name));
        assert(is_unit(size, name));
    }
}

/// An amount with one decimal and its unit.
pub open spec fn told_as(tenths: nat, name: Seq<char>) -> Seq<char> {
    dec(tenths / 10) + "."@ + dec(tenths % 10) + " "@ + name
}

/// Whether a unit has that many bytes.
pub open spec fn is_unit(size: nat, name: Seq<char>) -> bool {
    ||| size == 1024 && name == "KB"@
    ||| size == 1024 * 1024 && name == "MB"@
    ||| size == 1024 * 1024 * 1024 && name == "GB"@
    ||| size == 1024 * 1024 * 1024 * 1024 && name == "TB"@
}

proof fn lemma_nearest(a: nat, b: nat)
    requires
        b > 0,
    ensures
        2 * a <= b * (2 * nearest(a, b) + 1),
        b * (2 * nearest(a, b)) <= 2 * a + b,
{
    let q = a / b;
    let r = a % b;
    assert(a == b * q + r && 0 <= r < b) by (nonlinear_arith)
        requires
            q == a / b,
            r == a % b,
            b > 0,
    ;
    let m = nearest(a, b);
    assert(b * (2 * m) == 2 * (b * m)) by (nonlinear_arith);
    assert(b * (2 * m + 1) == 2 * (b * m) + b) by (nonlinear_arith);
    assert(b * (q + 1) == b * q + b) by (nonlinear_arith);
}

proof fn lemma_spacing(n: nat)
    ensures
        spacing(n) > 0,
        n >= 0x20_0000_0000_0000 ==> spacing(n) * 0x10_0000_0000_0000 <= n,
        n < 0x20_0000_0000_0000 ==> spacing(n) == 1,
    decreases n,
{
    if n >= 0x20_0000_0000_0000 {
        lemma_spacing(n / 2);
    }
}

/// Any amount is rounded to 53 significant bits before it is scaled: by no more than its
/// 2^53th part. What is shown is as close to that as one decimal of the unit allows.
pub proof fn law_large_amounts_are_told_closely(n: nat)
    requires
        n >= 1024,
    ensures
        exists|v: nat, tenths: nat, size: nat, name: Seq<char>|
            #![trigger told_as(tenths, name), is_unit(size, name), is_near(v, n)]
            bytes_text(n) == told_as(tenths, name) && is_unit(size, name) && is_near(v, n) && size
                <= v && (v < 1024 * size || size == 0x100_0000_0000) && 2 * (10 * v) <= size * (2
                * tenths + 1) && size * (2 * tenths) <= 2 * (10 * v) + size,
{
    let v = rounded(n);
    let s = spacing(n);
    lemma_spacing(n);
    lemma_nearest(n, s);
    let m = nearest(n, s);
    assert(v == s * m) by (nonlinear_arith)
        requires
            v == m * s,
    ;
    assert(s * (2 * m) == 2 * v) by (nonlinear_arith)
        requires
            v == s * m,
    ;
    assert(s * (2 * m + 1) == 2 * v + s) by (nonlinear_arith)
        requires
            v == s * m,
    ;
    assert(is_near(v, n)) by {
        if n < 0x20_0000_0000_0000 {
            assert(n / 1 == n && n % 1 == 0);
            assert(m == n);
            assert(v == n) by (nonlinear_arith)
                requires
                    v == m * s,
                    s == 1,
                    m == n,
            ;
        }
    }
    let (size, name) = unit_of(v);
    let tenths = nearest(10 * v, size);
    lemma_nearest(10 * v, size);
    assert(bytes_text(n) == told_as(tenths, name));
    assert(is_unit(size, name));
}

/// Whether `v` differs from `n` by no more than the 2^53th part of `n`.
pub open spec fn is_near(v: nat, n: nat) -> bool {
    &&& (v - n) * 0x20_0000_0000_0000 <= n
    &&& (n - v) * 0x20_0000_0000_0000 <= n
}

/// What lies halfway between two numbers is rounded to the even one, and everything else
/// to the nearer one.
pub proof fn law_halves_go_to_the_even_number(q: nat, r: nat, b: nat)
    requires
        r < b,
    ensures
        2 * r < b ==> nearest(b * q + r, b) == q,
        2 * r > b ==> nearest(b * q + r, b) == q + 1,
        2 * r == b ==> nearest(b * q + r, b) == (if q % 2 == 0 {
            q
        } else {
            q + 1
        }),
{
    assert(b * q == q * b) by (nonlinear_arith);
    lemma_fundamental_div_mod_converse((b * q + r) as int, b as int, q as int, r as int);
}

} // verus!

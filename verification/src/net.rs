//! Internet addresses: their values, and the texts that denote them.
//!
//! The grammar is the usual one: four decimal octets for IPv4; eight groups of
//! one to four hexadecimal digits for IPv6, of which one run of zero groups may
//! be written `::` and the last two may be written as an IPv4 address; a socket
//! address adds a port, and puts an IPv6 address in brackets.

use crate::text::{dec, dec_value, hex_digit_of, hex_digit_value, is_digit, is_digits, joined, split};
use crate::text::{lemma_dec, lemma_dec_of_value, lemma_dec_value_bound, lemma_split};
use vstd::prelude::*;
use vstd::slice::slice_subrange;

verus! {

/// An Internet address, as the number that its bits form in network order.
#[derive(Debug, Clone, Copy, PartialEq, Eq, Structural)]
pub enum IpAddr {
    /// An IPv4 address.
    V4(u32),
    /// An IPv6 address.
    V6(u128),
}

// ---------------------------------------------------------------------
// Splitting
// ---------------------------------------------------------------------

/// The position of the first `c` in `s`, or the length of `s`.
pub open spec fn index_of(s: Seq<char>, c: char) -> int
    decreases s.len(),
{
    if s.len() == 0 || s[0] == c {
        0
    } else {
        1 + index_of(s.drop_first(), c)
    }
}

/// What `index_of` says.
pub proof fn lemma_index_of(s: Seq<char>, c: char)
    ensures
        0 <= index_of(s, c) <= s.len(),
        index_of(s, c) < s.len() ==> s[index_of(s, c)] == c,
        forall|i: int| 0 <= i < index_of(s, c) ==> #[trigger] s[i] != c,
    decreases s.len(),
{
    if s.len() == 0 || s[0] == c {
    } else {
        let t = s.drop_first();
        lemma_index_of(t, c);
        assert forall|i: int| 0 <= i < index_of(s, c) implies #[trigger] s[i] != c by {
            if i > 0 {
                assert(t[i - 1] == s[i]);
            }
        }
    }
}

/// The position given by `index_of` is the only one of its kind.
pub proof fn lemma_index_of_unique(s: Seq<char>, c: char, k: int)
    requires
        0 <= k <= s.len(),
        k < s.len() ==> s[k] == c,
        forall|i: int| 0 <= i < k ==> #[trigger] s[i] != c,
    ensures
        index_of(s, c) == k,
{
    lemma_index_of(s, c);
}

/// The position of the first `c`, or the length.
pub fn find(v: &[char], c: char) -> (i: usize)
    ensures
        i == index_of(v@, c),
        i <= v@.len(),
{
    let mut i: usize = 0;
    while i < v.len() && v[i] != c
        invariant
            i <= v@.len(),
            forall|j: int| 0 <= j < i ==> #[trigger] v@[j] != c,
        decreases v@.len() - i,
    {
        i = i + 1;
    }
    proof {
        lemma_index_of_unique(v@, c, i as int);
    }
    i
}

/// The pieces between the occurrences of `c`.
pub fn split_chars(v: &[char], c: char) -> (r: Vec<Vec<char>>)
    ensures
        r.deep_view() == split(v@, c),
        r@.len() > 0,
{
    let mut done: Vec<Vec<char>> = Vec::new();
    let mut cur: Vec<char> = Vec::new();
    let mut i: usize = 0;
    assert(v@.take(0) =~= Seq::<char>::empty());
    assert(cur.deep_view() =~= Seq::<char>::empty());
    assert(done.deep_view().push(cur.deep_view()) =~= split(v@.take(0), c));
    while i < v.len()
        invariant
            i <= v@.len(),
            done.deep_view().push(cur.deep_view()) == split(v@.take(i as int), c),
        decreases v@.len() - i,
    {
        let ghost before = done.deep_view();
        let ghost before_cur = cur.deep_view();
        assert(v@.take(i + 1).drop_last() =~= v@.take(i as int));
        assert(v@.take(i + 1).last() == v@[i as int]);
        if v[i] == c {
            done.push(cur);
            cur = Vec::new();
            proof {
                assert(done.deep_view() =~= before.push(before_cur));
                assert(cur.deep_view() =~= Seq::<char>::empty());
            }
        } else {
            cur.push(v[i]);
            proof {
                assert(cur.deep_view() =~= before_cur.push(v@[i as int]));
                let r = split(v@.take(i as int), c);
                assert(r.drop_last() =~= before);
                assert(r.last() == before_cur);
            }
        }
        i = i + 1;
    }
    assert(v@.take(i as int) =~= v@);
    let ghost before = done.deep_view();
    let ghost before_cur = cur.deep_view();
    done.push(cur);
    assert(done.deep_view() =~= before.push(before_cur));
    done
}

/// A text without `c` is its own only piece.
pub proof fn lemma_split_single(s: Seq<char>, c: char)
    requires
        forall|i: int| 0 <= i < s.len() ==> #[trigger] s[i] != c,
    ensures
        split(s, c) == seq![s],
    decreases s.len(),
{
    if s.len() > 0 {
        let p = s.drop_last();
        assert forall|i: int| 0 <= i < p.len() implies #[trigger] p[i] != c by {
            assert(p[i] == s[i]);
        }
        lemma_split_single(p, c);
        assert(s.last() == s[s.len() - 1]);
        assert(p.push(s.last()) =~= s);
        assert(split(s, c) =~= seq![s]);
    } else {
        assert(s =~= Seq::<char>::empty());
    }
}

/// A last piece behind a separator is the last piece of the split.
pub proof fn lemma_split_last(a: Seq<char>, b: Seq<char>, c: char)
    requires
        forall|i: int| 0 <= i < b.len() ==> #[trigger] b[i] != c,
    ensures
        split(a.push(c) + b, c) == split(a, c).push(b),
    decreases b.len(),
{
    if b.len() == 0 {
        assert(a.push(c) + b =~= a.push(c));
        assert(a.push(c).drop_last() =~= a);
        assert(b =~= Seq::<char>::empty());
    } else {
        let p = b.drop_last();
        assert forall|i: int| 0 <= i < p.len() implies #[trigger] p[i] != c by {
            assert(p[i] == b[i]);
        }
        lemma_split_last(a, p, c);
        let s = a.push(c) + b;
        assert(s.drop_last() =~= a.push(c) + p);
        assert(s.last() == b[b.len() - 1]);
        assert(split(a, c).push(p).drop_last() =~= split(a, c));
        assert(p.push(b.last()) =~= b);
    }
}

/// Pieces without the separator come back when their joined form is split.
pub proof fn lemma_split_joined(pieces: Seq<Seq<char>>, c: char)
    requires
        pieces.len() > 0,
        forall|i: int, j: int|
            #![trigger pieces[i][j]]
            0 <= i < pieces.len() && 0 <= j < pieces[i].len() ==> pieces[i][j] != c,
    ensures
        split(joined(pieces, seq![c]), c) == pieces,
    decreases pieces.len(),
{
    if pieces.len() == 1 {
        assert forall|j: int| 0 <= j < pieces[0].len() implies #[trigger] pieces[0][j] != c by {}
        lemma_split_single(pieces[0], c);
        assert(pieces =~= seq![pieces[0]]);
    } else {
        let front = pieces.drop_last();
        let last = pieces.last();
        assert forall|i: int, j: int|
            #![trigger front[i][j]]
            0 <= i < front.len() && 0 <= j < front[i].len() implies front[i][j] != c by {
            assert(front[i] == pieces[i]);
            assert(pieces[i][j] != c);
        }
        lemma_split_joined(front, c);
        assert forall|j: int| 0 <= j < last.len() implies #[trigger] last[j] != c by {
            assert(pieces[pieces.len() - 1][j] != c);
        }
        let a = joined(front, seq![c]);
        lemma_split_last(a, last, c);
        assert(a + seq![c] =~= a.push(c));
        assert(split(a, c).push(last) =~= pieces);
    }
}

// ---------------------------------------------------------------------
// IPv4
// ---------------------------------------------------------------------

/// The four octets of an IPv4 address, in decimal.
pub open spec fn ipv4_pieces(n: u32) -> Seq<Seq<char>> {
    seq![
        dec((n / 0x1000000) as nat),
        dec((n / 0x10000 % 0x100) as nat),
        dec((n / 0x100 % 0x100) as nat),
        dec((n % 0x100) as nat),
    ]
}

/// The one text that denotes the IPv4 address `n`.
pub open spec fn ipv4_text(n: u32) -> Seq<char> {
    joined(ipv4_pieces(n), seq!['.'])
}

/// The IPv4 address that `s` denotes.
pub open spec fn ipv4_value(s: Seq<char>) -> Option<u32> {
    if exists|n: u32| s == ipv4_text(n) {
        Some(choose|n: u32| s == ipv4_text(n))
    } else {
        None
    }
}

/// Splitting the text of an address gives its octets.
pub proof fn lemma_ipv4_split(n: u32)
    ensures
        split(ipv4_text(n), '.') == ipv4_pieces(n),
{
    let p = ipv4_pieces(n);
    lemma_dec((n / 0x1000000) as nat);
    lemma_dec((n / 0x10000 % 0x100) as nat);
    lemma_dec((n / 0x100 % 0x100) as nat);
    lemma_dec((n % 0x100) as nat);
    assert forall|i: int, j: int|
        #![trigger p[i][j]]
        0 <= i < p.len() && 0 <= j < p[i].len() implies p[i][j] != '.' by {
        assert(is_digits(p[i]));
        assert(is_digit(p[i][j]));
    }
    lemma_split_joined(p, '.');
}

/// An address is determined by its text.
pub proof fn lemma_ipv4_value(n: u32)
    ensures
        ipv4_value(ipv4_text(n)) == Some(n),
{
    let s = ipv4_text(n);
    let m = choose|m: u32| s == ipv4_text(m);
    assert(s == ipv4_text(n));
    lemma_ipv4_split(n);
    lemma_ipv4_split(m);
    let a = ipv4_pieces(n);
    let b = ipv4_pieces(m);
    assert(a == b);
    assert(a[0] == b[0] && a[1] == b[1] && a[2] == b[2] && a[3] == b[3]);
    lemma_dec((n / 0x1000000) as nat);
    lemma_dec((n / 0x10000 % 0x100) as nat);
    lemma_dec((n / 0x100 % 0x100) as nat);
    lemma_dec((n % 0x100) as nat);
    lemma_dec((m / 0x1000000) as nat);
    lemma_dec((m / 0x10000 % 0x100) as nat);
    lemma_dec((m / 0x100 % 0x100) as nat);
    lemma_dec((m % 0x100) as nat);
    assert(n == m);
}

/// Reads one octet: a decimal number up to 255 without superfluous zeros.
fn parse_octet(p: &[char]) -> (r: Option<u8>)
    ensures
        match r {
            Some(v) => p@ == dec(v as nat),
            None => forall|v: u8| p@ != dec(v as nat),
        },
{
    let ok = p.len() >= 1 && p.len() <= 3 && (p.len() == 1 || p[0] != '0') && all_digits(p);
    if !ok {
        proof {
            assert forall|v: u8| p@ != dec(v as nat) by {
                lemma_dec(v as nat);
                reveal_with_fuel(dec, 4);
            }
        }
        return None;
    }
    let mut v: u32 = 0;
    let mut i: usize = 0;
    proof {
        lemma_dec_of_value(p@);
        lemma_dec_value_bound(p@);
    }
    while i < p.len()
        invariant
            i <= p@.len() <= 3,
            is_digits(p@),
            v == dec_value(p@.take(i as int)),
            i == 0 ==> v == 0,
            i == 1 ==> v < 10,
            i == 2 ==> v < 100,
            i == 3 ==> v < 1000,
        decreases p@.len() - i,
    {
        assert(is_digit(p@[i as int]));
        assert(p@.take(i + 1).drop_last() =~= p@.take(i as int));
        v = v * 10 + (p[i] as u32 - 48);
        i = i + 1;
    }
    assert(p@.take(i as int) =~= p@);
    if v <= 255 {
        Some(v as u8)
    } else {
        proof {
            assert forall|w: u8| p@ != dec(w as nat) by {
                lemma_dec(w as nat);
            }
        }
        None
    }
}

fn all_digits(p: &[char]) -> (r: bool)
    requires
        p@.len() > 0,
    ensures
        r == is_digits(p@),
{
    let mut i: usize = 0;
    while i < p.len()
        invariant
            i <= p@.len(),
            forall|j: int| 0 <= j < i ==> is_digit(#[trigger] p@[j]),
        decreases p@.len() - i,
    {
        if p[i] < '0' || p[i] > '9' {
            assert(!is_digit(p@[i as int]));
            return false;
        }
        i = i + 1;
    }
    true
}

/// Four octets with points between them are the text of the number they form.
proof fn lemma_ipv4_join(s: Seq<char>, n: u32, a: u8, b: u8, c: u8, d: u8)
    requires
        n == a * 0x1000000 + b * 0x10000 + c * 0x100 + d,
        split(s, '.').len() == 4,
        split(s, '.')[0] == dec(a as nat),
        split(s, '.')[1] == dec(b as nat),
        split(s, '.')[2] == dec(c as nat),
        split(s, '.')[3] == dec(d as nat),
    ensures
        ipv4_value(s) == Some(n),
{
    assert(n / 0x1000000 == a && n / 0x10000 % 0x100 == b && n / 0x100 % 0x100 == c && n % 0x100
        == d) by (bit_vector)
        requires
            n == a * 0x1000000 + b * 0x10000 + c * 0x100 + d,
    ;
    lemma_split(s, '.');
    assert(split(s, '.') =~= ipv4_pieces(n));
    lemma_ipv4_value(n);
}

/// Each piece of an address's text is the text of an octet.
proof fn lemma_ipv4_octets(n: u32)
    ensures
        forall|i: int|
            0 <= i < 4 ==> exists|v: u8| #[trigger] ipv4_pieces(n)[i] == #[trigger] dec(v as nat),
{
    let p = ipv4_pieces(n);
    assert(p[0] == dec(((n / 0x1000000) as u8) as nat));
    assert(p[1] == dec(((n / 0x10000 % 0x100) as u8) as nat));
    assert(p[2] == dec(((n / 0x100 % 0x100) as u8) as nat));
    assert(p[3] == dec(((n % 0x100) as u8) as nat));
    assert forall|i: int| 0 <= i < 4 implies exists|v: u8| #[trigger] p[i] == #[trigger] dec(v as nat) by {
        assert(i == 0 || i == 1 || i == 2 || i == 3);
    }
}

/// Reads an IPv4 address.
pub fn parse_ipv4(v: &[char]) -> (r: Option<u32>)
    ensures
        r == ipv4_value(v@),
{
    let parts = split_chars(v, '.');
    let ghost pieces = split(v@, '.');
    proof {
        assert(parts.deep_view().len() == parts@.len());
    }
    if parts.len() != 4 {
        proof {
            if exists|n: u32| v@ == ipv4_text(n) {
                lemma_ipv4_split(choose|n: u32| v@ == ipv4_text(n));
            }
        }
        return None;
    }
    proof {
        assert forall|i: int| 0 <= i < 4 implies #[trigger] pieces[i] == parts@[i]@ by {
            assert(parts.deep_view()[i] =~= parts@[i]@);
        }
    }
    let a = parse_octet(&parts[0]);
    let b = parse_octet(&parts[1]);
    let c = parse_octet(&parts[2]);
    let d = parse_octet(&parts[3]);
    match (a, b, c, d) {
        (Some(a), Some(b), Some(c), Some(d)) => {
            let n: u32 = a as u32 * 0x1000000 + b as u32 * 0x10000 + c as u32 * 0x100 + d as u32;
            proof {
                lemma_ipv4_join(v@, n, a, b, c, d);
            }
            Some(n)
        },
        _ => {
            proof {
                if exists|n: u32| v@ == ipv4_text(n) {
                    let n = choose|n: u32| v@ == ipv4_text(n);
                    lemma_ipv4_split(n);
                    lemma_ipv4_octets(n);
                    assert(parts@[0]@ == pieces[0]);
                    assert(parts@[1]@ == pieces[1]);
                    assert(parts@[2]@ == pieces[2]);
                    assert(parts@[3]@ == pieces[3]);
                }
            }
            None
        },
    }
}

// ---------------------------------------------------------------------
// IPv6
// ---------------------------------------------------------------------

/// One group: one to four hexadecimal digits, of either case.
pub open spec fn is_hex_group(s: Seq<char>) -> bool {
    1 <= s.len() <= 4 && forall|i: int| 0 <= i < s.len() ==> hex_digit_value(#[trigger] s[i]) is Some
}

/// The number that hexadecimal digits denote.
pub open spec fn hex_value(s: Seq<char>) -> nat
    decreases s.len(),
{
    if s.len() == 0 {
        0
    } else {
        hex_value(s.drop_last()) * 16 + hex_digit_value(s.last())->0
    }
}

/// The groups that `pieces` denote, if each of them is one.
pub open spec fn groups_of(pieces: Seq<Seq<char>>) -> Option<Seq<u16>> {
    if forall|i: int| 0 <= i < pieces.len() ==> is_hex_group(#[trigger] pieces[i]) {
        Some(Seq::new(pieces.len(), |i: int| hex_value(pieces[i]) as u16))
    } else {
        None
    }
}

/// The groups before a `::`.
pub open spec fn head_groups(s: Seq<char>) -> Option<Seq<u16>> {
    if s.len() == 0 {
        Some(Seq::empty())
    } else {
        groups_of(split(s, ':'))
    }
}

/// The groups at the end of an address; the last two may be written as an IPv4
/// address.
pub open spec fn tail_groups(s: Seq<char>) -> Option<Seq<u16>> {
    let pieces = split(s, ':');
    if s.len() == 0 {
        Some(Seq::empty())
    } else {
        match ipv4_value(pieces.last()) {
            Some(n) => match groups_of(pieces.drop_last()) {
                Some(g) => Some(g.push((n / 0x10000) as u16).push((n % 0x10000) as u16)),
                None => None,
            },
            None => groups_of(pieces),
        }
    }
}

/// The position of the first `::`, or the length of `s`.
pub open spec fn gap(s: Seq<char>) -> int
    decreases s.len(),
{
    if s.len() < 2 {
        s.len() as int
    } else if s[0] == ':' && s[1] == ':' {
        0
    } else {
        1 + gap(s.drop_first())
    }
}

/// The eight groups that `s` denotes.
pub open spec fn ipv6_groups(s: Seq<char>) -> Option<Seq<u16>> {
    let g = gap(s);
    if g == s.len() {
        match tail_groups(s) {
            Some(t) => if t.len() == 8 {
                Some(t)
            } else {
                None
            },
            None => None,
        }
    } else {
        match (head_groups(s.take(g)), tail_groups(s.skip(g + 2))) {
            (Some(h), Some(t)) => if h.len() + t.len() <= 7 {
                Some(h + Seq::new((8 - h.len() - t.len()) as nat, |i: int| 0u16) + t)
            } else {
                None
            },
            _ => None,
        }
    }
}

/// The number that eight groups form.
pub open spec fn groups_value(g: Seq<u16>) -> nat
    decreases g.len(),
{
    if g.len() == 0 {
        0
    } else {
        groups_value(g.drop_last()) * 0x10000 + g.last() as nat
    }
}

/// The IPv6 address that `s` denotes.
pub open spec fn ipv6_value(s: Seq<char>) -> Option<u128> {
    match ipv6_groups(s) {
        Some(g) => Some(groups_value(g) as u128),
        None => None,
    }
}

/// What `gap` says of its position.
pub proof fn lemma_gap(s: Seq<char>)
    ensures
        0 <= gap(s) <= s.len(),
        gap(s) < s.len() ==> gap(s) + 2 <= s.len() && s[gap(s)] == ':' && s[gap(s) + 1] == ':',
        forall|i: int| 0 <= i < gap(s) && i + 1 < s.len() ==> !(#[trigger] s[i] == ':' && s[i + 1] == ':'),
    decreases s.len(),
{
    if s.len() < 2 || (s[0] == ':' && s[1] == ':') {
    } else {
        let t = s.drop_first();
        lemma_gap(t);
        assert forall|i: int| 0 <= i < gap(s) && i + 1 < s.len() implies !(#[trigger] s[i] == ':'
            && s[i + 1] == ':') by {
            if i > 0 {
                assert(t[i - 1] == s[i] && t[i] == s[i + 1]);
            }
        }
    }
}

fn find_gap(v: &[char]) -> (i: usize)
    ensures
        i == gap(v@),
        i <= v@.len(),
        i < v@.len() ==> i + 2 <= v@.len(),
{
    proof {
        lemma_gap(v@);
    }
    let mut i: usize = 0;
    while i < v.len()
        invariant
            i <= v@.len(),
            forall|j: int|
                0 <= j < i && j + 1 < v@.len() ==> !(#[trigger] v@[j] == ':' && v@[j + 1] == ':'),
            gap(v@) >= i,
        decreases v@.len() - i,
    {
        proof {
            lemma_gap(v@);
        }
        if v.len() - i >= 2 && v[i] == ':' && v[i + 1] == ':' {
            assert(v@[i as int] == ':' && v@[i as int + 1] == ':');
            return i;
        }
        i = i + 1;
    }
    i
}

/// Reads one group.
fn parse_group(p: &[char]) -> (r: Option<u16>)
    ensures
        match r {
            Some(v) => is_hex_group(p@) && v == hex_value(p@),
            None => !is_hex_group(p@),
        },
{
    if p.len() == 0 || p.len() > 4 {
        return None;
    }
    let mut v: u32 = 0;
    let mut i: usize = 0;
    while i < p.len()
        invariant
            i <= p@.len() <= 4,
            forall|j: int| 0 <= j < i ==> hex_digit_value(#[trigger] p@[j]) is Some,
            v == hex_value(p@.take(i as int)),
            i == 0 ==> v == 0,
            i == 1 ==> v < 0x10,
            i == 2 ==> v < 0x100,
            i == 3 ==> v < 0x1000,
            i == 4 ==> v < 0x10000,
        decreases p@.len() - i,
    {
        assert(p@.take(i + 1).drop_last() =~= p@.take(i as int));
        match hex_digit_of(p[i]) {
            Some(d) => {
                v = v * 16 + d as u32;
            },
            None => {
                return None;
            },
        }
        i = i + 1;
    }
    assert(p@.take(i as int) =~= p@);
    Some(v as u16)
}

/// Reads the first `n` pieces as groups.
fn read_groups(parts: &Vec<Vec<char>>, n: usize) -> (r: Option<Vec<u16>>)
    requires
        n <= parts@.len(),
    ensures
        groups_of(parts.deep_view().take(n as int)) == (match r {
            Some(g) => Some(g@),
            None => None,
        }),
{
    let ghost pieces = parts.deep_view().take(n as int);
    let mut g: Vec<u16> = Vec::new();
    let mut i: usize = 0;
    while i < n
        invariant
            i <= n <= parts@.len(),
            pieces == parts.deep_view().take(n as int),
            pieces.len() == n,
            g@.len() == i,
            forall|j: int| 0 <= j < i ==> is_hex_group(#[trigger] pieces[j]) && g@[j] == hex_value(pieces[j]),
        decreases n - i,
    {
        assert(pieces[i as int] =~= parts@[i as int]@);
        match parse_group(&parts[i]) {
            Some(v) => {
                g.push(v);
            },
            None => {
                return None;
            },
        }
        i = i + 1;
    }
    assert(g@ =~= groups_of(pieces)->0);
    Some(g)
}

fn read_head(v: &[char]) -> (r: Option<Vec<u16>>)
    ensures
        head_groups(v@) == (match r {
            Some(g) => Some(g@),
            None => None,
        }),
{
    if v.len() == 0 {
        let g: Vec<u16> = Vec::new();
        assert(g@ =~= Seq::<u16>::empty());
        return Some(g);
    }
    let parts = split_chars(v, ':');
    assert(parts.deep_view().take(parts@.len() as int) =~= parts.deep_view());
    read_groups(&parts, parts.len())
}

fn read_tail(v: &[char]) -> (r: Option<Vec<u16>>)
    ensures
        tail_groups(v@) == (match r {
            Some(g) => Some(g@),
            None => None,
        }),
{
    if v.len() == 0 {
        let g: Vec<u16> = Vec::new();
        assert(g@ =~= Seq::<u16>::empty());
        return Some(g);
    }
    let parts = split_chars(v, ':');
    let last: usize = parts.len() - 1;
    assert(parts.deep_view().take(parts@.len() as int) =~= parts.deep_view());
    assert(parts.deep_view().take(last as int) =~= parts.deep_view().drop_last());
    assert(parts.deep_view().last() =~= parts@[last as int]@);
    match parse_ipv4(&parts[last]) {
        Some(n) => match read_groups(&parts, last) {
            Some(mut g) => {
                g.push((n / 0x10000) as u16);
                g.push((n % 0x10000) as u16);
                Some(g)
            },
            None => None,
        },
        None => read_groups(&parts, parts.len()),
    }
}

/// The number that eight groups form fits in 128 bits.
proof fn lemma_groups_value(g: Seq<u16>)
    requires
        g.len() <= 8,
    ensures
        g.len() == 0 ==> groups_value(g) == 0,
        g.len() == 1 ==> groups_value(g) < 0x10000,
        g.len() == 2 ==> groups_value(g) < 0x1_0000_0000,
        g.len() == 3 ==> groups_value(g) < 0x1_0000_0000_0000,
        g.len() == 4 ==> groups_value(g) < 0x1_0000_0000_0000_0000,
        g.len() == 5 ==> groups_value(g) < 0x1_0000_0000_0000_0000_0000,
        g.len() == 6 ==> groups_value(g) < 0x1_0000_0000_0000_0000_0000_0000,
        g.len() == 7 ==> groups_value(g) < 0x1_0000_0000_0000_0000_0000_0000_0000,
        groups_value(g) <= u128::MAX,
    decreases g.len(),
{
    if g.len() > 0 {
        lemma_groups_value(g.drop_last());
    }
}

fn value_of_groups(g: &Vec<u16>) -> (n: u128)
    requires
        g@.len() == 8,
    ensures
        n == groups_value(g@),
{
    let mut n: u128 = 0;
    let mut i: usize = 0;
    while i < 8
        invariant
            i <= 8,
            g@.len() == 8,
            n == groups_value(g@.take(i as int)),
        decreases 8 - i,
    {
        proof {
            assert(g@.take(i + 1).drop_last() =~= g@.take(i as int));
            lemma_groups_value(g@.take(i as int));
            lemma_groups_value(g@.take(i + 1));
        }
        n = n * 0x10000 + g[i] as u128;
        i = i + 1;
    }
    assert(g@.take(8) =~= g@);
    n
}

/// Reads an IPv6 address.
pub fn parse_ipv6(v: &[char]) -> (r: Option<u128>)
    ensures
        r == ipv6_value(v@),
{
    let g = find_gap(v);
    if g == v.len() {
        return match read_tail(v) {
            Some(t) => if t.len() == 8 {
                proof {
                    lemma_groups_value(t@);
                }
                Some(value_of_groups(&t))
            } else {
                None
            },
            None => None,
        };
    }
    let head = read_head(slice_subrange(v, 0, g));
    let tail = read_tail(slice_subrange(v, g + 2, v.len()));
    assert(v@.subrange(0, g as int) =~= v@.take(g as int));
    assert(v@.subrange(g + 2, v@.len() as int) =~= v@.skip(g + 2));
    match (head, tail) {
        (Some(h), Some(t)) => {
            if h.len() > 7 || t.len() > 7 || h.len() + t.len() > 7 {
                return None;
            }
            let mut all: Vec<u16> = h;
            let zeros: usize = 8 - all.len() - t.len();
            let ghost base = all@;
            let mut i: usize = 0;
            while i < zeros
                invariant
                    i <= zeros,
                    all@ == base + Seq::new(i as nat, |j: int| 0u16),
                decreases zeros - i,
            {
                all.push(0u16);
                i = i + 1;
                assert(all@ =~= base + Seq::new(i as nat, |j: int| 0u16));
            }
            let ghost front = all@;
            let mut k: usize = 0;
            while k < t.len()
                invariant
                    k <= t@.len(),
                    all@ == front + t@.take(k as int),
                decreases t@.len() - k,
            {
                all.push(t[k]);
                k = k + 1;
                assert(all@ =~= front + t@.take(k as int));
            }
            assert(t@.take(k as int) =~= t@);
            proof {
                lemma_groups_value(all@);
                assert(all@ =~= ipv6_groups(v@)->0);
            }
            Some(value_of_groups(&all))
        },
        _ => None,
    }
}

// ---------------------------------------------------------------------
// Addresses and socket addresses
// ---------------------------------------------------------------------

/// The address that `s` denotes.
pub open spec fn ip_value(s: Seq<char>) -> Option<IpAddr> {
    match ipv4_value(s) {
        Some(n) => Some(IpAddr::V4(n)),
        None => match ipv6_value(s) {
            Some(n) => Some(IpAddr::V6(n)),
            None => None,
        },
    }
}

/// Reads an address of either kind.
pub fn parse_ip(v: &[char]) -> (r: Option<IpAddr>)
    ensures
        r == ip_value(v@),
{
    match parse_ipv4(v) {
        Some(n) => Some(IpAddr::V4(n)),
        None => match parse_ipv6(v) {
            Some(n) => Some(IpAddr::V6(n)),
            None => None,
        },
    }
}

/// Decimal digits whose number is at most `limit`.
pub open spec fn is_number_up_to(s: Seq<char>, limit: nat) -> bool {
    is_digits(s) && dec_value(s) <= limit
}

/// An IPv4 address, a colon and a port.
pub open spec fn is_socket_addr_v4(s: Seq<char>) -> bool {
    let c = index_of(s, ':');
    c < s.len() && ipv4_value(s.take(c)) is Some && is_number_up_to(s.skip(c + 1), 65535)
}

/// What may stand in the brackets: an IPv6 address, and a scope number behind a
/// percent sign, if there is one.
pub open spec fn is_scoped_ipv6(s: Seq<char>) -> bool {
    let p = index_of(s, '%');
    ipv6_value(s.take(p)) is Some && (p < s.len() ==> is_number_up_to(s.skip(p + 1), 4294967295))
}

/// An IPv6 address in brackets, a colon and a port.
pub open spec fn is_socket_addr_v6(s: Seq<char>) -> bool {
    let b = index_of(s, ']');
    &&& b + 1 < s.len()
    &&& b > 0
    &&& s[0] == '['
    &&& s[b + 1] == ':'
    &&& is_scoped_ipv6(s.subrange(1, b))
    &&& is_number_up_to(s.skip(b + 2), 65535)
}

/// A text that denotes a socket address.
pub open spec fn is_socket_addr(s: Seq<char>) -> bool {
    is_socket_addr_v4(s) || is_socket_addr_v6(s)
}

fn number_up_to(p: &[char], limit: u64) -> (r: bool)
    requires
        limit <= 4294967295,
    ensures
        r == is_number_up_to(p@, limit as nat),
{
    if p.len() == 0 || !all_digits(p) {
        return false;
    }
    let mut v: u64 = 0;
    let mut big = false;
    let mut i: usize = 0;
    while i < p.len()
        invariant
            i <= p@.len(),
            is_digits(p@),
            limit <= 4294967295,
            big ==> dec_value(p@.take(i as int)) > limit,
            !big ==> v == dec_value(p@.take(i as int)) && v <= limit,
        decreases p@.len() - i,
    {
        assert(is_digit(p@[i as int]));
        assert(p@.take(i + 1).drop_last() =~= p@.take(i as int));
        if !big {
            v = v * 10 + (p[i] as u64 - 48);
            if v > limit {
                big = true;
            }
        }
        i = i + 1;
    }
    assert(p@.take(i as int) =~= p@);
    !big
}

fn socket_addr_v4(v: &[char]) -> (r: bool)
    ensures
        r == is_socket_addr_v4(v@),
{
    let c = find(v, ':');
    if c == v.len() {
        return false;
    }
    assert(v@.subrange(0, c as int) =~= v@.take(c as int));
    assert(v@.subrange(c + 1, v@.len() as int) =~= v@.skip(c + 1));
    parse_ipv4(slice_subrange(v, 0, c)).is_some() && number_up_to(
        slice_subrange(v, c + 1, v.len()),
        65535,
    )
}

fn scoped_ipv6(v: &[char]) -> (r: bool)
    ensures
        r == is_scoped_ipv6(v@),
{
    let p = find(v, '%');
    assert(v@.subrange(0, p as int) =~= v@.take(p as int));
    if parse_ipv6(slice_subrange(v, 0, p)).is_none() {
        return false;
    }
    if p == v.len() {
        return true;
    }
    assert(v@.subrange(p + 1, v@.len() as int) =~= v@.skip(p + 1));
    number_up_to(slice_subrange(v, p + 1, v.len()), 4294967295)
}

fn socket_addr_v6(v: &[char]) -> (r: bool)
    ensures
        r == is_socket_addr_v6(v@),
{
    let b = find(v, ']');
    if b == v.len() || b == v.len() - 1 || b == 0 || v[0] != '[' || v[b + 1] != ':' {
        return false;
    }
    assert(v@.subrange(b + 2, v@.len() as int) =~= v@.skip(b + 2));
    scoped_ipv6(slice_subrange(v, 1, b)) && number_up_to(slice_subrange(v, b + 2, v.len()), 65535)
}

/// Whether a text denotes a socket address.
pub fn parses_as_socket_addr(v: &[char]) -> (r: bool)
    ensures
        r == is_socket_addr(v@),
{
    socket_addr_v4(v) || socket_addr_v6(v)
}

// ---------------------------------------------------------------------
// What the texts mean
// ---------------------------------------------------------------------

/// Four octets in decimal, with points between them, denote the address whose bits they
/// are, the first octet being the highest.
pub proof fn law_four_octets_are_an_address(a: u8, b: u8, c: u8, d: u8)
    ensures
        ip_value(
            dec(a as nat) + seq!['.'] + dec(b as nat) + seq!['.'] + dec(c as nat) + seq!['.'] + dec(
                d as nat,
            ),
        ) == Some(
            IpAddr::V4((a * 0x1000000 + b * 0x10000 + c * 0x100 + d) as u32),
        ),
{
    let n = (a * 0x1000000 + b * 0x10000 + c * 0x100 + d) as u32;
    lemma_octets_of(n, a, b, c, d);
    let s = dec(a as nat) + seq!['.'] + dec(b as nat) + seq!['.'] + dec(c as nat) + seq!['.'] + dec(
        d as nat,
    );
    lemma_joined_four(dec(a as nat), dec(b as nat), dec(c as nat), dec(d as nat), seq!['.']);
    assert(ipv4_pieces(n) =~= seq![dec(a as nat), dec(b as nat), dec(c as nat), dec(d as nat)]);
    assert(s == ipv4_text(n));
    lemma_ipv4_value(n);
}

proof fn lemma_octets_of(n: u32, a: u8, b: u8, c: u8, d: u8)
    requires
        n == a * 0x1000000 + b * 0x10000 + c * 0x100 + d,
    ensures
        n / 0x1000000 == a,
        n / 0x10000 % 0x100 == b,
        n / 0x100 % 0x100 == c,
        n % 0x100 == d,
{
    assert(n / 0x1000000 == a && n / 0x10000 % 0x100 == b && n / 0x100 % 0x100 == c && n % 0x100
        == d) by (bit_vector)
        requires
            n == a * 0x1000000 + b * 0x10000 + c * 0x100 + d,
    ;
}

proof fn lemma_joined_four(
    a: Seq<char>,
    b: Seq<char>,
    c: Seq<char>,
    d: Seq<char>,
    sep: Seq<char>,
)
    ensures
        joined(seq![a, b, c, d], sep) == a + sep + b + sep + c + sep + d,
{
    reveal_with_fuel(joined, 4);
    assert(seq![a, b, c, d].drop_last() =~= seq![a, b, c]);
    assert(seq![a, b, c].drop_last() =~= seq![a, b]);
    assert(seq![a, b].drop_last() =~= seq![a]);
}

/// Nothing else denotes an IPv4 address: a text that does is that of its four octets.
pub proof fn law_only_four_octets_are_an_ipv4_address(s: Seq<char>, n: u32)
    requires
        ip_value(s) == Some(IpAddr::V4(n)),
    ensures
        exists|a: u8, b: u8, c: u8, d: u8|
            #![trigger dec(a as nat), dec(b as nat), dec(c as nat), dec(d as nat)]
            n == a * 0x1000000 + b * 0x10000 + c * 0x100 + d && s == dec(a as nat) + seq!['.'] + dec(
                b as nat,
            ) + seq!['.'] + dec(c as nat) + seq!['.'] + dec(d as nat),
{
    assert(ipv4_value(s) == Some(n));
    assert(s == ipv4_text(n));
    let a = (n / 0x1000000) as u8;
    let b = (n / 0x10000 % 0x100) as u8;
    let c = (n / 0x100 % 0x100) as u8;
    let d = (n % 0x100) as u8;
    lemma_joined_four(dec(a as nat), dec(b as nat), dec(c as nat), dec(d as nat), seq!['.']);
    assert(ipv4_pieces(n) =~= seq![dec(a as nat), dec(b as nat), dec(c as nat), dec(d as nat)]);
    assert(n == (n / 0x1000000) * 0x1000000 + (n / 0x10000 % 0x100) * 0x10000 + (n / 0x100 % 0x100)
        * 0x100 + n % 0x100) by (bit_vector);
}

/// Whether two colons never stand side by side, and none at either end; nor is there a
/// point.
spec fn is_run_of_groups(t: Seq<char>) -> bool {
    &&& t.len() > 0
    &&& t[0] != ':'
    &&& t.last() != ':'
    &&& forall|i: int| 0 <= i < t.len() - 1 ==> !(#[trigger] t[i] == ':' && t[i + 1] == ':')
    &&& forall|i: int| 0 <= i < t.len() ==> #[trigger] t[i] != '.'
}

proof fn lemma_group_chars(p: Seq<char>)
    requires
        is_hex_group(p),
    ensures
        forall|i: int| 0 <= i < p.len() ==> #[trigger] p[i] != ':' && p[i] != '.',
{
    assert forall|i: int| 0 <= i < p.len() implies #[trigger] p[i] != ':' && p[i] != '.' by {
        assert(hex_digit_value(p[i]) is Some);
    }
}

proof fn lemma_joined_groups(pieces: Seq<Seq<char>>)
    requires
        pieces.len() > 0,
        forall|i: int| 0 <= i < pieces.len() ==> is_hex_group(#[trigger] pieces[i]),
    ensures
        is_run_of_groups(joined(pieces, seq![':'])),
        split(joined(pieces, seq![':']), ':') == pieces,
        ipv4_value(pieces.last()) is None,
        ipv4_value(joined(pieces, seq![':'])) is None,
    decreases pieces.len(),
{
    let t = joined(pieces, seq![':']);
    let last = pieces.last();
    assert(is_hex_group(pieces[pieces.len() - 1]));
    lemma_group_chars(last);
    if pieces.len() > 1 {
        let front = pieces.drop_last();
        assert forall|i: int| 0 <= i < front.len() implies is_hex_group(#[trigger] front[i]) by {
            assert(front[i] == pieces[i]);
        }
        lemma_joined_groups(front);
        let u = joined(front, seq![':']);
        assert(t == u + seq![':'] + last);
        assert(t[0] == u[0]);
        assert forall|i: int| 0 <= i < t.len() - 1 implies !(#[trigger] t[i] == ':' && t[i + 1]
            == ':') by {
            if i + 1 < u.len() {
                assert(u[i] == t[i] && u[i + 1] == t[i + 1]);
            } else if i < u.len() {
                assert(t[i] == u.last());
            } else if i == u.len() {
                assert(t[i + 1] == last[0]);
            } else {
                assert(t[i] == last[i - u.len() - 1]);
            }
        }
        assert forall|i: int| 0 <= i < t.len() implies #[trigger] t[i] != '.' by {
            if i < u.len() {
                assert(u[i] == t[i]);
            } else if i > u.len() {
                assert(t[i] == last[i - u.len() - 1]);
            }
        }
    } else {
        assert(t == pieces[0]);
    }
    assert forall|i: int, j: int|
        #![trigger pieces[i][j]]
        0 <= i < pieces.len() && 0 <= j < pieces[i].len() implies pieces[i][j] != ':' by {
        lemma_group_chars(pieces[i]);
    }
    lemma_split_joined(pieces, ':');
    lemma_no_point_no_ipv4(last);
    lemma_no_point_no_ipv4(t);
}

proof fn lemma_no_point_no_ipv4(s: Seq<char>)
    requires
        forall|i: int| 0 <= i < s.len() ==> #[trigger] s[i] != '.',
    ensures
        ipv4_value(s) is None,
{
    if exists|n: u32| s == ipv4_text(n) {
        let n = choose|n: u32| s == ipv4_text(n);
        lemma_ipv4_split(n);
        lemma_split_single(s, '.');
    }
}

/// Eight groups of one to four hexadecimal digits, with colons between them, denote the
/// address whose bits they are, the first group being the highest.
pub proof fn law_eight_groups_are_an_address(pieces: Seq<Seq<char>>)
    requires
        pieces.len() == 8,
        forall|i: int| 0 <= i < pieces.len() ==> is_hex_group(#[trigger] pieces[i]),
    ensures
        ip_value(joined(pieces, seq![':'])) == Some(
            IpAddr::V6(
                groups_value(Seq::new(8, |i: int| hex_value(pieces[i]) as u16)) as u128,
            ),
        ),
{
    let s = joined(pieces, seq![':']);
    lemma_joined_groups(pieces);
    lemma_gap(s);
    let g = gap(s);
    if g < s.len() {
        assert(s[g] == ':' && s[g + 1] == ':');
    }
    assert(tail_groups(s) == groups_of(pieces));
    assert(Seq::new(pieces.len(), |i: int| hex_value(pieces[i]) as u16) =~= Seq::new(
        8,
        |i: int| hex_value(pieces[i]) as u16,
    ));
}

/// Two colons stand for as many zero groups as are missing between the groups in front
/// of them and those behind them.
pub proof fn law_two_colons_are_zero_groups(front: Seq<Seq<char>>, back: Seq<Seq<char>>)
    requires
        front.len() + back.len() <= 7,
        forall|i: int| 0 <= i < front.len() ==> is_hex_group(#[trigger] front[i]),
        forall|i: int| 0 <= i < back.len() ==> is_hex_group(#[trigger] back[i]),
    ensures
        ipv6_groups(joined(front, seq![':']) + seq![':', ':'] + joined(back, seq![':'])) == Some(
            Seq::new(front.len(), |i: int| hex_value(front[i]) as u16) + Seq::new(
                (8 - front.len() - back.len()) as nat,
                |i: int| 0u16,
            ) + Seq::new(back.len(), |i: int| hex_value(back[i]) as u16),
        ),
{
    let h = joined(front, seq![':']);
    let t = joined(back, seq![':']);
    let s = h + seq![':', ':'] + t;
    if front.len() > 0 {
        lemma_joined_groups(front);
    }
    if back.len() > 0 {
        lemma_joined_groups(back);
    }
    lemma_gap(s);
    let g = gap(s);
    let n = h.len() as int;
    assert(s[n] == ':' && s[n + 1] == ':');
    assert(g <= n);
    if g < n {
        assert(s[g] == ':' && s[g + 1] == ':');
        assert(h[g] == ':');
        if g + 1 < n {
            assert(h[g + 1] == ':');
        } else {
            assert(h.last() == ':');
        }
    }
    assert(s.take(g) =~= h);
    assert(s.skip(g + 2) =~= t);
    let a = Seq::new(front.len(), |i: int| hex_value(front[i]) as u16);
    let b = Seq::new(back.len(), |i: int| hex_value(back[i]) as u16);
    assert(head_groups(h) == Some(a)) by {
        if front.len() == 0 {
            assert(a =~= Seq::<u16>::empty());
        }
    }
    assert(tail_groups(t) == Some(b)) by {
        if back.len() == 0 {
            assert(b =~= Seq::<u16>::empty());
        }
    }
}

/// The number that eight groups form has the first group in its highest sixteen bits
/// and the last one in its lowest.
pub proof fn law_groups_form_a_number(g: Seq<u16>)
    requires
        g.len() == 8,
    ensures
        groups_value(g) == g[0] * 0x1_0000_0000_0000_0000_0000_0000_0000 + g[1]
            * 0x1_0000_0000_0000_0000_0000_0000 + g[2] * 0x1_0000_0000_0000_0000_0000 + g[3]
            * 0x1_0000_0000_0000_0000 + g[4] * 0x1_0000_0000_0000 + g[5] * 0x1_0000_0000 + g[6]
            * 0x1_0000 + g[7],
{
    reveal_with_fuel(groups_value, 9);
    assert(g.drop_last().last() == g[6]);
    assert(g.drop_last().drop_last().last() == g[5]);
    assert(g.drop_last().drop_last().drop_last().last() == g[4]);
    assert(g.drop_last().drop_last().drop_last().drop_last().last() == g[3]);
    assert(g.drop_last().drop_last().drop_last().drop_last().drop_last().last() == g[2]);
    assert(g.drop_last().drop_last().drop_last().drop_last().drop_last().drop_last().last() == g[1]);
    assert(g.drop_last().drop_last().drop_last().drop_last().drop_last().drop_last().drop_last().last()
        == g[0]);
}

/// A group is one to four hexadecimal digits, and its number is made of them, the
/// first being the highest.
pub proof fn law_group_is_made_of_its_digits(s: Seq<char>, c: char)
    ensures
        is_hex_group(s) <==> 1 <= s.len() <= 4 && forall|i: int|
            0 <= i < s.len() ==> hex_digit_value(#[trigger] s[i]) is Some,
        hex_value(Seq::empty()) == 0,
        hex_digit_value(c) is Some ==> hex_value(s.push(c)) == 16 * hex_value(s) + hex_digit_value(
            c,
        )->0,
{
    assert(s.push(c).drop_last() =~= s);
}

proof fn lemma_ipv4_has_no_colon(n: u32)
    ensures
        ipv4_text(n).len() > 0,
        is_digit(ipv4_text(n)[0]),
        forall|i: int| 0 <= i < ipv4_text(n).len() ==> #[trigger] ipv4_text(n)[i] != ':',
{
    let a = dec((n / 0x1000000) as nat);
    let b = dec((n / 0x10000 % 0x100) as nat);
    let c = dec((n / 0x100 % 0x100) as nat);
    let d = dec((n % 0x100) as nat);
    lemma_dec((n / 0x1000000) as nat);
    lemma_dec((n / 0x10000 % 0x100) as nat);
    lemma_dec((n / 0x100 % 0x100) as nat);
    lemma_dec((n % 0x100) as nat);
    lemma_joined_four(a, b, c, d, seq!['.']);
    let s = ipv4_text(n);
    assert(s == a + seq!['.'] + b + seq!['.'] + c + seq!['.'] + d);
    assert(s[0] == a[0]);
    assert forall|i: int| 0 <= i < s.len() implies #[trigger] s[i] != ':' by {
        let p = a.len() as int;
        let q = p + 1 + b.len();
        let r = q + 1 + c.len();
        if i < p {
            assert(is_digit(a[i]));
        } else if i == p {
        } else if i < q {
            assert(s[i] == b[i - p - 1]);
            assert(is_digit(b[i - p - 1]));
        } else if i == q {
        } else if i < r {
            assert(s[i] == c[i - q - 1]);
            assert(is_digit(c[i - q - 1]));
        } else if i == r {
        } else {
            assert(s[i] == d[i - r - 1]);
            assert(is_digit(d[i - r - 1]));
        }
    }
}

/// An IPv4 address, a colon and a text are a socket address exactly if the text is a
/// decimal number of at most 65535.
pub proof fn law_ipv4_socket_address(n: u32, port: Seq<char>)
    ensures
        is_socket_addr(ipv4_text(n) + seq![':'] + port) <==> is_digits(port) && dec_value(port)
            <= 65535,
{
    let a = ipv4_text(n);
    let s = a + seq![':'] + port;
    lemma_ipv4_has_no_colon(n);
    assert forall|i: int| 0 <= i < a.len() implies #[trigger] s[i] != ':' by {
        assert(s[i] == a[i]);
    }
    lemma_index_of_unique(s, ':', a.len() as int);
    assert(s.take(a.len() as int) =~= a);
    assert(s.skip(a.len() as int + 1) =~= port);
    lemma_ipv4_value(n);
    assert(s[0] == a[0]);
}

/// An IPv6 address in brackets, a colon and a text are a socket address exactly if the
/// text is a decimal number of at most 65535.
pub proof fn law_ipv6_socket_address(addr: Seq<char>, port: Seq<char>)
    requires
        ipv6_value(addr) is Some,
        forall|i: int| 0 <= i < addr.len() ==> #[trigger] addr[i] != ']' && addr[i] != '%',
    ensures
        is_socket_addr(seq!['['] + addr + seq![']', ':'] + port) <==> is_digits(port) && dec_value(
            port,
        ) <= 65535,
{
    let s = seq!['['] + addr + seq![']', ':'] + port;
    let b = addr.len() as int + 1;
    assert forall|i: int| 0 <= i < b implies #[trigger] s[i] != ']' by {
        if i > 0 {
            assert(s[i] == addr[i - 1]);
        }
    }
    lemma_index_of_unique(s, ']', b);
    assert(s.subrange(1, b) =~= addr);
    assert(s.skip(b + 2) =~= port);
    lemma_index_of_unique(addr, '%', addr.len() as int);
    assert(addr.take(addr.len() as int) =~= addr);
    let c = index_of(s, ':');
    lemma_index_of(s, ':');
    if c < s.len() && ipv4_value(s.take(c)) is Some {
        let n = choose|n: u32| s.take(c) == ipv4_text(n);
        lemma_ipv4_has_no_colon(n);
        assert(s.take(c)[0] == s[0]);
    }
}

/// Without a port there is no socket address, and a name is none either: one starts
/// with a digit or a bracket.
pub proof fn law_names_are_no_socket_addresses(s: Seq<char>)
    requires
        is_socket_addr(s),
    ensures
        s.contains(':'),
        s.len() > 0,
        is_digit(s[0]) || s[0] == '[',
{
    if is_socket_addr_v4(s) {
        let c = index_of(s, ':');
        lemma_index_of(s, ':');
        assert(s[c] == ':');
        let n = choose|n: u32| s.take(c) == ipv4_text(n);
        lemma_ipv4_has_no_colon(n);
        assert(s.take(c)[0] == s[0]);
    } else {
        let b = index_of(s, ']');
        assert(s[b + 1] == ':');
    }
}

/// The last two groups may be written as an IPv4 address, whose upper sixteen bits come
/// first.
pub proof fn law_ipv4_may_end_an_address(pieces: Seq<Seq<char>>, n: u32)
    requires
        pieces.len() > 0,
        forall|i: int| 0 <= i < pieces.len() ==> is_hex_group(#[trigger] pieces[i]),
    ensures
        tail_groups(joined(pieces.push(ipv4_text(n)), seq![':'])) == Some(
            Seq::new(pieces.len(), |i: int| hex_value(pieces[i]) as u16).push(
                (n / 0x10000) as u16,
            ).push((n % 0x10000) as u16),
        ),
{
    let all = pieces.push(ipv4_text(n));
    let s = joined(all, seq![':']);
    lemma_ipv4_has_no_colon(n);
    assert forall|i: int, j: int|
        #![trigger all[i][j]]
        0 <= i < all.len() && 0 <= j < all[i].len() implies all[i][j] != ':' by {
        if i < pieces.len() {
            assert(all[i] == pieces[i]);
            lemma_group_chars(pieces[i]);
        }
    }
    lemma_split_joined(all, ':');
    lemma_ipv4_value(n);
    assert(all.drop_last() =~= pieces);
    assert(s.len() > 0);
}

/// An IPv6 address in brackets may have a scope behind a percent sign: a decimal number
/// of at most 32 bits.
pub proof fn law_ipv6_scope(addr: Seq<char>, scope: Seq<char>, port: Seq<char>)
    requires
        ipv6_value(addr) is Some,
        forall|i: int| 0 <= i < addr.len() ==> #[trigger] addr[i] != ']' && addr[i] != '%',
        forall|i: int| 0 <= i < scope.len() ==> #[trigger] scope[i] != ']',
    ensures
        is_socket_addr(seq!['['] + addr + seq!['%'] + scope + seq![']', ':'] + port) <==> is_digits(
            scope,
        ) && dec_value(scope) <= 4294967295 && is_digits(port) && dec_value(port) <= 65535,
{
    let s = seq!['['] + addr + seq!['%'] + scope + seq![']', ':'] + port;
    let inner = addr + seq!['%'] + scope;
    let b = inner.len() as int + 1;
    assert forall|i: int| 0 <= i < b implies #[trigger] s[i] != ']' by {
        if 0 < i <= addr.len() {
            assert(s[i] == addr[i - 1]);
        } else if i > addr.len() + 1 {
            assert(s[i] == scope[i - addr.len() - 2]);
        }
    }
    lemma_index_of_unique(s, ']', b);
    assert(s.subrange(1, b) =~= inner);
    assert(s.skip(b + 2) =~= port);
    let n = addr.len() as int;
    assert forall|i: int| 0 <= i < n implies #[trigger] inner[i] != '%' by {
        assert(inner[i] == addr[i]);
    }
    lemma_index_of_unique(inner, '%', n);
    assert(inner.take(n) =~= addr);
    assert(inner.skip(n + 1) =~= scope);
    let c = index_of(s, ':');
    lemma_index_of(s, ':');
    if c < s.len() && ipv4_value(s.take(c)) is Some {
        let m = choose|m: u32| s.take(c) == ipv4_text(m);
        lemma_ipv4_has_no_colon(m);
        assert(s.take(c)[0] == s[0]);
    }
}

} // verus!

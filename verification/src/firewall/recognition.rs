//! The lines that the daemon prints about misbehaving peers are the lines that
//! the detector recognises.

use super::detector::{
    addr_end, address_at, address_ends, after_text, before_text, digits_end, first_address,
    first_offense, is_addr_char, is_mark_param, is_plain, last_end, mark_len, params_end,
    plain_captures, stands_at, stripped, Offense,
};
use crate::log::{daemon_text, tone_mark, Tone};
use crate::net::{
    groups_of, ip_value, ipv4_pieces, ipv4_text, ipv4_value, is_hex_group, tail_groups, IpAddr,
};
use crate::server::{
    channel_name, control_failed_message, control_timeout_message, rejected_message, Channel,
};
use crate::text::{dec, is_digit, is_digits, joined, lemma_dec, lemma_split, split};
use crate::theme::{colour_mark, is_colour_mark, is_palette, marked, reset_mark, PaletteModel};
use crate::udp::server::udp_failed_text;
use vstd::prelude::*;

verus! {

/// How a socket address is printed: an IPv6 address in brackets, then the port.
pub open spec fn socket_text(ip_text: Seq<char>, bracketed: bool, port: Seq<char>) -> Seq<char> {
    if bracketed {
        "["@ + ip_text + "]:"@ + port
    } else {
        ip_text + ":"@ + port
    }
}

/// Whether `text` is how the socket address of `ip` is printed.
pub open spec fn is_socket_text_of(text: Seq<char>, ip: IpAddr) -> bool {
    exists|ip_text: Seq<char>, port: Seq<char>|
        #![trigger socket_text(ip_text, ip is V6, port)]
        ip_value(ip_text) == Some(ip) && is_digits(port) && text == socket_text(
            ip_text,
            ip is V6,
            port,
        )
}

/// Whether `t` stands anywhere in `s`.
pub open spec fn occurs(s: Seq<char>, t: Seq<char>) -> bool {
    exists|i: int| #[trigger] stands_at(s, i, t)
}

/// Whether a text holds no escape character.
pub open spec fn is_unmarked(s: Seq<char>) -> bool {
    forall|i: int| 0 <= i < s.len() ==> #[trigger] s[i] != '\x1b'
}

// ---------------------------------------------------------------------
// Colour marks
// ---------------------------------------------------------------------

proof fn lemma_params_end(s: Seq<char>, i: int, n: int)
    requires
        0 <= i <= n <= s.len(),
        forall|k: int| i <= k < n ==> is_mark_param(#[trigger] s[k]),
        n < s.len() ==> !is_mark_param(s[n]),
    ensures
        params_end(s, i) == n,
    decreases n - i,
{
    if i < n {
        assert(is_mark_param(s[i]));
        lemma_params_end(s, i + 1, n);
    }
}

/// Text without marks is left as it is.
proof fn lemma_stripped_unmarked(a: Seq<char>, b: Seq<char>)
    requires
        is_unmarked(a),
    ensures
        stripped(a + b) == a + stripped(b),
    decreases a.len(),
{
    if a.len() == 0 {
        assert(a + b =~= b);
        assert(a + stripped(b) =~= stripped(b));
    } else {
        let s = a + b;
        assert(s[0] == a[0]);
        assert(mark_len(s) == 0);
        let rest = a.drop_first();
        assert forall|i: int| 0 <= i < rest.len() implies #[trigger] rest[i] != '\x1b' by {
            assert(rest[i] == a[i + 1]);
        }
        assert(s.drop_first() =~= rest + b);
        lemma_stripped_unmarked(rest, b);
        assert(seq![a[0]] + (rest + stripped(b)) =~= a + stripped(b));
    }
}

/// A mark is taken out.
proof fn lemma_stripped_mark(mark: Seq<char>, b: Seq<char>)
    requires
        mark.len() >= 3,
        mark[0] == '\x1b',
        mark[1] == '[',
        mark.last() == 'm',
        forall|i: int| 2 <= i < mark.len() - 1 ==> is_mark_param(#[trigger] mark[i]),
    ensures
        stripped(mark + b) == stripped(b),
{
    let s = mark + b;
    let n = mark.len() - 1;
    assert forall|k: int| 2 <= k < n implies is_mark_param(#[trigger] s[k]) by {
        assert(s[k] == mark[k]);
    }
    assert(s[n] == mark[n]);
    assert(mark[n] == 'm');
    lemma_params_end(s, 2, n);
    assert(s[0] == mark[0] && s[1] == mark[1]);
    assert(mark_len(s) == mark.len());
    assert(s.skip(mark.len() as int) =~= b);
}

proof fn lemma_colour_mark(r: u8, g: u8, b: u8)
    ensures
        colour_mark(r, g, b).len() >= 3,
        colour_mark(r, g, b)[0] == '\x1b',
        colour_mark(r, g, b)[1] == '[',
        colour_mark(r, g, b).last() == 'm',
        forall|i: int|
            2 <= i < colour_mark(r, g, b).len() - 1 ==> is_mark_param(
                #[trigger] colour_mark(r, g, b)[i],
            ),
{
    reveal_strlit("\x1b[38;2;");
    reveal_strlit(";");
    reveal_strlit("m");
    lemma_dec(r as nat);
    lemma_dec(g as nat);
    lemma_dec(b as nat);
    let p0 = "\x1b[38;2;"@;
    let p1 = p0 + dec(r as nat);
    let p2 = p1 + ";"@;
    let p3 = p2 + dec(g as nat);
    let p4 = p3 + ";"@;
    let p5 = p4 + dec(b as nat);
    let mark = colour_mark(r, g, b);
    assert(mark == p5 + "m"@);
    assert forall|i: int| 2 <= i < mark.len() - 1 implies is_mark_param(#[trigger] mark[i]) by {
        assert(mark[i] == p5[i]);
        if i >= p4.len() {
            assert(p5[i] == dec(b as nat)[i - p4.len()]);
            assert(is_digit(dec(b as nat)[i - p4.len()]));
        } else {
            assert(p5[i] == p4[i]);
            if i < p3.len() {
                assert(p4[i] == p3[i]);
                if i >= p2.len() {
                    assert(p3[i] == dec(g as nat)[i - p2.len()]);
                    assert(is_digit(dec(g as nat)[i - p2.len()]));
                } else {
                    assert(p3[i] == p2[i]);
                    if i < p1.len() {
                        assert(p2[i] == p1[i]);
                        if i >= p0.len() {
                            assert(p1[i] == dec(r as nat)[i - p0.len()]);
                            assert(is_digit(dec(r as nat)[i - p0.len()]));
                        } else {
                            assert(p1[i] == p0[i]);
                        }
                    }
                }
            }
        }
    }
}

/// Taking the marks out of a coloured text gives the text back.
pub proof fn law_stripping_undoes_colour(mark: Seq<char>, text: Seq<char>)
    requires
        is_colour_mark(mark),
        is_unmarked(text),
    ensures
        stripped(marked(mark, text)) == text,
{
    let s = marked(mark, text);
    let (r, g, b) = choose|r: u8, g: u8, b: u8| mark == #[trigger] colour_mark(r, g, b);
    lemma_colour_mark(r, g, b);
    assert(s =~= mark + (text + reset_mark()));
    lemma_stripped_mark(mark, text + reset_mark());
    lemma_stripped_unmarked(text, reset_mark());
    reveal_strlit("\x1b[0m");
    let e = Seq::<char>::empty();
    assert(is_mark_param(reset_mark()[2]));
    lemma_stripped_mark(reset_mark(), e);
    assert(reset_mark() + e =~= reset_mark());
    assert(text + e =~= text);
}

/// What is left of a line of the daemon once the marks are out.
proof fn lemma_daemon_line(p: PaletteModel, tone: Tone, message: Seq<char>)
    requires
        is_palette(p),
        is_unmarked(message),
    ensures
        stripped(daemon_text(p, tone, message)) == "ghostport: "@ + message,
{
    law_stripping_undoes_colour(tone_mark(p, tone), message);
    reveal_strlit("ghostport: ");
    lemma_stripped_unmarked("ghostport: "@, marked(tone_mark(p, tone), message));
}

// ---------------------------------------------------------------------
// Finding the address
// ---------------------------------------------------------------------

proof fn lemma_addr_end(s: Seq<char>, i: int, n: int)
    requires
        0 <= i <= n <= s.len(),
        forall|k: int| i <= k < n ==> is_addr_char(#[trigger] s[k]),
        n < s.len() ==> !is_addr_char(s[n]),
    ensures
        addr_end(s, i) == n,
    decreases n - i,
{
    if i < n {
        assert(is_addr_char(s[i]));
        lemma_addr_end(s, i + 1, n);
    }
}

proof fn lemma_digits_end(s: Seq<char>, i: int, n: int)
    requires
        0 <= i <= n <= s.len(),
        forall|k: int| i <= k < n ==> is_digit(#[trigger] s[k]),
        n < s.len() ==> !is_digit(s[n]),
    ensures
        digits_end(s, i) == n,
    decreases n - i,
{
    if i < n {
        assert(is_digit(s[i]));
        lemma_digits_end(s, i + 1, n);
    }
}

proof fn lemma_last_end(s: Seq<char>, start: int, e: int, end: int, after: Seq<char>)
    requires
        start < e <= end,
        address_ends(s, e, after),
        forall|k: int| e < k <= end ==> !#[trigger] address_ends(s, k, after),
    ensures
        last_end(s, start, end, after) == Some(e),
    decreases end - e,
{
    if e < end {
        assert(!address_ends(s, end, after));
        lemma_last_end(s, start, e, end - 1, after);
    }
}

proof fn lemma_first_address(
    s: Seq<char>,
    i: int,
    j: int,
    before: Seq<char>,
    after: Seq<char>,
    a: Seq<char>,
)
    requires
        0 <= i <= j <= s.len(),
        forall|k: int| i <= k < j ==> !#[trigger] stands_at(s, k, before),
        address_at(s, j, before, after) == Some(a),
    ensures
        first_address(s, i, before, after) == Some(a),
    decreases j - i,
{
    if i < j {
        assert(!stands_at(s, i, before));
        lemma_first_address(s, i + 1, j, before, after, a);
    }
}

/// Without the text that has to stand before it, no address is found.
proof fn lemma_nothing_before(s: Seq<char>, i: int, before: Seq<char>, after: Seq<char>)
    requires
        0 <= i,
        !occurs(s, before),
    ensures
        first_address(s, i, before, after) is None,
    decreases s.len() + 1 - i,
{
    if i <= s.len() {
        assert(!stands_at(s, i, before));
        lemma_nothing_before(s, i + 1, before, after);
    }
}

/// Without the text that has to stand behind it, no address is found.
proof fn lemma_nothing_behind(s: Seq<char>, i: int, before: Seq<char>, after: Seq<char>)
    requires
        0 <= i,
        !occurs(s, after),
    ensures
        first_address(s, i, before, after) is None,
    decreases s.len() + 1 - i,
{
    if i <= s.len() {
        let open = i + before.len();
        let start = if 0 <= open < s.len() && s[open] == '[' {
            open + 1
        } else {
            open
        };
        lemma_no_end(s, start, addr_end(s, start), after);
        lemma_nothing_behind(s, i + 1, before, after);
    }
}

proof fn lemma_no_end(s: Seq<char>, start: int, end: int, after: Seq<char>)
    requires
        !occurs(s, after),
    ensures
        last_end(s, start, end, after) is None,
    decreases end - start,
{
    if end > start {
        let colon = if 0 <= end < s.len() && s[end] == ']' {
            end + 1
        } else {
            end
        };
        assert(!stands_at(s, digits_end(s, colon + 1), after));
        lemma_no_end(s, start, end - 1, after);
    }
}

/// An address that is printed between the two texts is found there, as long as
/// the first text does not stand further to the left.
proof fn lemma_found(
    pre: Seq<char>,
    before: Seq<char>,
    ip_text: Seq<char>,
    bracketed: bool,
    port: Seq<char>,
    after: Seq<char>,
    rest: Seq<char>,
)
    requires
        ip_text.len() > 0,
        forall|i: int| 0 <= i < ip_text.len() ==> is_addr_char(#[trigger] ip_text[i]),
        is_digits(port),
        after.len() > 0,
        after[0] == ' ',
        forall|k: int|
            0 <= k < pre.len() ==> !#[trigger] stands_at(
                pre + before + socket_text(ip_text, bracketed, port) + after + rest,
                k,
                before,
            ),
    ensures
        first_address(
            pre + before + socket_text(ip_text, bracketed, port) + after + rest,
            0,
            before,
            after,
        ) == Some(ip_text),
{
    reveal_strlit("[");
    reveal_strlit("]:");
    reveal_strlit(":");
    let addr = socket_text(ip_text, bracketed, port);
    let s = pre + before + addr + after + rest;
    let i = pre.len() as int;
    let open = i + before.len();
    let n = ip_text.len() as int;
    assert forall|k: int| 0 <= k < addr.len() implies #[trigger] s[open + k] == addr[k] by {}
    assert forall|k: int| 0 <= k < after.len() implies #[trigger] s[open + addr.len() + k]
        == after[k] by {}
    assert(stands_at(s, i, before)) by {
        assert(s.subrange(i, i + before.len()) =~= before);
    }
    assert(stands_at(s, open + addr.len(), after)) by {
        assert(s.subrange(open + addr.len(), open + addr.len() + after.len()) =~= after);
    }
    let start = if bracketed {
        open + 1
    } else {
        open
    };
    assert forall|k: int| 0 <= k < n implies #[trigger] s[start + k] == ip_text[k] by {
        if bracketed {
            assert(addr[k + 1] == ip_text[k]);
            assert(s[open + (k + 1)] == addr[k + 1]);
        } else {
            assert(addr[k] == ip_text[k]);
            assert(s[open + k] == addr[k]);
        }
    }
    let colon = if bracketed {
        start + n + 1
    } else {
        start + n
    };
    let end = open + addr.len();
    assert(end == colon + 1 + port.len());
    assert(s[colon] == ':') by {
        assert(addr[colon - open] == ':');
        assert(s[open + (colon - open)] == addr[colon - open]);
    }
    assert forall|k: int| 0 <= k < port.len() implies #[trigger] s[colon + 1 + k] == port[k] by {
        assert(addr[colon + 1 + k - open] == port[k]);
        assert(s[open + (colon + 1 + k - open)] == addr[colon + 1 + k - open]);
    }
    assert(s[end] == ' ') by {
        assert(s[open + addr.len() + 0] == after[0]);
    }
    assert(digits_end(s, colon + 1) == end) by {
        assert forall|k: int| colon + 1 <= k < end implies is_digit(#[trigger] s[k]) by {
            assert(s[colon + 1 + (k - colon - 1)] == port[k - colon - 1]);
            assert(is_digit(port[k - colon - 1]));
        }
        lemma_digits_end(s, colon + 1, end);
    }
    if bracketed {
        assert(s[open] == '[') by {
            assert(addr[0] == '[');
            assert(s[open + 0] == addr[0]);
        }
        assert(s[start + n] == ']') by {
            assert(addr[n + 1] == ']');
            assert(s[open + (n + 1)] == addr[n + 1]);
        }
        assert forall|k: int| start <= k < start + n implies is_addr_char(#[trigger] s[k]) by {
            assert(s[start + (k - start)] == ip_text[k - start]);
        }
        lemma_addr_end(s, start, start + n);
        assert(address_ends(s, start + n, after));
        lemma_last_end(s, start, start + n, start + n, after);
    } else {
        assert(s[start] == ip_text[0]) by {
            assert(s[start + 0] == ip_text[0]);
        }
        assert(is_addr_char(ip_text[0]));
        assert(s[open] != '[');
        assert forall|k: int| start <= k < end implies is_addr_char(#[trigger] s[k]) by {
            if k < start + n {
                assert(s[start + (k - start)] == ip_text[k - start]);
            } else if k > colon {
                assert(s[colon + 1 + (k - colon - 1)] == port[k - colon - 1]);
                assert(is_digit(port[k - colon - 1]));
            }
        }
        lemma_addr_end(s, start, end);
        assert(address_ends(s, start + n, after));
        assert forall|k: int| start + n < k <= end implies !#[trigger] address_ends(s, k, after) by {
            if k < end {
                assert(s[colon + 1 + (k - colon - 1)] == port[k - colon - 1]);
                assert(is_digit(port[k - colon - 1]));
            }
        }
        lemma_last_end(s, start, start + n, end, after);
    }
    assert(s.subrange(start, start + n) =~= ip_text) by {
        assert forall|k: int| 0 <= k < n implies s.subrange(start, start + n)[k] == ip_text[k] by {
            assert(s[start + k] == ip_text[k]);
        }
    }
    assert(address_at(s, i, before, after) == Some(ip_text));
    lemma_first_address(s, 0, i, before, after, ip_text);
}

// ---------------------------------------------------------------------
// What an address is made of
// ---------------------------------------------------------------------

proof fn lemma_joined_chars(list: Seq<Seq<char>>, sep: Seq<char>)
    requires
        forall|i: int, j: int|
            #![trigger list[i][j]]
            0 <= i < list.len() && 0 <= j < list[i].len() ==> is_addr_char(list[i][j]),
        forall|j: int| 0 <= j < sep.len() ==> is_addr_char(#[trigger] sep[j]),
    ensures
        forall|k: int|
            0 <= k < joined(list, sep).len() ==> is_addr_char(#[trigger] joined(list, sep)[k]),
    decreases list.len(),
{
    if list.len() <= 1 {
        if list.len() == 1 {
            assert forall|k: int| 0 <= k < joined(list, sep).len() implies is_addr_char(
                #[trigger] joined(list, sep)[k],
            ) by {
                assert(joined(list, sep)[k] == list[0][k]);
            }
        }
    } else {
        let front = list.drop_last();
        assert forall|i: int, j: int|
            #![trigger front[i][j]]
            0 <= i < front.len() && 0 <= j < front[i].len() implies is_addr_char(front[i][j]) by {
            assert(front[i] == list[i]);
            assert(is_addr_char(list[i][j]));
        }
        lemma_joined_chars(front, sep);
        let a = joined(front, sep);
        let last = list.last();
        assert forall|k: int| 0 <= k < joined(list, sep).len() implies is_addr_char(
            #[trigger] joined(list, sep)[k],
        ) by {
            if k < a.len() {
                assert(joined(list, sep)[k] == a[k]);
            } else if k < a.len() + sep.len() {
                assert(joined(list, sep)[k] == sep[k - a.len()]);
            } else {
                assert(joined(list, sep)[k] == last[k - a.len() - sep.len()]);
                assert(is_addr_char(list[list.len() - 1][k - a.len() - sep.len()]));
            }
        }
    }
}

proof fn lemma_ipv4_chars(n: u32)
    ensures
        ipv4_text(n).len() > 0,
        forall|k: int| 0 <= k < ipv4_text(n).len() ==> is_addr_char(#[trigger] ipv4_text(n)[k]),
{
    let p = ipv4_pieces(n);
    lemma_dec((n / 0x1000000) as nat);
    lemma_dec((n / 0x10000 % 0x100) as nat);
    lemma_dec((n / 0x100 % 0x100) as nat);
    lemma_dec((n % 0x100) as nat);
    assert forall|i: int, j: int|
        #![trigger p[i][j]]
        0 <= i < p.len() && 0 <= j < p[i].len() implies is_addr_char(p[i][j]) by {
        assert(is_digits(p[i]));
        assert(is_digit(p[i][j]));
    }
    lemma_joined_chars(p, seq!['.']);
    reveal_with_fuel(joined, 5);
    assert(p.drop_last().drop_last().drop_last()[0] == p[0]);
    assert(ipv4_text(n).len() >= p.last().len());
}

proof fn lemma_pieces_chars(s: Seq<char>, last_is_v4: bool)
    requires
        last_is_v4 ==> groups_of(split(s, ':').drop_last()) is Some && ipv4_value(
            split(s, ':').last(),
        ) is Some,
        !last_is_v4 ==> groups_of(split(s, ':')) is Some,
    ensures
        forall|k: int| 0 <= k < s.len() ==> is_addr_char(#[trigger] s[k]),
{
    lemma_split(s, ':');
    let p = split(s, ':');
    assert forall|i: int, j: int|
        #![trigger p[i][j]]
        0 <= i < p.len() && 0 <= j < p[i].len() implies is_addr_char(p[i][j]) by {
        if last_is_v4 && i == p.len() - 1 {
            let n = choose|n: u32| p.last() == ipv4_text(n);
            lemma_ipv4_chars(n);
            assert(p[i] == ipv4_text(n));
        } else if last_is_v4 {
            assert(p.drop_last()[i] == p[i]);
            assert(is_hex_group(p[i]));
        } else {
            assert(is_hex_group(p[i]));
        }
    }
    lemma_joined_chars(p, seq![':']);
    assert(joined(p, seq![':']) == s);
}

proof fn lemma_tail_chars(s: Seq<char>)
    requires
        tail_groups(s) is Some,
    ensures
        forall|k: int| 0 <= k < s.len() ==> is_addr_char(#[trigger] s[k]),
{
    if s.len() > 0 {
        lemma_pieces_chars(s, ipv4_value(split(s, ':').last()) is Some);
    }
}

/// The text of an address is made of the characters that the detector looks for.
proof fn lemma_ip_chars(s: Seq<char>)
    requires
        ip_value(s) is Some,
    ensures
        s.len() > 0,
        forall|k: int| 0 <= k < s.len() ==> is_addr_char(#[trigger] s[k]),
{
    if ipv4_value(s) is Some {
        let n = choose|n: u32| s == ipv4_text(n);
        lemma_ipv4_chars(n);
    } else {
        let g = crate::net::gap(s);
        crate::net::lemma_gap(s);
        if g == s.len() {
            lemma_tail_chars(s);
        } else {
            let head = s.take(g);
            let tail = s.skip(g + 2);
            lemma_tail_chars(tail);
            if head.len() > 0 {
                lemma_pieces_chars(head, false);
            }
            assert forall|k: int| 0 <= k < s.len() implies is_addr_char(#[trigger] s[k]) by {
                if k < g {
                    assert(s[k] == head[k]);
                } else if k >= g + 2 {
                    assert(s[k] == tail[k - g - 2]);
                }
            }
        }
    }
}

// ---------------------------------------------------------------------
// What does not stand in a line
// ---------------------------------------------------------------------

/// From `i` on, `x` is never followed by `y`.
spec fn pair_free(s: Seq<char>, i: int, x: char, y: char) -> bool
    decreases s.len() - i,
{
    i < 0 || i >= s.len() || (!(s[i] == x && i + 1 < s.len() && s[i + 1] == y) && pair_free(
        s,
        i + 1,
        x,
        y,
    ))
}

proof fn lemma_pair_free(s: Seq<char>, i: int, x: char, y: char, k: int)
    requires
        0 <= i <= k,
        k + 1 < s.len(),
        pair_free(s, i, x, y),
    ensures
        !(s[k] == x && s[k + 1] == y),
    decreases k - i,
{
    if i < k {
        lemma_pair_free(s, i + 1, x, y, k);
    }
}

/// `x` is never followed by `y`.
spec fn has_no_pair(s: Seq<char>, x: char, y: char) -> bool {
    forall|k: int| 0 <= k && k + 1 < s.len() ==> !(#[trigger] s[k] == x && s[k + 1] == y)
}

proof fn lemma_has_no_pair(s: Seq<char>, x: char, y: char)
    requires
        pair_free(s, 0, x, y),
    ensures
        has_no_pair(s, x, y),
{
    assert forall|k: int| 0 <= k && k + 1 < s.len() implies !(#[trigger] s[k] == x && s[k + 1] == y) by {
        lemma_pair_free(s, 0, x, y, k);
    }
}

proof fn lemma_no_pair_concat(a: Seq<char>, b: Seq<char>, x: char, y: char)
    requires
        has_no_pair(a, x, y),
        has_no_pair(b, x, y),
        a.len() > 0 && b.len() > 0 ==> !(a.last() == x && b[0] == y),
    ensures
        has_no_pair(a + b, x, y),
{
    let s = a + b;
    assert forall|k: int| 0 <= k && k + 1 < s.len() implies !(#[trigger] s[k] == x && s[k + 1] == y) by {
        if k + 1 < a.len() {
            assert(s[k] == a[k] && s[k + 1] == a[k + 1]);
        } else if k >= a.len() {
            assert(s[k] == b[k - a.len()] && s[k + 1] == b[k - a.len() + 1]);
        } else {
            assert(s[k] == a.last() && s[k + 1] == b[0]);
        }
    }
}

/// A text that holds `x` followed by `y` does not stand where these never follow
/// each other.
proof fn lemma_no_pair_no_text(s: Seq<char>, t: Seq<char>, x: char, y: char, o: int)
    requires
        has_no_pair(s, x, y),
        0 <= o,
        o + 1 < t.len(),
        t[o] == x,
        t[o + 1] == y,
    ensures
        !occurs(s, t),
{
    if occurs(s, t) {
        let i = choose|i: int| #[trigger] stands_at(s, i, t);
        let u = s.subrange(i, i + t.len());
        assert(u[o] == s[i + o] && u[o + 1] == s[i + o + 1]);
    }
}

/// Of the characters of a socket address only some can be followed by a letter
/// beyond the hexadecimal ones: none.
proof fn lemma_socket_no_pair(ip_text: Seq<char>, bracketed: bool, port: Seq<char>, x: char, y: char)
    requires
        forall|i: int| 0 <= i < ip_text.len() ==> is_addr_char(#[trigger] ip_text[i]),
        is_digits(port),
        !is_addr_char(y),
        y != '[',
        y != ']',
    ensures
        has_no_pair(socket_text(ip_text, bracketed, port), x, y),
        forall|k: int|
            0 <= k < socket_text(ip_text, bracketed, port).len() ==> is_socket_char(
                #[trigger] socket_text(ip_text, bracketed, port)[k],
            ),
        socket_text(ip_text, bracketed, port).len() > 0,
{
    reveal_strlit("[");
    reveal_strlit("]:");
    reveal_strlit(":");
    let s = socket_text(ip_text, bracketed, port);
    assert forall|k: int| 0 <= k < s.len() implies is_socket_char(#[trigger] s[k]) by {
        if bracketed {
            if 1 <= k < 1 + ip_text.len() {
                assert(s[k] == ip_text[k - 1]);
            } else if k >= 3 + ip_text.len() {
                assert(s[k] == port[k - 3 - ip_text.len()]);
                assert(is_digit(port[k - 3 - ip_text.len()]));
            }
        } else {
            if k < ip_text.len() {
                assert(s[k] == ip_text[k]);
            } else if k > ip_text.len() {
                assert(s[k] == port[k - 1 - ip_text.len()]);
                assert(is_digit(port[k - 1 - ip_text.len()]));
            }
        }
    }
    assert forall|k: int| 0 <= k && k + 1 < s.len() implies !(#[trigger] s[k] == x && s[k + 1] == y) by {
        assert(is_socket_char(s[k + 1]));
    }
}

/// The characters that a socket address is made of.
spec fn is_socket_char(c: char) -> bool {
    is_addr_char(c) || c == '[' || c == ']'
}

/// Text that stands behind a part that it cannot begin in stands in the rest.
proof fn lemma_occurs_in_rest(p: Seq<char>, rest: Seq<char>, t: Seq<char>, x: char, y: char)
    requires
        has_no_pair(p, x, y),
        t.len() >= 2,
        t[0] == x,
        t[1] == y,
        p.len() > 0 ==> p.last() != x,
        !occurs(rest, t),
    ensures
        !occurs(p + rest, t),
{
    let s = p + rest;
    if occurs(s, t) {
        let i = choose|i: int| #[trigger] stands_at(s, i, t);
        let u = s.subrange(i, i + t.len());
        assert(u[0] == s[i] && u[1] == s[i + 1]);
        if i >= p.len() {
            assert(rest.subrange(i - p.len(), i - p.len() + t.len()) =~= u);
            assert(stands_at(rest, i - p.len(), t));
        } else if i + 1 < p.len() {
            assert(s[i] == p[i] && s[i + 1] == p[i + 1]);
        } else {
            assert(s[i] == p.last());
        }
    }
}

/// Where a part of a text does not stand, the text does not either.
proof fn lemma_part_missing(s: Seq<char>, t: Seq<char>, part: Seq<char>, o: int)
    requires
        !occurs(s, part),
        0 <= o,
        o + part.len() <= t.len(),
        t.subrange(o, o + part.len()) == part,
    ensures
        !occurs(s, t),
{
    if occurs(s, t) {
        let i = choose|i: int| #[trigger] stands_at(s, i, t);
        let u = s.subrange(i, i + t.len());
        assert(s.subrange(i + o, i + o + part.len()) =~= u.subrange(o, o + part.len()));
        assert(stands_at(s, i + o, part));
    }
}

proof fn lemma_plain_concat(a: Seq<char>, b: Seq<char>)
    requires
        is_plain(a),
        is_plain(b),
    ensures
        is_plain(a + b),
{
    let s = a + b;
    assert forall|i: int| 0 <= i < s.len() implies (#[trigger] s[i]) as nat <= 127 by {
        if i < a.len() {
            assert(s[i] == a[i]);
        } else {
            assert(s[i] == b[i - a.len()]);
        }
    }
}

proof fn lemma_unmarked_concat(a: Seq<char>, b: Seq<char>)
    requires
        is_unmarked(a),
        is_unmarked(b),
    ensures
        is_unmarked(a + b),
{
    let s = a + b;
    assert forall|i: int| 0 <= i < s.len() implies #[trigger] s[i] != '\x1b' by {
        if i < a.len() {
            assert(s[i] == a[i]);
        } else {
            assert(s[i] == b[i - a.len()]);
        }
    }
}

/// A socket address is plain ASCII without marks.
proof fn lemma_socket_plain(ip_text: Seq<char>, bracketed: bool, port: Seq<char>)
    requires
        forall|i: int| 0 <= i < ip_text.len() ==> is_addr_char(#[trigger] ip_text[i]),
        is_digits(port),
    ensures
        is_plain(socket_text(ip_text, bracketed, port)),
        is_unmarked(socket_text(ip_text, bracketed, port)),
{
    lemma_socket_no_pair(ip_text, bracketed, port, 'z', 'z');
    let s = socket_text(ip_text, bracketed, port);
    assert forall|i: int| 0 <= i < s.len() implies (#[trigger] s[i]) as nat <= 127 by {
        assert(is_socket_char(s[i]));
    }
    assert forall|i: int| 0 <= i < s.len() implies #[trigger] s[i] != '\x1b' by {
        assert(is_socket_char(s[i]));
    }
}


/// From `i` on, a text is plain ASCII without marks.
spec fn plain_from(s: Seq<char>, i: int) -> bool
    decreases s.len() - i,
{
    i < 0 || i >= s.len() || (s[i] as nat <= 127 && s[i] != '\x1b' && plain_from(s, i + 1))
}

proof fn lemma_plain_from(s: Seq<char>, i: int, k: int)
    requires
        0 <= i <= k < s.len(),
        plain_from(s, i),
    ensures
        s[k] as nat <= 127,
        s[k] != '\x1b',
    decreases k - i,
{
    if i < k {
        lemma_plain_from(s, i + 1, k);
    }
}

proof fn lemma_plain(s: Seq<char>)
    requires
        plain_from(s, 0),
    ensures
        is_plain(s),
        is_unmarked(s),
{
    assert forall|k: int| 0 <= k < s.len() implies (#[trigger] s[k]) as nat <= 127 by {
        lemma_plain_from(s, 0, k);
    }
    assert forall|k: int| 0 <= k < s.len() implies #[trigger] s[k] != '\x1b' by {
        lemma_plain_from(s, 0, k);
    }
}

// ---------------------------------------------------------------------
// The lines of the daemon
// ---------------------------------------------------------------------

/// The fixed texts of the lines are plain ASCII without marks.
proof fn lemma_fixed_texts()
    ensures
        is_plain("ghostport: "@) && is_unmarked("ghostport: "@),
        forall|k: int| 0 <= k < 4 ==> is_plain(#[trigger] before_text(k)),
        forall|k: int| 0 <= k < 4 ==> is_unmarked(#[trigger] before_text(k)),
        forall|k: int| 0 <= k < 4 ==> is_plain(#[trigger] after_text(k)),
        forall|k: int| 0 <= k < 4 ==> is_unmarked(#[trigger] after_text(k)),
        forall|k: int| 0 <= k < 4 ==> (#[trigger] after_text(k)).len() > 0 && after_text(k)[0] == ' ',
        is_plain(" timed out"@) && is_unmarked(" timed out"@),
        is_plain(" "@) && is_unmarked(" "@),
        is_plain("\""@) && is_unmarked("\""@),
        is_plain("\") failed: "@) && is_unmarked("\") failed: "@),
{
    reveal_with_fuel(plain_from, 40);
    reveal_strlit("ghostport: ");
    reveal_strlit("control: rejected ");
    reveal_strlit("data: rejected ");
    reveal_strlit("control: handshake with ");
    reveal_strlit("ghostport-udp: handshake with ");
    reveal_strlit(" (too many recent handshake attempts)");
    reveal_strlit(" failed:");
    reveal_strlit(" (");
    reveal_strlit(" timed out");
    reveal_strlit(" ");
    reveal_strlit("\"");
    reveal_strlit("\") failed: ");
    lemma_plain("ghostport: "@);
    lemma_plain(before_text(0));
    lemma_plain(before_text(1));
    lemma_plain(before_text(2));
    lemma_plain(before_text(3));
    lemma_plain(after_text(0));
    lemma_plain(after_text(2));
    lemma_plain(after_text(3));
    lemma_plain(" timed out"@);
    lemma_plain(" "@);
    lemma_plain("\""@);
    lemma_plain("\") failed: "@);
    assert forall|k: int| 0 <= k < 4 implies is_plain(#[trigger] before_text(k)) && is_unmarked(
        before_text(k),
    ) by {
        assert(k == 0 || k == 1 || k == 2 || k == 3);
    }
    assert forall|k: int| 0 <= k < 4 implies is_plain(#[trigger] after_text(k)) && is_unmarked(
        after_text(k),
    ) by {
        assert(k == 0 || k == 1 || k == 2 || k == 3);
    }
}

/// What the message of a refusal is made of.
proof fn lemma_rejected_message(channel: Channel, addr: Seq<char>)
    ensures
        rejected_message(channel, addr) == before_text(
            if channel is Control {
                0
            } else {
                1
            },
        ) + addr + after_text(0),
{
    reveal_strlit("control");
    reveal_strlit("data");
    reveal_strlit(": rejected ");
    reveal_strlit("control: rejected ");
    reveal_strlit("data: rejected ");
    let before = before_text(
        if channel is Control {
            0
        } else {
            1
        },
    );
    assert(channel_name(channel) + ": rejected "@ =~= before);
}

/// Nothing stands in a text that holds none of its first characters.
proof fn lemma_not_in_front(
    pre: Seq<char>,
    before: Seq<char>,
    s: Seq<char>,
)
    requires
        before.len() > 0,
        pre.len() <= s.len(),
        forall|k: int| 0 <= k < pre.len() ==> #[trigger] pre[k] != before[0] && s[k] == pre[k],
    ensures
        forall|k: int| 0 <= k < pre.len() ==> !#[trigger] stands_at(s, k, before),
{
    assert forall|k: int| 0 <= k < pre.len() implies !#[trigger] stands_at(s, k, before) by {
        if stands_at(s, k, before) {
            assert(s.subrange(k, k + before.len())[0] == s[k]);
            assert(pre[k] != before[0]);
        }
    }
}

proof fn lemma_pre_has_no_start(s: Seq<char>, before: Seq<char>)
    requires
        before == before_text(0) || before == before_text(1) || before == before_text(2),
        "ghostport: "@.len() <= s.len(),
        s.take("ghostport: "@.len() as int) == "ghostport: "@,
    ensures
        forall|k: int| 0 <= k < "ghostport: "@.len() ==> !#[trigger] stands_at(s, k, before),
{
    reveal_strlit("ghostport: ");
    reveal_strlit("control: rejected ");
    reveal_strlit("data: rejected ");
    reveal_strlit("control: handshake with ");
    let pre = "ghostport: "@;
    assert forall|k: int| 0 <= k < pre.len() implies #[trigger] pre[k] != before[0] && s[k]
        == pre[k] by {
        assert(s.take(pre.len() as int)[k] == s[k]);
        assert(k == 0 || k == 1 || k == 2 || k == 3 || k == 4 || k == 5 || k == 6 || k == 7 || k
            == 8 || k == 9 || k == 10);
    }
    lemma_not_in_front(pre, before, s);
}

/// A line that says that the limiter refused a connection is recognised: its
/// address is found, and it is the kind of offense that is banned at once.
#[verifier::rlimit(40)]
pub proof fn law_rejections_are_recognised(
    p: PaletteModel,
    tone: Tone,
    channel: Channel,
    addr: Seq<char>,
    ip: IpAddr,
)
    requires
        is_palette(p),
        is_socket_text_of(addr, ip),
    ensures
        is_plain(stripped(daemon_text(p, tone, rejected_message(channel, addr)))),
        first_offense(
            plain_captures(stripped(daemon_text(p, tone, rejected_message(channel, addr)))),
            0,
        ) == Some((ip, Offense::RateLimited)),
{
    let (ip_text, port) = choose|ip_text: Seq<char>, port: Seq<char>|
        #![trigger socket_text(ip_text, ip is V6, port)]
        ip_value(ip_text) == Some(ip) && is_digits(port) && addr == socket_text(
            ip_text,
            ip is V6,
            port,
        );
    lemma_ip_chars(ip_text);
    lemma_socket_plain(ip_text, ip is V6, port);
    lemma_rejected_message(channel, addr);
    lemma_fixed_texts();
    let k: int = if channel is Control {
        0
    } else {
        1
    };
    let pre = "ghostport: "@;
    let before = before_text(k);
    let after = after_text(k);
    let message = before + addr + after;
    lemma_unmarked_concat(before, addr);
    lemma_unmarked_concat(before + addr, after);
    lemma_daemon_line(p, tone, message);
    lemma_plain_concat(before, addr);
    lemma_plain_concat(before + addr, after);
    lemma_plain_concat(pre, message);
    let s = pre + message;
    let rest = Seq::<char>::empty();
    assert(s =~= pre + before + addr + after + rest);
    assert(s.take(pre.len() as int) =~= pre);
    lemma_pre_has_no_start(s, before);
    lemma_found(pre, before, ip_text, ip is V6, port, after, rest);
    let captures = plain_captures(s);
    assert(captures[k] == Some(ip_text));
    if k == 1 {
        lemma_no_control_in_data(ip_text, ip is V6, port);
        lemma_nothing_before(s, 0, before_text(0), after_text(0));
        assert(captures[0] is None);
        reveal_with_fuel(first_offense, 2);
    }
}

/// In the line about a data connection the text about a control connection does
/// not stand.
proof fn lemma_no_control_in_data(ip_text: Seq<char>, bracketed: bool, port: Seq<char>)
    requires
        forall|i: int| 0 <= i < ip_text.len() ==> is_addr_char(#[trigger] ip_text[i]),
        is_digits(port),
    ensures
        !occurs(
            "ghostport: "@ + (before_text(1) + socket_text(ip_text, bracketed, port) + after_text(1)),
            before_text(0),
        ),
{
    reveal_with_fuel(pair_free, 40);
    reveal_strlit("ghostport: ");
    reveal_strlit("data: rejected ");
    reveal_strlit(" (too many recent handshake attempts)");
    reveal_strlit("control: rejected ");
    let addr = socket_text(ip_text, bracketed, port);
    let pre = "ghostport: "@;
    lemma_has_no_pair(pre, 'c', 'o');
    lemma_has_no_pair(before_text(1), 'c', 'o');
    lemma_has_no_pair(after_text(1), 'c', 'o');
    lemma_socket_no_pair(ip_text, bracketed, port, 'c', 'o');
    lemma_no_pair_concat(before_text(1), addr, 'c', 'o');
    lemma_no_pair_concat(before_text(1) + addr, after_text(1), 'c', 'o');
    lemma_no_pair_concat(pre, before_text(1) + addr + after_text(1), 'c', 'o');
    lemma_no_pair_no_text(
        pre + (before_text(1) + addr + after_text(1)),
        before_text(0),
        'c',
        'o',
        0,
    );
}

/// A line that says that a handshake on the control listener failed is
/// recognised: its address is found, and it is the kind of offense that is
/// counted. The text of the error must be plain, and must not itself read like a
/// refusal.
#[verifier::rlimit(40)]
pub proof fn law_failed_handshakes_are_recognised(
    p: PaletteModel,
    tone: Tone,
    addr: Seq<char>,
    ip: IpAddr,
    error: Seq<char>,
)
    requires
        is_palette(p),
        is_socket_text_of(addr, ip),
        is_plain(error),
        is_unmarked(error),
        !occurs(error, "rejected "@),
    ensures
        is_plain(stripped(daemon_text(p, tone, control_failed_message(addr, error)))),
        first_offense(
            plain_captures(stripped(daemon_text(p, tone, control_failed_message(addr, error)))),
            0,
        ) == Some((ip, Offense::HandshakeFailed)),
{
    let (ip_text, port) = choose|ip_text: Seq<char>, port: Seq<char>|
        #![trigger socket_text(ip_text, ip is V6, port)]
        ip_value(ip_text) == Some(ip) && is_digits(port) && addr == socket_text(
            ip_text,
            ip is V6,
            port,
        );
    lemma_ip_chars(ip_text);
    lemma_socket_plain(ip_text, ip is V6, port);
    lemma_fixed_texts();
    reveal_strlit(" failed:");
    reveal_strlit(" failed: ");
    reveal_strlit(" ");
    let pre = "ghostport: "@;
    let before = before_text(2);
    let after = after_text(2);
    let rest = " "@ + error;
    let message = control_failed_message(addr, error);
    assert(after + " "@ =~= " failed: "@);
    assert(message =~= before + addr + after + rest);
    lemma_unmarked_concat(before, addr);
    lemma_unmarked_concat(before + addr, after);
    lemma_unmarked_concat(" "@, error);
    lemma_unmarked_concat(before + addr + after, rest);
    lemma_daemon_line(p, tone, message);
    lemma_plain_concat(before, addr);
    lemma_plain_concat(before + addr, after);
    lemma_plain_concat(" "@, error);
    lemma_plain_concat(before + addr + after, rest);
    lemma_plain_concat(pre, message);
    let s = pre + message;
    assert(s =~= pre + before + addr + after + rest);
    assert(s.take(pre.len() as int) =~= pre);
    lemma_pre_has_no_start(s, before);
    lemma_found(pre, before, ip_text, ip is V6, port, after, rest);
    lemma_no_refusal(ip_text, ip is V6, port, before, " failed: "@, error);
    assert(s =~= pre + (before + addr + " failed: "@) + error);
    lemma_no_rejected_text(s);
    lemma_nothing_before(s, 0, before_text(0), after_text(0));
    lemma_nothing_before(s, 0, before_text(1), after_text(1));
    let captures = plain_captures(s);
    assert(captures[0] is None && captures[1] is None && captures[2] == Some(ip_text));
    reveal_with_fuel(first_offense, 3);
}

/// Nothing about a refusal stands in a line about a handshake, unless what comes
/// last holds it.
proof fn lemma_no_refusal(
    ip_text: Seq<char>,
    bracketed: bool,
    port: Seq<char>,
    before: Seq<char>,
    behind: Seq<char>,
    last: Seq<char>,
)
    requires
        forall|i: int| 0 <= i < ip_text.len() ==> is_addr_char(#[trigger] ip_text[i]),
        is_digits(port),
        before == before_text(2),
        behind == " failed: "@ || behind == " timed out"@,
        !occurs(last, "rejected "@),
    ensures
        !occurs(
            "ghostport: "@ + (before + socket_text(ip_text, bracketed, port) + behind) + last,
            "rejected "@,
        ),
{
    reveal_with_fuel(pair_free, 40);
    reveal_strlit("ghostport: ");
    reveal_strlit("control: handshake with ");
    reveal_strlit(" failed: ");
    reveal_strlit(" timed out");
    reveal_strlit("rejected ");
    let addr = socket_text(ip_text, bracketed, port);
    let pre = "ghostport: "@;
    lemma_has_no_pair(pre, 'r', 'e');
    lemma_has_no_pair(before, 'r', 'e');
    lemma_has_no_pair(behind, 'r', 'e');
    lemma_socket_no_pair(ip_text, bracketed, port, 'z', 'z');
    assert forall|k: int| 0 <= k && k + 1 < addr.len() implies !(#[trigger] addr[k] == 'r' && addr[k
        + 1] == 'e') by {
        assert(is_socket_char(addr[k]));
    }
    assert(is_socket_char(addr.last()));
    lemma_no_pair_concat(before, addr, 'r', 'e');
    lemma_no_pair_concat(before + addr, behind, 'r', 'e');
    lemma_no_pair_concat(pre, before + addr + behind, 'r', 'e');
    let front = pre + (before + addr + behind);
    assert(front.last() == behind.last());
    lemma_occurs_in_rest(front, last, "rejected "@, 'r', 'e');
}

/// Where "rejected " does not stand, neither text about a refusal does.
proof fn lemma_no_rejected_text(s: Seq<char>)
    requires
        !occurs(s, "rejected "@),
    ensures
        !occurs(s, before_text(0)),
        !occurs(s, before_text(1)),
{
    reveal_strlit("control: rejected ");
    reveal_strlit("data: rejected ");
    reveal_strlit("rejected ");
    assert(before_text(0).subrange(9, 18) =~= "rejected "@);
    lemma_part_missing(s, before_text(0), "rejected "@, 9);
    assert(before_text(1).subrange(6, 15) =~= "rejected "@);
    lemma_part_missing(s, before_text(1), "rejected "@, 6);
}

/// A line that says that a handshake took too long is not recognised.
pub proof fn law_timeouts_are_ignored(
    p: PaletteModel,
    tone: Tone,
    addr: Seq<char>,
    ip: IpAddr,
)
    requires
        is_palette(p),
        is_socket_text_of(addr, ip),
    ensures
        is_plain(stripped(daemon_text(p, tone, control_timeout_message(addr)))),
        first_offense(
            plain_captures(stripped(daemon_text(p, tone, control_timeout_message(addr)))),
            0,
        ) is None,
{
    let (ip_text, port) = choose|ip_text: Seq<char>, port: Seq<char>|
        #![trigger socket_text(ip_text, ip is V6, port)]
        ip_value(ip_text) == Some(ip) && is_digits(port) && addr == socket_text(
            ip_text,
            ip is V6,
            port,
        );
    lemma_ip_chars(ip_text);
    lemma_socket_plain(ip_text, ip is V6, port);
    lemma_fixed_texts();
    let pre = "ghostport: "@;
    let before = before_text(2);
    let behind = " timed out"@;
    let message = control_timeout_message(addr);
    assert(message == before + addr + behind);
    lemma_unmarked_concat(before, addr);
    lemma_unmarked_concat(before + addr, behind);
    lemma_daemon_line(p, tone, message);
    lemma_plain_concat(before, addr);
    lemma_plain_concat(before + addr, behind);
    lemma_plain_concat(pre, message);
    let s = pre + message;
    let e = Seq::<char>::empty();
    reveal_strlit("rejected ");
    assert(!occurs(e, "rejected "@));
    lemma_no_refusal(ip_text, ip is V6, port, before, behind, e);
    assert(s =~= pre + (before + addr + behind) + e);
    lemma_no_rejected_text(s);
    lemma_nothing_before(s, 0, before_text(0), after_text(0));
    lemma_nothing_before(s, 0, before_text(1), after_text(1));
    lemma_no_failure(ip_text, ip is V6, port);
    lemma_nothing_behind(s, 0, before_text(2), after_text(2));
    lemma_nothing_before(s, 0, before_text(3), after_text(3));
    let captures = plain_captures(s);
    assert(captures[0] is None && captures[1] is None && captures[2] is None && captures[3] is None);
    reveal_with_fuel(first_offense, 5);
}

/// Nothing about a failure, and nothing about UDP, stands in a line about a
/// timeout.
proof fn lemma_no_failure(ip_text: Seq<char>, bracketed: bool, port: Seq<char>)
    requires
        forall|i: int| 0 <= i < ip_text.len() ==> is_addr_char(#[trigger] ip_text[i]),
        is_digits(port),
    ensures
        !occurs(
            "ghostport: "@ + (before_text(2) + socket_text(ip_text, bracketed, port) + " timed out"@),
            after_text(2),
        ),
        !occurs(
            "ghostport: "@ + (before_text(2) + socket_text(ip_text, bracketed, port) + " timed out"@),
            before_text(3),
        ),
{
    reveal_with_fuel(pair_free, 40);
    reveal_strlit("ghostport: ");
    reveal_strlit("control: handshake with ");
    reveal_strlit(" timed out");
    reveal_strlit(" failed:");
    reveal_strlit("ghostport-udp: handshake with ");
    let addr = socket_text(ip_text, bracketed, port);
    let pre = "ghostport: "@;
    let before = before_text(2);
    let behind = " timed out"@;
    let s = pre + (before + addr + behind);
    lemma_has_no_pair(pre, 'a', 'i');
    lemma_has_no_pair(before, 'a', 'i');
    lemma_has_no_pair(behind, 'a', 'i');
    lemma_socket_no_pair(ip_text, bracketed, port, 'a', 'i');
    lemma_no_pair_concat(before, addr, 'a', 'i');
    lemma_no_pair_concat(before + addr, behind, 'a', 'i');
    lemma_no_pair_concat(pre, before + addr + behind, 'a', 'i');
    lemma_no_pair_no_text(s, after_text(2), 'a', 'i', 2);
    lemma_has_no_pair(pre, 't', '-');
    lemma_has_no_pair(before, 't', '-');
    lemma_has_no_pair(behind, 't', '-');
    lemma_socket_no_pair(ip_text, bracketed, port, 't', '-');
    lemma_no_pair_concat(before, addr, 't', '-');
    lemma_no_pair_concat(before + addr, behind, 't', '-');
    lemma_no_pair_concat(pre, before + addr + behind, 't', '-');
    lemma_no_pair_no_text(s, before_text(3), 't', '-', 8);
}

/// The parts of a line about a UDP handshake.
proof fn lemma_udp_parts(addr: Seq<char>, name: Seq<char>, error: Seq<char>)
    ensures
        ({
            let s = udp_failed_text(addr, name, error);
            let tail = name + "\") failed: "@ + error;
            &&& s == before_text(3) + addr + after_text(3) + ("\""@ + tail)
            &&& s == Seq::<char>::empty() + before_text(3) + addr + after_text(3) + ("\""@ + tail)
            &&& s == before_text(3) + addr + " (\""@ + tail
        }),
{
    reveal_strlit(" (");
    reveal_strlit("\"");
    reveal_strlit(" (\"");
    let s = udp_failed_text(addr, name, error);
    let tail = name + "\") failed: "@ + error;
    let e = Seq::<char>::empty();
    assert(after_text(3) + "\""@ =~= " (\""@);
    assert(s =~= before_text(3) + addr + " (\""@ + tail);
    assert(before_text(3) + addr + " (\""@ + tail =~= before_text(3) + addr + after_text(3) + (
    "\""@ + tail));
    assert(e + before_text(3) =~= before_text(3));
}

/// A line about a UDP handshake is plain and has no marks.
proof fn lemma_udp_plain(addr: Seq<char>, name: Seq<char>, error: Seq<char>)
    requires
        is_plain(addr) && is_unmarked(addr),
        is_plain(name) && is_unmarked(name),
        is_plain(error) && is_unmarked(error),
    ensures
        is_plain(udp_failed_text(addr, name, error)),
        stripped(udp_failed_text(addr, name, error)) == udp_failed_text(addr, name, error),
{
    lemma_fixed_texts();
    lemma_udp_parts(addr, name, error);
    let before = before_text(3);
    let after = after_text(3);
    let tail = name + "\") failed: "@ + error;
    let s = udp_failed_text(addr, name, error);
    let e = Seq::<char>::empty();
    lemma_unmarked_concat(before, addr);
    lemma_unmarked_concat(before + addr, after);
    lemma_unmarked_concat(name, "\") failed: "@);
    lemma_unmarked_concat(name + "\") failed: "@, error);
    lemma_unmarked_concat("\""@, tail);
    lemma_unmarked_concat(before + addr + after, "\""@ + tail);
    lemma_stripped_unmarked(s, e);
    assert(s + e =~= s);
    assert(stripped(e) =~= e);
    lemma_plain_concat(before, addr);
    lemma_plain_concat(before + addr, after);
    lemma_plain_concat(name, "\") failed: "@);
    lemma_plain_concat(name + "\") failed: "@, error);
    lemma_plain_concat("\""@, tail);
    lemma_plain_concat(before + addr + after, "\""@ + tail);
}

/// What is found in a line about a UDP handshake.
proof fn lemma_udp_captures(
    ip_text: Seq<char>,
    bracketed: bool,
    port: Seq<char>,
    name: Seq<char>,
    error: Seq<char>,
)
    requires
        ip_text.len() > 0,
        forall|i: int| 0 <= i < ip_text.len() ==> is_addr_char(#[trigger] ip_text[i]),
        is_digits(port),
        !occurs(name + "\") failed: "@ + error, "rejected "@),
        !occurs(name + "\") failed: "@ + error, "control: "@),
    ensures
        ({
            let s = udp_failed_text(socket_text(ip_text, bracketed, port), name, error);
            &&& first_address(s, 0, before_text(0), after_text(0)) is None
            &&& first_address(s, 0, before_text(1), after_text(1)) is None
            &&& first_address(s, 0, before_text(2), after_text(2)) is None
            &&& first_address(s, 0, before_text(3), after_text(3)) == Some(ip_text)
        }),
{
    let addr = socket_text(ip_text, bracketed, port);
    let tail = name + "\") failed: "@ + error;
    let s = udp_failed_text(addr, name, error);
    lemma_udp_parts(addr, name, error);
    assert(first_address(s, 0, before_text(3), after_text(3)) == Some(ip_text)) by {
        lemma_fixed_texts();
        let e = Seq::<char>::empty();
        lemma_found(e, before_text(3), ip_text, bracketed, port, after_text(3), "\""@ + tail);
    }
    lemma_no_other_line(ip_text, bracketed, port, tail);
    lemma_no_rejected_text(s);
    assert(!occurs(s, before_text(2))) by {
        reveal_strlit("control: handshake with ");
        reveal_strlit("control: ");
        assert(before_text(2).subrange(0, 9) =~= "control: "@);
        lemma_part_missing(s, before_text(2), "control: "@, 0);
    }
    lemma_nothing_before(s, 0, before_text(0), after_text(0));
    lemma_nothing_before(s, 0, before_text(1), after_text(1));
    lemma_nothing_before(s, 0, before_text(2), after_text(2));
}

/// A line that says that a UDP handshake failed is recognised: its address is
/// found, and it is the kind of offense that is counted. The peer's name and the
/// text of the error must be plain, and must not themselves read like another
/// line.
pub proof fn law_failed_udp_handshakes_are_recognised(
    addr: Seq<char>,
    ip: IpAddr,
    name: Seq<char>,
    error: Seq<char>,
)
    requires
        is_socket_text_of(addr, ip),
        is_plain(name),
        is_unmarked(name),
        is_plain(error),
        is_unmarked(error),
        !occurs(name + "\") failed: "@ + error, "rejected "@),
        !occurs(name + "\") failed: "@ + error, "control: "@),
    ensures
        stripped(udp_failed_text(addr, name, error)) == udp_failed_text(addr, name, error),
        is_plain(udp_failed_text(addr, name, error)),
        first_offense(plain_captures(udp_failed_text(addr, name, error)), 0) == Some(
            (ip, Offense::HandshakeFailed),
        ),
{
    let (ip_text, port) = choose|ip_text: Seq<char>, port: Seq<char>|
        #![trigger socket_text(ip_text, ip is V6, port)]
        ip_value(ip_text) == Some(ip) && is_digits(port) && addr == socket_text(
            ip_text,
            ip is V6,
            port,
        );
    lemma_ip_chars(ip_text);
    lemma_socket_plain(ip_text, ip is V6, port);
    lemma_udp_plain(addr, name, error);
    lemma_udp_captures(ip_text, ip is V6, port, name, error);
    let captures = plain_captures(udp_failed_text(addr, name, error));
    assert(captures[0] is None && captures[1] is None && captures[2] is None && captures[3] == Some(
        ip_text,
    ));
    reveal_with_fuel(first_offense, 4);
}

proof fn lemma_no_other_line(ip_text: Seq<char>, bracketed: bool, port: Seq<char>, tail: Seq<char>)
    requires
        forall|i: int| 0 <= i < ip_text.len() ==> is_addr_char(#[trigger] ip_text[i]),
        is_digits(port),
        !occurs(tail, "rejected "@),
        !occurs(tail, "control: "@),
    ensures
        !occurs(
            before_text(3) + socket_text(ip_text, bracketed, port) + " (\""@ + tail,
            "rejected "@,
        ),
        !occurs(
            before_text(3) + socket_text(ip_text, bracketed, port) + " (\""@ + tail,
            "control: "@,
        ),
{
    reveal_with_fuel(pair_free, 40);
    reveal_strlit("ghostport-udp: handshake with ");
    reveal_strlit(" (\"");
    reveal_strlit("rejected ");
    reveal_strlit("control: ");
    let addr = socket_text(ip_text, bracketed, port);
    let before = before_text(3);
    let behind = " (\""@;
    let front = before + addr + behind;
    lemma_has_no_pair(before, 'r', 'e');
    lemma_has_no_pair(behind, 'r', 'e');
    lemma_socket_no_pair(ip_text, bracketed, port, 'c', 'o');
    assert forall|k: int| 0 <= k && k + 1 < addr.len() implies !(#[trigger] addr[k] == 'r' && addr[k
        + 1] == 'e') by {
        assert(is_socket_char(addr[k]));
    }
    assert(is_socket_char(addr.last()));
    lemma_no_pair_concat(before, addr, 'r', 'e');
    lemma_no_pair_concat(before + addr, behind, 'r', 'e');
    lemma_occurs_in_rest(front, tail, "rejected "@, 'r', 'e');
    lemma_has_no_pair(before, 'c', 'o');
    lemma_has_no_pair(behind, 'c', 'o');
    lemma_no_pair_concat(before, addr, 'c', 'o');
    lemma_no_pair_concat(before + addr, behind, 'c', 'o');
    lemma_occurs_in_rest(front, tail, "control: "@, 'c', 'o');
}

} // verus!

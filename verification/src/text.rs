//! Text building blocks: decimal and hexadecimal numbers, trimming, words,
//! joining and padding. Every text is modelled by the sequence of its
//! characters.

use vstd::prelude::*;
use vstd::slice::slice_subrange;
use vstd::utf8::{encode_utf8, encode_utf8_decode_utf8};

verus! {

/// `String::push` appends one character at the end.
pub assume_specification[ String::push ](s: &mut String, c: char)
    ensures
        final(s)@ == old(s)@.push(c),
;

/// `String::push_str` appends a whole text at the end.
pub assume_specification[ String::push_str ](s: &mut String, t: &str)
    ensures
        final(s)@ == old(s)@ + t@,
;

// ---------------------------------------------------------------------
// Characters and texts
// ---------------------------------------------------------------------

/// The characters of `s`, in order.
pub fn chars_of(s: &str) -> (v: Vec<char>)
    ensures
        v@ == s@,
{
    let mut v: Vec<char> = Vec::new();
    for c in it: s.chars()
        invariant
            v@ == it.seq().take(it.index() as int),
            it.seq() == s@,
    {
        v.push(c);
    }
    v
}

/// The text made of the characters `v`.
pub fn string_of(v: &[char]) -> (s: String)
    ensures
        s@ == v@,
{
    let mut s = String::new();
    let mut i: usize = 0;
    while i < v.len()
        invariant
            i <= v@.len(),
            s@ == v@.take(i as int),
        decreases v@.len() - i,
    {
        s.push(v[i]);
        i = i + 1;
    }
    s
}

/// Whether two texts are the same.
pub fn str_eq(a: &str, b: &str) -> (r: bool)
    ensures
        r == (a@ == b@),
{
    let x = a.as_bytes();
    let y = b.as_bytes();
    proof {
        encode_utf8_decode_utf8(a@);
        encode_utf8_decode_utf8(b@);
    }
    if x.len() != y.len() {
        return false;
    }
    let mut i: usize = 0;
    while i < x.len()
        invariant
            i <= x@.len(),
            x@.len() == y@.len(),
            x@ == encode_utf8(a@),
            y@ == encode_utf8(b@),
            forall|j: int| 0 <= j < i ==> x@[j] == y@[j],
        decreases x@.len() - i,
    {
        if x[i] != y[i] {
            return false;
        }
        i = i + 1;
    }
    assert(x@ =~= y@);
    true
}

/// A copy of an optional text.
pub fn clone_text(t: &Option<String>) -> (r: Option<String>)
    ensures
        r.deep_view() == t.deep_view(),
{
    match t {
        Some(s) => Some(s.clone()),
        None => None,
    }
}

/// Adding a text to a list adds its characters to what the list shows.
pub proof fn lemma_push_text(before: Vec<String>, after: Vec<String>, t: String)
    requires
        after@ == before@.push(t),
    ensures
        after.deep_view() == before.deep_view().push(t@),
{
    assert(after.deep_view() =~= before.deep_view().push(t@));
}

// ---------------------------------------------------------------------
// Decimal and hexadecimal numbers
// ---------------------------------------------------------------------

/// The decimal digit for a number below ten.
pub open spec fn digit(d: nat) -> char {
    (48 + d) as char
}

/// The usual decimal notation of `n`: no sign, no superfluous zeros.
pub open spec fn dec(n: nat) -> Seq<char>
    decreases n,
{
    if n < 10 {
        seq![digit(n)]
    } else {
        dec(n / 10).push(digit(n % 10))
    }
}

/// Whether `c` is one of `0` to `9`.
pub open spec fn is_digit(c: char) -> bool {
    '0' <= c <= '9'
}

/// Whether `s` is a non-empty run of decimal digits.
pub open spec fn is_digits(s: Seq<char>) -> bool {
    &&& s.len() > 0
    &&& forall|i: int| 0 <= i < s.len() ==> is_digit(#[trigger] s[i])
}

/// The number that a run of decimal digits denotes.
pub open spec fn dec_value(s: Seq<char>) -> nat
    decreases s.len(),
{
    if s.len() == 0 {
        0
    } else {
        dec_value(s.drop_last()) * 10 + ((s.last() as nat - 48) as nat)
    }
}

/// Appends the decimal notation of `n`.
pub fn push_dec(s: &mut String, n: u64)
    ensures
        final(s)@ == old(s)@ + dec(n as nat),
    decreases n,
{
    if n >= 10 {
        push_dec(s, n / 10);
    }
    let d: u8 = 48u8 + (n % 10) as u8;
    s.push(d as char);
    proof {
        if n < 10 {
            assert(old(s)@.push(d as char) =~= old(s)@ + dec(n as nat));
        } else {
            assert((old(s)@ + dec((n / 10) as nat)).push(d as char) =~= old(s)@ + dec(n as nat));
        }
    }
}

/// The decimal notation of `n`.
pub fn dec_text(n: u64) -> (s: String)
    ensures
        s@ == dec(n as nat),
{
    let mut s = String::new();
    push_dec(&mut s, n);
    assert(s@ =~= dec(n as nat));
    s
}

/// The decimal notation is a run of digits without a superfluous leading
/// zero, and reading it back gives the number.
pub proof fn lemma_dec(n: nat)
    ensures
        is_digits(dec(n)),
        dec(n).len() > 1 ==> dec(n)[0] != '0',
        dec_value(dec(n)) == n,
        n > 0 ==> dec(n)[0] != '0',
    decreases n,
{
    if n < 10 {
        assert(dec(n).drop_last() =~= Seq::<char>::empty());
        assert(dec_value(dec(n).drop_last()) == 0);
    } else {
        lemma_dec(n / 10);
        let p = dec(n / 10);
        assert(dec(n).drop_last() =~= p);
        assert forall|i: int| 0 <= i < dec(n).len() implies is_digit(#[trigger] dec(n)[i]) by {
            if i < p.len() {
                assert(dec(n)[i] == p[i]);
            }
        }
        assert(dec(n)[0] == p[0]);
    }
}

/// A run of digits without a superfluous leading zero is the decimal notation
/// of the number that it denotes.
pub proof fn lemma_dec_of_value(s: Seq<char>)
    requires
        is_digits(s),
        s.len() > 1 ==> s[0] != '0',
    ensures
        dec(dec_value(s)) == s,
        s[0] != '0' ==> dec_value(s) > 0,
    decreases s.len(),
{
    assert(is_digit(s.last()));
    if s.len() == 1 {
        assert(s.drop_last() =~= Seq::<char>::empty());
        assert(dec_value(s.drop_last()) == 0);
        assert(dec(dec_value(s)) =~= s);
    } else {
        let p = s.drop_last();
        assert forall|i: int| 0 <= i < p.len() implies is_digit(#[trigger] p[i]) by {
            assert(p[i] == s[i]);
        }
        assert(p[0] == s[0]);
        lemma_dec_of_value(p);
        assert(dec_value(s) >= 10);
        assert(dec_value(s) / 10 == dec_value(p));
        assert(dec(dec_value(s)) =~= s);
    }
}

/// The number of decimal digits bounds the number.
pub proof fn lemma_dec_value_bound(s: Seq<char>)
    requires
        is_digits(s),
    ensures
        s.len() <= 3 ==> dec_value(s) < 1000,
{
    reveal_with_fuel(dec_value, 4);
    if s.len() <= 3 {
        assert(is_digit(s[0]));
        assert(is_digit(s.last()));
        if s.len() >= 2 {
            assert(s.drop_last().last() == s[s.len() - 2]);
            assert(is_digit(s[s.len() - 2]));
        }
        if s.len() >= 3 {
            assert(s.drop_last().drop_last().last() == s[0]);
        }
    }
}

/// The lower-case hexadecimal digit for a number below sixteen.
pub open spec fn hex_digit(d: nat) -> char {
    if d < 10 {
        (48 + d) as char
    } else {
        (87 + d) as char
    }
}

/// A byte as two lower-case hexadecimal digits.
pub open spec fn hex2(b: u8) -> Seq<char> {
    seq![hex_digit((b / 16) as nat), hex_digit((b % 16) as nat)]
}

fn hex_char(d: u8) -> (c: char)
    requires
        d < 16,
    ensures
        c == hex_digit(d as nat),
{
    if d < 10 {
        (48u8 + d) as char
    } else {
        (87u8 + d) as char
    }
}

/// Appends a byte as two lower-case hexadecimal digits.
pub fn push_hex2(s: &mut String, b: u8)
    ensures
        final(s)@ == old(s)@ + hex2(b),
{
    s.push(hex_char(b / 16));
    s.push(hex_char(b % 16));
    assert(s@ =~= old(s)@ + hex2(b));
}

/// The value of a hexadecimal digit of either case.
pub open spec fn hex_digit_value(c: char) -> Option<nat> {
    if '0' <= c <= '9' {
        Some((c as nat - 48) as nat)
    } else if 'a' <= c <= 'f' {
        Some((c as nat - 87) as nat)
    } else if 'A' <= c <= 'F' {
        Some((c as nat - 55) as nat)
    } else {
        None
    }
}

/// The value of a hexadecimal digit of either case.
pub fn hex_digit_of(c: char) -> (r: Option<u16>)
    ensures
        match r {
            Some(v) => hex_digit_value(c) == Some(v as nat) && v < 16,
            None => hex_digit_value(c) is None,
        },
{
    if '0' <= c && c <= '9' {
        Some((c as u32 - 48) as u16)
    } else if 'a' <= c && c <= 'f' {
        Some((c as u32 - 87) as u16)
    } else if 'A' <= c && c <= 'F' {
        Some((c as u32 - 55) as u16)
    } else {
        None
    }
}

// ---------------------------------------------------------------------
// White space
// ---------------------------------------------------------------------

/// The characters with the Unicode property White_Space.
pub open spec fn is_white(c: char) -> bool {
    let n = c as nat;
    ||| 0x09 <= n <= 0x0d
    ||| n == 0x20
    ||| n == 0x85
    ||| n == 0xa0
    ||| n == 0x1680
    ||| 0x2000 <= n <= 0x200a
    ||| n == 0x2028
    ||| n == 0x2029
    ||| n == 0x202f
    ||| n == 0x205f
    ||| n == 0x3000
}

/// Whether `c` has the Unicode property White_Space.
pub fn is_white_char(c: char) -> (r: bool)
    ensures
        r == is_white(c),
{
    let n: u32 = c as u32;
    (0x09 <= n && n <= 0x0d) || n == 0x20 || n == 0x85 || n == 0xa0 || n == 0x1680 || (0x2000
        <= n && n <= 0x200a) || n == 0x2028 || n == 0x2029 || n == 0x202f || n == 0x205f || n
        == 0x3000
}

/// `s` without the white space at its start.
pub open spec fn trim_start(s: Seq<char>) -> Seq<char>
    decreases s.len(),
{
    if s.len() > 0 && is_white(s[0]) {
        trim_start(s.drop_first())
    } else {
        s
    }
}

/// `s` without the white space at its end.
pub open spec fn trim_end(s: Seq<char>) -> Seq<char>
    decreases s.len(),
{
    if s.len() > 0 && is_white(s.last()) {
        trim_end(s.drop_last())
    } else {
        s
    }
}

/// `s` without the white space at both ends.
pub open spec fn trimmed(s: Seq<char>) -> Seq<char> {
    trim_end(trim_start(s))
}

/// The index of the first character of `v` at or after `from` that is not
/// white space, or the length of `v`.
fn skip_white(v: &[char], from: usize) -> (i: usize)
    requires
        from <= v@.len(),
    ensures
        from <= i <= v@.len(),
        trim_start(v@.skip(from as int)) == v@.skip(i as int),
        i < v@.len() ==> !is_white(v@[i as int]),
        forall|j: int| from <= j < i ==> is_white(v@[j]),
{
    let mut i: usize = from;
    while i < v.len() && is_white_char(v[i])
        invariant
            from <= i <= v@.len(),
            trim_start(v@.skip(from as int)) == trim_start(v@.skip(i as int)),
            forall|j: int| from <= j < i ==> is_white(v@[j]),
        decreases v@.len() - i,
    {
        assert(v@.skip(i as int)[0] == v@[i as int]);
        assert(v@.skip(i as int).drop_first() =~= v@.skip(i + 1));
        i = i + 1;
    }
    i
}

/// The text without the white space at both ends.
pub fn trim(s: &str) -> (r: String)
    ensures
        r@ == trimmed(s@),
{
    let v = chars_of(s);
    let start = skip_white(&v, 0);
    assert(v@.skip(0) =~= s@);
    let mut end: usize = v.len();
    assert(v@.skip(start as int) =~= v@.subrange(start as int, end as int));
    while end > start && is_white_char(v[end - 1])
        invariant
            start <= end <= v@.len(),
            trim_end(v@.skip(start as int)) == trim_end(v@.subrange(start as int, end as int)),
        decreases end - start,
    {
        let ghost cur = v@.subrange(start as int, end as int);
        assert(cur.last() == v@[end - 1]);
        assert(cur.drop_last() =~= v@.subrange(start as int, end - 1));
        end = end - 1;
    }
    proof {
        let cur = v@.subrange(start as int, end as int);
        if end > start {
            assert(cur.last() == v@[end - 1]);
        }
    }
    string_of(slice_subrange(&v, start, end))
}

/// A text without white space at its ends is its own trimmed form.
pub proof fn lemma_trimmed_id(s: Seq<char>)
    requires
        s.len() > 0 ==> !is_white(s[0]) && !is_white(s.last()),
    ensures
        trimmed(s) == s,
{
}

/// Trimming only takes characters away, and leaves no white space at the ends.
pub proof fn lemma_trimmed(s: Seq<char>)
    ensures
        trimmed(s).len() <= s.len(),
        trimmed(s).len() > 0 ==> !is_white(trimmed(s)[0]) && !is_white(trimmed(s).last()),
        trimmed(trimmed(s)) == trimmed(s),
{
    lemma_trim_start(s);
    lemma_trim_end(trim_start(s));
}

proof fn lemma_trim_start(s: Seq<char>)
    ensures
        trim_start(s).len() <= s.len(),
        trim_start(s).len() > 0 ==> !is_white(trim_start(s)[0]),
    decreases s.len(),
{
    if s.len() > 0 && is_white(s[0]) {
        lemma_trim_start(s.drop_first());
    }
}

proof fn lemma_trim_end(s: Seq<char>)
    ensures
        trim_end(s).len() <= s.len(),
        trim_end(s).len() > 0 ==> !is_white(trim_end(s).last()) && trim_end(s)[0] == s[0],
    decreases s.len(),
{
    if s.len() > 0 && is_white(s.last()) {
        lemma_trim_end(s.drop_last());
    }
}

/// The length of the run of characters at the start of `s` that are not white
/// space.
pub open spec fn word_len(s: Seq<char>) -> nat
    decreases s.len(),
{
    if s.len() == 0 || is_white(s[0]) {
        0
    } else {
        1 + word_len(s.drop_first())
    }
}

/// A word is no longer than the text, and it ends where white space or the
/// text's end comes.
pub proof fn lemma_word_len(s: Seq<char>)
    ensures
        word_len(s) <= s.len(),
        word_len(s) < s.len() ==> is_white(s[word_len(s) as int]),
        forall|i: int| 0 <= i < word_len(s) ==> !is_white(#[trigger] s[i]),
    decreases s.len(),
{
    if s.len() == 0 || is_white(s[0]) {
    } else {
        let t = s.drop_first();
        lemma_word_len(t);
        assert forall|i: int| 0 <= i < word_len(s) implies !is_white(#[trigger] s[i]) by {
            if i > 0 {
                assert(t[i - 1] == s[i]);
            }
        }
    }
}

/// The words of `s`: its maximal runs of characters that are not white space.
pub open spec fn words(s: Seq<char>) -> Seq<Seq<char>>
    decreases s.len(),
    via words_decreases
{
    let t = trim_start(s);
    if t.len() == 0 {
        Seq::empty()
    } else {
        seq![t.take(word_len(t) as int)] + words(t.skip(word_len(t) as int))
    }
}

#[via_fn]
proof fn words_decreases(s: Seq<char>) {
    let t = trim_start(s);
    lemma_trim_start(s);
    lemma_word_len(t);
    if t.len() > 0 {
        assert(word_len(t) > 0);
    }
}

/// Splits a text into its words.
pub fn split_words(s: &str) -> (r: Vec<String>)
    ensures
        r.deep_view() == words(s@),
{
    let v = chars_of(s);
    let mut out: Vec<String> = Vec::new();
    let mut i: usize = 0;
    assert(v@.skip(0) =~= s@);
    assert(out.deep_view() + words(s@) =~= words(s@));
    loop
        invariant
            i <= v@.len(),
            v@ == s@,
            out.deep_view() + words(v@.skip(i as int)) == words(s@),
        decreases v@.len() - i,
    {
        let start = skip_white(&v, i);
        let ghost t = v@.skip(start as int);
        proof {
            lemma_word_len(t);
        }
        if start == v.len() {
            assert(words(v@.skip(i as int)) =~= Seq::<Seq<char>>::empty());
            assert(out.deep_view() + words(v@.skip(i as int)) =~= out.deep_view());
            return out;
        }
        let mut end: usize = start;
        while end < v.len() && !is_white_char(v[end])
            invariant
                start <= end <= v@.len(),
                t == v@.skip(start as int),
                word_len(t) == (end - start) + word_len(v@.skip(end as int)),
            decreases v@.len() - end,
        {
            assert(v@.skip(end as int)[0] == v@[end as int]);
            assert(v@.skip(end as int).drop_first() =~= v@.skip(end + 1));
            end = end + 1;
        }
        proof {
            if end < v@.len() {
                assert(v@.skip(end as int)[0] == v@[end as int]);
            }
            assert(word_len(t) == end - start);
            assert(v@.subrange(start as int, end as int) =~= t.take(word_len(t) as int));
            assert(v@.skip(end as int) =~= t.skip(word_len(t) as int));
            assert(t[0] == v@[start as int]);
        }
        let w = string_of(slice_subrange(&v, start, end));
        let ghost before = out;
        out.push(w);
        proof {
            lemma_push_text(before, out, w);
            assert(before.deep_view() + (seq![w@] + words(t.skip(word_len(t) as int)))
                =~= out.deep_view() + words(v@.skip(end as int)));
        }
        i = end;
    }
}

// ---------------------------------------------------------------------
// Joining, splitting and padding
// ---------------------------------------------------------------------

/// The texts of `list` with `sep` between each two of them.
pub open spec fn joined(list: Seq<Seq<char>>, sep: Seq<char>) -> Seq<char>
    decreases list.len(),
{
    if list.len() == 0 {
        Seq::empty()
    } else if list.len() == 1 {
        list[0]
    } else {
        joined(list.drop_last(), sep) + sep + list.last()
    }
}

/// Joins texts with a separator.
pub fn join(list: &Vec<String>, sep: &str) -> (r: String)
    ensures
        r@ == joined(list.deep_view(), sep@),
{
    let mut r = String::new();
    let mut i: usize = 0;
    let ghost all = list.deep_view();
    while i < list.len()
        invariant
            i <= list@.len(),
            all == list.deep_view(),
            r@ == joined(all.take(i as int), sep@),
        decreases list@.len() - i,
    {
        if i > 0 {
            r.push_str(sep);
        }
        r.push_str(list[i].as_str());
        proof {
            assert(all.take(i + 1).drop_last() =~= all.take(i as int));
            assert(all.take(i + 1).last() == list@[i as int]@);
            if i == 0 {
                assert(r@ =~= all.take(1)[0]);
            }
        }
        i = i + 1;
    }
    assert(all.take(i as int) =~= all);
    r
}

/// The pieces of `s` between the occurrences of `c`; there is always one
/// piece more than there are occurrences.
pub open spec fn split(s: Seq<char>, c: char) -> Seq<Seq<char>>
    decreases s.len(),
{
    if s.len() == 0 {
        seq![Seq::empty()]
    } else {
        let r = split(s.drop_last(), c);
        if s.last() == c {
            r.push(Seq::empty())
        } else {
            r.drop_last().push(r.last().push(s.last()))
        }
    }
}

/// Splitting gives at least one piece, and no piece holds the separator.
pub proof fn lemma_split(s: Seq<char>, c: char)
    ensures
        split(s, c).len() > 0,
        forall|i: int, j: int|
            #![trigger split(s, c)[i][j]]
            0 <= i < split(s, c).len() && 0 <= j < split(s, c)[i].len() ==> split(s, c)[i][j] != c,
        joined(split(s, c), seq![c]) == s,
    decreases s.len(),
{
    if s.len() == 0 {
        assert(joined(split(s, c), seq![c]) =~= s);
    } else {
        let p = s.drop_last();
        lemma_split(p, c);
        let r = split(p, c);
        let t = split(s, c);
        assert forall|i: int, j: int|
            #![trigger t[i][j]]
            0 <= i < t.len() && 0 <= j < t[i].len() implies t[i][j] != c by {
            if i < t.len() - 1 {
                assert(t[i] == r[i]);
                assert(r[i][j] != c);
            } else if s.last() != c {
                assert(t[i] == r.last().push(s.last()));
                if j < r.last().len() {
                    assert(r[r.len() - 1][j] != c);
                }
            }
        }
        if s.last() == c {
            assert(t.drop_last() =~= r);
            assert(joined(t, seq![c]) =~= s);
        } else {
            assert(t.drop_last() =~= r.drop_last());
            if t.len() == 1 {
                assert(joined(r, seq![c]) == r[0]);
                assert(joined(t, seq![c]) =~= s);
            } else {
                assert(t.last() == r.last().push(s.last()));
                assert(joined(r, seq![c]) == joined(r.drop_last(), seq![c]) + seq![c] + r.last());
                assert(joined(t, seq![c]) =~= p.push(s.last()));
                assert(p.push(s.last()) =~= s);
            }
        }
    }
}

/// `s` followed by as many spaces as it takes to fill `width` characters.
pub open spec fn padded_right(s: Seq<char>, width: nat) -> Seq<char> {
    s + spaces((width - s.len()) as int)
}

/// `s` preceded by as many spaces as it takes to fill `width` characters.
pub open spec fn padded_left(s: Seq<char>, width: nat) -> Seq<char> {
    spaces((width - s.len()) as int) + s
}

/// `n` spaces; none where `n` is negative.
pub open spec fn spaces(n: int) -> Seq<char> {
    Seq::new((if n > 0 { n } else { 0 }) as nat, |i: int| ' ')
}

fn push_spaces(s: &mut String, n: usize)
    ensures
        final(s)@ == old(s)@ + spaces(n as int),
{
    let mut i: usize = 0;
    while i < n
        invariant
            i <= n,
            s@ == old(s)@ + spaces(i as int),
        decreases n - i,
    {
        let ghost before = s@;
        s.push(' ');
        i = i + 1;
        assert(before.push(' ') =~= old(s)@ + spaces(i as int));
    }
    assert(s@ =~= old(s)@ + spaces(n as int));
}

/// Pads with spaces on the right, up to `width` characters.
pub fn pad_right(s: &str, width: usize) -> (r: String)
    ensures
        r@ == padded_right(s@, width as nat),
{
    let len = s.unicode_len();
    let mut r = s.to_owned();
    if len < width {
        push_spaces(&mut r, width - len);
    } else {
        assert(r@ =~= padded_right(s@, width as nat));
    }
    r
}

/// Pads with spaces on the left, up to `width` characters.
pub fn pad_left(s: &str, width: usize) -> (r: String)
    ensures
        r@ == padded_left(s@, width as nat),
{
    let len = s.unicode_len();
    let mut r = String::new();
    if len < width {
        push_spaces(&mut r, width - len);
    }
    r.push_str(s);
    assert(r@ =~= padded_left(s@, width as nat));
    r
}

// ---------------------------------------------------------------------
// Paths
// ---------------------------------------------------------------------

/// `rest` taken relative to the directory `base`: an absolute `rest` stands for
/// itself, any other is put behind `base` with exactly one `/` between them,
/// unless `base` is empty.
pub open spec fn path_joined(base: Seq<char>, rest: Seq<char>) -> Seq<char> {
    if rest.len() > 0 && rest[0] == '/' {
        rest
    } else if base.len() == 0 || base.last() == '/' {
        base + rest
    } else {
        base.push('/') + rest
    }
}

/// Resolves `rest` relative to the directory `base`.
pub fn path_join(base: &str, rest: &str) -> (r: String)
    ensures
        r@ == path_joined(base@, rest@),
{
    let rest_len = rest.unicode_len();
    if rest_len > 0 && rest.get_char(0) == '/' {
        return rest.to_owned();
    }
    let mut r = base.to_owned();
    let base_len = base.unicode_len();
    if base_len > 0 && base.get_char(base_len - 1) != '/' {
        r.push('/');
    }
    r.push_str(rest);
    r
}

proof fn lemma_trim_start_parts(s: Seq<char>) -> (i: int)
    ensures
        0 <= i <= s.len(),
        trim_start(s) == s.skip(i),
        forall|k: int| 0 <= k < i ==> is_white(#[trigger] s[k]),
    decreases s.len(),
{
    if s.len() > 0 && is_white(s[0]) {
        let t = s.drop_first();
        let i = lemma_trim_start_parts(t);
        assert(t.skip(i) =~= s.skip(i + 1));
        assert forall|k: int| 0 <= k < i + 1 implies is_white(#[trigger] s[k]) by {
            if k > 0 {
                assert(t[k - 1] == s[k]);
            }
        }
        i + 1
    } else {
        assert(s.skip(0) =~= s);
        0
    }
}

proof fn lemma_trim_end_parts(s: Seq<char>) -> (j: int)
    ensures
        0 <= j <= s.len(),
        trim_end(s) == s.take(j),
        forall|k: int| j <= k < s.len() ==> is_white(#[trigger] s[k]),
    decreases s.len(),
{
    if s.len() > 0 && is_white(s.last()) {
        let t = s.drop_last();
        let j = lemma_trim_end_parts(t);
        assert(t.take(j) =~= s.take(j));
        assert forall|k: int| j <= k < s.len() implies is_white(#[trigger] s[k]) by {
            if k < t.len() {
                assert(t[k] == s[k]);
            }
        }
        j
    } else {
        assert(s.take(s.len() as int) =~= s);
        s.len() as int
    }
}

/// Trimming takes the white space at both ends away, all of it and nothing else.
pub proof fn law_trimming_takes_white_ends(s: Seq<char>)
    ensures
        exists|i: int, j: int|
            #![trigger s.subrange(i, j)]
            0 <= i <= j <= s.len() && trimmed(s) == s.subrange(i, j) && (forall|k: int|
                0 <= k < s.len() && !(i <= k < j) ==> is_white(#[trigger] s[k])),
        trimmed(s).len() > 0 ==> !is_white(trimmed(s)[0]) && !is_white(trimmed(s).last()),
{
    lemma_trimmed(s);
    let i = lemma_trim_start_parts(s);
    let t = trim_start(s);
    let n = lemma_trim_end_parts(t);
    assert(t.take(n) =~= s.subrange(i, i + n));
    assert forall|k: int| 0 <= k < s.len() && !(i <= k < i + n) implies is_white(#[trigger] s[k]) by {
        if k >= i + n {
            assert(t[k - i] == s[k]);
        }
    }
}

/// In ASCII the space, the tabulator and the line ends are white, and beyond it the
/// spaces and separators of Unicode; nothing else is.
pub proof fn law_what_is_white(c: char)
    ensures
        c <= '~' ==> (is_white(c) <==> c == ' ' || '\t' <= c <= '\r'),
        c > '~' ==> (is_white(c) <==> c == '\u{85}' || c == '\u{a0}' || c == '\u{1680}' || '\u{2000}'
            <= c <= '\u{200a}' || c == '\u{2028}' || c == '\u{2029}' || c == '\u{202f}' || c
            == '\u{205f}' || c == '\u{3000}'),
{
}

/// The first word of a text that begins with one, and the words of what is behind it.
pub proof fn law_words_are_between_white_space(w: Seq<char>, gap: char, rest: Seq<char>)
    requires
        w.len() > 0,
        forall|i: int| 0 <= i < w.len() ==> !is_white(#[trigger] w[i]),
        is_white(gap),
    ensures
        words(w + seq![gap] + rest) == seq![w] + words(rest),
        words(seq![gap] + rest) == words(rest),
        words(w) == seq![w],
{
    let s = w + seq![gap] + rest;
    assert(s[0] == w[0]);
    assert(trim_start(s) == s);
    lemma_word_len(s);
    let n = word_len(s) as int;
    assert(n == w.len()) by {
        if n < w.len() {
            assert(s[n] == w[n]);
        } else if n > w.len() {
            assert(s[w.len() as int] == gap);
        }
    }
    assert(s.take(n) =~= w);
    let behind = s.skip(n);
    assert(behind =~= seq![gap] + rest);
    lemma_words_behind_gap(gap, rest);
    assert(trim_start(w) == w);
    lemma_word_len(w);
    assert(word_len(w) == w.len()) by {
        if word_len(w) < w.len() {
            assert(is_white(w[word_len(w) as int]));
        }
    }
    assert(w.take(w.len() as int) =~= w);
    assert(w.skip(w.len() as int) =~= Seq::<char>::empty());
    assert(words(Seq::<char>::empty()) =~= Seq::<Seq<char>>::empty());
    assert(words(w) =~= seq![w]);
}

proof fn lemma_words_behind_gap(gap: char, rest: Seq<char>)
    requires
        is_white(gap),
    ensures
        words(seq![gap] + rest) == words(rest),
{
    let s = seq![gap] + rest;
    assert(s[0] == gap);
    assert(s.drop_first() =~= rest);
    assert(trim_start(s) == trim_start(rest));
}

/// A number of one digit is that digit; a longer one is the number without its last
/// digit, and that digit behind it.
pub proof fn law_decimal_notation(n: nat, d: nat)
    requires
        d < 10,
    ensures
        dec(d) == seq![(('0' as nat) + d) as char],
        n > 0 ==> dec(10 * n + d) == dec(n).push((('0' as nat) + d) as char),
        dec_value(dec(n)) == n,
{
    lemma_dec(n);
    if n > 0 {
        assert((10 * n + d) / 10 == n);
        assert((10 * n + d) % 10 == d);
    }
}

/// A byte is told by two lower-case hexadecimal digits, the upper four bits first.
pub proof fn law_hexadecimal_notation(b: u8)
    ensures
        hex2(b).len() == 2,
        hex_digit_value(hex2(b)[0]) == Some((b / 16) as nat),
        hex_digit_value(hex2(b)[1]) == Some((b % 16) as nat),
        forall|i: int|
            0 <= i < 2 ==> '0' <= #[trigger] hex2(b)[i] <= '9' || 'a' <= hex2(b)[i] <= 'f',
{
}

/// The hexadecimal digits, of either case, and their values.
pub proof fn law_hexadecimal_digits(d: nat)
    requires
        d < 16,
    ensures
        d < 10 ==> hex_digit_value((('0' as nat) + d) as char) == Some(d),
        d >= 10 ==> hex_digit_value((('a' as nat) + d - 10) as char) == Some(d),
        d >= 10 ==> hex_digit_value((('A' as nat) + d - 10) as char) == Some(d),
        forall|c: char|
            hex_digit_value(c) is Some <==> '0' <= c <= '9' || 'a' <= c <= 'f' || 'A' <= c <= 'F',
{
}

/// A text that is padded keeps its characters and gets as many spaces as it takes to
/// fill the width, on the right or on the left; a wider one is left alone.
pub proof fn law_padding_fills_the_width(s: Seq<char>, width: nat)
    ensures
        s.is_prefix_of(padded_right(s, width)),
        s.is_suffix_of(padded_left(s, width)),
        s.len() <= width ==> padded_right(s, width).len() == width && padded_left(s, width).len()
            == width,
        s.len() >= width ==> padded_right(s, width) == s && padded_left(s, width) == s,
        forall|i: int| s.len() <= i < width ==> #[trigger] padded_right(s, width)[i] == ' ',
        forall|i: int| 0 <= i < width - s.len() ==> #[trigger] padded_left(s, width)[i] == ' ',
{
    let r = padded_right(s, width);
    let l = padded_left(s, width);
    assert(r.take(s.len() as int) =~= s);
    assert(l.skip(l.len() - s.len()) =~= s);
    if s.len() >= width {
        assert(r =~= s);
        assert(l =~= s);
    }
}

/// Texts that are joined stand one behind the other with the separator between them.
pub proof fn law_joined_texts(list: Seq<Seq<char>>, t: Seq<char>, sep: Seq<char>)
    ensures
        joined(Seq::empty(), sep) == Seq::<char>::empty(),
        joined(seq![t], sep) == t,
        list.len() > 0 ==> joined(list.push(t), sep) == joined(list, sep) + sep + t,
{
    assert(list.push(t).drop_last() =~= list);
}

/// A path below a directory is the directory, one slash and the path; one that starts
/// at the root stays as it is.
pub proof fn law_paths_are_joined_with_one_slash(base: Seq<char>, rest: Seq<char>)
    ensures
        rest.len() > 0 && rest[0] == '/' ==> path_joined(base, rest) == rest,
        !(rest.len() > 0 && rest[0] == '/') && base.len() > 0 && base.last() != '/'
            ==> path_joined(base, rest) == base + seq!['/'] + rest,
        !(rest.len() > 0 && rest[0] == '/') && (base.len() == 0 || base.last() == '/')
            ==> path_joined(base, rest) == base + rest,
{
    assert(base.push('/') + rest =~= base + seq!['/'] + rest);
}

} // verus!

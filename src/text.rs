//! Character-level helpers shared by the codec and the search module.

use vstd::prelude::*;
use vstd::utf8::{
    char_is_scalar, decode_utf8, encode_scalar, encode_utf8, encode_utf8_decode_utf8,
    encode_utf8_valid_utf8, valid_utf8,
};

verus! {

/// `String::push` appends one character at the end of the string.
pub assume_specification[ String::push ](s: &mut String, ch: char)
    ensures
        final(s)@ == old(s)@.push(ch),
;

#[verifier::external_type_specification]
#[verifier::external_body]
pub struct ExUtf8Error(core::str::Utf8Error);

/// `str::from_utf8` accepts exactly the byte sequences that are valid
/// UTF-8, and the string it returns is made of those bytes.
pub assume_specification[ core::str::from_utf8 ](v: &[u8]) -> (r: Result<&str, core::str::Utf8Error>)
    ensures
        r is Ok <==> valid_utf8(v@),
        r matches Ok(s) ==> encode_utf8(s@) == v@,
;

/// `str` equality compares the contents of the two strings.
pub assume_specification[ <str as PartialEq>::eq ](a: &str, b: &str) -> (r: bool)
    ensures
        r == (a@ == b@),
;

/// Whether two strings hold the same characters.
pub fn same_text(a: &str, b: &str) -> (r: bool)
    ensures
        r == (a@ == b@),
{
    <str as PartialEq>::eq(a, b)
}

/// The characters of `s`, in order.
pub fn chars_of(s: &str) -> (r: Vec<char>)
    ensures
        r@ == s@,
{
    let mut r: Vec<char> = Vec::new();
    for c in it: s.chars()
        invariant
            it.seq() == s@,
            r@ == it.seq().take(it.index() as int),
    {
        r.push(c);
        assert(r@ =~= it.seq().take(it.index() as int + 1));
    }
    r
}

/// A string made of the characters `v[start..end]`.
pub fn string_of(v: &Vec<char>, start: usize, end: usize) -> (r: String)
    requires
        start <= end <= v@.len(),
    ensures
        r@ == v@.subrange(start as int, end as int),
{
    let mut r = String::new();
    let mut i: usize = start;
    while i < end
        invariant
            start <= i <= end <= v@.len(),
            r@ == v@.subrange(start as int, i as int),
        decreases end - i,
    {
        r.push(v[i]);
        assert(r@ =~= v@.subrange(start as int, i as int + 1));
        i = i + 1;
    }
    r
}


/// Position of the first `c` in `s`, or `s.len()` when there is none.
pub open spec fn index_of(s: Seq<char>, c: char) -> nat
    decreases s.len(),
{
    if s.len() == 0 {
        0
    } else if s[0] == c {
        0
    } else {
        1 + index_of(s.drop_first(), c)
    }
}

pub open spec fn lacks(s: Seq<char>, c: char) -> bool {
    forall|i: int| 0 <= i < s.len() ==> s[i] != c
}

/// `index_of` is the first position that holds `c`, or the length.
pub proof fn lemma_index_of(s: Seq<char>, c: char, k: int)
    requires
        0 <= k <= s.len(),
        lacks(s.take(k), c),
        k == s.len() || s[k] == c,
    ensures
        index_of(s, c) == k,
    decreases k,
{
    if k > 0 {
        assert(s[0] == s.take(k)[0]);
        let t = s.drop_first();
        assert forall|i: int| 0 <= i < k - 1 implies #[trigger] t.take(k - 1)[i] != c by {
            assert(t.take(k - 1)[i] == s.take(k)[i + 1]);
        }
        lemma_index_of(t, c, k - 1);
    }
}

/// Splitting `a + [c] + b` at its first `c` gives back `a`.
pub proof fn lemma_index_of_join(a: Seq<char>, c: char, b: Seq<char>)
    requires
        lacks(a, c),
    ensures
        index_of(a + seq![c] + b, c) == a.len(),
        (a + seq![c] + b).take(a.len() as int) == a,
        (a + seq![c] + b).skip(a.len() as int + 1) == b,
{
    let s = a + seq![c] + b;
    assert(s.take(a.len() as int) =~= a);
    assert(s.skip(a.len() as int + 1) =~= b);
    lemma_index_of(s, c, a.len() as int);
}

/// A sequence without `c` has no `c` to split at.
pub proof fn lemma_index_of_absent(a: Seq<char>, c: char)
    requires
        lacks(a, c),
    ensures
        index_of(a, c) == a.len(),
{
    assert(a.take(a.len() as int) =~= a);
    lemma_index_of(a, c, a.len() as int);
}

pub open spec fn is_digit(c: char) -> bool {
    '0' <= c && c <= '9'
}

pub open spec fn digit_char(d: nat) -> char {
    ((d + 48) as u8) as char
}

pub open spec fn digit_value(c: char) -> nat {
    (c as int - 48) as nat
}

pub open spec fn all_digits(s: Seq<char>) -> bool {
    forall|i: int| 0 <= i < s.len() ==> is_digit(s[i])
}

/// The number that a string of decimal digits denotes.
pub open spec fn digits_value(s: Seq<char>) -> nat
    decreases s.len(),
{
    if s.len() == 0 {
        0
    } else {
        digits_value(s.drop_last()) * 10 + digit_value(s.last())
    }
}

/// A non-empty run of decimal digits whose value fits a `u32`.
pub open spec fn parse_u32(s: Seq<char>) -> Option<u32> {
    if s.len() > 0 && all_digits(s) && digits_value(s) <= u32::MAX {
        Some(digits_value(s) as u32)
    } else {
        None
    }
}

/// The decimal digits of `n`, without leading zeros.
pub open spec fn decimal(n: nat) -> Seq<char>
    decreases n,
{
    if n < 10 {
        seq![digit_char(n)]
    } else {
        decimal(n / 10).push(digit_char(n % 10))
    }
}

proof fn lemma_digit_char(d: nat)
    requires
        d < 10,
    ensures
        is_digit(digit_char(d)),
        digit_value(digit_char(d)) == d,
{
    assert((((d + 48) as u8) as char) as int == d + 48);
}

pub proof fn lemma_decimal(n: nat)
    ensures
        decimal(n).len() > 0,
        all_digits(decimal(n)),
        digits_value(decimal(n)) == n,
    decreases n,
{
    if n < 10 {
        lemma_digit_char(n);
        let d = decimal(n);
        assert(d.drop_last() =~= Seq::<char>::empty());
        assert(digits_value(d) == digits_value(d.drop_last()) * 10 + digit_value(d.last()));
    } else {
        lemma_digit_char(n % 10);
        lemma_decimal(n / 10);
        let d = decimal(n);
        assert(d.drop_last() =~= decimal(n / 10));
        assert(d.last() == digit_char(n % 10));
        assert(digits_value(d) == digits_value(d.drop_last()) * 10 + digit_value(d.last()));
        assert((n / 10) * 10 + n % 10 == n) by (nonlinear_arith);
    }
}

/// Whether `n` as decimal digits parses back to `n`.
pub proof fn lemma_parse_decimal(n: u32)
    ensures
        parse_u32(decimal(n as nat)) == Some(n),
        lacks(decimal(n as nat), '&'),
        lacks(decimal(n as nat), '='),
{
    lemma_decimal(n as nat);
}

/// Bytes that stand for themselves in a query value: ASCII letters,
/// digits, `-`, `_`, `.` and `~`.
pub open spec fn is_unreserved(b: u8) -> bool {
    (65 <= b && b <= 90) || (97 <= b && b <= 122) || (48 <= b && b <= 57) || b == 45 || b == 95
        || b == 46 || b == 126
}

pub open spec fn hex_char(d: nat) -> char {
    if d < 10 {
        digit_char(d)
    } else {
        ((d + 55) as u8) as char
    }
}

pub open spec fn hex_value(c: char) -> Option<nat> {
    if '0' <= c && c <= '9' {
        Some((c as int - 48) as nat)
    } else if 'A' <= c && c <= 'F' {
        Some((c as int - 55) as nat)
    } else if 'a' <= c && c <= 'f' {
        Some((c as int - 87) as nat)
    } else {
        None
    }
}

/// One byte of a query value: itself when unreserved, else `%XY` with
/// upper-case hex digits.
pub open spec fn escape_byte(b: u8) -> Seq<char> {
    if is_unreserved(b) {
        seq![b as char]
    } else {
        seq!['%', hex_char((b / 16) as nat), hex_char((b % 16) as nat)]
    }
}

pub open spec fn escape_bytes(bs: Seq<u8>) -> Seq<char>
    decreases bs.len(),
{
    if bs.len() == 0 {
        Seq::empty()
    } else {
        escape_byte(bs[0]) + escape_bytes(bs.drop_first())
    }
}

/// Percent-encoding of a query value: its UTF-8 bytes, each escaped.
pub open spec fn percent_encode(s: Seq<char>) -> Seq<char> {
    escape_bytes(encode_utf8(s))
}

/// The byte of an escape `%XY` at the start of `s`, if there is one.
pub open spec fn escape_at(s: Seq<char>) -> Option<u8> {
    if s.len() >= 3 && s[0] == '%' && hex_value(s[1]) is Some && hex_value(s[2]) is Some {
        Some((hex_value(s[1])->0 * 16 + hex_value(s[2])->0) as u8)
    } else {
        None
    }
}

/// The bytes that a query value denotes: `%XY` gives that byte, `+` a
/// space, any other character its own UTF-8 bytes.
pub open spec fn unescape(s: Seq<char>) -> Seq<u8>
    decreases s.len(),
{
    if s.len() == 0 {
        Seq::empty()
    } else if escape_at(s) is Some {
        seq![escape_at(s)->0] + unescape(s.skip(3))
    } else if s[0] == '+' {
        seq![32u8] + unescape(s.drop_first())
    } else {
        encode_utf8(seq![s[0]]) + unescape(s.drop_first())
    }
}

/// Decoding of a query value: the text whose UTF-8 bytes the value
/// denotes, or nothing when those bytes are not UTF-8.
pub open spec fn percent_decode(s: Seq<char>) -> Seq<char> {
    if valid_utf8(unescape(s)) {
        decode_utf8(unescape(s))
    } else {
        Seq::empty()
    }
}

proof fn lemma_hex_char(d: nat)
    requires
        d < 16,
    ensures
        hex_value(hex_char(d)) == Some(d),
        hex_char(d) != '&',
        hex_char(d) != '=',
{
}

proof fn lemma_utf8_single(c: char)
    ensures
        encode_utf8(seq![c]) == encode_scalar(c as u32),
{
    let s = seq![c];
    assert(s.drop_first() =~= Seq::<char>::empty());
    assert(encode_utf8(s) == encode_scalar(s[0] as u32) + encode_utf8(s.drop_first()));
    assert(encode_utf8(s) =~= encode_scalar(c as u32));
}

proof fn lemma_ascii_utf8(b: u8)
    requires
        b < 128,
    ensures
        encode_utf8(seq![b as char]) == seq![b],
        (b as char) as u32 == b as u32,
{
    let c = b as char;
    assert((c as u32) == b as u32);
    let v = c as u32;
    assert((v & 0x7F) == v) by (bit_vector)
        requires
            v < 128,
    ;
    lemma_utf8_single(c);
    assert(encode_utf8(seq![c]) =~= seq![b]);
}

proof fn lemma_unescape_escaped(bs: Seq<u8>)
    ensures
        unescape(escape_bytes(bs)) == bs,
        lacks(escape_bytes(bs), '&'),
        lacks(escape_bytes(bs), '='),
    decreases bs.len(),
{
    if bs.len() > 0 {
        let b = bs[0];
        let rest = bs.drop_first();
        lemma_unescape_escaped(rest);
        let e = escape_bytes(bs);
        let tail = escape_bytes(rest);
        assert(e == escape_byte(b) + tail);
        if is_unreserved(b) {
            lemma_ascii_utf8(b);
            assert(e.drop_first() =~= tail);
            assert(escape_at(e) is None);
        } else {
            lemma_hex_char((b / 16) as nat);
            lemma_hex_char((b % 16) as nat);
            assert(e.skip(3) =~= tail);
            assert(escape_at(e) == Some(b));
        }
        assert(unescape(e) =~= bs);
    }
}

/// Percent-decoding undoes percent-encoding, for any text.
pub proof fn lemma_percent_round_trip(s: Seq<char>)
    ensures
        percent_decode(percent_encode(s)) == s,
        lacks(percent_encode(s), '&'),
        lacks(percent_encode(s), '='),
{
    lemma_unescape_escaped(encode_utf8(s));
    encode_utf8_valid_utf8(s);
    encode_utf8_decode_utf8(s);
}

/// The first position at or after `start` and before `end` that holds `c`,
/// or `end`.
pub fn find_char(v: &Vec<char>, start: usize, end: usize, c: char) -> (r: usize)
    requires
        start <= end <= v@.len(),
    ensures
        r == start + index_of(v@.subrange(start as int, end as int), c),
        start <= r <= end,
        lacks(v@.subrange(start as int, r as int), c),
{
    let mut i: usize = start;
    while i < end && v[i] != c
        invariant
            start <= i <= end <= v@.len(),
            lacks(v@.subrange(start as int, i as int), c),
        decreases end - i,
    {
        assert(v@.subrange(start as int, i as int + 1) =~= v@.subrange(start as int, i as int).push(
            v@[i as int],
        ));
        i = i + 1;
    }
    let ghost s = v@.subrange(start as int, end as int);
    proof {
        assert(s.take(i - start) =~= v@.subrange(start as int, i as int));
        lemma_index_of(s, c, i - start);
    }
    i
}

/// Whether `v[start..end]` is the word `w`.
pub fn range_equals(v: &Vec<char>, start: usize, end: usize, w: &Vec<char>) -> (r: bool)
    requires
        start <= end <= v@.len(),
    ensures
        r == (v@.subrange(start as int, end as int) == w@),
{
    if end - start != w.len() {
        return false;
    }
    let mut i: usize = 0;
    while i < w.len()
        invariant
            start <= end <= v@.len(),
            end - start == w@.len(),
            i <= w@.len(),
            forall|j: int| 0 <= j < i ==> v@[start + j] == w@[j],
        decreases w@.len() - i,
    {
        if v[start + i] != w[i] {
            assert(v@.subrange(start as int, end as int)[i as int] != w@[i as int]);
            return false;
        }
        i = i + 1;
    }
    assert(v@.subrange(start as int, end as int) =~= w@);
    true
}

proof fn lemma_digits_value_mono(s: Seq<char>, i: int)
    requires
        0 <= i <= s.len(),
    ensures
        digits_value(s.take(i)) <= digits_value(s),
    decreases s.len(),
{
    if i < s.len() {
        assert(s.drop_last().take(i) =~= s.take(i));
        lemma_digits_value_mono(s.drop_last(), i);
    } else {
        assert(s.take(i) =~= s);
    }
}

/// Parses `v[start..end]` as a decimal `u32`.
pub fn parse_u32_range(v: &Vec<char>, start: usize, end: usize) -> (r: Option<u32>)
    requires
        start <= end <= v@.len(),
    ensures
        r == parse_u32(v@.subrange(start as int, end as int)),
{
    let ghost s = v@.subrange(start as int, end as int);
    if start == end {
        return None;
    }
    let mut acc: u64 = 0;
    let mut i: usize = start;
    while i < end
        invariant
            start <= i <= end <= v@.len(),
            s == v@.subrange(start as int, end as int),
            acc <= u32::MAX,
            acc == digits_value(v@.subrange(start as int, i as int)),
            all_digits(v@.subrange(start as int, i as int)),
        decreases end - i,
    {
        let c = v[i];
        if !('0' <= c && c <= '9') {
            assert(s[i - start] == c);
            return None;
        }
        let ghost t = v@.subrange(start as int, i as int + 1);
        assert(t.drop_last() =~= v@.subrange(start as int, i as int));
        assert(t.last() == c);
        acc = acc * 10 + (c as u32 - 48) as u64;
        assert(acc == digits_value(t));
        assert(all_digits(t)) by {
            assert forall|j: int| 0 <= j < t.len() implies is_digit(#[trigger] t[j]) by {
                if j < t.len() - 1 {
                    assert(t[j] == v@.subrange(start as int, i as int)[j]);
                }
            }
        }
        if acc > u32::MAX as u64 {
            proof {
                assert(s.take(i + 1 - start) =~= t);
                lemma_digits_value_mono(s, i + 1 - start);
            }
            return None;
        }
        i = i + 1;
    }
    assert(v@.subrange(start as int, i as int) =~= s);
    Some(acc as u32)
}

/// The value of a hex digit.
pub fn hex_digit_value(c: char) -> (r: Option<u32>)
    ensures
        r is Some <==> hex_value(c) is Some,
        r is Some ==> r->0 as nat == hex_value(c)->0,
        r is Some ==> r->0 < 16,
{
    if '0' <= c && c <= '9' {
        Some(c as u32 - 48)
    } else if 'A' <= c && c <= 'F' {
        Some(c as u32 - 55)
    } else if 'a' <= c && c <= 'f' {
        Some(c as u32 - 87)
    } else {
        None
    }
}

/// Appends the UTF-8 bytes of `c`.
fn push_utf8(out: &mut Vec<u8>, c: char)
    ensures
        final(out)@ == old(out)@ + encode_utf8(seq![c]),
{
    proof {
        char_is_scalar(c);
        lemma_utf8_single(c);
    }
    let ghost start = out@;
    let x = c as u32;
    if x <= 0x7F {
        out.push((x & 0x7F) as u8);
    } else if x <= 0x7FF {
        out.push(0xC0 | ((x >> 6) & 0x1F) as u8);
        out.push(0x80 | (x & 0x3F) as u8);
    } else if x <= 0xFFFF {
        out.push(0xE0 | ((x >> 12) & 0x0F) as u8);
        out.push(0x80 | ((x >> 6) & 0x3F) as u8);
        out.push(0x80 | (x & 0x3F) as u8);
    } else {
        out.push(0xF0 | ((x >> 18) & 0x7) as u8);
        out.push(0x80 | ((x >> 12) & 0x3F) as u8);
        out.push(0x80 | ((x >> 6) & 0x3F) as u8);
        out.push(0x80 | (x & 0x3F) as u8);
    }
    assert(out@ =~= start + encode_scalar(c as u32));
}

/// Percent-decodes `v[start..end]`.
pub fn percent_decode_range(v: &Vec<char>, start: usize, end: usize) -> (r: String)
    requires
        start <= end <= v@.len(),
    ensures
        r@ == percent_decode(v@.subrange(start as int, end as int)),
{
    let mut bytes: Vec<u8> = Vec::new();
    let mut i: usize = start;
    while i < end
        invariant
            start <= i <= end <= v@.len(),
            bytes@ + unescape(v@.subrange(i as int, end as int)) == unescape(
                v@.subrange(start as int, end as int),
            ),
        decreases end - i,
    {
        let ghost s = v@.subrange(i as int, end as int);
        let ghost before = bytes@;
        let c = v[i];
        let mut step: usize = 1;
        let mut decoded: Option<u8> = None;
        if c == '%' && end - i >= 3 {
            let hi = hex_digit_value(v[i + 1]);
            let lo = hex_digit_value(v[i + 2]);
            if let (Some(h), Some(l)) = (hi, lo) {
                decoded = Some((h * 16 + l) as u8);
            }
        }
        match decoded {
            Some(d) => {
                assert(escape_at(s) == Some(d));
                bytes.push(d);
                step = 3;
                assert(s.skip(3) =~= v@.subrange(i as int + 3, end as int));
            },
            None => {
                assert(escape_at(s) is None);
                if c == '+' {
                    bytes.push(32u8);
                } else {
                    push_utf8(&mut bytes, c);
                }
                assert(s.drop_first() =~= v@.subrange(i as int + 1, end as int));
            },
        }
        assert(bytes@ + unescape(v@.subrange(i + step, end as int)) =~= before + unescape(s));
        i = i + step;
    }
    assert(unescape(v@.subrange(i as int, end as int)) =~= Seq::<u8>::empty());
    assert(bytes@ + Seq::<u8>::empty() =~= bytes@);
    match core::str::from_utf8(bytes.as_slice()) {
        Ok(text) => {
            proof {
                encode_utf8_decode_utf8(text@);
            }
            text.to_string()
        },
        Err(_) => String::new(),
    }
}

/// Appends the decimal digits of `n`.
pub fn push_decimal(out: &mut String, n: u32)
    ensures
        final(out)@ == old(out)@ + decimal(n as nat),
    decreases n,
{
    if n >= 10 {
        push_decimal(out, n / 10);
    }
    let d = (n % 10) as u8;
    out.push((d + 48) as char);
    assert(decimal(n as nat) =~= if n < 10 {
        seq![digit_char(n as nat)]
    } else {
        decimal((n / 10) as nat).push(digit_char((n % 10) as nat))
    });
    assert(final(out)@ =~= old(out)@ + decimal(n as nat));
}

fn hex_digit(d: u8) -> (r: char)
    requires
        d < 16,
    ensures
        r == hex_char(d as nat),
{
    if d < 10 {
        (d + 48) as char
    } else {
        (d + 55) as char
    }
}

fn is_unreserved_byte(b: u8) -> (r: bool)
    ensures
        r == is_unreserved(b),
{
    (65 <= b && b <= 90) || (97 <= b && b <= 122) || (48 <= b && b <= 57) || b == 45 || b == 95
        || b == 46 || b == 126
}

/// Appends the percent-encoding of `s`.
pub fn push_percent_encoded(out: &mut String, s: &str)
    ensures
        final(out)@ == old(out)@ + percent_encode(s@),
{
    let bs = s.as_bytes();
    let ghost all = bs@;
    assert(all == encode_utf8(s@));
    let ghost start = out@;
    let mut i: usize = 0;
    assert(all.skip(0) =~= all);
    while i < bs.len()
        invariant
            i <= all.len(),
            bs@ == all,
            out@ + escape_bytes(all.skip(i as int)) == start + escape_bytes(all),
        decreases all.len() - i,
    {
        let ghost before = out@;
        let ghost rest = all.skip(i as int);
        let b = bs[i];
        assert(rest.drop_first() =~= all.skip(i as int + 1));
        if is_unreserved_byte(b) {
            out.push(b as char);
        } else {
            out.push('%');
            out.push(hex_digit(b / 16));
            out.push(hex_digit(b % 16));
        }
        assert(out@ =~= before + escape_byte(b));
        assert(out@ + escape_bytes(all.skip(i as int + 1)) =~= before + escape_bytes(rest));
        i = i + 1;
    }
    assert(all.skip(i as int) =~= Seq::<u8>::empty());
    assert(out@ =~= start + percent_encode(s@));
}

} // verus!

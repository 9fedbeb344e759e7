//! Decoding of `%XX` escapes in a request path.
//!
//! The input is the UTF-8 text of a path token. An escape whose two following
//! characters are hex digits becomes the byte they spell; any other escape
//! swallows the `%` and up to two following characters and yields nothing.
use vstd::prelude::*;

verus! {

pub open spec fn is_hex(b: u8) -> bool {
    (0x30 <= b && b <= 0x39) || (0x41 <= b && b <= 0x46) || (0x61 <= b && b <= 0x66)
}

pub open spec fn hex_value(b: u8) -> nat {
    if b <= 0x39 {
        (b - 0x30) as nat
    } else if b <= 0x46 {
        (b - 0x41 + 10) as nat
    } else {
        (b - 0x61 + 10) as nat
    }
}

/// The byte spelled by two hex digits.
pub open spec fn hex_byte(hi: u8, lo: u8) -> u8 {
    (16 * hex_value(hi) + hex_value(lo)) as u8
}

/// The number of bytes of the UTF-8 character that starts with `b`.
pub open spec fn char_width(b: u8) -> nat {
    if b < 0xC0 {
        1
    } else if b < 0xE0 {
        2
    } else if b < 0xF0 {
        3
    } else {
        4
    }
}

pub open spec fn min(a: nat, b: nat) -> nat {
    if a <= b { a } else { b }
}

/// How many bytes a malformed escape at the start of `s` consumes: the `%`
/// and the (at most two) characters after it.
pub open spec fn dropped_escape_len(s: Seq<u8>) -> nat {
    let after_first = if s.len() > 1 { min(1 + char_width(s[1]), s.len() as nat) } else { 1 };
    if after_first < s.len() {
        min(after_first + char_width(s[after_first as int]), s.len() as nat)
    } else {
        after_first
    }
}

pub open spec fn is_valid_escape(s: Seq<u8>) -> bool {
    s.len() >= 3 && s[0] == 0x25 && is_hex(s[1]) && is_hex(s[2])
}

/// The decoded form of the path bytes `s`.
pub open spec fn decode(s: Seq<u8>) -> Seq<u8>
    decreases s.len(),
{
    if s.len() == 0 {
        Seq::empty()
    } else if s[0] != 0x25 {
        seq![s[0]] + decode(s.drop_first())
    } else if is_valid_escape(s) {
        seq![hex_byte(s[1], s[2])] + decode(s.subrange(3, s.len() as int))
    } else {
        decode(s.subrange(dropped_escape_len(s) as int, s.len() as int))
    }
}

pub open spec fn has_no_percent(s: Seq<u8>) -> bool {
    forall|i: int| 0 <= i < s.len() ==> s[i] != 0x25
}

/// `c` is the complete UTF-8 encoding of one character.
pub open spec fn is_one_char(c: Seq<u8>) -> bool {
    c.len() >= 1 && c.len() == char_width(c[0])
}

fn is_hex_digit(b: u8) -> (r: bool)
    ensures
        r == is_hex(b),
{
    (0x30 <= b && b <= 0x39) || (0x41 <= b && b <= 0x46) || (0x61 <= b && b <= 0x66)
}

fn hex_digit_value(b: u8) -> (r: u8)
    requires
        is_hex(b),
    ensures
        r as nat == hex_value(b),
        r < 16,
{
    if b <= 0x39 {
        b - 0x30
    } else if b <= 0x46 {
        b - 0x41 + 10
    } else {
        b - 0x61 + 10
    }
}

fn utf8_width(b: u8) -> (r: usize)
    ensures
        r as nat == char_width(b),
{
    if b < 0xC0 {
        1
    } else if b < 0xE0 {
        2
    } else if b < 0xF0 {
        3
    } else {
        4
    }
}

/// Decodes the `%XX` escapes of a path token.
pub fn percent_decode(s: &[u8]) -> (r: Vec<u8>)
    ensures
        r@ == decode(s@),
{
    let n = s.len();
    let mut out: Vec<u8> = Vec::new();
    let mut i: usize = 0;
    assert(s@.subrange(0, n as int) =~= s@);
    assert(out@ + decode(s@) =~= decode(s@));
    while i < n
        invariant
            n == s@.len(),
            i <= n,
            decode(s@) == out@ + decode(s@.subrange(i as int, n as int)),
        decreases n - i,
    {
        let ghost rest = s@.subrange(i as int, n as int);
        if s[i] != 0x25 {
            assert(rest.drop_first() =~= s@.subrange(i + 1, n as int));
            out.push(s[i]);
            i += 1;
            assert(decode(s@) =~= out@ + decode(s@.subrange(i as int, n as int)));
        } else if n - i > 2 && is_hex_digit(s[i + 1]) && is_hex_digit(s[i + 2]) {
            let hi = hex_digit_value(s[i + 1]);
            let lo = hex_digit_value(s[i + 2]);
            let byte: u8 = 16 * hi + lo;
            assert(is_valid_escape(rest));
            assert(rest.subrange(3, rest.len() as int) =~= s@.subrange(i + 3, n as int));
            out.push(byte);
            i += 3;
            assert(decode(s@) =~= out@ + decode(s@.subrange(i as int, n as int)));
        } else {
            assert(!is_valid_escape(rest));
            let mut j: usize = i + 1;
            if j < n {
                let w = utf8_width(s[j]);
                j = if w <= n - j { j + w } else { n };
            }
            if j < n {
                let w = utf8_width(s[j]);
                j = if w <= n - j { j + w } else { n };
            }
            assert(j - i == dropped_escape_len(rest));
            assert(rest.subrange((j - i) as int, rest.len() as int) =~= s@.subrange(
                j as int,
                n as int,
            ));
            i = j;
        }
    }
    assert(s@.subrange(n as int, n as int) =~= Seq::<u8>::empty());
    assert(out@ + Seq::<u8>::empty() =~= out@);
    out
}

/// Text without a `%` decodes to itself, and decoding it in front of other
/// bytes leaves it unchanged in front of their decoded form.
pub proof fn lemma_decode_plain_prefix(before: Seq<u8>, after: Seq<u8>)
    requires
        has_no_percent(before),
    ensures
        decode(before + after) == before + decode(after),
    decreases before.len(),
{
    if before.len() == 0 {
        assert(before + after =~= after);
        assert(before + decode(after) =~= decode(after));
    } else {
        let s = before + after;
        assert(s[0] == before[0]);
        assert(s.drop_first() =~= before.drop_first() + after);
        lemma_decode_plain_prefix(before.drop_first(), after);
        assert(before =~= seq![before[0]] + before.drop_first());
        assert(decode(s) =~= before + decode(after));
    }
}

/// A `%` followed by two characters: when both are hex digits the escape
/// decodes to the byte they spell, otherwise the escape and both characters
/// vanish; the text around it is kept as it was.
pub proof fn lemma_percent_escape(before: Seq<u8>, c1: Seq<u8>, c2: Seq<u8>, after: Seq<u8>)
    requires
        has_no_percent(before),
        is_one_char(c1),
        is_one_char(c2),
    ensures
        decode(before + seq![0x25u8] + c1 + c2 + after) == before + (if c1.len() == 1
            && c2.len() == 1 && is_hex(c1[0]) && is_hex(c2[0]) {
            seq![hex_byte(c1[0], c2[0])]
        } else {
            Seq::<u8>::empty()
        }) + decode(after),
{
    let rest = seq![0x25u8] + c1 + c2 + after;
    assert(before + seq![0x25u8] + c1 + c2 + after =~= before + rest);
    lemma_decode_plain_prefix(before, rest);
    let n = rest.len();
    assert(rest[0] == 0x25);
    assert(rest[1] == c1[0]);
    if c1.len() == 1 && c2.len() == 1 && is_hex(c1[0]) && is_hex(c2[0]) {
        assert(rest[2] == c2[0]);
        assert(is_valid_escape(rest));
        assert(rest.subrange(3, n as int) =~= after);
    } else {
        if c1.len() == 1 {
            assert(rest[2] == c2[0]);
        }
        assert(!is_valid_escape(rest));
        let k1 = 1 + c1.len();
        assert(rest[k1 as int] == c2[0]);
        assert(dropped_escape_len(rest) == 1 + c1.len() + c2.len());
        assert(rest.subrange((1 + c1.len() + c2.len()) as int, n as int) =~= after);
        assert(Seq::<u8>::empty() + decode(after) =~= decode(after));
    }
}

/// A `%` with fewer than two characters after it is dropped.
pub proof fn lemma_percent_truncated(before: Seq<u8>, tail: Seq<u8>)
    requires
        has_no_percent(before),
        tail.len() == 0 || tail.len() <= char_width(tail[0]),
    ensures
        decode(before + seq![0x25u8] + tail) == before,
{
    let rest = seq![0x25u8] + tail;
    assert(before + seq![0x25u8] + tail =~= before + rest);
    lemma_decode_plain_prefix(before, rest);
    assert(rest[0] == 0x25);
    if tail.len() > 0 {
        assert(rest[1] == tail[0]);
    }
    assert(!is_valid_escape(rest));
    assert(dropped_escape_len(rest) == rest.len());
    assert(rest.subrange(rest.len() as int, rest.len() as int) =~= Seq::<u8>::empty());
    assert(decode(Seq::<u8>::empty()) =~= Seq::<u8>::empty());
    assert(decode(rest) =~= Seq::<u8>::empty());
    assert(before + Seq::<u8>::empty() =~= before);
}

} // verus!

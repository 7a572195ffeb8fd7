//! What joining, trimming, replacing and writing out text keep of it.
use crate::text;
use vstd::prelude::*;

verus! {

/// Whether a character is white space.
pub open spec fn blank(c: char) -> bool {
    text::white(c)
}

/// White space is what Unicode calls so: the ASCII controls from tab to carriage
/// return, the space, and the spaces and separators beyond ASCII; no letter, digit or
/// sign of ASCII is.
pub proof fn white_space_is_that_of_unicode(c: char)
    ensures
        c as int <= 0x7f ==> blank(c) == (c == ' ' || c == '\t' || c == '\n' || c as int == 11
            || c as int == 12 || c == '\r'),
        c as int > 0x7f ==> blank(c) == (c as int == 0x85 || c as int == 0xa0 || c as int == 0x1680
            || 0x2000 <= c as int <= 0x200a || c as int == 0x2028 || c as int == 0x2029 || c as int
            == 0x202f || c as int == 0x205f || c as int == 0x3000),
{
    assert(c as u32 == c as int);
}

/// The length of a text in bytes is that of its UTF-8 encoding, character by
/// character.
pub proof fn text_is_as_long_as_its_bytes(s: Seq<char>, c: char)
    ensures
        text::utf8_len(Seq::<char>::empty()) == 0,
        text::utf8_len(s.push(c)) == text::utf8_len(s) + vstd::utf8::encode_scalar(
            c as u32,
        ).len(),
{
    assert(s.push(c).drop_last() =~= s);
    vstd::utf8::char_is_scalar(c);
}

proof fn lemma_trim_start(s: Seq<char>) -> (k: int)
    ensures
        0 <= k <= s.len(),
        text::trim_start(s) == s.skip(k),
        forall|i: int| 0 <= i < k ==> blank(#[trigger] s[i]),
        k < s.len() ==> !blank(s[k]),
    decreases s.len(),
{
    if s.len() == 0 || !text::white(s[0]) {
        assert(s.skip(0) =~= s);
        0
    } else {
        let k = lemma_trim_start(s.skip(1));
        assert(s.skip(1).skip(k) =~= s.skip(k + 1));
        assert forall|i: int| 0 <= i < k + 1 implies blank(#[trigger] s[i]) by {
            if i > 0 {
                assert(s[i] == s.skip(1)[i - 1]);
            }
        }
        k + 1
    }
}

proof fn lemma_trim_end(s: Seq<char>) -> (k: int)
    ensures
        0 <= k <= s.len(),
        text::trim_end(s) == s.take(k),
        forall|i: int| k <= i < s.len() ==> blank(#[trigger] s[i]),
        k > 0 ==> !blank(s[k - 1]),
    decreases s.len(),
{
    if s.len() == 0 || !text::white(s.last()) {
        assert(s.take(s.len() as int) =~= s);
        s.len() as int
    } else {
        let k = lemma_trim_end(s.drop_last());
        assert(s.drop_last().take(k) =~= s.take(k));
        assert forall|i: int| k <= i < s.len() implies blank(#[trigger] s[i]) by {
            if i < s.len() - 1 {
                assert(s[i] == s.drop_last()[i]);
            }
        }
        k
    }
}

/// Trimming leaves the part of a text between its white ends: what is cut off is white
/// space, and what is left begins and ends with something else, or is nothing.
pub proof fn trimming_cuts_white_ends_off(s: Seq<char>)
    ensures
        exists|a: int, b: int|
            #![trigger s.subrange(a, b)]
            {
                &&& 0 <= a <= b <= s.len()
                &&& text::trimmed(s) == s.subrange(a, b)
                &&& forall|i: int| 0 <= i < a ==> blank(#[trigger] s[i])
                &&& forall|i: int| b <= i < s.len() ==> blank(#[trigger] s[i])
                &&& a < b ==> !blank(s[a]) && !blank(s[b - 1])
            },
{
    let a = lemma_trim_start(s);
    let rest = s.skip(a);
    let k = lemma_trim_end(rest);
    assert(rest.take(k) =~= s.subrange(a, a + k));
    assert forall|i: int| a + k <= i < s.len() implies blank(#[trigger] s[i]) by {
        assert(rest[i - a] == s[i]);
    }
    if k > 0 {
        assert(rest[k - 1] == s[a + k - 1]);
        if blank(s[a]) {
            assert(a < s.len());
        }
    }
    assert(text::trimmed(s) == s.subrange(a, a + k));
}

/// Joining puts the separator between the parts, once between each two, and nothing
/// before the first or behind the last.
pub proof fn joining_separates_the_parts(
    parts: Seq<Seq<char>>,
    last: Seq<char>,
    sep: Seq<char>,
)
    ensures
        text::joined(Seq::<Seq<char>>::empty(), sep).len() == 0,
        parts.len() == 0 ==> text::joined(parts.push(last), sep) == last,
        parts.len() > 0 ==> text::joined(parts.push(last), sep) == text::joined(parts, sep) + sep
            + last,
{
    assert(parts.push(last).drop_last() =~= parts);
}

/// Replacing puts the new text in the place of the old one wherever that stands first,
/// and leaves everything else as it is.
pub proof fn replacing_exchanges_what_it_finds(
    rest: Seq<char>,
    c: char,
    from: Seq<char>,
    to: Seq<char>,
)
    requires
        from.len() > 0,
    ensures
        text::replaced(Seq::<char>::empty(), from, to).len() == 0,
        text::replaced(from + rest, from, to) == to + text::replaced(rest, from, to),
        !from.is_prefix_of(seq![c] + rest) ==> text::replaced(seq![c] + rest, from, to) == seq![c]
            + text::replaced(rest, from, to),
{
    let n = from.len() as int;
    assert((from + rest).take(n) =~= from);
    assert((from + rest).skip(n) =~= rest);
    let s = seq![c] + rest;
    assert(s.skip(1) =~= rest);
    if s.len() < from.len() {
        assert(text::replaced(rest, from, to) == rest);
    } else if s.take(n) == from {
        assert(from.is_prefix_of(s));
    }
}

/// The number that decimal digits stand for.
pub open spec fn value_of(s: Seq<char>) -> int
    decreases s.len(),
{
    if s.len() == 0 {
        0
    } else {
        10 * value_of(s.drop_last()) + (s.last() as int - 48)
    }
}

/// A number is written with decimal digits that stand for it, without zeros in front.
pub proof fn numbers_are_written_as_they_are(n: nat)
    ensures
        value_of(text::decimal(n)) == n,
        forall|i: int|
            0 <= i < text::decimal(n).len() ==> '0' <= #[trigger] text::decimal(n)[i] <= '9',
        text::decimal(n).len() >= 1,
        text::decimal(n).len() > 1 ==> text::decimal(n)[0] != '0',
        n > 0 ==> text::decimal(n)[0] != '0',
    decreases n,
{
    let s = text::decimal(n);
    if n < 10 {
        assert(s.drop_last() =~= Seq::<char>::empty());
        assert(value_of(s.drop_last()) == 0);
    } else {
        numbers_are_written_as_they_are(n / 10);
        assert(s.drop_last() =~= text::decimal(n / 10));
        assert(s[0] == text::decimal(n / 10)[0]);
    }
}

/// UTF-16 is read unit by unit: a unit that is no surrogate is its own character, two
/// surrogates in order are one character beyond the first plane, and a surrogate alone
/// is the replacement character.
pub proof fn utf16_is_read_unit_by_unit(a: u16, b: u16, rest: Seq<u16>)
    ensures
        text::utf16_text(Seq::<u16>::empty()).len() == 0,
        a < 0xd800 || a > 0xdfff ==> text::utf16_text(seq![a] + rest) == seq![a as char]
            + text::utf16_text(rest),
        0xd800 <= a <= 0xdbff && 0xdc00 <= b <= 0xdfff ==> text::utf16_text(seq![a, b] + rest)
            == seq![(0x10000 + 1024 * (a - 0xd800) + (b - 0xdc00)) as char] + text::utf16_text(
            rest,
        ),
        0xdc00 <= a <= 0xdfff ==> text::utf16_text(seq![a] + rest) == seq!['\u{fffd}']
            + text::utf16_text(rest),
        0xd800 <= a <= 0xdbff && (rest.len() == 0 || rest[0] < 0xdc00 || rest[0] > 0xdfff)
            ==> text::utf16_text(seq![a] + rest) == seq!['\u{fffd}'] + text::utf16_text(rest),
{
    assert((seq![a] + rest).skip(1) =~= rest);
    assert((seq![a, b] + rest).skip(2) =~= rest);
    if rest.len() > 0 {
        assert((seq![a] + rest)[1] == rest[0]);
    }
}

/// The number that a hexadecimal digit stands for.
pub open spec fn hex_value(c: char) -> int {
    if '0' <= c <= '9' {
        c as int - 48
    } else {
        c as int - 87
    }
}

/// A byte is written with two hexadecimal digits that stand for it, the higher first.
pub proof fn bytes_are_written_as_they_are(b: u8)
    ensures
        text::hex(b).len() == 2,
        hex_value(text::hex(b)[0]) == b as int / 16,
        hex_value(text::hex(b)[1]) == b as int % 16,
{
    lemma_digit(b as int / 16);
    lemma_digit(b as int % 16);
}

proof fn lemma_digit(d: int)
    requires
        0 <= d < 16,
    ensures
        hex_value(text::digit(d)) == d,
        '0' <= text::digit(d) <= '9' || 'a' <= text::digit(d) <= 'f',
{
}

}

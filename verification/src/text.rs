//! Strings as sequences of characters.
use vstd::prelude::*;

verus! {

/// `String::push` appends the given character to the end of the string.
pub assume_specification [String::push] (s: &mut String, c: char)
    ensures
        final(s)@ == old(s)@.push(c),
;

/// `char::from_u32` gives the character with a code, and nothing for a code
/// that is a surrogate or lies past the last character.
pub assume_specification [char::from_u32] (v: u32) -> (r: Option<char>)
    ensures
        r == (if v < 0xd800 || 0xdfff < v <= 0x10ffff {
            Some(v as char)
        } else {
            None
        }),
;

/// Whether a character is white space in the sense of Unicode.
pub open spec fn white(c: char) -> bool {
    let v = c as u32;
    ||| 9 <= v <= 13
    ||| v == 0x20
    ||| v == 0x85
    ||| v == 0xa0
    ||| v == 0x1680
    ||| 0x2000 <= v <= 0x200a
    ||| v == 0x2028
    ||| v == 0x2029
    ||| v == 0x202f
    ||| v == 0x205f
    ||| v == 0x3000
}

/// Whether a character is white space in the sense of Unicode.
pub fn is_white(c: char) -> (r: bool)
    ensures
        r == white(c),
{
    let v: u32 = c as u32;
    (9 <= v && v <= 13) || v == 0x20 || v == 0x85 || v == 0xa0 || v == 0x1680 || (0x2000 <= v && v
        <= 0x200a) || v == 0x2028 || v == 0x2029 || v == 0x202f || v == 0x205f || v == 0x3000
}

/// The characters of a string.
pub fn chars_of(s: &str) -> (r: Vec<char>)
    ensures
        r@ == s@,
{
    let mut out: Vec<char> = Vec::new();
    for c in it: s.chars()
        invariant
            out@ == it.seq().take(it.index() as int),
            it.seq() == s@,
    {
        out.push(c);
    }
    assert(out@ =~= s@);
    out
}

/// The string of the characters from `a` to before `b`.
pub fn string_of(chars: &Vec<char>, a: usize, b: usize) -> (r: String)
    requires
        a <= b <= chars@.len(),
    ensures
        r@ == chars@.subrange(a as int, b as int),
{
    let mut out = String::new();
    let mut i: usize = a;
    while i < b
        invariant
            a <= i <= b <= chars@.len(),
            out@ == chars@.subrange(a as int, i as int),
        decreases b - i,
    {
        out.push(chars[i]);
        i += 1;
        assert(out@ =~= chars@.subrange(a as int, i as int));
    }
    out
}

/// Appends a string.
pub fn push_text(out: &mut String, s: &str)
    ensures
        final(out)@ == old(out)@ + s@,
{
    let ghost start = out@;
    for c in it: s.chars()
        invariant
            out@ == start + it.seq().take(it.index() as int),
            it.seq() == s@,
    {
        out.push(c);
        assert(out@ =~= start + it.seq().take(it.index() as int + 1));
    }
    assert(out@ =~= start + s@);
}

// ── Words and trimming ─────────────────────────────────────────────────

/// Whether `s[a..b]` is a word: a longest run without white space.
pub open spec fn is_word(s: Seq<char>, a: int, b: int) -> bool {
    &&& 0 <= a < b <= s.len()
    &&& forall|i: int| a <= i < b ==> !white(#[trigger] s[i])
    &&& a == 0 || white(s[a - 1])
    &&& b == s.len() || white(s[b])
}

/// Whether `ranges` are the words of `s`, all of them and in order.
pub open spec fn are_words(s: Seq<char>, ranges: Seq<(usize, usize)>) -> bool {
    &&& forall|k: int|
        0 <= k < ranges.len() ==> is_word(
            s,
            (#[trigger] ranges[k]).0 as int,
            ranges[k].1 as int,
        )
    &&& forall|k: int, l: int|
        0 <= k < l < ranges.len() ==> (#[trigger] ranges[k]).1 < (#[trigger] ranges[l]).0
    &&& forall|i: int|
        0 <= i < s.len() && !white(#[trigger] s[i]) ==> exists|k: int|
            0 <= k < ranges.len() && (#[trigger] ranges[k]).0 <= i < ranges[k].1
}

/// Words that share a character are the same word.
proof fn lemma_same_word(s: Seq<char>, a: int, b: int, c: int, d: int, i: int)
    requires
        is_word(s, a, b),
        is_word(s, c, d),
        a <= i < b,
        c <= i < d,
    ensures
        a == c,
        b == d,
{
    if a < c {
        assert(!white(s[c - 1]));
    }
    if c < a {
        assert(!white(s[a - 1]));
    }
    if b < d {
        assert(!white(s[b]));
    }
    if d < b {
        assert(!white(s[d]));
    }
}

/// The word of one list that stands in another.
proof fn lemma_word_in_other(
    s: Seq<char>,
    a: Seq<(usize, usize)>,
    b: Seq<(usize, usize)>,
    k: int,
) -> (l: int)
    requires
        are_words(s, a),
        are_words(s, b),
        0 <= k < a.len(),
    ensures
        0 <= l < b.len(),
        b[l] == a[k],
{
    let i = a[k].0 as int;
    assert(is_word(s, a[k].0 as int, a[k].1 as int));
    assert(!white(s[i]));
    let l = choose|l: int| 0 <= l < b.len() && (#[trigger] b[l]).0 <= i < b[l].1;
    assert(is_word(s, b[l].0 as int, b[l].1 as int));
    lemma_same_word(s, a[k].0 as int, a[k].1 as int, b[l].0 as int, b[l].1 as int, i);
    l
}

proof fn lemma_words_agree(
    s: Seq<char>,
    a: Seq<(usize, usize)>,
    b: Seq<(usize, usize)>,
    k: int,
)
    requires
        are_words(s, a),
        are_words(s, b),
        0 <= k < a.len(),
    ensures
        k < b.len(),
        a[k] == b[k],
    decreases k,
{
    assert forall|j: int| 0 <= j < k implies j < b.len() && #[trigger] a[j] == b[j] by {
        lemma_words_agree(s, a, b, j);
    }
    assert(is_word(s, a[k].0 as int, a[k].1 as int));
    let l = lemma_word_in_other(s, a, b, k);
    if l < k {
        assert(a[l] == b[l]);
        assert(a[l].1 < a[k].0);
    }
    if l > k {
        assert(is_word(s, b[k].0 as int, b[k].1 as int));
        assert(b[k].1 < b[l].0);
        let m = lemma_word_in_other(s, b, a, k);
        if m < k {
            assert(a[m] == b[m]);
            assert(b[m].1 < b[k].0);
        }
        if m > k {
            assert(a[k].1 < a[m].0);
        }
    }
}

/// A text has only one list of words.
pub proof fn words_are_unique(s: Seq<char>, a: Seq<(usize, usize)>, b: Seq<(usize, usize)>)
    requires
        are_words(s, a),
        are_words(s, b),
    ensures
        a == b,
{
    assert forall|k: int| 0 <= k < a.len() implies k < b.len() && #[trigger] a[k] == b[k] by {
        lemma_words_agree(s, a, b, k);
    }
    if a.len() < b.len() {
        lemma_words_agree(s, b, a, a.len() as int);
    }
    if a.len() > 0 {
        lemma_words_agree(s, a, b, a.len() - 1);
    }
    assert(a =~= b);
}

/// The words of a text, as ranges of character positions.
pub fn words_of(s: &Vec<char>) -> (r: Vec<(usize, usize)>)
    ensures
        are_words(s@, r@),
{
    let mut out: Vec<(usize, usize)> = Vec::new();
    let n: usize = s.len();
    let mut i: usize = 0;
    while i < n
        invariant
            i <= n,
            n == s@.len(),
            i == 0 || i == n || white(s@[i - 1]) || white(s@[i as int]),
            forall|k: int|
                0 <= k < out@.len() ==> is_word(
                    s@,
                    (#[trigger] out@[k]).0 as int,
                    out@[k].1 as int,
                ) && out@[k].1 <= i,
            forall|k: int, l: int|
                0 <= k < l < out@.len() ==> (#[trigger] out@[k]).1 < (#[trigger] out@[l]).0,
            forall|j: int|
                0 <= j < i && !white(#[trigger] s@[j]) ==> exists|k: int|
                    0 <= k < out@.len() && (#[trigger] out@[k]).0 <= j < out@[k].1,
        decreases n - i,
    {
        if is_white(s[i]) {
            i += 1;
        } else {
            let start: usize = i;
            while i < n && !is_white(s[i])
                invariant
                    start <= i <= n,
                    n == s@.len(),
                    forall|j: int| start <= j < i ==> !white(#[trigger] s@[j]),
                decreases n - i,
            {
                i += 1;
            }
            let ghost before = out@;
            out.push((start, i));
            proof {
                assert(start == 0 || white(s@[start - 1]));
                assert(i == n || white(s@[i as int]));
                assert(is_word(s@, start as int, i as int));
                assert forall|k: int, l: int| 0 <= k < l < out@.len() implies (#[trigger] out@[k]).1
                    < (#[trigger] out@[l]).0 by {
                    if l == before.len() {
                        assert(is_word(s@, before[k].0 as int, before[k].1 as int));
                        assert(before[k].1 <= start);
                        if before[k].1 == start {
                            assert(white(s@[start as int]));
                        }
                    }
                }
                assert forall|j: int| 0 <= j < i && !white(#[trigger] s@[j]) implies exists|k: int|
                    0 <= k < out@.len() && (#[trigger] out@[k]).0 <= j < out@[k].1 by {
                    if j < start {
                        let k = choose|k: int|
                            0 <= k < before.len() && (#[trigger] before[k]).0 <= j < before[k].1;
                        assert(out@[k] == before[k]);
                    } else {
                        assert(out@[before.len() as int] == (start, i));
                    }
                }
            }
        }
    }
    out
}

/// How many bytes a character takes in UTF-8.
pub open spec fn utf8_width(c: char) -> nat {
    let v = c as u32;
    if v < 0x80 {
        1
    } else if v < 0x800 {
        2
    } else if v < 0x10000 {
        3
    } else {
        4
    }
}

/// How many bytes a text takes in UTF-8.
pub open spec fn utf8_len(s: Seq<char>) -> nat
    decreases s.len(),
{
    if s.len() == 0 {
        0
    } else {
        utf8_len(s.drop_last()) + utf8_width(s.last())
    }
}

/// A text without the white space at its two ends.
pub open spec fn trimmed(s: Seq<char>) -> Seq<char> {
    trim_end(trim_start(s))
}

/// A text without the white space at its start.
pub open spec fn trim_start(s: Seq<char>) -> Seq<char>
    decreases s.len(),
{
    if s.len() == 0 || !white(s[0]) {
        s
    } else {
        trim_start(s.skip(1))
    }
}

/// A text without the white space at its end.
pub open spec fn trim_end(s: Seq<char>) -> Seq<char>
    decreases s.len(),
{
    if s.len() == 0 || !white(s.last()) {
        s
    } else {
        trim_end(s.drop_last())
    }
}

/// The bounds of a text without the white space at its two ends.
fn trim_bounds(s: &Vec<char>) -> (r: (usize, usize))
    ensures
        r.0 <= r.1 <= s@.len(),
        s@.subrange(r.0 as int, r.1 as int) == trimmed(s@),
{
    let n: usize = s.len();
    let mut a: usize = 0;
    assert(s@.skip(0) =~= s@);
    while a < n && is_white(s[a])
        invariant
            a <= n,
            n == s@.len(),
            trim_start(s@) == trim_start(s@.skip(a as int)),
        decreases n - a,
    {
        assert(s@.skip(a as int).skip(1) =~= s@.skip(a + 1));
        a += 1;
    }
    assert(trim_start(s@) == s@.skip(a as int));
    let mut b: usize = n;
    assert(s@.subrange(a as int, n as int) =~= s@.skip(a as int));
    while b > a && is_white(s[b - 1])
        invariant
            a <= b <= n,
            n == s@.len(),
            trimmed(s@) == trim_end(s@.subrange(a as int, b as int)),
        decreases b,
    {
        assert(s@.subrange(a as int, b as int).drop_last() =~= s@.subrange(a as int, b - 1));
        b -= 1;
    }
    (a, b)
}

/// Whether a text is nothing but white space.
pub fn is_blank(s: &str) -> (r: bool)
    ensures
        r == (trimmed(s@).len() == 0),
{
    let chars = chars_of(s);
    let (a, b) = trim_bounds(&chars);
    a == b
}

/// The smaller of `limit` and the bytes that a text takes without the white
/// space at its two ends.
pub fn trimmed_len_up_to(s: &str, limit: usize) -> (r: usize)
    requires
        limit < usize::MAX - 4,
    ensures
        r == (if utf8_len(trimmed(s@)) < limit {
            utf8_len(trimmed(s@))
        } else {
            limit as nat
        }),
{
    let chars = chars_of(s);
    let (a, b) = trim_bounds(&chars);
    let mut total: usize = 0;
    let mut i: usize = a;
    while i < b
        invariant
            a <= i <= b <= chars@.len(),
            limit < usize::MAX - 4,
            total == (if utf8_len(chars@.subrange(a as int, i as int)) < limit {
                utf8_len(chars@.subrange(a as int, i as int))
            } else {
                limit as nat
            }),
        decreases b - i,
    {
        let v: u32 = chars[i] as u32;
        let width: usize = if v < 0x80 {
            1
        } else if v < 0x800 {
            2
        } else if v < 0x10000 {
            3
        } else {
            4
        };
        assert(chars@.subrange(a as int, i + 1).drop_last() =~= chars@.subrange(
            a as int,
            i as int,
        ));
        total = if total + width < limit {
            total + width
        } else {
            limit
        };
        i += 1;
    }
    total
}

// ── Joining and replacing ──────────────────────────────────────────────

/// The parts one after the other, with `sep` between each two.
pub open spec fn joined(parts: Seq<Seq<char>>, sep: Seq<char>) -> Seq<char>
    decreases parts.len(),
{
    if parts.len() == 0 {
        seq![]
    } else if parts.len() == 1 {
        parts[0]
    } else {
        joined(parts.drop_last(), sep) + sep + parts.last()
    }
}

/// The contents of some strings.
pub open spec fn texts(v: Seq<String>) -> Seq<Seq<char>> {
    v.map_values(|s: String| s@)
}

/// The parts one after the other, with `sep` between each two.
pub fn join(parts: &Vec<String>, sep: &str) -> (r: String)
    ensures
        r@ == joined(texts(parts@), sep@),
{
    let mut out = String::new();
    let mut i: usize = 0;
    while i < parts.len()
        invariant
            i <= parts.len(),
            out@ == joined(texts(parts@.take(i as int)), sep@),
        decreases parts.len() - i,
    {
        let ghost before = texts(parts@.take(i as int));
        let ghost after = texts(parts@.take(i + 1));
        assert(after.drop_last() =~= before);
        assert(after.last() == parts@[i as int]@);
        if i > 0 {
            push_text(&mut out, sep);
        }
        push_text(&mut out, parts[i].as_str());
        proof {
            if i == 0 {
                assert(out@ =~= after[0]);
            } else {
                assert(out@ =~= joined(before, sep@) + sep@ + after.last());
            }
        }
        i += 1;
    }
    assert(parts@.take(parts.len() as int) =~= parts@);
    out
}

/// `s` with every `from` in it replaced by `to`, from left to right.
pub open spec fn replaced(s: Seq<char>, from: Seq<char>, to: Seq<char>) -> Seq<char>
    decreases s.len(),
{
    if from.len() == 0 || s.len() < from.len() {
        s
    } else if s.take(from.len() as int) == from {
        to + replaced(s.skip(from.len() as int), from, to)
    } else {
        seq![s[0]] + replaced(s.skip(1), from, to)
    }
}

/// Whether `from` stands in `s` at `i`.
fn stands_at(s: &Vec<char>, i: usize, from: &Vec<char>) -> (r: bool)
    requires
        i + from@.len() <= s@.len(),
    ensures
        r == (s@.subrange(i as int, i + from@.len()) == from@),
{
    let n: usize = s.len();
    let mut k: usize = 0;
    while k < from.len()
        invariant
            k <= from@.len(),
            n == s@.len(),
            i + from@.len() <= s@.len(),
            forall|j: int| 0 <= j < k ==> s@[i + j] == from@[j],
        decreases from@.len() - k,
    {
        if s[i + k] != from[k] {
            assert(s@.subrange(i as int, i + from@.len())[k as int] != from@[k as int]);
            return false;
        }
        k += 1;
    }
    assert(s@.subrange(i as int, i + from@.len()) =~= from@);
    true
}

/// `s` with every `from` in it replaced by `to`, from left to right.
pub fn replace_all(s: &str, from: &str, to: &str) -> (r: String)
    ensures
        r@ == replaced(s@, from@, to@),
{
    let chars = chars_of(s);
    let pattern = chars_of(from);
    let n: usize = chars.len();
    let m: usize = pattern.len();
    let mut out = String::new();
    let mut i: usize = 0;
    assert(chars@.skip(0) =~= chars@);
    assert(out@ + replaced(chars@, from@, to@) =~= replaced(chars@, from@, to@));
    while m > 0 && i < n && n - i >= m
        invariant
            i <= n,
            n == chars@.len(),
            m == pattern@.len(),
            pattern@ == from@,
            chars@ == s@,
            out@ + replaced(chars@.skip(i as int), from@, to@) == replaced(s@, from@, to@),
        decreases n - i,
    {
        let ghost rest = chars@.skip(i as int);
        assert(rest.take(m as int) =~= chars@.subrange(i as int, i + m));
        if stands_at(&chars, i, &pattern) {
            let ghost before = out@;
            push_text(&mut out, to);
            assert(rest.skip(m as int) =~= chars@.skip(i + m));
            assert(before + (to@ + replaced(rest.skip(m as int), from@, to@)) =~= out@ + replaced(
                chars@.skip(i + m),
                from@,
                to@,
            ));
            i += m;
        } else {
            let ghost before = out@;
            out.push(chars[i]);
            assert(rest.skip(1) =~= chars@.skip(i + 1));
            assert(before + (seq![rest[0]] + replaced(rest.skip(1), from@, to@)) =~= out@
                + replaced(chars@.skip(i + 1), from@, to@));
            i += 1;
        }
    }
    let ghost tail = chars@.skip(i as int);
    let ghost before = out@;
    while i < n
        invariant
            i <= n,
            n == chars@.len(),
            out@ + chars@.skip(i as int) == before + tail,
        decreases n - i,
    {
        let ghost mid = out@;
        out.push(chars[i]);
        assert(mid + chars@.skip(i as int) =~= out@ + chars@.skip(i + 1));
        i += 1;
    }
    assert(out@ + chars@.skip(n as int) =~= out@);
    out
}

// ── Numbers ────────────────────────────────────────────────────────────

/// The character of a digit, in lower case past nine.
pub open spec fn digit(d: int) -> char {
    if d == 0 {
        '0'
    } else if d == 1 {
        '1'
    } else if d == 2 {
        '2'
    } else if d == 3 {
        '3'
    } else if d == 4 {
        '4'
    } else if d == 5 {
        '5'
    } else if d == 6 {
        '6'
    } else if d == 7 {
        '7'
    } else if d == 8 {
        '8'
    } else if d == 9 {
        '9'
    } else if d == 10 {
        'a'
    } else if d == 11 {
        'b'
    } else if d == 12 {
        'c'
    } else if d == 13 {
        'd'
    } else if d == 14 {
        'e'
    } else {
        'f'
    }
}

fn digit_char(d: u8) -> (r: char)
    requires
        d < 16,
    ensures
        r == digit(d as int),
{
    match d {
        0 => '0',
        1 => '1',
        2 => '2',
        3 => '3',
        4 => '4',
        5 => '5',
        6 => '6',
        7 => '7',
        8 => '8',
        9 => '9',
        10 => 'a',
        11 => 'b',
        12 => 'c',
        13 => 'd',
        14 => 'e',
        _ => 'f',
    }
}

/// A number in decimal digits.
pub open spec fn decimal(n: nat) -> Seq<char>
    decreases n,
{
    if n < 10 {
        seq![digit(n as int)]
    } else {
        decimal(n / 10).push(digit((n % 10) as int))
    }
}

/// Appends a number in decimal digits.
pub fn push_decimal(out: &mut String, n: u64)
    ensures
        final(out)@ == old(out)@ + decimal(n as nat),
    decreases n,
{
    let ghost start = out@;
    if n >= 10 {
        push_decimal(out, n / 10);
    }
    out.push(digit_char((n % 10) as u8));
    assert(out@ =~= start + decimal(n as nat));
}

/// A byte as two hexadecimal digits.
pub open spec fn hex(b: u8) -> Seq<char> {
    seq![digit(b as int / 16), digit(b as int % 16)]
}

/// Appends a byte as two hexadecimal digits.
pub fn push_hex(out: &mut String, b: u8)
    ensures
        final(out)@ == old(out)@ + hex(b),
{
    let ghost start = out@;
    out.push(digit_char(b / 16));
    out.push(digit_char(b % 16));
    assert(out@ =~= start + hex(b));
}

// ── Encodings ──────────────────────────────────────────────────────────

/// The text that `String::from_utf8_lossy` makes of some bytes.
pub uninterp spec fn lossy_utf8(bytes: Seq<u8>) -> Seq<char>;

/// `String::from_utf8_lossy` reads bytes as UTF-8 and puts replacement
/// characters where they are not. What it makes of bytes depends on nothing but
/// the bytes, and is the text that they encode where they are UTF-8 throughout.
#[verifier::external_body]
pub(crate) fn decode_lossy(bytes: &Vec<u8>) -> (r: String)
    ensures
        r@ == lossy_utf8(bytes@),
        vstd::utf8::valid_utf8(bytes@) ==> r@ == vstd::utf8::decode_utf8(bytes@),
{
    String::from_utf8_lossy(bytes).into_owned()
}

/// Whether a unit of UTF-16 is the first of a pair.
pub open spec fn leads(u: u16) -> bool {
    0xd800 <= u <= 0xdbff
}

/// Whether a unit of UTF-16 is the second of a pair.
pub open spec fn trails(u: u16) -> bool {
    0xdc00 <= u <= 0xdfff
}

/// The text that units of UTF-16 encode, with a replacement character for each
/// unit that should stand in a pair and does not.
pub open spec fn utf16_text(units: Seq<u16>) -> Seq<char>
    decreases units.len(),
{
    if units.len() == 0 {
        seq![]
    } else if leads(units[0]) && units.len() > 1 && trails(units[1]) {
        seq![
            (0x10000 + 0x400 * (units[0] - 0xd800) + (units[1] - 0xdc00)) as char,
        ] + utf16_text(units.skip(2))
    } else if leads(units[0]) || trails(units[0]) {
        seq!['\u{fffd}'] + utf16_text(units.skip(1))
    } else {
        seq![units[0] as char] + utf16_text(units.skip(1))
    }
}

/// The text that the first `n` of some units of UTF-16 encode.
pub fn decode_utf16(units: &Vec<u16>, n: usize) -> (r: String)
    requires
        n <= units@.len(),
    ensures
        r@ == utf16_text(units@.take(n as int)),
{
    let ghost all = units@.take(n as int);
    let mut out = String::new();
    let mut i: usize = 0;
    assert(all.skip(0) =~= all);
    assert(out@ + utf16_text(all) =~= utf16_text(all));
    while i < n
        invariant
            i <= n <= units@.len(),
            all == units@.take(n as int),
            out@ + utf16_text(all.skip(i as int)) == utf16_text(all),
        decreases n - i,
    {
        let ghost rest = all.skip(i as int);
        let ghost before = out@;
        let u: u16 = units[i];
        assert(rest[0] == u);
        let lead = 0xd800 <= u && u <= 0xdbff;
        let trail = 0xdc00 <= u && u <= 0xdfff;
        let mut pair: Option<u16> = None;
        if lead && n - i > 1 {
            let v: u16 = units[i + 1];
            assert(rest[1] == v);
            if 0xdc00 <= v && v <= 0xdfff {
                pair = Some(v);
            }
        }
        let (code, width): (u32, usize) = match pair {
            Some(v) => (0x10000 + 0x400 * (u as u32 - 0xd800) + (v as u32 - 0xdc00), 2),
            None => if lead || trail {
                (0xfffd, 1)
            } else {
                (u as u32, 1)
            },
        };
        match char::from_u32(code) {
            Some(c) => {
                out.push(c);
                assert(rest.skip(width as int) =~= all.skip(i + width));
                assert(utf16_text(rest) == seq![c] + utf16_text(rest.skip(width as int)));
                assert(before + (seq![c] + utf16_text(rest.skip(width as int))) =~= out@
                    + utf16_text(all.skip(i + width)));
            },
            None => {
                assert(false);
            },
        }
        i += width;
    }
    assert(all.skip(n as int) =~= Seq::<u16>::empty());
    assert(out@ + Seq::<char>::empty() =~= out@);
    out
}

}

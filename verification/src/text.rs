//! Text as sequences of characters: searching, trimming, numbers in text.

use vstd::prelude::*;

verus! {

/// `String::push` appends one character.
pub assume_specification[ String::push ](s: &mut String, c: char)
    ensures
        final(s)@ == old(s)@.push(c),
;

/// The characters of a text.
pub fn chars_of(s: &str) -> (out: Vec<char>)
    ensures
        out@ == s@,
{
    let mut out: Vec<char> = Vec::new();
    for c in it: s.chars()
        invariant
            it.seq() == s@,
            out@ == s@.subrange(0, it.index() as int),
    {
        out.push(c);
        assert(out@ =~= s@.subrange(0, it.index() as int + 1));
    }
    assert(s@.subrange(0, s@.len() as int) =~= s@);
    out
}

/// The text with the characters from `from` up to `to`.
pub fn string_of(chars: &Vec<char>, from: usize, to: usize) -> (s: String)
    requires
        from <= to <= chars@.len(),
    ensures
        s@ == chars@.subrange(from as int, to as int),
{
    let mut s = String::new();
    let mut i: usize = from;
    while i < to
        invariant
            from <= i <= to <= chars@.len(),
            s@ == chars@.subrange(from as int, i as int),
        decreases to - i,
    {
        s.push(chars[i]);
        i = i + 1;
        assert(s@ =~= chars@.subrange(from as int, i as int));
    }
    s
}

/// Appends a text.
pub fn append(s: &mut String, more: &str)
    ensures
        final(s)@ == old(s)@ + more@,
{
    let ghost before = s@;
    for c in it: more.chars()
        invariant
            it.seq() == more@,
            s@ == before + more@.subrange(0, it.index() as int),
    {
        s.push(c);
        assert(s@ =~= before + more@.subrange(0, it.index() as int + 1));
    }
    assert(more@.subrange(0, more@.len() as int) =~= more@);
}

/// A text that may be missing, as a value.
pub open spec fn optional(s: Option<&str>) -> Option<Seq<char>> {
    match s {
        Some(v) => Some(v@),
        None => None,
    }
}

/// Whether `needle` stands in `hay` at position `at`.
pub open spec fn stands_at(hay: Seq<char>, needle: Seq<char>, at: int) -> bool {
    0 <= at && at + needle.len() <= hay.len() && hay.subrange(at, at + needle.len()) == needle
}

/// Whether `needle` stands anywhere in `hay`.
pub open spec fn occurs(hay: Seq<char>, needle: Seq<char>) -> bool {
    exists|at: int| stands_at(hay, needle, at)
}

fn same_at(hay: &Vec<char>, needle: &Vec<char>, at: usize) -> (r: bool)
    requires
        at + needle@.len() <= hay@.len(),
    ensures
        r == stands_at(hay@, needle@, at as int),
{
    let ghost window = hay@.subrange(at as int, at + needle@.len());
    let len: usize = hay.len();
    let mut i: usize = 0;
    while i < needle.len()
        invariant
            i <= needle@.len(),
            len == hay@.len(),
            at + needle@.len() <= len,
            window == hay@.subrange(at as int, at + needle@.len()),
            forall|j: int| 0 <= j < i ==> window[j] == needle@[j],
        decreases needle@.len() - i,
    {
        if hay[at + i] != needle[i] {
            assert(window[i as int] != needle@[i as int]);
            return false;
        }
        i = i + 1;
    }
    assert(window =~= needle@);
    true
}

/// Whether `needle` stands anywhere in `hay`.
pub fn contains(hay: &str, needle: &str) -> (r: bool)
    ensures
        r == occurs(hay@, needle@),
{
    let h = chars_of(hay);
    let n = chars_of(needle);
    if n.len() > h.len() {
        return false;
    }
    let last: usize = h.len() - n.len();
    let mut at: usize = 0;
    loop
        invariant
            h@ == hay@,
            n@ == needle@,
            at <= last,
            last == h@.len() - n@.len(),
            forall|k: int| 0 <= k < at ==> !stands_at(hay@, needle@, k),
        decreases last - at,
    {
        if same_at(&h, &n, at) {
            assert(stands_at(hay@, needle@, at as int));
            return true;
        }
        if at == last {
            return false;
        }
        at = at + 1;
    }
}

/// The digit characters, in order of value.
pub open spec fn digit(v: int) -> char {
    if v < 10 {
        (('0' as u32) + v) as char
    } else {
        (('a' as u32) + v - 10) as char
    }
}

fn digit_char(v: u32) -> (c: char)
    requires
        v < 16,
    ensures
        c == digit(v as int),
{
    match v {
        0 => '0',
        1 => '1',
        2 => '2',
        3 => '3',
        4 => '4',
        5 => '5',
        6 => '6',
        7 => '7',
        8 => '8',
        9 => '9',
        10 => 'a',
        11 => 'b',
        12 => 'c',
        13 => 'd',
        14 => 'e',
        _ => 'f',
    }
}

/// Four lower-case hexadecimal digits.
pub open spec fn hex4(x: u16) -> Seq<char> {
    seq![
        digit((x / 0x1000) as int),
        digit((x / 0x100 % 16) as int),
        digit((x / 0x10 % 16) as int),
        digit((x % 16) as int),
    ]
}

/// Appends four lower-case hexadecimal digits.
pub fn push_hex4(s: &mut String, x: u16)
    ensures
        final(s)@ == old(s)@ + hex4(x),
{
    s.push(digit_char((x / 0x1000) as u32));
    s.push(digit_char((x / 0x100 % 16) as u32));
    s.push(digit_char((x / 0x10 % 16) as u32));
    s.push(digit_char((x % 16) as u32));
    assert(s@ =~= old(s)@ + hex4(x));
}

/// A number in decimal, without leading zeros.
pub open spec fn decimal(n: nat) -> Seq<char>
    decreases n,
{
    if n < 10 {
        seq![digit(n as int)]
    } else {
        decimal(n / 10).push(digit((n % 10) as int))
    }
}

/// Appends a number in decimal.
pub fn push_decimal(s: &mut String, n: u64)
    ensures
        final(s)@ == old(s)@ + decimal(n as nat),
    decreases n,
{
    if n < 10 {
        s.push(digit_char(n as u32));
        assert(s@ =~= old(s)@ + decimal(n as nat));
    } else {
        push_decimal(s, n / 10);
        s.push(digit_char((n % 10) as u32));
        assert(s@ =~= old(s)@ + decimal(n as nat));
    }
}

/// Whether a character has Unicode's White_Space property.
pub open spec fn white_space(c: char) -> bool {
    let v = c as u32;
    ||| 0x09 <= v <= 0x0d
    ||| v == 0x20
    ||| v == 0x85
    ||| v == 0xa0
    ||| v == 0x1680
    ||| 0x2000 <= v <= 0x200a
    ||| v == 0x2028
    ||| v == 0x2029
    ||| v == 0x202f
    ||| v == 0x205f
    ||| v == 0x3000
}

/// Whether a character has Unicode's White_Space property.
pub fn is_white_space(c: char) -> (r: bool)
    ensures
        r == white_space(c),
{
    let v: u32 = c as u32;
    (0x09 <= v && v <= 0x0d) || v == 0x20 || v == 0x85 || v == 0xa0 || v == 0x1680 || (0x2000 <= v
        && v <= 0x200a) || v == 0x2028 || v == 0x2029 || v == 0x202f || v == 0x205f || v == 0x3000
}

/// Whether a character is a control character.
pub open spec fn control(c: char) -> bool {
    (c as u32) < 0x20 || 0x7f <= c as u32 <= 0x9f
}

/// Whether a character is a control character.
pub fn is_control(c: char) -> (r: bool)
    ensures
        r == control(c),
{
    let v: u32 = c as u32;
    v < 0x20 || (0x7f <= v && v <= 0x9f)
}

/// Whether every character is a decimal digit, and there is one.
pub open spec fn all_digits(s: Seq<char>) -> bool {
    s.len() > 0 && forall|i: int| 0 <= i < s.len() ==> '0' <= #[trigger] s[i] <= '9'
}

/// The number that digits stand for.
pub open spec fn digits_value(s: Seq<char>) -> nat
    decreases s.len(),
{
    if s.len() == 0 {
        0
    } else {
        digits_value(s.drop_last()) * 10 + ((s.last() as u32) - ('0' as u32)) as nat
    }
}

/// The digits of a number in text: a plus sign in front is allowed.
pub open spec fn unsigned(s: Seq<char>) -> Seq<char> {
    if s.len() > 0 && s[0] == '+' {
        s.subrange(1, s.len() as int)
    } else {
        s
    }
}

/// The number that a text stands for, if it is one that does not exceed `max`:
/// decimal digits, with an optional plus sign.
pub open spec fn number(s: Seq<char>, max: nat) -> Option<nat> {
    if all_digits(unsigned(s)) && digits_value(unsigned(s)) <= max {
        Some(digits_value(unsigned(s)))
    } else {
        None
    }
}

/// A number that is written out reads back as itself, so no two numbers are
/// written alike.
pub proof fn law_numbers_read_back(n: nat, max: nat)
    requires
        n <= max,
    ensures
        number(decimal(n), max) == Some(n),
{
    lemma_decimal(n);
    assert(unsigned(decimal(n)) == decimal(n));
}

proof fn lemma_decimal(n: nat)
    ensures
        all_digits(decimal(n)),
        digits_value(decimal(n)) == n,
    decreases n,
{
    if n < 10 {
        let s = decimal(n);
        assert(s.drop_last() =~= Seq::<char>::empty());
        assert(s.last() == digit(n as int));
        assert(digits_value(s.drop_last()) == 0);
    } else {
        lemma_decimal(n / 10);
        let s = decimal(n);
        assert(s.drop_last() =~= decimal(n / 10));
        assert(s.last() == digit((n % 10) as int));
        assert forall|i: int| 0 <= i < s.len() implies '0' <= #[trigger] s[i] <= '9' by {
            if i < s.len() - 1 {
                assert(s[i] == decimal(n / 10)[i]);
            }
        }
    }
}

/// More digits never make a smaller number.
proof fn lemma_digits_value_grows(s: Seq<char>, n: int)
    requires
        0 <= n <= s.len(),
    ensures
        digits_value(s.subrange(0, n)) <= digits_value(s),
    decreases s.len() - n,
{
    if n == s.len() {
        assert(s.subrange(0, n) =~= s);
    } else {
        let next = s.subrange(0, n + 1);
        assert(next.drop_last() =~= s.subrange(0, n));
        lemma_digits_value_grows(s, n + 1);
    }
}

/// Reads a number of at most `max` out of a text.
pub fn parse_number(s: &str, max: u64) -> (r: Option<u64>)
    ensures
        match r {
            Some(v) => number(s@, max as nat) == Some(v as nat),
            None => number(s@, max as nat) is None,
        },
{
    let chars = chars_of(s);
    let start: usize = if chars.len() > 0 && chars[0] == '+' {
        1
    } else {
        0
    };
    let ghost digits = unsigned(s@);
    assert(digits =~= chars@.subrange(start as int, chars@.len() as int));
    if start == chars.len() {
        return None;
    }
    let mut value: u64 = 0;
    let mut i: usize = start;
    assert(digits.subrange(0, 0) =~= Seq::<char>::empty());
    while i < chars.len()
        invariant
            start <= i <= chars@.len(),
            chars@ == s@,
            start <= 1,
            digits == unsigned(s@),
            digits == chars@.subrange(start as int, chars@.len() as int),
            value == digits_value(digits.subrange(0, i - start)),
            value <= max,
            forall|j: int| 0 <= j < i - start ==> '0' <= #[trigger] digits[j] <= '9',
        decreases chars@.len() - i,
    {
        let c: char = chars[i];
        assert(digits[i - start] == c);
        if c < '0' || c > '9' {
            return None;
        }
        let d: u64 = (c as u32 - '0' as u32) as u64;
        proof {
            let next = digits.subrange(0, i - start + 1);
            assert(next.drop_last() =~= digits.subrange(0, i - start));
            assert(next.last() == c);
            lemma_digits_value_grows(digits, i - start + 1);
        }
        let wide: u128 = value as u128 * 10 + d as u128;
        if wide > max as u128 {
            return None;
        }
        value = wide as u64;
        i = i + 1;
    }
    assert(digits.subrange(0, i - start) =~= digits);
    Some(value)
}

/// The port that a variable names, or `default` where it names none.
pub open spec fn port_or(value: Option<Seq<char>>, default: u16) -> u16 {
    match value {
        Some(v) => match number(v, u16::MAX as nat) {
            Some(p) => p as u16,
            None => default,
        },
        None => default,
    }
}

/// The port that a variable names, or `default`.
pub fn parse_port(value: Option<&str>, default: u16) -> (r: u16)
    ensures
        r == port_or(
            match value {
                Some(v) => Some(v@),
                None => None,
            },
            default,
        ),
{
    match value {
        Some(v) => match parse_number(v, 0xffff) {
            Some(p) => p as u16,
            None => default,
        },
        None => default,
    }
}

/// The text that `String::from_utf8_lossy` makes of bytes.
pub uninterp spec fn lossy_text(bytes: Seq<u8>) -> Seq<char>;

/// `String::from_utf8_lossy`: bytes that are well-formed UTF-8 are decoded; what is
/// malformed elsewhere is replaced, in a way that depends on the bytes alone.
#[verifier::external_body]
pub(crate) fn from_utf8_lossy(bytes: &[u8]) -> (r: String)
    ensures
        r@ == lossy_text(bytes@),
        vstd::utf8::valid_utf8(bytes@) ==> r@ == vstd::utf8::decode_utf8(bytes@),
{
    String::from_utf8_lossy(bytes).into_owned()
}

/// `String::from_utf8`: there is a text exactly when the bytes are well-formed
/// UTF-8, and it is what they decode to.
#[verifier::external_body]
pub(crate) fn from_utf8(bytes: Vec<u8>) -> (r: Option<String>)
    ensures
        r is Some <==> vstd::utf8::valid_utf8(bytes@),
        r matches Some(s) ==> s@ == vstd::utf8::decode_utf8(bytes@),
{
    String::from_utf8(bytes).ok()
}

/// The digits are the usual ones: those of base ten, then the letters from `a` on.
pub proof fn law_digits(v: int)
    requires
        0 <= v < 16,
    ensures
        digit(v) == "0123456789abcdef"@[v],
{
    reveal_strlit("0123456789abcdef");
}

/// Four hexadecimal digits give a number back by place value, the highest first.
pub proof fn law_hex_places(x: u16, d3: int, d2: int, d1: int, d0: int)
    requires
        0 <= d3 < 16,
        0 <= d2 < 16,
        0 <= d1 < 16,
        0 <= d0 < 16,
        x == 0x1000 * d3 + 0x100 * d2 + 0x10 * d1 + d0,
    ensures
        hex4(x) == seq![digit(d3), digit(d2), digit(d1), digit(d0)],
{
    assert(x / 0x1000 == d3);
    assert(x / 0x100 == 16 * d3 + d2);
    assert(x / 0x10 == 0x100 * d3 + 0x10 * d2 + d1);
    assert(x / 0x100 % 16 == d2);
    assert(x / 0x10 % 16 == d1);
    assert(x % 16 == d0);
    assert(hex4(x) =~= seq![digit(d3), digit(d2), digit(d1), digit(d0)]);
}

/// A number in text is read by place value: one more digit behind it makes ten times
/// as much and that digit, however long the number is. Signs other than a leading plus,
/// and everything that is no digit, make it no number.
pub proof fn law_place_value(s: Seq<char>, d: int, max: nat)
    requires
        all_digits(s),
        0 <= d < 10,
    ensures
        all_digits(s.push(digit(d))),
        digits_value(s.push(digit(d))) == 10 * digits_value(s) + d,
        digits_value(seq![digit(d)]) == d,
        number(s, max) == (if digits_value(s) <= max {
            Some(digits_value(s))
        } else {
            None
        }),
        number(seq!['+'] + s, max) == number(s, max),
{
    let t = s.push(digit(d));
    assert(t.drop_last() =~= s);
    assert(t.last() == digit(d));
    let one = seq![digit(d)];
    assert(one.drop_last() =~= Seq::<char>::empty());
    assert(digits_value(one.drop_last()) == 0);
    assert(one.last() == digit(d));
    let plus = seq!['+'] + s;
    assert(plus.subrange(1, plus.len() as int) =~= s);
    assert(s[0] != '+');
    assert forall|i: int| 0 <= i < t.len() implies '0' <= #[trigger] t[i] <= '9' by {
        if i < s.len() {
            assert(t[i] == s[i]);
        }
    }
}

/// A text with anything in it but digits behind an optional plus is no number.
pub proof fn law_not_a_number(s: Seq<char>, i: int, max: nat)
    requires
        0 <= i < s.len(),
        !('0' <= s[i] <= '9'),
        i > 0 || s[i] != '+' || s.len() == 1,
    ensures
        number(s, max) is None,
{
    if s[0] == '+' {
        if i > 0 {
            assert(unsigned(s)[i - 1] == s[i]);
        }
    } else {
        assert(unsigned(s)[i] == s[i]);
    }
}

/// A variable that holds a port in decimal names that port; one that holds a larger
/// number, or anything but digits, counts as one that is not set.
pub proof fn law_which_port_is_named(n: nat, s: Seq<char>, i: int, default: u16)
    ensures
        port_or(None, default) == default,
        n <= 65535 ==> port_or(Some(decimal(n)), default) == n,
        n > 65535 ==> port_or(Some(decimal(n)), default) == default,
        port_or(Some(Seq::empty()), default) == default,
        0 <= i < s.len() && !('0' <= s[i] <= '9') && (i > 0 || s[i] != '+' || s.len() == 1)
            ==> port_or(Some(s), default) == default,
{
    if n <= 65535 {
        law_numbers_read_back(n, 65535);
    } else {
        lemma_decimal(n);
        assert(unsigned(decimal(n)) == decimal(n));
    }
    if 0 <= i < s.len() && !('0' <= s[i] <= '9') && (i > 0 || s[i] != '+' || s.len() == 1) {
        law_not_a_number(s, i, 65535);
    }
}

/// White space is the blank, the six line and page controls from tab to return and
/// next line, and the spaces and separators beyond ASCII.
pub proof fn law_what_white_space_is(c: char)
    ensures
        white_space(c) <==> {
            ||| c == ' ' || c == '\t' || c == '\n' || c == '\u{b}' || c == '\u{c}' || c == '\r'
            ||| c == '\u{85}' || c == '\u{a0}' || c == '\u{1680}' || c == '\u{3000}'
            ||| '\u{2000}' <= c <= '\u{200a}' || c == '\u{2028}' || c == '\u{2029}'
            ||| c == '\u{202f}' || c == '\u{205f}'
        },
        control(c) <==> c < ' ' || '\u{7f}' <= c < '\u{a0}',
{
}

/// A text that holds another in its middle holds it, one that is shorter than it does
/// not, and what is held by a part is held by the whole.
pub proof fn law_where_texts_occur(before: Seq<char>, needle: Seq<char>, after: Seq<char>)
    ensures
        occurs(before + needle + after, needle),
        before.len() < needle.len() ==> !occurs(before, needle),
        occurs(before, needle) ==> exists|k: int|
            0 <= k <= before.len() - needle.len() && #[trigger] before.subrange(
                k,
                k + needle.len(),
            ) == needle,
{
    let hay = before + needle + after;
    assert(hay.subrange(before.len() as int, (before.len() + needle.len()) as int) =~= needle);
    assert(stands_at(hay, needle, before.len() as int));
}

} // verus!

//! Text as UTF-16 code units, the encoding of `CF_UNICODETEXT`.

use vstd::prelude::*;

verus! {

/// The code units of one character: one unit in the basic plane, a surrogate
/// pair above it.
pub open spec fn char_units(c: char) -> Seq<u16> {
    let v = c as u32;
    if v < 0x1_0000 {
        seq![v as u16]
    } else {
        seq![(0xd800 + (v - 0x1_0000) / 0x400) as u16, (0xdc00 + (v - 0x1_0000) % 0x400) as u16]
    }
}

/// The code units of a text.
pub open spec fn utf16(s: Seq<char>) -> Seq<u16>
    decreases s.len(),
{
    if s.len() == 0 {
        Seq::empty()
    } else {
        utf16(s.drop_last()) + char_units(s.last())
    }
}

/// The last unit of a character tells whether it is a pair, and the units
/// together tell the character.
proof fn lemma_char_units_tell_apart(x: char, y: char)
    ensures
        char_units(x).last() == char_units(y).last() ==> char_units(x).len() == char_units(
            y,
        ).len(),
        char_units(x) == char_units(y) ==> x == y,
{
    let (vx, vy) = (x as u32, y as u32);
    assert(vx < 0xd800 || 0xe000 <= vx < 0x11_0000);
    assert(vy < 0xd800 || 0xe000 <= vy < 0x11_0000);
    if char_units(x) == char_units(y) {
        assert(char_units(x)[0] == char_units(y)[0]);
        assert(char_units(x).last() == char_units(y).last());
        assert(vx == vy);
    }
}

/// Two texts with the same code units are the same text.
pub proof fn law_utf16_is_injective(a: Seq<char>, b: Seq<char>)
    requires
        utf16(a) == utf16(b),
    ensures
        a == b,
    decreases a.len(),
{
    if a.len() == 0 || b.len() == 0 {
        if a.len() > 0 {
            assert(utf16(a).len() > 0);
        }
        if b.len() > 0 {
            assert(utf16(b).len() > 0);
        }
        assert(a =~= b);
    } else {
        let (x, y) = (a.last(), b.last());
        let (ua, ub) = (utf16(a), utf16(b));
        let n = ua.len() as int;
        let (cx, cy) = (char_units(x), char_units(y));
        lemma_char_units_tell_apart(x, y);
        assert(ua[n - 1] == cx[cx.len() - 1]);
        assert(ub[n - 1] == cy[cy.len() - 1]);
        assert(cx.len() == cy.len());
        assert(ua.subrange(n - cx.len(), n) =~= cx);
        assert(ub.subrange(n - cy.len(), n) =~= cy);
        assert(x == y);
        assert(ua.subrange(0, n - cx.len()) =~= utf16(a.drop_last()));
        assert(ub.subrange(0, n - cy.len()) =~= utf16(b.drop_last()));
        law_utf16_is_injective(a.drop_last(), b.drop_last());
        assert(a =~= a.drop_last().push(x));
        assert(b =~= b.drop_last().push(y));
    }
}

/// The code units of `s`.
pub fn encode(s: &str) -> (units: Vec<u16>)
    ensures
        units@ == utf16(s@),
{
    let mut units: Vec<u16> = Vec::new();
    for c in it: s.chars()
        invariant
            it.seq() == s@,
            units@ == utf16(s@.subrange(0, it.index() as int)),
    {
        let v: u32 = c as u32;
        if v < 0x1_0000 {
            units.push(v as u16);
        } else {
            units.push((0xd800 + (v - 0x1_0000) / 0x400) as u16);
            units.push((0xdc00 + (v - 0x1_0000) % 0x400) as u16);
        }
        proof {
            let k = it.index() as int;
            let next = s@.subrange(0, k + 1);
            assert(next.drop_last() =~= s@.subrange(0, k));
            assert(next.last() == c);
            assert(units@ =~= utf16(next));
        }
    }
    assert(s@.subrange(0, s@.len() as int) =~= s@);
    units
}

/// Decodes code units with `String::from_utf16`.
///
/// Claimed: it succeeds exactly on the code units of some text, and gives that
/// text.
#[verifier::external_body]
pub(crate) fn decode(units: &[u16]) -> (r: Option<String>)
    ensures
        match r {
            Some(s) => utf16(s@) == units@,
            None => forall|s: Seq<char>| #[trigger] utf16(s) != units@,
        },
{
    String::from_utf16(units).ok()
}

/// A text is spelled character by character, in order: a character of the basic plane
/// is one unit with its own value, and one above it a pair of surrogates whose low ten
/// bits, put together, are what it exceeds the plane by.
pub proof fn law_units_spell_the_text(s: Seq<char>, c: char)
    ensures
        utf16(Seq::empty()) == Seq::<u16>::empty(),
        (c as u32) < 0x1_0000 ==> utf16(s.push(c)) == utf16(s).push((c as u32) as u16) && ((
        c as u32) as u16) as int == c as u32,
        c as u32 >= 0x1_0000 ==> ({
            let (n, all) = (utf16(s).len() as int, utf16(s.push(c)));
            &&& all.len() == n + 2
            &&& all.subrange(0, n) == utf16(s)
            &&& 0xd800 <= all[n] < 0xdc00
            &&& 0xdc00 <= all[n + 1] < 0xe000
            &&& (all[n] - 0xd800) * 0x400 + (all[n + 1] - 0xdc00) + 0x1_0000 == c as u32
        }),
{
    assert(s.push(c).drop_last() =~= s);
    let v = c as u32;
    if v < 0x1_0000 {
        assert(utf16(s.push(c)) =~= utf16(s).push(v as u16));
    } else {
        let all = utf16(s.push(c));
        let n = utf16(s).len() as int;
        assert(all.subrange(0, n) =~= utf16(s));
        assert(v < 0x11_0000);
    }
}

} // verus!

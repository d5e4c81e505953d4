//! Text as UTF-16.

use vstd::prelude::*;

verus! {

/// `char::from_u32` gives the character with a code point, where there is one: up to `0x10FFFF`,
/// without the surrogates `0xD800` to `0xDFFF`.
pub assume_specification[ char::from_u32 ](i: u32) -> (r: Option<char>)
    ensures
        r == (if i <= 0xD7FF || 0xE000 <= i <= 0x10FFFF {
            Some(i as char)
        } else {
            None
        }),
;

/// The code units of one character.
pub open spec fn units_of(c: char) -> Seq<u16> {
    let n = c as int;
    if n < 0x10000 {
        seq![n as u16]
    } else {
        seq![
            (0xD800 + (n - 0x10000) / 0x400) as u16,
            (0xDC00 + (n - 0x10000) % 0x400) as u16,
        ]
    }
}

/// The code units of a text.
pub open spec fn encoded(s: Seq<char>) -> Seq<u16>
    decreases s.len(),
{
    if s.len() == 0 {
        Seq::empty()
    } else {
        encoded(s.drop_last()) + units_of(s.last())
    }
}

/// Whether a code unit is the first half of a pair.
pub open spec fn is_high(u: u16) -> bool {
    0xD800 <= u <= 0xDBFF
}

/// Whether a code unit is the second half of a pair.
pub open spec fn is_low(u: u16) -> bool {
    0xDC00 <= u <= 0xDFFF
}

/// The text of a row of code units; a half of a pair that stands alone becomes U+FFFD.
pub open spec fn decoded(u: Seq<u16>) -> Seq<char>
    decreases u.len(),
{
    if u.len() == 0 {
        Seq::empty()
    } else if is_high(u[0]) && u.len() > 1 && is_low(u[1]) {
        seq![(0x10000 + (u[0] - 0xD800) * 0x400 + (u[1] - 0xDC00)) as char] + decoded(u.skip(2))
    } else if is_high(u[0]) || is_low(u[0]) {
        seq!['\u{FFFD}'] + decoded(u.skip(1))
    } else {
        seq![u[0] as char] + decoded(u.skip(1))
    }
}

/// The code units of a character, followed by others, decode to it, followed by theirs.
proof fn lemma_decode_char(c: char, rest: Seq<u16>)
    ensures
        decoded(units_of(c) + rest) == seq![c] + decoded(rest),
{
    let u = units_of(c) + rest;
    let n = c as int;
    if n < 0x10000 {
        assert(u.skip(1) =~= rest);
    } else {
        assert(u.skip(2) =~= rest);
        let v = n - 0x10000;
        assert((v / 0x400) * 0x400 + v % 0x400 == v);
    }
}

/// The code units of a text, followed by others, decode to it, followed by theirs.
proof fn lemma_decode_encoded(s: Seq<char>, rest: Seq<u16>)
    ensures
        decoded(encoded(s) + rest) == s + decoded(rest),
    decreases s.len(),
{
    if s.len() == 0 {
        assert(encoded(s) + rest =~= rest);
        assert(s + decoded(rest) =~= decoded(rest));
    } else {
        let tail = units_of(s.last()) + rest;
        assert(encoded(s) + rest =~= encoded(s.drop_last()) + tail);
        lemma_decode_encoded(s.drop_last(), tail);
        lemma_decode_char(s.last(), rest);
        assert(s.drop_last() + (seq![s.last()] + decoded(rest)) =~= s + decoded(rest));
    }
}

/// Every text is what its code units decode to.
pub proof fn law_text_read_written(s: Seq<char>)
    ensures
        decoded(encoded(s)) == s,
{
    lemma_decode_encoded(s, Seq::empty());
    assert(encoded(s) + Seq::<u16>::empty() =~= encoded(s));
    assert(s + decoded(Seq::<u16>::empty()) =~= s);
}

/// Writes the code units of one character behind others.
fn push_units(out: &mut Vec<u16>, c: char)
    ensures
        final(out)@ == old(out)@ + units_of(c),
{
    let n: u32 = c as u32;
    if n < 0x10000 {
        out.push(n as u16);
    } else {
        let v: u32 = n - 0x10000;
        out.push((0xD800 + v / 0x400) as u16);
        out.push((0xDC00 + v % 0x400) as u16);
    }
    assert(out@ =~= old(out)@ + units_of(c));
}

/// The code units of a row of characters.
pub fn encode(s: &Vec<char>) -> (r: Vec<u16>)
    ensures
        r@ == encoded(s@),
{
    let mut out: Vec<u16> = Vec::new();
    for i in 0..s.len()
        invariant
            out@ == encoded(s@.take(i as int)),
    {
        push_units(&mut out, s[i]);
        assert(s@.take(i + 1).drop_last() =~= s@.take(i as int));
    }
    assert(s@.take(s@.len() as int) =~= s@);
    out
}

/// The text of a row of code units.
pub fn decode(u: &Vec<u16>) -> (r: String)
    ensures
        r@ == decoded(u@),
{
    let mut out = String::new();
    let mut i: usize = 0;
    assert(u@.skip(0) =~= u@);
    assert(out@ + decoded(u@) =~= decoded(u@));
    while i < u.len()
        invariant
            i <= u@.len(),
            out@ + decoded(u@.skip(i as int)) == decoded(u@),
        decreases u@.len() - i,
    {
        let ghost before = out@;
        let ghost rest = u@.skip(i as int);
        let a: u16 = u[i];
        assert(rest[0] == a);
        if 0xD800 <= a && a <= 0xDBFF && i + 1 < u.len() && 0xDC00 <= u[i + 1] && u[i + 1]
            <= 0xDFFF {
            let b: u16 = u[i + 1];
            assert(rest[1] == b);
            let n: u32 = 0x10000 + (a as u32 - 0xD800) * 0x400 + (b as u32 - 0xDC00);
            let c = match char::from_u32(n) {
                Some(c) => c,
                None => '\u{FFFD}',
            };
            out.push(c);
            assert(rest.skip(2) =~= u@.skip(i + 2));
            assert(out@ + decoded(u@.skip(i + 2)) =~= before + (seq![c] + decoded(u@.skip(i + 2))));
            i = i + 2;
        } else {
            let c = if 0xD800 <= a && a <= 0xDFFF {
                '\u{FFFD}'
            } else {
                match char::from_u32(a as u32) {
                    Some(c) => c,
                    None => '\u{FFFD}',
                }
            };
            out.push(c);
            assert(rest.skip(1) =~= u@.skip(i + 1));
            assert(out@ + decoded(u@.skip(i + 1)) =~= before + (seq![c] + decoded(u@.skip(i + 1))));
            i = i + 1;
        }
    }
    assert(u@.skip(i as int) =~= Seq::<u16>::empty());
    assert(out@ =~= decoded(u@));
    out
}

/// A text is written character by character: one below U+10000 is one code unit, and one above it a
/// first and a second half, each with ten of its bits.
pub proof fn law_encoded(s: Seq<char>, c: char)
    ensures
        encoded(Seq::empty()) == Seq::<u16>::empty(),
        encoded(s.push(c)) == encoded(s) + units_of(c),
        (c as int) < 0x10000 ==> units_of(c).len() == 1 && units_of(c)[0] == c as int,
        c as int >= 0x10000 ==> {
            &&& units_of(c).len() == 2
            &&& 0xD800 <= units_of(c)[0] <= 0xDBFF
            &&& 0xDC00 <= units_of(c)[1] <= 0xDFFF
            &&& (units_of(c)[0] - 0xD800) * 0x400 + (units_of(c)[1] - 0xDC00) + 0x10000 == c as int
        },
{
    assert(s.push(c).drop_last() =~= s);
}

/// A code unit that is no half of a pair is a character, two halves in order are one, and a half
/// that stands alone is read as U+FFFD.
pub proof fn law_decoded(a: u16, b: u16, rest: Seq<u16>)
    ensures
        decoded(Seq::empty()) == Seq::<char>::empty(),
        a < 0xD800 || a > 0xDFFF ==> decoded(seq![a] + rest) == seq![a as char] + decoded(rest),
        0xD800 <= a <= 0xDBFF && 0xDC00 <= b <= 0xDFFF ==> decoded(seq![a, b] + rest) == seq![
            (0x10000 + (a - 0xD800) * 0x400 + (b - 0xDC00)) as char,
        ] + decoded(rest),
        0xDC00 <= a <= 0xDFFF ==> decoded(seq![a] + rest) == seq!['\u{FFFD}'] + decoded(rest),
        0xD800 <= a <= 0xDBFF && (rest.len() == 0 || rest[0] < 0xDC00 || rest[0] > 0xDFFF)
            ==> decoded(seq![a] + rest) == seq!['\u{FFFD}'] + decoded(rest),
{
    assert((seq![a] + rest).skip(1) =~= rest);
    assert((seq![a, b] + rest).skip(2) =~= rest);
    if rest.len() > 0 {
        assert((seq![a] + rest)[1] == rest[0]);
    }
}

} // verus!

//! The types that a value can be scanned for as, and the results of scans.
//!
//! A type has a name, a size in bytes where it is fixed, a way to parse text into bytes and a way
//! to print bytes as text. Floating-point text is read and written by the caller: where a type is
//! one, parsing takes what the text reads as, and printing takes how the bytes are written.

use vstd::prelude::*;
use vstd::utf8::{
    decode_utf8, encode_utf8, encode_utf8_decode_utf8, encode_utf8_valid_utf8, valid_utf8,
};

use crate::bytes::{
    bytes_to_number, law_number_read_written, law_number_written_read, lemma_pow256, native_bytes,
    native_value, number_to_bytes, pow256,
};
use crate::number::{
    decimal, law_read_written, law_read_written_signed, lemma_signed_range, parse_signed,
    parse_unsigned, signed_decimal, signed_of, to_decimal, to_signed_decimal, unsigned_of, Whole,
};
use crate::text::{after_space, before_space, chars_of, opt_view, owned, same, split_at_space};
use crate::utf16::{decode, decoded, encode, encoded, law_text_read_written};

verus! {

/// The text that `String::from_utf8_lossy` reads in bytes.
pub uninterp spec fn utf8_lossy(bytes: Seq<u8>) -> Seq<char>;

/// `String::from_utf8_lossy` reads bytes as UTF-8. Valid bytes give what they decode to; how much
/// of others each U+FFFD stands for is left to the name.
#[verifier::external_body]
fn lossy_text(buf: &[u8]) -> (r: String)
    ensures
        valid_utf8(buf@) ==> r@ == decode_utf8(buf@),
        !valid_utf8(buf@) ==> r@ == utf8_lossy(buf@),
{
    String::from_utf8_lossy(buf).into_owned()
}

/// The number of bytes of a whole number.
#[derive(Clone, Copy, Debug, PartialEq, Eq, Structural)]
pub enum Width {
    /// 1 byte.
    One,
    /// 2 bytes.
    Two,
    /// 4 bytes.
    Four,
    /// 8 bytes.
    Eight,
    /// 16 bytes.
    Sixteen,
}

impl Width {
    /// The number of bytes.
    pub open spec fn spec_bytes(self) -> usize {
        match self {
            Width::One => 1,
            Width::Two => 2,
            Width::Four => 4,
            Width::Eight => 8,
            Width::Sixteen => 16,
        }
    }

    /// The number of bytes.
    pub fn bytes(self) -> (r: usize)
        ensures
            r == self.spec_bytes(),
    {
        match self {
            Width::One => 1,
            Width::Two => 2,
            Width::Four => 4,
            Width::Eight => 8,
            Width::Sixteen => 16,
        }
    }

    /// How many numbers fit.
    pub open spec fn modulus(self) -> nat {
        pow256(self.spec_bytes() as nat)
    }

    /// The largest unsigned number that fits.
    fn largest(self) -> (r: u128)
        ensures
            r == self.modulus() - 1,
    {
        proof {
            lemma_pow256();
        }
        match self {
            Width::One => 0xFF,
            Width::Two => 0xFFFF,
            Width::Four => 0xFFFF_FFFF,
            Width::Eight => 0xFFFF_FFFF_FFFF_FFFF,
            Width::Sixteen => 0xFFFF_FFFF_FFFF_FFFF_FFFF_FFFF_FFFF_FFFF,
        }
    }
}

/// What kind of value a type stands for.
#[derive(Clone, Copy, Debug, PartialEq, Eq, Structural)]
pub enum Kind {
    /// Text in UTF-8.
    Str,
    /// Text in UTF-16, in the byte order of the machine.
    Utf16,
    /// A whole number of zero or more.
    Unsigned(Width),
    /// A whole number in two's complement.
    Signed(Width),
    /// A floating-point number of 4 bytes.
    Single,
    /// A floating-point number of 8 bytes.
    Double,
}

impl Kind {
    /// The number of bytes, where it is fixed.
    pub open spec fn size(self) -> Option<usize> {
        match self {
            Kind::Str | Kind::Utf16 => None,
            Kind::Unsigned(w) | Kind::Signed(w) => Some(w.spec_bytes()),
            Kind::Single => Some(4),
            Kind::Double => Some(8),
        }
    }
}

/// A type that values can be scanned for as.
#[derive(Clone, Copy, Debug)]
pub struct ValueType {
    /// The name, such as `i64`.
    pub name: &'static str,
    /// The size in bytes; none for text, whose size goes with each value.
    pub size: Option<usize>,
    /// What it stands for.
    pub kind: Kind,
}

/// What a text reads as where a floating-point number is wanted: the bits of the number, or nothing
/// where it is none.
#[derive(Clone, Copy, Debug, PartialEq, Eq, Structural)]
pub struct FloatReading {
    /// The bits as a number of 4 bytes.
    pub single: Option<u32>,
    /// The bits as a number of 8 bytes.
    pub double: Option<u64>,
}

/// The names of all types, in the order of the table.
pub open spec fn type_names() -> Seq<Seq<char>> {
    seq![
        "str"@,
        "str_utf16"@,
        "i128"@,
        "i64"@,
        "i32"@,
        "i16"@,
        "i8"@,
        "u128"@,
        "u64"@,
        "u32"@,
        "u16"@,
        "u8"@,
        "f64"@,
        "f32"@,
    ]
}

/// What the types stand for, in the order of the table.
pub open spec fn type_kinds() -> Seq<Kind> {
    seq![
        Kind::Str,
        Kind::Utf16,
        Kind::Signed(Width::Sixteen),
        Kind::Signed(Width::Eight),
        Kind::Signed(Width::Four),
        Kind::Signed(Width::Two),
        Kind::Signed(Width::One),
        Kind::Unsigned(Width::Sixteen),
        Kind::Unsigned(Width::Eight),
        Kind::Unsigned(Width::Four),
        Kind::Unsigned(Width::Two),
        Kind::Unsigned(Width::One),
        Kind::Double,
        Kind::Single,
    ]
}

/// Whether a type is the `i`th of the table.
pub open spec fn is_entry(t: ValueType, i: int) -> bool {
    &&& 0 <= i < type_names().len()
    &&& t.name@ == type_names()[i]
    &&& t.kind == type_kinds()[i]
    &&& t.size == t.kind.size()
}

/// What the type with a name stands for, where the table has one.
pub open spec fn kind_of(name: Seq<char>) -> Option<Kind> {
    if type_names().contains(name) {
        Some(type_kinds()[type_names().index_of(name)])
    } else {
        None
    }
}

/// A number that tells the names of the table apart.
spec fn name_key(s: Seq<char>) -> int {
    s.len() * 1000000 + (s[0] as int) * 1000 + (s[1] as int)
}

/// No two types have the same name.
pub proof fn law_names_are_unique()
    ensures
        forall|i: int, j: int|
            0 <= i < j < type_names().len() ==> #[trigger] type_names()[i]
                != #[trigger] type_names()[j],
{
    reveal_strlit("str");
    reveal_strlit("str_utf16");
    reveal_strlit("i128");
    reveal_strlit("i64");
    reveal_strlit("i32");
    reveal_strlit("i16");
    reveal_strlit("i8");
    reveal_strlit("u128");
    reveal_strlit("u64");
    reveal_strlit("u32");
    reveal_strlit("u16");
    reveal_strlit("u8");
    reveal_strlit("f64");
    reveal_strlit("f32");
    let keys = type_names().map_values(|s: Seq<char>| name_key(s));
    assert(keys =~= seq![
        3115116int,
        9115116,
        4105049,
        3105054,
        3105051,
        3105049,
        2105056,
        4117049,
        3117054,
        3117051,
        3117049,
        2117056,
        3102054,
        3102051,
    ]);
    assert forall|i: int, j: int| 0 <= i < j < type_names().len() implies #[trigger] type_names()[i]
        != #[trigger] type_names()[j] by {
        assert(keys[i] != keys[j]);
        assert(keys[i] == name_key(type_names()[i]));
        assert(keys[j] == name_key(type_names()[j]));
    }
}

/// A name of the table stands for what its entry says.
pub proof fn law_name_gives_its_entry(i: int)
    requires
        0 <= i < type_names().len(),
    ensures
        kind_of(type_names()[i]) == Some(type_kinds()[i]),
{
    law_names_are_unique();
    let j = type_names().index_of(type_names()[i]);
    assert(type_names().contains(type_names()[i]));
    assert(type_names()[j] == type_names()[i]);
    if i < j {
        assert(type_names()[i] != type_names()[j]);
    } else if j < i {
        assert(type_names()[j] != type_names()[i]);
    }
}

/// The table of all types.
pub fn value_types() -> (r: Vec<ValueType>)
    ensures
        r@.len() == type_names().len(),
        forall|i: int| 0 <= i < r@.len() ==> is_entry(#[trigger] r@[i], i),
{
    let mut out: Vec<ValueType> = Vec::new();
    out.push(ValueType { name: "str", size: None, kind: Kind::Str });
    out.push(ValueType { name: "str_utf16", size: None, kind: Kind::Utf16 });
    out.push(ValueType { name: "i128", size: Some(16), kind: Kind::Signed(Width::Sixteen) });
    out.push(ValueType { name: "i64", size: Some(8), kind: Kind::Signed(Width::Eight) });
    out.push(ValueType { name: "i32", size: Some(4), kind: Kind::Signed(Width::Four) });
    out.push(ValueType { name: "i16", size: Some(2), kind: Kind::Signed(Width::Two) });
    out.push(ValueType { name: "i8", size: Some(1), kind: Kind::Signed(Width::One) });
    out.push(ValueType { name: "u128", size: Some(16), kind: Kind::Unsigned(Width::Sixteen) });
    out.push(ValueType { name: "u64", size: Some(8), kind: Kind::Unsigned(Width::Eight) });
    out.push(ValueType { name: "u32", size: Some(4), kind: Kind::Unsigned(Width::Four) });
    out.push(ValueType { name: "u16", size: Some(2), kind: Kind::Unsigned(Width::Two) });
    out.push(ValueType { name: "u8", size: Some(1), kind: Kind::Unsigned(Width::One) });
    out.push(ValueType { name: "f64", size: Some(8), kind: Kind::Double });
    out.push(ValueType { name: "f32", size: Some(4), kind: Kind::Single });
    out
}

/// Looks up a type by name.
pub fn find_type(name: &str) -> (r: Option<ValueType>)
    ensures
        match r {
            Some(t) => {
                &&& t.name@ == name@
                &&& kind_of(name@) == Some(t.kind)
                &&& t.size == t.kind.size()
            },
            None => kind_of(name@) is None,
        },
{
    let table = value_types();
    for i in 0..table.len()
        invariant
            table@.len() == type_names().len(),
            forall|j: int| 0 <= j < table@.len() ==> is_entry(#[trigger] table@[j], j),
            forall|j: int| 0 <= j < i ==> #[trigger] type_names()[j] != name@,
    {
        let t = table[i];
        assert(is_entry(table@[i as int], i as int));
        if same(t.name, name) {
            proof {
                law_name_gives_its_entry(i as int);
            }
            return Some(t);
        }
    }
    None
}

/// The bytes of code units.
pub open spec fn unit_bytes(units: Seq<u16>) -> Seq<u8>
    decreases units.len(),
{
    if units.len() == 0 {
        Seq::empty()
    } else {
        unit_bytes(units.drop_last()) + native_bytes(units.last() as nat, 2)
    }
}

/// The code units in bytes, two for each; an odd byte at the end is passed over.
pub open spec fn units_in(buf: Seq<u8>) -> Seq<u16> {
    Seq::new(buf.len() / 2, |i: int| native_value(buf.subrange(2 * i, 2 * i + 2)) as u16)
}

/// A whole number as it is held in two's complement.
pub open spec fn two_complement(n: int, w: Width) -> nat {
    if n < 0 {
        (n + w.modulus()) as nat
    } else {
        n as nat
    }
}

/// The whole number that is held in two's complement.
pub open spec fn from_complement(v: nat, w: Width) -> int {
    if 2 * v >= w.modulus() {
        v - w.modulus()
    } else {
        v as int
    }
}

/// The bytes that a text stands for.
pub open spec fn parsed(kind: Kind, value: Seq<char>, reading: FloatReading) -> Option<Seq<u8>> {
    match kind {
        Kind::Str => Some(encode_utf8(value)),
        Kind::Utf16 => Some(unit_bytes(encoded(value))),
        Kind::Unsigned(w) => match unsigned_of(value, 10, (w.modulus() - 1) as nat) {
            Ok(n) => Some(native_bytes(n, w.spec_bytes() as nat)),
            Err(_) => None,
        },
        Kind::Signed(w) => match signed_of(
            value,
            (w.modulus() / 2) as nat,
            (w.modulus() / 2 - 1) as nat,
        ) {
            Ok(n) => Some(native_bytes(two_complement(n, w), w.spec_bytes() as nat)),
            Err(_) => None,
        },
        Kind::Single => match reading.single {
            Some(bits) => Some(native_bytes(bits as nat, 4)),
            None => None,
        },
        Kind::Double => match reading.double {
            Some(bits) => Some(native_bytes(bits as nat, 8)),
            None => None,
        },
    }
}

/// The text that bytes stand for; `float_text` is how they are written where the type is a
/// floating-point one.
pub open spec fn printed(kind: Kind, buf: Seq<u8>, float_text: Seq<char>) -> Option<Seq<char>> {
    if kind.size() matches Some(n) && buf.len() != n {
        None
    } else {
        match kind {
            Kind::Str => Some(
                if valid_utf8(buf) {
                    decode_utf8(buf)
                } else {
                    utf8_lossy(buf)
                },
            ),
            Kind::Utf16 => Some(decoded(units_in(buf))),
            Kind::Unsigned(w) => Some(decimal(native_value(buf))),
            Kind::Signed(w) => Some(signed_decimal(from_complement(native_value(buf), w))),
            Kind::Single | Kind::Double => Some(float_text),
        }
    }
}

/// The bytes that a text stands for as a value of the type with a name.
pub open spec fn value_bytes(name: Seq<char>, value: Seq<char>, reading: FloatReading) -> Option<
    Seq<u8>,
> {
    match kind_of(name) {
        Some(kind) => parsed(kind, value, reading),
        None => None,
    }
}

/// The text that bytes stand for as a value of the type with a name.
pub open spec fn value_text(name: Seq<char>, buf: Seq<u8>, float_text: Seq<char>) -> Option<
    Seq<char>,
> {
    match kind_of(name) {
        Some(kind) => printed(kind, buf, float_text),
        None => None,
    }
}

/// The bytes of code units, in order.
fn units_to_bytes(units: &Vec<u16>) -> (r: Vec<u8>)
    ensures
        r@ == unit_bytes(units@),
{
    let mut out: Vec<u8> = Vec::new();
    for i in 0..units.len()
        invariant
            out@ == unit_bytes(units@.take(i as int)),
    {
        let mut pair = number_to_bytes(units[i] as u128, 2);
        assert(units@.take(i + 1).drop_last() =~= units@.take(i as int));
        out.append(&mut pair);
    }
    assert(units@.take(units@.len() as int) =~= units@);
    out
}

/// The code units in bytes.
fn bytes_to_units(buf: &[u8]) -> (r: Vec<u16>)
    ensures
        r@ == units_in(buf@),
{
    let mut out: Vec<u16> = Vec::new();
    let n: usize = buf.len() / 2;
    for i in 0..n
        invariant
            n == buf@.len() / 2,
            buf@.len() <= usize::MAX,
            out@ == units_in(buf@).take(i as int),
    {
        let pair = vstd::slice::slice_subrange(buf, 2 * i, 2 * i + 2);
        proof {
            law_number_written_read(pair@);
            lemma_pow256();
        }
        out.push(bytes_to_number(pair) as u16);
        assert(out@ =~= units_in(buf@).take(i + 1));
    }
    assert(out@ =~= units_in(buf@));
    out
}

impl ValueType {
    /// Parses a text into the bytes that it stands for. Where the type is a floating-point one,
    /// `reading` is what the text reads as.
    pub fn parse(&self, value: &str, reading: &FloatReading) -> (r: Option<Vec<u8>>)
        ensures
            match r {
                Some(b) => parsed(self.kind, value@, *reading) == Some(b@),
                None => parsed(self.kind, value@, *reading) is None,
            },
    {
        proof {
            lemma_pow256();
        }
        match self.kind {
            Kind::Str => {
                let out = vstd::slice::slice_to_vec(value.as_bytes());
                Some(out)
            },
            Kind::Utf16 => {
                let units = encode(&chars_of(value));
                Some(units_to_bytes(&units))
            },
            Kind::Unsigned(w) => match parse_unsigned(value, 10, w.largest()) {
                Ok(n) => Some(number_to_bytes(n, w.bytes())),
                Err(_) => None,
            },
            Kind::Signed(w) => {
                let half: u128 = w.largest() / 2;
                match parse_signed(value, half + 1, half) {
                    Ok(n) => {
                        proof {
                            lemma_signed_range(value@, (half + 1) as nat, half as nat);
                        }
                        let held: u128 = if n.negative {
                            w.largest() - n.size + 1
                        } else {
                            n.size
                        };
                        Some(number_to_bytes(held, w.bytes()))
                    },
                    Err(_) => None,
                }
            },
            Kind::Single => match reading.single {
                Some(bits) => Some(number_to_bytes(bits as u128, 4)),
                None => None,
            },
            Kind::Double => match reading.double {
                Some(bits) => Some(number_to_bytes(bits as u128, 8)),
                None => None,
            },
        }
    }

    /// Prints bytes as the value that they stand for; a wrong number of bytes gives `None`. Where
    /// the type is a floating-point one, `float_text` is how the bytes are written.
    pub fn print(&self, buf: &[u8], float_text: &str) -> (r: Option<String>)
        ensures
            opt_view(r) == printed(self.kind, buf@, float_text@),
    {
        proof {
            lemma_pow256();
            law_number_written_read(buf@);
        }
        match self.kind {
            Kind::Str => Some(lossy_text(buf)),
            Kind::Utf16 => {
                let units = bytes_to_units(buf);
                Some(decode(&units))
            },
            Kind::Unsigned(w) => {
                if buf.len() != w.bytes() {
                    return None;
                }
                Some(to_decimal(bytes_to_number(buf)))
            },
            Kind::Signed(w) => {
                if buf.len() != w.bytes() {
                    return None;
                }
                let held: u128 = bytes_to_number(buf);
                let n = if held > w.largest() / 2 {
                    Whole { negative: true, size: w.largest() - held + 1 }
                } else {
                    Whole { negative: false, size: held }
                };
                Some(to_signed_decimal(n))
            },
            Kind::Single => {
                if buf.len() != 4 {
                    return None;
                }
                Some(owned(float_text))
            },
            Kind::Double => {
                if buf.len() != 8 {
                    return None;
                }
                Some(owned(float_text))
            },
        }
    }
}

/// Prints bytes as a value of the type with a name. An unknown name or a wrong number of bytes
/// gives `None`.
pub fn print_value(buf: &[u8], typename: &str, float_text: &str) -> (r: Option<String>)
    ensures
        opt_view(r) == value_text(typename@, buf@, float_text@),
{
    match find_type(typename) {
        Some(t) => t.print(buf, float_text),
        None => None,
    }
}

/// Parses a text as a value of the type with a name. An unknown name or a text that is no such
/// value gives `None`.
pub fn parse_value(typename: &str, value: &str, reading: &FloatReading) -> (r: Option<Vec<u8>>)
    ensures
        match r {
            Some(b) => value_bytes(typename@, value@, *reading) == Some(b@),
            None => value_bytes(typename@, value@, *reading) is None,
        },
{
    match find_type(typename) {
        Some(t) => t.parse(value, reading),
        None => None,
    }
}

/// The name of the type and the text of the value in an input. With a type selected the whole input
/// is the value; otherwise the type stands before the first space.
pub open spec fn input_parts(input: Seq<char>, selected: Option<Seq<char>>) -> Option<
    (Seq<char>, Seq<char>),
> {
    match selected {
        Some(t) => Some((t, input)),
        None => match after_space(input) {
            Some(value) => Some((before_space(input), value)),
            None => None,
        },
    }
}

/// The bytes and the type that an input stands for.
pub open spec fn input_value(
    input: Seq<char>,
    selected: Option<Seq<char>>,
    reading: FloatReading,
) -> Option<(Seq<u8>, Seq<char>)> {
    match input_parts(input, selected) {
        Some((name, value)) => match value_bytes(name, value, reading) {
            Some(b) => Some((b, name)),
            None => None,
        },
        None => None,
    }
}

/// Splits an input into the name of the type and the text of the value.
pub fn split_input(input: &str, opt_typename: &Option<String>) -> (r: Option<(String, String)>)
    ensures
        match r {
            Some((name, value)) => input_parts(input@, opt_view(*opt_typename)) == Some(
                (name@, value@),
            ),
            None => input_parts(input@, opt_view(*opt_typename)) is None,
        },
{
    match opt_typename {
        Some(t) => Some((owned(t.as_str()), owned(input))),
        None => {
            let (name, rest) = split_at_space(input);
            match rest {
                Some(value) => Some((name, value)),
                None => None,
            }
        },
    }
}

/// Parses an input into bytes.
///
/// With `opt_typename` the whole input is a value of that type. Without it the input is the name of
/// a type, a space and the value, such as `i64 42`. `reading` is what the text of the value reads
/// as where the type is a floating-point one. Gives the bytes and the name of the type.
pub fn parse_input(input: &str, opt_typename: &Option<String>, reading: &FloatReading) -> (r: Option<
    (Vec<u8>, String),
>)
    ensures
        match r {
            Some((b, name)) => input_value(input@, opt_view(*opt_typename), *reading) == Some(
                (b@, name@),
            ),
            None => input_value(input@, opt_view(*opt_typename), *reading) is None,
        },
{
    match split_input(input, opt_typename) {
        Some((name, value)) => match parse_value(name.as_str(), value.as_str(), reading) {
            Some(b) => Some((b, name)),
            None => None,
        },
        None => None,
    }
}

/// The bytes of code units give the units back.
proof fn lemma_units_in_bytes(units: Seq<u16>)
    ensures
        unit_bytes(units).len() == 2 * units.len(),
        units_in(unit_bytes(units)) == units,
    decreases units.len(),
{
    if units.len() > 0 {
        let rest = units.drop_last();
        lemma_units_in_bytes(rest);
        lemma_pow256();
        law_number_read_written(units.last() as nat, 2);
        let b = unit_bytes(units);
        let pair = native_bytes(units.last() as nat, 2);
        assert forall|i: int| 0 <= i < units.len() implies #[trigger] units_in(b)[i] == units[i] by {
            if i < rest.len() {
                assert(units_in(unit_bytes(rest))[i] == rest[i]);
                assert(b.subrange(2 * i, 2 * i + 2) =~= unit_bytes(rest).subrange(
                    2 * i,
                    2 * i + 2,
                ));
            } else {
                assert(b.subrange(2 * i, 2 * i + 2) =~= pair);
            }
        }
        assert(units_in(b) =~= units);
    } else {
        assert(units_in(unit_bytes(units)) =~= units);
    }
}

/// Text that is parsed into bytes is printed from them as it was.
pub proof fn law_str_round_trip(value: Seq<char>, reading: FloatReading, float_text: Seq<char>)
    ensures
        parsed(Kind::Str, value, reading) is Some,
        printed(Kind::Str, parsed(Kind::Str, value, reading).unwrap(), float_text) == Some(value),
{
    encode_utf8_valid_utf8(value);
    encode_utf8_decode_utf8(value);
}

/// UTF-16 text that is parsed into bytes is printed from them as it was.
pub proof fn law_utf16_round_trip(value: Seq<char>, reading: FloatReading, float_text: Seq<char>)
    ensures
        parsed(Kind::Utf16, value, reading) is Some,
        printed(Kind::Utf16, parsed(Kind::Utf16, value, reading).unwrap(), float_text) == Some(
            value,
        ),
{
    lemma_units_in_bytes(encoded(value));
    law_text_read_written(value);
}

/// A whole number that fits its type is parsed from its decimal text into bytes of the size of the
/// type, and they are printed as that text.
pub proof fn law_whole_round_trip(
    n: int,
    w: Width,
    signed: bool,
    reading: FloatReading,
    float_text: Seq<char>,
)
    requires
        signed ==> -(w.modulus() / 2) <= n < w.modulus() / 2,
        !signed ==> 0 <= n < w.modulus(),
    ensures
        ({
            let kind = if signed {
                Kind::Signed(w)
            } else {
                Kind::Unsigned(w)
            };
            let b = parsed(kind, signed_decimal(n), reading);
            &&& b is Some
            &&& b.unwrap().len() == w.spec_bytes()
            &&& printed(kind, b.unwrap(), float_text) == Some(signed_decimal(n))
        }),
{
    lemma_pow256();
    if signed {
        law_read_written_signed(n, (w.modulus() / 2) as nat, (w.modulus() / 2 - 1) as nat);
        law_number_read_written(two_complement(n, w), w.spec_bytes() as nat);
    } else {
        law_read_written(n as nat, 10, (w.modulus() - 1) as nat);
        law_number_read_written(n as nat, w.spec_bytes() as nat);
    }
}

/// Bytes that a text was parsed into have the size of the type, where it has one, and can be
/// printed.
pub proof fn law_parsed_can_be_printed(
    kind: Kind,
    value: Seq<char>,
    reading: FloatReading,
    float_text: Seq<char>,
)
    requires
        parsed(kind, value, reading) is Some,
    ensures
        kind.size() matches Some(n) ==> parsed(kind, value, reading).unwrap().len() == n,
        printed(kind, parsed(kind, value, reading).unwrap(), float_text) is Some,
{
    lemma_pow256();
    lemma_native_len(4);
    lemma_native_len(8);
    match kind {
        Kind::Unsigned(w) => {
            lemma_native_len(w.spec_bytes() as nat);
        },
        Kind::Signed(w) => {
            lemma_native_len(w.spec_bytes() as nat);
        },
        _ => {},
    }
}

/// A number is written in as many bytes as were asked for.
proof fn lemma_native_len(w: nat)
    ensures
        forall|n: nat| (#[trigger] native_bytes(n, w)).len() == w,
{
    assert forall|n: nat| (#[trigger] native_bytes(n, w)).len() == w by {
        crate::bytes::lemma_little_len(n, w);
    }
}

/// The result of a scan.
#[derive(Clone, Debug)]
pub struct ScanResult {
    /// All addresses found.
    pub matches: Vec<u64>,
    /// Whether all memory was scanned, and not the addresses of an earlier scan.
    pub is_initial_scan: bool,
}

impl ScanResult {
    /// The number of addresses found.
    pub fn count(&self) -> (r: usize)
        ensures
            r == self.matches@.len(),
    {
        self.matches.len()
    }
}

impl Default for ScanResult {
    fn default() -> (r: Self)
        ensures
            r.matches@.len() == 0,
            !r.is_initial_scan,
    {
        ScanResult { matches: Vec::new(), is_initial_scan: false }
    }
}

/// A match with its value as read back from memory.
#[derive(Clone, Debug)]
pub struct MatchDisplay {
    /// The address.
    pub address: u64,
    /// The value as text.
    pub value: String,
}

/// A module of a process.
#[derive(Clone, Debug)]
pub struct ModuleInfo {
    /// Its name.
    pub name: String,
    /// Its first address.
    pub base: u64,
    /// Its number of bytes.
    pub size: u64,
}

/// A chain of pointers that leads to a match.
#[derive(Clone, Debug)]
pub struct OffsetMatch {
    /// The match.
    pub target: u64,
    /// Addresses with the offset that is added to what is read there, outermost first.
    pub chain: Vec<(u64, isize)>,
}

/// The types are text in UTF-8 and UTF-16, whole numbers with and without a sign of 1, 2, 4, 8 and
/// 16 bytes, and floating-point numbers of 4 and 8 bytes, under these names and no others.
pub proof fn law_type_table(name: Seq<char>)
    ensures
        kind_of("str"@) == Some(Kind::Str),
        kind_of("str_utf16"@) == Some(Kind::Utf16),
        kind_of("i8"@) == Some(Kind::Signed(Width::One)),
        kind_of("u8"@) == Some(Kind::Unsigned(Width::One)),
        kind_of("i16"@) == Some(Kind::Signed(Width::Two)),
        kind_of("u16"@) == Some(Kind::Unsigned(Width::Two)),
        kind_of("i32"@) == Some(Kind::Signed(Width::Four)),
        kind_of("u32"@) == Some(Kind::Unsigned(Width::Four)),
        kind_of("i64"@) == Some(Kind::Signed(Width::Eight)),
        kind_of("u64"@) == Some(Kind::Unsigned(Width::Eight)),
        kind_of("i128"@) == Some(Kind::Signed(Width::Sixteen)),
        kind_of("u128"@) == Some(Kind::Unsigned(Width::Sixteen)),
        kind_of("f32"@) == Some(Kind::Single),
        kind_of("f64"@) == Some(Kind::Double),
        kind_of(name) is Some ==> {
            ||| name == "str"@ || name == "str_utf16"@ || name == "f32"@ || name == "f64"@
            ||| name == "i8"@ || name == "i16"@ || name == "i32"@ || name == "i64"@ || name == "i128"@
            ||| name == "u8"@ || name == "u16"@ || name == "u32"@ || name == "u64"@ || name == "u128"@
        },
{
    law_name_gives_its_entry(0);
    law_name_gives_its_entry(1);
    law_name_gives_its_entry(2);
    law_name_gives_its_entry(3);
    law_name_gives_its_entry(4);
    law_name_gives_its_entry(5);
    law_name_gives_its_entry(6);
    law_name_gives_its_entry(7);
    law_name_gives_its_entry(8);
    law_name_gives_its_entry(9);
    law_name_gives_its_entry(10);
    law_name_gives_its_entry(11);
    law_name_gives_its_entry(12);
    law_name_gives_its_entry(13);
    if kind_of(name) is Some {
        let i = choose|i: int| 0 <= i < type_names().len() && type_names()[i] == name;
        assert(type_names()[i] == name);
    }
}

/// The widths are 1, 2, 4, 8 and 16 bytes, a width of `n` bytes holds 256 to the power of `n`
/// numbers, and a type has the size of what it holds.
pub proof fn law_sizes(w: Width)
    ensures
        Width::One.spec_bytes() == 1,
        Width::Two.spec_bytes() == 2,
        Width::Four.spec_bytes() == 4,
        Width::Eight.spec_bytes() == 8,
        Width::Sixteen.spec_bytes() == 16,
        w.modulus() == pow256(w.spec_bytes() as nat),
        Kind::Unsigned(w).size() == Some(w.spec_bytes()),
        Kind::Signed(w).size() == Some(w.spec_bytes()),
        Kind::Single.size() == Some(4usize),
        Kind::Double.size() == Some(8usize),
        Kind::Str.size() is None,
        Kind::Utf16.size() is None,
{
}

/// What a text is parsed into. Text is its encoding. A whole number is taken exactly where it fits,
/// and its bytes hold it, below zero as what is that far below the number of all that fit. A
/// floating-point number has the bits that its text reads as.
pub proof fn law_parsed(value: Seq<char>, reading: FloatReading, w: Width)
    ensures
        parsed(Kind::Str, value, reading) == Some(encode_utf8(value)),
        parsed(Kind::Utf16, value, reading) matches Some(b) && b.len() == 2 * encoded(value).len()
            && units_in(b) == encoded(value),
        match unsigned_of(value, 10, (w.modulus() - 1) as nat) {
            Ok(n) => parsed(Kind::Unsigned(w), value, reading) matches Some(b) && b.len()
                == w.spec_bytes() && native_value(b) == n,
            Err(_) => parsed(Kind::Unsigned(w), value, reading) is None,
        },
        match signed_of(value, (w.modulus() / 2) as nat, (w.modulus() / 2 - 1) as nat) {
            Ok(n) => parsed(Kind::Signed(w), value, reading) matches Some(b) && b.len()
                == w.spec_bytes() && native_value(b) == (if n < 0 {
                w.modulus() + n
            } else {
                n
            }),
            Err(_) => parsed(Kind::Signed(w), value, reading) is None,
        },
        match reading.single {
            Some(bits) => parsed(Kind::Single, value, reading) matches Some(b) && b.len() == 4
                && native_value(b) == bits,
            None => parsed(Kind::Single, value, reading) is None,
        },
        match reading.double {
            Some(bits) => parsed(Kind::Double, value, reading) matches Some(b) && b.len() == 8
                && native_value(b) == bits,
            None => parsed(Kind::Double, value, reading) is None,
        },
{
    lemma_pow256();
    lemma_units_in_bytes(encoded(value));
    lemma_native_len(4);
    lemma_native_len(8);
    lemma_native_len(w.spec_bytes() as nat);
    if let Ok(n) = unsigned_of(value, 10, (w.modulus() - 1) as nat) {
        crate::number::lemma_unsigned_range(value, 10, (w.modulus() - 1) as nat);
        law_number_read_written(n, w.spec_bytes() as nat);
    }
    if let Ok(n) = signed_of(value, (w.modulus() / 2) as nat, (w.modulus() / 2 - 1) as nat) {
        lemma_signed_range(value, (w.modulus() / 2) as nat, (w.modulus() / 2 - 1) as nat);
        law_number_read_written(two_complement(n, w), w.spec_bytes() as nat);
    }
    if let Some(bits) = reading.single {
        law_number_read_written(bits as nat, 4);
    }
    if let Some(bits) = reading.double {
        law_number_read_written(bits as nat, 8);
    }
}

/// What bytes are printed as. A number needs exactly its size. A whole number without a sign is
/// what the bytes hold; one with a sign is the one in range that differs from it by nothing or by
/// the number of all that fit. An odd byte at the end of UTF-16 text is passed over.
pub proof fn law_printed(buf: Seq<u8>, float_text: Seq<char>, w: Width, n: int)
    ensures
        printed(Kind::Unsigned(w), buf, float_text) == (if buf.len() == w.spec_bytes() {
            Some(decimal(native_value(buf)))
        } else {
            None
        }),
        buf.len() != w.spec_bytes() ==> printed(Kind::Signed(w), buf, float_text) is None,
        buf.len() == w.spec_bytes() && -(w.modulus() / 2) <= n < w.modulus() / 2 && (n
            == native_value(buf) || n == native_value(buf) - w.modulus()) ==> printed(
            Kind::Signed(w),
            buf,
            float_text,
        ) == Some(signed_decimal(n)),
        printed(Kind::Single, buf, float_text) == (if buf.len() == 4 {
            Some(float_text)
        } else {
            None
        }),
        printed(Kind::Double, buf, float_text) == (if buf.len() == 8 {
            Some(float_text)
        } else {
            None
        }),
        valid_utf8(buf) ==> printed(Kind::Str, buf, float_text) == Some(decode_utf8(buf)),
        printed(Kind::Utf16, buf, float_text) == Some(decoded(units_in(buf))),
        units_in(buf).len() == buf.len() / 2,
        forall|i: int|
            0 <= i < buf.len() / 2 ==> #[trigger] units_in(buf)[i] == native_value(
                buf.subrange(2 * i, 2 * i + 2),
            ),
{
    lemma_pow256();
    assert forall|i: int| 0 <= i < buf.len() / 2 implies #[trigger] units_in(buf)[i]
        == native_value(buf.subrange(2 * i, 2 * i + 2)) by {
        law_number_written_read(buf.subrange(2 * i, 2 * i + 2));
    }
}

/// A value of a type is parsed and printed as the kind of the type is; a name that is no type
/// parses and prints nothing.
pub proof fn law_values_go_by_their_type(
    name: Seq<char>,
    value: Seq<char>,
    buf: Seq<u8>,
    reading: FloatReading,
    float_text: Seq<char>,
)
    ensures
        kind_of(name) matches Some(kind) ==> {
            &&& value_bytes(name, value, reading) == parsed(kind, value, reading)
            &&& value_text(name, buf, float_text) == printed(kind, buf, float_text)
        },
        kind_of(name) is None ==> value_bytes(name, value, reading) is None && value_text(
            name,
            buf,
            float_text,
        ) is None,
{
}

/// Without a selected type an input is a type, a space and a value; with one, all of it is the
/// value.
pub proof fn law_input(
    name: Seq<char>,
    value: Seq<char>,
    selected: Seq<char>,
    reading: FloatReading,
)
    requires
        forall|i: int| 0 <= i < name.len() ==> #[trigger] name[i] != ' ',
    ensures
        input_parts(name + seq![' '] + value, None) == Some((name, value)),
        input_parts(name, None) is None,
        input_parts(value, Some(selected)) == Some((selected, value)),
        input_value(name + seq![' '] + value, None, reading) == (match value_bytes(
            name,
            value,
            reading,
        ) {
            Some(b) => Some((b, name)),
            None => None,
        }),
        input_value(name, None, reading) is None,
        input_value(value, Some(selected), reading) == (match value_bytes(
            selected,
            value,
            reading,
        ) {
            Some(b) => Some((b, selected)),
            None => None,
        }),
{
    crate::text::law_split_at_space(name, value);
}

/// An entry of the table has a name of the table, is what that name stands for, and has its size.
/// The entries come in this order.
pub proof fn law_entries_of_the_table(t: ValueType, i: int)
    ensures
        is_entry(t, i) ==> kind_of(t.name@) == Some(t.kind) && t.size == t.kind.size(),
        is_entry(t, i) ==> 0 <= i < 14 && t.name@ == type_names()[i],
        0 <= i < 14 && t.name@ == type_names()[i] && kind_of(t.name@) == Some(t.kind) && t.size
            == t.kind.size() ==> is_entry(t, i),
        type_names().len() == 14,
        type_names()[0] == "str"@,
        type_names()[1] == "str_utf16"@,
        type_names()[2] == "i128"@,
        type_names()[3] == "i64"@,
        type_names()[4] == "i32"@,
        type_names()[5] == "i16"@,
        type_names()[6] == "i8"@,
        type_names()[7] == "u128"@,
        type_names()[8] == "u64"@,
        type_names()[9] == "u32"@,
        type_names()[10] == "u16"@,
        type_names()[11] == "u8"@,
        type_names()[12] == "f64"@,
        type_names()[13] == "f32"@,
{
    if 0 <= i < type_names().len() {
        law_name_gives_its_entry(i);
    }
}

} // verus!

//! Unsigned numbers as rows of bytes in the byte order of the machine.

use vstd::endian::{endianness, Endian};
use vstd::prelude::*;

verus! {

/// `u16::to_ne_bytes` gives the two bytes of a number in the byte order of the machine.
#[verifier::external_body]
fn u16_native_bytes(x: u16) -> (r: [u8; 2])
    ensures
        r@ == native_bytes(x as nat, 2),
{
    x.to_ne_bytes()
}

/// The `w`-th power of 256: how many numbers fit in `w` bytes.
pub open spec fn pow256(w: nat) -> nat
    decreases w,
{
    if w == 0 {
        1
    } else {
        256 * pow256((w - 1) as nat)
    }
}

/// The lowest `w` bytes of a number, least significant first.
pub open spec fn little_bytes(n: nat, w: nat) -> Seq<u8>
    decreases w,
{
    if w == 0 {
        Seq::empty()
    } else {
        seq![(n % 256) as u8] + little_bytes(n / 256, (w - 1) as nat)
    }
}

/// The number whose bytes these are, least significant first.
pub open spec fn little_value(b: Seq<u8>) -> nat
    decreases b.len(),
{
    if b.len() == 0 {
        0
    } else {
        b[0] as nat + 256 * little_value(b.skip(1))
    }
}

/// The lowest `w` bytes of a number in the byte order of the machine.
pub open spec fn native_bytes(n: nat, w: nat) -> Seq<u8> {
    match endianness() {
        Endian::Little => little_bytes(n, w),
        Endian::Big => little_bytes(n, w).reverse(),
    }
}

/// The number whose bytes these are in the byte order of the machine.
pub open spec fn native_value(b: Seq<u8>) -> nat {
    match endianness() {
        Endian::Little => little_value(b),
        Endian::Big => little_value(b.reverse()),
    }
}

/// How many numbers fit in the widths that values have.
pub proof fn lemma_pow256()
    ensures
        pow256(1) == 0x100,
        pow256(2) == 0x1_0000,
        pow256(4) == 0x1_0000_0000,
        pow256(8) == 0x1_0000_0000_0000_0000,
        pow256(16) == 0x1_0000_0000_0000_0000_0000_0000_0000_0000,
{
    reveal_with_fuel(pow256, 17);
}

/// Wider rows of bytes hold more numbers.
proof fn lemma_pow256_grows(v: nat, w: nat)
    requires
        v <= w,
    ensures
        0 < pow256(v) <= pow256(w),
    decreases w,
{
    if v < w {
        lemma_pow256_grows(v, (w - 1) as nat);
    } else if v > 0 {
        lemma_pow256_grows((v - 1) as nat, (w - 1) as nat);
    }
}

/// A row of `w` bytes has `w` bytes.
pub proof fn lemma_little_len(n: nat, w: nat)
    ensures
        little_bytes(n, w).len() == w,
    decreases w,
{
    if w > 0 {
        lemma_little_len(n / 256, (w - 1) as nat);
    }
}

/// A number that fits in `w` bytes is the value of its bytes.
proof fn lemma_little_read_written(n: nat, w: nat)
    requires
        n < pow256(w),
    ensures
        little_value(little_bytes(n, w)) == n,
    decreases w,
{
    if w > 0 {
        let b = little_bytes(n, w);
        lemma_little_read_written(n / 256, (w - 1) as nat);
        assert(b.skip(1) =~= little_bytes(n / 256, (w - 1) as nat));
    }
}

/// The value of a row of bytes fits in it and gives the row back.
proof fn lemma_little_written_read(b: Seq<u8>)
    ensures
        little_value(b) < pow256(b.len()),
        little_bytes(little_value(b), b.len()) == b,
    decreases b.len(),
{
    if b.len() > 0 {
        lemma_little_written_read(b.skip(1));
        let n = little_value(b);
        assert(n / 256 == little_value(b.skip(1)));
        assert(n % 256 == b[0] as nat);
        assert(seq![b[0]] + b.skip(1) =~= b);
    } else {
        assert(b =~= Seq::<u8>::empty());
    }
}

/// A number that fits in `w` bytes is written as `w` bytes and read back from them as itself.
pub proof fn law_number_read_written(n: nat, w: nat)
    requires
        n < pow256(w),
    ensures
        native_bytes(n, w).len() == w,
        native_value(native_bytes(n, w)) == n,
{
    lemma_little_len(n, w);
    lemma_little_read_written(n, w);
    let b = little_bytes(n, w);
    assert(b.reverse().reverse() =~= b);
}

/// Every row of bytes is read as a number that fits in it and is written back as itself.
pub proof fn law_number_written_read(b: Seq<u8>)
    ensures
        native_value(b) < pow256(b.len()),
        native_bytes(native_value(b), b.len()) == b,
{
    lemma_little_written_read(b);
    lemma_little_written_read(b.reverse());
    assert(b.reverse().reverse() =~= b);
}

/// Whether the machine keeps the least significant byte first.
pub fn is_little_endian() -> (r: bool)
    ensures
        r == (endianness() is Little),
{
    let b = u16_native_bytes(1);
    proof {
        reveal_with_fuel(little_bytes, 3);
        assert(little_bytes(1, 2) =~= seq![1u8, 0u8]);
        assert(little_bytes(1, 2).reverse() =~= seq![0u8, 1u8]);
    }
    b[0] == 1
}

/// The bytes in the opposite order.
fn reversed(b: &[u8]) -> (r: Vec<u8>)
    ensures
        r@ == b@.reverse(),
{
    let mut out: Vec<u8> = Vec::new();
    for i in 0..b.len()
        invariant
            out@.len() == i,
            forall|j: int| 0 <= j < i ==> out@[j] == b@[b@.len() - 1 - j],
    {
        out.push(b[b.len() - 1 - i]);
    }
    assert(out@ =~= b@.reverse());
    out
}

/// Writes the lowest `w` bytes of a number in the byte order of the machine.
pub fn number_to_bytes(n: u128, w: usize) -> (r: Vec<u8>)
    ensures
        r@ == native_bytes(n as nat, w as nat),
{
    let mut out: Vec<u8> = Vec::new();
    let mut rest: u128 = n;
    let mut i: usize = 0;
    assert(out@ + little_bytes(n as nat, w as nat) =~= little_bytes(n as nat, w as nat));
    while i < w
        invariant
            i <= w,
            out@ + little_bytes(rest as nat, (w - i) as nat) == little_bytes(n as nat, w as nat),
        decreases w - i,
    {
        let ghost before = out@;
        let low: u8 = (rest % 256) as u8;
        out.push(low);
        assert(out@ + little_bytes((rest / 256) as nat, (w - i - 1) as nat) =~= before + (
        seq![low] + little_bytes((rest / 256) as nat, (w - i - 1) as nat)));
        rest = rest / 256;
        i = i + 1;
    }
    assert(out@ =~= little_bytes(n as nat, w as nat));
    if is_little_endian() {
        out
    } else {
        reversed(out.as_slice())
    }
}

/// The number that bytes stand for, least significant first.
fn read_little(b: &[u8]) -> (r: u128)
    requires
        b@.len() <= 16,
    ensures
        r == little_value(b@),
{
    let mut acc: u128 = 0;
    let mut i: usize = b.len();
    assert(b@.skip(b@.len() as int) =~= Seq::<u8>::empty());
    while i > 0
        invariant
            i <= b@.len() <= 16,
            acc == little_value(b@.skip(i as int)),
        decreases i,
    {
        assert(b@.skip(i - 1).skip(1) =~= b@.skip(i as int));
        proof {
            lemma_little_written_read(b@.skip(i - 1));
            lemma_pow256_grows((b@.len() - i + 1) as nat, 16);
            lemma_pow256();
        }
        acc = b[i - 1] as u128 + 256 * acc;
        i = i - 1;
    }
    assert(b@.skip(0) =~= b@);
    acc
}

/// Reads the number that bytes stand for in the byte order of the machine.
pub fn bytes_to_number(b: &[u8]) -> (r: u128)
    requires
        b@.len() <= 16,
    ensures
        r == native_value(b@),
{
    if is_little_endian() {
        read_little(b)
    } else {
        let back = reversed(b);
        read_little(back.as_slice())
    }
}

/// The bytes of a number are its digits to the base of 256: the least significant first on a
/// machine that puts it first, and last on the others.
pub proof fn law_native_bytes(n: nat, w: nat, i: int)
    requires
        0 <= i < w,
    ensures
        native_bytes(n, w).len() == w,
        endianness() == Endian::Little ==> native_bytes(n, w)[i] == (n / pow256(i as nat)) % 256,
        endianness() == Endian::Big ==> native_bytes(n, w)[w - 1 - i] == (n / pow256(i as nat))
            % 256,
{
    lemma_little_len(n, w);
    lemma_little_byte(n, w, i);
}

/// A byte of a number is a digit of it.
proof fn lemma_little_byte(n: nat, w: nat, i: int)
    requires
        0 <= i < w,
    ensures
        little_bytes(n, w)[i] == (n / pow256(i as nat)) % 256,
    decreases w,
{
    lemma_little_len(n, w);
    lemma_pow256_grows(0, i as nat);
    if i > 0 {
        let m = n / 256;
        let p = pow256((i - 1) as nat);
        lemma_little_byte(m, (w - 1) as nat, i - 1);
        lemma_little_len(m, (w - 1) as nat);
        lemma_pow256_grows(0, (i - 1) as nat);
        vstd::arithmetic::div_mod::lemma_div_denominator(n as int, 256, p as int);
    }
}

/// A row of bytes holds as many numbers as its width in powers of 256 says.
pub proof fn law_pow256(w: nat)
    ensures
        pow256(0) == 1,
        pow256(w + 1) == 256 * pow256(w),
{
}

} // verus!

//! Integers as text: reading them in a radix and writing them out.

use vstd::prelude::*;

use crate::text::{chars_of, owned};

verus! {

/// Why a text is not an integer of the wanted range.
#[derive(Clone, Copy, Debug, PartialEq, Eq, Structural)]
pub enum IntError {
    /// There are no characters at all.
    Empty,
    /// A character is no digit of the radix, or a sign stands alone.
    InvalidDigit,
    /// The number lies above the range.
    PosOverflow,
    /// The number lies below the range.
    NegOverflow,
}

impl IntError {
    /// The words for this error.
    pub open spec fn words(self) -> Seq<char> {
        match self {
            IntError::Empty => "cannot parse integer from empty string"@,
            IntError::InvalidDigit => "invalid digit found in string"@,
            IntError::PosOverflow => "number too large to fit in target type"@,
            IntError::NegOverflow => "number too small to fit in target type"@,
        }
    }

    /// This error in words.
    pub fn message(self) -> (r: String)
        ensures
            r@ == self.words(),
    {
        match self {
            IntError::Empty => owned("cannot parse integer from empty string"),
            IntError::InvalidDigit => owned("invalid digit found in string"),
            IntError::PosOverflow => owned("number too large to fit in target type"),
            IntError::NegOverflow => owned("number too small to fit in target type"),
        }
    }
}

/// What reads as a number is at most the largest asked for.
pub proof fn lemma_unsigned_range(s: Seq<char>, radix: nat, max: nat)
    ensures
        unsigned_of(s, radix, max) matches Ok(n) ==> n <= max,
{
    let t = s.skip(1);
    lemma_digit_run(s, radix);
    lemma_digit_run(t, radix);
    assert(s.take(s.len() as int) =~= s);
    assert(t.take(t.len() as int) =~= t);
}

/// What reads as a whole number lies in the range asked for.
pub proof fn lemma_signed_range(s: Seq<char>, low: nat, high: nat)
    ensures
        signed_of(s, low, high) matches Ok(n) ==> -low <= n <= high,
{
    let t = s.skip(1);
    lemma_digit_run(s, 10);
    lemma_digit_run(t, 10);
    assert(s.take(s.len() as int) =~= s);
    assert(t.take(t.len() as int) =~= t);
}

/// The value of a character as a digit of the radix.
pub open spec fn digit_of(c: char, radix: nat) -> Option<nat> {
    let d: int = if '0' <= c <= '9' {
        c as int - '0' as int
    } else if 'a' <= c <= 'z' {
        c as int - 'a' as int + 10
    } else if 'A' <= c <= 'Z' {
        c as int - 'A' as int + 10
    } else {
        radix as int
    };
    if 0 <= d < radix {
        Some(d as nat)
    } else {
        None
    }
}

/// The number that a row of digits stands for, most significant digit first.
pub open spec fn value_of(s: Seq<char>, radix: nat) -> nat
    decreases s.len(),
{
    if s.len() == 0 {
        0
    } else {
        value_of(s.drop_last(), radix) * radix + digit_of(s.last(), radix).unwrap_or(0)
    }
}

/// How many digits of the radix the text starts with.
pub open spec fn digit_run(s: Seq<char>, radix: nat) -> nat
    decreases s.len(),
{
    if s.len() == 0 || digit_of(s[0], radix) is None {
        0
    } else {
        1 + digit_run(s.skip(1), radix)
    }
}

/// The run of digits ends inside the text or with it, and holds digits only.
pub proof fn lemma_digit_run(s: Seq<char>, radix: nat)
    ensures
        digit_run(s, radix) <= s.len(),
        forall|i: int| 0 <= i < digit_run(s, radix) ==> digit_of(#[trigger] s[i], radix) is Some,
        digit_run(s, radix) < s.len() ==> digit_of(s[digit_run(s, radix) as int], radix) is None,
    decreases s.len(),
{
    if !(s.len() == 0 || digit_of(s[0], radix) is None) {
        lemma_digit_run(s.skip(1), radix);
        assert forall|i: int| 0 <= i < digit_run(s, radix) implies digit_of(
            #[trigger] s[i],
            radix,
        ) is Some by {
            if i > 0 {
                assert(s[i] == s.skip(1)[i - 1]);
            }
        }
    }
}

/// A text whose first `k` characters are digits, and whose next one is not, has a run of `k`.
proof fn lemma_digit_run_is(s: Seq<char>, radix: nat, k: nat)
    requires
        k <= s.len(),
        forall|i: int| 0 <= i < k ==> digit_of(#[trigger] s[i], radix) is Some,
        k < s.len() ==> digit_of(s[k as int], radix) is None,
    ensures
        digit_run(s, radix) == k,
    decreases s.len(),
{
    if k > 0 {
        let t = s.skip(1);
        assert forall|i: int| 0 <= i < k - 1 implies digit_of(#[trigger] t[i], radix) is Some by {
            assert(t[i] == s[i + 1]);
        }
        assert(digit_of(s[0], radix) is Some);
        lemma_digit_run_is(t, radix, (k - 1) as nat);
    }
}

/// A longer prefix of digits stands for no smaller number.
proof fn lemma_value_grows(s: Seq<char>, radix: nat, i: int, j: int)
    requires
        radix >= 1,
        0 <= i <= j <= s.len(),
    ensures
        value_of(s.take(i), radix) <= value_of(s.take(j), radix),
    decreases j,
{
    if i < j {
        lemma_value_grows(s, radix, i, j - 1);
        assert(s.take(j).drop_last() == s.take(j - 1));
        let v = value_of(s.take(j - 1), radix);
        assert(v <= v * radix) by (nonlinear_arith)
            requires
                radix >= 1,
        ;
    }
}

/// The number that a row of digits stands for, if it is one and at most `max`.
pub open spec fn magnitude(s: Seq<char>, radix: nat, max: nat, over: IntError) -> Result<
    nat,
    IntError,
> {
    let k = digit_run(s, radix);
    if value_of(s.take(k as int), radix) > max {
        Err(over)
    } else if k < s.len() {
        Err(IntError::InvalidDigit)
    } else {
        Ok(value_of(s, radix))
    }
}

/// What `s` reads as: digits of the radix, `+` allowed before them, at most `max`.
pub open spec fn unsigned_of(s: Seq<char>, radix: nat, max: nat) -> Result<nat, IntError> {
    if s.len() == 0 {
        Err(IntError::Empty)
    } else if s == seq!['+'] {
        Err(IntError::InvalidDigit)
    } else if s[0] == '+' {
        magnitude(s.skip(1), radix, max, IntError::PosOverflow)
    } else {
        magnitude(s, radix, max, IntError::PosOverflow)
    }
}

/// What `s` reads as: decimal digits, `+` or `-` allowed before them, from `-low` to `high`.
pub open spec fn signed_of(s: Seq<char>, low: nat, high: nat) -> Result<int, IntError> {
    if s.len() == 0 {
        Err(IntError::Empty)
    } else if s == seq!['-'] {
        Err(IntError::InvalidDigit)
    } else if s[0] == '-' {
        match magnitude(s.skip(1), 10, low, IntError::NegOverflow) {
            Ok(n) => Ok(-(n as int)),
            Err(e) => Err(e),
        }
    } else {
        match unsigned_of(s, 10, high) {
            Ok(n) => Ok(n as int),
            Err(e) => Err(e),
        }
    }
}

/// The value of a character as a digit of the radix.
pub fn digit_value(c: char, radix: u32) -> (r: Option<u32>)
    requires
        2 <= radix <= 36,
    ensures
        match r {
            Some(d) => digit_of(c, radix as nat) == Some(d as nat) && d < radix,
            None => digit_of(c, radix as nat) is None,
        },
{
    let d: u32 = if '0' <= c && c <= '9' {
        c as u32 - '0' as u32
    } else if 'a' <= c && c <= 'z' {
        c as u32 - 'a' as u32 + 10
    } else if 'A' <= c && c <= 'Z' {
        c as u32 - 'A' as u32 + 10
    } else {
        radix
    };
    if d < radix {
        Some(d)
    } else {
        None
    }
}

/// Reads the digits from `from` on.
fn read_magnitude(v: &Vec<char>, from: usize, radix: u32, max: u128, over: IntError) -> (r: Result<
    u128,
    IntError,
>)
    requires
        2 <= radix <= 36,
        from <= v@.len(),
    ensures
        match magnitude(v@.skip(from as int), radix as nat, max as nat, over) {
            Ok(n) => r is Ok && r->Ok_0 == n,
            Err(e) => r is Err && r->Err_0 == e,
        },
{
    let ghost s = v@.skip(from as int);
    let mut acc: u128 = 0;
    let mut i: usize = from;
    while i < v.len()
        invariant
            2 <= radix <= 36,
            from <= i <= v@.len(),
            s == v@.skip(from as int),
            acc == value_of(s.take(i - from), radix as nat),
            acc <= max,
            forall|j: int| 0 <= j < i - from ==> digit_of(#[trigger] s[j], radix as nat) is Some,
        decreases v@.len() - i,
    {
        let ghost n = i - from;
        assert(s.take(n + 1).drop_last() == s.take(n));
        match digit_value(v[i], radix) {
            None => {
                proof {
                    lemma_digit_run_is(s, radix as nat, n as nat);
                }
                return Err(IntError::InvalidDigit);
            },
            Some(d) => {
                let d: u128 = d as u128;
                let ghost next = value_of(s.take(n + 1), radix as nat);
                assert(next == acc * radix + d);
                if d > max || acc > (max - d) / (radix as u128) {
                    proof {
                        let m: int = max as int;
                        let a: int = acc as int;
                        let rr: int = radix as int;
                        let dd: int = d as int;
                        if d <= max {
                            assert(a * rr + dd > m) by (nonlinear_arith)
                                requires
                                    rr >= 2,
                                    a > (m - dd) / rr,
                            ;
                        } else {
                            assert(a * rr >= 0) by (nonlinear_arith)
                                requires
                                    rr >= 2,
                                    a >= 0,
                            ;
                        }
                        lemma_digit_run(s, radix as nat);
                        let k = digit_run(s, radix as nat) as int;
                        assert(k >= n + 1) by {
                            if k <= n {
                                assert(digit_of(s[k], radix as nat) is Some);
                            }
                        }
                        lemma_value_grows(s, radix as nat, n + 1, k);
                    }
                    return Err(over);
                }
                proof {
                    let m: int = max as int;
                    let a: int = acc as int;
                    let rr: int = radix as int;
                    let dd: int = d as int;
                    assert(a * rr + dd <= m && 0 <= a * rr) by (nonlinear_arith)
                        requires
                            rr >= 2,
                            a >= 0,
                            a <= (m - dd) / rr,
                    ;
                }
                acc = acc * (radix as u128) + d;
                i = i + 1;
            },
        }
    }
    proof {
        lemma_digit_run_is(s, radix as nat, s.len());
        assert(s.take(s.len() as int) == s);
    }
    Ok(acc)
}

/// Reads an integer without a sign, in the radix, of at most `max`.
pub fn parse_unsigned(s: &str, radix: u32, max: u128) -> (r: Result<u128, IntError>)
    requires
        2 <= radix <= 36,
    ensures
        match unsigned_of(s@, radix as nat, max as nat) {
            Ok(n) => r is Ok && r->Ok_0 == n,
            Err(e) => r is Err && r->Err_0 == e,
        },
{
    let v = chars_of(s);
    if v.len() == 0 {
        return Err(IntError::Empty);
    }
    if v[0] == '+' {
        if v.len() == 1 {
            assert(s@ =~= seq!['+']);
            return Err(IntError::InvalidDigit);
        }
        return read_magnitude(&v, 1, radix, max, IntError::PosOverflow);
    }
    assert(s@.skip(0) == s@);
    read_magnitude(&v, 0, radix, max, IntError::PosOverflow)
}

/// A whole number by its sign and its distance from zero.
#[derive(Clone, Copy, Debug, PartialEq, Eq, Structural)]
pub struct Whole {
    /// Whether the number lies below zero.
    pub negative: bool,
    /// The distance from zero.
    pub size: u128,
}

impl Whole {
    /// The number.
    pub open spec fn value(self) -> int {
        if self.negative {
            -(self.size as int)
        } else {
            self.size as int
        }
    }
}

/// Reads a decimal integer with an optional sign, from `-low` to `high`.
pub fn parse_signed(s: &str, low: u128, high: u128) -> (r: Result<Whole, IntError>)
    ensures
        match signed_of(s@, low as nat, high as nat) {
            Ok(n) => r is Ok && r->Ok_0.value() == n && (r->Ok_0.negative ==> r->Ok_0.size > 0),
            Err(e) => r is Err && r->Err_0 == e,
        },
{
    let v = chars_of(s);
    if v.len() > 0 && v[0] == '-' {
        if v.len() == 1 {
            assert(s@ =~= seq!['-']);
            return Err(IntError::InvalidDigit);
        }
        return match read_magnitude(&v, 1, 10, low, IntError::NegOverflow) {
            Ok(n) => Ok(Whole { negative: n > 0, size: n }),
            Err(e) => Err(e),
        };
    }
    match parse_unsigned(s, 10, high) {
        Ok(n) => Ok(Whole { negative: false, size: n }),
        Err(e) => Err(e),
    }
}

/// The character for a digit below sixteen, in lower case.
pub open spec fn digit_char(d: nat) -> char {
    if d < 10 {
        (48 + d) as char
    } else {
        (87 + d) as char
    }
}

/// The character for a digit below sixteen, in lower case.
pub fn digit_to_char(d: u8) -> (c: char)
    requires
        d < 16,
    ensures
        c == digit_char(d as nat),
{
    if d < 10 {
        (48 + d) as char
    } else {
        (87 + d) as char
    }
}

/// The digits of a number in the radix, most significant first, without leading zeros.
pub open spec fn digits(n: nat, radix: nat) -> Seq<char>
    decreases n,
{
    if n < radix || radix < 2 {
        seq![digit_char(n)]
    } else {
        proof {
            assert(n / radix < n) by (nonlinear_arith)
                requires
                    n >= radix >= 2,
            ;
        }
        digits(n / radix, radix).push(digit_char(n % radix))
    }
}

/// Writes the digits of a number behind a string.
pub fn push_digits(out: &mut String, n: u128, radix: u128)
    requires
        2 <= radix <= 16,
    ensures
        final(out)@ == old(out)@ + digits(n as nat, radix as nat),
    decreases n,
{
    if n < radix {
        let c = digit_to_char(n as u8);
        out.push(c);
        assert(out@ =~= old(out)@ + digits(n as nat, radix as nat));
    } else {
        let q: u128 = n / radix;
        let d: u128 = n % radix;
        assert(0 <= q < n) by (nonlinear_arith)
            requires
                q == n / radix,
                n >= radix,
                radix >= 2,
        ;
        push_digits(out, q, radix);
        let ghost mid = out@;
        assert(d < 16) by (nonlinear_arith)
            requires
                d == n % radix,
                2 <= radix <= 16,
        ;
        let c = digit_to_char(d as u8);
        out.push(c);
        assert(out@ =~= old(out)@ + digits(n as nat, radix as nat));
    }
}

/// A number in decimal.
pub open spec fn decimal(n: nat) -> Seq<char> {
    digits(n, 10)
}

/// A number in lower-case hexadecimal.
pub open spec fn hex(n: nat) -> Seq<char> {
    digits(n, 16)
}

/// A whole number in decimal, with `-` before it where it lies below zero.
pub open spec fn signed_decimal(n: int) -> Seq<char> {
    if n < 0 {
        seq!['-'] + decimal((-n) as nat)
    } else {
        decimal(n as nat)
    }
}

/// Writes a number in decimal.
pub fn to_decimal(n: u128) -> (r: String)
    ensures
        r@ == decimal(n as nat),
{
    let mut out = String::new();
    push_digits(&mut out, n, 10);
    assert(out@ =~= decimal(n as nat));
    out
}

/// Writes a number in lower-case hexadecimal.
pub fn to_hex(n: u64) -> (r: String)
    ensures
        r@ == hex(n as nat),
{
    let mut out = String::new();
    push_digits(&mut out, n as u128, 16);
    assert(out@ =~= hex(n as nat));
    out
}

/// Writes a whole number in decimal.
pub fn to_signed_decimal(w: Whole) -> (r: String)
    requires
        w.negative ==> w.size > 0,
    ensures
        r@ == signed_decimal(w.value()),
{
    let mut out = String::new();
    if w.negative {
        out.push('-');
    }
    let ghost sign = out@;
    push_digits(&mut out, w.size, 10);
    assert(out@ =~= signed_decimal(w.value()));
    out
}

/// The two hexadecimal digits of a byte.
pub open spec fn byte_hex(b: u8) -> Seq<char> {
    seq![digit_char((b / 16) as nat), digit_char((b % 16) as nat)]
}

/// Writes the two hexadecimal digits of a byte behind a string.
pub fn push_byte_hex(out: &mut String, b: u8)
    ensures
        final(out)@ == old(out)@ + byte_hex(b),
{
    let hi = digit_to_char(b / 16);
    let lo = digit_to_char(b % 16);
    out.push(hi);
    out.push(lo);
    assert(out@ =~= old(out)@ + byte_hex(b));
}

/// A written digit reads back as itself.
pub proof fn lemma_digit_char(d: nat, radix: nat)
    requires
        d < radix <= 16,
    ensures
        digit_of(digit_char(d), radix) == Some(d),
        digit_char(d) != '+',
        digit_char(d) != '-',
{
}

/// The digits written for a number are digits of the radix, at least one, and stand for it.
pub proof fn lemma_digits(n: nat, radix: nat)
    requires
        2 <= radix <= 16,
    ensures
        digits(n, radix).len() > 0,
        value_of(digits(n, radix), radix) == n,
        digit_run(digits(n, radix), radix) == digits(n, radix).len(),
        digits(n, radix)[0] != '+',
        digits(n, radix)[0] != '-',
    decreases n,
{
    let s = digits(n, radix);
    if n < radix {
        lemma_digit_char(n, radix);
        assert(s.drop_last() =~= Seq::<char>::empty());
        let zero = value_of(s.drop_last(), radix);
        assert(zero * radix == 0) by (nonlinear_arith)
            requires
                zero == 0,
        ;
        lemma_digit_run_is(s, radix, 1);
    } else {
        let q = n / radix;
        let d = n % radix;
        assert(q < n) by (nonlinear_arith)
            requires
                q == n / radix,
                n >= radix,
                radix >= 2,
        ;
        assert(d < radix && q * radix + d == n) by (nonlinear_arith)
            requires
                q == n / radix,
                d == n % radix,
                radix >= 2,
        ;
        lemma_digits(q, radix);
        lemma_digit_char(d, radix);
        let t = digits(q, radix);
        assert(s.drop_last() =~= t);
        assert(s[0] == t[0]);
        lemma_digit_run(t, radix);
        assert forall|i: int| 0 <= i < s.len() implies digit_of(#[trigger] s[i], radix) is Some by {
            if i < t.len() {
                assert(s[i] == t[i]);
            }
        }
        lemma_digit_run_is(s, radix, s.len());
    }
}

/// Reading what was written: a number of at most `max` reads back from its digits as itself.
pub proof fn law_read_written(n: nat, radix: nat, max: nat)
    requires
        2 <= radix <= 16,
        n <= max,
    ensures
        unsigned_of(digits(n, radix), radix, max) == Ok::<nat, IntError>(n),
{
    lemma_digits(n, radix);
    let s = digits(n, radix);
    assert(s.take(s.len() as int) =~= s);
    assert(s != seq!['+']) by {
        assert(seq!['+'][0] == '+');
    }
}

/// Reading what was written: a whole number from `-low` to `high` reads back from its decimal
/// form as itself.
pub proof fn law_read_written_signed(n: int, low: nat, high: nat)
    requires
        -low <= n <= high,
    ensures
        signed_of(signed_decimal(n), low, high) == Ok::<int, IntError>(n),
{
    let s = signed_decimal(n);
    if n < 0 {
        let m = (-n) as nat;
        lemma_digits(m, 10);
        let t = decimal(m);
        assert(s.skip(1) =~= t);
        assert(t.take(t.len() as int) =~= t);
        assert(s.len() > 1);
        assert(s != seq!['-']);
    } else {
        law_read_written(n as nat, 10, high);
        lemma_digits(n as nat, 10);
        assert(s != seq!['-']) by {
            assert(seq!['-'][0] == '-');
        }
    }
}

/// A character is a digit of a radix up to sixteen exactly where it is one of `0` to `9`, `a` to
/// `f` or `A` to `F` and stands for less than the radix.
pub proof fn law_digit_of(c: char, radix: nat)
    requires
        2 <= radix <= 16,
    ensures
        digit_of(c, radix) matches Some(d) ==> {
            &&& d < radix
            &&& d < 10 ==> c as int == '0' as int + d
            &&& d >= 10 ==> c as int == 'a' as int + d - 10 || c as int == 'A' as int + d - 10
        },
        digit_of(c, radix) is None ==> forall|d: int|
            0 <= d < radix ==> {
                &&& d < 10 ==> c as int != #[trigger] ('0' as int + d)
                &&& d >= 10 ==> c as int != 'a' as int + d - 10 && c as int != 'A' as int + d - 10
            },
{
}

/// Reading a number from left to right: a text that reads as a number and one more digit read as
/// the number times the radix and the digit, or as too large. What is no digit spoils it, and what
/// is spoiled or too large stays so. A plus sign before digits changes nothing.
pub proof fn law_unsigned_reads(s: Seq<char>, c: char, radix: nat, max: nat)
    requires
        2 <= radix <= 16,
    ensures
        unsigned_of(Seq::empty(), radix, max) == Err::<nat, IntError>(IntError::Empty),
        unsigned_of(seq![c], radix, max) == match digit_of(c, radix) {
            Some(d) => if d <= max {
                Ok::<nat, IntError>(d)
            } else {
                Err(IntError::PosOverflow)
            },
            None => Err(IntError::InvalidDigit),
        },
        s.len() > 0 && s != seq!['+'] ==> unsigned_of(s.push(c), radix, max) == match unsigned_of(
            s,
            radix,
            max,
        ) {
            Ok(n) => match digit_of(c, radix) {
                Some(d) => if n * radix + d <= max {
                    Ok::<nat, IntError>(n * radix + d)
                } else {
                    Err(IntError::PosOverflow)
                },
                None => Err(IntError::InvalidDigit),
            },
            Err(e) => Err(e),
        },
        s.len() > 0 && s[0] != '+' ==> unsigned_of(seq!['+'] + s, radix, max) == unsigned_of(
            s,
            radix,
            max,
        ),
{
    lemma_magnitude_empty(radix, max);
    lemma_magnitude_push(Seq::empty(), c, radix, max);
    assert(Seq::<char>::empty().push(c) =~= seq![c]);
    let none = 0nat;
    assert(none * radix == 0) by (nonlinear_arith)
        requires
            none == 0,
    ;
    assert(seq!['+', c].skip(1) =~= seq![c]);
    if c == '+' {
        assert(digit_of(c, radix) is None);
        assert(seq![c] =~= seq!['+']);
    } else {
        assert(seq![c][0] != seq!['+'][0]);
    }
    if s.len() > 0 && s != seq!['+'] {
        let t = s.push(c);
        assert(t[0] == s[0]);
        assert(t.len() > 1);
        assert(t != seq!['+']);
        if s[0] == '+' {
            assert(t.skip(1) =~= s.skip(1).push(c));
            if s.len() == 1 {
                assert(s =~= seq!['+']);
            }
            lemma_magnitude_push(s.skip(1), c, radix, max);
        } else {
            lemma_magnitude_push(s, c, radix, max);
        }
    }
    if s.len() > 0 && s[0] != '+' {
        let t = seq!['+'] + s;
        assert(t.skip(1) =~= s);
        assert(t.len() > 1);
        assert(t != seq!['+']);
        assert(s != seq!['+']) by {
            assert(seq!['+'][0] == '+');
        }
    }
}

/// No digits stand for zero.
proof fn lemma_magnitude_empty(radix: nat, max: nat)
    ensures
        magnitude(Seq::empty(), radix, max, IntError::PosOverflow) == Ok::<nat, IntError>(0),
{
    assert(Seq::<char>::empty().take(0) =~= Seq::<char>::empty());
}

/// A row of digits and one more character.
proof fn lemma_magnitude_push(s: Seq<char>, c: char, radix: nat, max: nat)
    requires
        radix >= 2,
    ensures
        magnitude(s.push(c), radix, max, IntError::PosOverflow) == match magnitude(
            s,
            radix,
            max,
            IntError::PosOverflow,
        ) {
            Ok(n) => match digit_of(c, radix) {
                Some(d) => if n * radix + d <= max {
                    Ok::<nat, IntError>(n * radix + d)
                } else {
                    Err(IntError::PosOverflow)
                },
                None => Err(IntError::InvalidDigit),
            },
            Err(e) => Err(e),
        },
{
    let t = s.push(c);
    let k = digit_run(s, radix);
    lemma_digit_run(s, radix);
    if k < s.len() {
        assert forall|i: int| 0 <= i < k implies digit_of(#[trigger] t[i], radix) is Some by {
            assert(t[i] == s[i]);
        }
        assert(t[k as int] == s[k as int]);
        lemma_digit_run_upto(t, radix, k);
        assert(t.take(k as int) =~= s.take(k as int));
    } else {
        assert(s.take(k as int) =~= s);
        assert(t.drop_last() =~= s);
        assert forall|i: int| 0 <= i < k implies digit_of(#[trigger] t[i], radix) is Some by {
            assert(t[i] == s[i]);
        }
        if digit_of(c, radix) is Some {
            lemma_digit_run_upto(t, radix, t.len());
            assert(t.take(t.len() as int) =~= t);
            if value_of(s, radix) > max {
                let v = value_of(s, radix);
                assert(v <= v * radix) by (nonlinear_arith)
                    requires
                        radix >= 1,
                ;
            }
        } else {
            lemma_digit_run_upto(t, radix, k);
            assert(t.take(k as int) =~= s);
        }
    }
}

/// The run of digits ends where the first other character stands.
proof fn lemma_digit_run_upto(s: Seq<char>, radix: nat, k: nat)
    requires
        k <= s.len(),
        forall|i: int| 0 <= i < k ==> digit_of(#[trigger] s[i], radix) is Some,
        k < s.len() ==> digit_of(s[k as int], radix) is None,
    ensures
        digit_run(s, radix) == k,
    decreases k,
{
    if k > 0 {
        let rest = s.skip(1);
        assert forall|i: int| 0 <= i < k - 1 implies digit_of(#[trigger] rest[i], radix) is Some by {
            assert(rest[i] == s[i + 1]);
        }
        lemma_digit_run_upto(rest, radix, (k - 1) as nat);
    }
}

/// A whole number without a minus sign reads as a number without a sign does. Behind a minus sign
/// digits alone read as the number below zero; too large there is too small here.
pub proof fn law_signed_reads(s: Seq<char>, low: nat, high: nat)
    ensures
        s.len() == 0 || s[0] != '-' ==> signed_of(s, low, high) == match unsigned_of(s, 10, high) {
            Ok(n) => Ok::<int, IntError>(n as int),
            Err(e) => Err(e),
        },
        s.len() > 0 && s[0] != '+' ==> signed_of(seq!['-'] + s, low, high) == match unsigned_of(
            s,
            10,
            low,
        ) {
            Ok(n) => Ok::<int, IntError>(-(n as int)),
            Err(IntError::PosOverflow) => Err(IntError::NegOverflow),
            Err(e) => Err(e),
        },
        signed_of(seq!['-'], low, high) == Err::<int, IntError>(IntError::InvalidDigit),
        s.len() > 0 && s[0] == '+' ==> signed_of(seq!['-'] + s, low, high) == Err::<int, IntError>(
            IntError::InvalidDigit,
        ),
{
    if s.len() > 0 && s[0] != '-' {
        assert(s != seq!['-']) by {
            assert(seq!['-'][0] == '-');
        }
    }
    if s.len() > 0 {
        let t = seq!['-'] + s;
        assert(t.skip(1) =~= s);
        assert(t.len() > 1);
        assert(t != seq!['-']);
        if s[0] == '+' {
            assert(s.take(0) =~= Seq::<char>::empty());
        } else {
            assert(s != seq!['+']) by {
                assert(seq!['+'][0] == '+');
            }
        }
    }
}

/// Writing a number from left to right: its digits are those of the number without its last digit,
/// and that digit; a number below the radix is one digit. Digits are `0` to `9` and `a` to `f`.
pub proof fn law_digits(n: nat, d: nat, radix: nat)
    requires
        2 <= radix <= 16,
        d < radix,
    ensures
        digits(d, radix) == seq![digit_char(d)],
        n > 0 ==> digits(n * radix + d, radix) == digits(n, radix).push(digit_char(d)),
        d < 10 ==> digit_char(d) as int == '0' as int + d,
        d >= 10 ==> digit_char(d) as int == 'a' as int + d - 10,
{
    if n > 0 {
        let m = n * radix + d;
        assert(m >= radix && m / radix == n && m % radix == d) by (nonlinear_arith)
            requires
                m == n * radix + d,
                n > 0,
                d < radix,
                radix >= 2,
        ;
    }
}

/// Numbers in decimal and in hexadecimal are their digits in those radices; below zero a minus sign
/// stands before them. A byte in hexadecimal always has two digits.
pub proof fn law_number_forms(n: nat, b: u8)
    ensures
        decimal(n) == digits(n, 10),
        hex(n) == digits(n, 16),
        signed_decimal(n as int) == digits(n, 10),
        n > 0 ==> signed_decimal(-(n as int)) == seq!['-'] + digits(n, 10),
        b >= 16 ==> byte_hex(b) == digits(b as nat, 16),
        b < 16 ==> byte_hex(b) == seq!['0'] + digits(b as nat, 16),
{
    if b >= 16 {
        law_digits((b / 16) as nat, (b % 16) as nat, 16);
        law_digits(0, (b / 16) as nat, 16);
        assert(byte_hex(b) =~= digits(b as nat, 16));
    } else {
        assert(byte_hex(b) =~= seq!['0'] + digits(b as nat, 16));
    }
}

/// A number is its distance from zero, with a minus sign where it lies below.
pub proof fn law_whole(n: u128)
    ensures
        (Whole { negative: false, size: n }).value() == n,
        (Whole { negative: true, size: n }).value() == -(n as int),
{
}

/// What is wrong with a number, in words.
pub proof fn law_number_errors()
    ensures
        IntError::Empty.words() == "cannot parse integer from empty string"@,
        IntError::InvalidDigit.words() == "invalid digit found in string"@,
        IntError::PosOverflow.words() == "number too large to fit in target type"@,
        IntError::NegOverflow.words() == "number too small to fit in target type"@,
{
}

} // verus!

//! The chain of connectors and operating systems through which a target is reached.

use memflow::plugins::{ConnectorChain, OsChain};
use vstd::prelude::*;

use crate::error::{from_memory, ScanflowError};
use crate::number::{
    digit_of, digits, law_read_written, lemma_digit_run, lemma_digits, lemma_unsigned_range,
    parse_unsigned, unsigned_of,
};
use crate::text::{chars_of, lemma_views_push, opt_view, owned, same, string_of, views};

verus! {

/// `memflow::plugins::OsChain`, a chain that ends with an operating system.
#[verifier::external_type_specification]
#[verifier::external_body]
pub struct ExOsChain<'a>(OsChain<'a>);

/// `memflow::plugins::ConnectorChain`, a chain that ends with a connector.
#[verifier::external_type_specification]
#[verifier::external_body]
pub struct ExConnectorChain<'a>(ConnectorChain<'a>);

/// Whether the entries are names alone, without arguments behind a colon.
pub open spec fn names_only(entries: Seq<Seq<char>>) -> bool {
    forall|i: int| 0 <= i < entries.len() ==> !(#[trigger] entries[i]).contains(':')
}

/// Whether so many connectors and operating systems, taken in turns, end with an operating system.
pub open spec fn ends_with_os(connectors: nat, os: nat) -> bool {
    (connectors == os && os > 0) || (connectors == 0 && os == 1)
}

/// Whether so many connectors and operating systems, taken in turns, end with a connector.
pub open spec fn ends_with_connector(connectors: nat, os: nat) -> bool {
    connectors == os + 1
}

/// How many bytes the unit of a size stands for, if it is one.
pub open spec fn unit_size(c: char) -> Option<nat> {
    if c == 'k' {
        Some(0x400)
    } else if c == 'm' {
        Some(0x10_0000)
    } else if c == 'g' {
        Some(0x4000_0000)
    } else {
        None
    }
}

/// Whether a number of units can be read, but is too large to be counted in bytes.
pub open spec fn too_large(number: Seq<char>, unit: nat) -> bool {
    unsigned_of(number, 16, usize::MAX as nat) matches Ok(n) && n * unit > usize::MAX
}

/// Whether a text is a unit of size, any number of times: its letter, or its letter and `b`.
pub open spec fn is_unit(s: Seq<char>) -> bool {
    ||| forall|i: int| 0 <= i < s.len() ==> #[trigger] s[i] == s[0]
    ||| s.len() % 2 == 0 && forall|i: int|
        0 <= i < s.len() ==> #[trigger] s[i] == (if i % 2 == 0 {
            s[0]
        } else {
            'b'
        })
}

/// Whether the value of a cache size is a number of the length given and a unit, and too large to
/// be counted in bytes.
pub open spec fn oversized_at(value: Seq<char>, n: int) -> bool {
    &&& 0 <= n < value.len()
    &&& forall|i: int| 0 <= i < n ==> unit_size(#[trigger] value[i]) is None
    &&& unit_size(value[n]) matches Some(bytes) && too_large(value.take(n), bytes)
    &&& is_unit(value.skip(n))
}

/// Whether the value of a cache size is too large to be counted in bytes.
pub open spec fn oversized(value: Seq<char>) -> bool {
    exists|n: int| oversized_at(value, n)
}

/// How many characters stand before the first `c`, or in all where there is none.
pub open spec fn run_to(s: Seq<char>, c: char) -> nat
    decreases s.len(),
{
    if s.len() == 0 || s[0] == c {
        0
    } else {
        1 + run_to(s.skip(1), c)
    }
}

/// The name in an entry: what stands before its first colon.
pub open spec fn name_in(s: Seq<char>) -> Seq<char> {
    s.take(run_to(s, ':') as int)
}

/// The arguments in an entry: what stands behind its first colon.
pub open spec fn arguments_in(s: Seq<char>) -> Seq<char> {
    if run_to(s, ':') < s.len() {
        s.skip(run_to(s, ':') as int + 1)
    } else {
        Seq::empty()
    }
}

/// Whether a character is a quote.
pub open spec fn is_quote(c: char) -> bool {
    c == '"' || c == '\'' || c == '`'
}

/// The quote that is open at the end of a text, if any. A quote opens or closes only where no
/// backslash stands before it, and only its like closes it.
pub open spec fn open_quote(s: Seq<char>) -> Option<char>
    decreases s.len(),
{
    if s.len() == 0 {
        None
    } else {
        let before = open_quote(s.drop_last());
        if is_quote(s.last()) && !(s.len() > 1 && s[s.len() - 2] == '\\') {
            match before {
                None => Some(s.last()),
                Some(c) => if c == s.last() {
                    None
                } else {
                    before
                },
            }
        } else {
            before
        }
    }
}

/// What stands between the separators of a text that are not quoted, from its beginning to its end.
pub open spec fn pieces_of(s: Seq<char>, separator: char) -> Seq<Seq<char>>
    decreases s.len(),
{
    if s.len() == 0 {
        seq![Seq::empty()]
    } else {
        let before = pieces_of(s.drop_last(), separator);
        if s.last() == separator && open_quote(s) is None {
            before.push(Seq::empty())
        } else {
            before.drop_last().push(before.last().push(s.last()))
        }
    }
}

/// A text without the quotes around it.
pub open spec fn unquoted(s: Seq<char>) -> Seq<char> {
    if s.len() > 0 && is_quote(s[0]) && s.last() == s[0] {
        if s.len() > 1 {
            s.subrange(1, s.len() - 1)
        } else {
            Seq::empty()
        }
    } else {
        s
    }
}

/// The pieces of a text, each without the quotes around it.
pub open spec fn split_of(s: Seq<char>, separator: char) -> Seq<Seq<char>> {
    let pieces = pieces_of(s, separator);
    Seq::new(pieces.len(), |i: int| unquoted(pieces[i]))
}

/// The settings in the entry of a connector: the third group of its arguments.
pub open spec fn settings_in(s: Seq<char>) -> Option<Seq<char>> {
    let groups = split_of(arguments_in(s), ':');
    if groups.len() > 2 {
        Some(groups[2])
    } else {
        None
    }
}

/// The key and the value of a setting, where it has both.
pub open spec fn pair_of(s: Seq<char>) -> Option<(Seq<char>, Seq<char>)> {
    let parts = split_of(s, '=');
    if parts.len() == 2 {
        Some((parts[0], parts[1]))
    } else {
        None
    }
}

/// A text up to its first NUL.
pub open spec fn cut(s: Seq<char>) -> Seq<char> {
    s.take(run_to(s, '\0') as int)
}

/// Whether a setting is replaced by a later one with the same key.
pub open spec fn replaced(settings: Seq<Seq<char>>, i: int) -> bool {
    exists|j: int|
        i < j < settings.len() && pair_of(#[trigger] settings[j]) is Some && pair_of(
            settings[j],
        ).unwrap().0 == pair_of(settings[i]).unwrap().0
}

/// The cache size that a setting gives, where it gives one and no later one replaces it. Keys and
/// values end at a NUL.
pub open spec fn size_at(settings: Seq<Seq<char>>, i: int) -> Option<Seq<char>> {
    match pair_of(settings[i]) {
        Some((key, value)) => if cut(key) == "cache_size"@ && !replaced(settings, i) {
            Some(cut(value))
        } else {
            None
        },
        None => None,
    }
}

/// Whether no cache size among the settings is too large to be counted in bytes.
pub open spec fn sizes_fit(settings: Seq<Seq<char>>) -> bool {
    forall|i: int|
        0 <= i < settings.len() ==> (#[trigger] size_at(settings, i) matches Some(value)
            ==> !oversized(value))
}

/// Whether no cache size in the entry of a connector is too large to be counted in bytes.
pub open spec fn entry_fits(s: Seq<char>) -> bool {
    settings_in(s) matches Some(settings) ==> sizes_fit(split_of(settings, ','))
}

/// Whether no cache size in the entries of connectors is too large to be counted in bytes.
pub open spec fn entries_in_bounds(entries: Seq<Seq<char>>) -> bool {
    forall|e: int| 0 <= e < entries.len() ==> entry_fits(#[trigger] entries[e])
}

/// Whether the settings in the entries of connectors hold no NUL.
pub open spec fn no_nul(entries: Seq<Seq<char>>) -> bool {
    forall|e: int|
        0 <= e < entries.len() ==> (settings_in(#[trigger] entries[e]) matches Some(settings)
            ==> !settings.contains('\0'))
}

/// The target in an entry: the first group of its arguments, up to a NUL, where it is not empty.
pub open spec fn target_in(s: Seq<char>) -> Option<Seq<char>> {
    let group = split_of(arguments_in(s), ':')[0];
    if group.len() == 0 {
        None
    } else {
        Some(cut(group))
    }
}

/// The steps that entries make when they are taken in turns, a connector first: whether each is an
/// operating system, its name, and its target.
pub open spec fn steps_of(connectors: Seq<Seq<char>>, os: Seq<Seq<char>>) -> Seq<
    (bool, Seq<char>, Option<Seq<char>>),
> {
    Seq::new(
        connectors.len() + os.len(),
        |i: int|
            if connectors.len() == 0 {
                (true, name_in(os[i]), target_in(os[i]))
            } else if i % 2 == 0 {
                (false, name_in(connectors[i / 2]), target_in(connectors[i / 2]))
            } else {
                (true, name_in(os[i / 2]), target_in(os[i / 2]))
            },
    )
}

/// The words of an error, if there is one.
pub open spec fn error_of<C>(r: Result<C, String>) -> Option<Seq<char>> {
    match r {
        Ok(_) => None,
        Err(text) => Some(text@),
    }
}

/// The words for entries that make no chain.
pub open spec fn no_chain_words() -> Seq<char> {
    "other: the argument could not be validated"@
}

/// What is wrong with the entries of a chain to an operating system, if anything, on a machine with
/// a largest `usize`.
pub uninterp spec fn os_chain_error(
    connectors: Seq<Seq<char>>,
    os: Seq<Seq<char>>,
    word: int,
) -> Option<Seq<char>>;

/// What is wrong with the entries of a chain to a connector, if anything, on a machine with a
/// largest `usize`.
pub uninterp spec fn connector_chain_error(
    connectors: Seq<Seq<char>>,
    os: Seq<Seq<char>>,
    word: int,
) -> Option<Seq<char>>;

/// The steps of a chain to an operating system: whether each is an operating system, its name, and
/// its target.
pub uninterp spec fn os_steps(chain: OsChain) -> Seq<(bool, Seq<char>, Option<Seq<char>>)>;

/// The steps of a chain to a connector: whether each is an operating system, its name, and its
/// target.
pub uninterp spec fn connector_steps(chain: ConnectorChain) -> Seq<
    (bool, Seq<char>, Option<Seq<char>>),
>;

/// `memflow::plugins::OsChain::new` takes connectors and operating systems in turns, a connector
/// first, by their positions. It makes a chain only where no two of a kind follow each other and
/// the last is an operating system. Each entry is a step of the chain: its name stands before the
/// first colon, and its target is the first group of the arguments behind it. What other arguments
/// a step holds is not said. Entries that are names alone are always well-formed; which arguments
/// are, is left to the name. Left out is a cache size that is too large, on which the call may
/// panic. Where the settings of a connector hold a NUL, nothing is said of the error: keys are cut
/// at it, and of two that become equal, either may be taken.
#[verifier::external_body]
fn new_os_chain<'a>(connectors: &'a Vec<String>, os: &'a Vec<String>) -> (r: Result<
    OsChain<'a>,
    String,
>)
    requires
        entries_in_bounds(views(connectors@)),
    ensures
        no_nul(views(connectors@)) ==> error_of(r) == os_chain_error(
            views(connectors@),
            views(os@),
            usize::MAX as int,
        ),
        r matches Ok(chain) ==> os_steps(chain) == steps_of(views(connectors@), views(os@)),
        r is Ok ==> ends_with_os(connectors@.len(), os@.len()),
        names_only(views(connectors@)) && names_only(views(os@)) ==> error_of(r) == (
        if ends_with_os(connectors@.len(), os@.len()) {
            None
        } else {
            Some(no_chain_words())
        }),
{
    let connectors = connectors.iter().enumerate().map(|(i, s)| (i, s.as_str()));
    let os = os.iter().enumerate().map(|(i, s)| (i, s.as_str()));
    OsChain::new(connectors, os).map_err(|e| e.to_string())
}

/// `memflow::plugins::ConnectorChain::new` makes a chain as `OsChain::new` does, but only where the
/// last entry is a connector.
#[verifier::external_body]
fn new_connector_chain<'a>(connectors: &'a Vec<String>, os: &'a Vec<String>) -> (r: Result<
    ConnectorChain<'a>,
    String,
>)
    requires
        entries_in_bounds(views(connectors@)),
    ensures
        no_nul(views(connectors@)) ==> error_of(r) == connector_chain_error(
            views(connectors@),
            views(os@),
            usize::MAX as int,
        ),
        r matches Ok(chain) ==> connector_steps(chain) == steps_of(views(connectors@), views(os@)),
        r is Ok ==> ends_with_connector(connectors@.len(), os@.len()),
        names_only(views(connectors@)) && names_only(views(os@)) ==> error_of(r) == (
        if ends_with_connector(connectors@.len(), os@.len()) {
            None
        } else {
            Some(no_chain_words())
        }),
{
    let connectors = connectors.iter().enumerate().map(|(i, s)| (i, s.as_str()));
    let os = os.iter().enumerate().map(|(i, s)| (i, s.as_str()));
    ConnectorChain::new(connectors, os).map_err(|e| e.to_string())
}

/// How many bytes the unit of a size stands for.
fn bytes_of_unit(c: char) -> (r: Option<u128>)
    ensures
        match unit_size(c) {
            Some(n) => r == Some(n as u128),
            None => r is None,
        },
{
    if c == 'k' {
        Some(0x400)
    } else if c == 'm' {
        Some(0x10_0000)
    } else if c == 'g' {
        Some(0x4000_0000)
    } else {
        None
    }
}

/// Whether the number from `from` to `unit`, where its unit stands, is too large to be counted in
/// bytes.
fn is_too_large(v: &Vec<char>, from: usize, unit: usize) -> (r: bool)
    requires
        from <= unit < v@.len(),
    ensures
        r == (unit_size(v@[unit as int]) matches Some(bytes) && too_large(
            v@.subrange(from as int, unit as int),
            bytes,
        )),
{
    let text = string_of(v, from, unit);
    match (
        parse_unsigned(text.as_str(), 16, usize::MAX as u128),
        bytes_of_unit(v[unit]),
    ) {
        (Ok(n), Some(bytes)) => {
            assert(n <= usize::MAX) by {
                lemma_unsigned_range(text@, 16, usize::MAX as nat);
            }
            assert(n * bytes <= usize::MAX * 0x4000_0000) by (nonlinear_arith)
                requires
                    n <= usize::MAX,
                    bytes <= 0x4000_0000,
            ;
            n * bytes > usize::MAX as u128
        },
        _ => false,
    }
}

/// The first `c` of a text stands where nothing before it is one.
proof fn lemma_run_to(s: Seq<char>, c: char, n: int)
    requires
        0 <= n <= s.len(),
        forall|i: int| 0 <= i < n ==> #[trigger] s[i] != c,
        n < s.len() ==> s[n] == c,
    ensures
        run_to(s, c) == n,
    decreases s.len(),
{
    if n > 0 {
        let rest = s.skip(1);
        assert forall|i: int| 0 <= i < n - 1 implies #[trigger] rest[i] != c by {
            assert(rest[i] == s[i + 1]);
        }
        lemma_run_to(rest, c, n - 1);
    }
}

/// Where the first `c` of a text stands.
fn find_char(v: &Vec<char>, c: char) -> (r: usize)
    ensures
        r == run_to(v@, c),
        r <= v@.len(),
{
    let mut n: usize = 0;
    while n < v.len() && v[n] != c
        invariant
            n <= v@.len(),
            forall|i: int| 0 <= i < n ==> #[trigger] v@[i] != c,
        decreases v@.len() - n,
    {
        n = n + 1;
    }
    proof {
        lemma_run_to(v@, c, n as int);
    }
    n
}

/// A text up to its first NUL.
fn cut_text(text: &str) -> (r: String)
    ensures
        r@ == cut(text@),
{
    let v = chars_of(text);
    let n = find_char(&v, '\0');
    assert(v@.subrange(0, n as int) =~= v@.take(n as int));
    string_of(&v, 0, n)
}

/// A text without the quotes around it.
fn unquote(text: &str) -> (r: String)
    ensures
        r@ == unquoted(text@),
{
    let v = chars_of(text);
    let n: usize = v.len();
    if n > 0 && (v[0] == '"' || v[0] == '\'' || v[0] == '`') && v[n - 1] == v[0] {
        if n > 1 {
            string_of(&v, 1, n - 1)
        } else {
            let r = String::new();
            assert(r@ =~= Seq::empty());
            r
        }
    } else {
        owned(text)
    }
}

/// Splits a text at the separators that are not quoted.
fn split_raw(text: &str, separator: char) -> (r: Vec<String>)
    ensures
        views(r@) == pieces_of(text@, separator),
{
    let v = chars_of(text);
    let mut out: Vec<String> = Vec::new();
    let mut piece = String::new();
    let mut quote: Option<char> = None;
    assert(views(out@).push(piece@) =~= pieces_of(v@.take(0), separator));
    for i in 0..v.len()
        invariant
            v@ == text@,
            quote == open_quote(v@.take(i as int)),
            views(out@).push(piece@) == pieces_of(v@.take(i as int), separator),
    {
        let ghost before = views(out@);
        let ghost part = piece@;
        assert(v@.take(i + 1).drop_last() =~= v@.take(i as int));
        assert(before.push(part).drop_last() =~= before);
        let c: char = v[i];
        if (c == '"' || c == '\'' || c == '`') && !(i > 0 && v[i - 1] == '\\') {
            quote = match quote {
                None => Some(c),
                Some(q) => if q == c {
                    None
                } else {
                    Some(q)
                },
            };
        }
        assert(quote == open_quote(v@.take(i + 1)));
        if c == separator && quote.is_none() {
            proof {
                lemma_views_push(out@, piece);
            }
            out.push(piece);
            piece = String::new();
            assert(piece@ =~= Seq::empty());
        } else {
            piece.push(c);
        }
        assert(views(out@).push(piece@) == pieces_of(v@.take(i + 1), separator));
    }
    assert(v@.take(v@.len() as int) =~= text@);
    proof {
        lemma_views_push(out@, piece);
    }
    out.push(piece);
    out
}

/// Splits a text at the separators that are not quoted, and takes the quotes around the pieces
/// away.
fn split_text(text: &str, separator: char) -> (r: Vec<String>)
    ensures
        views(r@) == split_of(text@, separator),
        r@.len() == split_of(text@, separator).len(),
{
    let pieces = split_raw(text, separator);
    let ghost raw = pieces_of(text@, separator);
    assert(pieces@.len() == raw.len());
    let mut out: Vec<String> = Vec::new();
    for i in 0..pieces.len()
        invariant
            views(pieces@) == raw,
            pieces@.len() == raw.len(),
            raw == pieces_of(text@, separator),
            out@.len() == i,
            forall|j: int| 0 <= j < i ==> (#[trigger] out@[j])@ == split_of(text@, separator)[j],
    {
        assert(raw[i as int] == pieces@[i as int]@);
        out.push(unquote(pieces[i].as_str()));
    }
    assert(views(out@) =~= split_of(text@, separator));
    out
}

/// The key and the value of a setting.
fn split_pair(text: &str) -> (r: Option<(String, String)>)
    ensures
        match r {
            Some((key, value)) => pair_of(text@) == Some((key@, value@)),
            None => pair_of(text@) is None,
        },
{
    let mut parts = split_text(text, '=');
    if parts.len() != 2 {
        return None;
    }
    assert(views(parts@)[0] == parts@[0]@);
    assert(views(parts@)[1] == parts@[1]@);
    let value = parts.remove(1);
    let key = parts.remove(0);
    Some((key, value))
}

/// Whether a setting is replaced by a later one with the same key.
fn is_replaced(settings: &Vec<String>, i: usize, key: &str) -> (r: bool)
    requires
        i < settings@.len(),
        pair_of(settings@[i as int]@) is Some,
        pair_of(settings@[i as int]@).unwrap().0 == key@,
    ensures
        r == replaced(views(settings@), i as int),
{
    let ghost all = views(settings@);
    assert(all[i as int] == settings@[i as int]@);
    for j in i + 1..settings.len()
        invariant
            all == views(settings@),
            i < settings@.len(),
            pair_of(all[i as int]) is Some,
            pair_of(all[i as int]).unwrap().0 == key@,
            forall|k: int|
                i < k < j ==> (pair_of(#[trigger] all[k]) matches Some((other, _)) ==> other
                    != key@),
    {
        assert(all[j as int] == settings@[j as int]@);
        if let Some((other, _)) = split_pair(settings[j].as_str()) {
            if same(other.as_str(), key) {
                return true;
            }
        }
    }
    assert(all.len() == settings@.len());
    false
}

/// Whether the rest of a text is a unit of size, any number of times.
fn unit_from(v: &Vec<char>, n: usize) -> (r: bool)
    requires
        n < v@.len(),
    ensures
        r == is_unit(v@.skip(n as int)),
{
    let ghost s = v@.skip(n as int);
    let mut letters: bool = true;
    let mut pairs: bool = (v.len() - n) % 2 == 0;
    for i in n..v.len()
        invariant
            n < v@.len(),
            s == v@.skip(n as int),
            letters == forall|j: int| 0 <= j < i - n ==> #[trigger] s[j] == s[0],
            pairs == (s.len() % 2 == 0 && forall|j: int|
                0 <= j < i - n ==> #[trigger] s[j] == (if j % 2 == 0 {
                    s[0]
                } else {
                    'b'
                })),
    {
        assert(s[i - n] == v@[i as int]);
        let wanted: char = if (i - n) % 2 == 0 {
            v[n]
        } else {
            'b'
        };
        letters = letters && v[i] == v[n];
        pairs = pairs && v[i] == wanted;
    }
    letters || pairs
}

/// Whether the value of a cache size is too large to be counted in bytes.
fn is_oversized(value: &str) -> (r: bool)
    ensures
        r == oversized(value@),
{
    let v = chars_of(value);
    let mut n: usize = 0;
    while n < v.len() && bytes_of_unit(v[n]).is_none()
        invariant
            v@ == value@,
            n <= v@.len(),
            forall|i: int| 0 <= i < n ==> unit_size(#[trigger] v@[i]) is None,
        decreases v@.len() - n,
    {
        n = n + 1;
    }
    assert forall|m: int| #[trigger] oversized_at(value@, m) implies m == n by {
        if m < n {
            assert(unit_size(v@[m]) is None);
        }
        if m > n {
            assert(unit_size(v@[n as int]) is None);
        }
    }
    if n == v.len() {
        return false;
    }
    assert(v@.subrange(0, n as int) =~= v@.take(n as int));
    let r = is_too_large(&v, 0, n) && unit_from(&v, n);
    assert(r ==> oversized_at(value@, n as int));
    r
}

/// The cache size that a setting gives, where it gives one and no later one replaces it.
fn find_size(settings: &Vec<String>, i: usize) -> (r: Option<String>)
    requires
        i < settings@.len(),
    ensures
        opt_view(r) == size_at(views(settings@), i as int),
{
    assert(views(settings@)[i as int] == settings@[i as int]@);
    match split_pair(settings[i].as_str()) {
        Some((key, value)) => {
            let name = cut_text(key.as_str());
            if same(name.as_str(), "cache_size") && !is_replaced(settings, i, key.as_str()) {
                Some(cut_text(value.as_str()))
            } else {
                None
            }
        },
        None => None,
    }
}

/// Whether no cache size in the entry of a connector is too large to be counted in bytes.
fn check_entry(entry: &str) -> (r: bool)
    ensures
        r == entry_fits(entry@),
{
    let v = chars_of(entry);
    let n = find_char(&v, ':');
    if n == v.len() {
        proof {
            reveal_with_fuel(pieces_of, 2);
        }
        assert(arguments_in(entry@) =~= Seq::empty());
        return true;
    }
    let arguments = string_of(&v, n + 1, v.len());
    assert(arguments@ =~= arguments_in(entry@));
    let groups = split_text(arguments.as_str(), ':');
    if groups.len() <= 2 {
        return true;
    }
    assert(views(groups@)[2] == groups@[2]@);
    let settings = split_text(groups[2].as_str(), ',');
    let ghost all = split_of(groups@[2]@, ',');
    for i in 0..settings.len()
        invariant
            settings_in(entry@) == Some(groups@[2]@),
            all == split_of(groups@[2]@, ','),
            all == views(settings@),
            all.len() == settings@.len(),
            forall|j: int|
                0 <= j < i ==> (#[trigger] size_at(all, j) matches Some(value) ==> !oversized(
                    value,
                )),
    {
        if let Some(value) = find_size(&settings, i) {
            if is_oversized(value.as_str()) {
                assert(size_at(all, i as int) == Some(value@));
                return false;
            }
        }
    }
    true
}

/// Whether no cache size in the entries of connectors is too large to be counted in bytes.
pub fn entries_fit(entries: &Vec<String>) -> (r: bool)
    ensures
        r == entries_in_bounds(views(entries@)),
{
    for i in 0..entries.len()
        invariant
            forall|e: int| 0 <= e < i ==> entry_fits(#[trigger] views(entries@)[e]),
    {
        assert(views(entries@)[i as int] == entries@[i as int]@);
        if !check_entry(entries[i].as_str()) {
            return false;
        }
    }
    assert(views(entries@).len() == entries@.len());
    true
}

/// Whether a result is a chain, or the error with certain words.
pub open spec fn chain_or_error<C>(r: Result<C, ScanflowError>, error: Option<Seq<char>>) -> bool {
    match error {
        None => r is Ok,
        Some(words) => r matches Err(ScanflowError::Memory(text)) && text@ == words,
    }
}

/// The chain to an operating system.
pub fn build_os_chain<'a>(connectors: &'a Vec<String>, os: &'a Vec<String>) -> (r: Result<
    OsChain<'a>,
    ScanflowError,
>)
    requires
        entries_in_bounds(views(connectors@)),
    ensures
        no_nul(views(connectors@)) ==> chain_or_error(
            r,
            os_chain_error(views(connectors@), views(os@), usize::MAX as int),
        ),
        r matches Ok(chain) ==> os_steps(chain) == steps_of(views(connectors@), views(os@)),
        r is Err ==> r->Err_0 is Memory,
        r is Ok ==> ends_with_os(connectors@.len(), os@.len()),
        names_only(views(connectors@)) && names_only(views(os@)) ==> chain_or_error(
            r,
            if ends_with_os(connectors@.len(), os@.len()) {
                None
            } else {
                Some(no_chain_words())
            },
        ),
{
    from_memory(new_os_chain(connectors, os))
}

/// The chain to a connector.
pub fn build_connector_chain<'a>(connectors: &'a Vec<String>, os: &'a Vec<String>) -> (r: Result<
    ConnectorChain<'a>,
    ScanflowError,
>)
    requires
        entries_in_bounds(views(connectors@)),
    ensures
        no_nul(views(connectors@)) ==> chain_or_error(
            r,
            connector_chain_error(views(connectors@), views(os@), usize::MAX as int),
        ),
        r matches Ok(chain) ==> connector_steps(chain) == steps_of(views(connectors@), views(os@)),
        r is Err ==> r->Err_0 is Memory,
        r is Ok ==> ends_with_connector(connectors@.len(), os@.len()),
        names_only(views(connectors@)) && names_only(views(os@)) ==> chain_or_error(
            r,
            if ends_with_connector(connectors@.len(), os@.len()) {
                None
            } else {
                Some(no_chain_words())
            },
        ),
{
    from_memory(new_connector_chain(connectors, os))
}

/// How the target is reached.
pub enum Chain<O, C> {
    /// Through an operating system, to one of its processes.
    Os(O),
    /// Through a connector, to raw memory.
    Connector(C),
}

/// Whether a result is the chain to an operating system where there is one, and otherwise the chain
/// to a connector or the error of that.
pub open spec fn chosen<O, C>(
    r: Result<Chain<O, C>, ScanflowError>,
    os_error: Option<Seq<char>>,
    connector_error: Option<Seq<char>>,
) -> bool {
    match (os_error, connector_error) {
        (None, _) => r matches Ok(Chain::Os(_)),
        (Some(_), None) => r matches Ok(Chain::Connector(_)),
        (Some(_), Some(words)) => r matches Err(ScanflowError::Memory(text)) && text@ == words,
    }
}

/// The chain where there is none to an operating system: the one to a connector, or its error.
pub fn fall_back<O, C>(connector: Result<C, ScanflowError>) -> (r: Result<
    Chain<O, C>,
    ScanflowError,
>)
    ensures
        r == match connector {
            Ok(c) => Ok::<Chain<O, C>, ScanflowError>(Chain::Connector(c)),
            Err(e) => Err(e),
        },
{
    match connector {
        Ok(c) => Ok(Chain::Connector(c)),
        Err(e) => Err(e),
    }
}

/// The chain through which the target is reached: to an operating system where the entries make
/// such a chain, and otherwise to a connector.
pub fn build_chain<'a>(connectors: &'a Vec<String>, os: &'a Vec<String>) -> (r: Result<
    Chain<OsChain<'a>, ConnectorChain<'a>>,
    ScanflowError,
>)
    requires
        entries_in_bounds(views(connectors@)),
    ensures
        no_nul(views(connectors@)) ==> chosen(
            r,
            os_chain_error(views(connectors@), views(os@), usize::MAX as int),
            connector_chain_error(views(connectors@), views(os@), usize::MAX as int),
        ),
        r matches Ok(Chain::Os(chain)) ==> os_steps(chain) == steps_of(
            views(connectors@),
            views(os@),
        ),
        r matches Ok(Chain::Connector(chain)) ==> connector_steps(chain) == steps_of(
            views(connectors@),
            views(os@),
        ),
        r is Err ==> r->Err_0 is Memory,
        r matches Ok(Chain::Os(_)) ==> ends_with_os(connectors@.len(), os@.len()),
        r matches Ok(Chain::Connector(_)) ==> ends_with_connector(connectors@.len(), os@.len()),
        names_only(views(connectors@)) && names_only(views(os@)) ==> if ends_with_os(
            connectors@.len(),
            os@.len(),
        ) {
            r matches Ok(Chain::Os(_))
        } else if ends_with_connector(connectors@.len(), os@.len()) {
            r matches Ok(Chain::Connector(_))
        } else {
            r matches Err(ScanflowError::Memory(text)) && text@ == no_chain_words()
        },
{
    match build_os_chain(connectors, os) {
        Ok(chain) => Ok(Chain::Os(chain)),
        Err(_) => fall_back(build_connector_chain(connectors, os)),
    }
}

/// Connectors and operating systems taken in turns: one more connector than operating systems ends
/// with a connector, and one more operating system behind that ends with an operating system. An
/// operating system alone is a chain too. No chain ends with both, and nothing else is a chain.
pub proof fn law_turns(n: nat, connectors: nat, os: nat)
    ensures
        ends_with_connector(n + 1, n) && ends_with_os(n + 1, n + 1) && ends_with_os(0, 1),
        !(ends_with_connector(connectors, os) && ends_with_os(connectors, os)),
        !ends_with_os(0, 0) && !ends_with_connector(0, os),
        connectors > os + 1 ==> !ends_with_os(connectors, os) && !ends_with_connector(connectors, os),
        os > connectors && os > 1 ==> !ends_with_os(connectors, os) && !ends_with_connector(
            connectors,
            os,
        ),
        ends_with_connector(connectors, os) ==> connectors == os + 1,
        ends_with_os(connectors, os) ==> os > 0,
{
}

/// The steps of a chain are its entries in turns, each with its name and its target: a connector
/// first, where there is one.
pub proof fn law_steps_are_the_entries(connectors: Seq<Seq<char>>, os: Seq<Seq<char>>, i: int)
    ensures
        ({
            let steps = steps_of(connectors, os);
            &&& steps.len() == connectors.len() + os.len()
            &&& connectors.len() == 0 && 0 <= i < os.len() ==> steps[i] == (
                true,
                name_in(os[i]),
                target_in(os[i]),
            )
            &&& connectors.len() > 0 && 0 <= 2 * i < steps.len() ==> steps[2 * i] == (
                false,
                name_in(connectors[i]),
                target_in(connectors[i]),
            )
            &&& connectors.len() > 0 && 0 <= 2 * i < steps.len() - 1 ==> steps[2 * i + 1] == (
                true,
                name_in(os[i]),
                target_in(os[i]),
            )
        }),
{
}

/// Appending characters that are no separators goes on with the last piece.
proof fn lemma_pieces_go_on(p: Seq<char>, b: Seq<char>, separator: char)
    requires
        forall|i: int| 0 <= i < b.len() ==> #[trigger] b[i] != separator,
    ensures
        pieces_of(p, separator).len() > 0,
        pieces_of(p + b, separator) == pieces_of(p, separator).drop_last().push(
            pieces_of(p, separator).last() + b,
        ),
    decreases p.len() + b.len(),
{
    if b.len() == 0 {
        if p.len() > 0 {
            lemma_pieces_go_on(p.drop_last(), b, separator);
        }
        let all = pieces_of(p, separator);
        assert(p + b =~= p);
        assert(all.last() + b =~= all.last());
        assert(all.drop_last().push(all.last()) =~= all);
    } else {
        let rest = b.drop_last();
        lemma_pieces_go_on(p, rest, separator);
        let s = p + b;
        let before = pieces_of(p, separator);
        assert(s.drop_last() =~= p + rest);
        assert(s.last() == b[b.len() - 1]);
        assert((before.last() + rest).push(b.last()) =~= before.last() + b);
        let go = before.drop_last().push(before.last() + rest);
        assert(go.drop_last() =~= before.drop_last());
        assert(go.last() == before.last() + rest);
    }
}

/// A text is split at its separators: what follows one is a piece of its own, up to the next.
/// Between quotes a separator is none.
pub proof fn law_pieces(p: Seq<char>, b: Seq<char>, quote: char, separator: char)
    requires
        open_quote(p) is None,
        !is_quote(separator),
        separator != '\\',
    ensures
        (forall|i: int| 0 <= i < b.len() ==> #[trigger] b[i] != separator) ==> {
            &&& pieces_of(b, separator) == seq![b]
            &&& pieces_of(p + seq![separator] + b, separator) == pieces_of(p, separator).push(b)
        },
        is_quote(quote) && (forall|i: int|
            0 <= i < b.len() ==> #[trigger] b[i] != quote && b[i] != '\\') ==> pieces_of(
            p + seq![separator] + (seq![quote] + b + seq![quote]),
            separator,
        ) == pieces_of(p, separator).push(seq![quote] + b + seq![quote]),
{
    let q = p.push(separator);
    let before = pieces_of(p, separator);
    assert(q.drop_last() =~= p);
    assert(pieces_of(q, separator) == before.push(Seq::empty()));
    assert(before.push(Seq::<char>::empty()).drop_last() =~= before);
    if forall|i: int| 0 <= i < b.len() ==> #[trigger] b[i] != separator {
        lemma_pieces_go_on(Seq::empty(), b, separator);
        assert(Seq::<char>::empty() + b =~= b);
        assert(pieces_of(b, separator) =~= seq![b]);
        lemma_pieces_go_on(q, b, separator);
        assert(q + b =~= p + seq![separator] + b);
    }
    if is_quote(quote) && (forall|i: int|
        0 <= i < b.len() ==> #[trigger] b[i] != quote && b[i] != '\\') {
        let t = seq![quote] + b;
        lemma_quoted_goes_on(q, b, quote, separator);
        let s = q + t + seq![quote];
        assert(s.drop_last() =~= q + t);
        assert(s[s.len() - 2] != '\\') by {
            if b.len() > 0 {
                assert(s[s.len() - 2] == b[b.len() - 1]);
            }
        }
        assert(t.push(quote) =~= seq![quote] + b + seq![quote]);
        let inside = pieces_of(q + t, separator);
        assert(inside.drop_last() =~= before);
        assert(pieces_of(s, separator) =~= before.push(t.push(quote)));
        assert(s =~= p + seq![separator] + (seq![quote] + b + seq![quote]));
    }
}

/// What follows a quote that opens goes on with the last piece, so long as it does not close.
proof fn lemma_quoted_goes_on(q: Seq<char>, b: Seq<char>, quote: char, separator: char)
    requires
        open_quote(q) is None,
        q.len() > 0,
        q.last() != '\\',
        is_quote(quote),
        !is_quote(separator),
        pieces_of(q, separator).len() > 0,
        pieces_of(q, separator).last() == Seq::<char>::empty(),
        forall|i: int| 0 <= i < b.len() ==> #[trigger] b[i] != quote && b[i] != '\\',
    ensures
        open_quote(q + (seq![quote] + b)) == Some(quote),
        pieces_of(q + (seq![quote] + b), separator) == pieces_of(q, separator).drop_last().push(
            seq![quote] + b,
        ),
    decreases b.len(),
{
    let before = pieces_of(q, separator);
    let s = q + (seq![quote] + b);
    if b.len() == 0 {
        assert(s =~= q.push(quote));
        assert(s.drop_last() =~= q);
        assert(s[s.len() - 2] == q.last());
        assert(seq![quote] + b =~= Seq::empty().push(quote));
    } else {
        let rest = b.drop_last();
        lemma_quoted_goes_on(q, rest, quote, separator);
        assert(s.drop_last() =~= q + (seq![quote] + rest));
        assert(s.last() == b[b.len() - 1]);
        assert((seq![quote] + rest).push(b.last()) =~= seq![quote] + b);
        let go = before.drop_last().push(seq![quote] + rest);
        assert(go.drop_last() =~= before.drop_last());
    }
}

/// Quotes around a text are taken away, and nothing else is.
pub proof fn law_unquoted(s: Seq<char>, b: Seq<char>, quote: char)
    ensures
        is_quote(quote) ==> unquoted(seq![quote] + b + seq![quote]) == b,
        s.len() > 0 && (!is_quote(s[0]) || s.last() != s[0]) ==> unquoted(s) == s,
        unquoted(Seq::empty()) == Seq::<char>::empty(),
        is_quote(quote) <==> quote == '"' || quote == '\'' || quote == '`',
{
    let t = seq![quote] + b + seq![quote];
    assert(t.subrange(1, t.len() - 1) =~= b);
}

/// A text without quotes leaves none open.
proof fn lemma_no_quotes(s: Seq<char>)
    requires
        forall|i: int| 0 <= i < s.len() ==> !is_quote(#[trigger] s[i]),
    ensures
        open_quote(s) is None,
    decreases s.len(),
{
    if s.len() > 0 {
        assert(!is_quote(s[s.len() - 1]));
        lemma_no_quotes(s.drop_last());
    }
}

/// Whether a text holds neither a character nor a quote.
pub open spec fn plain(s: Seq<char>, c: char) -> bool {
    forall|i: int| 0 <= i < s.len() ==> !is_quote(#[trigger] s[i]) && s[i] != c
}

/// A plain text stays whole, and two or three with separators between are split into them.
proof fn lemma_plain_split(a: Seq<char>, b: Seq<char>, c: Seq<char>, separator: char)
    requires
        plain(a, separator),
        plain(b, separator),
        plain(c, separator),
        !is_quote(separator),
        separator != '\\',
    ensures
        split_of(a, separator) == seq![a],
        split_of(a + seq![separator] + b, separator) == seq![a, b],
        split_of(a + seq![separator] + b + seq![separator] + c, separator) == seq![a, b, c],
{
    let ab = a + seq![separator] + b;
    lemma_no_quotes(a);
    assert forall|i: int| 0 <= i < ab.len() implies !is_quote(#[trigger] ab[i]) by {
        if i < a.len() {
            assert(ab[i] == a[i]);
        } else if i > a.len() {
            assert(ab[i] == b[i - a.len() - 1]);
        }
    }
    lemma_no_quotes(ab);
    lemma_no_quotes(Seq::empty());
    law_pieces(Seq::empty(), a, '"', separator);
    law_pieces(a, b, '"', separator);
    law_pieces(ab, c, '"', separator);
    assert(unquoted(a) == a && unquoted(b) == b && unquoted(c) == c) by {
        if a.len() > 0 {
            assert(!is_quote(a[0]));
        }
        if b.len() > 0 {
            assert(!is_quote(b[0]));
        }
        if c.len() > 0 {
            assert(!is_quote(c[0]));
        }
    }
    assert(split_of(a, separator) =~= seq![a]);
    assert(split_of(ab, separator) =~= seq![a, b]);
    assert(split_of(ab + seq![separator] + c, separator) =~= seq![a, b, c]);
}

/// An entry is a name and, behind a colon each, groups of arguments: the first is the target, the
/// third holds the settings. What is missing is missing.
pub proof fn law_entry_parts(name: Seq<char>, a: Seq<char>, b: Seq<char>, c: Seq<char>)
    requires
        forall|i: int| 0 <= i < name.len() ==> #[trigger] name[i] != ':',
        plain(a, ':'),
        plain(b, ':'),
        plain(c, ':'),
    ensures
        name_in(name) == name,
        target_in(name) is None,
        settings_in(name) is None,
        ({
            let entry = name + seq![':'] + a;
            &&& name_in(entry) == name
            &&& a.len() == 0 ==> target_in(entry) is None
            &&& a.len() > 0 ==> target_in(entry) == Some(cut(a))
            &&& settings_in(entry) is None
            &&& settings_in(name + seq![':'] + (a + seq![':'] + b)) is None
        }),
        ({
            let entry = name + seq![':'] + (a + seq![':'] + b + seq![':'] + c);
            &&& name_in(entry) == name
            &&& a.len() == 0 ==> target_in(entry) is None
            &&& a.len() > 0 ==> target_in(entry) == Some(cut(a))
            &&& settings_in(entry) == Some(c)
        }),
{
    lemma_cut_at(name, Seq::empty(), ':');
    lemma_cut_at(name, a, ':');
    lemma_cut_at(name, a + seq![':'] + b, ':');
    lemma_cut_at(name, a + seq![':'] + b + seq![':'] + c, ':');
    lemma_plain_split(a, b, c, ':');
    lemma_plain_split(Seq::empty(), b, c, ':');
}

/// What stands before the first `c` of a text and behind it.
proof fn lemma_cut_at(a: Seq<char>, b: Seq<char>, c: char)
    requires
        forall|i: int| 0 <= i < a.len() ==> #[trigger] a[i] != c,
    ensures
        run_to(a, c) == a.len(),
        a.take(a.len() as int) == a,
        run_to(a + seq![c] + b, c) == a.len(),
        (a + seq![c] + b).take(a.len() as int) == a,
        (a + seq![c] + b).skip(a.len() as int + 1) == b,
{
    let s = a + seq![c] + b;
    assert forall|i: int| 0 <= i < a.len() implies #[trigger] s[i] != c by {
        assert(s[i] == a[i]);
    }
    lemma_run_to(a, c, a.len() as int);
    lemma_run_to(s, c, a.len() as int);
    assert(a.take(a.len() as int) =~= a);
    assert(s.take(a.len() as int) =~= a);
    assert(s.skip(a.len() as int + 1) =~= b);
}

/// A text is cut at its first NUL, and one without stays whole. A setting is a key and a value with
/// an equals sign between.
pub proof fn law_settings(a: Seq<char>, b: Seq<char>)
    requires
        forall|i: int| 0 <= i < a.len() ==> #[trigger] a[i] != '\0',
    ensures
        cut(a) == a,
        cut(a + seq!['\0'] + b) == a,
        plain(a, '=') ==> pair_of(a) is None,
        plain(a, '=') && plain(b, '=') ==> pair_of(a + seq!['='] + b) == Some((a, b)),
        plain(a, '=') && plain(b, '=') ==> pair_of(a + seq!['='] + b + seq!['='] + a) is None,
{
    lemma_cut_at(a, b, '\0');
    if plain(a, '=') {
        assert(plain(Seq::empty(), '='));
        lemma_plain_split(a, Seq::empty(), Seq::empty(), '=');
        if plain(b, '=') {
            lemma_plain_split(a, b, a, '=');
        }
    }
}

/// Of the settings with one key the last counts: an earlier one gives no cache size, and the last
/// gives its value where its key is `cache_size`.
pub proof fn law_last_setting_counts(settings: Seq<Seq<char>>, i: int, j: int)
    requires
        0 <= i < settings.len(),
        pair_of(settings[i]) is Some,
    ensures
        i < j < settings.len() && pair_of(settings[j]) is Some && pair_of(settings[j]).unwrap().0
            == pair_of(settings[i]).unwrap().0 ==> size_at(settings, i) is None,
        i == settings.len() - 1 ==> (size_at(settings, i) matches Some(v) ==> cut(
            pair_of(settings[i]).unwrap().0,
        ) == "cache_size"@ && v == cut(pair_of(settings[i]).unwrap().1)),
        i == settings.len() - 1 && cut(pair_of(settings[i]).unwrap().0) == "cache_size"@ ==> size_at(
            settings,
            i,
        ) is Some,
        size_at(settings, i) is Some ==> cut(pair_of(settings[i]).unwrap().0) == "cache_size"@,
{
}

/// A cache size is too large exactly where the number of its units, in hexadecimal, times the bytes
/// of the unit is more than a machine counts. The units are `k`, `m` and `g`, alone or with a `b`
/// behind; a number without a unit is never too large.
pub proof fn law_oversized(n: nat, unit: char)
    requires
        n <= usize::MAX,
        unit == 'k' || unit == 'm' || unit == 'g',
    ensures
        ({
            let bytes = if unit == 'k' {
                1024nat
            } else if unit == 'm' {
                1024 * 1024nat
            } else {
                1024 * 1024 * 1024nat
            };
            &&& oversized(digits(n, 16).push(unit)) <==> n * bytes > usize::MAX
            &&& oversized(digits(n, 16).push(unit).push('b')) <==> n * bytes > usize::MAX
            &&& !oversized(digits(n, 16))
        }),
{
    let d = digits(n, 16);
    let k = d.len() as int;
    lemma_digits(n, 16);
    lemma_digit_run(d, 16);
    law_read_written(n, 16, usize::MAX as nat);
    assert forall|i: int| 0 <= i < k implies unit_size(#[trigger] d[i]) is None by {
        assert(digit_of(d[i], 16) is Some);
    }
    let s = d.push(unit);
    let t = s.push('b');
    assert(s.take(k) =~= d);
    assert(t.take(k) =~= d);
    assert(s.skip(k) =~= seq![unit]);
    assert(t.skip(k) =~= seq![unit, 'b']);
    assert(is_unit(s.skip(k)));
    assert(is_unit(t.skip(k)));
    assert forall|m: int| oversized_at(s, m) implies m == k by {
        if m < k {
            assert(unit_size(d[m]) is None);
        }
        if m > k {
            assert(unit_size(s[k]) is None);
        }
    }
    assert forall|m: int| oversized_at(t, m) implies m == k by {
        if m < k {
            assert(unit_size(d[m]) is None);
        }
        if m > k {
            assert(unit_size(t[k]) is None);
        }
    }
    assert forall|m: int| !oversized_at(d, m) by {
        if 0 <= m < k {
            assert(unit_size(d[m]) is None);
        }
    }
    assert(forall|i: int| 0 <= i < k ==> s[i] == d[i] && t[i] == d[i]);
    assert(too_large(d, unit_size(unit).unwrap()) ==> oversized_at(s, k) && oversized_at(t, k));
}

/// An entry with a cache size is in bounds exactly where that size can be counted in bytes.
pub proof fn law_cache_size_bounds(
    name: Seq<char>,
    a: Seq<char>,
    b: Seq<char>,
    n: nat,
    unit: char,
)
    requires
        forall|i: int| 0 <= i < name.len() ==> #[trigger] name[i] != ':',
        plain(a, ':'),
        plain(b, ':'),
        n <= usize::MAX,
        unit == 'k' || unit == 'm' || unit == 'g',
    ensures
        ({
            let setting = "cache_size"@ + seq!['='] + digits(n, 16).push(unit);
            let entry = name + seq![':'] + (a + seq![':'] + b + seq![':'] + setting);
            entry_fits(entry) <==> !oversized(digits(n, 16).push(unit))
        }),
        entry_fits(name) && entry_fits(name + seq![':'] + a) && entry_fits(
            name + seq![':'] + (a + seq![':'] + b),
        ),
{
    reveal_strlit("cache_size");
    let key = "cache_size"@;
    let value = digits(n, 16).push(unit);
    let setting = key + seq!['='] + value;
    lemma_digits(n, 16);
    lemma_digit_run(digits(n, 16), 16);
    assert forall|i: int| 0 <= i < value.len() implies !is_quote(#[trigger] value[i]) && value[i]
        != '=' && value[i] != ':' && value[i] != ',' && value[i] != '\0' by {
        if i < value.len() - 1 {
            assert(digit_of(digits(n, 16)[i], 16) is Some);
        }
    }
    assert forall|i: int| 0 <= i < setting.len() implies !is_quote(#[trigger] setting[i])
        && setting[i] != ':' && setting[i] != ',' by {
        if i < key.len() {
            assert(setting[i] == key[i]);
        } else if i > key.len() {
            assert(setting[i] == value[i - key.len() - 1]);
        }
    }
    law_entry_parts(name, a, b, setting);
    assert(plain(Seq::empty(), ','));
    lemma_plain_split(setting, Seq::empty(), Seq::empty(), ',');
    law_settings(key, value);
    law_settings(value, key);
    let all = seq![setting];
    assert(!replaced(all, 0));
    assert(size_at(all, 0) == Some(value));
    assert(sizes_fit(all) <==> !oversized(value));
}

/// Entries are in bounds, names alone and free of NUL where each of them is.
pub proof fn law_entries(entries: Seq<Seq<char>>, s: Seq<char>)
    ensures
        entries_in_bounds(Seq::empty()) && names_only(Seq::empty()) && no_nul(Seq::empty()),
        entries_in_bounds(entries.push(s)) <==> entries_in_bounds(entries) && entry_fits(s),
        names_only(entries.push(s)) <==> names_only(entries) && !s.contains(':'),
        no_nul(entries.push(s)) <==> no_nul(entries) && (settings_in(s) is Some
            ==> !settings_in(s).unwrap().contains('\0')),
{
    let all = entries.push(s);
    assert(all.last() == s);
    assert(forall|i: int| 0 <= i < entries.len() ==> all[i] == entries[i]);
}

/// A chain is chosen where there is no error: to an operating system first, to a connector next;
/// and with both errors the second is handed on.
pub proof fn law_choice<O, C>(
    r: Result<Chain<O, C>, ScanflowError>,
    one: Result<C, ScanflowError>,
    raw: Result<C, String>,
    first: Option<Seq<char>>,
    second: Option<Seq<char>>,
)
    ensures
        first is None ==> (chosen(r, first, second) <==> r is Ok && r->Ok_0 is Os),
        first is Some && second is None ==> (chosen(r, first, second) <==> r is Ok && r->Ok_0 is Connector),
        first is Some && second is Some ==> (chosen(r, first, second) <==> (r matches Err(
            ScanflowError::Memory(text),
        ) && Some(text@) == second)),
        chain_or_error(one, None) <==> one is Ok,
        first is Some ==> (chain_or_error(one, first) <==> (one matches Err(
            ScanflowError::Memory(text),
        ) && Some(text@) == first)),
        raw is Ok <==> error_of(raw) is None,
        raw matches Err(text) ==> error_of(raw) == Some(text@),
        no_chain_words() == "other: the argument could not be validated"@,
{
}

/// Every piece of a text is kept, at its position and without the quotes around it.
pub proof fn law_split(s: Seq<char>, separator: char, i: int)
    ensures
        split_of(s, separator).len() == pieces_of(s, separator).len(),
        0 <= i < pieces_of(s, separator).len() ==> split_of(s, separator)[i] == unquoted(
            pieces_of(s, separator)[i],
        ),
{
}

} // verus!

//! Strings as sequences of characters: white space, words, prefixes.

use vstd::prelude::*;
use vstd::string::StringExecFns;

verus! {

/// `String::push` appends one character to the end of the string.
pub assume_specification[ String::push ](s: &mut String, c: char)
    ensures
        final(s)@ == old(s)@.push(c),
;

/// What each string of a list holds.
pub open spec fn views(v: Seq<String>) -> Seq<Seq<char>> {
    Seq::new(v.len(), |i: int| v[i]@)
}

/// What an optional string holds.
pub open spec fn opt_view(s: Option<String>) -> Option<Seq<char>> {
    match s {
        Some(t) => Some(t@),
        None => None,
    }
}

/// Appending a string to a list appends what it holds to the views.
pub proof fn lemma_views_push(v: Seq<String>, s: String)
    ensures
        views(v.push(s)) == views(v).push(s@),
{
    assert(views(v.push(s)) =~= views(v).push(s@));
}

/// The characters with Unicode's `White_Space` property.
pub open spec fn is_space(c: char) -> bool {
    ||| '\u{9}' <= c <= '\u{D}'
    ||| c == ' '
    ||| c == '\u{85}'
    ||| c == '\u{A0}'
    ||| c == '\u{1680}'
    ||| '\u{2000}' <= c <= '\u{200A}'
    ||| c == '\u{2028}'
    ||| c == '\u{2029}'
    ||| c == '\u{202F}'
    ||| c == '\u{205F}'
    ||| c == '\u{3000}'
}

/// Whether `c` is white space.
pub fn is_white_space(c: char) -> (r: bool)
    ensures
        r == is_space(c),
{
    ('\u{9}' <= c && c <= '\u{D}') || c == ' ' || c == '\u{85}' || c == '\u{A0}' || c == '\u{1680}'
        || ('\u{2000}' <= c && c <= '\u{200A}') || c == '\u{2028}' || c == '\u{2029}' || c
        == '\u{202F}' || c == '\u{205F}' || c == '\u{3000}'
}

/// The characters of a string.
pub fn chars_of(s: &str) -> (r: Vec<char>)
    ensures
        r@ == s@,
{
    let mut out: Vec<char> = Vec::new();
    for c in it: s.chars()
        invariant
            out@ == s@.take(it.index() as int),
            it.seq() == s@,
    {
        out.push(c);
        assert(s@.take(it.index() as int + 1) == s@.take(it.index() as int).push(c));
    }
    assert(s@.take(s@.len() as int) == s@);
    out
}

/// The string that holds the characters from `from` up to, not including, `to`.
pub fn string_of(chars: &[char], from: usize, to: usize) -> (r: String)
    requires
        from <= to <= chars@.len(),
    ensures
        r@ == chars@.subrange(from as int, to as int),
{
    let mut out = String::new();
    for i in from..to
        invariant
            from <= i <= to <= chars@.len(),
            out@ == chars@.subrange(from as int, i as int),
    {
        out.push(chars[i]);
        assert(chars@.subrange(from as int, i + 1) == chars@.subrange(from as int, i as int).push(
            chars@[i as int],
        ));
    }
    out
}

/// A copy of a string slice.
pub fn owned(s: &str) -> (r: String)
    ensures
        r@ == s@,
{
    let mut out = String::new();
    out.append(s);
    assert(out@ == s@);
    out
}

/// Whether two strings hold the same characters.
pub fn same(a: &str, b: &str) -> (r: bool)
    ensures
        r == (a@ == b@),
{
    let x = chars_of(a);
    let y = chars_of(b);
    if x.len() != y.len() {
        return false;
    }
    for i in 0..x.len()
        invariant
            x@ == a@,
            y@ == b@,
            x.len() == y.len(),
            forall|j: int| 0 <= j < i ==> x@[j] == y@[j],
    {
        if x[i] != y[i] {
            return false;
        }
    }
    assert(a@ == b@);
    true
}

/// `s` without the white space it starts with.
pub open spec fn trim_start(s: Seq<char>) -> Seq<char>
    decreases s.len(),
{
    if s.len() > 0 && is_space(s[0]) {
        trim_start(s.skip(1))
    } else {
        s
    }
}

/// `s` without the white space it ends with.
pub open spec fn trim_end(s: Seq<char>) -> Seq<char>
    decreases s.len(),
{
    if s.len() > 0 && is_space(s.last()) {
        trim_end(s.drop_last())
    } else {
        s
    }
}

/// `s` without the white space at both its ends.
pub open spec fn trimmed(s: Seq<char>) -> Seq<char> {
    trim_end(trim_start(s))
}

/// Removes the white space at both ends.
pub fn trim(s: &str) -> (r: String)
    ensures
        r@ == trimmed(s@),
{
    let v = chars_of(s);
    let mut i: usize = 0;
    assert(s@.skip(0) == s@);
    while i < v.len() && is_white_space(v[i])
        invariant
            v@ == s@,
            i <= v.len(),
            trim_start(s@) == trim_start(s@.skip(i as int)),
        decreases v.len() - i,
    {
        assert(s@.skip(i as int).skip(1) == s@.skip(i + 1));
        i = i + 1;
    }
    let mut j: usize = v.len();
    assert(s@.skip(i as int) == s@.subrange(i as int, j as int));
    while i < j && is_white_space(v[j - 1])
        invariant
            v@ == s@,
            i <= j <= v.len(),
            trimmed(s@) == trim_end(s@.subrange(i as int, j as int)),
        decreases j,
    {
        assert(s@.subrange(i as int, j as int).drop_last() == s@.subrange(i as int, j - 1));
        j = j - 1;
    }
    string_of(v.as_slice(), i, j)
}

/// `s` without the `0x` prefixes it starts with.
pub open spec fn strip_0x(s: Seq<char>) -> Seq<char>
    decreases s.len(),
{
    if s.len() >= 2 && s[0] == '0' && s[1] == 'x' {
        strip_0x(s.skip(2))
    } else {
        s
    }
}

/// Removes every `0x` that the string starts with.
pub fn strip_hex_prefix(s: &str) -> (r: String)
    ensures
        r@ == strip_0x(s@),
{
    let v = chars_of(s);
    let mut i: usize = 0;
    assert(s@.skip(0) == s@);
    while v.len() - i >= 2 && v[i] == '0' && v[i + 1] == 'x'
        invariant
            v@ == s@,
            i <= v.len(),
            strip_0x(s@) == strip_0x(s@.skip(i as int)),
        decreases v.len() - i,
    {
        assert(s@.skip(i as int).skip(2) == s@.skip(i + 2));
        i = i + 2;
    }
    assert(s@.skip(i as int) == s@.subrange(i as int, s@.len() as int));
    string_of(v.as_slice(), i, v.len())
}

/// The number of characters before the first white space.
pub open spec fn word_len(s: Seq<char>) -> nat
    decreases s.len(),
{
    if s.len() == 0 || is_space(s[0]) {
        0
    } else {
        1 + word_len(s.skip(1))
    }
}

/// A word is no longer than the text it starts.
pub proof fn lemma_word_len(s: Seq<char>)
    ensures
        word_len(s) <= s.len(),
    decreases s.len(),
{
    if !(s.len() == 0 || is_space(s[0])) {
        lemma_word_len(s.skip(1));
    }
}

/// The words of `s`: its longest runs without white space, in order.
pub open spec fn words(s: Seq<char>) -> Seq<Seq<char>>
    decreases s.len(),
    when true
    via words_decreases
{
    if s.len() == 0 {
        Seq::empty()
    } else if is_space(s[0]) {
        words(s.skip(1))
    } else {
        seq![s.take(word_len(s) as int)] + words(s.skip(word_len(s) as int))
    }
}

#[via_fn]
proof fn words_decreases(s: Seq<char>) {
    lemma_word_len(s);
}

/// Splits a string into its words.
pub fn split_whitespace(s: &str) -> (r: Vec<String>)
    ensures
        views(r@) == words(s@),
{
    let v = chars_of(s);
    let mut out: Vec<String> = Vec::new();
    let mut i: usize = 0;
    assert(s@.skip(0) == s@);
    assert(views(out@) + words(s@) =~= words(s@));
    while i < v.len()
        invariant
            v@ == s@,
            i <= v.len(),
            views(out@) + words(s@.skip(i as int)) == words(s@),
        decreases v.len() - i,
    {
        let ghost rest = s@.skip(i as int);
        if is_white_space(v[i]) {
            assert(rest.skip(1) == s@.skip(i + 1));
            i = i + 1;
        } else {
            let mut j: usize = i;
            assert(rest.skip(0) == rest);
            while j < v.len() && !is_white_space(v[j])
                invariant
                    v@ == s@,
                    i <= j <= v.len(),
                    rest == s@.skip(i as int),
                    word_len(rest) == j - i + word_len(s@.skip(j as int)),
                decreases v.len() - j,
            {
                assert(s@.skip(j as int).skip(1) == s@.skip(j + 1));
                j = j + 1;
            }
            assert(word_len(s@.skip(j as int)) == 0);
            assert(word_len(rest) == j - i);
            assert(word_len(rest) >= 1);
            let word = string_of(v.as_slice(), i, j);
            assert(rest.take(j - i) == word@);
            assert(rest.skip(j - i) == s@.skip(j as int));
            let ghost before = views(out@);
            proof {
                lemma_views_push(out@, word);
            }
            out.push(word);
            assert(before.push(word@) + words(s@.skip(j as int)) =~= before + (seq![word@] + words(
                s@.skip(j as int),
            )));
            i = j;
        }
    }
    assert(s@.skip(i as int).len() == 0);
    assert(views(out@) + words(s@.skip(i as int)) =~= views(out@));
    out
}

/// The position of the first space, or the length where there is none.
pub open spec fn space_at(s: Seq<char>) -> nat
    decreases s.len(),
{
    if s.len() == 0 || s[0] == ' ' {
        0
    } else {
        1 + space_at(s.skip(1))
    }
}

/// The first space lies inside the text or at its end.
pub proof fn lemma_space_at(s: Seq<char>)
    ensures
        space_at(s) <= s.len(),
        space_at(s) < s.len() ==> s[space_at(s) as int] == ' ',
        forall|i: int| 0 <= i < space_at(s) ==> s[i] != ' ',
    decreases s.len(),
{
    if !(s.len() == 0 || s[0] == ' ') {
        lemma_space_at(s.skip(1));
        assert forall|i: int| 0 <= i < space_at(s) implies s[i] != ' ' by {
            if i > 0 {
                assert(s[i] == s.skip(1)[i - 1]);
            }
        }
    }
}

/// What stands before the first space.
pub open spec fn before_space(s: Seq<char>) -> Seq<char> {
    s.take(space_at(s) as int)
}

/// What stands behind the first space, where there is one.
pub open spec fn after_space(s: Seq<char>) -> Option<Seq<char>> {
    if space_at(s) < s.len() {
        Some(s.skip(space_at(s) as int + 1))
    } else {
        None
    }
}

/// Splits a string at its first space.
pub fn split_at_space(s: &str) -> (r: (String, Option<String>))
    ensures
        r.0@ == before_space(s@),
        opt_view(r.1) == after_space(s@),
{
    let v = chars_of(s);
    let mut i: usize = 0;
    assert(s@.skip(0) == s@);
    while i < v.len() && v[i] != ' '
        invariant
            v@ == s@,
            i <= v.len(),
            space_at(s@) == i + space_at(s@.skip(i as int)),
        decreases v.len() - i,
    {
        assert(s@.skip(i as int).skip(1) == s@.skip(i + 1));
        i = i + 1;
    }
    assert(space_at(s@) == i);
    let head = string_of(v.as_slice(), 0, i);
    assert(head@ == s@.take(i as int));
    if i < v.len() {
        let tail = string_of(v.as_slice(), i + 1, v.len());
        assert(tail@ == s@.skip(i + 1));
        (head, Some(tail))
    } else {
        (head, None)
    }
}

/// The characters of `s` that are not white space, in order.
pub open spec fn without_space(s: Seq<char>) -> Seq<char>
    decreases s.len(),
{
    if s.len() == 0 {
        Seq::empty()
    } else if is_space(s.last()) {
        without_space(s.drop_last())
    } else {
        without_space(s.drop_last()).push(s.last())
    }
}

/// Removes all white space.
pub fn remove_white_space(s: &str) -> (r: String)
    ensures
        r@ == without_space(s@),
{
    let v = chars_of(s);
    let mut out = String::new();
    for i in 0..v.len()
        invariant
            v@ == s@,
            out@ == without_space(s@.take(i as int)),
    {
        assert(s@.take(i + 1).drop_last() == s@.take(i as int));
        if !is_white_space(v[i]) {
            out.push(v[i]);
        }
    }
    assert(s@.take(s@.len() as int) == s@);
    out
}

/// White space before a text adds no word, and what stands before white space or the end is a word
/// of its own, before the words of the rest. These two say of every text what its words are.
pub proof fn law_words(w: Seq<char>, rest: Seq<char>)
    requires
        forall|i: int| 0 <= i < w.len() ==> !is_space(#[trigger] w[i]),
        rest.len() > 0 ==> is_space(rest[0]),
    ensures
        words(Seq::empty()) == Seq::<Seq<char>>::empty(),
        w.len() > 0 ==> words(w + rest) == seq![w] + words(rest),
        rest.len() > 0 ==> words(rest) == words(rest.skip(1)),
{
    if w.len() > 0 {
        let s = w + rest;
        lemma_word_len_is(s, w.len());
        assert(s.take(w.len() as int) =~= w);
        assert(s.skip(w.len() as int) =~= rest);
        assert(s[0] == w[0]);
    }
}

/// A word reaches up to the first white space.
proof fn lemma_word_len_is(s: Seq<char>, n: nat)
    requires
        n <= s.len(),
        forall|i: int| 0 <= i < n ==> !is_space(#[trigger] s[i]),
        n < s.len() ==> is_space(s[n as int]),
    ensures
        word_len(s) == n,
    decreases n,
{
    if n > 0 {
        let rest = s.skip(1);
        assert forall|i: int| 0 <= i < n - 1 implies !is_space(#[trigger] rest[i]) by {
            assert(rest[i] == s[i + 1]);
        }
        lemma_word_len_is(rest, (n - 1) as nat);
    }
}

/// White space is, in ASCII, the space, the tab and the line breaks, and beyond it these characters.
/// No digit, letter or other sign that numbers, names and signatures are written with is one.
pub proof fn law_white_space(c: char)
    ensures
        c as int <= 127 ==> (is_space(c) <==> c == ' ' || c == '\t' || c == '\n' || c == '\r' || c
            == '\u{B}' || c == '\u{C}'),
        c as int > 127 ==> (is_space(c) <==> {
            let n = c as int;
            ||| n == 0x85 || n == 0xA0 || n == 0x1680 || n == 0x2028 || n == 0x2029 || n == 0x202F
            ||| 0x2000 <= n <= 0x200A
            ||| n == 0x205F || n == 0x3000
        }),
        '!' <= c <= '~' ==> !is_space(c),
{
}

/// A text without white space at its ends stays as it is when it is trimmed, and white space at its
/// ends goes.
pub proof fn law_trimmed(s: Seq<char>, c: char)
    ensures
        s.len() > 0 && !is_space(s[0]) && !is_space(s.last()) ==> trimmed(s) == s,
        is_space(c) ==> trimmed(seq![c] + s) == trimmed(s),
        is_space(c) && s.len() > 0 && !is_space(s[0]) ==> trimmed(s.push(c)) == trimmed(s),
        trimmed(s).len() > 0 ==> !is_space(trimmed(s)[0]) && !is_space(trimmed(s).last()),
        trimmed(Seq::empty()) == Seq::<char>::empty(),
{
    assert((seq![c] + s).skip(1) =~= s);
    assert(s.push(c).drop_last() =~= s);
    lemma_trim_start(s);
    lemma_trim_end(trim_start(s));
}

/// A text without the white space it starts with starts with none.
proof fn lemma_trim_start(s: Seq<char>)
    ensures
        trim_start(s).len() > 0 ==> !is_space(trim_start(s)[0]),
    decreases s.len(),
{
    if s.len() > 0 && is_space(s[0]) {
        lemma_trim_start(s.skip(1));
    }
}

/// A text without the white space it ends with ends with none, and starts as before.
proof fn lemma_trim_end(s: Seq<char>)
    ensures
        trim_end(s).len() > 0 ==> !is_space(trim_end(s).last()) && trim_end(s)[0] == s[0],
        trim_end(s).len() <= s.len(),
    decreases s.len(),
{
    if s.len() > 0 && is_space(s.last()) {
        lemma_trim_end(s.drop_last());
    }
}

/// What stands before the first space of a text and what stands behind it make up the text.
pub proof fn law_split_at_space(a: Seq<char>, b: Seq<char>)
    requires
        forall|i: int| 0 <= i < a.len() ==> #[trigger] a[i] != ' ',
    ensures
        before_space(a) == a,
        after_space(a) is None,
        before_space(a + seq![' '] + b) == a,
        after_space(a + seq![' '] + b) == Some(b),
{
    let s = a + seq![' '] + b;
    lemma_space_at_is(a, a.len());
    assert(s[a.len() as int] == ' ');
    assert forall|i: int| 0 <= i < a.len() implies #[trigger] s[i] != ' ' by {
        assert(s[i] == a[i]);
    }
    lemma_space_at_is(s, a.len());
    assert(a.take(a.len() as int) =~= a);
    assert(s.take(a.len() as int) =~= a);
    assert(s.skip(a.len() as int + 1) =~= b);
}

/// The first space stands where nothing before it is one.
proof fn lemma_space_at_is(s: Seq<char>, n: nat)
    requires
        n <= s.len(),
        forall|i: int| 0 <= i < n ==> #[trigger] s[i] != ' ',
        n < s.len() ==> s[n as int] == ' ',
    ensures
        space_at(s) == n,
    decreases n,
{
    if n > 0 {
        let rest = s.skip(1);
        assert forall|i: int| 0 <= i < n - 1 implies #[trigger] rest[i] != ' ' by {
            assert(rest[i] == s[i + 1]);
        }
        lemma_space_at_is(rest, (n - 1) as nat);
    }
}

/// The prefix `0x` goes, as often as it stands at the beginning, and nothing else does.
pub proof fn law_hex_prefix(s: Seq<char>)
    ensures
        strip_0x(seq!['0', 'x'] + s) == strip_0x(s),
        !(s.len() >= 2 && s[0] == '0' && s[1] == 'x') ==> strip_0x(s) == s,
{
    assert((seq!['0', 'x'] + s).skip(2) =~= s);
}

/// A text without its white space holds the other characters in their order.
pub proof fn law_without_space(s: Seq<char>, c: char)
    ensures
        without_space(Seq::empty()) == Seq::<char>::empty(),
        is_space(c) ==> without_space(s.push(c)) == without_space(s),
        !is_space(c) ==> without_space(s.push(c)) == without_space(s).push(c),
{
    assert(s.push(c).drop_last() =~= s);
}

/// What a list of strings holds is what each of them holds, at its position.
pub proof fn law_views(v: Seq<String>, s: Option<String>, i: int)
    ensures
        views(v).len() == v.len(),
        0 <= i < v.len() ==> views(v)[i] == v[i]@,
        s is None <==> opt_view(s) is None,
        s matches Some(t) ==> opt_view(s) == Some(t@),
{
}

} // verus!

//! IDA-style byte signatures: parsing them and finding them in memory.
//!
//! A signature is a row of literal bytes and wildcards. To find it in a buffer, its first literal
//! byte is looked for with `memchr`, and the whole signature is compared at each place found.
//! Memory is read in chunks that overlap by one byte less than the signature is long, so that a
//! match across the end of a chunk is found, and found once.

use vstd::prelude::*;

use crate::memory::{all_valid, read_of, reply_of, MemoryRange, ReadRequest};
use crate::number::{digit_of, digit_value};
use crate::text::{chars_of, split_whitespace, views, words};

verus! {

/// `memchr::memchr` gives the position of the first byte of `haystack` that equals `needle`.
pub assume_specification[ memchr::memchr ](needle: u8, haystack: &[u8]) -> (r: Option<usize>)
    ensures
        match r {
            Some(i) => {
                &&& i < haystack@.len()
                &&& haystack@[i as int] == needle
                &&& forall|j: int| 0 <= j < i ==> haystack@[j] != needle
            },
            None => forall|j: int| 0 <= j < haystack@.len() ==> haystack@[j] != needle,
        },
;

/// A parsed byte signature: `Some(b)` is a literal byte, `None` a wildcard.
pub type Pattern = Vec<Option<u8>>;

/// What one word of a signature stands for: `?` and `??` for a wildcard, two hexadecimal digits
/// for a literal byte, anything else for nothing.
pub open spec fn token_of(t: Seq<char>) -> Option<Option<u8>> {
    if t == seq!['?'] || t == seq!['?', '?'] {
        Some(None)
    } else if t.len() == 2 && digit_of(t[0], 16) is Some && digit_of(t[1], 16) is Some {
        Some(Some((digit_of(t[0], 16).unwrap() * 16 + digit_of(t[1], 16).unwrap()) as u8))
    } else {
        None
    }
}

/// The signature that a text stands for: one byte for each of its words, where every word is a
/// token and there is at least one.
pub open spec fn pattern_of(input: Seq<char>) -> Option<Seq<Option<u8>>> {
    let ws = words(input);
    if ws.len() > 0 && (forall|i: int| 0 <= i < ws.len() ==> token_of(#[trigger] ws[i]) is Some) {
        Some(Seq::new(ws.len(), |i: int| token_of(ws[i]).unwrap()))
    } else {
        None
    }
}

/// What one word of a signature stands for.
fn parse_token(t: &str) -> (r: Option<Option<u8>>)
    ensures
        r == token_of(t@),
{
    let v = chars_of(t);
    if v.len() == 1 {
        if v[0] == '?' {
            assert(t@ =~= seq!['?']);
            return Some(None);
        }
        return None;
    }
    if v.len() != 2 {
        return None;
    }
    if v[0] == '?' && v[1] == '?' {
        assert(t@ =~= seq!['?', '?']);
        return Some(None);
    }
    match (digit_value(v[0], 16), digit_value(v[1], 16)) {
        (Some(hi), Some(lo)) => Some(Some((hi * 16 + lo) as u8)),
        _ => None,
    }
}

/// Parses an IDA-style signature.
///
/// The words of the text are each `?` or `??` for a wildcard byte, or exactly two hexadecimal
/// digits in either case for a literal byte. Any other word, and a text without words, gives
/// `None`.
pub fn parse_pattern(input: &str) -> (r: Option<Pattern>)
    ensures
        match r {
            Some(p) => pattern_of(input@) == Some(p@),
            None => pattern_of(input@) is None,
        },
{
    let ws = split_whitespace(input);
    let ghost spec_ws = words(input@);
    assert(forall|i: int| 0 <= i < ws@.len() ==> #[trigger] views(ws@)[i] == ws@[i]@);
    let mut pattern: Pattern = Vec::new();
    for i in 0..ws.len()
        invariant
            views(ws@) == spec_ws,
            ws@.len() == spec_ws.len(),
            forall|j: int| 0 <= j < ws@.len() ==> #[trigger] spec_ws[j] == ws@[j]@,
            spec_ws == words(input@),
            pattern@.len() == i,
            forall|j: int| 0 <= j < i ==> token_of(#[trigger] spec_ws[j]) == Some(pattern@[j]),
    {
        match parse_token(ws[i].as_str()) {
            Some(b) => {
                assert(token_of(spec_ws[i as int]) == Some(b));
                pattern.push(b);
            },
            None => {
                assert(token_of(spec_ws[i as int]) is None);
                return None;
            },
        }
    }
    if pattern.len() == 0 {
        return None;
    }
    assert(pattern@ =~= pattern_of(input@).unwrap());
    Some(pattern)
}

/// Whether the signature matches the buffer at a position: it lies inside, and every literal byte
/// equals the byte there.
pub open spec fn matches_here(pat: Seq<Option<u8>>, buf: Seq<u8>, at: int) -> bool {
    &&& 0 <= at
    &&& at + pat.len() <= buf.len()
    &&& forall|j: int|
        0 <= j < pat.len() ==> (#[trigger] pat[j] matches Some(b) ==> buf[at + j] == b)
}

/// The positions from `lo` up to, not including, `hi` at which the signature matches, in order.
pub open spec fn hits(pat: Seq<Option<u8>>, buf: Seq<u8>, lo: int, hi: int) -> Seq<int>
    decreases hi - lo,
{
    if hi <= lo {
        Seq::empty()
    } else if matches_here(pat, buf, hi - 1) {
        hits(pat, buf, lo, hi - 1).push(hi - 1)
    } else {
        hits(pat, buf, lo, hi - 1)
    }
}

/// All positions at which the signature matches, in order.
pub open spec fn all_hits(pat: Seq<Option<u8>>, buf: Seq<u8>) -> Seq<int> {
    hits(pat, buf, 0, buf.len() as int)
}

/// Machine numbers as mathematical ones.
pub open spec fn as_ints(s: Seq<usize>) -> Seq<int> {
    Seq::new(s.len(), |i: int| s[i] as int)
}

/// Positions counted from an address.
pub open spec fn addresses(base: int, ps: Seq<int>) -> Seq<u64> {
    Seq::new(ps.len(), |i: int| (base + ps[i]) as u64)
}

/// Where the signature matches nowhere, no position is listed.
proof fn lemma_no_hits(pat: Seq<Option<u8>>, buf: Seq<u8>, lo: int, mid: int, hi: int)
    requires
        lo <= mid <= hi,
        forall|p: int| mid <= p < hi ==> !matches_here(pat, buf, p),
    ensures
        hits(pat, buf, lo, hi) == hits(pat, buf, lo, mid),
    decreases hi - mid,
{
    if mid < hi {
        lemma_no_hits(pat, buf, lo, mid, hi - 1);
    }
}

/// The listed positions are exactly those at which the signature matches, each once, in
/// increasing order.
pub proof fn law_hits_are_the_matches(pat: Seq<Option<u8>>, buf: Seq<u8>, lo: int, hi: int)
    ensures
        forall|p: int|
            #![trigger hits(pat, buf, lo, hi).contains(p)]
            #![trigger matches_here(pat, buf, p)]
            hits(pat, buf, lo, hi).contains(p) <==> lo <= p < hi && matches_here(pat, buf, p),
        forall|i: int, j: int|
            0 <= i < j < hits(pat, buf, lo, hi).len() ==> hits(pat, buf, lo, hi)[i] < hits(
                pat,
                buf,
                lo,
                hi,
            )[j],
    decreases hi - lo,
{
    if lo < hi {
        law_hits_are_the_matches(pat, buf, lo, hi - 1);
        let before = hits(pat, buf, lo, hi - 1);
        let all = hits(pat, buf, lo, hi);
        assert forall|i: int| 0 <= i < before.len() implies lo <= #[trigger] before[i] < hi - 1 by {
            assert(before.contains(before[i]));
        }
        assert forall|p: int| all.contains(p) <==> lo <= p < hi && matches_here(pat, buf, p) by {
            if all.contains(p) {
                let i = choose|i: int| 0 <= i < all.len() && all[i] == p;
                if i < before.len() {
                    assert(before[i] == p);
                    assert(before.contains(p));
                }
            }
            if lo <= p < hi && matches_here(pat, buf, p) {
                if p == hi - 1 {
                    assert(all[all.len() - 1] == p);
                } else {
                    assert(before.contains(p));
                    let i = choose|i: int| 0 <= i < before.len() && before[i] == p;
                    assert(all[i] == p);
                }
            }
        }
    }
}

/// A signature ready to be looked for.
pub struct CompiledPattern {
    /// The signature.
    pattern: Pattern,
    /// The position of the first literal byte, or 0 where there is none.
    anchor: usize,
    /// The literal bytes with their positions.
    literals: Vec<(usize, u8)>,
}

impl View for CompiledPattern {
    type V = Seq<Option<u8>>;

    closed spec fn view(&self) -> Seq<Option<u8>> {
        self.pattern@
    }
}

impl CompiledPattern {
    #[verifier::type_invariant]
    spec fn inv(self) -> bool {
        &&& self.pattern@.len() > 0
        &&& self.anchor < self.pattern@.len()
        &&& self.pattern@[self.anchor as int] is None ==> forall|j: int|
            0 <= j < self.pattern@.len() ==> #[trigger] self.pattern@[j] is None
        &&& forall|i: int|
            0 <= i < self.literals@.len() ==> {
                &&& (#[trigger] self.literals@[i]).0 < self.pattern@.len()
                &&& self.pattern@[self.literals@[i].0 as int] == Some(self.literals@[i].1)
            }
        &&& forall|j: int|
            0 <= j < self.pattern@.len() && (#[trigger] self.pattern@[j]) is Some ==> exists|i: int|
                0 <= i < self.literals@.len() && (#[trigger] self.literals@[i]).0 == j
    }

    /// Prepares a signature; an empty one gives `None`.
    pub fn new(pattern: Pattern) -> (r: Option<Self>)
        ensures
            match r {
                Some(c) => pattern@.len() > 0 && c@ == pattern@,
                None => pattern@.len() == 0,
            },
    {
        if pattern.len() == 0 {
            return None;
        }
        let mut anchor: usize = 0;
        let mut literals: Vec<(usize, u8)> = Vec::new();
        for k in 0..pattern.len()
            invariant
                pattern@.len() > 0,
                anchor < pattern@.len(),
                literals@.len() > 0 ==> pattern@[anchor as int] is Some,
                literals@.len() == 0 ==> forall|j: int|
                    0 <= j < k ==> #[trigger] pattern@[j] is None,
                forall|i: int|
                    0 <= i < literals@.len() ==> {
                        &&& (#[trigger] literals@[i]).0 < pattern@.len()
                        &&& pattern@[literals@[i].0 as int] == Some(literals@[i].1)
                    },
                forall|j: int|
                    0 <= j < k && (#[trigger] pattern@[j]) is Some ==> exists|i: int|
                        0 <= i < literals@.len() && (#[trigger] literals@[i]).0 == j,
        {
            if let Some(b) = pattern[k] {
                if literals.len() == 0 {
                    anchor = k;
                }
                let ghost before = literals@;
                literals.push((k, b));
                assert forall|j: int| 0 <= j < k + 1 && (#[trigger] pattern@[j]) is Some implies
                    exists|i: int| 0 <= i < literals@.len() && (#[trigger] literals@[i]).0 == j by {
                    if j == k {
                        assert(literals@[literals@.len() - 1].0 == j);
                    } else {
                        let i = choose|i: int|
                            0 <= i < before.len() && (#[trigger] before[i]).0 == j;
                        assert(literals@[i] == before[i]);
                    }
                }
            }
        }
        if literals.len() == 0 {
            assert(forall|j: int| 0 <= j < pattern@.len() ==> #[trigger] pattern@[j] is None);
        }
        Some(CompiledPattern { pattern, anchor, literals })
    }

    /// The number of bytes of the signature.
    pub fn len(&self) -> (r: usize)
        ensures
            r == self@.len(),
            r > 0,
    {
        proof {
            use_type_invariant(self);
        }
        self.pattern.len()
    }

    /// Whether the signature has no bytes; a prepared one always has some.
    pub fn is_empty(&self) -> (r: bool)
        ensures
            r == (self@.len() == 0),
            !r,
    {
        proof {
            use_type_invariant(self);
        }
        self.pattern.len() == 0
    }

    /// Whether the signature matches at a position.
    fn matches_at(&self, buf: &[u8], start: usize) -> (r: bool)
        requires
            start + self@.len() <= buf@.len(),
        ensures
            r == matches_here(self@, buf@, start as int),
    {
        proof {
            use_type_invariant(self);
        }
        let buf_len: usize = buf.len();
        for i in 0..self.literals.len()
            invariant
                self.inv(),
                buf_len == buf@.len(),
                start + self@.len() <= buf@.len(),
                forall|n: int|
                    0 <= n < i ==> buf@[start + (#[trigger] self.literals@[n]).0]
                        == self.literals@[n].1,
        {
            let (off, byte) = self.literals[i];
            assert(self.literals@[i as int].0 < self@.len());
            if buf[start + off] != byte {
                assert(self@[off as int] == Some(byte));
                return false;
            }
        }
        assert forall|j: int| 0 <= j < self@.len() implies (#[trigger] self@[j] matches Some(b)
            ==> buf@[start + j] == b) by {
            if self@[j] is Some {
                let n = choose|n: int|
                    0 <= n < self.literals@.len() && (#[trigger] self.literals@[n]).0 == j;
                assert(self@[self.literals@[n].0 as int] == Some(self.literals@[n].1));
            }
        }
        true
    }

    /// Finds all positions of `buf` at which the signature matches, in increasing order.
    pub fn find_in(&self, buf: &[u8]) -> (r: Vec<usize>)
        ensures
            as_ints(r@) == all_hits(self@, buf@),
    {
        proof {
            use_type_invariant(self);
        }
        let mut out: Vec<usize> = Vec::new();
        let pat_len: usize = self.pattern.len();
        assert(as_ints(out@) =~= Seq::<int>::empty());
        if buf.len() < pat_len {
            proof {
                lemma_no_hits(self@, buf@, 0, 0, buf@.len() as int);
            }
            return out;
        }
        let anchor: usize = self.anchor;
        match self.pattern[anchor] {
            Some(byte) => {
                let search_end: usize = buf.len() - pat_len + anchor + 1;
                let mut from: usize = 0;
                while from < search_end
                    invariant
                        self.inv(),
                        pat_len == self@.len(),
                        anchor == self.anchor,
                        self@[anchor as int] == Some(byte),
                        pat_len <= buf@.len(),
                        search_end == buf@.len() - pat_len + anchor + 1,
                        from <= search_end,
                        as_ints(out@) == hits(
                            self@,
                            buf@,
                            0,
                            if from >= anchor {
                                from - anchor
                            } else {
                                0
                            },
                        ),
                    ensures
                        as_ints(out@) == hits(self@, buf@, 0, search_end - anchor),
                    decreases search_end - from,
                {
                    let ghost lo: int = if from >= anchor {
                        from - anchor
                    } else {
                        0
                    };
                    let window = vstd::slice::slice_subrange(buf, from, search_end);
                    let found: usize = match memchr::memchr(byte, window) {
                        Some(p) => from + p,
                        None => {
                            proof {
                                assert forall|p: int| lo <= p < search_end
                                    - anchor implies !matches_here(self@, buf@, p) by {
                                    assert(self@[anchor as int] is Some);
                                    assert(buf@[p + anchor] == window@[p + anchor - from]);
                                }
                                lemma_no_hits(self@, buf@, 0, lo, search_end - anchor);
                            }
                            break;
                        },
                    };
                    assert(buf@[found as int] == window@[found - from]);
                    let ghost hi: int = if found >= anchor {
                        found - anchor
                    } else {
                        0
                    };
                    proof {
                        assert forall|p: int| lo <= p < hi implies !matches_here(
                            self@,
                            buf@,
                            p,
                        ) by {
                            assert(self@[anchor as int] is Some);
                            assert(buf@[p + anchor] == window@[p + anchor - from]);
                        }
                        lemma_no_hits(self@, buf@, 0, lo, hi);
                    }
                    if found >= anchor {
                        let start: usize = found - anchor;
                        let ghost before = out@;
                        if self.matches_at(buf, start) {
                            out.push(start);
                            assert(as_ints(out@) =~= as_ints(before).push(start as int));
                        }
                        assert(as_ints(out@) == hits(self@, buf@, 0, start + 1));
                    }
                    from = found + 1;
                }
                proof {
                    lemma_no_hits(self@, buf@, 0, search_end - anchor, buf@.len() as int);
                }
            },
            None => {
                let last: usize = buf.len() - pat_len;
                let mut start: usize = 0;
                let mut more: bool = true;
                while more
                    invariant
                        self.inv(),
                        pat_len == self@.len(),
                        self@[self.anchor as int] is None,
                        last == buf@.len() - pat_len,
                        start <= last,
                        as_ints(out@) == hits(
                            self@,
                            buf@,
                            0,
                            if more {
                                start as int
                            } else {
                                last + 1
                            },
                        ),
                    decreases
                        if more {
                            last - start + 1
                        } else {
                            0
                        },
                {
                    let ghost before = out@;
                    out.push(start);
                    assert(as_ints(out@) =~= as_ints(before).push(start as int));
                    assert(matches_here(self@, buf@, start as int));
                    if start == last {
                        more = false;
                    } else {
                        start = start + 1;
                    }
                }
                proof {
                    lemma_no_hits(self@, buf@, 0, last + 1, buf@.len() as int);
                }
            },
        }
        out
    }

    /// Finds all addresses at which the signature matches, where `buf` starts at `base_addr`.
    pub fn find_matches(&self, buf: &[u8], base_addr: u64) -> (r: Vec<u64>)
        requires
            forall|p: int| #[trigger] matches_here(self@, buf@, p) ==> base_addr + p <= u64::MAX,
        ensures
            r@ == addresses(base_addr as int, all_hits(self@, buf@)),
    {
        let found = self.find_in(buf);
        let ghost ps = all_hits(self@, buf@);
        let mut out: Vec<u64> = Vec::new();
        for i in 0..found.len()
            invariant
                as_ints(found@) == ps,
                ps == all_hits(self@, buf@),
                forall|p: int| #[trigger]
                    matches_here(self@, buf@, p) ==> base_addr + p <= u64::MAX,
                out@ == addresses(base_addr as int, ps.take(i as int)),
        {
            proof {
                law_hits_are_the_matches(self@, buf@, 0, buf@.len() as int);
                assert(ps[i as int] == as_ints(found@)[i as int]);
                assert(ps.contains(ps[i as int]));
            }
            let ghost before = out@;
            out.push(base_addr + found[i] as u64);
            assert(out@ =~= addresses(base_addr as int, ps.take(i + 1)));
        }
        assert(ps.take(ps.len() as int) =~= ps);
        out
    }
}

/// The number of bytes that one chunk advances by.
pub const SIG_CHUNK: u64 = 16 * 1024 * 1024;

/// The number of chunks in which a range of `size` bytes is read for a signature of `m` bytes;
/// a range that is too short for the signature is not read at all.
pub open spec fn chunk_count(size: int, m: int) -> int {
    if size < m {
        0
    } else {
        (size + SIG_CHUNK - 1) / (SIG_CHUNK as int)
    }
}

/// The number of bytes in the `k`th chunk: what the chunk advances by and one byte less than the
/// signature, so far as the range reaches.
pub open spec fn chunk_len(size: int, m: int, k: int) -> int {
    if SIG_CHUNK + m - 1 <= size - k * SIG_CHUNK {
        SIG_CHUNK + m - 1
    } else {
        size - k * SIG_CHUNK
    }
}

/// The request for the `k`th chunk of a range.
pub open spec fn chunk_request(range: MemoryRange, m: int, k: int) -> ReadRequest {
    ReadRequest {
        addr: (range.base + k * SIG_CHUNK) as u64,
        len: chunk_len(range.size as int, m, k) as u64,
    }
}

/// A chunk that begins inside its range is one of the chunks, and it is the last one where the
/// range does not reach beyond what it advances by.
proof fn lemma_chunk_count(size: int, m: int, k: int)
    requires
        m <= size,
        0 <= k,
        0 <= size,
    ensures
        k * SIG_CHUNK < size <==> k < chunk_count(size, m),
        k * SIG_CHUNK < size <= k * SIG_CHUNK + SIG_CHUNK ==> chunk_count(size, m) == k + 1,
{
    let c = 16777216int;
    assert(SIG_CHUNK == c);
    let q = (size + c - 1) / c;
    assert(q * c <= size + c - 1 < q * c + c);
}

/// The request for a chunk of a range asks for as many bytes as the chunk has.
pub proof fn lemma_chunk_inside(range: MemoryRange, m: int, k: int)
    requires
        range.valid(),
        m > 0,
        0 <= k < chunk_count(range.size as int, m),
    ensures
        chunk_request(range, m, k).len == chunk_len(range.size as int, m, k),
        0 < chunk_len(range.size as int, m, k) <= range.size - k * SIG_CHUNK,
{
    lemma_chunk_count(range.size as int, m, k);
}

/// The addresses found in the chunks of one range, in order; a chunk that could not be read is
/// passed over.
pub open spec fn range_found(
    base: int,
    pat: Seq<Option<u8>>,
    replies: Seq<Option<Seq<u8>>>,
) -> Seq<u64>
    decreases replies.len(),
{
    if replies.len() == 0 {
        Seq::empty()
    } else {
        let k = replies.len() - 1;
        range_found(base, pat, replies.drop_last()) + match replies[k] {
            Some(buf) => addresses(base + k * SIG_CHUNK, all_hits(pat, buf)),
            None => Seq::empty(),
        }
    }
}

/// The addresses found in all ranges, in the order of the ranges.
pub open spec fn ranges_found(
    ranges: Seq<MemoryRange>,
    pat: Seq<Option<u8>>,
    log: Seq<Seq<Option<Seq<u8>>>>,
) -> Seq<u64>
    decreases log.len(),
{
    if log.len() == 0 {
        Seq::empty()
    } else {
        ranges_found(ranges, pat, log.drop_last()) + range_found(
            ranges[log.len() - 1].base as int,
            pat,
            log.last(),
        )
    }
}

/// Whether every chunk of a range has been answered.
pub open spec fn complete(range: MemoryRange, m: int, replies: Seq<Option<Seq<u8>>>) -> bool {
    replies.len() >= chunk_count(range.size as int, m)
}

/// Goes on to the next range that has a chunk to read, where the last one has none left.
pub open spec fn opened(
    ranges: Seq<MemoryRange>,
    m: int,
    log: Seq<Seq<Option<Seq<u8>>>>,
) -> Seq<Seq<Option<Seq<u8>>>>
    decreases ranges.len() - log.len(),
{
    if log.len() < ranges.len() && (log.len() == 0 || complete(
        ranges[log.len() - 1],
        m,
        log.last(),
    )) {
        opened(ranges, m, log.push(Seq::empty()))
    } else {
        log
    }
}

/// The state of a scan: what is looked for, where, and what has been read so far, range by range
/// and chunk by chunk.
#[verifier::ext_equal]
pub struct ScanState {
    /// The signature.
    pub pattern: Seq<Option<u8>>,
    /// The ranges to scan.
    pub ranges: Seq<MemoryRange>,
    /// The replies for each range that has been begun.
    pub log: Seq<Seq<Option<Seq<u8>>>>,
}

impl ScanState {
    /// The state before anything is read.
    pub open spec fn begun(pattern: Seq<Option<u8>>, ranges: Seq<MemoryRange>) -> ScanState {
        ScanState { pattern, ranges, log: opened(ranges, pattern.len() as int, Seq::empty()) }
    }

    /// What is to be read next; nothing once all ranges are done.
    pub open spec fn pending(self) -> Option<ReadRequest> {
        let m = self.pattern.len() as int;
        let i = self.log.len() - 1;
        if self.log.len() > 0 && !complete(self.ranges[i], m, self.log[i]) {
            Some(chunk_request(self.ranges[i], m, self.log[i].len() as int))
        } else {
            None
        }
    }

    /// The state after the pending read has been answered.
    pub open spec fn answered(self, reply: Option<Seq<u8>>) -> ScanState {
        let log = self.log.update(self.log.len() - 1, self.log.last().push(reply));
        ScanState { log: opened(self.ranges, self.pattern.len() as int, log), ..self }
    }

    /// The addresses found so far.
    pub open spec fn found(self) -> Seq<u64> {
        ranges_found(self.ranges, self.pattern, self.log)
    }

    /// Whether the replies are those of a scan that goes through the ranges in order: each range
    /// but the last one begun has been read whole, and the next is begun as soon as one is done.
    pub open spec fn in_order(self) -> bool {
        let m = self.pattern.len() as int;
        let n = self.log.len() as int;
        &&& m > 0
        &&& all_valid(self.ranges)
        &&& n <= self.ranges.len()
        &&& forall|i: int|
            0 <= i < n ==> (#[trigger] self.log[i]).len() <= chunk_count(
                self.ranges[i].size as int,
                m,
            )
        &&& forall|i: int|
            0 <= i < n - 1 ==> (#[trigger] self.log[i]).len() == chunk_count(
                self.ranges[i].size as int,
                m,
            )
        &&& n == self.ranges.len() || (n > 0 && !complete(self.ranges[n - 1], m, self.log[n - 1]))
    }

    /// Whether the replies so far are what one memory holds.
    pub open spec fn read_from(self, memory: Map<int, u8>) -> bool {
        forall|i: int, k: int|
            0 <= i < self.log.len() && 0 <= k < self.log[i].len() ==> #[trigger] self.log[i][k]
                == read_of(memory, chunk_request(self.ranges[i], self.pattern.len() as int, k))
    }
}

/// A scan of memory ranges for a signature.
///
/// The scan says what to read next, is handed what was read, and goes on until nothing is left to
/// read. Ranges are read in chunks, so that even an enormous one asks for no giant buffer. A chunk
/// that cannot be read is passed over.
pub struct PatternScan {
    pattern: CompiledPattern,
    ranges: Vec<MemoryRange>,
    index: usize,
    offset: u64,
    matches: Vec<u64>,
    log: Ghost<Seq<Seq<Option<Seq<u8>>>>>,
}

impl View for PatternScan {
    type V = ScanState;

    closed spec fn view(&self) -> ScanState {
        ScanState { pattern: self.pattern@, ranges: self.ranges@, log: self.log@ }
    }
}

impl PatternScan {
    /// What holds between steps, where all ranges before `index` are done.
    spec fn consistent(&self) -> bool {
        &&& self.pattern@.len() > 0
        &&& all_valid(self.ranges@)
        &&& self.index <= self.ranges@.len()
        &&& self.index <= self.log@.len()
        &&& forall|i: int|
            0 <= i < self.index ==> complete(
                self.ranges@[i],
                self.pattern@.len() as int,
                #[trigger] self.log@[i],
            )
        &&& self.matches@ == ranges_found(self.ranges@, self.pattern@, self.log@)
    }

    /// Whether the scan stands before a chunk to read, or has no range left.
    pub closed spec fn wf(&self) -> bool {
        &&& self.consistent()
        &&& if self.index < self.ranges@.len() {
            &&& self.log@.len() == self.index + 1
            &&& self.offset == self.log@.last().len() * SIG_CHUNK
            &&& self.offset < self.ranges@[self.index as int].size
            &&& self.pattern@.len() <= self.ranges@[self.index as int].size
        } else {
            self.log@.len() == self.index
        }
    }

    /// Goes on to the next range that has a chunk to read.
    fn open_next(&mut self)
        requires
            old(self).consistent(),
            old(self).log@.len() == old(self).index,
        ensures
            final(self).wf(),
            final(self)@.pattern == old(self)@.pattern,
            final(self)@.ranges == old(self)@.ranges,
            final(self)@.log == opened(
                old(self)@.ranges,
                old(self)@.pattern.len() as int,
                old(self)@.log,
            ),
    {
        let pat_len: usize = self.pattern.len();
        self.offset = 0;
        while self.index < self.ranges.len()
            invariant
                self.consistent(),
                self.offset == 0,
                self.log@.len() == self.index,
                pat_len == self.pattern@.len(),
                self.pattern@ == old(self).pattern@,
                self.ranges@ == old(self).ranges@,
                opened(self.ranges@, pat_len as int, self.log@) == opened(
                    old(self).ranges@,
                    pat_len as int,
                    old(self).log@,
                ),
            decreases self.ranges@.len() - self.index,
        {
            let ghost before = self.log@;
            proof {
                self.log@ = before.push(Seq::empty());
                assert(self.log@.drop_last() =~= before);
                assert(self.matches@ =~= ranges_found(self.ranges@, self.pattern@, self.log@));
                assert(opened(self.ranges@, pat_len as int, before) == opened(
                    self.ranges@,
                    pat_len as int,
                    self.log@,
                ));
            }
            if self.ranges[self.index].size < pat_len as u64 {
                self.index = self.index + 1;
            } else {
                proof {
                    lemma_chunk_count(
                        self.ranges@[self.index as int].size as int,
                        pat_len as int,
                        0,
                    );
                }
                return;
            }
        }
    }

    /// What is to be read next; nothing once all ranges are done.
    pub fn next_read(&self) -> (r: Option<ReadRequest>)
        requires
            self.wf(),
        ensures
            r == self@.pending(),
    {
        if self.index >= self.ranges.len() {
            return None;
        }
        let range = self.ranges[self.index];
        let pat_len: u64 = self.pattern.len() as u64;
        let remaining: u64 = range.size - self.offset;
        let extra: u64 = pat_len - 1;
        let len: u64 = if remaining <= SIG_CHUNK || remaining - SIG_CHUNK <= extra {
            remaining
        } else {
            SIG_CHUNK + extra
        };
        proof {
            lemma_chunk_count(
                range.size as int,
                pat_len as int,
                self.log@.last().len() as int,
            );
            assert(range.valid());
        }
        Some(ReadRequest { addr: range.base + self.offset, len })
    }

    /// Takes the answer to the pending read: the bytes, or nothing where the memory could not be
    /// read.
    pub fn accept(&mut self, data: Option<&[u8]>)
        requires
            old(self).wf(),
            old(self)@.pending() matches Some(q) && (data matches Some(d) ==> d@.len() == q.len),
        ensures
            final(self).wf(),
            final(self)@ == old(self)@.answered(reply_of(data)),
    {
        assert(self.index < self.ranges.len());
        let range = self.ranges[self.index];
        let ghost before = self@;
        let ghost k = before.log.last().len() as int;
        let ghost reply = reply_of(data);
        let ghost log = before.log.update(before.log.len() - 1, before.log.last().push(reply));
        proof {
            assert(range.valid());
            lemma_chunk_count(range.size as int, self.pattern@.len() as int, k);
            lemma_chunk_count(range.size as int, self.pattern@.len() as int, k + 1);
            self.log@ = log;
            assert(log.drop_last() =~= before.log.drop_last());
            assert(log.last().drop_last() =~= before.log.last());
        }
        if let Some(buf) = data {
            let mut found = self.pattern.find_matches(buf, range.base + self.offset);
            self.matches.append(&mut found);
        }
        assert(self.matches@ =~= ranges_found(self.ranges@, self.pattern@, log));
        if range.size - self.offset <= SIG_CHUNK {
            self.index = self.index + 1;
            self.open_next();
        } else {
            assert((k + 1) * SIG_CHUNK == k * SIG_CHUNK + SIG_CHUNK) by (nonlinear_arith);
            assert(log.last().len() == k + 1);
            self.offset = self.offset + SIG_CHUNK;
            assert(self.consistent());
        }
    }

    /// The addresses found.
    pub fn finish(self) -> (r: Vec<u64>)
        requires
            self.wf(),
        ensures
            r@ == self@.found(),
    {
        self.matches
    }
}

/// Begins a scan of memory ranges.
pub fn scan_ranges(ranges: Vec<MemoryRange>, pattern: CompiledPattern) -> (r: PatternScan)
    requires
        all_valid(ranges@),
    ensures
        r.wf(),
        r@ == ScanState::begun(pattern@, ranges@),
{
    proof {
        use_type_invariant(&pattern);
    }
    let mut scan = PatternScan {
        pattern,
        ranges,
        index: 0,
        offset: 0,
        matches: Vec::new(),
        log: Ghost(Seq::empty()),
    };
    assert(scan.matches@ =~= ranges_found(scan.ranges@, scan.pattern@, scan.log@));
    scan.open_next();
    scan
}

/// Begins a scan of one memory range.
pub fn scan_range(base: u64, size: u64, pattern: CompiledPattern) -> (r: PatternScan)
    requires
        base + size <= 0x1_0000_0000_0000_0000,
    ensures
        r.wf(),
        r@ == ScanState::begun(pattern@, seq![MemoryRange { base, size }]),
{
    let mut ranges: Vec<MemoryRange> = Vec::new();
    ranges.push(MemoryRange { base, size });
    assert(ranges@ =~= seq![MemoryRange { base, size }]);
    scan_ranges(ranges, pattern)
}

/// Whether addresses are in increasing order, each once.
pub open spec fn increasing(s: Seq<u64>) -> bool {
    forall|i: int, j: int| 0 <= i < j < s.len() ==> s[i] < s[j]
}

/// Whether an address is found in the chunk in which it lies.
pub open spec fn found_at(
    range: MemoryRange,
    pat: Seq<Option<u8>>,
    replies: Seq<Option<Seq<u8>>>,
    a: u64,
) -> bool {
    let k = (a - range.base) / (SIG_CHUNK as int);
    &&& range.base <= a
    &&& k < replies.len()
    &&& replies[k] matches Some(buf) && matches_here(pat, buf, (a - range.base) - k * SIG_CHUNK)
}

/// The addresses found in a range are exactly those at which the signature matches in the chunk in
/// which the address lies, in increasing order. So nothing is found twice where chunks overlap.
pub proof fn law_each_found_once(
    range: MemoryRange,
    pat: Seq<Option<u8>>,
    replies: Seq<Option<Seq<u8>>>,
)
    requires
        range.valid(),
        pat.len() > 0,
        replies.len() <= chunk_count(range.size as int, pat.len() as int),
        forall|k: int|
            0 <= k < replies.len() ==> (#[trigger] replies[k] matches Some(buf) ==> buf.len()
                == chunk_len(range.size as int, pat.len() as int, k)),
    ensures
        increasing(range_found(range.base as int, pat, replies)),
        forall|a: u64| #[trigger]
            range_found(range.base as int, pat, replies).contains(a) <==> found_at(
                range,
                pat,
                replies,
                a,
            ),
    decreases replies.len(),
{
    let base = range.base as int;
    let all = range_found(base, pat, replies);
    if replies.len() > 0 {
        let k = replies.len() - 1;
        let rest = replies.drop_last();
        let before = range_found(base, pat, rest);
        law_each_found_once(range, pat, rest);
        lemma_chunk_count(range.size as int, pat.len() as int, k);
        let c = 16777216int;
        assert(SIG_CHUNK == c);
        assert forall|i: int| 0 <= i < before.len() implies base <= #[trigger] before[i] < base + k
            * c by {
            assert(before.contains(before[i]));
        }
        match replies[k] {
            None => {
                assert(all =~= before);
            },
            Some(buf) => {
                let ps = all_hits(pat, buf);
                let new = addresses(base + k * c, ps);
                law_hits_are_the_matches(pat, buf, 0, buf.len() as int);
                assert forall|i: int| 0 <= i < ps.len() implies 0 <= #[trigger] ps[i] < c
                    && new[i] == base + k * c + ps[i] && matches_here(pat, buf, ps[i]) by {
                    assert(ps.contains(ps[i]));
                }
                assert(all == before + new);
                assert forall|a: u64| #[trigger] all.contains(a) <==> found_at(
                    range,
                    pat,
                    replies,
                    a,
                ) by {
                    if all.contains(a) {
                        let i = choose|i: int| 0 <= i < all.len() && all[i] == a;
                        if i < before.len() {
                            assert(before[i] == a);
                            assert(before.contains(a));
                            assert(found_at(range, pat, rest, a));
                        } else {
                            let n = i - before.len();
                            assert(new[n] == a);
                            assert((a - base) / c == k);
                        }
                    }
                    if found_at(range, pat, replies, a) {
                        let n = (a - base) / c;
                        if n == k {
                            let p = a - base - k * c;
                            assert(ps.contains(p));
                            let i = choose|i: int| 0 <= i < ps.len() && ps[i] == p;
                            assert(all[before.len() + i] == a);
                        } else {
                            assert(found_at(range, pat, rest, a));
                            assert(before.contains(a));
                            let i = choose|i: int| 0 <= i < before.len() && before[i] == a;
                            assert(all[i] == a);
                        }
                    }
                }
            },
        }
        if replies[k] is None {
            assert forall|a: u64| #[trigger] all.contains(a) <==> found_at(
                range,
                pat,
                replies,
                a,
            ) by {
                assert(found_at(range, pat, rest, a) <==> found_at(range, pat, replies, a));
            }
        }
    }
}

/// Whether the literal bytes of a signature stand in memory from an address on.
pub open spec fn occurs(pat: Seq<Option<u8>>, memory: Map<int, u8>, a: int) -> bool {
    forall|j: int|
        0 <= j < pat.len() ==> (#[trigger] pat[j] matches Some(b) ==> memory.dom().contains(a + j)
            && memory[a + j] == b)
}

/// A scan of a range whose chunks were all read from one memory finds exactly the addresses at
/// which the signature stands inside the range, except in chunks that could not be read; a match
/// across the end of a chunk is no exception. Where the whole range can be read it finds them all.
pub proof fn law_scan_is_complete(
    range: MemoryRange,
    pat: Seq<Option<u8>>,
    memory: Map<int, u8>,
    replies: Seq<Option<Seq<u8>>>,
)
    requires
        range.valid(),
        pat.len() > 0,
        replies.len() == chunk_count(range.size as int, pat.len() as int),
        forall|k: int|
            0 <= k < replies.len() ==> #[trigger] replies[k] == read_of(
                memory,
                chunk_request(range, pat.len() as int, k),
            ),
    ensures
        increasing(range_found(range.base as int, pat, replies)),
        forall|a: u64| #[trigger]
            range_found(range.base as int, pat, replies).contains(a) <==> {
                &&& range.base <= a
                &&& a + pat.len() <= range.base + range.size
                &&& replies[(a - range.base) / (SIG_CHUNK as int)] is Some
                &&& occurs(pat, memory, a as int)
            },
        (forall|i: int| range.base <= i < range.base + range.size ==> memory.dom().contains(i))
            ==> forall|a: u64| #[trigger]
            range_found(range.base as int, pat, replies).contains(a) <==> {
                &&& range.base <= a
                &&& a + pat.len() <= range.base + range.size
                &&& occurs(pat, memory, a as int)
            },
{
    let base = range.base as int;
    let size = range.size as int;
    let m = pat.len() as int;
    let c = 16777216int;
    assert(SIG_CHUNK == c);
    assert forall|k: int| 0 <= k < replies.len() implies (#[trigger] replies[k] matches Some(buf)
        ==> buf.len() == chunk_len(size, m, k)) by {
        lemma_chunk_count(size, m, k);
    }
    law_each_found_once(range, pat, replies);
    let all = range_found(base, pat, replies);
    assert forall|a: u64| #[trigger] all.contains(a) <==> {
        &&& range.base <= a
        &&& a + pat.len() <= range.base + range.size
        &&& replies[(a - range.base) / (SIG_CHUNK as int)] is Some
        &&& occurs(pat, memory, a as int)
    } by {
        let k = (a - base) / c;
        let p = a - base - k * c;
        if range.base <= a {
            assert(0 <= p < c);
            if size >= m {
                lemma_chunk_count(size, m, k);
            }
            if k < replies.len() && replies[k] is Some {
                let q = chunk_request(range, m, k);
                let buf = replies[k].unwrap();
                assert(q.addr == base + k * c);
                assert forall|j: int| 0 <= j < buf.len() implies #[trigger] buf[j] == memory[base
                    + k * c + j] && memory.dom().contains(base + k * c + j) by {
                    assert(memory.dom().contains(q.addr + j));
                }
                if matches_here(pat, buf, p) {
                    assert forall|j: int| 0 <= j < pat.len() implies (#[trigger] pat[j] matches Some(
                        b,
                    ) ==> memory.dom().contains(a + j) && memory[a + j] == b) by {
                        assert(buf[p + j] == memory[base + k * c + (p + j)]);
                    }
                }
                if a + m <= base + size && occurs(pat, memory, a as int) {
                    assert forall|j: int| 0 <= j < pat.len() implies (#[trigger] pat[j] matches Some(
                        b,
                    ) ==> buf[p + j] == b) by {
                        assert(buf[p + j] == memory[base + k * c + (p + j)]);
                    }
                    assert(matches_here(pat, buf, p));
                }
            }
        }
    }
    if forall|i: int| range.base <= i < range.base + range.size ==> memory.dom().contains(i) {
        assert forall|a: u64| #[trigger] all.contains(a) <==> {
            &&& range.base <= a
            &&& a + pat.len() <= range.base + range.size
            &&& occurs(pat, memory, a as int)
        } by {
            if range.base <= a && a + pat.len() <= range.base + range.size {
                let k = (a - base) / c;
                lemma_chunk_count(size, m, k);
                let q = chunk_request(range, m, k);
                assert(replies[k] == read_of(memory, q));
                assert forall|i: int| 0 <= i < q.len implies memory.dom().contains(
                    #[trigger] (q.addr + i),
                ) by {
                    assert(base <= q.addr + i < base + size);
                }
            }
        }
    }
}

/// What is found in several ranges is what is found in each of them.
pub proof fn law_ranges_found(
    ranges: Seq<MemoryRange>,
    pat: Seq<Option<u8>>,
    log: Seq<Seq<Option<Seq<u8>>>>,
    a: u64,
)
    ensures
        ranges_found(ranges, pat, log).contains(a) <==> exists|i: int|
            0 <= i < log.len() && range_found(
                ranges[i].base as int,
                pat,
                #[trigger] log[i],
            ).contains(a),
    decreases log.len(),
{
    if log.len() > 0 {
        let rest = log.drop_last();
        law_ranges_found(ranges, pat, rest, a);
        let before = ranges_found(ranges, pat, rest);
        let n = log.len() - 1;
        let new = range_found(ranges[n].base as int, pat, log[n]);
        let all = ranges_found(ranges, pat, log);
        assert(all == before + new);
        if all.contains(a) {
            let i = choose|i: int| 0 <= i < all.len() && all[i] == a;
            if i < before.len() {
                assert(before[i] == a);
                let j = choose|j: int|
                    0 <= j < rest.len() && range_found(
                        ranges[j].base as int,
                        pat,
                        #[trigger] rest[j],
                    ).contains(a);
                assert(log[j] == rest[j]);
            } else {
                assert(new[i - before.len()] == a);
                assert(range_found(ranges[n].base as int, pat, log[n]).contains(a));
            }
        }
        if exists|i: int|
            0 <= i < log.len() && range_found(
                ranges[i].base as int,
                pat,
                #[trigger] log[i],
            ).contains(a) {
            let j = choose|i: int|
                0 <= i < log.len() && range_found(
                    ranges[i].base as int,
                    pat,
                    #[trigger] log[i],
                ).contains(a);
            if j == n {
                let i = choose|i: int| 0 <= i < new.len() && new[i] == a;
                assert(all[before.len() + i] == a);
            } else {
                assert(rest[j] == log[j]);
                assert(before.contains(a));
                let i = choose|i: int| 0 <= i < before.len() && before[i] == a;
                assert(all[i] == a);
            }
        }
    }
}

/// Going on from ranges that are done gives a scan in order, and adds no reply.
proof fn lemma_opened(s: ScanState)
    requires
        s.pattern.len() > 0,
        all_valid(s.ranges),
        s.log.len() <= s.ranges.len(),
        forall|i: int|
            0 <= i < s.log.len() ==> (#[trigger] s.log[i]).len() == chunk_count(
                s.ranges[i].size as int,
                s.pattern.len() as int,
            ),
    ensures
        ({
            let log = opened(s.ranges, s.pattern.len() as int, s.log);
            &&& (ScanState { log, ..s }).in_order()
            &&& s.log.len() <= log.len()
            &&& forall|i: int| 0 <= i < s.log.len() ==> #[trigger] log[i] == s.log[i]
            &&& forall|i: int| s.log.len() <= i < log.len() ==> (#[trigger] log[i]).len() == 0
        }),
    decreases s.ranges.len() - s.log.len(),
{
    let m = s.pattern.len() as int;
    let n = s.log.len() as int;
    if n < s.ranges.len() {
        let next = s.log.push(Seq::empty());
        let size = s.ranges[n].size as int;
        if size < m {
            let t = ScanState { log: next, ..s };
            lemma_opened(t);
            assert forall|i: int| 0 <= i < n implies #[trigger] opened(s.ranges, m, s.log)[i]
                == s.log[i] by {
                assert(next[i] == s.log[i]);
            }
        } else {
            lemma_chunk_count(size, m, 0);
            assert(opened(s.ranges, m, s.log) == opened(s.ranges, m, next));
            assert(opened(s.ranges, m, next) == next);
        }
    }
}

/// A scan goes through its ranges in order from its beginning, each answer keeps that, and answers
/// that are read from one memory stay so.
pub proof fn law_scan_goes_in_order(
    pattern: Seq<Option<u8>>,
    ranges: Seq<MemoryRange>,
    s: ScanState,
    reply: Option<Seq<u8>>,
    memory: Map<int, u8>,
)
    requires
        pattern.len() > 0,
        all_valid(ranges),
    ensures
        ScanState::begun(pattern, ranges).in_order(),
        ScanState::begun(pattern, ranges).read_from(memory),
        s.in_order() && s.pending() is Some ==> s.answered(reply).in_order(),
        s.in_order() && s.read_from(memory) && (s.pending() matches Some(q) && reply == read_of(
            memory,
            q,
        )) ==> s.answered(reply).read_from(memory),
{
    lemma_opened(ScanState { pattern, ranges, log: Seq::empty() });
    if s.in_order() && s.pending() is Some {
        lemma_answer_keeps_order(s, reply, memory);
    }
}

/// An answer keeps a scan in order, and one that is read from a memory keeps it read from it.
proof fn lemma_answer_keeps_order(s: ScanState, reply: Option<Seq<u8>>, memory: Map<int, u8>)
    requires
        s.in_order(),
        s.pending() is Some,
    ensures
        s.answered(reply).in_order(),
        s.read_from(memory) && reply == read_of(memory, s.pending().unwrap()) ==> s.answered(
            reply,
        ).read_from(memory),
{
    let m = s.pattern.len() as int;
    let n = s.log.len() - 1;
    let log = s.log.update(n, s.log.last().push(reply));
    let t = ScanState { log, ..s };
    if complete(s.ranges[n], m, log[n]) {
        assert forall|i: int| 0 <= i < log.len() implies (#[trigger] log[i]).len() == chunk_count(
            s.ranges[i].size as int,
            m,
        ) by {
            assert(s.log[i].len() <= chunk_count(s.ranges[i].size as int, m));
        }
        lemma_opened(t);
    } else {
        assert(s.answered(reply).log == log);
        assert forall|i: int| 0 <= i < log.len() implies (#[trigger] log[i]).len() <= chunk_count(
            s.ranges[i].size as int,
            m,
        ) by {
            assert(s.log[i].len() <= chunk_count(s.ranges[i].size as int, m));
        }
        assert forall|i: int| 0 <= i < log.len() - 1 implies (#[trigger] log[i]).len()
            == chunk_count(s.ranges[i].size as int, m) by {
            assert(s.log[i] == log[i]);
        }
    }
    let u = s.answered(reply);
    if s.read_from(memory) && reply == read_of(memory, s.pending().unwrap()) {
        assert forall|i: int, k: int| 0 <= i < u.log.len() && 0 <= k < u.log[i].len() implies
            #[trigger] u.log[i][k] == read_of(memory, chunk_request(u.ranges[i], m, k)) by {
            assert(i <= n);
            assert(u.log[i] == log[i]);
            if i < n || k < s.log[i].len() {
                assert(log[i][k] == s.log[i][k]);
            }
        }
    }
}

/// A scan that has nothing left to read, and was answered from one memory throughout, has found
/// exactly the addresses at which the signature stands inside one of its ranges, but for chunks
/// that cannot be read.
pub proof fn law_finished_scan(s: ScanState, memory: Map<int, u8>, a: u64)
    requires
        s.in_order(),
        s.read_from(memory),
        s.pending() is None,
    ensures
        s.found().contains(a) <==> exists|i: int|
            0 <= i < s.ranges.len() && {
                let range = #[trigger] s.ranges[i];
                let k = (a - range.base) / (SIG_CHUNK as int);
                &&& range.base <= a
                &&& a + s.pattern.len() <= range.base + range.size
                &&& read_of(memory, chunk_request(range, s.pattern.len() as int, k)) is Some
                &&& occurs(s.pattern, memory, a as int)
            },
{
    let m = s.pattern.len() as int;
    law_ranges_found(s.ranges, s.pattern, s.log, a);
    assert(s.log.len() == s.ranges.len());
    assert forall|i: int| 0 <= i < s.ranges.len() implies {
        let range = #[trigger] s.ranges[i];
        let k = (a - range.base) / (SIG_CHUNK as int);
        range_found(range.base as int, s.pattern, s.log[i]).contains(a) <==> {
            &&& range.base <= a
            &&& a + s.pattern.len() <= range.base + range.size
            &&& read_of(memory, chunk_request(range, m, k)) is Some
            &&& occurs(s.pattern, memory, a as int)
        }
    } by {
        let range = s.ranges[i];
        let k = (a - range.base) / (SIG_CHUNK as int);
        let replies = s.log[i];
        assert(replies.len() == chunk_count(range.size as int, m));
        assert forall|j: int| 0 <= j < replies.len() implies #[trigger] replies[j] == read_of(
            memory,
            chunk_request(range, m, j),
        ) by {
            assert(s.log[i][j] == read_of(memory, chunk_request(s.ranges[i], m, j)));
        }
        law_scan_is_complete(range, s.pattern, memory, replies);
        if range.base <= a && a + m <= range.base + range.size {
            assert(SIG_CHUNK == 16777216);
            assert(0 <= k && k * 16777216 <= a - range.base);
            lemma_chunk_count(range.size as int, m, k);
            assert(replies[k] == read_of(memory, chunk_request(range, m, k)));
        }
    }
    if s.found().contains(a) {
        let i = choose|i: int|
            0 <= i < s.log.len() && range_found(
                s.ranges[i].base as int,
                s.pattern,
                #[trigger] s.log[i],
            ).contains(a);
        assert(s.ranges[i].valid());
    }
    if exists|i: int|
        0 <= i < s.ranges.len() && {
            let range = #[trigger] s.ranges[i];
            let k = (a - range.base) / (SIG_CHUNK as int);
            &&& range.base <= a
            &&& a + s.pattern.len() <= range.base + range.size
            &&& read_of(memory, chunk_request(range, m, k)) is Some
            &&& occurs(s.pattern, memory, a as int)
        } {
        let i = choose|i: int|
            0 <= i < s.ranges.len() && {
                let range = #[trigger] s.ranges[i];
                let k = (a - range.base) / (SIG_CHUNK as int);
                &&& range.base <= a
                &&& a + s.pattern.len() <= range.base + range.size
                &&& read_of(memory, chunk_request(range, m, k)) is Some
                &&& occurs(s.pattern, memory, a as int)
            };
        assert(range_found(s.ranges[i].base as int, s.pattern, s.log[i]).contains(a));
    }
}

/// The number of chunks in the first `n` ranges.
pub open spec fn chunks_in(ranges: Seq<MemoryRange>, m: int, n: int) -> int
    decreases n,
{
    if n <= 0 {
        0
    } else {
        chunks_in(ranges, m, n - 1) + chunk_count(ranges[n - 1].size as int, m)
    }
}

/// The number of replies so far.
pub open spec fn reply_count(log: Seq<Seq<Option<Seq<u8>>>>) -> int
    decreases log.len(),
{
    if log.len() == 0 {
        0
    } else {
        reply_count(log.drop_last()) + log.last().len()
    }
}

/// Where all ranges but the last one begun are done, the replies are the chunks of those ranges and
/// the replies for the last one.
proof fn lemma_reply_count(s: ScanState, n: int)
    requires
        s.in_order(),
        0 <= n <= s.log.len(),
    ensures
        n < s.log.len() ==> reply_count(s.log.take(n)) == chunks_in(
            s.ranges,
            s.pattern.len() as int,
            n,
        ),
        n > 0 ==> reply_count(s.log.take(n)) == chunks_in(
            s.ranges,
            s.pattern.len() as int,
            n - 1,
        ) + s.log[n - 1].len(),
    decreases n,
{
    if n > 0 {
        lemma_reply_count(s, n - 1);
        assert(s.log.take(n).drop_last() =~= s.log.take(n - 1));
        assert(s.log.take(n).last() == s.log[n - 1]);
    }
}

/// Replies that are all empty count nothing.
proof fn lemma_reply_count_opened(log: Seq<Seq<Option<Seq<u8>>>>, n: int)
    requires
        0 <= n <= log.len(),
        forall|i: int| n <= i < log.len() ==> (#[trigger] log[i]).len() == 0,
    ensures
        reply_count(log) == reply_count(log.take(n)),
    decreases log.len() - n,
{
    if n < log.len() {
        lemma_reply_count_opened(log.drop_last(), n);
        assert(log.drop_last().take(n) =~= log.take(n));
        assert(log.last().len() == 0);
    } else {
        assert(log.take(n) =~= log);
    }
}

/// A scan that has begun has no replies.
pub proof fn lemma_begun_counts_nothing(pattern: Seq<Option<u8>>, ranges: Seq<MemoryRange>)
    requires
        pattern.len() > 0,
        all_valid(ranges),
    ensures
        reply_count(ScanState::begun(pattern, ranges).log) == 0,
{
    lemma_opened(ScanState { pattern, ranges, log: Seq::empty() });
    lemma_reply_count_opened(ScanState::begun(pattern, ranges).log, 0);
    assert(ScanState::begun(pattern, ranges).log.take(0) =~= Seq::empty());
}

/// A scan asks for every chunk of its ranges once and then for nothing more: each answer counts
/// one, and nothing is pending exactly when the answers are as many as the chunks.
pub proof fn law_scan_ends(s: ScanState, reply: Option<Seq<u8>>)
    requires
        s.in_order(),
    ensures
        reply_count(s.log) <= chunks_in(s.ranges, s.pattern.len() as int, s.ranges.len() as int),
        s.pending() is None <==> reply_count(s.log) == chunks_in(
            s.ranges,
            s.pattern.len() as int,
            s.ranges.len() as int,
        ),
        s.pending() is Some ==> reply_count(s.answered(reply).log) == reply_count(s.log) + 1,
{
    let m = s.pattern.len() as int;
    let n = s.log.len() as int;
    lemma_reply_count(s, n);
    assert(s.log.take(n) =~= s.log);
    lemma_chunks_grow(s.ranges, m, n, s.ranges.len() as int);
    if n > 0 {
        lemma_chunks_grow(s.ranges, m, n - 1, n);
    }
    if s.pending() is Some {
        let log = s.log.update(n - 1, s.log.last().push(reply));
        assert(log.drop_last() =~= s.log.drop_last());
        assert(reply_count(log) == reply_count(s.log) + 1);
        let t = ScanState { log, ..s };
        if complete(s.ranges[n - 1], m, log[n - 1]) {
            assert forall|i: int| 0 <= i < log.len() implies (#[trigger] log[i]).len()
                == chunk_count(s.ranges[i].size as int, m) by {
                assert(s.log[i].len() <= chunk_count(s.ranges[i].size as int, m));
            }
            lemma_opened(t);
            let after = s.answered(reply).log;
            lemma_reply_count_opened(after, n);
            assert(after.take(n) =~= log);
        } else {
            assert(s.answered(reply).log == log);
        }
    }
}

/// More ranges have no fewer chunks.
proof fn lemma_chunks_grow(ranges: Seq<MemoryRange>, m: int, a: int, b: int)
    requires
        0 <= a <= b <= ranges.len(),
        m > 0,
    ensures
        chunks_in(ranges, m, a) <= chunks_in(ranges, m, b),
        a < b ==> chunks_in(ranges, m, a) + chunk_count(ranges[a].size as int, m) <= chunks_in(
            ranges,
            m,
            b,
        ),
    decreases b - a,
{
    if a < b {
        lemma_chunks_grow(ranges, m, a, b - 1);
        let size = ranges[b - 1].size as int;
        if m <= size {
            lemma_chunk_count(size, m, 0);
        }
    }
}

/// In a buffer a signature is found at a position exactly where it lies inside and each of its
/// literal bytes stands at its place from there on. The positions come in increasing order, each
/// once, and count from the address of the buffer.
pub proof fn law_buffer_scan(pat: Seq<Option<u8>>, buf: Seq<u8>, p: int, i: int, j: int, base: int)
    ensures
        ({
            let ps = all_hits(pat, buf);
            &&& ps.contains(p) <==> 0 <= p < buf.len() && p + pat.len() <= buf.len() && forall|k: int|
                0 <= k < pat.len() && #[trigger] pat[k] is Some ==> buf[p + k] == pat[k].unwrap()
            &&& 0 <= i < j < ps.len() ==> ps[i] < ps[j]
            &&& addresses(base, ps).len() == ps.len()
            &&& 0 <= i < ps.len() && 0 <= base + ps[i] <= u64::MAX ==> addresses(base, ps)[i] == base
                + ps[i]
        }),
{
    law_hits_are_the_matches(pat, buf, 0, buf.len() as int);
    assert(matches_here(pat, buf, p) <==> 0 <= p && p + pat.len() <= buf.len() && forall|k: int|
        0 <= k < pat.len() && #[trigger] pat[k] is Some ==> buf[p + k] == pat[k].unwrap());
}

/// Machine numbers are the same numbers.
pub proof fn law_as_ints(s: Seq<usize>, i: int)
    ensures
        as_ints(s).len() == s.len(),
        0 <= i < s.len() ==> as_ints(s)[i] == s[i],
{
}

/// The chunks of a range follow each other without a gap, up to the end of the range, and each
/// reaches one byte less than a signature into the next, so far as the range does. A range that is
/// too short for the signature has none.
pub proof fn law_chunks(range: MemoryRange, m: int, k: int)
    requires
        range.valid(),
        m > 0,
        0 <= k < chunk_count(range.size as int, m),
    ensures
        ({
            let q = chunk_request(range, m, k);
            let end = range.base + range.size;
            let next = range.base + (k + 1) * SIG_CHUNK;
            &&& q.addr == range.base + k * SIG_CHUNK
            &&& k + 1 < chunk_count(range.size as int, m) <==> next < end
            &&& q.addr + q.len == (if next + m - 1 <= end {
                next + m - 1
            } else {
                end as int
            })
        }),
        range.size >= m,
{
    lemma_chunk_inside(range, m, k);
    lemma_chunk_count(range.size as int, m, k);
    lemma_chunk_count(range.size as int, m, k + 1);
    assert(SIG_CHUNK == 16777216);
}

} // verus!

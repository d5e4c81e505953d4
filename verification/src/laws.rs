//! What whole operations promise: scans, filter passes, read-backs and writes that are carried
//! through to their end against one memory.
//!
//! An operation on memory asks for one read after the other. Here every request is answered from
//! one memory, and the laws say what comes out in terms of what that memory holds.

use vstd::prelude::*;

use crate::memory::{
    all_valid, law_read_gives_back_the_write, read_of, write_of, MemoryRange, ReadRequest,
};
use crate::number::{digit_char, digit_of, lemma_digit_char};
use crate::session::{
    job_done, law_written_reads_back, selected, ReadBackState, WriteState, WriteTarget,
};
use crate::sig_scan::{
    chunk_len, chunk_request, chunks_in, found_at, increasing, law_each_found_once,
    law_finished_scan, law_scan_ends, law_scan_goes_in_order, lemma_begun_counts_nothing,
    lemma_chunk_inside, pattern_of, range_found, ranges_found, reply_count, token_of, ScanState,
    SIG_CHUNK,
};
use crate::text::{is_space, law_words, words};
use crate::types::value_text;
use crate::value_scanner::{
    holding, law_filter_is_stable, law_filter_keeps_the_equal, law_found_reads_back, sought,
    FilterState,
};

verus! {

/// A scan after up to `n` requests, each answered from a memory.
pub open spec fn scan_after(s: ScanState, memory: Map<int, u8>, n: nat) -> ScanState
    decreases n,
{
    if n == 0 {
        s
    } else {
        let before = scan_after(s, memory, (n - 1) as nat);
        match before.pending() {
            Some(q) => before.answered(read_of(memory, q)),
            None => before,
        }
    }
}

/// A filter pass after up to `n` requests, each answered from a memory.
pub open spec fn filter_after(s: FilterState, memory: Map<int, u8>, n: nat) -> FilterState
    decreases n,
{
    if n == 0 {
        s
    } else {
        let before = filter_after(s, memory, (n - 1) as nat);
        match before.pending() {
            Some(q) => before.answered(read_of(memory, q)),
            None => before,
        }
    }
}

/// Matches that are read back, after up to `n` requests, each answered from a memory. `shown` is
/// how bytes are written where they are a floating-point number.
pub open spec fn read_back_after(
    s: ReadBackState,
    memory: Map<int, u8>,
    shown: spec_fn(Seq<u8>) -> Seq<char>,
    n: nat,
) -> ReadBackState
    decreases n,
{
    if n == 0 {
        s
    } else {
        let before = read_back_after(s, memory, shown, (n - 1) as nat);
        match before.pending() {
            Some(q) => match read_of(memory, q) {
                Some(buf) => match value_text(before.typename, buf, shown(buf)) {
                    Some(text) => before.shown(text),
                    None => before,
                },
                None => before,
            },
            None => before,
        }
    }
}

/// A read gives the bytes that the memory holds, one for each address, and nothing where an address
/// holds none.
pub proof fn law_read_gives_what_is_held(memory: Map<int, u8>, q: ReadRequest, i: int)
    requires
        0 <= i < q.len,
    ensures
        read_of(memory, q) matches Some(b) ==> {
            &&& b.len() == q.len
            &&& memory.dom().contains(q.addr + i)
            &&& b[i] == memory[q.addr + i]
        },
        (forall|j: int| q.addr <= j < q.addr + q.len ==> memory.dom().contains(j)) ==> read_of(
            memory,
            q,
        ) is Some,
{
}

/// A scan that is answered from one memory goes through its ranges in order, and keeps what it
/// looks for and where.
proof fn lemma_scan_after(
    pattern: Seq<Option<u8>>,
    ranges: Seq<MemoryRange>,
    memory: Map<int, u8>,
    n: nat,
)
    requires
        pattern.len() > 0,
        all_valid(ranges),
    ensures
        ({
            let s = scan_after(ScanState::begun(pattern, ranges), memory, n);
            &&& s.pattern == pattern
            &&& s.ranges == ranges
            &&& s.in_order()
            &&& s.read_from(memory)
        }),
    decreases n,
{
    let begun = ScanState::begun(pattern, ranges);
    law_scan_goes_in_order(pattern, ranges, begun, None, memory);
    if n > 0 {
        lemma_scan_after(pattern, ranges, memory, (n - 1) as nat);
        let before = scan_after(begun, memory, (n - 1) as nat);
        if let Some(q) = before.pending() {
            law_scan_goes_in_order(pattern, ranges, before, read_of(memory, q), memory);
        }
    }
}

/// A scan has replies for as many chunks as it was answered.
proof fn lemma_scan_counts(
    pattern: Seq<Option<u8>>,
    ranges: Seq<MemoryRange>,
    memory: Map<int, u8>,
    n: nat,
)
    requires
        pattern.len() > 0,
        all_valid(ranges),
        n <= chunks_in(ranges, pattern.len() as int, ranges.len() as int),
    ensures
        reply_count(scan_after(ScanState::begun(pattern, ranges), memory, n).log) == n,
    decreases n,
{
    let begun = ScanState::begun(pattern, ranges);
    if n == 0 {
        lemma_begun_counts_nothing(pattern, ranges);
    } else {
        lemma_scan_counts(pattern, ranges, memory, (n - 1) as nat);
        lemma_scan_after(pattern, ranges, memory, (n - 1) as nat);
        let before = scan_after(begun, memory, (n - 1) as nat);
        law_scan_ends(before, None);
        if let Some(q) = before.pending() {
            law_scan_ends(before, read_of(memory, q));
        }
    }
}

/// A scan comes to its end: after as many requests as its ranges have chunks it asks for nothing
/// more.
pub proof fn law_scan_comes_to_its_end(
    pattern: Seq<Option<u8>>,
    ranges: Seq<MemoryRange>,
    memory: Map<int, u8>,
)
    requires
        pattern.len() > 0,
        all_valid(ranges),
    ensures
        exists|n: nat|
            (#[trigger] scan_after(ScanState::begun(pattern, ranges), memory, n)).pending() is None,
{
    let begun = ScanState::begun(pattern, ranges);
    lemma_scan_after(pattern, ranges, memory, 0);
    law_scan_ends(begun, None);
    lemma_begun_counts_nothing(pattern, ranges);
    let n = chunks_in(ranges, pattern.len() as int, ranges.len() as int) as nat;
    lemma_scan_counts(pattern, ranges, memory, n);
    lemma_scan_after(pattern, ranges, memory, n);
    law_scan_ends(scan_after(begun, memory, n), None);
}

/// Whether the part of a range can be read in which an address is looked at: from the last multiple
/// of the chunk size on, for a chunk and the `m` bytes that may begin with its last, so far as the
/// range reaches.
pub open spec fn window_held(range: MemoryRange, m: int, memory: Map<int, u8>, a: int) -> bool {
    let from = range.base + (a - range.base) / (SIG_CHUNK as int) * SIG_CHUNK;
    forall|x: int|
        from <= x < from + SIG_CHUNK + m - 1 && x < range.base + range.size ==> memory.dom().contains(
            x,
        )
}

/// A number, or one in place of zero.
pub open spec fn at_least_one(n: nat) -> int {
    if n == 0 {
        1
    } else {
        n as int
    }
}

/// A signature scan that is carried to its end finds an address exactly where every literal byte of
/// the signature stands in memory from it on, inside a range; only where the memory around the
/// address cannot be read, it may be passed over.
pub proof fn law_signature_scan_finds(
    pattern: Seq<Option<u8>>,
    ranges: Seq<MemoryRange>,
    memory: Map<int, u8>,
    n: nat,
    a: u64,
)
    requires
        pattern.len() > 0,
        all_valid(ranges),
        scan_after(ScanState::begun(pattern, ranges), memory, n).pending() is None,
    ensures
        ({
            let found = scan_after(ScanState::begun(pattern, ranges), memory, n).found();
            let stands = forall|j: int|
                0 <= j < pattern.len() ==> (#[trigger] pattern[j] matches Some(b)
                    ==> memory.dom().contains(a + j) && memory[a + j] == b);
            &&& found.contains(a) ==> stands && exists|i: int|
                0 <= i < ranges.len() && (#[trigger] ranges[i]).base <= a && a + pattern.len()
                    <= ranges[i].base + ranges[i].size
            &&& stands && (exists|i: int|
                0 <= i < ranges.len() && (#[trigger] ranges[i]).base <= a && a + pattern.len()
                    <= ranges[i].base + ranges[i].size && window_held(
                    ranges[i],
                    pattern.len() as int,
                    memory,
                    a as int,
                )) ==> found.contains(a)
        }),
{
    let s = scan_after(ScanState::begun(pattern, ranges), memory, n);
    let m = pattern.len() as int;
    lemma_scan_after(pattern, ranges, memory, n);
    law_finished_scan(s, memory, a);
    if exists|i: int|
        0 <= i < ranges.len() && (#[trigger] ranges[i]).base <= a && a + pattern.len()
            <= ranges[i].base + ranges[i].size && window_held(ranges[i], m, memory, a as int) {
        let i = choose|i: int|
            0 <= i < ranges.len() && (#[trigger] ranges[i]).base <= a && a + pattern.len()
                <= ranges[i].base + ranges[i].size && window_held(ranges[i], m, memory, a as int);
        let range = ranges[i];
        let k = (a - range.base) / (SIG_CHUNK as int);
        let q = chunk_request(range, m, k);
        assert(range.valid());
        assert(SIG_CHUNK == 16777216);
        assert(0 <= k * 16777216 <= a - range.base);
        assert(q.addr == range.base + k * 16777216);
        assert(q.len == chunk_len(range.size as int, m, k));
        assert forall|x: int| 0 <= x < q.len implies memory.dom().contains(#[trigger] (q.addr + x)) by {
            let y = q.addr + x;
            assert(y < range.base + range.size);
        }
        assert(read_of(memory, q) is Some);
        assert(s.ranges[i] == range);
    }
}

/// A first pass for bytes that is carried to its end finds an address exactly where reading as many
/// bytes from it on gives those bytes, inside a range; only where the memory around the address
/// cannot be read, it may be passed over. No bytes at all stand at every address of a range.
pub proof fn law_first_pass_finds(
    data: Seq<u8>,
    ranges: Seq<MemoryRange>,
    memory: Map<int, u8>,
    n: nat,
    a: u64,
)
    requires
        data.len() <= u64::MAX,
        all_valid(ranges),
        scan_after(ScanState::begun(sought(data), ranges), memory, n).pending() is None,
    ensures
        ({
            let found = scan_after(ScanState::begun(sought(data), ranges), memory, n).found();
            let q = ReadRequest { addr: a, len: data.len() as u64 };
            &&& found.contains(a) ==> read_of(memory, q) == Some(data) && exists|i: int|
                0 <= i < ranges.len() && (#[trigger] ranges[i]).base <= a < ranges[i].base
                    + ranges[i].size && a + data.len() <= ranges[i].base + ranges[i].size
            &&& read_of(memory, q) == Some(data) && (exists|i: int|
                0 <= i < ranges.len() && (#[trigger] ranges[i]).base <= a < ranges[i].base
                    + ranges[i].size && a + data.len() <= ranges[i].base + ranges[i].size
                    && window_held(ranges[i], at_least_one(data.len()), memory, a as int))
                ==> found.contains(a)
        }),
{
    let pattern = sought(data);
    let q = ReadRequest { addr: a, len: data.len() as u64 };
    let s = scan_after(ScanState::begun(pattern, ranges), memory, n);
    lemma_scan_after(pattern, ranges, memory, n);
    law_signature_scan_finds(pattern, ranges, memory, n, a);
    if s.found().contains(a) {
        law_found_reads_back(s, data, memory, a);
    }
    if read_of(memory, q) == Some(data) {
        assert forall|j: int| 0 <= j < pattern.len() implies (#[trigger] pattern[j] matches Some(b)
            ==> memory.dom().contains(a + j) && memory[a + j] == b) by {
            if data.len() > 0 {
                assert(memory.dom().contains(q.addr + j));
                assert(data[j] == memory[q.addr + j]);
            }
        }
        if exists|i: int|
            0 <= i < ranges.len() && (#[trigger] ranges[i]).base <= a < ranges[i].base
                + ranges[i].size && a + data.len() <= ranges[i].base + ranges[i].size
                && window_held(ranges[i], at_least_one(data.len()), memory, a as int) {
            let i = choose|i: int|
                0 <= i < ranges.len() && (#[trigger] ranges[i]).base <= a < ranges[i].base
                    + ranges[i].size && a + data.len() <= ranges[i].base + ranges[i].size
                    && window_held(ranges[i], at_least_one(data.len()), memory, a as int);
            assert(window_held(ranges[i], pattern.len() as int, memory, a as int));
        }
    }
}

/// A filter pass that is answered from one memory has the replies of its first addresses.
proof fn lemma_filter_after(
    targets: Seq<u64>,
    data: Seq<u8>,
    memory: Map<int, u8>,
    n: nat,
)
    requires
        n <= targets.len(),
    ensures
        ({
            let s = filter_after(
                FilterState { targets, data, replies: Seq::empty() },
                memory,
                n,
            );
            &&& s.targets == targets
            &&& s.data == data
            &&& s.replies.len() == n
            &&& forall|i: int|
                0 <= i < n ==> #[trigger] s.replies[i] == read_of(
                    memory,
                    ReadRequest { addr: targets[i], len: data.len() as u64 },
                )
        }),
    decreases n,
{
    if n > 0 {
        lemma_filter_after(targets, data, memory, (n - 1) as nat);
    }
}

/// A filter pass that is carried to its end asks once for each of the former matches, and hands out
/// exactly those at which reading gives the bytes of the value, in the order they had.
pub proof fn law_filter_pass_keeps(targets: Seq<u64>, data: Seq<u8>, memory: Map<int, u8>, a: u64)
    requires
        data.len() <= u64::MAX,
    ensures
        ({
            let begun = FilterState { targets, data, replies: Seq::empty() };
            let done = filter_after(begun, memory, targets.len());
            &&& done.pending() is None
            &&& done.found() == targets.filter(holding(memory, data))
            &&& done.found().contains(a) <==> targets.contains(a) && read_of(
                memory,
                ReadRequest { addr: a, len: data.len() as u64 },
            ) == Some(data)
            &&& (forall|i: int|
                0 <= i < targets.len() ==> read_of(
                    memory,
                    ReadRequest { addr: #[trigger] targets[i], len: data.len() as u64 },
                ) == Some(data)) ==> done.found() == targets
        }),
{
    let begun = FilterState { targets, data, replies: Seq::empty() };
    let done = filter_after(begun, memory, targets.len());
    lemma_filter_after(targets, data, memory, targets.len());
    law_filter_keeps_the_equal(targets, data, memory, done.replies);
    let held = holding(memory, data);
    if targets.contains(a) && held(a) {
        let i = choose|i: int| 0 <= i < targets.len() && targets[i] == a;
        targets.lemma_filter_contains(held, i);
    }
    if targets.filter(held).contains(a) {
        targets.lemma_filter_contains_rev(held, a);
    }
    if forall|i: int|
        0 <= i < targets.len() ==> read_of(
            memory,
            ReadRequest { addr: #[trigger] targets[i], len: data.len() as u64 },
        ) == Some(data) {
        law_filter_is_stable(targets, data, done.replies);
        assert(targets.take(targets.len() as int) =~= targets);
    }
}

/// A filter pass hands out former matches in the order they had: two of them that it keeps stand in
/// the same order before and after it.
pub proof fn law_filter_pass_keeps_order(
    targets: Seq<u64>,
    data: Seq<u8>,
    memory: Map<int, u8>,
)
    requires
        data.len() <= u64::MAX,
        increasing(targets),
    ensures
        increasing(
            filter_after(
                FilterState { targets, data, replies: Seq::empty() },
                memory,
                targets.len(),
            ).found(),
        ),
{
    law_filter_pass_keeps(targets, data, memory, 0);
    lemma_filter_increasing(targets, holding(memory, data));
}

/// What a test keeps of increasing addresses increases.
proof fn lemma_filter_increasing(s: Seq<u64>, test: spec_fn(u64) -> bool)
    requires
        increasing(s),
    ensures
        increasing(s.filter(test)),
    decreases s.len(),
{
    reveal(Seq::filter);
    if s.len() > 0 {
        let rest = s.drop_last();
        lemma_filter_increasing(rest, test);
        let kept = rest.filter(test);
        assert forall|i: int| 0 <= i < kept.len() implies #[trigger] kept[i] < s.last() by {
            rest.lemma_filter_contains_rev(test, kept[i]);
            let j = choose|j: int| 0 <= j < rest.len() && rest[j] == kept[i];
            assert(s[j] < s[s.len() - 1]);
        }
    }
}

/// Matches that are read back from one memory show themselves, in their order: after one request
/// for each match nothing is asked for, and every row is the match at its position with the text
/// that the type gives to the bytes that the memory holds at that very match.
pub proof fn law_rows_show_their_matches(
    typename: Seq<char>,
    buf_len: usize,
    targets: Seq<u64>,
    memory: Map<int, u8>,
    shown: spec_fn(Seq<u8>) -> Seq<char>,
    n: nat,
)
    requires
        n <= targets.len(),
        forall|i: int|
            0 <= i < targets.len() ==> (read_of(
                memory,
                ReadRequest { addr: #[trigger] targets[i], len: buf_len as u64 },
            ) matches Some(buf) && value_text(typename, buf, shown(buf)) is Some),
    ensures
        ({
            let begun = ReadBackState { typename, buf_len, targets, rows: Seq::empty() };
            let s = read_back_after(begun, memory, shown, n);
            &&& s.typename == typename
            &&& s.buf_len == buf_len
            &&& s.targets == targets
            &&& s.rows.len() == n
            &&& n == targets.len() <==> s.pending() is None
            &&& forall|i: int|
                0 <= i < n ==> {
                    let buf = read_of(
                        memory,
                        ReadRequest { addr: targets[i], len: buf_len as u64 },
                    ).unwrap();
                    &&& (#[trigger] s.rows[i]).0 == targets[i]
                    &&& Some(s.rows[i].1) == value_text(typename, buf, shown(buf))
                }
        }),
    decreases n,
{
    if n > 0 {
        law_rows_show_their_matches(typename, buf_len, targets, memory, shown, (n - 1) as nat);
        let begun = ReadBackState { typename, buf_len, targets, rows: Seq::empty() };
        let before = read_back_after(begun, memory, shown, (n - 1) as nat);
        let a = targets[n - 1];
        assert(before.pending() == Some(ReadRequest { addr: a, len: buf_len as u64 }));
        let s = read_back_after(begun, memory, shown, n);
        assert forall|i: int| 0 <= i < n - 1 implies #[trigger] s.rows[i] == before.rows[i] by {}
    }
}

/// A write to one match goes to that match alone. Where there is no match at the position, there is
/// nothing to write to. A write to all goes to every match, once each, in order.
pub proof fn law_writes_go_to_their_matches(matches: Seq<u64>, i: usize)
    ensures
        selected(matches, WriteTarget::All) == Some(matches),
        i < matches.len() ==> (selected(matches, WriteTarget::One(i)) matches Some(targets)
            && targets.len() == 1 && targets[0] == matches[i as int]),
        i >= matches.len() ==> selected(matches, WriteTarget::One(i)) is None,
{
}

/// Once a write to the match at a position is done, reading at that match gives the bytes of the
/// value, and what is read of memory beside those bytes is what was there before.
pub proof fn law_one_match_is_written(
    matches: Seq<u64>,
    i: usize,
    data: Seq<u8>,
    memory: Map<int, u8>,
    q: ReadRequest,
)
    requires
        i < matches.len(),
        data.len() <= u64::MAX,
    ensures
        ({
            let targets = selected(matches, WriteTarget::One(i)).unwrap();
            let after = job_done(memory, WriteState { targets, data, written: targets.len() });
            let a = matches[i as int];
            &&& read_of(after, ReadRequest { addr: a, len: data.len() as u64 }) == Some(data)
            &&& q.addr + q.len <= a || a + data.len() <= q.addr ==> read_of(after, q) == read_of(
                memory,
                q,
            )
        }),
{
    let targets = selected(matches, WriteTarget::One(i)).unwrap();
    let s = WriteState { targets, data, written: 1 };
    reveal_with_fuel(job_done, 2);
    assert(job_done(memory, s) == write_of(memory, matches[i as int], data));
    law_read_gives_back_the_write(memory, matches[i as int], data, q);
}

/// Once a write to all matches is done, reading at each match gives the bytes of the value, where
/// no later match overlaps it, and what is read of memory beside all of them is what was there
/// before.
pub proof fn law_all_matches_are_written(
    matches: Seq<u64>,
    data: Seq<u8>,
    memory: Map<int, u8>,
    i: int,
    q: ReadRequest,
)
    requires
        0 <= i < matches.len(),
        data.len() <= u64::MAX,
    ensures
        ({
            let targets = selected(matches, WriteTarget::All).unwrap();
            let after = job_done(memory, WriteState { targets, data, written: targets.len() });
            &&& (forall|j: int|
                i < j < matches.len() ==> matches[i] + data.len() <= #[trigger] matches[j]
                    || matches[j] + data.len() <= matches[i]) ==> read_of(
                after,
                ReadRequest { addr: matches[i], len: data.len() as u64 },
            ) == Some(data)
            &&& (forall|j: int|
                0 <= j < matches.len() ==> q.addr + q.len <= #[trigger] matches[j] || matches[j]
                    + data.len() <= q.addr) ==> read_of(after, q) == read_of(memory, q)
        }),
{
    let s = WriteState { targets: matches, data, written: matches.len() };
    if forall|j: int|
        i < j < matches.len() ==> matches[i] + data.len() <= #[trigger] matches[j] || matches[j]
            + data.len() <= matches[i] {
        law_written_reads_back(memory, s, i);
    }
    if forall|j: int|
        0 <= j < matches.len() ==> q.addr + q.len <= #[trigger] matches[j] || matches[j]
            + data.len() <= q.addr {
        lemma_job_frame(memory, s, q);
    }
}

/// A write leaves alone what none of its addresses touches.
proof fn lemma_job_frame(memory: Map<int, u8>, s: WriteState, q: ReadRequest)
    requires
        s.data.len() <= u64::MAX,
        s.written <= s.targets.len(),
        forall|j: int|
            0 <= j < s.written ==> q.addr + q.len <= #[trigger] s.targets[j] || s.targets[j]
                + s.data.len() <= q.addr,
    ensures
        read_of(job_done(memory, s), q) == read_of(memory, q),
    decreases s.written,
{
    if s.written > 0 {
        let n = (s.written - 1) as nat;
        let before = WriteState { written: n, ..s };
        lemma_job_frame(memory, before, q);
        law_read_gives_back_the_write(
            job_done(memory, before),
            s.targets[n as int],
            s.data,
            q,
        );
    }
}

/// A text is a signature exactly where it has words and each is `?`, `??` or two hexadecimal
/// digits. The signature then has one entry for each word, in order: a wildcard for `?` and `??`,
/// and for two digits the byte that they write.
pub proof fn law_signature_has_an_entry_for_each_word(input: Seq<char>)
    ensures
        pattern_of(input) is Some <==> words(input).len() > 0 && forall|i: int|
            0 <= i < words(input).len() ==> {
                let w = #[trigger] words(input)[i];
                ||| w == seq!['?']
                ||| w == seq!['?', '?']
                ||| w.len() == 2 && digit_of(w[0], 16) is Some && digit_of(w[1], 16) is Some
            },
        pattern_of(input) matches Some(p) ==> {
            &&& p.len() == words(input).len()
            &&& forall|i: int|
                0 <= i < words(input).len() ==> {
                    let w = words(input)[i];
                    match #[trigger] p[i] {
                        None => w == seq!['?'] || w == seq!['?', '?'],
                        Some(b) => {
                            &&& w.len() == 2
                            &&& digit_of(w[0], 16) == Some((b / 16) as nat)
                            &&& digit_of(w[1], 16) == Some((b % 16) as nat)
                        },
                    }
                }
        },
{
    let ws = words(input);
    if pattern_of(input) is Some {
        let p = pattern_of(input).unwrap();
        assert forall|i: int| 0 <= i < ws.len() implies {
            let w = ws[i];
            match #[trigger] p[i] {
                None => w == seq!['?'] || w == seq!['?', '?'],
                Some(b) => {
                    &&& w.len() == 2
                    &&& digit_of(w[0], 16) == Some((b / 16) as nat)
                    &&& digit_of(w[1], 16) == Some((b % 16) as nat)
                },
            }
        } by {
            assert(token_of(ws[i]) is Some);
            assert(Some(p[i]) == token_of(ws[i]));
        }
        assert forall|i: int| 0 <= i < ws.len() implies {
            let w = #[trigger] ws[i];
            ||| w == seq!['?']
            ||| w == seq!['?', '?']
            ||| w.len() == 2 && digit_of(w[0], 16) is Some && digit_of(w[1], 16) is Some
        } by {
            assert(token_of(ws[i]) is Some);
        }
    }
}

/// One entry of a signature as text: `?` for a wildcard, two hexadecimal digits for a byte.
pub open spec fn entry_text(e: Option<u8>) -> Seq<char> {
    match e {
        None => seq!['?'],
        Some(b) => seq![digit_char((b / 16) as nat), digit_char((b % 16) as nat)],
    }
}

/// A signature as text: its entries with spaces between.
pub open spec fn signature_text(row: Seq<Option<u8>>) -> Seq<char>
    decreases row.len(),
{
    if row.len() == 0 {
        Seq::empty()
    } else if row.len() == 1 {
        entry_text(row[0])
    } else {
        entry_text(row[0]) + seq![' '] + signature_text(row.skip(1))
    }
}

/// The words of a signature as text are the texts of its entries.
proof fn lemma_signature_words(row: Seq<Option<u8>>)
    ensures
        words(signature_text(row)).len() == row.len(),
        forall|i: int|
            0 <= i < row.len() ==> #[trigger] words(signature_text(row))[i] == entry_text(row[i]),
    decreases row.len(),
{
    law_words(Seq::empty(), Seq::empty());
    if row.len() > 0 {
        let w = entry_text(row[0]);
        let rest = if row.len() == 1 {
            Seq::<char>::empty()
        } else {
            seq![' '] + signature_text(row.skip(1))
        };
        assert(signature_text(row) =~= w + rest);
        if row[0] is Some {
            lemma_digit_char((row[0].unwrap() / 16) as nat, 16);
            lemma_digit_char((row[0].unwrap() % 16) as nat, 16);
        }
        assert forall|i: int| 0 <= i < w.len() implies !is_space(#[trigger] w[i]) by {}
        law_words(w, rest);
        if row.len() > 1 {
            assert(rest.skip(1) =~= signature_text(row.skip(1)));
            lemma_signature_words(row.skip(1));
            assert forall|i: int| 0 <= i < row.len() implies #[trigger] words(
                signature_text(row),
            )[i] == entry_text(row[i]) by {
                if i > 0 {
                    assert(words(signature_text(row))[i] == words(signature_text(row.skip(1)))[i - 1]);
                    assert(row.skip(1)[i - 1] == row[i]);
                }
            }
        }
    }
}

/// A row of bytes and wildcards that is written as a signature, of whatever length, is read from
/// the text as it was.
pub proof fn law_signature_reads_back(row: Seq<Option<u8>>)
    requires
        row.len() > 0,
    ensures
        pattern_of(signature_text(row)) == Some(row),
{
    let text = signature_text(row);
    lemma_signature_words(row);
    assert forall|i: int| 0 <= i < row.len() implies token_of(#[trigger] words(text)[i]) == Some(
        row[i],
    ) by {
        if row[i] is Some {
            let b = row[i].unwrap();
            lemma_digit_char((b / 16) as nat, 16);
            lemma_digit_char((b % 16) as nat, 16);
            assert(words(text)[i][0] != '?');
        }
    }
    assert(pattern_of(text).unwrap() =~= row);
}

/// What a scan finds over ranges that follow each other is in increasing order, each address once.
pub proof fn law_found_in_increasing_order(
    pattern: Seq<Option<u8>>,
    ranges: Seq<MemoryRange>,
    memory: Map<int, u8>,
    n: nat,
)
    requires
        pattern.len() > 0,
        all_valid(ranges),
        forall|i: int, j: int|
            0 <= i < j < ranges.len() ==> (#[trigger] ranges[i]).base + ranges[i].size <= (
            #[trigger] ranges[j]).base,
    ensures
        increasing(scan_after(ScanState::begun(pattern, ranges), memory, n).found()),
{
    let s = scan_after(ScanState::begun(pattern, ranges), memory, n);
    lemma_scan_after(pattern, ranges, memory, n);
    lemma_ranges_increase(s, memory, s.log.len() as int);
    assert(s.log.take(s.log.len() as int) =~= s.log);
}

/// What the first ranges give is in increasing order and lies before the end of the last of them.
proof fn lemma_ranges_increase(s: ScanState, memory: Map<int, u8>, n: int)
    requires
        s.in_order(),
        s.read_from(memory),
        0 <= n <= s.log.len(),
        forall|i: int, j: int|
            0 <= i < j < s.ranges.len() ==> (#[trigger] s.ranges[i]).base + s.ranges[i].size <= (
            #[trigger] s.ranges[j]).base,
    ensures
        increasing(ranges_found(s.ranges, s.pattern, s.log.take(n))),
        forall|i: int|
            0 <= i < ranges_found(s.ranges, s.pattern, s.log.take(n)).len() ==> n > 0 && (
            #[trigger] ranges_found(s.ranges, s.pattern, s.log.take(n))[i]) < s.ranges[n - 1].base
                + s.ranges[n - 1].size,
    decreases n,
{
    if n > 0 {
        lemma_ranges_increase(s, memory, n - 1);
        let log = s.log.take(n);
        assert(log.drop_last() =~= s.log.take(n - 1));
        let range = s.ranges[n - 1];
        let m = s.pattern.len() as int;
        let replies = s.log[n - 1];
        assert(log.last() == replies);
        assert(range.valid());
        assert forall|k: int| 0 <= k < replies.len() implies (#[trigger] replies[k] matches Some(
            buf,
        ) ==> buf.len() == chunk_len(range.size as int, m, k)) by {
            assert(s.log[n - 1][k] == read_of(memory, chunk_request(range, m, k)));
            lemma_chunk_inside(range, m, k);
        }
        law_each_found_once(range, s.pattern, replies);
        let before = ranges_found(s.ranges, s.pattern, s.log.take(n - 1));
        let new = range_found(range.base as int, s.pattern, replies);
        let all = ranges_found(s.ranges, s.pattern, log);
        assert(all == before + new);
        assert forall|i: int| 0 <= i < new.len() implies range.base <= #[trigger] new[i]
            < range.base + range.size by {
            assert(new.contains(new[i]));
            assert(found_at(range, s.pattern, replies, new[i]));
            let k = (new[i] - range.base) / (SIG_CHUNK as int);
            assert(SIG_CHUNK == 16777216);
            lemma_chunk_inside(range, m, k);
        }
        if n > 1 {
            assert(s.ranges[n - 2].base + s.ranges[n - 2].size <= s.ranges[n - 1].base);
        }
        assert forall|i: int, j: int| 0 <= i < j < all.len() implies all[i] < all[j] by {
            if i < before.len() {
                assert(all[i] == before[i]);
            } else {
                assert(all[i] == new[i - before.len()]);
            }
            if j < before.len() {
                assert(all[j] == before[j]);
            } else {
                assert(all[j] == new[j - before.len()]);
            }
        }
        assert forall|i: int| 0 <= i < all.len() implies (#[trigger] all[i]) < range.base
            + range.size by {
            if i < before.len() {
                assert(all[i] == before[i]);
            } else {
                assert(all[i] == new[i - before.len()]);
            }
        }
    }
}

/// What a first pass for bytes has found, a filter pass for the same bytes keeps whole, as long as the
/// memory has not changed.
pub proof fn law_first_pass_outlives_a_filter(
    data: Seq<u8>,
    ranges: Seq<MemoryRange>,
    memory: Map<int, u8>,
    n: nat,
)
    requires
        data.len() <= u64::MAX,
        all_valid(ranges),
        scan_after(ScanState::begun(sought(data), ranges), memory, n).pending() is None,
    ensures
        ({
            let found = scan_after(ScanState::begun(sought(data), ranges), memory, n).found();
            let begun = FilterState { targets: found, data, replies: Seq::empty() };
            filter_after(begun, memory, found.len()).found() == found
        }),
{
    let found = scan_after(ScanState::begun(sought(data), ranges), memory, n).found();
    assert forall|i: int| 0 <= i < found.len() implies read_of(
        memory,
        ReadRequest { addr: #[trigger] found[i], len: data.len() as u64 },
    ) == Some(data) by {
        assert(found.contains(found[i]));
        law_first_pass_finds(data, ranges, memory, n, found[i]);
    }
    law_filter_pass_keeps(found, data, memory, 0);
}

/// A match that a value was written to is kept by a filter pass for that value. One that held other
/// bytes and that the write did not touch is not.
pub proof fn law_written_match_is_kept(
    matches: Seq<u64>,
    i: usize,
    data: Seq<u8>,
    memory: Map<int, u8>,
    other: u64,
)
    requires
        i < matches.len(),
        data.len() <= u64::MAX,
    ensures
        ({
            let targets = selected(matches, WriteTarget::One(i)).unwrap();
            let after = job_done(memory, WriteState { targets, data, written: targets.len() });
            let begun = FilterState { targets: matches, data, replies: Seq::empty() };
            let kept = filter_after(begun, after, matches.len()).found();
            let a = matches[i as int];
            &&& kept.contains(a)
            &&& (other + data.len() <= a || a + data.len() <= other) && read_of(
                memory,
                ReadRequest { addr: other, len: data.len() as u64 },
            ) != Some(data) ==> !kept.contains(other)
        }),
{
    let targets = selected(matches, WriteTarget::One(i)).unwrap();
    let after = job_done(memory, WriteState { targets, data, written: targets.len() });
    let q = ReadRequest { addr: other, len: data.len() as u64 };
    assert(matches.contains(matches[i as int]));
    law_one_match_is_written(matches, i, data, memory, q);
    law_filter_pass_keeps(matches, data, after, matches[i as int]);
    law_filter_pass_keeps(matches, data, after, other);
}

} // verus!

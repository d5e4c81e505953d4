//! Scans for the bytes of a value: a first pass over memory, and later passes that keep those of
//! the addresses found at which the bytes of a new value stand.

use vstd::prelude::*;

use crate::memory::{all_valid, read_of, reply_of, MemoryRange, ReadRequest};
use crate::sig_scan::{
    law_finished_scan, occurs, scan_ranges, CompiledPattern, Pattern, PatternScan, ScanState,
};

verus! {

/// The signature that matches exactly the given bytes.
pub open spec fn literals(data: Seq<u8>) -> Seq<Option<u8>> {
    Seq::new(data.len(), |i: int| Some(data[i]))
}

/// The signature that bytes are looked for with. No bytes stand at every address, as one wildcard
/// does.
pub open spec fn sought(data: Seq<u8>) -> Seq<Option<u8>> {
    if data.len() == 0 {
        seq![None]
    } else {
        literals(data)
    }
}

/// Begins a scan of memory ranges for bytes.
pub fn scan_for(ranges: Vec<MemoryRange>, data: &Vec<u8>) -> (r: PatternScan)
    requires
        all_valid(ranges@),
    ensures
        r.wf(),
        r@ == ScanState::begun(sought(data@), ranges@),
{
    let mut pattern: Pattern = Vec::new();
    for i in 0..data.len()
        invariant
            pattern@ == literals(data@).take(i as int),
    {
        pattern.push(Some(data[i]));
        assert(pattern@ =~= literals(data@).take(i + 1));
    }
    if pattern.len() == 0 {
        pattern.push(None);
    }
    assert(pattern@ =~= sought(data@));
    match CompiledPattern::new(pattern) {
        Some(compiled) => scan_ranges(ranges, compiled),
        None => vstd::pervasive::unreached(),
    }
}

/// Whether two rows of bytes are equal.
fn same_bytes(a: &[u8], b: &[u8]) -> (r: bool)
    ensures
        r == (a@ == b@),
{
    if a.len() != b.len() {
        return false;
    }
    for i in 0..a.len()
        invariant
            a@.len() == b@.len(),
            forall|j: int| 0 <= j < i ==> a@[j] == b@[j],
    {
        if a[i] != b[i] {
            return false;
        }
    }
    assert(a@ =~= b@);
    true
}

/// The addresses at which the bytes looked for were read; one that could not be read is dropped.
pub open spec fn kept(
    targets: Seq<u64>,
    data: Seq<u8>,
    replies: Seq<Option<Seq<u8>>>,
) -> Seq<u64>
    decreases replies.len(),
{
    if replies.len() == 0 {
        Seq::empty()
    } else {
        let before = kept(targets, data, replies.drop_last());
        if replies.last() == Some(data) {
            before.push(targets[replies.len() - 1])
        } else {
            before
        }
    }
}

/// The state of a filter pass: the addresses to read, the bytes looked for, and what has been read.
#[verifier::ext_equal]
pub struct FilterState {
    /// The addresses.
    pub targets: Seq<u64>,
    /// The bytes.
    pub data: Seq<u8>,
    /// What was read at each address so far.
    pub replies: Seq<Option<Seq<u8>>>,
}

impl FilterState {
    /// What is to be read next; nothing once every address has been.
    pub open spec fn pending(self) -> Option<ReadRequest> {
        let i = self.replies.len() as int;
        if i < self.targets.len() {
            Some(ReadRequest { addr: self.targets[i], len: self.data.len() as u64 })
        } else {
            None
        }
    }

    /// The state after the pending read has been answered.
    pub open spec fn answered(self, reply: Option<Seq<u8>>) -> FilterState {
        FilterState { replies: self.replies.push(reply), ..self }
    }

    /// The addresses kept so far.
    pub open spec fn found(self) -> Seq<u64> {
        kept(self.targets, self.data, self.replies)
    }
}

/// A pass over addresses that keeps those at which certain bytes stand.
pub struct FilterScan {
    targets: Vec<u64>,
    data: Vec<u8>,
    index: usize,
    kept: Vec<u64>,
    replies: Ghost<Seq<Option<Seq<u8>>>>,
}

impl View for FilterScan {
    type V = FilterState;

    closed spec fn view(&self) -> FilterState {
        FilterState { targets: self.targets@, data: self.data@, replies: self.replies@ }
    }
}

impl FilterScan {
    /// Whether the addresses kept are those of the replies.
    pub closed spec fn wf(&self) -> bool {
        &&& self.index == self.replies@.len()
        &&& self.index <= self.targets@.len()
        &&& self.kept@ == kept(self.targets@, self.data@, self.replies@)
    }

    /// Begins a pass.
    pub fn new(targets: Vec<u64>, data: Vec<u8>) -> (r: FilterScan)
        ensures
            r.wf(),
            r@ == (FilterState { targets: targets@, data: data@, replies: Seq::empty() }),
    {
        FilterScan { targets, data, index: 0, kept: Vec::new(), replies: Ghost(Seq::empty()) }
    }

    /// What is to be read next; nothing once every address has been.
    pub fn next_read(&self) -> (r: Option<ReadRequest>)
        requires
            self.wf(),
        ensures
            r == self@.pending(),
    {
        if self.index < self.targets.len() {
            Some(ReadRequest { addr: self.targets[self.index], len: self.data.len() as u64 })
        } else {
            None
        }
    }

    /// Takes the answer to the pending read: the bytes, or nothing where the memory could not be
    /// read.
    pub fn accept(&mut self, reply: Option<&[u8]>)
        requires
            old(self).wf(),
            old(self)@.pending() is Some,
        ensures
            final(self).wf(),
            final(self)@ == old(self)@.answered(reply_of(reply)),
    {
        let ghost before = self.replies@;
        proof {
            self.replies@ = before.push(reply_of(reply));
            assert(self.replies@.drop_last() =~= before);
        }
        let addr: u64 = self.targets[self.index];
        if let Some(bytes) = reply {
            if same_bytes(bytes, self.data.as_slice()) {
                self.kept.push(addr);
            }
        }
        assert(self.index < self.targets.len());
        self.index = self.index + 1;
    }

    /// The addresses kept.
    pub fn finish(self) -> (r: Vec<u64>)
        requires
            self.wf(),
        ensures
            r@ == self@.found(),
    {
        self.kept
    }
}

/// The test whether bytes stand in memory at an address.
pub open spec fn holding(memory: Map<int, u8>, data: Seq<u8>) -> spec_fn(u64) -> bool {
    |a: u64| read_of(memory, (ReadRequest { addr: a, len: data.len() as u64 })) == Some(data)
}

/// A filter pass that was answered from one memory keeps exactly the addresses at which the bytes
/// stand in it, in the order they had.
pub proof fn law_filter_keeps_the_equal(
    targets: Seq<u64>,
    data: Seq<u8>,
    memory: Map<int, u8>,
    replies: Seq<Option<Seq<u8>>>,
)
    requires
        replies.len() == targets.len(),
        forall|i: int|
            0 <= i < replies.len() ==> #[trigger] replies[i] == read_of(
                memory,
                ReadRequest { addr: targets[i], len: data.len() as u64 },
            ),
    ensures
        kept(targets, data, replies) == targets.filter(holding(memory, data)),
    decreases replies.len(),
{
    reveal(Seq::filter);
    if replies.len() > 0 {
        let rest = replies.drop_last();
        law_filter_keeps_the_equal(targets.drop_last(), data, memory, rest);
        lemma_kept_prefix(targets, targets.drop_last(), data, rest);
    }
}

/// What is kept depends only on the addresses that have been answered.
proof fn lemma_kept_prefix(
    a: Seq<u64>,
    b: Seq<u64>,
    data: Seq<u8>,
    replies: Seq<Option<Seq<u8>>>,
)
    requires
        replies.len() <= a.len(),
        replies.len() <= b.len(),
        forall|i: int| 0 <= i < replies.len() ==> a[i] == b[i],
    ensures
        kept(a, data, replies) == kept(b, data, replies),
    decreases replies.len(),
{
    if replies.len() > 0 {
        lemma_kept_prefix(a, b, data, replies.drop_last());
    }
}

/// A filter pass only narrows: every address kept was there before, and there are no more of them.
pub proof fn law_filter_narrows(
    targets: Seq<u64>,
    data: Seq<u8>,
    replies: Seq<Option<Seq<u8>>>,
)
    requires
        replies.len() <= targets.len(),
    ensures
        kept(targets, data, replies).len() <= replies.len(),
        forall|a: u64| #[trigger]
            kept(targets, data, replies).contains(a) ==> targets.contains(a),
    decreases replies.len(),
{
    if replies.len() > 0 {
        law_filter_narrows(targets, data, replies.drop_last());
        let before = kept(targets, data, replies.drop_last());
        let all = kept(targets, data, replies);
        assert forall|a: u64| #[trigger] all.contains(a) implies targets.contains(a) by {
            let i = choose|i: int| 0 <= i < all.len() && all[i] == a;
            if i < before.len() {
                assert(before[i] == a);
                assert(before.contains(a));
            }
        }
    }
}

/// A filter pass that reads the bytes looked for at every address keeps all of them.
pub proof fn law_filter_is_stable(targets: Seq<u64>, data: Seq<u8>, replies: Seq<Option<Seq<u8>>>)
    requires
        replies.len() <= targets.len(),
        forall|i: int| 0 <= i < replies.len() ==> #[trigger] replies[i] == Some(data),
    ensures
        kept(targets, data, replies) == targets.take(replies.len() as int),
    decreases replies.len(),
{
    if replies.len() > 0 {
        law_filter_is_stable(targets, data, replies.drop_last());
    }
    assert(kept(targets, data, replies) =~= targets.take(replies.len() as int));
}

/// At every address that a first pass finds, the memory that it was answered from holds the bytes
/// looked for. So reading a match back gives the value that was scanned for.
pub proof fn law_found_reads_back(s: ScanState, data: Seq<u8>, memory: Map<int, u8>, a: u64)
    requires
        data.len() <= u64::MAX,
        s.pattern == sought(data),
        s.in_order(),
        s.read_from(memory),
        s.pending() is None,
        s.found().contains(a),
    ensures
        read_of(memory, ReadRequest { addr: a, len: data.len() as u64 }) == Some(data),
{
    law_finished_scan(s, memory, a);
    assert(occurs(s.pattern, memory, a as int));
    let q = ReadRequest { addr: a, len: data.len() as u64 };
    assert forall|i: int| 0 <= i < data.len() implies memory.dom().contains(
        #[trigger] (q.addr + i),
    ) && memory[q.addr + i] == data[i] by {
        assert(s.pattern[i] == Some(data[i]));
    }
    assert(read_of(memory, q).unwrap() =~= data);
}

} // verus!

//! The session: the state of scanning one target.
//!
//! A session owns a handle to the memory of its target and the state of the scanners. An operation
//! that needs memory hands out what is to be read or written, step by step, and is handed what came
//! of it; the session itself neither reads nor prints.

use vstd::prelude::*;

use crate::error::{from_memory, refused, ErrorKind, ScanflowError};
use crate::memory::{
    all_valid, copied, law_read_gives_back_the_write, read_of, reply_of, write_of, MemoryRange,
    ReadRequest,
};
use crate::sig_scan::{
    parse_pattern, pattern_of, scan_ranges, CompiledPattern, PatternScan, ScanState,
};
use crate::text::{opt_view, owned};
use crate::types::{
    find_type, kind_of, parse_value, parsed, print_value, printed, value_bytes, value_text,
    FloatReading, Kind, MatchDisplay, ModuleInfo, OffsetMatch, ScanResult, Width,
};
use crate::value_scanner::{scan_for, sought, FilterScan, FilterState};

verus! {

/// The first address that is scanned.
pub const SCAN_FROM: u64 = 0;

/// The address before which scans end.
pub const SCAN_TO: u64 = 0xFFFF_FFFF_FFFF_FFFF;

/// The gap between ranges of a process over which they are scanned as one.
pub const SCAN_GAP: i64 = 0x1000;

/// How a session sees its target.
pub enum Funcs {
    /// A process, with its name.
    Process(String),
    /// A raw view of memory.
    View,
}

impl Funcs {
    /// The name that is shown for the target.
    pub open spec fn name(self) -> Seq<char> {
        match self {
            Funcs::Process(name) => name@,
            Funcs::View => "view"@,
        }
    }

    /// A process with a name.
    pub fn process(name: String) -> (r: Funcs)
        ensures
            r is Process,
            r.name() == name@,
    {
        Funcs::Process(name)
    }

    /// A raw view of memory.
    pub fn view() -> (r: Funcs)
        ensures
            r is View,
    {
        Funcs::View
    }

    /// The name that is shown for the target: that of the process, or `view`.
    pub fn info(&self) -> (r: &str)
        ensures
            r@ == self.name(),
    {
        match self {
            Funcs::Process(name) => name.as_str(),
            Funcs::View => "view",
        }
    }
}

/// The ranges of a raw view between two addresses: one range, which ends where the view does, or
/// none where it begins behind the end.
pub fn view_ranges(max_address: u64, from: u64, to: u64) -> (r: Vec<MemoryRange>)
    requires
        from < max_address ==> from <= to,
    ensures
        r@ == (if from < max_address {
            seq![
                MemoryRange {
                    base: from,
                    size: ((if max_address < to {
                        max_address
                    } else {
                        to
                    }) - from) as u64,
                },
            ]
        } else {
            Seq::<MemoryRange>::empty()
        }),
        all_valid(r@),
{
    let mut out: Vec<MemoryRange> = Vec::new();
    if from < max_address {
        let end: u64 = if max_address < to {
            max_address
        } else {
            to
        };
        out.push(MemoryRange { base: from, size: end - from });
    }
    out
}

/// Which matches a write goes to.
#[derive(Clone, Copy, Debug, PartialEq, Eq, Structural)]
pub enum WriteTarget {
    /// One match, by its position.
    One(usize),
    /// All matches.
    All,
}

/// The addresses that a write goes to, where there are any.
pub open spec fn selected(matches: Seq<u64>, target: WriteTarget) -> Option<Seq<u64>> {
    match target {
        WriteTarget::All => Some(matches),
        WriteTarget::One(i) => if i < matches.len() {
            Some(seq![matches[i as int]])
        } else {
            None
        },
    }
}

/// The state of a session.
#[verifier::ext_equal]
pub struct SessionState {
    /// The name of the target.
    pub target: Seq<char>,
    /// The matches.
    pub matches: Seq<u64>,
    /// The selected type.
    pub typename: Option<Seq<char>>,
    /// The number of bytes that a match is read back with.
    pub buf_len: usize,
    /// The number of entries of the pointer map.
    pub pointers: usize,
    /// The number of global variables found.
    pub globals: usize,
}

impl SessionState {
    /// The state of a new session.
    pub open spec fn fresh(target: Seq<char>) -> SessionState {
        SessionState {
            target,
            matches: Seq::empty(),
            typename: None,
            buf_len: 0,
            pointers: 0,
            globals: 0,
        }
    }

    /// Whether a type can be selected with a length: the type exists, and a length is given where
    /// the type has none of its own.
    pub open spec fn can_set_type(name: Seq<char>, len: Option<usize>) -> bool {
        kind_of(name) matches Some(kind) && (kind.size() is Some || len is Some)
    }

    /// The state after a type has been selected. The name of a type without a size of its own is
    /// taken even where the length is missing.
    pub open spec fn type_set(self, name: Seq<char>, len: Option<usize>) -> SessionState {
        match kind_of(name) {
            None => self,
            Some(kind) => SessionState {
                typename: Some(name),
                buf_len: match kind.size() {
                    Some(n) => n,
                    None => match len {
                        Some(n) => n,
                        None => self.buf_len,
                    },
                },
                ..self
            },
        }
    }

    /// The state after a first pass has found matches for a value of a type. The matches from
    /// before are forgotten.
    pub open spec fn scanned(self, found: Seq<u64>, name: Seq<char>, len: usize) -> SessionState {
        SessionState { matches: found, typename: Some(name), buf_len: len, ..self }
    }

    /// Whether the selected type is one of the table, and a match is read back with its size, where
    /// it has one.
    pub open spec fn typed(self) -> bool {
        self.typename matches Some(t) ==> (kind_of(t) matches Some(kind) && (kind.size() matches Some(
            n,
        ) ==> self.buf_len == n))
    }
}

/// The rows of a display: addresses with the values as text.
pub open spec fn row_views(rows: Seq<MatchDisplay>) -> Seq<(u64, Seq<char>)> {
    Seq::new(rows.len(), |i: int| (rows[i].address, rows[i].value@))
}

/// Chains of pointers: targets with the addresses and offsets that lead to them.
pub open spec fn chain_views(chains: Seq<(u64, Vec<(u64, isize)>)>) -> Seq<
    (u64, Seq<(u64, isize)>),
> {
    Seq::new(chains.len(), |i: int| (chains[i].0, chains[i].1@))
}

/// Chains of pointers as results hold them.
pub open spec fn offset_views(matches: Seq<OffsetMatch>) -> Seq<(u64, Seq<(u64, isize)>)> {
    Seq::new(matches.len(), |i: int| (matches[i].target, matches[i].chain@))
}

/// Whether a chain begins at an address, where one is asked for.
pub open spec fn begins_at(chain: (u64, Seq<(u64, isize)>), filter: Option<u64>) -> bool {
    match filter {
        Some(a) => chain.1.len() > 0 && chain.1[0].0 == a,
        None => true,
    }
}

/// The test whether a chain begins at an address, where one is asked for.
pub open spec fn beginning_at(filter: Option<u64>) -> spec_fn((u64, Seq<(u64, isize)>)) -> bool {
    |c: (u64, Seq<(u64, isize)>)| begins_at(c, filter)
}

/// A first pass for a value: the scan, and the type that is selected when it is done.
pub struct ValueScan {
    typename: String,
    buf_len: usize,
    scan: PatternScan,
}

impl ValueScan {
    /// The name of the type.
    pub closed spec fn name(&self) -> Seq<char> {
        self.typename@
    }

    /// The number of bytes that a match is read back with.
    pub closed spec fn len(&self) -> usize {
        self.buf_len
    }

    /// The state of the scan.
    pub closed spec fn state(&self) -> ScanState {
        self.scan@
    }

    /// Whether the scan is well-formed.
    pub closed spec fn wf(&self) -> bool {
        self.scan.wf()
    }

    /// What is to be read next; nothing once all ranges are done.
    pub fn next_read(&self) -> (r: Option<ReadRequest>)
        requires
            self.wf(),
        ensures
            r == self.state().pending(),
    {
        self.scan.next_read()
    }

    /// Takes the answer to the pending read.
    pub fn accept(&mut self, data: Option<&[u8]>)
        requires
            old(self).wf(),
            old(self).state().pending() matches Some(q) && (data matches Some(d) ==> d@.len()
                == q.len),
        ensures
            final(self).wf(),
            final(self).state() == old(self).state().answered(reply_of(data)),
            final(self).name() == old(self).name(),
            final(self).len() == old(self).len(),
    {
        self.scan.accept(data);
    }
}

/// The state of reading matches back.
#[verifier::ext_equal]
pub struct ReadBackState {
    /// The type.
    pub typename: Seq<char>,
    /// The number of bytes to read at each match.
    pub buf_len: usize,
    /// The matches.
    pub targets: Seq<u64>,
    /// The rows so far.
    pub rows: Seq<(u64, Seq<char>)>,
}

impl ReadBackState {
    /// What is to be read next; nothing once every match has been.
    pub open spec fn pending(self) -> Option<ReadRequest> {
        if self.rows.len() < self.targets.len() {
            Some(
                ReadRequest {
                    addr: self.targets[self.rows.len() as int],
                    len: self.buf_len as u64,
                },
            )
        } else {
            None
        }
    }

    /// The state after the pending read has been answered with bytes that have a text.
    pub open spec fn shown(self, text: Seq<char>) -> ReadBackState {
        ReadBackState {
            rows: self.rows.push((self.targets[self.rows.len() as int], text)),
            ..self
        }
    }
}

/// Matches that are read back as typed values.
pub struct ReadBack {
    typename: String,
    buf_len: usize,
    targets: Vec<u64>,
    rows: Vec<MatchDisplay>,
}

impl View for ReadBack {
    type V = ReadBackState;

    closed spec fn view(&self) -> ReadBackState {
        ReadBackState {
            typename: self.typename@,
            buf_len: self.buf_len,
            targets: self.targets@,
            rows: row_views(self.rows@),
        }
    }
}

impl ReadBack {
    /// What is to be read next; nothing once every match has been.
    pub fn next_read(&self) -> (r: Option<ReadRequest>)
        ensures
            r == self@.pending(),
    {
        if self.rows.len() < self.targets.len() {
            Some(ReadRequest { addr: self.targets[self.rows.len()], len: self.buf_len as u64 })
        } else {
            None
        }
    }

    /// Takes the answer to the pending read: the bytes, or what the memory reports. `float_text` is
    /// how the bytes are written where the type is a floating-point one.
    pub fn accept(&mut self, reply: Result<&[u8], String>, float_text: &str) -> (r: Result<
        (),
        ScanflowError,
    >)
        requires
            old(self)@.pending() is Some,
        ensures
            match reply {
                Err(text) => {
                    &&& r == Err::<(), ScanflowError>(ScanflowError::Memory(text))
                    &&& final(self)@ == old(self)@
                },
                Ok(buf) => match value_text(old(self)@.typename, buf@, float_text@) {
                    Some(text) => r is Ok && final(self)@ == old(self)@.shown(text),
                    None => {
                        &&& refused(r, ErrorKind::InvalidArgument)
                        &&& final(self)@ == old(self)@
                    },
                },
            },
    {
        let buf = match reply {
            Ok(buf) => buf,
            Err(text) => return Err(ScanflowError::Memory(text)),
        };
        match print_value(buf, self.typename.as_str(), float_text) {
            Some(value) => {
                let ghost before = self.rows@;
                let address: u64 = self.targets[self.rows.len()];
                let row = MatchDisplay { address, value };
                self.rows.push(row);
                assert(row_views(self.rows@) =~= row_views(before).push((address, row.value@)));
                Ok(())
            },
            None => Err(ScanflowError::Kind(ErrorKind::InvalidArgument)),
        }
    }

    /// The rows.
    pub fn finish(self) -> (r: Vec<MatchDisplay>)
        ensures
            row_views(r@) == self@.rows,
    {
        self.rows
    }
}

/// The state of writing bytes to addresses.
#[verifier::ext_equal]
pub struct WriteState {
    /// The addresses.
    pub targets: Seq<u64>,
    /// The bytes.
    pub data: Seq<u8>,
    /// How many writes are done.
    pub written: nat,
}

/// The same bytes, to be written to one address after the other.
pub struct WriteJob {
    targets: Vec<u64>,
    data: Vec<u8>,
    written: usize,
}

impl View for WriteJob {
    type V = WriteState;

    closed spec fn view(&self) -> WriteState {
        WriteState { targets: self.targets@, data: self.data@, written: self.written as nat }
    }
}

impl WriteJob {
    /// The address and the bytes to write next; nothing once every address has been written.
    pub fn next_write(&self) -> (r: Option<(u64, &[u8])>)
        ensures
            match r {
                Some((addr, data)) => {
                    &&& self@.written < self@.targets.len()
                    &&& addr == self@.targets[self@.written as int]
                    &&& data@ == self@.data
                },
                None => self@.written >= self@.targets.len(),
            },
    {
        if self.written < self.targets.len() {
            Some((self.targets[self.written], self.data.as_slice()))
        } else {
            None
        }
    }

    /// Takes the outcome of the write: done, or what the memory reports.
    pub fn accept(&mut self, reply: Result<(), String>) -> (r: Result<(), ScanflowError>)
        requires
            old(self)@.written < old(self)@.targets.len(),
        ensures
            match reply {
                Ok(_) => {
                    &&& r is Ok
                    &&& final(self)@ == (WriteState {
                        written: old(self)@.written + 1,
                        ..old(self)@
                    })
                },
                Err(text) => {
                    &&& r == Err::<(), ScanflowError>(ScanflowError::Memory(text))
                    &&& final(self)@ == old(self)@
                },
            },
    {
        match reply {
            Ok(_) => {
                assert(self.written < self.targets.len());
                self.written = self.written + 1;
                Ok(())
            },
            Err(text) => Err(ScanflowError::Memory(text)),
        }
    }

    /// How many writes are done.
    pub fn written(&self) -> (r: usize)
        ensures
            r == self@.written,
    {
        self.written
    }

    /// The addresses and the bytes.
    pub fn into_parts(self) -> (r: (Vec<u64>, Vec<u8>))
        ensures
            r.0@ == self@.targets,
            r.1@ == self@.data,
    {
        (self.targets, self.data)
    }
}

/// What an offset scan needs next.
#[derive(Clone, Copy, Debug, PartialEq, Eq, Structural)]
pub enum OffsetStep {
    /// The pointer map is to be built.
    BuildPointerMap,
    /// Global variables are to be collected, in all modules.
    CollectGlobals,
    /// Chains that begin at the globals are to be found.
    FindFromGlobals,
    /// Chains that begin anywhere in the pointer map are to be found.
    FindFromAll,
}

/// The step after the pointer map is there.
pub open spec fn step_with_map(use_disasm: bool, globals: usize) -> OffsetStep {
    if !use_disasm {
        OffsetStep::FindFromAll
    } else if globals == 0 {
        OffsetStep::CollectGlobals
    } else {
        OffsetStep::FindFromGlobals
    }
}

/// A scan for chains of pointers to the matches.
#[derive(Clone, Copy, Debug)]
pub struct OffsetScan {
    /// Whether chains begin at global variables only.
    pub use_disasm: bool,
    /// How far below a pointer's target the next address may lie.
    pub lrange: usize,
    /// How far above a pointer's target the next address may lie.
    pub urange: usize,
    /// How many pointers a chain may have.
    pub max_depth: usize,
    /// The address that chains have to begin at, if any.
    pub filter: Option<u64>,
    /// What is needed next.
    pub step: OffsetStep,
}

impl OffsetScan {
    /// Takes the chains found and keeps those that begin where they have to.
    pub fn finish(&self, raw: Vec<(u64, Vec<(u64, isize)>)>) -> (r: Vec<OffsetMatch>)
        ensures
            offset_views(r@) == chain_views(raw@).filter(beginning_at(self.filter)),
    {
        let mut out: Vec<OffsetMatch> = Vec::new();
        let ghost all = chain_views(raw@);
        let ghost begins = beginning_at(self.filter);
        proof {
            reveal(Seq::filter);
            assert(all.take(0) =~= Seq::empty());
            assert(offset_views(out@) =~= all.take(0).filter(begins));
        }
        for item in it: raw
            invariant
                it.seq() == raw@,
                all == chain_views(raw@),
                begins == beginning_at(self.filter),
                offset_views(out@) == all.take(it.index() as int).filter(begins),
        {
            let ghost i = it.index() as int;
            let ghost before = out@;
            proof {
                reveal(Seq::filter);
                assert(all.take(i + 1).drop_last() =~= all.take(i));
                assert(all.take(i + 1).last() == (item.0, item.1@));
            }
            let keep: bool = match self.filter {
                Some(a) => item.1.len() > 0 && item.1[0].0 == a,
                None => true,
            };
            if keep {
                let m = OffsetMatch { target: item.0, chain: item.1 };
                out.push(m);
                assert(offset_views(out@) =~= offset_views(before).push((m.target, m.chain@)));
            }
        }
        assert(all.take(all.len() as int) =~= all);
        out
    }
}

/// The session of scanning one target.
pub struct Session<T> {
    memory: T,
    funcs: Funcs,
    matches: Vec<u64>,
    typename: Option<String>,
    buf_len: usize,
    pointers: usize,
    globals: usize,
}

impl<T> Session<T> {
    /// The handle to the memory of the target.
    pub closed spec fn memory(&self) -> T {
        self.memory
    }

    /// The state.
    pub closed spec fn state(&self) -> SessionState {
        SessionState {
            target: self.funcs.name(),
            matches: self.matches@,
            typename: opt_view(self.typename),
            buf_len: self.buf_len,
            pointers: self.pointers,
            globals: self.globals,
        }
    }

    /// A session over a handle to memory.
    pub fn new(memory: T, funcs: Funcs) -> (r: Session<T>)
        ensures
            r.memory() == memory,
            r.state() == SessionState::fresh(funcs.name()),
    {
        let r = Session {
            memory,
            funcs,
            matches: Vec::new(),
            typename: None,
            buf_len: 0,
            pointers: 0,
            globals: 0,
        };
        assert(r.state() =~= SessionState::fresh(funcs.name()));
        r
    }

    /// A session over a process with a name.
    pub fn for_process(memory: T, name: String) -> (r: Session<T>)
        ensures
            r.memory() == memory,
            r.state() == SessionState::fresh(name@),
    {
        Session::new(memory, Funcs::process(name))
    }

    /// A session over a raw view of memory.
    pub fn for_view(memory: T) -> (r: Session<T>)
        ensures
            r.memory() == memory,
            r.state() == SessionState::fresh("view"@),
    {
        Session::new(memory, Funcs::view())
    }

    /// The handle to the memory of the target.
    pub fn memory_mut(&mut self) -> (r: &mut T)
        ensures
            *r == old(self).memory(),
            final(self).memory() == *final(r),
            final(self).state() == old(self).state(),
    {
        &mut self.memory
    }

    /// The name of the target: that of the process, or `view`.
    pub fn target_name(&self) -> (r: &str)
        ensures
            r@ == self.state().target,
    {
        self.funcs.info()
    }

    /// The selected type, if any.
    pub fn typename(&self) -> (r: Option<&str>)
        ensures
            match r {
                Some(t) => self.state().typename == Some(t@),
                None => self.state().typename is None,
            },
    {
        match &self.typename {
            Some(t) => Some(t.as_str()),
            None => None,
        }
    }

    /// Forgets the matches, the pointer map, the globals and the selected type.
    pub fn reset(&mut self)
        ensures
            final(self).memory() == old(self).memory(),
            final(self).state() == SessionState::fresh(old(self).state().target),
    {
        self.matches.clear();
        self.typename = None;
        self.buf_len = 0;
        self.pointers = 0;
        self.globals = 0;
        assert(self.state() =~= SessionState::fresh(old(self).state().target));
    }

    /// Selects a type. `len` is needed for types without a size of their own, and ignored for the
    /// others.
    pub fn set_type(&mut self, typename: &str, len: Option<usize>) -> (r: Result<
        (),
        ScanflowError,
    >)
        ensures
            final(self).memory() == old(self).memory(),
            final(self).state() == old(self).state().type_set(typename@, len),
            SessionState::can_set_type(typename@, len) ==> r is Ok,
            !SessionState::can_set_type(typename@, len) ==> refused(r, ErrorKind::InvalidArgument),
    {
        let ty = match find_type(typename) {
            Some(ty) => ty,
            None => return Err(ScanflowError::Kind(ErrorKind::InvalidArgument)),
        };
        self.typename = Some(owned(typename));
        match ty.size {
            Some(n) => {
                self.buf_len = n;
                Ok(())
            },
            None => match len {
                Some(n) => {
                    self.buf_len = n;
                    Ok(())
                },
                None => Err(ScanflowError::Kind(ErrorKind::InvalidArgument)),
            },
        }
    }

    /// Adds an address to the matches.
    pub fn add_match(&mut self, addr: u64)
        ensures
            final(self).memory() == old(self).memory(),
            final(self).state() == (SessionState {
                matches: old(self).state().matches.push(addr),
                ..old(self).state()
            }),
    {
        self.matches.push(addr);
    }

    /// Removes the match at a position.
    pub fn remove_match(&mut self, idx: usize) -> (r: Result<(), ScanflowError>)
        ensures
            final(self).memory() == old(self).memory(),
            if idx < old(self).state().matches.len() {
                &&& r is Ok
                &&& final(self).state() == (SessionState {
                    matches: old(self).state().matches.remove(idx as int),
                    ..old(self).state()
                })
            } else {
                &&& refused(r, ErrorKind::InvalidArgument)
                &&& final(self).state() == old(self).state()
            },
    {
        if idx >= self.matches.len() {
            return Err(ScanflowError::Kind(ErrorKind::InvalidArgument));
        }
        self.matches.remove(idx);
        Ok(())
    }

    /// The matches.
    pub fn matches(&self) -> (r: &[u64])
        ensures
            r@ == self.state().matches,
    {
        self.matches.as_slice()
    }

    /// The matches, to be changed.
    pub fn matches_mut(&mut self) -> (r: &mut Vec<u64>)
        ensures
            r@ == old(self).state().matches,
            final(self).memory() == old(self).memory(),
            final(self).state() == (SessionState { matches: final(r)@, ..old(self).state() }),
    {
        &mut self.matches
    }

    /// What is to be read for raw bytes at an address.
    pub fn read_memory(&self, addr: u64, len: usize) -> (r: ReadRequest)
        ensures
            r == (ReadRequest { addr, len: len as u64 }),
    {
        ReadRequest { addr, len: len as u64 }
    }

    /// The write of raw bytes to an address.
    pub fn write_memory(&self, addr: u64, data: Vec<u8>) -> (r: WriteJob)
        ensures
            r@ == (WriteState { targets: seq![addr], data: data@, written: 0 }),
    {
        let mut targets: Vec<u64> = Vec::new();
        targets.push(addr);
        assert(targets@ =~= seq![addr]);
        WriteJob { targets, data, written: 0 }
    }

    /// Begins a scan of memory ranges for a signature.
    pub fn sig_scan(&self, pattern_input: &str, ranges: Vec<MemoryRange>) -> (r: Result<
        PatternScan,
        ScanflowError,
    >)
        requires
            all_valid(ranges@),
        ensures
            match pattern_of(pattern_input@) {
                Some(pat) => r matches Ok(scan) && scan.wf() && scan@ == ScanState::begun(
                    pat,
                    ranges@,
                ),
                None => refused(r, ErrorKind::InvalidArgument),
            },
    {
        match parse_pattern(pattern_input) {
            Some(pattern) => match CompiledPattern::new(pattern) {
                Some(compiled) => Ok(scan_ranges(ranges, compiled)),
                None => Err(ScanflowError::Kind(ErrorKind::InvalidArgument)),
            },
            None => Err(ScanflowError::Kind(ErrorKind::InvalidArgument)),
        }
    }

    /// Takes what a signature scan found: it replaces the matches, and no type is selected any
    /// more.
    pub fn finish_sig_scan(&mut self, scan: PatternScan) -> (r: ScanResult)
        requires
            scan.wf(),
        ensures
            final(self).memory() == old(self).memory(),
            final(self).state() == (SessionState {
                matches: scan@.found(),
                typename: None,
                ..old(self).state()
            }),
            r.matches@ == scan@.found(),
            r.is_initial_scan,
    {
        let found = scan.finish();
        let matches = copied(found.as_slice(), found.len());
        assert(matches@ =~= found@);
        self.matches = found;
        self.typename = None;
        ScanResult { matches, is_initial_scan: true }
    }

    /// Begins a scan of memory ranges for a value.
    pub fn scan_value(
        &self,
        typename: &str,
        value: &str,
        reading: &FloatReading,
        ranges: Vec<MemoryRange>,
    ) -> (r: Result<ValueScan, ScanflowError>)
        requires
            all_valid(ranges@),
        ensures
            match value_bytes(typename@, value@, *reading) {
                Some(b) => {
                    &&& r matches Ok(scan)
                    &&& scan.wf()
                    &&& scan.state() == ScanState::begun(sought(b), ranges@)
                    &&& scan.name() == typename@
                    &&& scan.len() == (match kind_of(typename@).unwrap().size() {
                        Some(n) => n as nat,
                        None => b.len(),
                    })
                },
                None => refused(r, ErrorKind::InvalidArgument),
            },
    {
        let ty = match find_type(typename) {
            Some(ty) => ty,
            None => return Err(ScanflowError::Kind(ErrorKind::InvalidArgument)),
        };
        let data = match ty.parse(value, reading) {
            Some(data) => data,
            None => return Err(ScanflowError::Kind(ErrorKind::InvalidArgument)),
        };
        let buf_len: usize = match ty.size {
            Some(n) => n,
            None => data.len(),
        };
        let scan = scan_for(ranges, &data);
        Ok(ValueScan { typename: owned(typename), buf_len, scan })
    }

    /// Takes what a first pass found: it replaces the matches, and the type of the value is
    /// selected.
    pub fn finish_scan_value(&mut self, scan: ValueScan) -> (r: ScanResult)
        requires
            scan.wf(),
        ensures
            final(self).memory() == old(self).memory(),
            final(self).state() == old(self).state().scanned(
                scan.state().found(),
                scan.name(),
                scan.len(),
            ),
            r.matches@ == scan.state().found(),
            r.is_initial_scan,
    {
        let found = scan.scan.finish();
        let matches = copied(found.as_slice(), found.len());
        assert(matches@ =~= found@);
        self.matches = found;
        self.typename = Some(scan.typename);
        self.buf_len = scan.buf_len;
        ScanResult { matches, is_initial_scan: true }
    }

    /// Begins a filter pass over the matches for a new value of the selected type.
    pub fn filter_value(&self, value: &str, reading: &FloatReading) -> (r: Result<
        FilterScan,
        ScanflowError,
    >)
        ensures
            match self.state().typename {
                None => refused(r, ErrorKind::Uninitialized),
                Some(t) => match value_bytes(t, value@, *reading) {
                    None => refused(r, ErrorKind::InvalidArgument),
                    Some(b) => r matches Ok(scan) && scan.wf() && scan@ == (FilterState {
                        targets: self.state().matches,
                        data: b,
                        replies: Seq::empty(),
                    }),
                },
            },
    {
        let typename = match &self.typename {
            Some(t) => t.as_str(),
            None => return Err(ScanflowError::Kind(ErrorKind::Uninitialized)),
        };
        match parse_value(typename, value, reading) {
            Some(data) => {
                let targets = copied(self.matches.as_slice(), self.matches.len());
                assert(targets@ =~= self.matches@);
                Ok(FilterScan::new(targets, data))
            },
            None => Err(ScanflowError::Kind(ErrorKind::InvalidArgument)),
        }
    }

    /// Takes what a filter pass kept: it replaces the matches.
    pub fn finish_filter_value(&mut self, scan: FilterScan) -> (r: ScanResult)
        requires
            scan.wf(),
        ensures
            final(self).memory() == old(self).memory(),
            final(self).state() == (SessionState {
                matches: scan@.found(),
                ..old(self).state()
            }),
            r.matches@ == scan@.found(),
            !r.is_initial_scan,
    {
        let found = scan.finish();
        let matches = copied(found.as_slice(), found.len());
        assert(matches@ =~= found@);
        self.matches = found;
        ScanResult { matches, is_initial_scan: false }
    }

    /// Begins to read back up to `max` matches as values of the selected type.
    pub fn read_matches(&self, max: usize) -> (r: Result<ReadBack, ScanflowError>)
        ensures
            match self.state().typename {
                None => refused(r, ErrorKind::Uninitialized),
                Some(t) => {
                    let n = self.state().matches.len();
                    r matches Ok(back) && back@ == (ReadBackState {
                        typename: t,
                        buf_len: self.state().buf_len,
                        targets: self.state().matches.take(
                            if max < n {
                                max as int
                            } else {
                                n as int
                            },
                        ),
                        rows: Seq::empty(),
                    })
                },
            },
    {
        let typename = match &self.typename {
            Some(t) => owned(t.as_str()),
            None => return Err(ScanflowError::Kind(ErrorKind::Uninitialized)),
        };
        let count: usize = if max < self.matches.len() {
            max
        } else {
            self.matches.len()
        };
        let targets = copied(self.matches.as_slice(), count);
        let rows: Vec<MatchDisplay> = Vec::new();
        assert(row_views(rows@) =~= Seq::empty());
        Ok(ReadBack { typename, buf_len: self.buf_len, targets, rows })
    }

    /// The addresses that a write goes to.
    fn write_targets(&self, target: WriteTarget) -> (r: Option<Vec<u64>>)
        ensures
            match r {
                Some(v) => selected(self.state().matches, target) == Some(v@),
                None => selected(self.state().matches, target) is None,
            },
    {
        match target {
            WriteTarget::All => {
                let targets = copied(self.matches.as_slice(), self.matches.len());
                assert(targets@ =~= self.matches@);
                Some(targets)
            },
            WriteTarget::One(idx) => {
                if idx >= self.matches.len() {
                    return None;
                }
                let mut targets: Vec<u64> = Vec::new();
                targets.push(self.matches[idx]);
                assert(targets@ =~= seq![self.matches@[idx as int]]);
                Some(targets)
            },
        }
    }

    /// Prepares the bytes of a value of the selected type to be written to matches, also where
    /// there are none.
    pub fn prepare_write(&self, target: WriteTarget, value: &str, reading: &FloatReading) -> (r: Result<
        WriteJob,
        ScanflowError,
    >)
        ensures
            match self.state().typename {
                None => refused(r, ErrorKind::Uninitialized),
                Some(t) => match (
                    value_bytes(t, value@, *reading),
                    selected(self.state().matches, target),
                ) {
                    (Some(data), Some(targets)) => r matches Ok(job) && job@ == (WriteState {
                        targets,
                        data,
                        written: 0,
                    }),
                    _ => refused(r, ErrorKind::InvalidArgument),
                },
            },
    {
        let typename = match &self.typename {
            Some(t) => t.as_str(),
            None => return Err(ScanflowError::Kind(ErrorKind::Uninitialized)),
        };
        let data = match parse_value(typename, value, reading) {
            Some(data) => data,
            None => return Err(ScanflowError::Kind(ErrorKind::InvalidArgument)),
        };
        match self.write_targets(target) {
            Some(targets) => Ok(WriteJob { targets, data, written: 0 }),
            None => Err(ScanflowError::Kind(ErrorKind::InvalidArgument)),
        }
    }

    /// Begins to write a value of the selected type to matches, once each.
    pub fn write_value(&self, target: WriteTarget, value: &str, reading: &FloatReading) -> (r: Result<
        WriteJob,
        ScanflowError,
    >)
        ensures
            if self.state().matches.len() == 0 || self.state().typename is None {
                refused(r, ErrorKind::Uninitialized)
            } else {
                match (
                    value_bytes(self.state().typename.unwrap(), value@, *reading),
                    selected(self.state().matches, target),
                ) {
                    (Some(data), Some(targets)) => r matches Ok(job) && job@ == (WriteState {
                        targets,
                        data,
                        written: 0,
                    }),
                    _ => refused(r, ErrorKind::InvalidArgument),
                }
            },
    {
        if self.matches.len() == 0 {
            return Err(ScanflowError::Kind(ErrorKind::Uninitialized));
        }
        self.prepare_write(target, value, reading)
    }

    /// Takes the outcome of building the pointer map: the number of its entries, or what the memory
    /// reports.
    pub fn build_pointer_map(&mut self, built: Result<usize, String>) -> (r: Result<
        (),
        ScanflowError,
    >)
        ensures
            final(self).memory() == old(self).memory(),
            match built {
                Ok(n) => {
                    &&& r is Ok
                    &&& final(self).state() == (SessionState { pointers: n, ..old(self).state() })
                },
                Err(text) => {
                    &&& r == Err::<(), ScanflowError>(ScanflowError::Memory(text))
                    &&& final(self).state() == old(self).state()
                },
            },
    {
        match built {
            Ok(n) => {
                self.pointers = n;
                Ok(())
            },
            Err(text) => Err(ScanflowError::Memory(text)),
        }
    }

    /// Takes the outcome of collecting global variables: how many were found, or what the memory
    /// reports. The globals found before are forgotten either way.
    pub fn collect_globals(&mut self, found: Result<usize, String>) -> (r: Result<
        usize,
        ScanflowError,
    >)
        ensures
            final(self).memory() == old(self).memory(),
            match found {
                Ok(n) => {
                    &&& r == Ok::<usize, ScanflowError>(n)
                    &&& final(self).state() == (SessionState { globals: n, ..old(self).state() })
                },
                Err(text) => {
                    &&& r == Err::<usize, ScanflowError>(ScanflowError::Memory(text))
                    &&& final(self).state() == (SessionState { globals: 0, ..old(self).state() })
                },
            },
    {
        self.globals = 0;
        let n: usize = match found {
            Ok(n) => n,
            Err(text) => return Err(ScanflowError::Memory(text)),
        };
        self.globals = n;
        Ok(n)
    }

    /// What to do once the pointer map is there.
    fn with_map(&self, use_disasm: bool) -> (r: OffsetStep)
        ensures
            r == step_with_map(use_disasm, self.state().globals),
    {
        if !use_disasm {
            OffsetStep::FindFromAll
        } else if self.globals == 0 {
            OffsetStep::CollectGlobals
        } else {
            OffsetStep::FindFromGlobals
        }
    }

    /// Begins a scan for chains of pointers to the matches. An empty pointer map is built first,
    /// and globals are collected first where they are needed and there are none.
    pub fn offset_scan(
        &self,
        use_disasm: bool,
        lrange: usize,
        urange: usize,
        max_depth: usize,
        filter_addr: Option<u64>,
    ) -> (r: OffsetScan)
        ensures
            r == (OffsetScan {
                use_disasm,
                lrange,
                urange,
                max_depth,
                filter: filter_addr,
                step: if self.state().pointers == 0 {
                    OffsetStep::BuildPointerMap
                } else {
                    step_with_map(use_disasm, self.state().globals)
                },
            }),
    {
        let step = if self.pointers == 0 {
            OffsetStep::BuildPointerMap
        } else {
            self.with_map(use_disasm)
        };
        OffsetScan { use_disasm, lrange, urange, max_depth, filter: filter_addr, step }
    }

    /// Takes the outcome of what an offset scan needed first, and gives the scan as it goes on:
    /// with the number of entries of the pointer map, or of globals, even where that is zero, or
    /// not at all where the memory reports an error.
    pub fn offset_scan_step(&mut self, scan: OffsetScan, outcome: Result<usize, String>) -> (r: Result<
        OffsetScan,
        ScanflowError,
    >)
        requires
            scan.step is BuildPointerMap || scan.step is CollectGlobals,
        ensures
            final(self).memory() == old(self).memory(),
            match outcome {
                Err(text) => {
                    &&& r == Err::<OffsetScan, ScanflowError>(ScanflowError::Memory(text))
                    &&& final(self).state() == old(self).state()
                },
                Ok(n) => if scan.step is BuildPointerMap {
                    &&& final(self).state() == (SessionState { pointers: n, ..old(self).state() })
                    &&& r == Ok::<OffsetScan, ScanflowError>(
                        (OffsetScan {
                            step: step_with_map(scan.use_disasm, old(self).state().globals),
                            ..scan
                        }),
                    )
                } else {
                    &&& final(self).state() == (SessionState { globals: n, ..old(self).state() })
                    &&& r == Ok::<OffsetScan, ScanflowError>(
                        (OffsetScan { step: OffsetStep::FindFromGlobals, ..scan }),
                    )
                },
            },
    {
        let n: usize = match outcome {
            Ok(n) => n,
            Err(text) => return Err(ScanflowError::Memory(text)),
        };
        let mut next = scan;
        if next.step == OffsetStep::BuildPointerMap {
            self.pointers = n;
            next.step = self.with_map(next.use_disasm);
        } else {
            self.globals = n;
            next.step = OffsetStep::FindFromGlobals;
        }
        Ok(next)
    }

    /// Takes the outcome of listing the modules of the process.
    pub fn list_modules(&self, listed: Result<Vec<ModuleInfo>, String>) -> (r: Result<
        Vec<ModuleInfo>,
        ScanflowError,
    >)
        ensures
            r == match listed {
                Ok(v) => Ok::<Vec<ModuleInfo>, ScanflowError>(v),
                Err(text) => Err(ScanflowError::Memory(text)),
            },
    {
        from_memory(listed)
    }

    /// Takes the outcome of looking for code signatures of an address.
    pub fn sigmaker(&self, found: Result<Vec<String>, String>) -> (r: Result<
        Vec<String>,
        ScanflowError,
    >)
        ensures
            r == match found {
                Ok(v) => Ok::<Vec<String>, ScanflowError>(v),
                Err(text) => Err(ScanflowError::Memory(text)),
            },
    {
        from_memory(found)
    }
}

/// Every operation on a session keeps its type one of the table, with the size that goes with it. A
/// signature scan selects none, a first pass selects that of its value, and the others leave it
/// alone or select one that exists.
pub proof fn law_session_stays_typed(
    s: SessionState,
    name: Seq<char>,
    len: Option<usize>,
    value: Seq<char>,
    reading: FloatReading,
    found: Seq<u64>,
    n: usize,
)
    requires
        s.typed(),
    ensures
        SessionState::fresh(s.target).typed(),
        s.type_set(name, len).typed(),
        (SessionState { matches: found, typename: None, ..s }).typed(),
        (SessionState { matches: found, ..s }).typed(),
        (SessionState { pointers: n, ..s }).typed(),
        (SessionState { globals: n, ..s }).typed(),
        value_bytes(name, value, reading) matches Some(b) && n == (match kind_of(
            name,
        ).unwrap().size() {
            Some(m) => m as nat,
            None => b.len(),
        }) ==> s.scanned(found, name, n).typed(),
{
}

/// A first pass for a value finds the same in the same memory whatever was matched before: two
/// sessions end with the same matches, the type of the value, and the same length to read back
/// with.
pub proof fn law_first_pass_forgets(
    s: SessionState,
    t: SessionState,
    scan: ScanState,
    other: ScanState,
    memory: Map<int, u8>,
    name: Seq<char>,
    value: Seq<char>,
    reading: FloatReading,
    len: usize,
)
    requires
        value_bytes(name, value, reading) is Some,
        scan.pattern == sought(value_bytes(name, value, reading).unwrap()),
        other.pattern == sought(value_bytes(name, value, reading).unwrap()),
        other.ranges == scan.ranges,
        scan.in_order(),
        scan.read_from(memory),
        scan.pending() is None,
        other.in_order(),
        other.read_from(memory),
        other.pending() is None,
    ensures
        s.scanned(scan.found(), name, len).matches.to_set() == t.scanned(
            other.found(),
            name,
            len,
        ).matches.to_set(),
        s.scanned(scan.found(), name, len).typename == Some(name),
        t.scanned(other.found(), name, len).typename == Some(name),
        s.scanned(scan.found(), name, len).buf_len == t.scanned(other.found(), name, len).buf_len,
{
    assert forall|a: u64| scan.found().contains(a) <==> other.found().contains(a) by {
        crate::sig_scan::law_finished_scan(scan, memory, a);
        crate::sig_scan::law_finished_scan(other, memory, a);
    }
    assert(scan.found().to_set() =~= other.found().to_set());
}

/// Where a first pass for a whole number has been answered from one memory, every match that it
/// finds is read back from that memory as the number that was scanned for.
pub proof fn law_match_shows_the_number(
    n: int,
    w: Width,
    signed: bool,
    reading: FloatReading,
    s: ScanState,
    memory: Map<int, u8>,
    a: u64,
    float_text: Seq<char>,
)
    requires
        signed ==> -(w.modulus() / 2) <= n < w.modulus() / 2,
        !signed ==> 0 <= n < w.modulus(),
        s.in_order(),
        s.read_from(memory),
        s.pending() is None,
        s.found().contains(a),
        s.pattern == sought(
            parsed(
                if signed {
                    Kind::Signed(w)
                } else {
                    Kind::Unsigned(w)
                },
                crate::number::signed_decimal(n),
                reading,
            ).unwrap(),
        ),
    ensures
        ({
            let kind = if signed {
                Kind::Signed(w)
            } else {
                Kind::Unsigned(w)
            };
            &&& read_of(memory, ReadRequest { addr: a, len: w.spec_bytes() as u64 }) matches Some(buf)
            &&& printed(kind, buf, float_text) == Some(crate::number::signed_decimal(n))
        }),
{
    crate::types::law_whole_round_trip(n, w, signed, reading, float_text);
    let kind = if signed {
        Kind::Signed(w)
    } else {
        Kind::Unsigned(w)
    };
    let data = parsed(kind, crate::number::signed_decimal(n), reading).unwrap();
    crate::value_scanner::law_found_reads_back(s, data, memory, a);
}

/// Without an address to begin at, every chain is kept; with one, those that begin there, and no
/// others.
pub proof fn law_offset_filter(chains: Seq<(u64, Seq<(u64, isize)>)>, filter: Option<u64>, i: int)
    ensures
        filter is None ==> chains.filter(beginning_at(filter)) == chains,
        0 <= i < chains.len() ==> (chains.filter(beginning_at(filter)).contains(chains[i])
            <==> begins_at(chains[i], filter)),
{
    let test = beginning_at(filter);
    if filter is None {
        lemma_filter_all(chains, test);
    }
    if 0 <= i < chains.len() {
        if begins_at(chains[i], filter) {
            assert(test(chains[i]));
            chains.lemma_filter_contains(test, i);
        }
        if chains.filter(test).contains(chains[i]) {
            let k = choose|k: int|
                0 <= k < chains.filter(test).len() && chains.filter(test)[k] == chains[i];
            chains.lemma_filter_pred(test, k);
        }
    }
}

/// A test that everything passes keeps everything.
proof fn lemma_filter_all<A>(s: Seq<A>, test: spec_fn(A) -> bool)
    requires
        forall|i: int| 0 <= i < s.len() ==> test(#[trigger] s[i]),
    ensures
        s.filter(test) == s,
    decreases s.len(),
{
    reveal(Seq::filter);
    if s.len() > 0 {
        lemma_filter_all(s.drop_last(), test);
        assert(test(s[s.len() - 1]));
        assert(s.drop_last().push(s.last()) =~= s);
    }
}

/// A memory after the first of some addresses have been written with the same bytes.
pub open spec fn job_done(memory: Map<int, u8>, s: WriteState) -> Map<int, u8>
    decreases s.written,
{
    if s.written == 0 {
        memory
    } else {
        write_of(
            job_done(memory, WriteState { written: (s.written - 1) as nat, ..s }),
            s.targets[s.written - 1],
            s.data,
        )
    }
}

/// A write that has gone through all its addresses leaves its bytes at each of them, where no two
/// of them overlap.
pub proof fn law_written_reads_back(memory: Map<int, u8>, s: WriteState, i: int)
    requires
        s.data.len() <= u64::MAX,
        0 <= i < s.written <= s.targets.len(),
        forall|j: int|
            i < j < s.written ==> s.targets[i] + s.data.len() <= #[trigger] s.targets[j]
                || s.targets[j] + s.data.len() <= s.targets[i],
    ensures
        read_of(
            job_done(memory, s),
            ReadRequest { addr: s.targets[i], len: s.data.len() as u64 },
        ) == Some(s.data),
    decreases s.written,
{
    let n = (s.written - 1) as nat;
    let before = WriteState { written: n, ..s };
    let q = ReadRequest { addr: s.targets[i], len: s.data.len() as u64 };
    law_read_gives_back_the_write(job_done(memory, before), s.targets[n as int], s.data, q);
    if i < n {
        law_written_reads_back(memory, before, i);
    }
}

/// Chains are kept exactly where they begin at the address asked for, and all of them where none
/// is.
pub proof fn law_chains_begin_where_asked(
    chains: Seq<(u64, Seq<(u64, isize)>)>,
    c: (u64, Seq<(u64, isize)>),
    a: u64,
)
    ensures
        chains.filter(beginning_at(Some(a))).contains(c) <==> chains.contains(c) && c.1.len() > 0
            && c.1[0].0 == a,
        chains.filter(beginning_at(None)) == chains,
        chains.push(c).filter(beginning_at(Some(a))) == (if c.1.len() > 0 && c.1[0].0 == a {
            chains.filter(beginning_at(Some(a))).push(c)
        } else {
            chains.filter(beginning_at(Some(a)))
        }),
{
    let test = beginning_at(Some(a));
    law_offset_filter(chains, None, 0);
    if chains.filter(test).contains(c) {
        chains.lemma_filter_contains_rev(test, c);
        let k = choose|k: int| 0 <= k < chains.filter(test).len() && chains.filter(test)[k] == c;
        chains.lemma_filter_pred(test, k);
    }
    if chains.contains(c) && test(c) {
        let i = choose|i: int| 0 <= i < chains.len() && chains[i] == c;
        chains.lemma_filter_contains(test, i);
    }
    reveal(Seq::filter);
    assert(chains.push(c).drop_last() =~= chains);
}

/// What rows and chains hold is what each of them holds, at its position.
pub proof fn law_row_views(
    rows: Seq<MatchDisplay>,
    chains: Seq<(u64, Vec<(u64, isize)>)>,
    matches: Seq<OffsetMatch>,
    i: int,
)
    ensures
        row_views(rows).len() == rows.len(),
        0 <= i < rows.len() ==> row_views(rows)[i] == (rows[i].address, rows[i].value@),
        chain_views(chains).len() == chains.len(),
        0 <= i < chains.len() ==> chain_views(chains)[i] == (chains[i].0, chains[i].1@),
        offset_views(matches).len() == matches.len(),
        0 <= i < matches.len() ==> offset_views(matches)[i] == (matches[i].target, matches[i].chain@),
{
}

/// A session that is new or was reset has no matches, no type, no pointer map and no globals. A
/// first pass puts its matches and its type in place of those before and keeps the rest.
pub proof fn law_fresh_and_scanned(
    s: SessionState,
    target: Seq<char>,
    found: Seq<u64>,
    name: Seq<char>,
    len: usize,
)
    ensures
        ({
            let f = SessionState::fresh(target);
            &&& f.target == target
            &&& f.matches.len() == 0
            &&& f.typename is None
            &&& f.buf_len == 0
            &&& f.pointers == 0
            &&& f.globals == 0
        }),
        ({
            let t = s.scanned(found, name, len);
            &&& t.target == s.target
            &&& t.matches == found
            &&& t.typename == Some(name)
            &&& t.buf_len == len
            &&& t.pointers == s.pointers
            &&& t.globals == s.globals
        }),
{
}

/// Selecting a type that has a size takes that size, whatever length is given. Selecting text takes
/// the length given, and fails without one. A name that is no type changes nothing. The matches,
/// the pointer map and the globals stay in any case.
pub proof fn law_selecting_a_type(s: SessionState, name: Seq<char>, len: Option<usize>)
    ensures
        ({
            let t = s.type_set(name, len);
            &&& t.target == s.target && t.matches == s.matches && t.pointers == s.pointers
                && t.globals == s.globals
            &&& match kind_of(name) {
                None => t == s && !SessionState::can_set_type(name, len),
                Some(kind) => t.typename == Some(name) && match (kind.size(), len) {
                    (Some(n), _) => t.buf_len == n && SessionState::can_set_type(name, len),
                    (None, Some(n)) => t.buf_len == n && SessionState::can_set_type(name, len),
                    (None, None) => t.buf_len == s.buf_len && !SessionState::can_set_type(
                        name,
                        len,
                    ),
                },
            }
        }),
{
}

/// With the pointer map there, an offset scan begins at everything in it where no disassembly is
/// asked for, and otherwise at the globals, which are collected first where there are none.
pub proof fn law_offset_steps(globals: usize)
    ensures
        step_with_map(false, globals) == OffsetStep::FindFromAll,
        globals > 0 ==> step_with_map(true, globals) == OffsetStep::FindFromGlobals,
        step_with_map(true, 0) == OffsetStep::CollectGlobals,
{
}

/// A process is shown under its name, and a raw view as `view`.
pub proof fn law_target_names(name: String)
    ensures
        Funcs::Process(name).name() == name@,
        Funcs::View.name() == "view"@,
{
}

/// A read-back asks for the next match, at its address and with the length of the type, and what it
/// shows is put behind the rows before it, with the address of that match.
pub proof fn law_read_back_goes_in_order(s: ReadBackState, text: Seq<char>)
    ensures
        s.pending() is Some <==> s.rows.len() < s.targets.len(),
        s.pending() matches Some(q) ==> q.addr == s.targets[s.rows.len() as int] && q.len
            == s.buf_len,
        s.shown(text).rows == s.rows.push((s.targets[s.rows.len() as int], text)),
        s.shown(text).targets == s.targets,
        s.shown(text).typename == s.typename,
        s.shown(text).buf_len == s.buf_len,
{
}

} // verus!

//! Many sessions at once, each known by an id.

use std::hash::RandomState;

use dashmap::DashMap;
use vstd::prelude::*;

use crate::error::{from_memory, refused, ErrorKind, ScanflowError};
use crate::memory::{all_valid, copied, MemoryRange, ReadRequest};
use crate::number::digit_of;
use crate::session::{
    step_with_map, OffsetScan, OffsetStep, ReadBack, ReadBackState, Session, SessionState,
    ValueScan, WriteJob, WriteState,
};
use crate::sig_scan::{pattern_of, PatternScan, ScanState};
use crate::text::{opt_view, owned, same};
use crate::types::{kind_of, value_bytes, FloatReading, ModuleInfo, ScanResult};
use crate::value_scanner::{sought, FilterScan, FilterState};

verus! {

/// `dashmap::DashMap`, a hash map.
#[verifier::external_type_specification]
#[verifier::external_body]
#[verifier::reject_recursive_types(K)]
#[verifier::reject_recursive_types(V)]
#[verifier::reject_recursive_types(S)]
pub struct ExDashMap<K, V, S>(DashMap<K, V, S>);

/// What a `DashMap` from ids to places holds.
pub uninterp spec fn ids_of(m: DashMap<String, u64, RandomState>) -> Map<Seq<char>, u64>;

/// `DashMap::new` makes a map that holds nothing.
#[verifier::external_body]
fn new_ids() -> (r: DashMap<String, u64, RandomState>)
    ensures
        ids_of(r) == (Map::<Seq<char>, u64>::empty()),
{
    DashMap::new()
}

/// `DashMap::insert` makes a key stand for a value, and gives what it stood for before, if
/// anything.
#[verifier::external_body]
fn insert_id(m: &mut DashMap<String, u64, RandomState>, id: String, place: u64) -> (r: Option<u64>)
    ensures
        ids_of(*final(m)) == ids_of(*old(m)).insert(id@, place),
        r == (if ids_of(*old(m)).dom().contains(id@) {
            Some(ids_of(*old(m))[id@])
        } else {
            None
        }),
{
    m.insert(id, place)
}

/// `DashMap::get` gives what a key stands for, if anything.
#[verifier::external_body]
fn find_id(m: &DashMap<String, u64, RandomState>, id: &str) -> (r: Option<u64>)
    ensures
        r == (if ids_of(*m).dom().contains(id@) {
            Some(ids_of(*m)[id@])
        } else {
            None
        }),
{
    m.get(id).map(|r| *r.value())
}

/// `DashMap::remove` takes a key out of the map, and gives what it stood for, if anything.
#[verifier::external_body]
fn remove_id(m: &mut DashMap<String, u64, RandomState>, id: &str) -> (r: Option<u64>)
    ensures
        ids_of(*final(m)) == ids_of(*old(m)).remove(id@),
        r == (if ids_of(*old(m)).dom().contains(id@) {
            Some(ids_of(*old(m))[id@])
        } else {
            None
        }),
{
    m.remove(id).map(|(_, place)| place)
}

/// `DashMap::iter` gives every key with what it stands for, each once, in an order that is left
/// open.
#[verifier::external_body]
fn list_ids(m: &DashMap<String, u64, RandomState>) -> (r: Vec<(String, u64)>)
    ensures
        forall|i: int|
            0 <= i < r@.len() ==> ids_of(*m).dom().contains((#[trigger] r@[i]).0@) && ids_of(
                *m,
            )[r@[i].0@] == r@[i].1,
        forall|i: int, j: int|
            0 <= i < j < r@.len() ==> (#[trigger] r@[i]).0@ != (#[trigger] r@[j]).0@,
        forall|k: Seq<char>| #[trigger]
            ids_of(*m).dom().contains(k) ==> exists|i: int|
                0 <= i < r@.len() && (#[trigger] r@[i]).0@ == k,
{
    m.iter().map(|r| (r.key().clone(), *r.value())).collect()
}

/// Whether a text has the form of a random UUID: 36 characters, hyphens behind the 8th, 12th, 16th
/// and 20th hexadecimal digit, the version 4 and its variant.
pub open spec fn is_uuid(s: Seq<char>) -> bool {
    &&& s.len() == 36
    &&& s[8] == '-' && s[13] == '-' && s[18] == '-' && s[23] == '-'
    &&& forall|i: int|
        0 <= i < 36 && i != 8 && i != 13 && i != 18 && i != 23 ==> digit_of(
            #[trigger] s[i],
            16,
        ) is Some && !('A' <= s[i] <= 'F')
    &&& s[14] == '4'
    &&& s[19] == '8' || s[19] == '9' || s[19] == 'a' || s[19] == 'b'
}

/// `uuid::Uuid::new_v4` makes a random UUID, whose `to_string` writes it with hyphens and in lower
/// case. Which one it is, is left to chance.
#[verifier::external_body]
fn new_id() -> (r: String)
    ensures
        is_uuid(r@),
{
    uuid::Uuid::new_v4().to_string()
}

/// A session of a process or of a raw view.
pub enum AnySession<P, V> {
    /// The session of a process.
    Process(Session<P>),
    /// The session of a raw view.
    View(Session<V>),
}

impl<P, V> AnySession<P, V> {
    /// The state of the session.
    pub open spec fn state(&self) -> SessionState {
        match self {
            AnySession::Process(s) => s.state(),
            AnySession::View(s) => s.state(),
        }
    }

    /// Whether two sessions are over the same handle.
    pub open spec fn same_memory(&self, other: &Self) -> bool {
        match (self, other) {
            (AnySession::Process(a), AnySession::Process(b)) => a.memory() == b.memory(),
            (AnySession::View(a), AnySession::View(b)) => a.memory() == b.memory(),
            _ => false,
        }
    }

    /// Whether the target is a process.
    pub fn is_process(&self) -> (r: bool)
        ensures
            r == (self is Process),
    {
        match self {
            AnySession::Process(_) => true,
            AnySession::View(_) => false,
        }
    }

    /// The name of the target.
    pub fn target_name(&self) -> (r: String)
        ensures
            r@ == self.state().target,
    {
        match self {
            AnySession::Process(s) => owned(s.target_name()),
            AnySession::View(s) => owned(s.target_name()),
        }
    }

    /// The selected type, if any.
    pub fn typename(&self) -> (r: Option<String>)
        ensures
            opt_view(r) == self.state().typename,
    {
        let name = match self {
            AnySession::Process(s) => s.typename(),
            AnySession::View(s) => s.typename(),
        };
        match name {
            Some(t) => Some(owned(t)),
            None => None,
        }
    }

    /// A copy of the matches.
    pub fn matches_snapshot(&self) -> (r: Vec<u64>)
        ensures
            r@ == self.state().matches,
    {
        let matches = match self {
            AnySession::Process(s) => s.matches(),
            AnySession::View(s) => s.matches(),
        };
        let out = copied(matches, matches.len());
        assert(out@ =~= matches@);
        out
    }

    /// The number of matches.
    pub fn match_count(&self) -> (r: usize)
        ensures
            r == self.state().matches.len(),
    {
        match self {
            AnySession::Process(s) => s.matches().len(),
            AnySession::View(s) => s.matches().len(),
        }
    }

    /// Begins a scan of memory ranges for a value.
    pub fn scan_value(
        &self,
        typename: &str,
        value: &str,
        reading: &FloatReading,
        ranges: Vec<MemoryRange>,
    ) -> (r: Result<ValueScan, ScanflowError>)
        requires
            all_valid(ranges@),
        ensures
            match value_bytes(typename@, value@, *reading) {
                Some(b) => {
                    &&& r matches Ok(scan)
                    &&& scan.wf()
                    &&& scan.state() == ScanState::begun(sought(b), ranges@)
                    &&& scan.name() == typename@
                    &&& scan.len() == (match kind_of(typename@).unwrap().size() {
                        Some(n) => n as nat,
                        None => b.len(),
                    })
                },
                None => refused(r, ErrorKind::InvalidArgument),
            },
    {
        match self {
            AnySession::Process(s) => s.scan_value(typename, value, reading, ranges),
            AnySession::View(s) => s.scan_value(typename, value, reading, ranges),
        }
    }

    /// Takes what a first pass found.
    pub fn finish_scan_value(&mut self, scan: ValueScan) -> (r: ScanResult)
        requires
            scan.wf(),
        ensures
            final(self).same_memory(old(self)),
            final(self).state() == (SessionState {
                matches: scan.state().found(),
                typename: Some(scan.name()),
                buf_len: scan.len(),
                ..old(self).state()
            }),
            r.matches@ == scan.state().found(),
            r.is_initial_scan,
    {
        match self {
            AnySession::Process(s) => s.finish_scan_value(scan),
            AnySession::View(s) => s.finish_scan_value(scan),
        }
    }

    /// Begins a filter pass over the matches for a new value.
    pub fn filter_value(&self, value: &str, reading: &FloatReading) -> (r: Result<
        FilterScan,
        ScanflowError,
    >)
        ensures
            match self.state().typename {
                None => refused(r, ErrorKind::Uninitialized),
                Some(t) => match value_bytes(t, value@, *reading) {
                    None => refused(r, ErrorKind::InvalidArgument),
                    Some(b) => r matches Ok(scan) && scan.wf() && scan@ == (FilterState {
                        targets: self.state().matches,
                        data: b,
                        replies: Seq::empty(),
                    }),
                },
            },
    {
        match self {
            AnySession::Process(s) => s.filter_value(value, reading),
            AnySession::View(s) => s.filter_value(value, reading),
        }
    }

    /// Takes what a filter pass kept.
    pub fn finish_filter_value(&mut self, scan: FilterScan) -> (r: ScanResult)
        requires
            scan.wf(),
        ensures
            final(self).same_memory(old(self)),
            final(self).state() == (SessionState { matches: scan@.found(), ..old(self).state() }),
            r.matches@ == scan@.found(),
            !r.is_initial_scan,
    {
        match self {
            AnySession::Process(s) => s.finish_filter_value(scan),
            AnySession::View(s) => s.finish_filter_value(scan),
        }
    }

    /// Begins a scan of memory ranges for a signature.
    pub fn sig_scan(&self, pattern: &str, ranges: Vec<MemoryRange>) -> (r: Result<
        PatternScan,
        ScanflowError,
    >)
        requires
            all_valid(ranges@),
        ensures
            match pattern_of(pattern@) {
                Some(pat) => r matches Ok(scan) && scan.wf() && scan@ == ScanState::begun(
                    pat,
                    ranges@,
                ),
                None => refused(r, ErrorKind::InvalidArgument),
            },
    {
        match self {
            AnySession::Process(s) => s.sig_scan(pattern, ranges),
            AnySession::View(s) => s.sig_scan(pattern, ranges),
        }
    }

    /// Takes what a signature scan found.
    pub fn finish_sig_scan(&mut self, scan: PatternScan) -> (r: ScanResult)
        requires
            scan.wf(),
        ensures
            final(self).same_memory(old(self)),
            final(self).state() == (SessionState {
                matches: scan@.found(),
                typename: None,
                ..old(self).state()
            }),
            r.matches@ == scan@.found(),
            r.is_initial_scan,
    {
        match self {
            AnySession::Process(s) => s.finish_sig_scan(scan),
            AnySession::View(s) => s.finish_sig_scan(scan),
        }
    }

    /// Begins to read back up to `max` matches.
    pub fn read_matches(&self, max: usize) -> (r: Result<ReadBack, ScanflowError>)
        ensures
            match self.state().typename {
                None => refused(r, ErrorKind::Uninitialized),
                Some(t) => {
                    let n = self.state().matches.len();
                    r matches Ok(back) && back@ == (ReadBackState {
                        typename: t,
                        buf_len: self.state().buf_len,
                        targets: self.state().matches.take(
                            if max < n {
                                max as int
                            } else {
                                n as int
                            },
                        ),
                        rows: Seq::empty(),
                    })
                },
            },
    {
        match self {
            AnySession::Process(s) => s.read_matches(max),
            AnySession::View(s) => s.read_matches(max),
        }
    }

    /// What is to be read for raw bytes at an address.
    pub fn read_memory(&self, addr: u64, len: usize) -> (r: ReadRequest)
        ensures
            r == (ReadRequest { addr, len: len as u64 }),
    {
        match self {
            AnySession::Process(s) => s.read_memory(addr, len),
            AnySession::View(s) => s.read_memory(addr, len),
        }
    }

    /// The write of raw bytes to an address.
    pub fn write_memory(&self, addr: u64, data: Vec<u8>) -> (r: WriteJob)
        ensures
            r@ == (WriteState { targets: seq![addr], data: data@, written: 0 }),
    {
        match self {
            AnySession::Process(s) => s.write_memory(addr, data),
            AnySession::View(s) => s.write_memory(addr, data),
        }
    }

    /// Forgets the matches, the pointer map, the globals and the selected type.
    pub fn reset(&mut self)
        ensures
            final(self).same_memory(old(self)),
            final(self).state() == SessionState::fresh(old(self).state().target),
    {
        match self {
            AnySession::Process(s) => s.reset(),
            AnySession::View(s) => s.reset(),
        }
    }

    /// Selects a type.
    pub fn set_type(&mut self, typename: &str, len: Option<usize>) -> (r: Result<
        (),
        ScanflowError,
    >)
        ensures
            final(self).same_memory(old(self)),
            final(self).state() == old(self).state().type_set(typename@, len),
            SessionState::can_set_type(typename@, len) ==> r is Ok,
            !SessionState::can_set_type(typename@, len) ==> refused(r, ErrorKind::InvalidArgument),
    {
        match self {
            AnySession::Process(s) => s.set_type(typename, len),
            AnySession::View(s) => s.set_type(typename, len),
        }
    }

    /// Refuses what makes sense for a process only, where the target is none.
    pub fn require_process(&self) -> (r: Result<(), ScanflowError>)
        ensures
            self is Process ==> r is Ok,
            self is View ==> refused(r, ErrorKind::InvalidArgument),
    {
        match self {
            AnySession::Process(_) => Ok(()),
            AnySession::View(_) => Err(ScanflowError::Kind(ErrorKind::InvalidArgument)),
        }
    }

    /// Takes the outcome of building the pointer map; a raw view has none.
    pub fn build_pointer_map(&mut self, built: Result<usize, String>) -> (r: Result<
        (),
        ScanflowError,
    >)
        ensures
            final(self).same_memory(old(self)),
            match (*old(self), built) {
                (AnySession::View(_), _) => {
                    &&& refused(r, ErrorKind::InvalidArgument)
                    &&& final(self).state() == old(self).state()
                },
                (AnySession::Process(_), Ok(n)) => {
                    &&& r is Ok
                    &&& final(self).state() == (SessionState { pointers: n, ..old(self).state() })
                },
                (AnySession::Process(_), Err(text)) => {
                    &&& r == Err::<(), ScanflowError>(ScanflowError::Memory(text))
                    &&& final(self).state() == old(self).state()
                },
            },
    {
        match self {
            AnySession::Process(s) => s.build_pointer_map(built),
            AnySession::View(_) => Err(ScanflowError::Kind(ErrorKind::InvalidArgument)),
        }
    }

    /// Takes the outcome of collecting global variables; a raw view has none.
    pub fn collect_globals(&mut self, found: Result<usize, String>) -> (r: Result<
        usize,
        ScanflowError,
    >)
        ensures
            final(self).same_memory(old(self)),
            match (*old(self), found) {
                (AnySession::View(_), _) => {
                    &&& refused(r, ErrorKind::InvalidArgument)
                    &&& final(self).state() == old(self).state()
                },
                (AnySession::Process(_), Ok(n)) => {
                    &&& r == Ok::<usize, ScanflowError>(n)
                    &&& final(self).state() == (SessionState { globals: n, ..old(self).state() })
                },
                (AnySession::Process(_), Err(text)) => {
                    &&& r == Err::<usize, ScanflowError>(ScanflowError::Memory(text))
                    &&& final(self).state() == (SessionState { globals: 0, ..old(self).state() })
                },
            },
    {
        match self {
            AnySession::Process(s) => s.collect_globals(found),
            AnySession::View(_) => Err(ScanflowError::Kind(ErrorKind::InvalidArgument)),
        }
    }

    /// Takes the outcome of listing modules; a raw view has none.
    pub fn list_modules(&self, listed: Result<Vec<ModuleInfo>, String>) -> (r: Result<
        Vec<ModuleInfo>,
        ScanflowError,
    >)
        ensures
            match (*self, listed) {
                (AnySession::View(_), _) => refused(r, ErrorKind::InvalidArgument),
                (AnySession::Process(_), Ok(v)) => r == Ok::<Vec<ModuleInfo>, ScanflowError>(v),
                (AnySession::Process(_), Err(text)) => r == Err::<Vec<ModuleInfo>, ScanflowError>(
                    ScanflowError::Memory(text),
                ),
            },
    {
        match self {
            AnySession::Process(s) => s.list_modules(listed),
            AnySession::View(_) => Err(ScanflowError::Kind(ErrorKind::InvalidArgument)),
        }
    }

    /// Takes the outcome of looking for code signatures; a raw view has none.
    pub fn sigmaker(&self, found: Result<Vec<String>, String>) -> (r: Result<
        Vec<String>,
        ScanflowError,
    >)
        ensures
            match (*self, found) {
                (AnySession::View(_), _) => refused(r, ErrorKind::InvalidArgument),
                (AnySession::Process(_), Ok(v)) => r == Ok::<Vec<String>, ScanflowError>(v),
                (AnySession::Process(_), Err(text)) => r == Err::<Vec<String>, ScanflowError>(
                    ScanflowError::Memory(text),
                ),
            },
    {
        match self {
            AnySession::Process(s) => s.sigmaker(found),
            AnySession::View(_) => Err(ScanflowError::Kind(ErrorKind::InvalidArgument)),
        }
    }

    /// Begins a scan for chains of pointers; a raw view refuses it.
    pub fn offset_scan(
        &self,
        use_disasm: bool,
        lrange: usize,
        urange: usize,
        max_depth: usize,
        filter: Option<u64>,
    ) -> (r: Result<OffsetScan, ScanflowError>)
        ensures
            self is View ==> refused(r, ErrorKind::InvalidArgument),
            self is Process ==> r == Ok::<OffsetScan, ScanflowError>(
                OffsetScan {
                    use_disasm,
                    lrange,
                    urange,
                    max_depth,
                    filter,
                    step: if self.state().pointers == 0 {
                        OffsetStep::BuildPointerMap
                    } else {
                        step_with_map(use_disasm, self.state().globals)
                    },
                },
            ),
    {
        match self {
            AnySession::Process(s) => Ok(
                s.offset_scan(use_disasm, lrange, urange, max_depth, filter),
            ),
            AnySession::View(_) => Err(ScanflowError::Kind(ErrorKind::InvalidArgument)),
        }
    }
}

/// What is shown of a session.
#[derive(Clone, Debug)]
pub struct SessionInfo {
    /// Its id.
    pub id: String,
    /// `process` or `view`.
    pub kind: String,
    /// The name of its target.
    pub target: String,
}

impl SessionInfo {
    /// Whether it is the information about a session.
    pub open spec fn describes<P, V>(self, session: AnySession<P, V>) -> bool {
        &&& self.kind@ == (if session is Process {
            "process"@
        } else {
            "view"@
        })
        &&& self.target@ == session.state().target
    }
}

/// A running process.
#[derive(Clone, Debug)]
pub struct ProcessInfo {
    /// Its number.
    pub pid: u32,
    /// Its name.
    pub name: String,
    /// Its state, as text.
    pub state: String,
}

/// What became of attaching to a process.
#[derive(Debug)]
pub enum AttachOutcome {
    /// There is a session, with this id.
    Session(String),
    /// Several processes have the name.
    Ambiguous {
        /// The name.
        program: String,
        /// The processes.
        candidates: Vec<ProcessInfo>,
    },
    /// No process has the name.
    NotFound(String),
    /// Neither a name nor a number was given.
    NoTarget,
}

/// Which process to attach to.
#[derive(Debug)]
pub enum AttachStep {
    /// The process with this number is to be opened.
    OpenPid(u32),
    /// The running processes are to be listed, and the one with this name looked for.
    ListProcesses(String),
    /// Nothing more is to be done.
    Done(AttachOutcome),
}

/// Decides how to find the process to attach to. A number takes precedence over a name.
pub fn attach_target(program: Option<String>, pid: Option<u32>) -> (r: AttachStep)
    ensures
        match (pid, program) {
            (Some(n), _) => r == AttachStep::OpenPid(n),
            (None, Some(name)) => r == AttachStep::ListProcesses(name),
            (None, None) => r == AttachStep::Done(AttachOutcome::NoTarget),
        },
{
    match pid {
        Some(n) => AttachStep::OpenPid(n),
        None => match program {
            Some(name) => AttachStep::ListProcesses(name),
            None => AttachStep::Done(AttachOutcome::NoTarget),
        },
    }
}

/// Whether a process has a name.
pub open spec fn has_name(name: Seq<char>) -> spec_fn(ProcessInfo) -> bool {
    |p: ProcessInfo| p.name@ == name
}

/// The processes with a name.
pub open spec fn named(list: Seq<ProcessInfo>, name: Seq<char>) -> Seq<ProcessInfo> {
    list.filter(has_name(name))
}

/// Which process was found.
#[derive(Debug)]
pub enum AttachPick {
    /// This one is to be opened.
    Open(ProcessInfo),
    /// There is none to open.
    Done(AttachOutcome),
}

/// Looks for the process with a name among the running ones. Only where exactly one has it is there
/// one to open; several are all named, so that one can be chosen by its number.
pub fn pick_process(name: String, list: Vec<ProcessInfo>) -> (r: AttachPick)
    ensures
        ({
            let found = named(list@, name@);
            if found.len() == 0 {
                r == AttachPick::Done(AttachOutcome::NotFound(name))
            } else if found.len() == 1 {
                r == AttachPick::Open(found[0])
            } else {
                r matches AttachPick::Done(AttachOutcome::Ambiguous { program, candidates })
                    && program == name && candidates@ == found
            }
        }),
{
    let ghost all = list@;
    let mut found: Vec<ProcessInfo> = Vec::new();
    proof {
        reveal(Seq::filter);
        assert(all.take(0) =~= Seq::empty());
        assert(found@ =~= all.take(0).filter(has_name(name@)));
    }
    for p in it: list
        invariant
            it.seq() == all,
            found@ == all.take(it.index() as int).filter(has_name(name@)),
    {
        proof {
            reveal(Seq::filter);
            assert(all.take(it.index() as int + 1).drop_last() =~= all.take(it.index() as int));
            assert(all.take(it.index() as int + 1).last() == p);
        }
        if same(p.name.as_str(), name.as_str()) {
            found.push(p);
        }
    }
    assert(all.take(all.len() as int) =~= all);
    assert(found@ == named(all, name@));
    if found.len() == 0 {
        AttachPick::Done(AttachOutcome::NotFound(name))
    } else if found.len() == 1 {
        AttachPick::Open(found.remove(0))
    } else {
        AttachPick::Done(AttachOutcome::Ambiguous { program: name, candidates: found })
    }
}

/// All sessions, by their ids.
pub struct SessionManager<P, V> {
    ids: DashMap<String, u64, RandomState>,
    places: Vec<Option<AnySession<P, V>>>,
    free: Vec<u64>,
}

impl<P, V> SessionManager<P, V> {
    /// The sessions, by their ids.
    pub closed spec fn sessions(&self) -> Map<Seq<char>, AnySession<P, V>> {
        Map::new(
            |k: Seq<char>| ids_of(self.ids).dom().contains(k),
            |k: Seq<char>| self.places@[ids_of(self.ids)[k] as int].unwrap(),
        )
    }

    /// Whether every id stands for a place of its own that holds a session, and every free place is
    /// listed once and holds none.
    pub closed spec fn wf(&self) -> bool {
        &&& forall|k: Seq<char>| #[trigger]
            ids_of(self.ids).dom().contains(k) ==> ids_of(self.ids)[k] < self.places@.len()
                && self.places@[ids_of(self.ids)[k] as int] is Some
        &&& forall|j: Seq<char>, k: Seq<char>|
            ids_of(self.ids).dom().contains(j) && ids_of(self.ids).dom().contains(k) && j != k
                ==> #[trigger] ids_of(self.ids)[j] != #[trigger] ids_of(self.ids)[k]
        &&& forall|i: int|
            0 <= i < self.free@.len() ==> (#[trigger] self.free@[i]) < self.places@.len()
                && self.places@[self.free@[i] as int] is None
        &&& self.free@.no_duplicates()
    }

    /// No sessions.
    pub fn new() -> (r: Self)
        ensures
            r.wf(),
            r.sessions() == Map::<Seq<char>, AnySession<P, V>>::empty(),
    {
        let r = SessionManager { ids: new_ids(), places: Vec::new(), free: Vec::new() };
        assert(r.sessions() =~= Map::<Seq<char>, AnySession<P, V>>::empty());
        r
    }

    /// Keeps a session under an id. What was kept under it before is dropped.
    pub fn store_as(&mut self, id: String, session: AnySession<P, V>)
        requires
            old(self).wf(),
        ensures
            final(self).wf(),
            final(self).sessions() == old(self).sessions().insert(id@, session),
    {
        let ghost key = id@;
        let ghost before = *self;
        let place: u64 = match self.free.pop() {
            Some(place) => {
                assert(before.free@[before.free@.len() - 1] == place);
                assert(place < self.places.len());
                self.places.set(place as usize, Some(session));
                place
            },
            None => {
                self.places.push(Some(session));
                (self.places.len() - 1) as u64
            },
        };
        match insert_id(&mut self.ids, id, place) {
            Some(stale) => {
                assert(stale < self.places.len());
                self.places.set(stale as usize, None);
                self.free.push(stale);
            },
            None => {},
        }
        assert(self.sessions() =~= before.sessions().insert(key, session));
    }

    /// Keeps a session under a new random id, and gives the id.
    pub fn store(&mut self, session: AnySession<P, V>) -> (r: String)
        requires
            old(self).wf(),
        ensures
            final(self).wf(),
            is_uuid(r@),
            final(self).sessions() == old(self).sessions().insert(r@, session),
    {
        let id = new_id();
        let copy = owned(id.as_str());
        self.store_as(id, session);
        copy
    }

    /// Decides how to find the process to attach to. A number takes precedence over a name.
    pub fn attach_process(&self, program: Option<String>, pid: Option<u32>) -> (r: AttachStep)
        ensures
            match (pid, program) {
                (Some(n), _) => r == AttachStep::OpenPid(n),
                (None, Some(name)) => r == AttachStep::ListProcesses(name),
                (None, None) => r == AttachStep::Done(AttachOutcome::NoTarget),
            },
    {
        attach_target(program, pid)
    }

    /// Takes the outcome of listing the running processes.
    pub fn list_processes(&self, listed: Result<Vec<ProcessInfo>, String>) -> (r: Result<
        Vec<ProcessInfo>,
        ScanflowError,
    >)
        ensures
            r == match listed {
                Ok(v) => Ok::<Vec<ProcessInfo>, ScanflowError>(v),
                Err(text) => Err(ScanflowError::Memory(text)),
            },
    {
        from_memory(listed)
    }

    /// Keeps the session of a process that was opened.
    pub fn attach_opened(&mut self, memory: P, name: String) -> (r: AttachOutcome)
        requires
            old(self).wf(),
        ensures
            final(self).wf(),
            r matches AttachOutcome::Session(id) && {
                let kept = final(self).sessions()[id@];
                &&& is_uuid(id@)
                &&& final(self).sessions() == old(self).sessions().insert(id@, kept)
                &&& kept matches AnySession::Process(s) && s.memory() == memory && s.state()
                    == SessionState::fresh(name@)
            },
    {
        let session = Session::for_process(memory, name);
        AttachOutcome::Session(self.store(AnySession::Process(session)))
    }

    /// Keeps the session of a raw view, and gives its id.
    pub fn attach_view(&mut self, memory: V) -> (r: String)
        requires
            old(self).wf(),
        ensures
            final(self).wf(),
            is_uuid(r@),
            ({
                let kept = final(self).sessions()[r@];
                &&& final(self).sessions() == old(self).sessions().insert(r@, kept)
                &&& kept matches AnySession::View(s) && s.memory() == memory && s.state()
                    == SessionState::fresh("view"@)
            }),
    {
        let session = Session::for_view(memory);
        self.store(AnySession::View(session))
    }

    /// The session with an id, if there is one.
    pub fn get(&self, id: &str) -> (r: Option<&AnySession<P, V>>)
        requires
            self.wf(),
        ensures
            match r {
                Some(s) => self.sessions().dom().contains(id@) && self.sessions()[id@] == *s,
                None => !self.sessions().dom().contains(id@),
            },
    {
        match find_id(&self.ids, id) {
            Some(place) => {
                assert(place < self.places.len());
                self.places[place as usize].as_ref()
            },
            None => None,
        }
    }

    /// The session with an id, if there is one, to be changed.
    pub fn get_mut(&mut self, id: &str) -> (r: Option<&mut AnySession<P, V>>)
        requires
            old(self).wf(),
        ensures
            final(self).wf(),
            match r {
                Some(s) => {
                    &&& old(self).sessions().dom().contains(id@)
                    &&& old(self).sessions()[id@] == *s
                    &&& final(self).sessions() == old(self).sessions().insert(id@, *final(s))
                },
                None => {
                    &&& !old(self).sessions().dom().contains(id@)
                    &&& final(self).sessions() == old(self).sessions()
                },
            },
    {
        match find_id(&self.ids, id) {
            Some(place) => {
                assert(place < self.places.len());
                self.places[place as usize].as_mut()
            },
            None => None,
        }
    }

    /// Drops the session with an id, and tells whether there was one.
    pub fn detach(&mut self, id: &str) -> (r: bool)
        requires
            old(self).wf(),
        ensures
            final(self).wf(),
            r == old(self).sessions().dom().contains(id@),
            final(self).sessions() == old(self).sessions().remove(id@),
    {
        let ghost before = *self;
        let r: bool = match remove_id(&mut self.ids, id) {
            Some(place) => {
                assert(place < self.places.len());
                self.places.set(place as usize, None);
                self.free.push(place);
                true
            },
            None => false,
        };
        assert(self.sessions() =~= before.sessions().remove(id@));
        r
    }

    /// All sessions, each once, in an order that is left open.
    pub fn list(&self) -> (r: Vec<SessionInfo>)
        requires
            self.wf(),
        ensures
            forall|i: int|
                0 <= i < r@.len() ==> self.sessions().dom().contains((#[trigger] r@[i]).id@)
                    && r@[i].describes(self.sessions()[r@[i].id@]),
            forall|i: int, j: int|
                0 <= i < j < r@.len() ==> (#[trigger] r@[i]).id@ != (#[trigger] r@[j]).id@,
            forall|k: Seq<char>| #[trigger]
                self.sessions().dom().contains(k) ==> exists|i: int|
                    0 <= i < r@.len() && (#[trigger] r@[i]).id@ == k,
    {
        let ids = list_ids(&self.ids);
        let ghost all = ids@;
        let mut out: Vec<SessionInfo> = Vec::new();
        for item in it: ids
            invariant
                self.wf(),
                it.seq() == all,
                forall|i: int|
                    0 <= i < all.len() ==> ids_of(self.ids).dom().contains((#[trigger] all[i]).0@)
                        && ids_of(self.ids)[all[i].0@] == all[i].1,
                out@.len() == it.index(),
                forall|i: int|
                    0 <= i < it.index() ==> (#[trigger] out@[i]).id@ == all[i].0@
                        && self.sessions().dom().contains(out@[i].id@) && out@[i].describes(
                        self.sessions()[out@[i].id@],
                    ),
        {
            assert(item == all[it.index() as int]);
            let (id, place) = item;
            assert(ids_of(self.ids).dom().contains(id@));
            assert(place < self.places.len());
            if let Some(s) = self.places[place as usize].as_ref() {
                let kind = if s.is_process() {
                    owned("process")
                } else {
                    owned("view")
                };
                let target = s.target_name();
                out.push(SessionInfo { id, kind, target });
            }
        }
        assert forall|k: Seq<char>| #[trigger] self.sessions().dom().contains(k) implies exists|
            i: int,
        |
            0 <= i < out@.len() && (#[trigger] out@[i]).id@ == k by {
            assert(ids_of(self.ids).dom().contains(k));
            let i = choose|i: int| 0 <= i < all.len() && (#[trigger] all[i]).0@ == k;
            assert(out@[i].id@ == k);
        }
        out
    }
}

impl<P, V> Default for SessionManager<P, V> {
    fn default() -> (r: Self)
        ensures
            r.wf(),
            r.sessions() == Map::<Seq<char>, AnySession<P, V>>::empty(),
    {
        SessionManager::new()
    }
}

/// A session that was kept under an id is found under it until it is dropped, and neither keeping
/// nor dropping it touches the sessions under other ids.
pub proof fn law_kept_until_dropped<P, V>(
    sessions: Map<Seq<char>, AnySession<P, V>>,
    id: Seq<char>,
    session: AnySession<P, V>,
    other: Seq<char>,
)
    ensures
        sessions.insert(id, session).dom().contains(id),
        sessions.insert(id, session)[id] == session,
        !sessions.insert(id, session).remove(id).dom().contains(id),
        other != id ==> {
            &&& sessions.insert(id, session).dom().contains(other) == sessions.dom().contains(other)
            &&& sessions.dom().contains(other) ==> sessions.insert(id, session)[other]
                == sessions[other]
            &&& sessions.insert(id, session).remove(id).dom().contains(other)
                == sessions.dom().contains(other)
        },
{
}

/// A process is opened by name only where exactly one running process has the name, and then it is
/// that one; of several, all are named.
pub proof fn law_only_a_unique_name_opens(list: Seq<ProcessInfo>, name: Seq<char>)
    ensures
        forall|i: int|
            0 <= i < named(list, name).len() ==> (#[trigger] named(list, name)[i]).name@ == name,
        forall|i: int|
            0 <= i < list.len() && (#[trigger] list[i]).name@ == name ==> named(
                list,
                name,
            ).contains(list[i]),
        named(list, name).len() == 0 <==> forall|i: int|
            0 <= i < list.len() ==> (#[trigger] list[i]).name@ != name,
{
    broadcast use vstd::seq_lib::group_filter_ensures;

    let found = named(list, name);
    assert forall|i: int| 0 <= i < found.len() implies (#[trigger] found[i]).name@ == name by {
        assert(has_name(name)(found[i]));
    }
    assert forall|i: int| 0 <= i < list.len() && (#[trigger] list[i]).name@
        == name implies found.contains(list[i]) by {
        assert(has_name(name)(list[i]));
    }
    if found.len() > 0 {
        assert(found.contains(found[0]));
        list.lemma_filter_contains_rev(has_name(name), found[0]);
        let i = choose|i: int| 0 <= i < list.len() && list[i] == found[0];
        assert(list[i].name@ == name);
        assert(!(forall|i: int| 0 <= i < list.len() ==> (#[trigger] list[i]).name@ != name));
    } else {
        assert forall|i: int| 0 <= i < list.len() implies (#[trigger] list[i]).name@ != name by {
            if list[i].name@ == name {
                assert(found.contains(list[i]));
            }
        }
    }
}

/// Whoever has the name is among those with the name, as often as they run and in the same order,
/// and nobody else is.
pub proof fn law_named(list: Seq<ProcessInfo>, p: ProcessInfo, name: Seq<char>)
    ensures
        named(Seq::empty(), name).len() == 0,
        named(list.push(p), name) == (if p.name@ == name {
            named(list, name).push(p)
        } else {
            named(list, name)
        }),
{
    reveal(Seq::filter);
    assert(list.push(p).drop_last() =~= list);
}

/// A session has the state of what it is a session of, and is over the same memory as another
/// exactly where both are of one kind and their handles are equal. It is listed as what it is.
pub proof fn law_any_session<P, V>(
    a: Session<P>,
    b: Session<P>,
    v: Session<V>,
    w: Session<V>,
    info: SessionInfo,
)
    ensures
        AnySession::<P, V>::Process(a).state() == a.state(),
        AnySession::<P, V>::View(v).state() == v.state(),
        AnySession::<P, V>::Process(a).same_memory(&AnySession::Process(b)) <==> a.memory()
            == b.memory(),
        AnySession::<P, V>::View(v).same_memory(&AnySession::View(w)) <==> v.memory() == w.memory(),
        !AnySession::<P, V>::Process(a).same_memory(&AnySession::View(v)),
        !AnySession::<P, V>::View(v).same_memory(&AnySession::Process(a)),
        info.describes(AnySession::<P, V>::Process(a)) <==> info.kind@ == "process"@
            && info.target@ == a.state().target,
        info.describes(AnySession::<P, V>::View(v)) <==> info.kind@ == "view"@ && info.target@
            == v.state().target,
{
}

/// The id of a session is written in groups of 8, 4, 4, 4 and 12 hexadecimal digits in lower case,
/// with hyphens between them.
pub proof fn law_uuid(s: Seq<char>, i: int)
    requires
        is_uuid(s),
    ensures
        s.len() == 8 + 1 + 4 + 1 + 4 + 1 + 4 + 1 + 12,
        0 <= i < 36 ==> (s[i] == '-' <==> i == 8 || i == 13 || i == 18 || i == 23),
        0 <= i < 36 && s[i] != '-' ==> '0' <= s[i] <= '9' || 'a' <= s[i] <= 'f',
        s[14] == '4',
        digit_of(s[19], 16) is Some && 8 <= digit_of(s[19], 16).unwrap() <= 11,
{
    if 0 <= i < 36 && i != 8 && i != 13 && i != 18 && i != 23 {
        assert(digit_of(s[i], 16) is Some);
    }
}

} // verus!

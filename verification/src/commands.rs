//! One command on a session: what it begins, and what is shown when that is done.

use vstd::prelude::*;
use vstd::string::StringExecFns;

use crate::cli::Command;
use crate::error::{refused, ErrorKind, ScanflowError};
use crate::memory::{all_valid, MemoryRange, ReadRequest};
use crate::number::{decimal, hex, push_digits};
use crate::render::{
    display_lines, offset_lines, print_match_displays, print_offset_matches, print_scan_result,
    scan_lines, MAX_PRINT,
};
use crate::session::{
    offset_views, selected, step_with_map, OffsetScan, OffsetStep, ReadBack, ReadBackState, Session,
    SessionState, ValueScan, WriteJob, WriteState, WriteTarget,
};
use crate::sig_scan::{pattern_of, PatternScan, ScanState};
use crate::text::{opt_view, owned, views};
use crate::types::{kind_of, value_bytes, FloatReading, OffsetMatch};
use crate::value_scanner::{sought, FilterScan, FilterState};

verus! {

/// What a command begins.
pub enum Task {
    /// A first pass for a value.
    Scan(ValueScan),
    /// A filter pass.
    Filter(FilterScan),
    /// A scan for a signature.
    Sig(PatternScan),
    /// A read of raw bytes.
    Read(ReadRequest),
    /// A write of a value to matches.
    Write(WriteJob),
    /// Matches that are read back.
    Print(ReadBack),
    /// Nothing: the command is done.
    Done,
    /// The modules of the process are to be listed.
    Modules,
    /// The pointer map is to be built.
    PointerMap,
    /// Global variables are to be collected, in one module or in all.
    Globals(Option<String>),
    /// Code signatures are to be found for an address.
    Sigmaker(u64),
    /// A scan for chains of pointers.
    Offset(OffsetScan),
}

/// What a command begins, as a mathematical value.
pub enum Work {
    /// A first pass for a value, with the type that it selects.
    Scan(ScanState, Seq<char>, usize),
    /// A filter pass.
    Filter(FilterState),
    /// A scan for a signature.
    Sig(ScanState),
    /// A read of raw bytes.
    Read(ReadRequest),
    /// A write of a value to matches.
    Write(WriteState),
    /// Matches that are read back.
    Print(ReadBackState),
    /// Nothing.
    Done,
    /// A list of modules.
    Modules,
    /// The pointer map.
    PointerMap,
    /// Global variables.
    Globals(Option<Seq<char>>),
    /// Code signatures.
    Sigmaker(u64),
    /// A scan for chains of pointers.
    Offset(OffsetScan),
}

impl Task {
    /// Whether the scan in it is well-formed.
    pub open spec fn wf(self) -> bool {
        match self {
            Task::Scan(scan) => scan.wf(),
            Task::Filter(scan) => scan.wf(),
            Task::Sig(scan) => scan.wf(),
            _ => true,
        }
    }

    /// What it is about.
    pub open spec fn work(self) -> Work {
        match self {
            Task::Scan(scan) => Work::Scan(scan.state(), scan.name(), scan.len()),
            Task::Filter(scan) => Work::Filter(scan@),
            Task::Sig(scan) => Work::Sig(scan@),
            Task::Read(q) => Work::Read(q),
            Task::Write(job) => Work::Write(job@),
            Task::Print(back) => Work::Print(back@),
            Task::Done => Work::Done,
            Task::Modules => Work::Modules,
            Task::PointerMap => Work::PointerMap,
            Task::Globals(module) => Work::Globals(opt_view(module)),
            Task::Sigmaker(addr) => Work::Sigmaker(addr),
            Task::Offset(scan) => Work::Offset(scan),
        }
    }
}

/// Whether a result is what was planned: the work, or the refusal.
pub open spec fn as_planned(r: Result<Task, ScanflowError>, plan: Result<Work, ErrorKind>) -> bool {
    match plan {
        Ok(work) => r matches Ok(task) && task.wf() && task.work() == work,
        Err(kind) => refused(r, kind),
    }
}

/// The first pass for a value.
pub open spec fn scan_plan(
    name: Seq<char>,
    value: Seq<char>,
    reading: FloatReading,
    ranges: Seq<MemoryRange>,
) -> Result<Work, ErrorKind> {
    match value_bytes(name, value, reading) {
        Some(b) => Ok(
            Work::Scan(
                ScanState::begun(sought(b), ranges),
                name,
                match kind_of(name).unwrap().size() {
                    Some(n) => n,
                    None => b.len() as usize,
                },
            ),
        ),
        None => Err(ErrorKind::InvalidArgument),
    }
}

/// The filter pass for a new value.
pub open spec fn filter_plan(s: SessionState, value: Seq<char>, reading: FloatReading) -> Result<
    Work,
    ErrorKind,
> {
    match s.typename {
        None => Err(ErrorKind::Uninitialized),
        Some(t) => match value_bytes(t, value, reading) {
            None => Err(ErrorKind::InvalidArgument),
            Some(data) => Ok(
                Work::Filter(FilterState { targets: s.matches, data, replies: Seq::empty() }),
            ),
        },
    }
}

/// The scan for a signature.
pub open spec fn sig_plan(input: Seq<char>, ranges: Seq<MemoryRange>) -> Result<Work, ErrorKind> {
    match pattern_of(input) {
        Some(pat) => Ok(Work::Sig(ScanState::begun(pat, ranges))),
        None => Err(ErrorKind::InvalidArgument),
    }
}

/// The write of a value to matches.
pub open spec fn write_plan(
    s: SessionState,
    target: WriteTarget,
    value: Seq<char>,
    reading: FloatReading,
) -> Result<Work, ErrorKind> {
    if s.matches.len() == 0 || s.typename is None {
        Err(ErrorKind::Uninitialized)
    } else {
        match (value_bytes(s.typename.unwrap(), value, reading), selected(s.matches, target)) {
            (Some(data), Some(targets)) => Ok(
                Work::Write(WriteState { targets, data, written: 0 }),
            ),
            _ => Err(ErrorKind::InvalidArgument),
        }
    }
}

/// Matches read back, as many as are shown.
pub open spec fn print_plan(s: SessionState) -> Result<Work, ErrorKind> {
    match s.typename {
        None => Err(ErrorKind::Uninitialized),
        Some(typename) => Ok(
            Work::Print(
                ReadBackState {
                    typename,
                    buf_len: s.buf_len,
                    targets: s.matches.take(
                        if MAX_PRINT < s.matches.len() {
                            MAX_PRINT as int
                        } else {
                            s.matches.len() as int
                        },
                    ),
                    rows: Seq::empty(),
                },
            ),
        ),
    }
}

/// The scan for chains of pointers.
pub open spec fn offset_plan(
    s: SessionState,
    use_disasm: bool,
    lrange: usize,
    urange: usize,
    max_depth: usize,
    filter: Option<u64>,
) -> Work {
    Work::Offset(
        OffsetScan {
            use_disasm,
            lrange,
            urange,
            max_depth,
            filter,
            step: if s.pointers == 0 {
                OffsetStep::BuildPointerMap
            } else {
                step_with_map(use_disasm, s.globals)
            },
        },
    )
}

/// What a command begins on a session of a process.
pub open spec fn command_plan(
    s: SessionState,
    sub: Command,
    reading: FloatReading,
    ranges: Seq<MemoryRange>,
) -> Result<Work, ErrorKind> {
    match sub {
        Command::Repl => Ok(Work::Done),
        Command::Scan { typename, value } => scan_plan(typename@, value@, reading, ranges),
        Command::Filter { value } => filter_plan(s, value@, reading),
        Command::Sig { pattern } => sig_plan(pattern@, ranges),
        Command::Read { addr, len } => Ok(Work::Read(ReadRequest { addr, len: len as u64 })),
        Command::Write { idx, all, value } => if all {
            write_plan(s, WriteTarget::All, value@, reading)
        } else {
            match idx {
                Some(i) => write_plan(s, WriteTarget::One(i), value@, reading),
                None => Err(ErrorKind::InvalidArgument),
            }
        },
        Command::Print => print_plan(s),
        Command::Reset => Ok(Work::Done),
        Command::Modules => Ok(Work::Modules),
        Command::PointerMap => Ok(Work::PointerMap),
        Command::Globals { module } => Ok(Work::Globals(opt_view(module))),
        Command::Sigmaker { addr } => Ok(Work::Sigmaker(addr)),
        Command::OffsetScan { use_disasm, lrange, urange, max_depth, filter } => Ok(
            offset_plan(s, use_disasm, lrange, urange, max_depth, filter),
        ),
    }
}

/// Whether a command makes sense for a process only.
pub open spec fn process_only(sub: Command) -> bool {
    sub is Modules || sub is PointerMap || sub is Globals || sub is Sigmaker || sub is OffsetScan
}

/// The state after a command has begun: only a reset is done at once.
pub open spec fn state_after(s: SessionState, sub: Command) -> SessionState {
    if sub is Reset {
        SessionState::fresh(s.target)
    } else {
        s
    }
}

/// Whether a command needs to know the ranges of memory.
pub fn needs_ranges(sub: &Command) -> (r: bool)
    ensures
        r == (sub is Scan || sub is Sig),
{
    match sub {
        Command::Scan { .. } => true,
        Command::Sig { .. } => true,
        _ => false,
    }
}

/// Begins a first pass as a task.
pub fn begin_scan<T>(
    session: &Session<T>,
    typename: &str,
    value: &str,
    reading: &FloatReading,
    ranges: Vec<MemoryRange>,
) -> (r: Result<Task, ScanflowError>)
    requires
        all_valid(ranges@),
    ensures
        as_planned(r, scan_plan(typename@, value@, *reading, ranges@)),
{
    match session.scan_value(typename, value, reading, ranges) {
        Ok(scan) => Ok(Task::Scan(scan)),
        Err(e) => Err(e),
    }
}

/// Begins a filter pass as a task.
pub fn begin_filter<T>(session: &Session<T>, value: &str, reading: &FloatReading) -> (r: Result<
    Task,
    ScanflowError,
>)
    ensures
        as_planned(r, filter_plan(session.state(), value@, *reading)),
{
    match session.filter_value(value, reading) {
        Ok(scan) => Ok(Task::Filter(scan)),
        Err(e) => Err(e),
    }
}

/// Begins a signature scan as a task.
pub fn begin_sig<T>(session: &Session<T>, pattern: &str, ranges: Vec<MemoryRange>) -> (r: Result<
    Task,
    ScanflowError,
>)
    requires
        all_valid(ranges@),
    ensures
        as_planned(r, sig_plan(pattern@, ranges@)),
{
    match session.sig_scan(pattern, ranges) {
        Ok(scan) => Ok(Task::Sig(scan)),
        Err(e) => Err(e),
    }
}

/// Begins a write as a task.
pub fn begin_write<T>(
    session: &Session<T>,
    target: WriteTarget,
    value: &str,
    reading: &FloatReading,
) -> (r: Result<Task, ScanflowError>)
    ensures
        as_planned(r, write_plan(session.state(), target, value@, *reading)),
{
    match session.write_value(target, value, reading) {
        Ok(job) => Ok(Task::Write(job)),
        Err(e) => Err(e),
    }
}

/// Begins to read matches back as a task.
pub fn begin_print<T>(session: &Session<T>) -> (r: Result<Task, ScanflowError>)
    ensures
        as_planned(r, print_plan(session.state())),
{
    match session.read_matches(MAX_PRINT) {
        Ok(back) => Ok(Task::Print(back)),
        Err(e) => Err(e),
    }
}

/// Begins a command on a session of a process. `reading` is what the value of the command reads as,
/// and `ranges` is the memory of the process; both matter only where the command needs them.
pub fn dispatch_process<T>(
    session: &mut Session<T>,
    sub: Command,
    reading: &FloatReading,
    ranges: Vec<MemoryRange>,
) -> (r: Result<Task, ScanflowError>)
    requires
        sub !is Repl,
        all_valid(ranges@),
    ensures
        final(session).memory() == old(session).memory(),
        final(session).state() == state_after(old(session).state(), sub),
        as_planned(r, command_plan(old(session).state(), sub, *reading, ranges@)),
{
    match sub {
        Command::Repl => Ok(Task::Done),
        Command::Scan { typename, value } => begin_scan(
            session,
            typename.as_str(),
            value.as_str(),
            reading,
            ranges,
        ),
        Command::Filter { value } => begin_filter(session, value.as_str(), reading),
        Command::Sig { pattern } => begin_sig(session, pattern.as_str(), ranges),
        Command::Read { addr, len } => Ok(Task::Read(session.read_memory(addr, len))),
        Command::Write { idx, all, value } => {
            let target = if all {
                WriteTarget::All
            } else {
                match idx {
                    Some(i) => WriteTarget::One(i),
                    None => return Err(ScanflowError::Kind(ErrorKind::InvalidArgument)),
                }
            };
            begin_write(session, target, value.as_str(), reading)
        },
        Command::Print => begin_print(session),
        Command::Reset => {
            session.reset();
            Ok(Task::Done)
        },
        Command::Modules => Ok(Task::Modules),
        Command::PointerMap => Ok(Task::PointerMap),
        Command::Globals { module } => Ok(Task::Globals(module)),
        Command::Sigmaker { addr } => Ok(Task::Sigmaker(addr)),
        Command::OffsetScan { use_disasm, lrange, urange, max_depth, filter } => Ok(
            Task::Offset(session.offset_scan(use_disasm, lrange, urange, max_depth, filter)),
        ),
    }
}

/// Begins a command on a session of a raw view, which refuses what makes sense for a process only.
pub fn dispatch_view<T>(
    session: &mut Session<T>,
    sub: Command,
    reading: &FloatReading,
    ranges: Vec<MemoryRange>,
) -> (r: Result<Task, ScanflowError>)
    requires
        sub !is Repl,
        all_valid(ranges@),
    ensures
        final(session).memory() == old(session).memory(),
        final(session).state() == state_after(old(session).state(), sub),
        as_planned(
            r,
            if process_only(sub) {
                Err(ErrorKind::InvalidArgument)
            } else {
                command_plan(old(session).state(), sub, *reading, ranges@)
            },
        ),
{
    let refuse: bool = match &sub {
        Command::Modules => true,
        Command::PointerMap => true,
        Command::Globals { .. } => true,
        Command::Sigmaker { .. } => true,
        Command::OffsetScan { .. } => true,
        _ => false,
    };
    if refuse {
        return Err(ScanflowError::Kind(ErrorKind::InvalidArgument));
    }
    dispatch_process(session, sub, reading, ranges)
}

/// The line that tells how long a signature scan took.
pub open spec fn timed_line(n: nat, ms: Seq<char>) -> Seq<char> {
    "Found "@ + decimal(n) + " matches in "@ + ms + "ms"@
}

/// The line that tells how many places were written.
pub open spec fn written_line(n: nat) -> Seq<char> {
    "Write done ("@ + decimal(n) + " location"@ + (if n == 1 {
        Seq::empty()
    } else {
        "s"@
    }) + ")"@
}

/// Ends a first pass: the matches are taken, and the first of them shown.
pub fn finish_scan<T>(session: &mut Session<T>, scan: ValueScan) -> (r: Vec<String>)
    requires
        scan.wf(),
    ensures
        final(session).memory() == old(session).memory(),
        final(session).state() == (SessionState {
            matches: scan.state().found(),
            typename: Some(scan.name()),
            buf_len: scan.len(),
            ..old(session).state()
        }),
        views(r@) == scan_lines(scan.state().found(), MAX_PRINT as nat),
{
    let res = session.finish_scan_value(scan);
    print_scan_result(&res, MAX_PRINT)
}

/// Ends a filter pass: the matches are taken, and the first of them shown.
pub fn finish_filter<T>(session: &mut Session<T>, scan: FilterScan) -> (r: Vec<String>)
    requires
        scan.wf(),
    ensures
        final(session).memory() == old(session).memory(),
        final(session).state() == (SessionState {
            matches: scan@.found(),
            ..old(session).state()
        }),
        views(r@) == scan_lines(scan@.found(), MAX_PRINT as nat),
{
    let res = session.finish_filter_value(scan);
    print_scan_result(&res, MAX_PRINT)
}

/// Ends a signature scan that took a number of milliseconds: the matches are taken, and the first
/// of them shown.
pub fn finish_sig<T>(session: &mut Session<T>, scan: PatternScan, ms: &str) -> (r: Vec<String>)
    requires
        scan.wf(),
    ensures
        final(session).memory() == old(session).memory(),
        final(session).state() == (SessionState {
            matches: scan@.found(),
            typename: None,
            ..old(session).state()
        }),
        views(r@) == seq![timed_line(scan@.found().len(), ms@)] + scan_lines(
            scan@.found(),
            MAX_PRINT as nat,
        ),
{
    let res = session.finish_sig_scan(scan);
    let mut line = owned("Found ");
    push_digits(&mut line, res.count() as u128, 10);
    line.append(" matches in ");
    line.append(ms);
    line.append("ms");
    let rest = print_scan_result(&res, MAX_PRINT);
    prepend(line, rest)
}

/// A line before others.
fn prepend(line: String, rest: Vec<String>) -> (r: Vec<String>)
    ensures
        views(r@) == seq![line@] + views(rest@),
{
    let mut out: Vec<String> = Vec::new();
    out.push(line);
    let ghost first = line@;
    let mut tail = rest;
    let ghost all = tail@;
    out.append(&mut tail);
    assert(views(out@) =~= seq![first] + views(all));
    out
}

/// Ends a write: how many places were written.
pub fn finish_write(n: usize) -> (r: String)
    ensures
        r@ == written_line(n as nat),
{
    let mut line = owned("Write done (");
    push_digits(&mut line, n as u128, 10);
    line.append(" location");
    if n != 1 {
        line.append("s");
    }
    line.append(")");
    assert(line@ =~= written_line(n as nat));
    line
}

/// Ends reading matches back: the rows, and how many matches there are.
pub fn finish_print<T>(session: &Session<T>, back: ReadBack) -> (r: Vec<String>)
    ensures
        views(r@) == display_lines(back@.rows, session.state().matches.len()),
{
    let rows = back.finish();
    print_match_displays(&rows, session.matches().len())
}

/// Ends building the pointer map, which took a number of milliseconds.
pub fn finish_pointer_map(ms: &str) -> (r: String)
    ensures
        r@ == "Pointer map built in "@ + ms@ + "ms"@,
{
    let mut line = owned("Pointer map built in ");
    line.append(ms);
    line.append("ms");
    line
}

/// Ends collecting global variables, which took a number of milliseconds.
pub fn finish_globals(n: usize, ms: &str) -> (r: String)
    ensures
        r@ == "Global variable references found: "@ + hex(n as nat) + " in "@ + ms@ + "ms"@,
{
    let mut line = owned("Global variable references found: ");
    push_digits(&mut line, n as u128, 16);
    line.append(" in ");
    line.append(ms);
    line.append("ms");
    line
}

/// Ends looking for code signatures: a heading and the signatures.
pub fn finish_sigmaker(sigs: Vec<String>) -> (r: Vec<String>)
    ensures
        views(r@) == seq!["Found signatures:"@] + views(sigs@),
{
    prepend(owned("Found signatures:"), sigs)
}

/// Ends a scan for chains of pointers, which took a number of milliseconds: how many there are, and
/// the first of them.
pub fn finish_offset(matches: &Vec<OffsetMatch>, ms: &str) -> (r: Vec<String>)
    ensures
        views(r@) == seq!["Matches found: "@ + decimal(matches@.len()) + " in "@ + ms@ + "ms"@]
            + offset_lines(offset_views(matches@), MAX_PRINT as nat),
{
    let mut line = owned("Matches found: ");
    push_digits(&mut line, matches.len() as u128, 10);
    line.append(" in ");
    line.append(ms);
    line.append("ms");
    let rest = print_offset_matches(matches, MAX_PRINT);
    prepend(line, rest)
}

/// A view refuses every command that makes sense for a process only, and its session stays as it
/// was; every other command begins on it what it begins on a process.
pub proof fn law_view_refuses_process_commands(
    s: SessionState,
    sub: Command,
    reading: FloatReading,
    ranges: Seq<MemoryRange>,
    r: Result<Task, ScanflowError>,
)
    requires
        as_planned(
            r,
            if process_only(sub) {
                Err(ErrorKind::InvalidArgument)
            } else {
                command_plan(s, sub, reading, ranges)
            },
        ),
    ensures
        process_only(sub) ==> refused(r, ErrorKind::InvalidArgument) && state_after(s, sub) == s,
        !process_only(sub) ==> as_planned(r, command_plan(s, sub, reading, ranges)),
{
}

/// What a command on a value begins. A scan looks for the bytes of the value in all ranges that it
/// is given, and selects its type; a filter looks for those of the selected type at all matches; a
/// write puts them at the match that is named, or at all. Each is refused where the value is none
/// of the type, and the last two where no type is selected.
pub proof fn law_value_commands(
    s: SessionState,
    name: Seq<char>,
    value: Seq<char>,
    reading: FloatReading,
    ranges: Seq<MemoryRange>,
    i: usize,
)
    ensures
        match value_bytes(name, value, reading) {
            Some(b) => scan_plan(name, value, reading, ranges) matches Ok(Work::Scan(scan, t, len))
                && scan == ScanState::begun(sought(b), ranges) && t == name && (kind_of(
                name,
            ).unwrap().size() matches Some(n) ==> len == n) && (kind_of(name).unwrap().size() is None
                && b.len() <= usize::MAX ==> len == b.len()),
            None => scan_plan(name, value, reading, ranges) == Err::<Work, ErrorKind>(
                ErrorKind::InvalidArgument,
            ),
        },
        s.typename is None ==> filter_plan(s, value, reading) == Err::<Work, ErrorKind>(
            ErrorKind::Uninitialized,
        ),
        s.typename matches Some(t) ==> match value_bytes(t, value, reading) {
            Some(b) => filter_plan(s, value, reading) matches Ok(Work::Filter(f)) && f.targets
                == s.matches && f.data == b && f.replies.len() == 0,
            None => filter_plan(s, value, reading) == Err::<Work, ErrorKind>(
                ErrorKind::InvalidArgument,
            ),
        },
        s.typename is None || s.matches.len() == 0 ==> write_plan(
            s,
            WriteTarget::One(i),
            value,
            reading,
        ) == Err::<Work, ErrorKind>(ErrorKind::Uninitialized) && write_plan(
            s,
            WriteTarget::All,
            value,
            reading,
        ) == Err::<Work, ErrorKind>(ErrorKind::Uninitialized),
        s.typename is Some && s.matches.len() > 0 ==> match value_bytes(
            s.typename.unwrap(),
            value,
            reading,
        ) {
            Some(b) => {
                &&& write_plan(s, WriteTarget::All, value, reading) matches Ok(Work::Write(w))
                    && w.targets == s.matches && w.data == b && w.written == 0
                &&& i < s.matches.len() ==> (write_plan(
                    s,
                    WriteTarget::One(i),
                    value,
                    reading,
                ) matches Ok(Work::Write(w)) && w.targets.len() == 1 && w.targets[0]
                    == s.matches[i as int] && w.data == b && w.written == 0)
                &&& i >= s.matches.len() ==> write_plan(s, WriteTarget::One(i), value, reading)
                    == Err::<Work, ErrorKind>(ErrorKind::InvalidArgument)
            },
            None => write_plan(s, WriteTarget::All, value, reading) == Err::<Work, ErrorKind>(
                ErrorKind::InvalidArgument,
            ) && write_plan(s, WriteTarget::One(i), value, reading) == Err::<Work, ErrorKind>(
                ErrorKind::InvalidArgument,
            ),
        },
{
}

/// A signature scan looks for the signature in all ranges that it is given, and what is no
/// signature is refused. Printing reads back the first 16 matches, or all where there are fewer, in
/// their order, as values of the selected type, and is refused where none is selected.
pub proof fn law_other_scans(
    s: SessionState,
    input: Seq<char>,
    ranges: Seq<MemoryRange>,
    i: int,
)
    ensures
        match pattern_of(input) {
            Some(p) => sig_plan(input, ranges) == Ok::<Work, ErrorKind>(
                Work::Sig(ScanState::begun(p, ranges)),
            ),
            None => sig_plan(input, ranges) == Err::<Work, ErrorKind>(ErrorKind::InvalidArgument),
        },
        s.typename is None ==> print_plan(s) == Err::<Work, ErrorKind>(ErrorKind::Uninitialized),
        s.typename matches Some(t) ==> (print_plan(s) matches Ok(Work::Print(back)) && {
            &&& back.typename == t
            &&& back.buf_len == s.buf_len
            &&& back.rows.len() == 0
            &&& back.targets.len() == (if s.matches.len() > 16 {
                16
            } else {
                s.matches.len()
            })
            &&& 0 <= i < back.targets.len() ==> back.targets[i] == s.matches[i]
        }),
{
}

/// Which command begins what: each hands its arguments on as they are. A write without a position
/// goes to all where that is asked for, and is refused otherwise. Only a reset changes the session
/// at once.
pub proof fn law_commands(
    s: SessionState,
    sub: Command,
    reading: FloatReading,
    ranges: Seq<MemoryRange>,
)
    ensures
        ({
            let plan = command_plan(s, sub, reading, ranges);
            match sub {
                Command::Repl => plan == Ok::<Work, ErrorKind>(Work::Done),
                Command::Scan { typename, value } => plan == scan_plan(
                    typename@,
                    value@,
                    reading,
                    ranges,
                ),
                Command::Filter { value } => plan == filter_plan(s, value@, reading),
                Command::Sig { pattern } => plan == sig_plan(pattern@, ranges),
                Command::Read { addr, len } => plan matches Ok(Work::Read(q)) && q.addr == addr
                    && q.len == len,
                Command::Write { idx, all, value } => {
                    &&& all ==> plan == write_plan(s, WriteTarget::All, value@, reading)
                    &&& !all && idx is Some ==> plan == write_plan(
                        s,
                        WriteTarget::One(idx.unwrap()),
                        value@,
                        reading,
                    )
                    &&& !all && idx is None ==> plan == Err::<Work, ErrorKind>(
                        ErrorKind::InvalidArgument,
                    )
                },
                Command::Print => plan == print_plan(s),
                Command::Reset => plan == Ok::<Work, ErrorKind>(Work::Done),
                Command::Modules => plan == Ok::<Work, ErrorKind>(Work::Modules),
                Command::PointerMap => plan == Ok::<Work, ErrorKind>(Work::PointerMap),
                Command::Globals { module } => {
                    &&& module is None ==> plan == Ok::<Work, ErrorKind>(Work::Globals(None))
                    &&& module matches Some(m) ==> plan == Ok::<Work, ErrorKind>(
                        Work::Globals(Some(m@)),
                    )
                },
                Command::Sigmaker { addr } => plan == Ok::<Work, ErrorKind>(Work::Sigmaker(addr)),
                Command::OffsetScan { use_disasm, lrange, urange, max_depth, filter } => plan
                    == Ok::<Work, ErrorKind>(
                    offset_plan(s, use_disasm, lrange, urange, max_depth, filter),
                ),
            }
        }),
        process_only(sub) <==> match sub {
            Command::Modules => true,
            Command::PointerMap => true,
            Command::Globals { .. } => true,
            Command::Sigmaker { .. } => true,
            Command::OffsetScan { .. } => true,
            _ => false,
        },
        match sub {
            Command::Reset => state_after(s, sub) == SessionState::fresh(s.target),
            _ => state_after(s, sub) == s,
        },
{
}

/// An offset scan keeps what it is asked for, and first builds the pointer map where there is none.
pub proof fn law_offset_plan(
    s: SessionState,
    use_disasm: bool,
    lrange: usize,
    urange: usize,
    max_depth: usize,
    filter: Option<u64>,
)
    ensures
        offset_plan(s, use_disasm, lrange, urange, max_depth, filter) matches Work::Offset(scan) && {
            &&& scan.use_disasm == use_disasm
            &&& scan.lrange == lrange
            &&& scan.urange == urange
            &&& scan.max_depth == max_depth
            &&& scan.filter == filter
            &&& s.pointers == 0 ==> scan.step == OffsetStep::BuildPointerMap
            &&& s.pointers > 0 && !use_disasm ==> scan.step == OffsetStep::FindFromAll
            &&& s.pointers > 0 && use_disasm && s.globals == 0 ==> scan.step
                == OffsetStep::CollectGlobals
            &&& s.pointers > 0 && use_disasm && s.globals > 0 ==> scan.step
                == OffsetStep::FindFromGlobals
        },
{
}

/// A result is as planned exactly where it is a task about the work, with its scan in good order,
/// or the refusal. A task is about what it holds.
pub proof fn law_as_planned(r: Result<Task, ScanflowError>, plan: Result<Work, ErrorKind>, task: Task)
    ensures
        plan matches Ok(work) ==> (as_planned(r, plan) <==> (r matches Ok(t) && t.wf() && t.work()
            == work)),
        plan matches Err(kind) ==> (as_planned(r, plan) <==> r == Err::<Task, ScanflowError>(
            ScanflowError::Kind(kind),
        )),
        match task {
            Task::Scan(x) => task.work() == Work::Scan(x.state(), x.name(), x.len()) && (task.wf()
                <==> x.wf()),
            Task::Filter(x) => task.work() == Work::Filter(x@) && (task.wf() <==> x.wf()),
            Task::Sig(x) => task.work() == Work::Sig(x@) && (task.wf() <==> x.wf()),
            Task::Read(x) => task.work() == Work::Read(x),
            Task::Write(x) => task.work() == Work::Write(x@),
            Task::Print(x) => task.work() == Work::Print(x@),
            Task::Done => task.work() == Work::Done,
            Task::Modules => task.work() == Work::Modules,
            Task::PointerMap => task.work() == Work::PointerMap,
            Task::Globals(None) => task.work() == Work::Globals(None),
            Task::Globals(Some(m)) => task.work() == Work::Globals(Some(m@)),
            Task::Sigmaker(a) => task.work() == Work::Sigmaker(a),
            Task::Offset(x) => task.work() == Work::Offset(x),
        },
{
}

/// How signature scans and writes are reported.
pub proof fn law_report_lines(n: nat, ms: Seq<char>)
    ensures
        timed_line(n, ms) == "Found "@ + decimal(n) + " matches in "@ + ms + "ms"@,
        n == 1 ==> written_line(n) =~= "Write done ("@ + decimal(n) + " location"@ + ")"@,
        n != 1 ==> written_line(n) =~= "Write done ("@ + decimal(n) + " location"@ + "s"@ + ")"@,
{
}

} // verus!

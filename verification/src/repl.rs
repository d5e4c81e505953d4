//! The interactive mode: what a line asks for.

use vstd::prelude::*;
use vstd::string::StringExecFns;

use crate::commands::{
    as_planned, begin_filter, begin_print, begin_sig, begin_write, filter_plan, offset_plan,
    print_plan, sig_plan, write_plan, Task, Work,
};
use crate::error::{refused, ErrorKind, ScanflowError};
use crate::memory::{all_valid, MemoryRange};
use crate::number::{
    decimal, digit_of, digits, hex, law_read_written, lemma_digit_run, lemma_digits,
    lemma_unsigned_range, parse_unsigned, push_digits, unsigned_of,
};
use crate::render::MAX_PRINT;
use crate::session::{
    selected, ReadBack, Session, SessionState, ValueScan, WriteJob, WriteState, WriteTarget,
};
use crate::sig_scan::ScanState;
use crate::text::{
    after_space, before_space, law_split_at_space, law_trimmed, lemma_space_at, lemma_views_push,
    opt_view, owned, same, split_at_space, split_whitespace, trim, trimmed, views, words,
};
use crate::types::{kind_of, value_bytes, FloatReading};
use crate::value_scanner::sought;

verus! {

/// What the first word of a line asks for.
#[derive(Clone, Copy, Debug, PartialEq, Eq, Structural)]
pub enum Verb {
    /// To quit.
    Quit,
    /// Help.
    Help,
    /// The pointer map.
    PointerMap,
    /// Global variables.
    Globals,
    /// Code signatures.
    Sigmaker,
    /// Chains of pointers.
    OffsetScan,
    /// A new beginning.
    Reset,
    /// Another type.
    Reinterpret,
    /// A new match.
    Add,
    /// One match less.
    Remove,
    /// The matches.
    Print,
    /// A write.
    Write,
    /// A signature scan.
    Sig,
    /// A value to scan for.
    Input,
}

/// What a word asks for.
pub open spec fn verb_of(cmd: Seq<char>) -> Verb {
    if cmd == "quit"@ || cmd == "q"@ {
        Verb::Quit
    } else if cmd == "help"@ || cmd == "h"@ {
        Verb::Help
    } else if cmd == "pointer_map"@ || cmd == "pm"@ {
        Verb::PointerMap
    } else if cmd == "globals"@ || cmd == "g"@ {
        Verb::Globals
    } else if cmd == "sigmaker"@ || cmd == "s"@ {
        Verb::Sigmaker
    } else if cmd == "offset_scan"@ || cmd == "os"@ {
        Verb::OffsetScan
    } else if cmd == "reset"@ || cmd == "r"@ {
        Verb::Reset
    } else if cmd == "reinterpret"@ || cmd == "ri"@ {
        Verb::Reinterpret
    } else if cmd == "add"@ || cmd == "a"@ {
        Verb::Add
    } else if cmd == "remove"@ || cmd == "rm"@ {
        Verb::Remove
    } else if cmd == "print"@ || cmd == "p"@ {
        Verb::Print
    } else if cmd == "write"@ || cmd == "wr"@ {
        Verb::Write
    } else if cmd == "sig"@ || cmd == "sg"@ {
        Verb::Sig
    } else {
        Verb::Input
    }
}

/// What a word asks for.
fn verb(cmd: &str) -> (r: Verb)
    ensures
        r == verb_of(cmd@),
{
    if same(cmd, "quit") || same(cmd, "q") {
        Verb::Quit
    } else if same(cmd, "help") || same(cmd, "h") {
        Verb::Help
    } else if same(cmd, "pointer_map") || same(cmd, "pm") {
        Verb::PointerMap
    } else if same(cmd, "globals") || same(cmd, "g") {
        Verb::Globals
    } else if same(cmd, "sigmaker") || same(cmd, "s") {
        Verb::Sigmaker
    } else if same(cmd, "offset_scan") || same(cmd, "os") {
        Verb::OffsetScan
    } else if same(cmd, "reset") || same(cmd, "r") {
        Verb::Reset
    } else if same(cmd, "reinterpret") || same(cmd, "ri") {
        Verb::Reinterpret
    } else if same(cmd, "add") || same(cmd, "a") {
        Verb::Add
    } else if same(cmd, "remove") || same(cmd, "rm") {
        Verb::Remove
    } else if same(cmd, "print") || same(cmd, "p") {
        Verb::Print
    } else if same(cmd, "write") || same(cmd, "wr") {
        Verb::Write
    } else if same(cmd, "sig") || same(cmd, "sg") {
        Verb::Sig
    } else {
        Verb::Input
    }
}

/// What stands behind the first space of a line; nothing where there is none.
pub open spec fn args_of(line: Seq<char>) -> Seq<char> {
    match after_space(line) {
        Some(args) => args,
        None => Seq::empty(),
    }
}

/// Splits a line into the command and the rest.
pub fn split_cmd(line: &str) -> (r: (String, String))
    ensures
        r.0@ == before_space(line@),
        r.1@ == args_of(line@),
{
    let (cmd, rest) = split_at_space(line);
    let args = match rest {
        Some(args) => args,
        None => String::new(),
    };
    assert(args@ =~= args_of(line@));
    (cmd, args)
}

/// The prompt: the selected type, if any, and the name of the target.
pub open spec fn prompt(s: SessionState) -> Seq<char> {
    (match s.typename {
        Some(t) => "["@ + t + "] "@,
        None => Seq::empty(),
    }) + "scanflow@"@ + s.target + " >> "@
}

/// The prompt: the selected type, if any, and the name of the target.
pub fn build_prompt<T>(session: &Session<T>) -> (r: String)
    ensures
        r@ == prompt(session.state()),
{
    let mut p = String::new();
    if let Some(t) = session.typename() {
        p.append("[");
        p.append(t);
        p.append("] ");
    }
    p.append("scanflow@");
    p.append(session.target_name());
    p.append(" >> ");
    assert(p@ =~= prompt(session.state()));
    p
}

/// The help for all commands.
pub open spec fn help_reference(is_process: bool) -> Seq<Seq<char>> {
    seq![
        "Command reference:"@,
        "quit q              quit the CLI"@,
        "help h              show this help"@,
        "help h {cmd}       show longer help for a command"@,
        "reset r            reset all context state"@,
        "reinterpret ri {type} [{len}]  reinterpret matches as another type"@,
        "add a {addr}       manually add an address to matches"@,
        "remove rm {idx}    remove match by index"@,
        "print p            print found matches (typed)"@,
        "write wr {idx/*} {o/c} {value}  write values to matches"@,
        "sig sg {pattern}  scan memory for a byte pattern (IDA style)"@,
    ] + (if is_process {
        seq![
            "pointer_map pm     build a pointer map"@,
            "globals g [{module}]  find global variables referenced by code"@,
            "sigmaker s {addr} find code signatures for an address"@,
            "offset_scan os {y/n} {lrange} {urange} {max_depth} [{filter}]"@,
        ]
    } else {
        Seq::empty()
    }) + seq![
        Seq::<char>::empty(),
        "Anything not in this list is interpreted as a scan input:"@,
        "  i64 64         (first scan: type + value)"@,
        "  42             (subsequent filter call)"@,
        "Available types: str, str_utf16, i8, u8, i16, u16, i32, u32, i64, u64, i128, u128, f32, f64"@,
    ]
}

/// The help for a command, or for all of them where none is named.
pub open spec fn help_lines(args: Seq<char>, is_process: bool) -> Seq<Seq<char>> {
    if args.len() == 0 {
        help_reference(is_process)
    } else {
        seq!["(no further help available for `"@ + args + "`)"@]
    }
}

/// Writes a line behind others.
fn push_text(out: &mut Vec<String>, line: &str)
    ensures
        views(final(out)@) == views(old(out)@).push(line@),
{
    let line = owned(line);
    proof {
        lemma_views_push(out@, line);
    }
    out.push(line);
}

/// The help for a command, or for all of them where none is named.
pub fn print_help(args: &str, is_process: bool) -> (r: Vec<String>)
    ensures
        views(r@) == help_lines(args@, is_process),
{
    let mut out: Vec<String> = Vec::new();
    assert(views(out@) =~= Seq::empty());
    if args.unicode_len() == 0 {
        push_text(&mut out, "Command reference:");
        push_text(&mut out, "quit q              quit the CLI");
        push_text(&mut out, "help h              show this help");
        push_text(&mut out, "help h {cmd}       show longer help for a command");
        push_text(&mut out, "reset r            reset all context state");
        push_text(&mut out, "reinterpret ri {type} [{len}]  reinterpret matches as another type");
        push_text(&mut out, "add a {addr}       manually add an address to matches");
        push_text(&mut out, "remove rm {idx}    remove match by index");
        push_text(&mut out, "print p            print found matches (typed)");
        push_text(&mut out, "write wr {idx/*} {o/c} {value}  write values to matches");
        push_text(&mut out, "sig sg {pattern}  scan memory for a byte pattern (IDA style)");
        if is_process {
            push_text(&mut out, "pointer_map pm     build a pointer map");
            push_text(&mut out, "globals g [{module}]  find global variables referenced by code");
            push_text(&mut out, "sigmaker s {addr} find code signatures for an address");
            push_text(
                &mut out,
                "offset_scan os {y/n} {lrange} {urange} {max_depth} [{filter}]",
            );
        }
        let empty = String::new();
        assert(empty@ =~= Seq::<char>::empty());
        push_text(&mut out, empty.as_str());
        push_text(&mut out, "Anything not in this list is interpreted as a scan input:");
        push_text(&mut out, "  i64 64         (first scan: type + value)");
        push_text(&mut out, "  42             (subsequent filter call)");
        push_text(
            &mut out,
            "Available types: str, str_utf16, i8, u8, i16, u16, i32, u32, i64, u64, i128, u128, f32, f64",
        );
        assert(views(out@) =~= help_reference(is_process));
    } else {
        let mut line = owned("(no further help available for `");
        line.append(args);
        line.append("`)");
        push_text(&mut out, line.as_str());
        assert(views(out@) =~= help_lines(args@, is_process));
    }
    out
}

/// What a line of the interactive mode begins.
pub enum Step {
    /// What a command begins too.
    Task(Task),
    /// A first pass whose matches are shown with their values.
    FirstScan(ValueScan),
    /// A write that is repeated until it is stopped.
    KeepWriting(WriteJob),
}

/// What a line of the interactive mode begins, as a mathematical value.
pub enum StepWork {
    /// What a command begins too.
    Work(Work),
    /// A first pass whose matches are shown with their values, with the type that it selects.
    FirstScan(ScanState, Seq<char>, usize),
    /// A write that is repeated until it is stopped.
    KeepWriting(WriteState),
}

impl Step {
    /// Whether the scan in it is well-formed.
    pub open spec fn wf(self) -> bool {
        match self {
            Step::Task(task) => task.wf(),
            Step::FirstScan(scan) => scan.wf(),
            Step::KeepWriting(_) => true,
        }
    }

    /// What it is about.
    pub open spec fn work(self) -> StepWork {
        match self {
            Step::Task(task) => StepWork::Work(task.work()),
            Step::FirstScan(scan) => StepWork::FirstScan(scan.state(), scan.name(), scan.len()),
            Step::KeepWriting(job) => StepWork::KeepWriting(job@),
        }
    }
}

/// Whether a result is what was planned: the work, or the refusal.
pub open spec fn step_as_planned(
    r: Result<Step, ScanflowError>,
    plan: Result<StepWork, ErrorKind>,
) -> bool {
    match plan {
        Ok(work) => r matches Ok(step) && step.wf() && step.work() == work,
        Err(kind) => refused(r, kind),
    }
}

/// A plan of a command as that of a line.
pub open spec fn lifted(plan: Result<Work, ErrorKind>) -> Result<StepWork, ErrorKind> {
    match plan {
        Ok(work) => Ok(StepWork::Work(work)),
        Err(kind) => Err(kind),
    }
}

/// The number that a text stands for, where it is one that a position or a length can have.
pub open spec fn size_of_text(s: Seq<char>) -> Option<usize> {
    match unsigned_of(s, 10, usize::MAX as nat) {
        Ok(n) => Some(n as usize),
        Err(_) => None,
    }
}

/// The address that hexadecimal digits stand for.
pub open spec fn hex_address(s: Seq<char>) -> Option<u64> {
    match unsigned_of(s, 16, u64::MAX as nat) {
        Ok(n) => Some(n as u64),
        Err(_) => None,
    }
}

/// Reads a position or a length.
fn parse_size(s: &str) -> (r: Option<usize>)
    ensures
        r == size_of_text(s@),
{
    proof {
        lemma_unsigned_range(s@, 10, usize::MAX as nat);
    }
    match parse_unsigned(s, 10, usize::MAX as u128) {
        Ok(n) => Some(n as usize),
        Err(_) => None,
    }
}

/// Reads the hexadecimal digits of an address.
fn parse_hex_address(s: &str) -> (r: Option<u64>)
    ensures
        r == hex_address(s@),
{
    proof {
        lemma_unsigned_range(s@, 16, u64::MAX as nat);
    }
    match parse_unsigned(s, 16, 0xFFFF_FFFF_FFFF_FFFF) {
        Ok(n) => Some(n as u64),
        Err(_) => None,
    }
}

/// The type and the length that `reinterpret` asks for.
pub open spec fn reinterpret_args(args: Seq<char>) -> Option<(Seq<char>, Option<usize>)> {
    let ws = words(args);
    if ws.len() == 0 {
        None
    } else {
        Some(
            (
                ws[0],
                if ws.len() > 1 {
                    size_of_text(ws[1])
                } else {
                    None
                },
            ),
        )
    }
}

/// The parts of the arguments of `write`: which match, which mode, and the value.
pub open spec fn write_args(args: Seq<char>) -> Option<(Seq<char>, Seq<char>, Seq<char>)> {
    match after_space(args) {
        Some(rest) => match after_space(rest) {
            Some(value) => Some((before_space(args), before_space(rest), value)),
            None => None,
        },
        None => None,
    }
}

/// Which matches a write goes to: all for `*`, or else the one at a position.
pub open spec fn write_target(idx: Seq<char>) -> Option<WriteTarget> {
    if idx == "*"@ {
        Some(WriteTarget::All)
    } else {
        match size_of_text(idx) {
            Some(i) => Some(WriteTarget::One(i)),
            None => None,
        }
    }
}

/// The write that is repeated until it is stopped.
pub open spec fn continuous_plan(
    s: SessionState,
    target: WriteTarget,
    value: Seq<char>,
    reading: FloatReading,
) -> Result<StepWork, ErrorKind> {
    match s.typename {
        None => Err(ErrorKind::Uninitialized),
        Some(t) => match (value_bytes(t, value, reading), selected(s.matches, target)) {
            (Some(data), Some(targets)) => Ok(
                StepWork::KeepWriting(WriteState { targets, data, written: 0 }),
            ),
            _ => Err(ErrorKind::InvalidArgument),
        },
    }
}

/// What `write` begins: one write for the mode `o`, a repeated one for `c`.
pub open spec fn repl_write_plan(s: SessionState, args: Seq<char>, reading: FloatReading) -> Result<
    StepWork,
    ErrorKind,
> {
    match write_args(args) {
        None => Err(ErrorKind::InvalidArgument),
        Some((idx, mode, value)) => match write_target(idx) {
            None => Err(ErrorKind::InvalidArgument),
            Some(target) => if mode == "o"@ {
                lifted(write_plan(s, target, value, reading))
            } else if mode == "c"@ {
                continuous_plan(s, target, value, reading)
            } else {
                Err(ErrorKind::InvalidArgument)
            },
        },
    }
}

/// The whole line that a command and the rest stand for.
pub open spec fn rejoined(cmd: Seq<char>, args: Seq<char>) -> Seq<char> {
    if args.len() == 0 {
        cmd
    } else {
        cmd + " "@ + args
    }
}

/// What a first pass for a value of a type begins.
pub open spec fn first_scan_plan(
    name: Seq<char>,
    value: Seq<char>,
    reading: FloatReading,
    ranges: Seq<MemoryRange>,
) -> Result<StepWork, ErrorKind> {
    match value_bytes(name, value, reading) {
        Some(b) => Ok(
            StepWork::FirstScan(
                ScanState::begun(sought(b), ranges),
                name,
                match kind_of(name).unwrap().size() {
                    Some(n) => n,
                    None => b.len() as usize,
                },
            ),
        ),
        None => Err(ErrorKind::InvalidArgument),
    }
}

/// What a line that is no command begins: a filter pass for the line where a type is selected, and
/// otherwise a first pass for the type and the value in it.
pub open spec fn input_plan(
    s: SessionState,
    line: Seq<char>,
    reading: FloatReading,
    ranges: Seq<MemoryRange>,
) -> Result<StepWork, ErrorKind> {
    if s.typename is Some {
        lifted(filter_plan(s, line, reading))
    } else {
        match after_space(line) {
            None => Err(ErrorKind::InvalidArgument),
            Some(value) => first_scan_plan(before_space(line), value, reading, ranges),
        }
    }
}

/// What a command that a raw view understands begins.
pub open spec fn view_cmd_plan(
    s: SessionState,
    cmd: Seq<char>,
    args: Seq<char>,
    reading: FloatReading,
    ranges: Seq<MemoryRange>,
) -> Result<StepWork, ErrorKind> {
    match verb_of(cmd) {
        Verb::Reset => Ok(StepWork::Work(Work::Done)),
        Verb::Reinterpret => match reinterpret_args(args) {
            Some((name, len)) => if SessionState::can_set_type(name, len) {
                Ok(StepWork::Work(Work::Done))
            } else {
                Err(ErrorKind::InvalidArgument)
            },
            None => Err(ErrorKind::InvalidArgument),
        },
        Verb::Add => match hex_address(trimmed(args)) {
            Some(_) => Ok(StepWork::Work(Work::Done)),
            None => Err(ErrorKind::InvalidArgument),
        },
        Verb::Remove => match size_of_text(trimmed(args)) {
            Some(i) => if i < s.matches.len() {
                Ok(StepWork::Work(Work::Done))
            } else {
                Err(ErrorKind::InvalidArgument)
            },
            None => Err(ErrorKind::InvalidArgument),
        },
        Verb::Print => lifted(print_plan(s)),
        Verb::Write => repl_write_plan(s, args, reading),
        Verb::Sig => lifted(sig_plan(args, ranges)),
        _ => input_plan(s, rejoined(cmd, args), reading, ranges),
    }
}

/// The state after such a command has begun.
pub open spec fn view_cmd_state(s: SessionState, cmd: Seq<char>, args: Seq<char>) -> SessionState {
    match verb_of(cmd) {
        Verb::Reset => SessionState::fresh(s.target),
        Verb::Reinterpret => match reinterpret_args(args) {
            Some((name, len)) => s.type_set(name, len),
            None => s,
        },
        Verb::Add => match hex_address(trimmed(args)) {
            Some(a) => SessionState { matches: s.matches.push(a), ..s },
            None => s,
        },
        Verb::Remove => match size_of_text(trimmed(args)) {
            Some(i) => if i < s.matches.len() {
                SessionState { matches: s.matches.remove(i as int), ..s }
            } else {
                s
            },
            None => s,
        },
        _ => s,
    }
}

/// Begins a repeated write.
pub fn continuous_write<T>(
    session: &Session<T>,
    target: WriteTarget,
    value: &str,
    reading: &FloatReading,
) -> (r: Result<Step, ScanflowError>)
    ensures
        step_as_planned(r, continuous_plan(session.state(), target, value@, *reading)),
{
    match session.prepare_write(target, value, reading) {
        Ok(job) => Ok(Step::KeepWriting(job)),
        Err(e) => Err(e),
    }
}

/// The line that a repeated write to a number of addresses begins with.
pub fn continuous_line(count: usize) -> (r: String)
    ensures
        r@ == "Continuous write to "@ + decimal(count as nat)
            + " address(es). Press Enter to stop..."@,
{
    let mut line = owned("Continuous write to ");
    push_digits(&mut line, count as u128, 10);
    line.append(" address(es). Press Enter to stop...");
    line
}

/// Turns the result of a command into that of a line.
fn lift(r: Result<Task, ScanflowError>) -> (s: Result<Step, ScanflowError>)
    ensures
        forall|plan: Result<Work, ErrorKind>| #[trigger]
            as_planned(r, plan) ==> step_as_planned(s, lifted(plan)),
{
    match r {
        Ok(task) => Ok(Step::Task(task)),
        Err(e) => Err(e),
    }
}

/// Begins what `write` asks for.
pub fn handle_write<T>(session: &Session<T>, args: &str, reading: &FloatReading) -> (r: Result<
    Step,
    ScanflowError,
>)
    ensures
        step_as_planned(r, repl_write_plan(session.state(), args@, *reading)),
{
    let (idx, rest) = split_at_space(args);
    let rest = match rest {
        Some(rest) => rest,
        None => return Err(ScanflowError::Kind(ErrorKind::InvalidArgument)),
    };
    let (mode, value) = split_at_space(rest.as_str());
    let value = match value {
        Some(value) => value,
        None => return Err(ScanflowError::Kind(ErrorKind::InvalidArgument)),
    };
    let target = if same(idx.as_str(), "*") {
        WriteTarget::All
    } else {
        match parse_size(idx.as_str()) {
            Some(i) => WriteTarget::One(i),
            None => return Err(ScanflowError::Kind(ErrorKind::InvalidArgument)),
        }
    };
    if same(mode.as_str(), "o") {
        lift(begin_write(session, target, value.as_str(), reading))
    } else if same(mode.as_str(), "c") {
        continuous_write(session, target, value.as_str(), reading)
    } else {
        Err(ScanflowError::Kind(ErrorKind::InvalidArgument))
    }
}

/// The line that a command and the rest stand for.
fn rejoin(cmd: &str, args: &str) -> (r: String)
    ensures
        r@ == rejoined(cmd@, args@),
{
    let mut line = owned(cmd);
    if args.unicode_len() > 0 {
        line.append(" ");
        line.append(args);
    }
    line
}

/// Begins what a line that is no command asks for.
pub fn handle_scan_input<T>(
    session: &Session<T>,
    cmd: &str,
    args: &str,
    reading: &FloatReading,
    ranges: Vec<MemoryRange>,
) -> (r: Result<Step, ScanflowError>)
    requires
        all_valid(ranges@),
    ensures
        step_as_planned(
            r,
            input_plan(session.state(), rejoined(cmd@, args@), *reading, ranges@),
        ),
{
    let line = rejoin(cmd, args);
    if session.typename().is_some() {
        return lift(begin_filter(session, line.as_str(), reading));
    }
    let (typename, value) = split_at_space(line.as_str());
    let value = match value {
        Some(value) => value,
        None => return Err(ScanflowError::Kind(ErrorKind::InvalidArgument)),
    };
    match session.scan_value(typename.as_str(), value.as_str(), reading, ranges) {
        Ok(scan) => Ok(Step::FirstScan(scan)),
        Err(e) => Err(e),
    }
}

/// Ends the first pass of a line: the matches are taken, and the first of them are read back.
pub fn finish_first_scan<T>(session: &mut Session<T>, scan: ValueScan) -> (r: ReadBack)
    requires
        scan.wf(),
    ensures
        final(session).memory() == old(session).memory(),
        final(session).state() == (SessionState {
            matches: scan.state().found(),
            typename: Some(scan.name()),
            buf_len: scan.len(),
            ..old(session).state()
        }),
        print_plan(final(session).state()) == Ok::<Work, ErrorKind>(Work::Print(r@)),
{
    let ghost name = scan.name();
    session.finish_scan_value(scan);
    match session.read_matches(MAX_PRINT) {
        Ok(back) => back,
        Err(_) => {
            assert(session.state().typename == Some(name));
            vstd::pervasive::unreached()
        },
    }
}

/// Begins a command that a raw view understands too; what is no command is a value to scan for.
pub fn handle_view_cmd<T>(
    session: &mut Session<T>,
    cmd: &str,
    args: &str,
    reading: &FloatReading,
    ranges: Vec<MemoryRange>,
) -> (r: Result<Step, ScanflowError>)
    requires
        all_valid(ranges@),
    ensures
        final(session).memory() == old(session).memory(),
        final(session).state() == view_cmd_state(old(session).state(), cmd@, args@),
        step_as_planned(r, view_cmd_plan(old(session).state(), cmd@, args@, *reading, ranges@)),
{
    match verb(cmd) {
        Verb::Reset => {
            session.reset();
            Ok(Step::Task(Task::Done))
        },
        Verb::Reinterpret => {
            let ws = split_whitespace(args);
            if ws.len() == 0 {
                assert(words(args@).len() == 0);
                return Err(ScanflowError::Kind(ErrorKind::InvalidArgument));
            }
            assert(views(ws@)[0] == ws@[0]@);
            let len: Option<usize> = if ws.len() > 1 {
                assert(views(ws@)[1] == ws@[1]@);
                parse_size(ws[1].as_str())
            } else {
                None
            };
            match session.set_type(ws[0].as_str(), len) {
                Ok(_) => Ok(Step::Task(Task::Done)),
                Err(e) => Err(e),
            }
        },
        Verb::Add => {
            let digits = trim(args);
            match parse_hex_address(digits.as_str()) {
                Some(addr) => {
                    session.add_match(addr);
                    Ok(Step::Task(Task::Done))
                },
                None => Err(ScanflowError::Kind(ErrorKind::InvalidArgument)),
            }
        },
        Verb::Remove => {
            let digits = trim(args);
            match parse_size(digits.as_str()) {
                Some(idx) => match session.remove_match(idx) {
                    Ok(_) => Ok(Step::Task(Task::Done)),
                    Err(e) => Err(e),
                },
                None => Err(ScanflowError::Kind(ErrorKind::InvalidArgument)),
            }
        },
        Verb::Print => lift(begin_print(session)),
        Verb::Write => handle_write(session, args, reading),
        Verb::Sig => lift(begin_sig(session, args, ranges)),
        _ => handle_scan_input(session, cmd, args, reading, ranges),
    }
}

/// What becomes of a command that is built in or makes sense for a process only.
pub enum Handled {
    /// The command is one of these, and begins this.
    Continue(Task),
    /// The command asks for help, and this is it.
    Help(Vec<String>),
    /// The command is none of these.
    Fallthrough,
    /// The interactive mode ends.
    Quit,
}

/// Handles the commands that are built in.
pub fn handle_builtin(cmd: &str, args: &str, is_process: bool) -> (r: Handled)
    ensures
        match verb_of(cmd@) {
            Verb::Quit => r is Quit,
            Verb::Help => r matches Handled::Help(lines) && views(lines@) == help_lines(
                args@,
                is_process,
            ),
            _ => r is Fallthrough,
        },
{
    match verb(cmd) {
        Verb::Quit => Handled::Quit,
        Verb::Help => Handled::Help(print_help(args, is_process)),
        _ => Handled::Fallthrough,
    }
}

/// The parts of the arguments of `offset_scan`.
pub open spec fn offset_args(args: Seq<char>) -> Option<(bool, usize, usize, usize, Option<u64>)> {
    let ws = words(args);
    if ws.len() < 4 {
        None
    } else {
        match (size_of_text(ws[1]), size_of_text(ws[2]), size_of_text(ws[3])) {
            (Some(lrange), Some(urange), Some(max_depth)) => Some(
                (
                    ws[0] == "y"@,
                    lrange,
                    urange,
                    max_depth,
                    if ws.len() > 4 {
                        hex_address(ws[4])
                    } else {
                        None
                    },
                ),
            ),
            _ => None,
        }
    }
}

/// Begins what `offset_scan` asks for.
pub fn handle_offset_scan<T>(session: &Session<T>, args: &str) -> (r: Result<Task, ScanflowError>)
    ensures
        as_planned(
            r,
            match offset_args(args@) {
                Some((use_disasm, lrange, urange, max_depth, filter)) => Ok(
                    offset_plan(session.state(), use_disasm, lrange, urange, max_depth, filter),
                ),
                None => Err(ErrorKind::InvalidArgument),
            },
        ),
{
    let ws = split_whitespace(args);
    assert(forall|i: int| 0 <= i < ws@.len() ==> #[trigger] views(ws@)[i] == ws@[i]@);
    assert(words(args@).len() == ws@.len());
    if ws.len() < 4 {
        return Err(ScanflowError::Kind(ErrorKind::InvalidArgument));
    }
    let use_disasm: bool = same(ws[0].as_str(), "y");
    let lrange: usize = match parse_size(ws[1].as_str()) {
        Some(n) => n,
        None => return Err(ScanflowError::Kind(ErrorKind::InvalidArgument)),
    };
    let urange: usize = match parse_size(ws[2].as_str()) {
        Some(n) => n,
        None => return Err(ScanflowError::Kind(ErrorKind::InvalidArgument)),
    };
    let max_depth: usize = match parse_size(ws[3].as_str()) {
        Some(n) => n,
        None => return Err(ScanflowError::Kind(ErrorKind::InvalidArgument)),
    };
    let filter: Option<u64> = if ws.len() > 4 {
        parse_hex_address(ws[4].as_str())
    } else {
        None
    };
    Ok(Task::Offset(session.offset_scan(use_disasm, lrange, urange, max_depth, filter)))
}

/// The module that `globals` asks for; none stands for all.
pub open spec fn module_arg(args: Seq<char>) -> Option<Seq<char>> {
    if trimmed(args).len() == 0 {
        None
    } else {
        Some(trimmed(args))
    }
}

/// What a command that makes sense for a process only begins.
pub open spec fn process_cmd_plan(s: SessionState, cmd: Seq<char>, args: Seq<char>) -> Result<
    Work,
    ErrorKind,
> {
    match verb_of(cmd) {
        Verb::PointerMap => Ok(Work::PointerMap),
        Verb::Globals => Ok(Work::Globals(module_arg(args))),
        Verb::Sigmaker => match hex_address(trimmed(args)) {
            Some(a) => Ok(Work::Sigmaker(a)),
            None => Err(ErrorKind::InvalidArgument),
        },
        _ => match offset_args(args) {
            Some((use_disasm, lrange, urange, max_depth, filter)) => Ok(
                offset_plan(s, use_disasm, lrange, urange, max_depth, filter),
            ),
            None => Err(ErrorKind::InvalidArgument),
        },
    }
}

/// Whether a word asks for something that makes sense for a process only.
pub open spec fn is_process_verb(v: Verb) -> bool {
    v is PointerMap || v is Globals || v is Sigmaker || v is OffsetScan
}

/// Whether a result is what was planned: a task, or the refusal.
pub open spec fn handled_as_planned(
    r: Result<Handled, ScanflowError>,
    plan: Result<Work, ErrorKind>,
) -> bool {
    match plan {
        Ok(work) => r matches Ok(Handled::Continue(task)) && task.wf() && task.work() == work,
        Err(kind) => refused(r, kind),
    }
}

/// Handles the commands that are built in, and begins those that make sense for a process only.
pub fn handle_process_cmd<T>(session: &Session<T>, cmd: &str, args: &str) -> (r: Result<
    Handled,
    ScanflowError,
>)
    ensures
        match verb_of(cmd@) {
            Verb::Quit => r matches Ok(h) && h is Quit,
            Verb::Help => r matches Ok(Handled::Help(lines)) && views(lines@) == help_lines(
                args@,
                true,
            ),
            v => if is_process_verb(v) {
                handled_as_planned(r, process_cmd_plan(session.state(), cmd@, args@))
            } else {
                r matches Ok(h) && h is Fallthrough
            },
        },
{
    let h = handle_builtin(cmd, args, true);
    match h {
        Handled::Fallthrough => {},
        _ => return Ok(h),
    }
    match verb(cmd) {
        Verb::PointerMap => Ok(Handled::Continue(Task::PointerMap)),
        Verb::Globals => {
            let name = trim(args);
            let module: Option<String> = if name.as_str().unicode_len() == 0 {
                None
            } else {
                Some(name)
            };
            assert(opt_view(module) == module_arg(args@));
            Ok(Handled::Continue(Task::Globals(module)))
        },
        Verb::Sigmaker => {
            let digits = trim(args);
            match parse_hex_address(digits.as_str()) {
                Some(addr) => Ok(Handled::Continue(Task::Sigmaker(addr))),
                None => Err(ScanflowError::Kind(ErrorKind::InvalidArgument)),
            }
        },
        Verb::OffsetScan => match handle_offset_scan(session, args) {
            Ok(task) => Ok(Handled::Continue(task)),
            Err(e) => Err(e),
        },
        _ => Ok(Handled::Fallthrough),
    }
}

/// What becomes of a line.
pub enum LineOutcome {
    /// The line is blank.
    Skip,
    /// The interactive mode ends.
    Quit,
    /// Help.
    Help(Vec<String>),
    /// Something begins.
    Begin(Step),
}

/// What is left to do for a line that was neither blank nor built in.
pub open spec fn line_plan(
    s: SessionState,
    line: Seq<char>,
    is_process: bool,
    reading: FloatReading,
    ranges: Seq<MemoryRange>,
) -> Result<StepWork, ErrorKind> {
    let cmd = before_space(line);
    let args = args_of(line);
    if is_process && is_process_verb(verb_of(cmd)) {
        lifted(process_cmd_plan(s, cmd, args))
    } else {
        view_cmd_plan(s, cmd, args, reading, ranges)
    }
}

/// The state after a line has begun what it asks for.
pub open spec fn line_state(s: SessionState, line: Seq<char>, is_process: bool) -> SessionState {
    let v = verb_of(before_space(line));
    if line.len() == 0 || v is Quit || v is Help || (is_process && is_process_verb(v)) {
        s
    } else {
        view_cmd_state(s, before_space(line), args_of(line))
    }
}

/// Begins what a line asks for, on a session of a process or of a raw view. A blank line asks for
/// nothing. `reading` is what the value of the line reads as, and `ranges` is the memory.
pub fn handle_line<T>(
    session: &mut Session<T>,
    line: &str,
    is_process: bool,
    reading: &FloatReading,
    ranges: Vec<MemoryRange>,
) -> (r: Result<LineOutcome, ScanflowError>)
    requires
        all_valid(ranges@),
    ensures
        final(session).memory() == old(session).memory(),
        final(session).state() == line_state(old(session).state(), trimmed(line@), is_process),
        ({
            let l = trimmed(line@);
            let v = verb_of(before_space(l));
            if l.len() == 0 {
                r matches Ok(o) && o is Skip
            } else if v is Quit {
                r matches Ok(o) && o is Quit
            } else if v is Help {
                r matches Ok(LineOutcome::Help(lines)) && views(lines@) == help_lines(
                    args_of(l),
                    is_process,
                )
            } else {
                match line_plan(old(session).state(), l, is_process, *reading, ranges@) {
                    Ok(work) => r matches Ok(LineOutcome::Begin(step)) && step.wf() && step.work()
                        == work,
                    Err(kind) => refused(r, kind),
                }
            }
        }),
{
    let line = trim(line);
    if line.as_str().unicode_len() == 0 {
        return Ok(LineOutcome::Skip);
    }
    let (cmd, args) = split_cmd(line.as_str());
    let handled = if is_process {
        match handle_process_cmd(session, cmd.as_str(), args.as_str()) {
            Ok(h) => h,
            Err(e) => return Err(e),
        }
    } else {
        handle_builtin(cmd.as_str(), args.as_str(), false)
    };
    match handled {
        Handled::Quit => Ok(LineOutcome::Quit),
        Handled::Help(lines) => Ok(LineOutcome::Help(lines)),
        Handled::Continue(task) => Ok(LineOutcome::Begin(Step::Task(task))),
        Handled::Fallthrough => match handle_view_cmd(
            session,
            cmd.as_str(),
            args.as_str(),
            reading,
            ranges,
        ) {
            Ok(step) => Ok(LineOutcome::Begin(step)),
            Err(e) => Err(e),
        },
    }
}

/// The text of the value in a line, where it has one: the third part of the arguments of `write`,
/// the whole line where a type is selected, and what stands behind the type otherwise.
pub open spec fn value_in(line: Seq<char>, typed: bool) -> Option<Seq<char>> {
    if verb_of(before_space(line)) is Write {
        match write_args(args_of(line)) {
            Some((_, _, value)) => Some(value),
            None => None,
        }
    } else if typed {
        Some(rejoined(before_space(line), args_of(line)))
    } else {
        after_space(rejoined(before_space(line), args_of(line)))
    }
}

/// The text of the value in a line, which a floating-point reading has to be made of.
pub fn line_value<T>(session: &Session<T>, line: &str) -> (r: Option<String>)
    ensures
        opt_view(r) == value_in(trimmed(line@), session.state().typename is Some),
{
    let line = trim(line);
    let (cmd, args) = split_cmd(line.as_str());
    if verb(cmd.as_str()) == Verb::Write {
        let (_, rest) = split_at_space(args.as_str());
        return match rest {
            Some(rest) => split_at_space(rest.as_str()).1,
            None => None,
        };
    }
    let whole = rejoin(cmd.as_str(), args.as_str());
    if session.typename().is_some() {
        Some(whole)
    } else {
        split_at_space(whole.as_str()).1
    }
}

/// Whether a word asks for something that a value to read as a number has no part in.
pub open spec fn takes_no_value(v: Verb, is_process: bool) -> bool {
    ||| v is Reset || v is Reinterpret || v is Add || v is Remove || v is Print || v is Sig
    ||| is_process && is_process_verb(v)
}

/// What a line begins depends on the reading of no text but the value in it. Without one it is the
/// same for every reading. With one it is the write, the filter pass or the first pass for that
/// value; or the line asks for something else, and it is again the same for every reading.
pub proof fn law_line_value(
    s: SessionState,
    line: Seq<char>,
    is_process: bool,
    reading: FloatReading,
    other: FloatReading,
    ranges: Seq<MemoryRange>,
)
    ensures
        ({
            let plan = line_plan(s, line, is_process, reading, ranges);
            let verb = verb_of(before_space(line));
            let whole = rejoined(before_space(line), args_of(line));
            match value_in(line, s.typename is Some) {
                None => plan == line_plan(s, line, is_process, other, ranges),
                Some(v) => if verb is Write {
                    let (idx, mode, _) = write_args(args_of(line)).unwrap();
                    plan == match write_target(idx) {
                        None => Err(ErrorKind::InvalidArgument),
                        Some(target) => if mode == "o"@ {
                            lifted(write_plan(s, target, v, reading))
                        } else if mode == "c"@ {
                            continuous_plan(s, target, v, reading)
                        } else {
                            Err(ErrorKind::InvalidArgument)
                        },
                    }
                } else if takes_no_value(verb, is_process) {
                    plan == line_plan(s, line, is_process, other, ranges)
                } else if s.typename is Some {
                    plan == lifted(filter_plan(s, v, reading))
                } else {
                    plan == first_scan_plan(before_space(whole), v, reading, ranges)
                },
            }
        }),
{
}

/// Whether what a line begins depends on the memory: a signature scan, or the first pass for a
/// value.
pub open spec fn scans_memory(s: SessionState, line: Seq<char>, is_process: bool) -> bool {
    let v = verb_of(before_space(line));
    ||| v is Sig
    ||| v is Input && s.typename is None && line.len() > 0
    ||| !is_process && is_process_verb(v) && s.typename is None
}

/// Whether the memory has to be known for a line.
pub fn line_needs_ranges<T>(session: &Session<T>, line: &str, is_process: bool) -> (r: bool)
    ensures
        r == scans_memory(session.state(), trimmed(line@), is_process),
{
    let line = trim(line);
    let (cmd, _) = split_cmd(line.as_str());
    match verb(cmd.as_str()) {
        Verb::Sig => true,
        Verb::Input => session.typename().is_none() && line.as_str().unicode_len() > 0,
        Verb::PointerMap | Verb::Globals | Verb::Sigmaker | Verb::OffsetScan => !is_process
            && session.typename().is_none(),
        _ => false,
    }
}

/// A line for which the memory need not be known begins the same whatever it is.
pub proof fn law_other_lines_need_no_ranges(
    s: SessionState,
    line: Seq<char>,
    is_process: bool,
    reading: FloatReading,
    ranges: Seq<MemoryRange>,
    other: Seq<MemoryRange>,
)
    requires
        line.len() > 0,
        !(verb_of(before_space(line)) is Quit),
        !(verb_of(before_space(line)) is Help),
        !scans_memory(s, line, is_process),
    ensures
        line_plan(s, line, is_process, reading, ranges) == line_plan(
            s,
            line,
            is_process,
            reading,
            other,
        ),
{
}

/// Splitting a line at its first space and joining the parts again gives the line, where it does
/// not end with that space.
pub proof fn law_line_rejoins(line: Seq<char>)
    requires
        line.len() == 0 || line.last() != ' ',
    ensures
        rejoined(before_space(line), args_of(line)) == line,
{
    lemma_space_at(line);
    reveal_strlit(" ");
    assert(rejoined(before_space(line), args_of(line)) =~= line);
}

/// A blank line changes nothing, help changes nothing, and quitting changes nothing.
pub proof fn law_quiet_lines(s: SessionState, line: Seq<char>, is_process: bool)
    requires
        line.len() == 0 || verb_of(before_space(line)) is Quit || verb_of(before_space(line)) is Help,
    ensures
        line_state(s, line, is_process) == s,
{
}

/// On a raw view, a word that makes sense for a process only is taken as a value to scan for.
pub proof fn law_view_takes_process_words_as_input(
    s: SessionState,
    line: Seq<char>,
    reading: FloatReading,
    ranges: Seq<MemoryRange>,
)
    requires
        is_process_verb(verb_of(before_space(line))),
    ensures
        line_plan(s, line, false, reading, ranges) == input_plan(
            s,
            rejoined(before_space(line), args_of(line)),
            reading,
            ranges,
        ),
        line_state(s, line, false) == s,
{
}

/// Each command has a word and a short form of it, and everything else is a value to scan for.
pub proof fn law_verbs(cmd: Seq<char>)
    ensures
        verb_of(cmd) is Quit <==> cmd == "quit"@ || cmd == "q"@,
        verb_of(cmd) is Help <==> cmd == "help"@ || cmd == "h"@,
        verb_of(cmd) is PointerMap <==> cmd == "pointer_map"@ || cmd == "pm"@,
        verb_of(cmd) is Globals <==> cmd == "globals"@ || cmd == "g"@,
        verb_of(cmd) is Sigmaker <==> cmd == "sigmaker"@ || cmd == "s"@,
        verb_of(cmd) is OffsetScan <==> cmd == "offset_scan"@ || cmd == "os"@,
        verb_of(cmd) is Reset <==> cmd == "reset"@ || cmd == "r"@,
        verb_of(cmd) is Reinterpret <==> cmd == "reinterpret"@ || cmd == "ri"@,
        verb_of(cmd) is Add <==> cmd == "add"@ || cmd == "a"@,
        verb_of(cmd) is Remove <==> cmd == "remove"@ || cmd == "rm"@,
        verb_of(cmd) is Print <==> cmd == "print"@ || cmd == "p"@,
        verb_of(cmd) is Write <==> cmd == "write"@ || cmd == "wr"@,
        verb_of(cmd) is Sig <==> cmd == "sig"@ || cmd == "sg"@,
{
    reveal_strlit("quit");
    reveal_strlit("q");
    reveal_strlit("help");
    reveal_strlit("h");
    reveal_strlit("pointer_map");
    reveal_strlit("pm");
    reveal_strlit("globals");
    reveal_strlit("g");
    reveal_strlit("sigmaker");
    reveal_strlit("s");
    reveal_strlit("offset_scan");
    reveal_strlit("os");
    reveal_strlit("reset");
    reveal_strlit("r");
    reveal_strlit("reinterpret");
    reveal_strlit("ri");
    reveal_strlit("add");
    reveal_strlit("a");
    reveal_strlit("remove");
    reveal_strlit("rm");
    reveal_strlit("print");
    reveal_strlit("p");
    reveal_strlit("write");
    reveal_strlit("wr");
    reveal_strlit("sig");
    reveal_strlit("sg");
    assert("quit"@.len() == 4 && "quit"@[0] == 'q');
    assert("q"@.len() == 1 && "q"@[0] == 'q');
    assert("help"@.len() == 4 && "help"@[0] == 'h');
    assert("h"@.len() == 1 && "h"@[0] == 'h');
    assert("pointer_map"@.len() == 11 && "pointer_map"@[0] == 'p');
    assert("pm"@.len() == 2 && "pm"@[0] == 'p');
    assert("globals"@.len() == 7 && "globals"@[0] == 'g');
    assert("g"@.len() == 1 && "g"@[0] == 'g');
    assert("sigmaker"@.len() == 8 && "sigmaker"@[0] == 's');
    assert("s"@.len() == 1 && "s"@[0] == 's');
    assert("offset_scan"@.len() == 11 && "offset_scan"@[0] == 'o');
    assert("os"@.len() == 2 && "os"@[0] == 'o');
    assert("reset"@.len() == 5 && "reset"@[0] == 'r');
    assert("r"@.len() == 1 && "r"@[0] == 'r');
    assert("reinterpret"@.len() == 11 && "reinterpret"@[0] == 'r');
    assert("ri"@.len() == 2 && "ri"@[0] == 'r');
    assert("add"@.len() == 3 && "add"@[0] == 'a');
    assert("a"@.len() == 1 && "a"@[0] == 'a');
    assert("remove"@.len() == 6 && "remove"@[0] == 'r');
    assert("rm"@.len() == 2 && "rm"@[0] == 'r');
    assert("print"@.len() == 5 && "print"@[0] == 'p');
    assert("p"@.len() == 1 && "p"@[0] == 'p');
    assert("write"@.len() == 5 && "write"@[0] == 'w');
    assert("wr"@.len() == 2 && "wr"@[0] == 'w');
    assert("sig"@.len() == 3 && "sig"@[0] == 's');
    assert("sg"@.len() == 2 && "sg"@[0] == 's');
    assert("ri"@[1] == 'i' && "rm"@[1] == 'm');
    assert("reset"@[1] == 'e' && "remove"@[1] == 'e');
}

/// The words of the commands hold no space.
proof fn lemma_verbs_hold_no_space(cmd: Seq<char>)
    requires
        !(verb_of(cmd) is Input),
    ensures
        forall|i: int| 0 <= i < cmd.len() ==> #[trigger] cmd[i] != ' ',
{
    reveal_strlit("quit");
    reveal_strlit("q");
    reveal_strlit("help");
    reveal_strlit("h");
    reveal_strlit("pointer_map");
    reveal_strlit("pm");
    reveal_strlit("globals");
    reveal_strlit("g");
    reveal_strlit("sigmaker");
    reveal_strlit("s");
    reveal_strlit("offset_scan");
    reveal_strlit("os");
    reveal_strlit("reset");
    reveal_strlit("r");
    reveal_strlit("reinterpret");
    reveal_strlit("ri");
    reveal_strlit("add");
    reveal_strlit("a");
    reveal_strlit("remove");
    reveal_strlit("rm");
    reveal_strlit("print");
    reveal_strlit("p");
    reveal_strlit("write");
    reveal_strlit("wr");
    reveal_strlit("sig");
    reveal_strlit("sg");
}

/// A line is its first word and what stands behind the space after it.
proof fn lemma_line(cmd: Seq<char>, args: Seq<char>)
    requires
        forall|i: int| 0 <= i < cmd.len() ==> #[trigger] cmd[i] != ' ',
    ensures
        before_space(cmd) == cmd,
        args_of(cmd) == Seq::<char>::empty(),
        before_space(cmd + seq![' '] + args) == cmd,
        args_of(cmd + seq![' '] + args) == args,
{
    law_split_at_space(cmd, args);
}

/// A line that adds an address adds the one that its hexadecimal digits stand for, behind the other
/// matches. One that removes a match removes the one at the position and no other. What is no
/// address, or no position of a match, is refused and changes nothing.
pub proof fn law_lines_on_matches(
    s: SessionState,
    cmd: Seq<char>,
    args: Seq<char>,
    is_process: bool,
    reading: FloatReading,
    ranges: Seq<MemoryRange>,
    i: int,
)
    requires
        verb_of(cmd) is Add || verb_of(cmd) is Remove,
    ensures
        ({
            let line = cmd + seq![' '] + args;
            let plan = line_plan(s, line, is_process, reading, ranges);
            let after = line_state(s, line, is_process);
            &&& verb_of(cmd) is Add ==> match unsigned_of(trimmed(args), 16, u64::MAX as nat) {
                Ok(a) => plan == Ok::<StepWork, ErrorKind>(StepWork::Work(Work::Done)) && after
                    == (SessionState { matches: s.matches + seq![a as u64], ..s }),
                Err(_) => plan == Err::<StepWork, ErrorKind>(ErrorKind::InvalidArgument) && after
                    == s,
            }
            &&& verb_of(cmd) is Remove ==> match unsigned_of(trimmed(args), 10, usize::MAX as nat) {
                Ok(n) => if n < s.matches.len() {
                    &&& plan == Ok::<StepWork, ErrorKind>(StepWork::Work(Work::Done))
                    &&& after == (SessionState { matches: after.matches, ..s })
                    &&& after.matches.len() == s.matches.len() - 1
                    &&& 0 <= i < n ==> after.matches[i] == s.matches[i]
                    &&& n <= i < after.matches.len() ==> after.matches[i] == s.matches[i + 1]
                } else {
                    plan == Err::<StepWork, ErrorKind>(ErrorKind::InvalidArgument) && after == s
                },
                Err(_) => plan == Err::<StepWork, ErrorKind>(ErrorKind::InvalidArgument) && after
                    == s,
            }
        }),
{
    lemma_verbs_hold_no_space(cmd);
    lemma_line(cmd, args);
    lemma_unsigned_range(trimmed(args), 10, usize::MAX as nat);
    if let Some(a) = hex_address(trimmed(args)) {
        assert(s.matches.push(a) =~= s.matches + seq![a]);
    }
}

/// An address that is added in its hexadecimal form stands behind the other matches, and removing
/// the match at that position again gives the state from before.
pub proof fn law_added_is_removed(s: SessionState, a: u64, is_process: bool)
    requires
        s.matches.len() < usize::MAX,
    ensures
        ({
            let added = line_state(s, "add"@ + seq![' '] + hex(a as nat), is_process);
            let n = s.matches.len();
            &&& added.matches == s.matches.push(a)
            &&& line_state(added, "remove"@ + seq![' '] + decimal(n), is_process) == s
        }),
{
    let n = s.matches.len();
    law_verbs("add"@);
    law_verbs("remove"@);
    lemma_digits_trimmed(a as nat, 16);
    lemma_digits_trimmed(n, 10);
    law_read_written(a as nat, 16, u64::MAX as nat);
    law_read_written(n, 10, usize::MAX as nat);
    lemma_verbs_hold_no_space("add"@);
    lemma_verbs_hold_no_space("remove"@);
    lemma_line("add"@, hex(a as nat));
    lemma_line("remove"@, decimal(n));
    assert(s.matches.push(a).remove(n as int) =~= s.matches);
}

/// The digits of a number have no white space at their ends.
proof fn lemma_digits_trimmed(n: nat, radix: nat)
    requires
        2 <= radix <= 16,
    ensures
        trimmed(digits(n, radix)) == digits(n, radix),
{
    let t = digits(n, radix);
    lemma_digits(n, radix);
    lemma_digit_run(t, radix);
    assert(digit_of(t[0], radix) is Some);
    assert(digit_of(t[t.len() - 1], radix) is Some);
    law_trimmed(t, ' ');
}

/// A line that selects another type names it in its first word, and may give the length in its
/// second. Without a word, or with a type that cannot be selected like that, it is refused. A reset
/// forgets everything but the target. Printing and scanning for a signature leave the session as it
/// is.
pub proof fn law_lines_on_types(
    s: SessionState,
    cmd: Seq<char>,
    args: Seq<char>,
    is_process: bool,
    reading: FloatReading,
    ranges: Seq<MemoryRange>,
)
    requires
        !(verb_of(cmd) is Input),
    ensures
        ({
            let line = cmd + seq![' '] + args;
            let plan = line_plan(s, line, is_process, reading, ranges);
            let after = line_state(s, line, is_process);
            let ws = words(args);
            let done = Ok::<StepWork, ErrorKind>(StepWork::Work(Work::Done));
            let wrong = Err::<StepWork, ErrorKind>(ErrorKind::InvalidArgument);
            match verb_of(cmd) {
                Verb::Reset => plan == done && after == SessionState::fresh(s.target),
                Verb::Reinterpret => {
                    let len = if ws.len() < 2 {
                        None
                    } else {
                        match unsigned_of(ws[1], 10, usize::MAX as nat) {
                            Ok(n) => Some(n as usize),
                            Err(_) => None,
                        }
                    };
                    &&& ws.len() == 0 ==> plan == wrong && after == s
                    &&& ws.len() > 0 ==> after == s.type_set(ws[0], len)
                    &&& ws.len() > 0 && SessionState::can_set_type(ws[0], len) ==> plan == done
                    &&& ws.len() > 0 && !SessionState::can_set_type(ws[0], len) ==> plan == wrong
                },
                Verb::Print => {
                    &&& after == s
                    &&& print_plan(s) matches Ok(w) ==> plan == Ok::<StepWork, ErrorKind>(
                        StepWork::Work(w),
                    )
                    &&& print_plan(s) matches Err(k) ==> plan == Err::<StepWork, ErrorKind>(k)
                },
                Verb::Sig => {
                    &&& after == s
                    &&& sig_plan(args, ranges) matches Ok(w) ==> plan == Ok::<StepWork, ErrorKind>(
                        StepWork::Work(w),
                    )
                    &&& sig_plan(args, ranges) matches Err(k) ==> plan == Err::<StepWork, ErrorKind>(k)
                },
                Verb::Add => true,
                Verb::Remove => true,
                _ => after == s,
            }
        }),
{
    lemma_verbs_hold_no_space(cmd);
    lemma_line(cmd, args);
}

/// The write that a line asks for goes to the match at the position, or to all in their order, with
/// the bytes of the value; once in the mode `o`, and again and again in the mode `c`. A line whose
/// position, mode or value is missing or none is refused.
pub proof fn law_write_lines(
    s: SessionState,
    cmd: Seq<char>,
    idx: Seq<char>,
    mode: Seq<char>,
    value: Seq<char>,
    is_process: bool,
    reading: FloatReading,
    ranges: Seq<MemoryRange>,
)
    requires
        verb_of(cmd) is Write,
        forall|i: int| 0 <= i < idx.len() ==> #[trigger] idx[i] != ' ',
        forall|i: int| 0 <= i < mode.len() ==> #[trigger] mode[i] != ' ',
    ensures
        ({
            let line = cmd + seq![' '] + (idx + seq![' '] + (mode + seq![' '] + value));
            let plan = line_plan(s, line, is_process, reading, ranges);
            let wrong = Err::<StepWork, ErrorKind>(ErrorKind::InvalidArgument);
            let unset = Err::<StepWork, ErrorKind>(ErrorKind::Uninitialized);
            let one = unsigned_of(idx, 10, usize::MAX as nat);
            &&& value_in(line, s.typename is Some) == Some(value)
            &&& mode != "o"@ && mode != "c"@ ==> plan == wrong
            &&& idx != "*"@ && one is Err ==> plan == wrong
            &&& (mode == "o"@ || mode == "c"@) && (idx == "*"@ || one is Ok) ==> {
                &&& s.typename is None ==> plan == unset
                &&& mode == "o"@ && s.matches.len() == 0 ==> plan == unset
                &&& s.typename is Some && (mode == "c"@ || s.matches.len() > 0) ==> match value_bytes(
                    s.typename.unwrap(),
                    value,
                    reading,
                ) {
                    None => plan == wrong,
                    Some(b) => {
                        &&& mode == "o"@ && idx == "*"@ ==> (plan matches Ok(
                            StepWork::Work(Work::Write(w)),
                        ) && w.targets == s.matches && w.data == b && w.written == 0)
                        &&& mode == "c"@ && idx == "*"@ ==> (plan matches Ok(
                            StepWork::KeepWriting(w),
                        ) && w.targets == s.matches && w.data == b && w.written == 0)
                        &&& idx != "*"@ && one.unwrap() >= s.matches.len() ==> plan == wrong
                        &&& mode == "o"@ && idx != "*"@ && one.unwrap() < s.matches.len() ==> (
                        plan matches Ok(StepWork::Work(Work::Write(w))) && w.targets.len() == 1
                            && w.targets[0] == s.matches[one.unwrap() as int] && w.data == b
                            && w.written == 0)
                        &&& mode == "c"@ && idx != "*"@ && one.unwrap() < s.matches.len() ==> (
                        plan matches Ok(StepWork::KeepWriting(w)) && w.targets.len() == 1
                            && w.targets[0] == s.matches[one.unwrap() as int] && w.data == b
                            && w.written == 0)
                    },
                }
            }
        }),
        line_plan(s, cmd + seq![' '] + idx, is_process, reading, ranges) == Err::<
            StepWork,
            ErrorKind,
        >(ErrorKind::InvalidArgument),
        line_plan(
            s,
            cmd + seq![' '] + (idx + seq![' '] + mode),
            is_process,
            reading,
            ranges,
        ) == Err::<StepWork, ErrorKind>(ErrorKind::InvalidArgument),
{
    reveal_strlit("o");
    reveal_strlit("c");
    lemma_verbs_hold_no_space(cmd);
    let rest = mode + seq![' '] + value;
    lemma_line(cmd, idx + seq![' '] + rest);
    lemma_line(cmd, idx);
    lemma_line(cmd, idx + seq![' '] + mode);
    law_split_at_space(idx, rest);
    law_split_at_space(idx, mode);
    law_split_at_space(mode, value);
    lemma_unsigned_range(idx, 10, usize::MAX as nat);
}

/// A line that is no command is a value. With a type selected, the matches are filtered by the
/// whole line; without one, its first word names the type, and memory is scanned for what stands
/// behind it. Neither changes the session before the pass is over.
pub proof fn law_input_lines(
    s: SessionState,
    name: Seq<char>,
    value: Seq<char>,
    is_process: bool,
    reading: FloatReading,
    ranges: Seq<MemoryRange>,
)
    requires
        verb_of(name) is Input,
        forall|i: int| 0 <= i < name.len() ==> #[trigger] name[i] != ' ',
        value.len() > 0,
    ensures
        ({
            let line = name + seq![' '] + value;
            let plan = line_plan(s, line, is_process, reading, ranges);
            let wrong = Err::<StepWork, ErrorKind>(ErrorKind::InvalidArgument);
            &&& line_state(s, line, is_process) == s
            &&& value_in(line, true) == Some(line)
            &&& value_in(line, false) == Some(value)
            &&& s.typename is Some ==> match value_bytes(s.typename.unwrap(), line, reading) {
                Some(b) => plan matches Ok(StepWork::Work(Work::Filter(f))) && f.targets == s.matches
                    && f.data == b && f.replies.len() == 0,
                None => plan == wrong,
            }
            &&& s.typename is None ==> match value_bytes(name, value, reading) {
                Some(b) => plan matches Ok(StepWork::FirstScan(scan, t, len)) && t == name && scan
                    == ScanState::begun(sought(b), ranges) && (kind_of(
                    name,
                ).unwrap().size() matches Some(n) ==> len == n) && (kind_of(
                    name,
                ).unwrap().size() is None && b.len() <= usize::MAX ==> len == b.len()),
                None => plan == wrong,
            }
        }),
        ({
            let plan = line_plan(s, name, is_process, reading, ranges);
            &&& value_in(name, true) == Some(name)
            &&& value_in(name, false) is None
            &&& s.typename is None ==> plan == Err::<StepWork, ErrorKind>(ErrorKind::InvalidArgument)
            &&& s.typename is Some ==> match value_bytes(s.typename.unwrap(), name, reading) {
                Some(b) => plan matches Ok(StepWork::Work(Work::Filter(f))) && f.targets == s.matches
                    && f.data == b && f.replies.len() == 0,
                None => plan == Err::<StepWork, ErrorKind>(ErrorKind::InvalidArgument),
            }
        }),
{
    reveal_strlit(" ");
    lemma_line(name, value);
    law_split_at_space(name, value);
    assert(rejoined(name, value) =~= name + seq![' '] + value);
}

/// The lines that make sense for a process only: the pointer map, the globals of a module or of
/// all, the signatures for an address, and an offset scan with the three numbers and the filter
/// that its words give.
pub proof fn law_process_lines(
    s: SessionState,
    cmd: Seq<char>,
    args: Seq<char>,
    reading: FloatReading,
    ranges: Seq<MemoryRange>,
)
    requires
        is_process_verb(verb_of(cmd)),
    ensures
        ({
            let plan = line_plan(s, cmd + seq![' '] + args, true, reading, ranges);
            let wrong = Err::<StepWork, ErrorKind>(ErrorKind::InvalidArgument);
            let t = trimmed(args);
            let ws = words(args);
            match verb_of(cmd) {
                Verb::PointerMap => plan == Ok::<StepWork, ErrorKind>(
                    StepWork::Work(Work::PointerMap),
                ),
                Verb::Globals => plan == Ok::<StepWork, ErrorKind>(
                    StepWork::Work(
                        Work::Globals(
                            if t.len() > 0 {
                                Some(t)
                            } else {
                                None
                            },
                        ),
                    ),
                ),
                Verb::Sigmaker => match unsigned_of(t, 16, u64::MAX as nat) {
                    Ok(a) => plan == Ok::<StepWork, ErrorKind>(
                        StepWork::Work(Work::Sigmaker(a as u64)),
                    ),
                    Err(_) => plan == wrong,
                },
                _ => {
                    let low = unsigned_of(ws[1], 10, usize::MAX as nat);
                    let high = unsigned_of(ws[2], 10, usize::MAX as nat);
                    let depth = unsigned_of(ws[3], 10, usize::MAX as nat);
                    if ws.len() >= 4 && low is Ok && high is Ok && depth is Ok {
                        plan matches Ok(StepWork::Work(Work::Offset(scan))) && {
                            &&& scan.use_disasm <==> ws[0] == "y"@
                            &&& scan.lrange == low.unwrap()
                            &&& scan.urange == high.unwrap()
                            &&& scan.max_depth == depth.unwrap()
                            &&& ws.len() == 4 ==> scan.filter is None
                            &&& ws.len() > 4 ==> scan.filter == match unsigned_of(
                                ws[4],
                                16,
                                u64::MAX as nat,
                            ) {
                                Ok(a) => Some(a as u64),
                                Err(_) => None,
                            }
                            &&& scan.step is BuildPointerMap <==> s.pointers == 0
                        }
                    } else {
                        plan == wrong
                    }
                },
            }
        }),
        is_process_verb(verb_of(cmd)) <==> cmd == "pointer_map"@ || cmd == "pm"@ || cmd == "globals"@
            || cmd == "g"@ || cmd == "sigmaker"@ || cmd == "s"@ || cmd == "offset_scan"@ || cmd
            == "os"@,
{
    law_verbs(cmd);
    lemma_verbs_hold_no_space(cmd);
    lemma_line(cmd, args);
    let ws = words(args);
    if ws.len() >= 4 {
        lemma_unsigned_range(ws[1], 10, usize::MAX as nat);
        lemma_unsigned_range(ws[2], 10, usize::MAX as nat);
        lemma_unsigned_range(ws[3], 10, usize::MAX as nat);
    }
}

/// The memory is asked for where a signature or a first value is scanned for, and never where a
/// type is selected and no signature is scanned for.
pub proof fn law_ranges_are_needed(s: SessionState, line: Seq<char>, is_process: bool)
    ensures
        scans_memory(s, line, is_process) ==> verb_of(before_space(line)) is Sig || s.typename is None,
        verb_of(before_space(line)) is Sig ==> scans_memory(s, line, is_process),
        s.typename is None && line.len() > 0 && verb_of(before_space(line)) is Input ==> scans_memory(
            s,
            line,
            is_process,
        ),
        is_process_verb(verb_of(before_space(line))) ==> (scans_memory(s, line, is_process) <==>
            !is_process && s.typename is None),
        match verb_of(before_space(line)) {
            Verb::Reset | Verb::Reinterpret | Verb::Add | Verb::Remove | Verb::Print | Verb::Write =>
            !scans_memory(s, line, is_process),
            _ => true,
        },
{
}

/// A result is as planned exactly where it is a step, or a task, about the work, with its scan in
/// good order, or the refusal. A step is about what it holds.
pub proof fn law_steps(
    r: Result<Step, ScanflowError>,
    h: Result<Handled, ScanflowError>,
    plan: Result<StepWork, ErrorKind>,
    task_plan: Result<Work, ErrorKind>,
    step: Step,
)
    ensures
        plan matches Ok(work) ==> (step_as_planned(r, plan) <==> (r matches Ok(x) && x.wf()
            && x.work() == work)),
        plan matches Err(kind) ==> (step_as_planned(r, plan) <==> r == Err::<Step, ScanflowError>(
            ScanflowError::Kind(kind),
        )),
        task_plan matches Ok(work) ==> (handled_as_planned(h, task_plan) <==> (h matches Ok(
            Handled::Continue(t),
        ) && t.wf() && t.work() == work)),
        task_plan matches Err(kind) ==> (handled_as_planned(h, task_plan) <==> h == Err::<
            Handled,
            ScanflowError,
        >(ScanflowError::Kind(kind))),
        match step {
            Step::Task(t) => step.work() == StepWork::Work(t.work()) && (step.wf() <==> t.wf()),
            Step::FirstScan(x) => step.work() == StepWork::FirstScan(x.state(), x.name(), x.len())
                && (step.wf() <==> x.wf()),
            Step::KeepWriting(x) => step.work() == StepWork::KeepWriting(x@),
        },
{
}

/// The prompt ends with the target, and a selected type stands before it in brackets.
pub proof fn law_prompt(s: SessionState, name: Seq<char>)
    ensures
        prompt(SessionState { typename: None, ..s }) == "scanflow@"@ + s.target + " >> "@,
        prompt(SessionState { typename: Some(name), ..s }) == "["@ + name + "] "@ + (
        "scanflow@"@ + s.target + " >> "@),
{
    assert(prompt(SessionState { typename: None, ..s }) =~= "scanflow@"@ + s.target + " >> "@);
    assert(prompt(SessionState { typename: Some(name), ..s }) =~= "["@ + name + "] "@ + (
    "scanflow@"@ + s.target + " >> "@));
}

/// The help of a raw view names each command that it understands. That of a process is the same,
/// with the commands that make sense for a process only behind the others. Further help on a
/// command names the command.
pub proof fn law_help(args: Seq<char>, i: int)
    ensures
        ({
            let view = help_lines(Seq::empty(), false);
            let process = help_lines(Seq::empty(), true);
            &&& view.len() == 16
            &&& process.len() == 20
            &&& 0 <= i < 11 ==> process[i] == view[i]
            &&& 11 <= i < 16 ==> process[i + 4] == view[i]
            &&& view[0] == "Command reference:"@
            &&& view[1] == "quit q              quit the CLI"@
            &&& view[2] == "help h              show this help"@
            &&& view[3] == "help h {cmd}       show longer help for a command"@
            &&& view[4] == "reset r            reset all context state"@
            &&& view[5] == "reinterpret ri {type} [{len}]  reinterpret matches as another type"@
            &&& view[6] == "add a {addr}       manually add an address to matches"@
            &&& view[7] == "remove rm {idx}    remove match by index"@
            &&& view[8] == "print p            print found matches (typed)"@
            &&& view[9] == "write wr {idx/*} {o/c} {value}  write values to matches"@
            &&& view[10] == "sig sg {pattern}  scan memory for a byte pattern (IDA style)"@
            &&& process[11] == "pointer_map pm     build a pointer map"@
            &&& process[12] == "globals g [{module}]  find global variables referenced by code"@
            &&& process[13] == "sigmaker s {addr} find code signatures for an address"@
            &&& process[14] == "offset_scan os {y/n} {lrange} {urange} {max_depth} [{filter}]"@
            &&& view[11] == Seq::<char>::empty()
            &&& view[12] == "Anything not in this list is interpreted as a scan input:"@
            &&& view[13] == "  i64 64         (first scan: type + value)"@
            &&& view[14] == "  42             (subsequent filter call)"@
            &&& view[15]
                == "Available types: str, str_utf16, i8, u8, i16, u16, i32, u32, i64, u64, i128, u128, f32, f64"@
        }),
        forall|is_process: bool|
            args.len() > 0 ==> (#[trigger] help_lines(args, is_process)).len() == 1 && help_lines(
                args,
                is_process,
            )[0] == "(no further help available for `"@ + args + "`)"@,
{
}

} // verus!

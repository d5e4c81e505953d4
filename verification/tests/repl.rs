//! The interactive mode: what lines ask for.

use scanflow::commands::{finish_print, Task};
use scanflow::error::{ErrorKind, ScanflowError};
use scanflow::memory::MemoryRange;
use scanflow::repl::{
    build_prompt, continuous_line, finish_first_scan, handle_builtin, handle_line,
    handle_process_cmd, line_needs_ranges, line_value, print_help, split_cmd, Handled, LineOutcome,
    Step,
};
use scanflow::session::{OffsetStep, Session};
use scanflow::types::FloatReading;

const NO_FLOAT: FloatReading = FloatReading { single: None, double: None };

fn view() -> Session<()> {
    Session::for_view(())
}

fn process() -> Session<()> {
    Session::for_process((), "game".to_string())
}

fn ranges() -> Vec<MemoryRange> {
    vec![MemoryRange { base: 0x100, size: 4 }]
}

fn line(s: &mut Session<()>, text: &str) -> Result<LineOutcome, ScanflowError> {
    handle_line(s, text, false, &NO_FLOAT, ranges())
}

fn step(s: &mut Session<()>, text: &str) -> Step {
    match line(s, text) {
        Ok(LineOutcome::Begin(step)) => step,
        _ => panic!("nothing begins"),
    }
}

fn refused<T>(r: Result<T, ScanflowError>) -> ErrorKind {
    match r {
        Err(ScanflowError::Kind(kind)) => kind,
        _ => panic!("not refused"),
    }
}

#[test]
fn lines_split_at_the_first_space() {
    assert_eq!(split_cmd("i64 4 2"), ("i64".to_string(), "4 2".to_string()));
    assert_eq!(split_cmd("print"), ("print".to_string(), "".to_string()));
    assert_eq!(split_cmd(""), ("".to_string(), "".to_string()));
}

#[test]
fn prompts_show_type_and_target() {
    let mut s = process();
    assert_eq!(build_prompt(&s), "scanflow@game >> ");
    s.set_type("i32", None).unwrap();
    assert_eq!(build_prompt(&s), "[i32] scanflow@game >> ");
    assert_eq!(build_prompt(&view()), "scanflow@view >> ");
}

#[test]
fn help_depends_on_the_target() {
    let process = print_help("", true);
    let view = print_help("", false);
    assert_eq!(process.len(), 20);
    assert_eq!(view.len(), 16);
    assert_eq!(view[0], "Command reference:");
    assert_eq!(view[3], "help h {cmd}       show longer help for a command");
    assert_eq!(view[9], "write wr {idx/*} {o/c} {value}  write values to matches");
    assert_eq!(view[11], "");
    assert_eq!(process[11], "pointer_map pm     build a pointer map");
    assert_eq!(process[14], "offset_scan os {y/n} {lrange} {urange} {max_depth} [{filter}]");
    assert_eq!(
        view[15],
        "Available types: str, str_utf16, i8, u8, i16, u16, i32, u32, i64, u64, i128, u128, f32, f64"
    );
    assert_eq!(print_help("sig", true), vec!["(no further help available for `sig`)"]);
}

#[test]
fn builtins_are_handled() {
    assert!(matches!(handle_builtin("quit", "", false), Handled::Quit));
    assert!(matches!(handle_builtin("q", "", true), Handled::Quit));
    assert!(matches!(handle_builtin("h", "", true), Handled::Help(_)));
    assert!(matches!(handle_builtin("print", "", true), Handled::Fallthrough));
    let mut s = view();
    assert!(matches!(line(&mut s, "  "), Ok(LineOutcome::Skip)));
    assert!(matches!(line(&mut s, " q "), Ok(LineOutcome::Quit)));
    match line(&mut s, "help x") {
        Ok(LineOutcome::Help(lines)) => assert_eq!(lines.len(), 1),
        _ => panic!("no help"),
    }
}

#[test]
fn matches_are_managed_by_lines() {
    let mut s = view();
    step(&mut s, "add 1f");
    step(&mut s, "a  20");
    assert_eq!(s.matches(), &[0x1f, 0x20]);
    assert_eq!(refused(line(&mut s, "add 0x1f")), ErrorKind::InvalidArgument);
    assert_eq!(refused(line(&mut s, "add")), ErrorKind::InvalidArgument);
    step(&mut s, "rm 0");
    assert_eq!(s.matches(), &[0x20]);
    assert_eq!(refused(line(&mut s, "remove 1")), ErrorKind::InvalidArgument);
    assert_eq!(refused(line(&mut s, "remove x")), ErrorKind::InvalidArgument);
    step(&mut s, "ri str 7");
    assert_eq!(s.typename(), Some("str"));
    assert_eq!(refused(line(&mut s, "reinterpret")), ErrorKind::InvalidArgument);
    assert_eq!(refused(line(&mut s, "ri nope")), ErrorKind::InvalidArgument);
    assert_eq!(refused(line(&mut s, "ri str_utf16 x")), ErrorKind::InvalidArgument);
    step(&mut s, "r");
    assert!(s.matches().is_empty());
    assert!(s.typename().is_none());
}

#[test]
fn other_lines_are_scans() {
    let mut s = view();
    assert_eq!(refused(line(&mut s, "u8")), ErrorKind::InvalidArgument);
    assert_eq!(refused(line(&mut s, "u8 x")), ErrorKind::InvalidArgument);
    let mut scan = match step(&mut s, "u8 7") {
        Step::FirstScan(scan) => scan,
        _ => panic!("no first scan"),
    };
    scan.accept(Some(&[7, 0, 0, 7]));
    let mut back = finish_first_scan(&mut s, scan);
    back.accept(Ok(&[7]), "").unwrap();
    back.accept(Ok(&[7]), "").unwrap();
    assert_eq!(
        finish_print(&s, back),
        vec!["Matches found: 2", "100: 7", "103: 7"]
    );
    assert!(matches!(step(&mut s, "7"), Step::Task(Task::Filter(_))));
    assert_eq!(refused(line(&mut s, "u8 7")), ErrorKind::InvalidArgument);
    assert!(matches!(step(&mut s, "p"), Step::Task(Task::Print(_))));
    assert!(matches!(step(&mut s, "sg 07 ?"), Step::Task(Task::Sig(_))));
    assert_eq!(refused(line(&mut s, "sig")), ErrorKind::InvalidArgument);
}

#[test]
fn writes_have_a_mode() {
    let mut s = view();
    step(&mut s, "add 30");
    step(&mut s, "add 40");
    assert_eq!(refused(line(&mut s, "write * o 1")), ErrorKind::Uninitialized);
    step(&mut s, "ri u8");
    match step(&mut s, "write * o 1") {
        Step::Task(Task::Write(job)) => assert_eq!(job.next_write(), Some((0x30, &[1u8][..]))),
        _ => panic!("no write"),
    }
    match step(&mut s, "wr 1 c 2") {
        Step::KeepWriting(job) => assert_eq!(job.into_parts(), (vec![0x40], vec![2])),
        _ => panic!("no repeated write"),
    }
    for bad in ["write", "write *", "write * o", "write x o 1", "write 2 o 1", "write * z 1"] {
        assert_eq!(refused(line(&mut s, bad)), ErrorKind::InvalidArgument);
    }
    step(&mut s, "r");
    assert_eq!(refused(line(&mut s, "write * c 1")), ErrorKind::Uninitialized);
    step(&mut s, "ri u8");
    assert_eq!(refused(line(&mut s, "write * o 1")), ErrorKind::Uninitialized);
    assert!(matches!(step(&mut s, "write * c 1"), Step::KeepWriting(_)));
    assert_eq!(
        continuous_line(2),
        "Continuous write to 2 address(es). Press Enter to stop..."
    );
}

#[test]
fn process_commands_need_a_process() {
    let s = process();
    let go = |cmd: &str, args: &str| handle_process_cmd(&s, cmd, args);
    assert!(matches!(go("pm", ""), Ok(Handled::Continue(Task::PointerMap))));
    assert!(matches!(go("g", " "), Ok(Handled::Continue(Task::Globals(None)))));
    match go("globals", " a.dll ") {
        Ok(Handled::Continue(Task::Globals(Some(m)))) => assert_eq!(m, "a.dll"),
        _ => panic!("no globals"),
    }
    assert!(matches!(go("s", "ff"), Ok(Handled::Continue(Task::Sigmaker(0xff)))));
    assert_eq!(refused(go("sigmaker", "")), ErrorKind::InvalidArgument);
    match go("os", "y 1 2 3 ff") {
        Ok(Handled::Continue(Task::Offset(scan))) => {
            assert!(scan.use_disasm);
            assert_eq!((scan.lrange, scan.urange, scan.max_depth), (1, 2, 3));
            assert_eq!(scan.filter, Some(0xff));
            assert_eq!(scan.step, OffsetStep::BuildPointerMap);
        }
        _ => panic!("no offset scan"),
    }
    match go("offset_scan", "n 1 2 3 zz") {
        Ok(Handled::Continue(Task::Offset(scan))) => {
            assert!(!scan.use_disasm);
            assert_eq!(scan.filter, None);
        }
        _ => panic!("no offset scan"),
    }
    assert_eq!(refused(go("os", "y 1 2")), ErrorKind::InvalidArgument);
    assert_eq!(refused(go("os", "y 1 x 3")), ErrorKind::InvalidArgument);
    assert!(matches!(go("print", ""), Ok(Handled::Fallthrough)));
    assert!(matches!(go("q", ""), Ok(Handled::Quit)));

    let mut s = process();
    let outcome = handle_line(&mut s, "pm", true, &NO_FLOAT, ranges());
    assert!(matches!(
        outcome,
        Ok(LineOutcome::Begin(Step::Task(Task::PointerMap)))
    ));
    // A raw view takes the word as a value to scan for.
    assert_eq!(refused(line(&mut view(), "pm")), ErrorKind::InvalidArgument);
}

#[test]
fn the_value_in_a_line_is_found() {
    let mut s = view();
    assert_eq!(line_value(&s, " f32 1.5 "), Some("1.5".to_string()));
    assert_eq!(line_value(&s, "f32"), None);
    assert_eq!(line_value(&s, "write * o 2.5"), Some("2.5".to_string()));
    assert_eq!(line_value(&s, "wr *"), None);
    s.set_type("f32", None).unwrap();
    assert_eq!(line_value(&s, "1.5"), Some("1.5".to_string()));
    let bits = FloatReading { single: Some(1.5f32.to_bits()), double: None };
    s.add_match(1);
    let outcome = handle_line(&mut s, "1.5", false, &bits, vec![]);
    assert!(matches!(
        outcome,
        Ok(LineOutcome::Begin(Step::Task(Task::Filter(_))))
    ));
}

#[test]
fn only_scans_need_the_memory() {
    let mut s = process();
    for (text, needed) in [
        ("", false),
        ("q", false),
        ("help", false),
        ("reset", false),
        ("p", false),
        ("write 0 o 1", false),
        ("sig 01", true),
        ("u8 1", true),
    ] {
        assert_eq!(line_needs_ranges(&s, text, true), needed, "{}", text);
    }
    assert!(!line_needs_ranges(&s, "pm", true));
    assert!(line_needs_ranges(&s, "pm", false));
    s.set_type("u8", None).unwrap();
    assert!(!line_needs_ranges(&s, "1", true));
    assert!(!line_needs_ranges(&s, "pm", false));
    assert!(line_needs_ranges(&s, " sg 01 ", true));
}

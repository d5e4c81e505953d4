//! The command line: addresses, levels, commands, and what is printed.

use scanflow::chain::{
    build_chain, build_connector_chain, build_os_chain, entries_fit, fall_back, Chain,
};
use scanflow::cli::{log_level, parse_address, parse_address_optional, Cli, Command, Level};
use scanflow::commands::{
    dispatch_process, dispatch_view, finish_filter, finish_globals, finish_offset,
    finish_pointer_map, finish_print, finish_scan, finish_sig, finish_sigmaker, finish_write,
    needs_ranges, Task,
};
use scanflow::error::{ErrorKind, ScanflowError};
use scanflow::memory::MemoryRange;
use scanflow::render::{
    hexdump_fits, print_hexdump, print_match_displays, print_modules, print_offset_matches,
    print_scan_result,
};
use scanflow::session::{OffsetStep, Session};
use scanflow::start::{
    chosen_command, escalate_if_needed, exit_after_rerun, history_path, Elevation, History,
};
use scanflow::types::{FloatReading, MatchDisplay, ModuleInfo, OffsetMatch, ScanResult};

const NO_FLOAT: FloatReading = FloatReading { single: None, double: None };

fn refused<T>(r: Result<T, ScanflowError>, kind: ErrorKind) -> bool {
    matches!(r, Err(ScanflowError::Kind(k)) if k == kind)
}

fn ranges(size: u64) -> Vec<MemoryRange> {
    vec![MemoryRange { base: 0x100, size }]
}

#[test]
fn addresses_are_hexadecimal_or_else_decimal() {
    assert_eq!(parse_address("0x7ff12345"), Ok(0x7ff12345));
    assert_eq!(parse_address(" 7FF12345 "), Ok(0x7ff12345));
    assert_eq!(parse_address("10"), Ok(0x10));
    assert_eq!(parse_address("0x0xff"), Ok(0xff));
    assert_eq!(parse_address("ffffffffffffffff"), Ok(u64::MAX));
    // Too many hexadecimal digits, but a decimal number that fits.
    assert_eq!(parse_address("18446744073709551615"), Ok(u64::MAX));
    assert_eq!(
        parse_address("xyz"),
        Err("invalid address `xyz`: invalid digit found in string".to_string())
    );
    assert_eq!(
        parse_address(""),
        Err("invalid address ``: cannot parse integer from empty string".to_string())
    );
    assert_eq!(
        parse_address("99999999999999999999"),
        Err("invalid address `99999999999999999999`: number too large to fit in target type"
            .to_string())
    );
    assert_eq!(parse_address_optional(""), Ok(None));
    assert_eq!(parse_address_optional("20"), Ok(Some(0x20)));
    assert!(parse_address_optional(" ").is_err());
}

#[test]
fn levels_follow_the_flags() {
    assert_eq!(log_level(0), Level::Error);
    assert_eq!(log_level(1), Level::Error);
    assert_eq!(log_level(2), Level::Warn);
    assert_eq!(log_level(3), Level::Info);
    assert_eq!(log_level(4), Level::Debug);
    assert_eq!(log_level(5), Level::Trace);
    assert_eq!(log_level(255), Level::Trace);
}

#[test]
fn scan_results_are_cut_short() {
    let few = ScanResult { matches: vec![0x10, 0xabc], is_initial_scan: true };
    assert_eq!(print_scan_result(&few, 16), vec!["Matches found: 2", "10", "abc"]);
    let many = ScanResult { matches: vec![1, 2, 3], is_initial_scan: true };
    assert_eq!(
        print_scan_result(&many, 2),
        vec!["Matches found: 3", "Printing first 2 of 3", "1", "2"]
    );
}

#[test]
fn rows_are_cut_short() {
    let row = |i: u64| MatchDisplay { address: i, value: format!("v{}", i) };
    let rows: Vec<MatchDisplay> = (0..3).map(row).collect();
    assert_eq!(
        print_match_displays(&rows, 3),
        vec!["Matches found: 3", "0: v0", "1: v1", "2: v2"]
    );
    let rows: Vec<MatchDisplay> = (0..20).map(row).collect();
    let lines = print_match_displays(&rows, 20);
    assert_eq!(lines.len(), 18);
    assert_eq!(lines[1], "Printing first 16");
    assert_eq!(lines[17], "f: v15");
}

#[test]
fn chains_are_printed_with_their_links() {
    let matches = vec![
        OffsetMatch { target: 0x99, chain: vec![(0x10, 8), (0x20, -16)] },
        OffsetMatch { target: 0x5, chain: vec![] },
    ];
    assert_eq!(
        print_offset_matches(&matches, 1),
        vec![
            "Matches found: 2",
            "Printing first 1 of 2",
            "10 + (8) => 20 + (-16) => 99"
        ]
    );
    assert_eq!(print_offset_matches(&matches, 5)[2], "5");
}

#[test]
fn hexdumps_have_lines() {
    assert_eq!(
        print_hexdump(0x1000, &[0, 1, 0xAB], 2),
        vec!["1000: 00 01 ", "1002: ab "]
    );
    let data: Vec<u8> = (0..17).collect();
    let lines = print_hexdump(0xfff0, &data, 0);
    assert_eq!(lines.len(), 2);
    assert_eq!(lines[0], "fff0: 00 01 02 03 04 05 06 07 08 09 0a 0b 0c 0d 0e 0f ");
    assert_eq!(lines[1], "10000: 10 ");
    assert!(print_hexdump(5, &[], 16).is_empty());
    assert!(hexdump_fits(u64::MAX, 16, 16));
    assert!(!hexdump_fits(u64::MAX, 17, 16));
    assert!(hexdump_fits(u64::MAX - 16, 17, 0));
    assert!(hexdump_fits(u64::MAX, 0, 1));
    assert_eq!(print_hexdump(u64::MAX, &[1, 2], 16), vec!["ffffffffffffffff: 01 02 "]);
}

#[test]
fn modules_are_tabbed() {
    let m = ModuleInfo { name: "a.dll".to_string(), base: 0x400000, size: 0x1000 };
    assert_eq!(print_modules(&vec![m]), vec!["400000\t1000\ta.dll"]);
}

#[test]
fn a_scan_command_begins_a_scan() {
    let mut s = Session::for_process((), "p".to_string());
    let sub = Command::Scan { typename: "u8".to_string(), value: "3".to_string() };
    assert!(needs_ranges(&sub));
    let task = dispatch_process(&mut s, sub, &NO_FLOAT, ranges(3)).unwrap();
    let mut scan = match task {
        Task::Scan(scan) => scan,
        _ => panic!("no scan"),
    };
    let q = scan.next_read().unwrap();
    assert_eq!((q.addr, q.len), (0x100, 3));
    scan.accept(Some(&[3, 0, 3]));
    assert_eq!(finish_scan(&mut s, scan), vec!["Matches found: 2", "100", "102"]);
    assert_eq!(s.typename(), Some("u8"));

    let sub = Command::Filter { value: "4".to_string() };
    assert!(!needs_ranges(&sub));
    let mut scan = match dispatch_view(&mut s, sub, &NO_FLOAT, vec![]).unwrap() {
        Task::Filter(scan) => scan,
        _ => panic!("no filter"),
    };
    scan.accept(Some(&[4]));
    scan.accept(Some(&[3]));
    assert_eq!(finish_filter(&mut s, scan), vec!["Matches found: 1", "100"]);

    let mut back = match dispatch_view(&mut s, Command::Print, &NO_FLOAT, vec![]).unwrap() {
        Task::Print(back) => back,
        _ => panic!("no rows"),
    };
    back.accept(Ok(&[4]), "").unwrap();
    assert_eq!(finish_print(&s, back), vec!["Matches found: 1", "100: 4"]);

    let sub = Command::Write { idx: None, all: true, value: "9".to_string() };
    let job = match dispatch_process(&mut s, sub, &NO_FLOAT, vec![]).unwrap() {
        Task::Write(job) => job,
        _ => panic!("no write"),
    };
    assert_eq!(job.next_write(), Some((0x100, &[9u8][..])));

    assert!(matches!(
        dispatch_process(&mut s, Command::Reset, &NO_FLOAT, vec![]),
        Ok(Task::Done)
    ));
    assert!(s.matches().is_empty());
    assert!(s.typename().is_none());
}

#[test]
fn a_signature_command_begins_a_scan() {
    let mut s = Session::for_view(());
    s.set_type("u8", None).unwrap();
    let sub = Command::Sig { pattern: "01 ?".to_string() };
    let mut scan = match dispatch_view(&mut s, sub, &NO_FLOAT, ranges(3)).unwrap() {
        Task::Sig(scan) => scan,
        _ => panic!("no scan"),
    };
    scan.accept(Some(&[1, 2, 1]));
    assert_eq!(
        finish_sig(&mut s, scan, "0.25"),
        vec!["Found 1 matches in 0.25ms", "Matches found: 1", "100"]
    );
    assert!(s.typename().is_none());
}

#[test]
fn commands_are_refused() {
    let mut s = Session::for_view(());
    let invalid = ErrorKind::InvalidArgument;
    let write = Command::Write { idx: None, all: false, value: "1".to_string() };
    assert!(refused(dispatch_view(&mut s, write, &NO_FLOAT, vec![]), invalid));
    let write = Command::Write { idx: Some(0), all: false, value: "1".to_string() };
    assert!(refused(
        dispatch_view(&mut s, write, &NO_FLOAT, vec![]),
        ErrorKind::Uninitialized
    ));
    assert!(refused(
        dispatch_view(&mut s, Command::Print, &NO_FLOAT, vec![]),
        ErrorKind::Uninitialized
    ));
    let sig = Command::Sig { pattern: "".to_string() };
    assert!(refused(dispatch_view(&mut s, sig, &NO_FLOAT, vec![]), invalid));
    assert!(refused(dispatch_view(&mut s, Command::Modules, &NO_FLOAT, vec![]), invalid));
    assert!(refused(dispatch_view(&mut s, Command::PointerMap, &NO_FLOAT, vec![]), invalid));
    let globals = Command::Globals { module: None };
    assert!(refused(dispatch_view(&mut s, globals, &NO_FLOAT, vec![]), invalid));
    let sigmaker = Command::Sigmaker { addr: 1 };
    assert!(refused(dispatch_view(&mut s, sigmaker, &NO_FLOAT, vec![]), invalid));
    let offset = Command::OffsetScan {
        use_disasm: false,
        lrange: 0,
        urange: 0,
        max_depth: 0,
        filter: None,
    };
    assert!(refused(dispatch_view(&mut s, offset, &NO_FLOAT, vec![]), invalid));
}

#[test]
fn process_commands_ask_for_their_work() {
    let mut s = Session::for_process((), "p".to_string());
    assert!(matches!(
        dispatch_process(&mut s, Command::Modules, &NO_FLOAT, vec![]),
        Ok(Task::Modules)
    ));
    assert!(matches!(
        dispatch_process(&mut s, Command::PointerMap, &NO_FLOAT, vec![]),
        Ok(Task::PointerMap)
    ));
    let globals = Command::Globals { module: Some("m".to_string()) };
    match dispatch_process(&mut s, globals, &NO_FLOAT, vec![]).unwrap() {
        Task::Globals(Some(m)) => assert_eq!(m, "m"),
        _ => panic!("no globals"),
    }
    assert!(matches!(
        dispatch_process(&mut s, Command::Sigmaker { addr: 7 }, &NO_FLOAT, vec![]),
        Ok(Task::Sigmaker(7))
    ));
    let read = Command::Read { addr: 9, len: 64 };
    match dispatch_process(&mut s, read, &NO_FLOAT, vec![]).unwrap() {
        Task::Read(q) => assert_eq!((q.addr, q.len), (9, 64)),
        _ => panic!("no read"),
    }
    let offset = Command::OffsetScan {
        use_disasm: true,
        lrange: 1,
        urange: 2,
        max_depth: 3,
        filter: Some(4),
    };
    match dispatch_process(&mut s, offset, &NO_FLOAT, vec![]).unwrap() {
        Task::Offset(scan) => {
            assert_eq!(scan.step, OffsetStep::BuildPointerMap);
            assert_eq!((scan.lrange, scan.urange, scan.max_depth), (1, 2, 3));
            assert_eq!((scan.use_disasm, scan.filter), (true, Some(4)));
        }
        _ => panic!("no offset scan"),
    }
}

#[test]
fn work_that_is_done_is_reported() {
    assert_eq!(finish_write(0), "Write done (0 locations)");
    assert_eq!(finish_write(1), "Write done (1 location)");
    assert_eq!(finish_write(2), "Write done (2 locations)");
    assert_eq!(finish_pointer_map("1.50"), "Pointer map built in 1.50ms");
    assert_eq!(finish_globals(255, "2.00"), "Global variable references found: ff in 2.00ms");
    assert_eq!(
        finish_sigmaker(vec!["AA ?".to_string()]),
        vec!["Found signatures:", "AA ?"]
    );
    let matches = vec![OffsetMatch { target: 1, chain: vec![(2, 3)] }];
    assert_eq!(
        finish_offset(&matches, "9.99"),
        vec!["Matches found: 1 in 9.99ms", "Matches found: 1", "2 + (3) => 1"]
    );
}

#[test]
fn the_program_starts() {
    let cli = |elevate: bool| Cli {
        verbose: 0,
        connector: vec![],
        os: vec![],
        elevate,
        program: None,
        pid: None,
        history_file: None,
        subcommand: None,
    };
    assert_eq!(escalate_if_needed(&cli(true), false, true), Elevation::Rerun);
    assert_eq!(escalate_if_needed(&cli(false), false, true), Elevation::Stay);
    assert_eq!(escalate_if_needed(&cli(true), true, true), Elevation::Stay);
    assert_eq!(escalate_if_needed(&cli(true), false, false), Elevation::Stay);
    assert_eq!(exit_after_rerun(Ok(Some(0))).code, 0);
    assert_eq!(exit_after_rerun(Ok(Some(3))).code, 3);
    assert_eq!(exit_after_rerun(Ok(None)).code, 1);
    let exit = exit_after_rerun(Err("none".to_string()));
    assert_eq!(exit.code, 1);
    assert_eq!(exit.message.unwrap(), "failed to re-exec via sudo: none");

    assert!(matches!(chosen_command(None), Command::Repl));
    assert!(matches!(chosen_command(Some(Command::Print)), Command::Print));
    let home = || Some("/home/me".to_string());
    match history_path(Some("f".to_string()), home()) {
        History::File(f) => assert_eq!(f, "f"),
        _ => panic!("not the file"),
    }
    match history_path(None, home()) {
        History::Default(dir) => assert_eq!(dir, "/home/me"),
        _ => panic!("not the home directory"),
    }
    match history_path(None, None) {
        History::Default(dir) => assert_eq!(dir, "."),
        _ => panic!("not the current directory"),
    }
}

fn entries(list: &[&str]) -> Vec<String> {
    list.iter().map(|s| s.to_string()).collect()
}

#[test]
fn chains_take_connectors_and_systems_in_turns() {
    let none = entries(&[]);
    let one = entries(&["a"]);
    let two = entries(&["a", "b"]);
    assert!(build_os_chain(&one, &one).is_ok());
    assert!(build_os_chain(&none, &one).is_ok());
    assert!(build_os_chain(&two, &two).is_ok());
    assert!(build_connector_chain(&one, &none).is_ok());
    assert!(build_connector_chain(&two, &one).is_ok());
    assert!(matches!(build_chain(&one, &one), Ok(Chain::Os(_))));
    assert!(matches!(build_chain(&two, &one), Ok(Chain::Connector(_))));

    let words = |r: Result<(), ScanflowError>| match r {
        Err(ScanflowError::Memory(text)) => text,
        _ => panic!("no error"),
    };
    let no_chain = "other: the argument could not be validated";
    assert_eq!(words(build_os_chain(&one, &none).map(|_| ())), no_chain);
    assert_eq!(words(build_os_chain(&one, &two).map(|_| ())), no_chain);
    assert_eq!(words(build_connector_chain(&one, &one).map(|_| ())), no_chain);
    assert_eq!(words(build_connector_chain(&none, &none).map(|_| ())), no_chain);
    assert_eq!(words(build_chain(&none, &none).map(|_| ())), no_chain);
    assert_eq!(words(build_chain(&none, &two).map(|_| ())), no_chain);
    assert_eq!(words(build_chain(&two, &none).map(|_| ())), no_chain);
    let refused = Err(ScanflowError::Memory("b".to_string()));
    assert_eq!(words(fall_back::<u8, u8>(refused).map(|_| ())), "b");
    assert!(matches!(fall_back::<u8, u8>(Ok(2)), Ok(Chain::Connector(2))));
}

#[test]
fn chain_entries_have_arguments() {
    let none = entries(&[]);
    let sized = entries(&["kvm:5::cache_size=10kb,cache_time=10"]);
    assert!(entries_fit(&sized));
    assert!(matches!(build_chain(&sized, &none), Ok(Chain::Connector(_))));
    let unread = entries(&["kvm:5::cache_size=zkb"]);
    assert!(entries_fit(&unread));
    assert!(build_chain(&unread, &none).is_err());

    let fits = |entry: &str| entries_fit(&entries(&["qemu", entry]));
    assert!(fits("kvm:5::cache_size=400000000000k"));
    assert!(!fits("kvm:5::cache_size=ffffffffffffffffk"));
    assert!(!fits("kvm:5::cache_size=ffffffffffffffffkbkb"));
    assert!(!fits("kvm:5::cache_size='+ffffffffffg'"));
    // Only the settings are read for a cache size, and of several the last counts.
    assert!(fits("cache_size=ffffffffffffffffk"));
    assert!(fits("kvm:cache_size=ffffffffffffffffk"));
    assert!(fits("kvm:5:cache_size=ffffffffffffffffk:cache_time=1"));
    assert!(fits("kvm:'a':cache_size=ffffffffffffffffk"));
    assert!(fits("kvm:5:::cache_size=ffffffffffffffffk"));
    assert!(fits("kvm:5::cache_size=ffffffffffffffffk,cache_size=1k"));
    assert!(!fits("kvm:5::cache_size=1k,cache_size=ffffffffffffffffk"));
    assert!(fits("kvm:5::xcache_size=ffffffffffffffffk"));
    // What cannot be read is refused when it is read.
    for unread in ["fffffffffffffffffk", "ffffffffffffffffkz", "ffffffffffffffffK"] {
        let entry = entries(&[&format!("kvm:5::cache_size={}", unread)]);
        assert!(entries_fit(&entry));
        assert!(build_chain(&entry, &none).is_err());
    }
    let last = entries(&["kvm:5::cache_size=ffffffffffffffffk,cache_size=1k"]);
    assert!(matches!(build_chain(&last, &none), Ok(Chain::Connector(_))));
    // With quotes, separators between them do not separate.
    assert!(!fits("kvm:5::cache_time=1,'cache_size'=ffffffffffffffffk"));
    assert!(fits("kvm:5::'cache_size'=ffffffffffffffffk,cache_size=1k"));
    // The outermost quotes go first, and what they leave has no key any more.
    let bare = entries(&["kvm:5::'cache_size'='ffffffffffffffffk'"]);
    assert!(entries_fit(&bare));
    assert!(build_connector_chain(&bare, &none).is_ok());
    assert!(fits("kvm:'a':::cache_size=ffffffffffffffffk"));
    assert!(fits("kvm:'a'::xcache_size=ffffffffffffffffk"));
    assert!(fits("kvm:'a:b:c:cache_size=ffffffffffffffffk'"));
    assert!(!fits("kvm:'a:b'::cache_size=ffffffffffffffffk"));
    assert!(!fits("kvm:5::'cache_size=ffffffffffffffffk'"));
    assert!(!fits("kvm:5::\"'cache_size'=ffffffffffffffffk\""));
    let quoted = entries(&["kvm:'a:b':'c':'cache_size'=10kb,cache_time=1"]);
    assert!(matches!(build_chain(&quoted, &none), Ok(Chain::Connector(_))));
    let unread = entries(&["kvm:'a:b':'c':cache_time=1,'cache_size'=zkb"]);
    assert!(entries_fit(&unread));
    assert!(build_chain(&unread, &none).is_err());
    // A NUL among the settings cuts keys and values.
    assert!(!fits("a:::cache_size\0=FFFFFFFFFFFFFFFFk"));
    assert!(!fits("a:::cache_size\0=FFFFFFFFFFFFFFFFk\0,cache_size=1k"));
    assert!(fits("a:::cache_size\0=FFFFFFFFFFFFFFFFk,cache_size\0=1k"));
    assert!(fits("a:::cache_size=1k,cache_size\0=z"));
    assert!(fits("a:::cache_size=1k\0"));
    assert!(build_connector_chain(&entries(&["a:::cache_size=1k\0"]), &none).is_ok());
    assert!(fits("a\0:b\0:c\0"));
    assert!(build_connector_chain(&entries(&["a\0:b\0:c\0"]), &none).is_ok());
}

#[test]
fn connectors_and_systems_are_told_apart() {
    // An operating system has no settings, so what no connector takes is no matter there.
    let plain = entries(&["a"]);
    let unread = entries(&["b:5::cache_size=zkb"]);
    assert!(build_os_chain(&plain, &unread).is_ok());
    assert!(build_os_chain(&unread, &plain).is_err());
    assert!(matches!(build_chain(&plain, &unread), Ok(Chain::Os(_))));
    assert!(build_chain(&unread, &plain).is_err());
    let two = entries(&["a", "c"]);
    assert!(build_connector_chain(&two, &unread).is_ok());
}

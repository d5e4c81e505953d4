//! The session manager and the tools.

use scanflow::error::{ErrorKind, ScanflowError};
use scanflow::memory::MemoryRange;
use scanflow::server::{
    attach_process_reply, filter_value_reply, get_matches_reply, list_modules_reply, mcp_err,
    offset_scan_reply, parse_addr, parse_hex_bytes, read_memory_reply, scan_value_reply,
    sig_scan_reply, sigmaker_reply, write_memory_reply, AddrSessionArgs, AttachProcessArgs,
    CollectGlobalsArgs, ErrorCode, FilterValueArgs, GetMatchesArgs, OffsetScanArgs,
    ReadMemoryArgs, ScanValueArgs, ScanflowServer, SessionIdArg, SetTypeArgs, SigScanArgs,
    ToolError, WriteMemoryArgs,
};
use scanflow::session::{OffsetStep, Session};
use scanflow::session_mgr::{
    attach_target, pick_process, AnySession, AttachOutcome, AttachPick, AttachStep, ProcessInfo,
    SessionManager,
};
use scanflow::types::{FloatReading, ModuleInfo, OffsetMatch};

const NO_FLOAT: FloatReading = FloatReading { single: None, double: None };

type Manager = SessionManager<u8, u16>;

type Server = ScanflowServer<u8, u16>;

fn one_process() -> (Server, String) {
    let mut srv = Server::new();
    let id = match srv.attach_opened(1, "game".to_string()) {
        AttachOutcome::Session(id) => id,
        _ => panic!("no session"),
    };
    (srv, id)
}

fn one_view() -> (Server, String) {
    let mut srv = Server::new();
    let reply = srv.attach_view(2);
    assert_eq!(reply.kind, "view");
    (srv, reply.session_id)
}

fn error<T>(r: Result<T, ToolError>) -> (ErrorCode, String) {
    match r {
        Err(e) => (e.code, e.message),
        Ok(_) => panic!("no error"),
    }
}

fn missing() -> (ErrorCode, String) {
    (ErrorCode::ResourceNotFound, "session `x` not found".to_string())
}

fn invalid() -> (ErrorCode, String) {
    (ErrorCode::InternalError, "other: invalid argument passed".to_string())
}

fn no_process() -> (ErrorCode, String) {
    (ErrorCode::InvalidParams, "other: invalid argument passed".to_string())
}

fn info(pid: u32, name: &str) -> ProcessInfo {
    ProcessInfo { pid, name: name.to_string(), state: "Alive".to_string() }
}

fn text(s: &str) -> String {
    s.to_string()
}

#[test]
fn ids_are_random_uuids() {
    let mut mgr = Manager::new();
    let a = mgr.attach_view(1);
    let b = mgr.attach_view(1);
    assert_ne!(a, b);
    let parts: Vec<&str> = a.split('-').collect();
    let lens: Vec<usize> = parts.iter().map(|p| p.len()).collect();
    assert_eq!(lens, vec![8, 4, 4, 4, 12]);
    assert!(parts[2].starts_with('4'));
    assert!(a.chars().all(|c| c == '-' || c.is_ascii_digit() || ('a'..='f').contains(&c)));
}

#[test]
fn sessions_are_kept_until_dropped() {
    let mut mgr = Manager::new();
    assert!(mgr.get("a").is_none());
    mgr.store_as(text("a"), AnySession::Process(Session::for_process(1, text("p"))));
    mgr.store_as(text("b"), AnySession::View(Session::for_view(2)));
    assert!(mgr.get("a").unwrap().is_process());
    assert_eq!(mgr.get("b").unwrap().target_name(), "view");
    mgr.get_mut("a").unwrap().set_type("u8", None).unwrap();
    assert_eq!(mgr.get("a").unwrap().typename(), Some(text("u8")));
    assert_eq!(mgr.get("b").unwrap().typename(), None);
    // The same id again takes the place of the session before.
    mgr.store_as(text("a"), AnySession::View(Session::for_view(3)));
    assert!(!mgr.get("a").unwrap().is_process());
    assert!(mgr.get_mut("c").is_none());
    let mut list = mgr.list();
    list.sort_by(|x, y| x.id.cmp(&y.id));
    let shown: Vec<(String, String, String)> =
        list.into_iter().map(|i| (i.id, i.kind, i.target)).collect();
    assert_eq!(
        shown,
        vec![
            (text("a"), text("view"), text("view")),
            (text("b"), text("view"), text("view"))
        ]
    );
    assert!(mgr.detach("a"));
    assert!(mgr.get("a").is_none());
    assert!(mgr.get("b").is_some());
    assert!(!mgr.detach("a"));
    assert_eq!(mgr.list().len(), 1);
    // What is kept later does not disturb what stayed.
    mgr.store_as(text("d"), AnySession::Process(Session::for_process(4, text("q"))));
    mgr.store_as(text("e"), AnySession::Process(Session::for_process(5, text("r"))));
    mgr.store_as(text("f"), AnySession::Process(Session::for_process(6, text("s"))));
    assert_eq!(mgr.get("b").unwrap().target_name(), "view");
    assert_eq!(mgr.get("d").unwrap().target_name(), "q");
    assert_eq!(mgr.get("e").unwrap().target_name(), "r");
    assert_eq!(mgr.get("f").unwrap().target_name(), "s");
}

#[test]
fn processes_are_listed_with_kind_and_target() {
    let (mut srv, id) = one_process();
    let list = srv.list_sessions();
    assert_eq!(list.len(), 1);
    assert_eq!(list[0].id, id);
    assert_eq!(list[0].kind, "process");
    assert_eq!(list[0].target, "game");
    let reply = srv.detach_session(SessionIdArg { session_id: id.clone() });
    assert_eq!((reply.detached, reply.session_id.as_str()), (true, id.as_str()));
    assert!(!srv.detach_session(SessionIdArg { session_id: id }).detached);
    assert!(srv.list_sessions().is_empty());
}

#[test]
fn a_number_takes_precedence_over_a_name() {
    assert!(matches!(attach_target(Some(text("a")), Some(7)), AttachStep::OpenPid(7)));
    assert!(matches!(attach_target(None, Some(7)), AttachStep::OpenPid(7)));
    match attach_target(Some(text("a")), None) {
        AttachStep::ListProcesses(name) => assert_eq!(name, "a"),
        _ => panic!("no list"),
    }
    assert!(matches!(
        attach_target(None, None),
        AttachStep::Done(AttachOutcome::NoTarget)
    ));
    let args = |program: Option<&str>, pid| AttachProcessArgs {
        connectors: vec![],
        os: vec![],
        program: program.map(text),
        pid,
    };
    let srv = Server::new();
    assert!(matches!(srv.attach_process(&args(Some("a"), Some(3))), AttachStep::OpenPid(3)));
    match srv.attach_process(&args(Some("a"), None)) {
        AttachStep::ListProcesses(name) => assert_eq!(name, "a"),
        _ => panic!("no list"),
    }
    assert!(matches!(srv.attach_process(&args(None, None)), AttachStep::Done(_)));
}

#[test]
fn only_a_unique_name_is_opened() {
    let list = vec![info(1, "a"), info(2, "b"), info(3, "a")];
    match pick_process(text("b"), list.clone()) {
        AttachPick::Open(p) => assert_eq!(p.pid, 2),
        _ => panic!("not opened"),
    }
    match pick_process(text("c"), list.clone()) {
        AttachPick::Done(outcome) => assert_eq!(
            error(attach_process_reply(outcome, None)),
            (ErrorCode::ResourceNotFound, text("no process named `c` is running"))
        ),
        _ => panic!("opened"),
    }
    match pick_process(text("a"), list) {
        AttachPick::Done(outcome) => assert_eq!(
            error(attach_process_reply(outcome, None)),
            (
                ErrorCode::InvalidParams,
                text("2 processes are named `a`; re-call attach_process with `pid` to pick one. Candidates: pid=1 name=a state=Alive; pid=3 name=a state=Alive")
            )
        ),
        _ => panic!("opened"),
    }
}

#[test]
fn attaching_is_answered() {
    let outcome = AttachOutcome::Session(text("i"));
    let reply = attach_process_reply(outcome, Some(text("game"))).unwrap();
    assert_eq!((reply.session_id, reply.kind), (text("i"), text("process")));
    assert_eq!(reply.program, Some(text("game")));
    assert_eq!(
        error(attach_process_reply(AttachOutcome::NoTarget, None)),
        (ErrorCode::InvalidParams, text("attach_process requires `program` or `pid`"))
    );
    let listed = Manager::new().list_processes(Ok(vec![info(1, "a")])).unwrap();
    assert_eq!(listed[0].pid, 1);
    assert!(Manager::default().list_processes(Err(text("no"))).is_err());
}

#[test]
fn addresses_are_hexadecimal() {
    assert_eq!(parse_addr(" 0x10 ").unwrap(), 16);
    assert_eq!(parse_addr("ff").unwrap(), 255);
    assert_eq!(
        error(parse_addr("0xzz")),
        (ErrorCode::InvalidParams, text("invalid address `zz`: invalid digit found in string"))
    );
    assert_eq!(
        error(parse_addr("18446744073709551616")),
        (
            ErrorCode::InvalidParams,
            text("invalid address `18446744073709551616`: number too large to fit in target type")
        )
    );
}

#[test]
fn bytes_are_hexadecimal() {
    assert_eq!(parse_hex_bytes("4D 5A").unwrap(), vec![0x4D, 0x5A]);
    assert_eq!(parse_hex_bytes("0x4d5a").unwrap(), vec![0x4D, 0x5A]);
    assert_eq!(parse_hex_bytes("0 x4 d").unwrap(), vec![0x4D]);
    assert_eq!(parse_hex_bytes("").unwrap(), Vec::<u8>::new());
    assert_eq!(
        error(parse_hex_bytes("4D5")),
        (ErrorCode::InvalidParams, text("hex byte string has odd length"))
    );
    assert_eq!(
        error(parse_hex_bytes("4D5g")),
        (
            ErrorCode::InvalidParams,
            text("invalid hex bytes: Invalid character 'g' at position 3")
        )
    );
    // Two bytes of one character: the first of them is shown.
    assert_eq!(
        error(parse_hex_bytes("\u{e9}")),
        (
            ErrorCode::InvalidParams,
            text("invalid hex bytes: Invalid character '\u{c3}' at position 0")
        )
    );
    assert_eq!(
        error(parse_hex_bytes("'0")),
        (
            ErrorCode::InvalidParams,
            text("invalid hex bytes: Invalid character '\\'' at position 0")
        )
    );
}

#[test]
fn bytes_are_written_as_they_are_read() {
    let reply = read_memory_reply(0x10, Ok(vec![0x00, 0xAB, 0x4D])).unwrap();
    assert_eq!((reply.address.as_str(), reply.length), ("10", 3));
    assert_eq!(reply.hex, "00ab4d");
    assert_eq!(parse_hex_bytes(&reply.hex).unwrap(), vec![0x00, 0xAB, 0x4D]);
    assert_eq!(
        error(read_memory_reply(1, Err(text("bad")))),
        (ErrorCode::InternalError, text("bad"))
    );
}

#[test]
fn errors_are_reported() {
    let e = mcp_err(ScanflowError::Kind(ErrorKind::Uninitialized));
    assert_eq!((e.code, e.message.as_str()), (ErrorCode::InternalError, "other: unitialized"));
}

#[test]
fn scans_are_answered() {
    let (mut mgr, id) = one_process();
    let args = ScanValueArgs { session_id: text("x"), typename: text("u8"), value: text("1") };
    assert_eq!(error(mgr.scan_value(&args, &NO_FLOAT, vec![])), missing());
    let args = ScanValueArgs { session_id: id.clone(), typename: text("u8"), value: text("z") };
    assert_eq!(error(mgr.scan_value(&args, &NO_FLOAT, vec![])), invalid());
    let args = ScanValueArgs { session_id: id.clone(), typename: text("u8"), value: text("1") };
    let ranges = vec![MemoryRange { base: 0, size: 100 }];
    let mut scan = mgr.scan_value(&args, &NO_FLOAT, ranges.clone()).unwrap();
    scan.accept(Some(&[1; 100]));
    let reply = scan_value_reply(mgr.require_session_mut(&id).unwrap(), scan);
    assert_eq!((reply.count, reply.is_initial_scan), (100, true));
    assert_eq!(reply.typename, Some(text("u8")));
    assert_eq!(reply.first_matches.len(), 64);
    assert_eq!(reply.first_matches[63], "3f");

    let args = FilterValueArgs { session_id: id.clone(), value: text("2") };
    let mut scan = mgr.filter_value(&args, &NO_FLOAT).unwrap();
    while let Some(q) = scan.next_read() {
        let byte = if q.addr == 5 { 2 } else { 1 };
        scan.accept(Some(&[byte]));
    }
    let reply = filter_value_reply(mgr.require_session_mut(&id).unwrap(), scan);
    assert_eq!((reply.count, reply.is_initial_scan), (1, false));
    assert_eq!(reply.first_matches, vec!["5"]);

    let args = GetMatchesArgs { session_id: id.clone(), max: None };
    let mut back = mgr.get_matches(&args).unwrap();
    back.accept(Ok(&[2]), "").unwrap();
    let reply = get_matches_reply(mgr.require_session(&id).unwrap(), back);
    assert_eq!(reply.count, 1);
    assert_eq!((reply.matches[0].address.as_str(), reply.matches[0].value.as_str()), ("5", "2"));
    let args = GetMatchesArgs { session_id: id.clone(), max: Some(0) };
    assert!(mgr.get_matches(&args).unwrap().next_read().is_none());

    let args = SigScanArgs { session_id: id.clone(), pattern: text("q") };
    assert_eq!(error(mgr.sig_scan(&args, vec![])), invalid());
    let args = SigScanArgs { session_id: id.clone(), pattern: text("01") };
    let mut scan = mgr.sig_scan(&args, ranges).unwrap();
    scan.accept(None);
    let reply = sig_scan_reply(mgr.require_session_mut(&id).unwrap(), scan);
    assert_eq!((reply.count, reply.is_initial_scan), (0, true));
    assert!(reply.first_matches.is_empty());
    let args = FilterValueArgs { session_id: id.clone(), value: text("2") };
    assert_eq!(
        error(mgr.filter_value(&args, &NO_FLOAT)),
        (ErrorCode::InternalError, text("other: unitialized"))
    );
    assert_eq!(mgr.require_session(&id).unwrap().match_count(), 0);
    assert!(mgr.require_session(&id).unwrap().matches_snapshot().is_empty());
}

#[test]
fn raw_memory_tools_check_their_arguments_in_order() {
    let (mgr, id) = one_view();
    let args = ReadMemoryArgs { session_id: text("x"), addr: text("zz"), len: 4 };
    assert_eq!(error(mgr.read_memory(&args)).0, ErrorCode::InvalidParams);
    let args = ReadMemoryArgs { session_id: text("x"), addr: text("10"), len: 4 };
    assert_eq!(error(mgr.read_memory(&args)), missing());
    let args = ReadMemoryArgs { session_id: id.clone(), addr: text("10"), len: 4 };
    let q = mgr.read_memory(&args).unwrap();
    assert_eq!((q.addr, q.len), (16, 4));

    let write = |session_id: &str, addr: &str, data: &str| {
        let args = WriteMemoryArgs {
            session_id: text(session_id),
            addr: text(addr),
            data: text(data),
        };
        mgr.write_memory(&args)
    };
    assert_eq!(error(write("x", "zz", "1")).1, "invalid address `zz`: invalid digit found in string");
    assert_eq!(error(write("x", "10", "1")).1, "hex byte string has odd length");
    assert_eq!(error(write("x", "10", "11")), missing());
    let job = write(&id, "10", "0b 0c").unwrap();
    assert_eq!(job.next_write(), Some((16, &[0x0b, 0x0c][..])));
    let reply = write_memory_reply(16, 2);
    assert_eq!((reply.written, reply.address.as_str()), (2, "10"));
}

#[test]
fn sessions_are_reset_and_typed() {
    let (mut mgr, id) = one_view();
    let set = SetTypeArgs { session_id: id.clone(), typename: text("str"), len: Some(5) };
    let reply = mgr.set_type(set).unwrap();
    assert_eq!((reply.typename.as_str(), reply.len), ("str", Some(5)));
    let set = SetTypeArgs { session_id: id.clone(), typename: text("str"), len: None };
    assert_eq!(error(mgr.set_type(set)), invalid());
    let set = SetTypeArgs { session_id: text("x"), typename: text("str"), len: None };
    assert_eq!(error(mgr.set_type(set)), missing());
    let reply = mgr.reset_session(SessionIdArg { session_id: id.clone() }).unwrap();
    assert!(reply.reset);
    assert_eq!(reply.session_id, id);
    assert_eq!(mgr.require_session(&id).unwrap().typename(), None);
    let arg = SessionIdArg { session_id: text("x") };
    assert_eq!(error(mgr.reset_session(arg)), missing());
}

#[test]
fn process_tools_need_a_process() {
    let (mut mgr, id) = one_view();
    let arg = || SessionIdArg { session_id: id.clone() };
    assert_eq!(error(mgr.require_process(&id)), no_process());
    assert_eq!(error(mgr.require_process("x")), missing());
    assert!(mgr.require_session(&id).is_ok());
    assert_eq!(error(mgr.build_pointer_map(arg(), Ok(1))), no_process());
    let args = CollectGlobalsArgs { session_id: id.clone(), module: None };
    assert_eq!(error(mgr.collect_globals(args, Ok(1))), no_process());
    let args = AddrSessionArgs { session_id: id.clone(), addr: text("10") };
    assert_eq!(error(mgr.sigmaker(&args)), no_process());
    let view = mgr.require_session_mut(&id).unwrap();
    assert!(view.sigmaker(Ok(vec![])).is_err());
    assert!(view.list_modules(Ok(vec![])).is_err());
    assert!(view.build_pointer_map(Ok(1)).is_err());
    assert!(view.offset_scan(false, 0, 0, 0, None).is_err());

    let (mut mgr, id) = one_process();
    assert!(mgr.require_process(&id).is_ok());
    let args = SessionIdArg { session_id: id.clone() };
    let reply = mgr.build_pointer_map(args, Ok(3)).unwrap();
    assert_eq!((reply.pointer_map.as_str(), reply.session_id), ("built", id.clone()));
    let args = CollectGlobalsArgs { session_id: id.clone(), module: None };
    let reply = mgr.collect_globals(args, Ok(4)).unwrap();
    assert_eq!((reply.globals, reply.session_id), (4, id.clone()));
    let args = CollectGlobalsArgs { session_id: id.clone(), module: None };
    assert_eq!(
        error(mgr.collect_globals(args, Err(text("no")))),
        (ErrorCode::InternalError, text("no"))
    );
    let args = AddrSessionArgs { session_id: id.clone(), addr: text("0x10") };
    assert_eq!(mgr.sigmaker(&args).unwrap(), 16);
    let args = AddrSessionArgs { session_id: text("x"), addr: text("?") };
    assert_eq!(error(mgr.sigmaker(&args)).0, ErrorCode::InvalidParams);
    assert_eq!(sigmaker_reply(Ok(vec![text("AA")])).unwrap().signatures, vec!["AA"]);
    assert!(sigmaker_reply(Err(text("e"))).is_err());
}

#[test]
fn modules_are_answered() {
    let m = ModuleInfo { name: text("a"), base: 255, size: 16 };
    let rows = list_modules_reply(Ok(vec![m])).unwrap();
    assert_eq!((rows[0].name.as_str(), rows[0].base.as_str(), rows[0].size), ("a", "ff", 16));
    assert_eq!(error(list_modules_reply(Err(text("e")))).1, "e");
}

#[test]
fn offset_scans_are_answered() {
    let (mgr, id) = one_process();
    let args = |session_id: &str, filter: Option<&str>| OffsetScanArgs {
        session_id: text(session_id),
        use_disasm: true,
        lrange: 1,
        urange: 2,
        max_depth: 3,
        filter: filter.map(text),
    };
    assert_eq!(error(mgr.offset_scan(&args("x", Some("zz")))).0, ErrorCode::InvalidParams);
    assert_eq!(error(mgr.offset_scan(&args("x", Some("")))), missing());
    let scan = mgr.offset_scan(&args(&id, Some("20"))).unwrap();
    assert_eq!((scan.filter, scan.step), (Some(0x20), OffsetStep::BuildPointerMap));
    assert_eq!(mgr.offset_scan(&args(&id, Some(""))).unwrap().filter, None);
    let (views, view) = one_view();
    assert_eq!(error(views.offset_scan(&args(&view, None))), no_process());

    let m = OffsetMatch { target: 16, chain: vec![(255, -8)] };
    let reply = offset_scan_reply(&vec![m; 70]);
    assert_eq!((reply.count, reply.matches.len()), (70, 64));
    let row = &reply.matches[0];
    assert_eq!(row.target, "10");
    assert_eq!((row.chain[0].addr.as_str(), row.chain[0].off), ("ff", -8));
}

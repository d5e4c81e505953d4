//! The session: its state, and what it hands out to be read and written.

use scanflow::error::{ErrorKind, ScanflowError};
use scanflow::memory::{fits, MemoryRange};
use scanflow::session::{view_ranges, Funcs, OffsetStep, Session, WriteTarget};
use scanflow::types::FloatReading;
use scanflow::value_scanner::scan_for;

const NO_FLOAT: FloatReading = FloatReading { single: None, double: None };

fn refusal<T>(r: Result<T, ScanflowError>) -> ErrorKind {
    match r {
        Err(ScanflowError::Kind(kind)) => kind,
        _ => panic!("not refused"),
    }
}

fn scanned(bytes: &[u8]) -> Session<()> {
    let mut s = Session::for_view(());
    let ranges = vec![MemoryRange { base: 0x100, size: bytes.len() as u64 }];
    let mut scan = s.scan_value("u8", "7", &NO_FLOAT, ranges).unwrap();
    scan.accept(Some(bytes));
    s.finish_scan_value(scan);
    s
}

#[test]
fn set_type_sized() {
    let _ = WriteTarget::All;
    let _ = WriteTarget::One(0);
    let mut s = Session::for_view(());
    s.set_type("i16", None).unwrap();
    assert_eq!(s.typename(), Some("i16"));
    assert_eq!(s.read_matches(1).unwrap().next_read(), None);
}

#[test]
fn names_of_targets() {
    assert_eq!(Session::for_view(()).target_name(), "view");
    assert_eq!(Session::for_process((), "game".to_string()).target_name(), "game");
    assert_eq!(Session::new(3, Funcs::process("x".to_string())).target_name(), "x");
    let mut s = Session::new(3, Funcs::view());
    *s.memory_mut() += 1;
    assert_eq!(*s.memory_mut(), 4);
}

#[test]
fn unsized_types_need_a_length() {
    let mut s = Session::for_view(());
    assert_eq!(refusal(s.set_type("nope", Some(3))), ErrorKind::InvalidArgument);
    assert!(s.typename().is_none());
    assert_eq!(refusal(s.set_type("str", None)), ErrorKind::InvalidArgument);
    // The name is taken all the same.
    assert_eq!(s.typename(), Some("str"));
    s.add_match(0x20);
    s.set_type("str_utf16", Some(6)).unwrap();
    let q = s.read_matches(5).unwrap().next_read().unwrap();
    assert_eq!((q.addr, q.len), (0x20, 6));
    s.set_type("u32", Some(99)).unwrap();
    assert_eq!(s.read_matches(5).unwrap().next_read().unwrap().len, 4);
}

#[test]
fn matches_are_added_and_removed() {
    let mut s = Session::for_view(());
    s.add_match(1);
    s.add_match(2);
    s.add_match(3);
    assert_eq!(refusal(s.remove_match(3)), ErrorKind::InvalidArgument);
    s.remove_match(1).unwrap();
    assert_eq!(s.matches(), &[1, 3]);
    s.matches_mut().push(9);
    assert_eq!(s.matches(), &[1, 3, 9]);
}

#[test]
fn scans_report_wrong_values() {
    let s = Session::for_view(());
    assert_eq!(refusal(s.scan_value("x", "1", &NO_FLOAT, vec![])), ErrorKind::InvalidArgument);
    assert_eq!(refusal(s.scan_value("u8", "x", &NO_FLOAT, vec![])), ErrorKind::InvalidArgument);
    assert_eq!(refusal(s.sig_scan("zz", vec![])), ErrorKind::InvalidArgument);
    assert_eq!(refusal(s.filter_value("1", &NO_FLOAT)), ErrorKind::Uninitialized);
    assert_eq!(refusal(s.read_matches(1)), ErrorKind::Uninitialized);
}

#[test]
fn a_scan_selects_its_type_and_a_filter_narrows() {
    let mut s = scanned(&[7, 0, 7, 7]);
    assert_eq!(s.typename(), Some("u8"));
    assert_eq!(s.matches(), &[0x100, 0x102, 0x103]);
    assert_eq!(refusal(s.filter_value("300", &NO_FLOAT)), ErrorKind::InvalidArgument);
    let mut f = s.filter_value("8", &NO_FLOAT).unwrap();
    assert_eq!(f.next_read().unwrap().addr, 0x100);
    f.accept(Some(&[8]));
    f.accept(None);
    f.accept(Some(&[7]));
    assert!(f.next_read().is_none());
    let r = s.finish_filter_value(f);
    assert_eq!(r.matches, vec![0x100]);
    assert_eq!(s.matches(), &[0x100]);
    assert_eq!(s.typename(), Some("u8"));
}

#[test]
fn text_is_read_back_with_its_length() {
    let mut s = Session::for_view(());
    let ranges = vec![MemoryRange { base: 0, size: 4 }];
    let mut scan = s.scan_value("str", "ab", &NO_FLOAT, ranges).unwrap();
    scan.accept(Some(b"xabc"));
    s.finish_scan_value(scan);
    let mut back = s.read_matches(10).unwrap();
    let q = back.next_read().unwrap();
    assert_eq!((q.addr, q.len), (1, 2));
    back.accept(Ok(b"ab"), "").unwrap();
    let rows = back.finish();
    assert_eq!((rows[0].address, rows[0].value.as_str()), (1, "ab"));
}

#[test]
fn reading_back_stops_at_an_error() {
    let s = scanned(&[7, 7]);
    let mut back = s.read_matches(2).unwrap();
    match back.accept(Err("gone".to_string()), "") {
        Err(ScanflowError::Memory(text)) => assert_eq!(text, "gone"),
        _ => panic!("no error"),
    }
    assert_eq!(refusal(back.accept(Ok(&[1, 2]), "")), ErrorKind::InvalidArgument);
    back.accept(Ok(&[7]), "").unwrap();
    assert_eq!(back.finish().len(), 1);
}

#[test]
fn writes_need_matches_a_type_and_a_place() {
    let empty = Session::for_view(());
    assert_eq!(
        refusal(empty.write_value(WriteTarget::All, "1", &NO_FLOAT)),
        ErrorKind::Uninitialized
    );
    let mut untyped = Session::for_view(());
    untyped.add_match(1);
    assert_eq!(
        refusal(untyped.write_value(WriteTarget::All, "1", &NO_FLOAT)),
        ErrorKind::Uninitialized
    );
    let s = scanned(&[7, 7]);
    assert_eq!(
        refusal(s.write_value(WriteTarget::One(2), "1", &NO_FLOAT)),
        ErrorKind::InvalidArgument
    );
    assert_eq!(
        refusal(s.write_value(WriteTarget::One(0), "x", &NO_FLOAT)),
        ErrorKind::InvalidArgument
    );
    let mut job = s.write_value(WriteTarget::One(1), "9", &NO_FLOAT).unwrap();
    assert_eq!(job.next_write(), Some((0x101, &[9u8][..])));
    assert!(job.accept(Err("denied".to_string())).is_err());
    assert_eq!(job.written(), 0);
    job.accept(Ok(())).unwrap();
    assert_eq!(job.written(), 1);
    assert_eq!(job.next_write(), None);
}

#[test]
fn a_prepared_write_may_have_no_places() {
    let mut s = Session::for_view(());
    assert_eq!(
        refusal(s.prepare_write(WriteTarget::All, "1", &NO_FLOAT)),
        ErrorKind::Uninitialized
    );
    s.set_type("u8", None).unwrap();
    let (targets, data) = s.prepare_write(WriteTarget::All, "1", &NO_FLOAT).unwrap().into_parts();
    assert!(targets.is_empty());
    assert_eq!(data, vec![1]);
}

#[test]
fn raw_views_end_where_they_end() {
    assert_eq!(view_ranges(100, 0, u64::MAX), vec![MemoryRange { base: 0, size: 100 }]);
    assert_eq!(view_ranges(100, 40, 60), vec![MemoryRange { base: 40, size: 20 }]);
    assert_eq!(view_ranges(100, 100, 200), vec![]);
    assert!(fits(&MemoryRange { base: u64::MAX, size: 1 }));
    assert!(!fits(&MemoryRange { base: u64::MAX, size: 2 }));
    assert!(fits(&MemoryRange { base: 0, size: u64::MAX }));
}

#[test]
fn no_bytes_stand_everywhere() {
    assert!(scan_for(vec![], &vec![]).next_read().is_none());
    assert!(scan_for(vec![], &vec![1]).next_read().is_none());
    let mut s = Session::for_view(());
    let ranges = vec![MemoryRange { base: 0x10, size: 2 }];
    let mut scan = s.scan_value("str", "", &NO_FLOAT, ranges).unwrap();
    scan.accept(Some(&[1, 2]));
    assert_eq!(s.finish_scan_value(scan).matches, vec![0x10, 0x11]);
    let mut back = s.read_matches(1).unwrap();
    assert_eq!(back.next_read().unwrap().len, 0);
    back.accept(Ok(&[]), "").unwrap();
    assert_eq!(back.finish()[0].value, "");
}

#[test]
fn a_first_pass_forgets_the_matches_before() {
    let pass = |s: &mut Session<()>| {
        let ranges = vec![MemoryRange { base: 0x10, size: 3 }];
        let mut scan = s.scan_value("u8", "7", &NO_FLOAT, ranges).unwrap();
        scan.accept(Some(&[7, 0, 7]));
        s.finish_scan_value(scan).matches
    };
    let mut fresh = Session::for_view(());
    let mut used = Session::for_view(());
    used.add_match(0x11);
    used.set_type("i64", None).unwrap();
    assert_eq!(pass(&mut fresh), vec![0x10, 0x12]);
    assert_eq!(pass(&mut used), vec![0x10, 0x12]);
    assert_eq!(used.matches(), &[0x10, 0x12]);
    assert_eq!(used.typename(), Some("u8"));
}

#[test]
fn offset_scans_go_step_by_step() {
    let mut s = Session::for_process((), "p".to_string());
    s.build_pointer_map(Ok(5)).unwrap();
    assert_eq!(s.offset_scan(false, 1, 2, 3, None).step, OffsetStep::FindFromAll);
    let scan = s.offset_scan(true, 1, 2, 3, Some(0x10));
    assert_eq!(scan.step, OffsetStep::CollectGlobals);
    assert_eq!(s.collect_globals(Ok(4)).unwrap(), 4);
    assert_eq!(s.offset_scan(true, 1, 2, 3, None).step, OffsetStep::FindFromGlobals);
    assert!(s.collect_globals(Err("x".to_string())).is_err());
    assert_eq!(s.offset_scan(true, 1, 2, 3, None).step, OffsetStep::CollectGlobals);
    assert!(s.build_pointer_map(Err("x".to_string())).is_err());
    let raw = vec![
        (1, vec![(0x10, 8), (0x30, -8)]),
        (2, vec![(0x20, 0)]),
        (3, vec![]),
    ];
    let kept = scan.finish(raw.clone());
    assert_eq!(kept.len(), 1);
    assert_eq!((kept[0].target, kept[0].chain.clone()), (1, vec![(0x10, 8), (0x30, -8)]));
    assert_eq!(s.offset_scan(false, 0, 0, 0, None).finish(raw).len(), 3);
    assert_eq!(s.sigmaker(Ok(vec!["AA".to_string()])).unwrap(), vec!["AA".to_string()]);
}

#[test]
fn errors_have_words() {
    let words = |kind| ScanflowError::Kind(kind).message();
    assert_eq!(words(ErrorKind::InvalidArgument), "other: invalid argument passed");
    assert_eq!(words(ErrorKind::Uninitialized), "other: unitialized");
    assert_eq!(words(ErrorKind::UnableToReadFile), "other: unable to read file");
    assert_eq!(ScanflowError::Memory("m".to_string()).message(), "m");
}

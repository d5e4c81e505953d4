//! The session over a process of memflow's in-process `DummyOs`.
//!
//! The dummy's mapped ranges are its modules only, so values are written into the range of a module
//! and then scanned for and read back.

use memflow::dummy::{DummyMemory, DummyOs};
use memflow::prelude::v1::{size, Address, MemoryView, Os, PartialResultExt, Process};

use scanflow::error::ScanflowError;
use scanflow::memory::{fits, MemoryRange, ReadRequest};
use scanflow::session::{OffsetStep, Session, WriteTarget};
use scanflow::types::{FloatReading, MatchDisplay, ScanResult};

const NO_FLOAT: FloatReading = FloatReading { single: None, double: None };

fn read<T: MemoryView>(mem: &mut T, q: ReadRequest) -> Result<Vec<u8>, String> {
    let mut buf = vec![0u8; q.len as usize];
    match mem.read_raw_into(Address::from(q.addr), &mut buf).data_part() {
        Ok(_) => Ok(buf),
        Err(e) => Err(e.to_string()),
    }
}

fn ranges<T: Process>(mem: &mut T) -> Vec<MemoryRange> {
    mem.mapped_mem_range_vec(0x1000, Address::NULL, Address::INVALID)
        .into_iter()
        .map(|r| MemoryRange { base: r.0.to_umem(), size: r.1 })
        .filter(fits)
        .collect()
}

fn write_memory<T: MemoryView>(session: &mut Session<T>, addr: u64, data: &[u8]) {
    let mut job = session.write_memory(addr, data.to_vec());
    while let Some((a, bytes)) = job.next_write() {
        let bytes = bytes.to_vec();
        let done = session
            .memory_mut()
            .write_raw(Address::from(a), &bytes)
            .data_part()
            .map_err(|e| e.to_string());
        job.accept(done).expect("write");
    }
}

fn read_memory<T: MemoryView>(session: &mut Session<T>, addr: u64, len: usize) -> Vec<u8> {
    let q = session.read_memory(addr, len);
    read(session.memory_mut(), q).expect("read")
}

fn scan_value<T: Process + MemoryView>(
    session: &mut Session<T>,
    typename: &str,
    value: &str,
) -> Result<ScanResult, ScanflowError> {
    let ranges = ranges(session.memory_mut());
    let mut scan = session.scan_value(typename, value, &NO_FLOAT, ranges)?;
    while let Some(q) = scan.next_read() {
        let data = read(session.memory_mut(), q).ok();
        scan.accept(data.as_deref());
    }
    Ok(session.finish_scan_value(scan))
}

fn filter_value<T: MemoryView>(
    session: &mut Session<T>,
    value: &str,
) -> Result<ScanResult, ScanflowError> {
    let mut scan = session.filter_value(value, &NO_FLOAT)?;
    while let Some(q) = scan.next_read() {
        let data = read(session.memory_mut(), q).ok();
        scan.accept(data.as_deref());
    }
    Ok(session.finish_filter_value(scan))
}

fn sig_scan<T: Process + MemoryView>(
    session: &mut Session<T>,
    pattern: &str,
) -> Result<ScanResult, ScanflowError> {
    let ranges = ranges(session.memory_mut());
    let mut scan = session.sig_scan(pattern, ranges)?;
    while let Some(q) = scan.next_read() {
        let data = read(session.memory_mut(), q).ok();
        scan.accept(data.as_deref());
    }
    Ok(session.finish_sig_scan(scan))
}

fn read_matches<T: MemoryView>(
    session: &mut Session<T>,
    max: usize,
) -> Result<Vec<MatchDisplay>, ScanflowError> {
    let mut back = session.read_matches(max)?;
    while let Some(q) = back.next_read() {
        let data = read(session.memory_mut(), q);
        back.accept(data.as_deref().map_err(|e| e.clone()), "")?;
    }
    Ok(back.finish())
}

/// A session over a dummy process with a module, and the first address of the module.
fn make_session() -> (Session<impl Process + MemoryView + Clone + 'static>, u64) {
    let mem = DummyMemory::new(size::mb(16));
    let mut os = DummyOs::new(mem);
    let pid = os.alloc_process_with_module(size::mb(8), &[]);
    let process = os.into_process_by_pid(pid).expect("into_process_by_pid");
    let name = process.info().name.to_string();
    let mut session = Session::for_process(process, name);
    let modules = session.memory_mut().module_list().expect("module_list");
    assert!(!modules.is_empty(), "dummy process should have a module");
    let base = modules[0].base.to_umem();
    (session, base)
}

#[test]
fn dummy_value_scan_and_readback() {
    let (mut session, base) = make_session();

    // Write a known i64 into the scannable module range.
    let val: i64 = 0x1337; // 4919
    write_memory(&mut session, base, &val.to_ne_bytes());

    let res = scan_value(&mut session, "i64", "4919").expect("scan_value");
    assert!(
        res.count() >= 1,
        "expected at least one i64=4919 match in the module range"
    );
    assert!(res.is_initial_scan);
    assert!(res.matches.contains(&base));

    let rows = read_matches(&mut session, 64).expect("read_matches");
    assert!(!rows.is_empty());
    for row in &rows {
        assert_eq!(
            row.value, "4919",
            "match at {:x} did not read back as 4919",
            row.address
        );
    }
}

#[test]
fn dummy_filter_narrows_matches() {
    let (mut session, base) = make_session();
    write_memory(&mut session, base, &42i64.to_ne_bytes());

    let r1 = scan_value(&mut session, "i64", "42").expect("scan");
    assert!(r1.count() >= 1);

    // Memory unchanged -> filter keeps the same matches.
    let r2 = filter_value(&mut session, "42").expect("filter");
    assert_eq!(r2.count(), r1.count());
    assert_eq!(r2.matches, r1.matches);
    assert!(!r2.is_initial_scan);

    // Filter for a value that isn't present -> drops to zero.
    let r3 = filter_value(&mut session, "999999").expect("filter-miss");
    assert_eq!(r3.count(), 0);
}

#[test]
fn dummy_raw_read_and_write() {
    let (mut session, base) = make_session();

    let bytes = [0xAAu8, 0xBB, 0xCC, 0xDD];
    write_memory(&mut session, base, &bytes);

    let back = read_memory(&mut session, base, 4);
    assert_eq!(back, vec![0xAA, 0xBB, 0xCC, 0xDD]);

    // Overwrite and read back.
    write_memory(&mut session, base, &[1, 2, 3, 4]);
    let read2 = read_memory(&mut session, base, 4);
    assert_eq!(read2, vec![1, 2, 3, 4]);
}

#[test]
fn dummy_sig_scan() {
    let (mut session, base) = make_session();
    let pattern_bytes = [0x4Du8, 0x85, 0xC0, 0x00, 0x00, 0x4D, 0x8B];
    write_memory(&mut session, base, &pattern_bytes);

    let res = sig_scan(&mut session, "4D 85 C0 ? ? 4D 8B").expect("sig_scan");
    assert!(res.count() >= 1, "signature not found in the module range");
    assert!(res.matches.contains(&base));
    assert!(session.typename().is_none());
    assert_eq!(session.matches(), res.matches.as_slice());
}

#[test]
fn dummy_reset_and_set_type() {
    let (mut session, base) = make_session();
    write_memory(&mut session, base, &7i64.to_ne_bytes());

    scan_value(&mut session, "i64", "7").expect("scan");
    assert!(!session.matches().is_empty());

    session.reset();
    assert!(session.matches().is_empty());
    assert!(session.typename().is_none());

    session.set_type("u32", None).expect("set_type");
    assert_eq!(session.typename(), Some("u32"));
}

#[test]
fn dummy_write_value_reaches_all_matches() {
    let (mut session, base) = make_session();
    write_memory(&mut session, base, &77777777i64.to_ne_bytes());
    write_memory(&mut session, base + 64, &77777777i64.to_ne_bytes());
    let res = scan_value(&mut session, "i64", "77777777").expect("scan");
    assert_eq!(res.matches, vec![base, base + 64]);

    let mut job = session.write_value(WriteTarget::All, "5", &NO_FLOAT).expect("write");
    while let Some((a, bytes)) = job.next_write() {
        let bytes = bytes.to_vec();
        let done = session.memory_mut().write_raw(Address::from(a), &bytes).data_part();
        job.accept(done.map_err(|e| e.to_string())).expect("step");
    }
    assert_eq!(job.written(), 2);
    let rows = read_matches(&mut session, 1).expect("rows");
    assert_eq!(rows.len(), 1);
    assert_eq!(rows[0].value, "5");
    assert_eq!(read_memory(&mut session, base + 64, 8), 5i64.to_ne_bytes().to_vec());
}

#[test]
fn dummy_offset_scan_builds_what_it_needs() {
    let (mut session, _) = make_session();
    let scan = session.offset_scan(true, 1, 2, 3, None);
    assert_eq!(scan.step, OffsetStep::BuildPointerMap);
    let scan = session.offset_scan_step(scan, Ok(0)).unwrap();
    assert_eq!(scan.step, OffsetStep::CollectGlobals);
    let scan = session.offset_scan_step(scan, Ok(9)).unwrap();
    assert_eq!(scan.step, OffsetStep::FindFromGlobals);
    assert!(session.offset_scan_step(session_step(&session), Err("no".to_string())).is_err());
}

fn session_step<T>(session: &Session<T>) -> scanflow::session::OffsetScan {
    // The pointer map was built with no entries, so it is built again.
    session.offset_scan(false, 0, 0, 0, None)
}

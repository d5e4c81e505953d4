//! Signatures: parsing them, and finding them in buffers and in chunks of memory.

use scanflow::memory::MemoryRange;
use scanflow::sig_scan::{
    parse_pattern, scan_range, scan_ranges, CompiledPattern, PatternScan, SIG_CHUNK,
};

fn p(s: &str) -> CompiledPattern {
    CompiledPattern::new(parse_pattern(s).unwrap()).unwrap()
}

/// Answers a scan from a memory that holds `bytes` from `base` on.
fn drive(mut scan: PatternScan, base: u64, bytes: &[u8]) -> Vec<u64> {
    while let Some(q) = scan.next_read() {
        let from = (q.addr - base) as usize;
        let to = from + q.len as usize;
        if to <= bytes.len() {
            scan.accept(Some(&bytes[from..to]));
        } else {
            scan.accept(None);
        }
    }
    scan.finish()
}

#[test]
fn parses_literals_and_wildcards() {
    let pat = parse_pattern("4D 85 C0 ? ?? 4D").unwrap();
    assert_eq!(
        pat,
        vec![Some(0x4D), Some(0x85), Some(0xC0), None, None, Some(0x4D)]
    );
}

#[test]
fn rejects_bad_tokens() {
    assert!(parse_pattern("").is_none());
    assert!(parse_pattern("4D 8").is_none()); // length != 2
    assert!(parse_pattern("4D ZZ").is_none()); // non-hex
    assert!(parse_pattern("? ? ?").is_some()); // all-wildcard is allowed at parse time
}

#[test]
fn a_literal_is_two_hexadecimal_digits() {
    assert!(parse_pattern("+F").is_none());
    assert!(parse_pattern("4D85").is_none());
    assert!(parse_pattern("???").is_none());
    assert!(parse_pattern("\u{e9}").is_none());
    assert_eq!(parse_pattern(" aF\t0b\n"), Some(vec![Some(0xAF), Some(0x0B)]));
}

#[test]
fn finds_literal_match() {
    let cp = p("AA BB");
    let buf = [0x00, 0xAA, 0xBB, 0xAA, 0xBB, 0x00];
    let m = cp.find_matches(&buf, 0x1000u64);
    assert_eq!(m, vec![0x1001u64, 0x1003u64]);
}

#[test]
fn finds_with_wildcards() {
    let cp = p("AA ?? CC");
    let buf = [0xAA, 0x01, 0xCC, 0xAA, 0x02, 0xCC, 0xAA, 0x03, 0xDD];
    let m = cp.find_matches(&buf, 0);
    assert_eq!(m, vec![0u64, 3u64]);
}

#[test]
fn no_false_positives_on_partial_match() {
    let cp = p("AA BB CC");
    let buf = [0xAA, 0xBB, 0xDD, 0xAA, 0xBB, 0xCC];
    let m = cp.find_matches(&buf, 0);
    assert_eq!(m, vec![3u64]);
}

#[test]
fn pattern_too_long_for_buf() {
    let cp = p("AA BB CC DD EE");
    let buf = [0xAA, 0xBB];
    let m = cp.find_matches(&buf, 0);
    assert!(m.is_empty());
}

#[test]
fn anchor_at_nonzero_offset() {
    // Wildcards first, then literal anchor: memchr still finds it.
    let cp = p("?? ?? AA");
    let buf = [0x01, 0x02, 0xAA, 0x03, 0x04, 0xAA];
    let m = cp.find_matches(&buf, 0);
    assert_eq!(m, vec![0u64, 3u64]);
}

#[test]
fn overlapping_and_wildcard_only_matches() {
    assert_eq!(p("AA AA").find_in(&[0xAA, 0xAA, 0xAA]), vec![0, 1]);
    assert_eq!(p("? ?").find_in(&[1, 2, 3]), vec![0, 1]);
    assert_eq!(p("?").find_in(&[]), Vec::<usize>::new());
    assert_eq!(p("? AA").find_in(&[0xAA, 0xAA]), vec![0]);
}

#[test]
fn an_empty_pattern_is_not_compiled() {
    assert!(CompiledPattern::new(Vec::new()).is_none());
    assert_eq!(p("AA ?").len(), 2);
    assert!(!p("AA ?").is_empty());
}

#[test]
fn a_range_too_short_is_not_read() {
    let scan = scan_range(0x1000, 1, p("AA BB"));
    assert!(scan.next_read().is_none());
    assert!(scan.finish().is_empty());
}

#[test]
fn chunks_overlap_by_one_byte_less_than_the_pattern() {
    let chunk = SIG_CHUNK as usize;
    let base = 0x4000_0000u64;
    let mut bytes = vec![0u8; chunk + 10];
    // One match across the end of the first chunk, one in the part that both chunks hold.
    for at in [chunk - 1, chunk + 1, 5] {
        bytes[at] = 0xAB;
        bytes[at + 1] = 0xCD;
    }
    let mut scan = scan_range(base, bytes.len() as u64, p("AB CD"));
    let q = scan.next_read().unwrap();
    assert_eq!((q.addr, q.len), (base, SIG_CHUNK + 1));
    scan.accept(Some(&bytes[..chunk + 1]));
    let q = scan.next_read().unwrap();
    assert_eq!((q.addr, q.len), (base + SIG_CHUNK, 10));
    scan.accept(Some(&bytes[chunk..]));
    assert!(scan.next_read().is_none());
    assert_eq!(
        scan.finish(),
        vec![base + 5, base + SIG_CHUNK - 1, base + SIG_CHUNK + 1]
    );
}

#[test]
fn an_unreadable_chunk_is_passed_over() {
    let chunk = SIG_CHUNK as usize;
    let mut bytes = vec![0u8; chunk + 4];
    bytes[3] = 0xEE;
    bytes[chunk + 2] = 0xEE;
    let mut scan = scan_range(0, bytes.len() as u64, p("EE"));
    scan.accept(None);
    scan.accept(Some(&bytes[chunk..]));
    assert_eq!(scan.finish(), vec![SIG_CHUNK + 2]);
}

#[test]
fn ranges_are_scanned_in_order() {
    let bytes: Vec<u8> = vec![1, 2, 3, 1, 2, 3, 1, 2];
    let ranges = vec![
        MemoryRange { base: 103, size: 5 },
        MemoryRange { base: 101, size: 1 },
        MemoryRange { base: 100, size: 3 },
    ];
    let found = drive(scan_ranges(ranges, p("01 02")), 100, &bytes);
    assert_eq!(found, vec![103, 106, 100]);
    assert!(drive(scan_ranges(Vec::new(), p("01")), 100, &bytes).is_empty());
}

#[test]
fn the_end_of_the_address_space_can_be_scanned() {
    let scan = scan_range(u64::MAX - 3, 4, p("07"));
    let found = drive(scan, u64::MAX - 3, &[0, 7, 0, 7]);
    assert_eq!(found, vec![u64::MAX - 2, u64::MAX]);
}

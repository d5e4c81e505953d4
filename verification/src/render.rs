//! Results as lines of text.

use vstd::prelude::*;
use vstd::string::StringExecFns;

use crate::number::{
    byte_hex, decimal, hex, push_byte_hex, push_digits, signed_decimal, to_hex, to_signed_decimal,
    Whole,
};
use crate::session::{offset_views, row_views};
use crate::text::{lemma_views_push, owned, views};
use crate::types::{MatchDisplay, ModuleInfo, OffsetMatch, ScanResult};

verus! {

/// How many rows are shown.
pub const MAX_PRINT: usize = 16;

/// The smaller of two numbers.
pub open spec fn least(a: int, b: int) -> int {
    if a < b {
        a
    } else {
        b
    }
}

/// The line that tells how many matches there are.
pub open spec fn found_line(n: nat) -> Seq<char> {
    "Matches found: "@ + decimal(n)
}

/// The line that tells that not all rows are shown, where they are not.
pub open spec fn first_of_lines(max: nat, n: nat) -> Seq<Seq<char>> {
    if n > max {
        seq!["Printing first "@ + decimal(max) + " of "@ + decimal(n)]
    } else {
        Seq::empty()
    }
}

/// A scan result: the number of matches, and the first of them.
pub open spec fn scan_lines(matches: Seq<u64>, max: nat) -> Seq<Seq<char>> {
    seq![found_line(matches.len())] + first_of_lines(max, matches.len()) + Seq::new(
        least(matches.len() as int, max as int) as nat,
        |i: int| hex(matches[i] as nat),
    )
}

/// Rows of addresses with their values.
pub open spec fn display_lines(rows: Seq<(u64, Seq<char>)>, total: nat) -> Seq<Seq<char>> {
    seq![found_line(total)] + (if total > MAX_PRINT {
        seq!["Printing first "@ + decimal(MAX_PRINT as nat)]
    } else {
        Seq::empty()
    }) + Seq::new(
        least(rows.len() as int, MAX_PRINT as int) as nat,
        |i: int| hex(rows[i].0 as nat) + ": "@ + rows[i].1,
    )
}

/// The links of a chain of pointers.
pub open spec fn links(chain: Seq<(u64, isize)>) -> Seq<char>
    decreases chain.len(),
{
    if chain.len() == 0 {
        Seq::empty()
    } else {
        links(chain.drop_last()) + (hex(chain.last().0 as nat) + " + ("@ + signed_decimal(
            chain.last().1 as int,
        ) + ") => "@)
    }
}

/// Chains of pointers: their number, and the first of them with their targets.
pub open spec fn offset_lines(matches: Seq<(u64, Seq<(u64, isize)>)>, max: nat) -> Seq<Seq<char>> {
    seq![found_line(matches.len())] + first_of_lines(max, matches.len()) + Seq::new(
        least(matches.len() as int, max as int) as nat,
        |i: int| links(matches[i].1) + hex(matches[i].0 as nat),
    )
}

/// Bytes in hexadecimal, each followed by a space.
pub open spec fn spaced_hex(data: Seq<u8>) -> Seq<char>
    decreases data.len(),
{
    if data.len() == 0 {
        Seq::empty()
    } else {
        spaced_hex(data.drop_last()) + (byte_hex(data.last()) + " "@)
    }
}

/// The number of bytes on a line of a hexdump: 16 where none is asked for.
pub open spec fn line_width(bytes_per_line: usize) -> int {
    if bytes_per_line == 0 {
        16
    } else {
        bytes_per_line as int
    }
}

/// Whether every line of a hexdump has an address.
pub open spec fn dump_fits(base: int, len: int, width: int) -> bool {
    forall|k: int| 0 <= k && k * width < len ==> base + #[trigger] (k * width) <= u64::MAX
}

/// A hexdump: lines of `width` bytes, each with the address of its first byte.
pub open spec fn dump_lines(base: int, data: Seq<u8>, width: nat) -> Seq<Seq<char>>
    decreases data.len(),
{
    if data.len() == 0 || width == 0 {
        Seq::empty()
    } else {
        let n = least(width as int, data.len() as int);
        seq![hex(base as nat) + ": "@ + spaced_hex(data.take(n))] + dump_lines(
            base + width,
            data.skip(n),
            width,
        )
    }
}

/// Modules: first address, size and name, with tabs between them.
pub open spec fn module_lines(modules: Seq<ModuleInfo>) -> Seq<Seq<char>> {
    Seq::new(
        modules.len(),
        |i: int|
            hex(modules[i].base as nat) + seq!['\t'] + hex(modules[i].size as nat) + seq!['\t']
                + modules[i].name@,
    )
}

/// Writes a line behind others.
fn push_line(out: &mut Vec<String>, line: String)
    ensures
        views(final(out)@) == views(old(out)@).push(line@),
{
    proof {
        lemma_views_push(out@, line);
    }
    out.push(line);
}

/// Writes the line that tells how many matches there are.
fn push_found(out: &mut Vec<String>, n: usize)
    ensures
        views(final(out)@) == views(old(out)@).push(found_line(n as nat)),
{
    let mut line = owned("Matches found: ");
    push_digits(&mut line, n as u128, 10);
    push_line(out, line);
}

/// Writes the line that tells that not all rows are shown, where they are not.
fn push_first_of(out: &mut Vec<String>, max: usize, n: usize)
    ensures
        views(final(out)@) == views(old(out)@) + first_of_lines(max as nat, n as nat),
{
    if n > max {
        let mut line = owned("Printing first ");
        push_digits(&mut line, max as u128, 10);
        line.append(" of ");
        push_digits(&mut line, n as u128, 10);
        push_line(out, line);
        assert(views(out@) =~= views(old(out)@) + first_of_lines(max as nat, n as nat));
    } else {
        assert(views(out@) =~= views(old(out)@) + first_of_lines(max as nat, n as nat));
    }
}

/// A scan result: the number of matches, and up to `max` of them.
pub fn print_scan_result(res: &ScanResult, max: usize) -> (r: Vec<String>)
    ensures
        views(r@) == scan_lines(res.matches@, max as nat),
{
    let mut out: Vec<String> = Vec::new();
    assert(views(out@) =~= Seq::empty());
    let n: usize = res.matches.len();
    push_found(&mut out, n);
    push_first_of(&mut out, max, n);
    let ghost head = views(out@);
    assert(head =~= seq![found_line(n as nat)] + first_of_lines(max as nat, n as nat));
    let shown: usize = if n < max {
        n
    } else {
        max
    };
    for i in 0..shown
        invariant
            shown <= res.matches@.len(),
            views(out@) == head + Seq::new(i as nat, |j: int| hex(res.matches@[j] as nat)),
    {
        push_line(&mut out, to_hex(res.matches[i]));
        assert(views(out@) =~= head + Seq::new(
            (i + 1) as nat,
            |j: int| hex(res.matches@[j] as nat),
        ));
    }
    out
}

/// Rows of addresses with their values: the number of all matches, and the rows.
pub fn print_match_displays(rows: &Vec<MatchDisplay>, total_matches: usize) -> (r: Vec<String>)
    ensures
        views(r@) == display_lines(row_views(rows@), total_matches as nat),
{
    let mut out: Vec<String> = Vec::new();
    assert(views(out@) =~= Seq::empty());
    push_found(&mut out, total_matches);
    if total_matches > MAX_PRINT {
        let mut line = owned("Printing first ");
        push_digits(&mut line, MAX_PRINT as u128, 10);
        push_line(&mut out, line);
    }
    let ghost head = views(out@);
    assert(head =~= seq![found_line(total_matches as nat)] + (if total_matches > MAX_PRINT {
        seq!["Printing first "@ + decimal(MAX_PRINT as nat)]
    } else {
        Seq::empty()
    }));
    let shown: usize = if rows.len() < MAX_PRINT {
        rows.len()
    } else {
        MAX_PRINT
    };
    let ghost vs = row_views(rows@);
    for i in 0..shown
        invariant
            shown <= rows@.len(),
            vs == row_views(rows@),
            views(out@) == head + Seq::new(
                i as nat,
                |j: int| hex(vs[j].0 as nat) + ": "@ + vs[j].1,
            ),
    {
        let mut line = to_hex(rows[i].address);
        line.append(": ");
        line.append(rows[i].value.as_str());
        push_line(&mut out, line);
        assert(views(out@) =~= head + Seq::new(
            (i + 1) as nat,
            |j: int| hex(vs[j].0 as nat) + ": "@ + vs[j].1,
        ));
    }
    out
}

/// An offset as a whole number.
fn offset_number(off: isize) -> (r: Whole)
    ensures
        r.value() == off,
        r.negative ==> r.size > 0,
{
    if off < 0 {
        let size: i128 = 0 - off as i128;
        Whole { negative: true, size: size as u128 }
    } else {
        Whole { negative: false, size: off as u128 }
    }
}

/// Writes the links of a chain of pointers.
fn push_links(out: &mut String, chain: &Vec<(u64, isize)>)
    ensures
        final(out)@ == old(out)@ + links(chain@),
{
    let ghost start = out@;
    assert(out@ =~= start + links(chain@.take(0)));
    for i in 0..chain.len()
        invariant
            out@ == start + links(chain@.take(i as int)),
    {
        let ghost before = out@;
        let (addr, off) = chain[i];
        push_digits(out, addr as u128, 16);
        out.append(" + (");
        let offset = to_signed_decimal(offset_number(off));
        out.append(offset.as_str());
        out.append(") => ");
        assert(chain@.take(i + 1).drop_last() =~= chain@.take(i as int));
        assert(out@ =~= before + (hex(addr as nat) + " + ("@ + signed_decimal(off as int)
            + ") => "@));
        assert(out@ =~= start + links(chain@.take(i + 1)));
    }
    assert(chain@.take(chain@.len() as int) =~= chain@);
}

/// Chains of pointers: their number, and up to `max` of them with their targets.
pub fn print_offset_matches(matches: &Vec<OffsetMatch>, max: usize) -> (r: Vec<String>)
    ensures
        views(r@) == offset_lines(offset_views(matches@), max as nat),
{
    let mut out: Vec<String> = Vec::new();
    assert(views(out@) =~= Seq::empty());
    let n: usize = matches.len();
    push_found(&mut out, n);
    push_first_of(&mut out, max, n);
    let ghost head = views(out@);
    assert(head =~= seq![found_line(n as nat)] + first_of_lines(max as nat, n as nat));
    let shown: usize = if n < max {
        n
    } else {
        max
    };
    let ghost vs = offset_views(matches@);
    for i in 0..shown
        invariant
            shown <= matches@.len(),
            vs == offset_views(matches@),
            views(out@) == head + Seq::new(
                i as nat,
                |j: int| links(vs[j].1) + hex(vs[j].0 as nat),
            ),
    {
        let mut line = String::new();
        push_links(&mut line, &matches[i].chain);
        push_digits(&mut line, matches[i].target as u128, 16);
        assert(line@ =~= links(vs[i as int].1) + hex(vs[i as int].0 as nat));
        push_line(&mut out, line);
        assert(views(out@) =~= head + Seq::new(
            (i + 1) as nat,
            |j: int| links(vs[j].1) + hex(vs[j].0 as nat),
        ));
    }
    out
}

/// Whether every line of a hexdump of `len` bytes has an address.
pub fn hexdump_fits(base: u64, len: usize, bytes_per_line: usize) -> (r: bool)
    ensures
        r == dump_fits(base as int, len as int, line_width(bytes_per_line)),
{
    if len == 0 {
        assert forall|k: int| 0 <= k && k * line_width(bytes_per_line) < 0 implies base
            + #[trigger] (k * line_width(bytes_per_line)) <= u64::MAX by {
            assert(k * line_width(bytes_per_line) >= 0) by (nonlinear_arith)
                requires
                    k >= 0,
                    line_width(bytes_per_line) >= 0,
            ;
        }
        return true;
    }
    let width: usize = if bytes_per_line == 0 {
        16
    } else {
        bytes_per_line
    };
    let part: usize = (len - 1) % width;
    assert(part <= len - 1) by (nonlinear_arith)
        requires
            part == (len - 1) % (width as int),
            width > 0,
            len >= 1,
    ;
    let last: usize = (len - 1) - part;
    proof {
        let w = width as int;
        let q = (len - 1) / w;
        assert(q * w == last && q >= 0) by (nonlinear_arith)
            requires
                q == (len - 1) / w,
                last == (len - 1) - (len - 1) % w,
                w > 0,
                len >= 1,
        ;
        assert forall|k: int| 0 <= k && k * w < len implies #[trigger] (k * w) <= last by {
            assert(k <= q) by (nonlinear_arith)
                requires
                    k * w <= len - 1,
                    q == (len - 1) / w,
                    w > 0,
            ;
            assert(k * w <= q * w) by (nonlinear_arith)
                requires
                    k <= q,
                    w > 0,
            ;
        }
    }
    last as u64 <= 0xFFFF_FFFF_FFFF_FFFF - base
}

/// A hexdump of bytes that stand at an address, with 16 of them on a line where the number asked
/// for is zero.
pub fn print_hexdump(base: u64, data: &[u8], bytes_per_line: usize) -> (r: Vec<String>)
    requires
        dump_fits(base as int, data@.len() as int, line_width(bytes_per_line)),
    ensures
        views(r@) == dump_lines(base as int, data@, line_width(bytes_per_line) as nat),
{
    let width: usize = if bytes_per_line == 0 {
        16
    } else {
        bytes_per_line
    };
    let mut out: Vec<String> = Vec::new();
    let mut start: usize = 0;
    let ghost mut k: int = 0;
    let n: usize = data.len();
    assert(data@.skip(0) =~= data@);
    assert(views(out@) + dump_lines(base as int, data@, width as nat) =~= dump_lines(
        base as int,
        data@,
        width as nat,
    ));
    while start < n
        invariant
            n == data@.len(),
            width > 0,
            start <= n,
            0 <= k,
            start < n ==> start == k * width,
            dump_fits(base as int, data@.len() as int, width as int),
            start < n ==> views(out@) + dump_lines(
                base + k * width,
                data@.skip(start as int),
                width as nat,
            ) == dump_lines(base as int, data@, width as nat),
            start == n ==> views(out@) == dump_lines(base as int, data@, width as nat),
        decreases n - start,
    {
        let ghost before = views(out@);
        let ghost rest = data@.skip(start as int);
        let count: usize = if n - start < width {
            n - start
        } else {
            width
        };
        assert(base + k * (width as int) <= u64::MAX);
        let mut line = to_hex(base + start as u64);
        line.append(": ");
        let ghost head = line@;
        assert(head + spaced_hex(rest.take(0)) =~= head);
        for i in 0..count
            invariant
                n == data@.len(),
                start + count <= n,
                rest == data@.skip(start as int),
                line@ == head + spaced_hex(rest.take(i as int)),
        {
            let ghost partial = line@;
            push_byte_hex(&mut line, data[start + i]);
            line.append(" ");
            assert(rest.take(i + 1).drop_last() =~= rest.take(i as int));
            assert(line@ =~= partial + (byte_hex(rest[i as int]) + " "@));
            assert(line@ =~= head + spaced_hex(rest.take(i + 1)));
        }
        let ghost text = line@;
        push_line(&mut out, line);
        assert(dump_lines(base + k * width, rest, width as nat) == seq![text] + dump_lines(
            base + k * width + width,
            rest.skip(count as int),
            width as nat,
        ));
        assert(rest.skip(count as int) =~= data@.skip(start + count));
        assert(before.push(text) + dump_lines(
            base + k * width + width,
            data@.skip(start + count),
            width as nat,
        ) =~= before + (seq![text] + dump_lines(
            base + k * width + width,
            rest.skip(count as int),
            width as nat,
        )));
        start = start + count;
        proof {
            assert((k + 1) * width == k * width + width) by (nonlinear_arith);
            k = k + 1;
            if start == n {
                assert(data@.skip(n as int).len() == 0);
                assert(views(out@) =~= dump_lines(base as int, data@, width as nat));
            }
        }
    }
    out
}

/// Modules: first address, size and name, with tabs between them.
pub fn print_modules(modules: &Vec<ModuleInfo>) -> (r: Vec<String>)
    ensures
        views(r@) == module_lines(modules@),
{
    let mut out: Vec<String> = Vec::new();
    for i in 0..modules.len()
        invariant
            views(out@) == module_lines(modules@).take(i as int),
    {
        let mut line = to_hex(modules[i].base);
        line.push('\t');
        push_digits(&mut line, modules[i].size as u128, 16);
        line.push('\t');
        line.append(modules[i].name.as_str());
        assert(line@ =~= module_lines(modules@)[i as int]);
        push_line(&mut out, line);
        assert(views(out@) =~= module_lines(modules@).take(i + 1));
    }
    assert(views(out@) =~= module_lines(modules@));
    out
}

/// A scan result is shown as the number of matches, a note where not all are shown, and the first
/// matches in hexadecimal, one on each line.
pub proof fn law_scan_lines(matches: Seq<u64>, max: nat, i: int)
    ensures
        ({
            let n = matches.len();
            let lines = scan_lines(matches, max);
            let head: int = if n > max {
                2
            } else {
                1
            };
            &&& lines.len() == head + (if n > max {
                max
            } else {
                n
            })
            &&& lines[0] == "Matches found: "@ + decimal(n)
            &&& n > max ==> lines[1] == "Printing first "@ + decimal(max) + " of "@ + decimal(n)
            &&& 0 <= i < n && i < max ==> lines[head + i] == hex(matches[i] as nat)
        }),
{
}

/// Rows are shown as the number of matches, a note where there are more than 16, and the first 16
/// rows: the address in hexadecimal, a colon, and the value.
pub proof fn law_display_lines(rows: Seq<(u64, Seq<char>)>, total: nat, i: int)
    ensures
        ({
            let lines = display_lines(rows, total);
            let head: int = if total > 16 {
                2
            } else {
                1
            };
            &&& lines.len() == head + (if rows.len() > 16 {
                16
            } else {
                rows.len()
            })
            &&& lines[0] == "Matches found: "@ + decimal(total)
            &&& total > 16 ==> lines[1] == "Printing first "@ + decimal(16)
            &&& 0 <= i < rows.len() && i < 16 ==> lines[head + i] == hex(rows[i].0 as nat) + ": "@
                + rows[i].1
        }),
{
}

/// Chains are shown as their number, a note where not all are shown, and the first of them, one on
/// each line: every link with its address in hexadecimal and its offset, and then the target.
pub proof fn law_offset_lines(
    matches: Seq<(u64, Seq<(u64, isize)>)>,
    max: nat,
    i: int,
    chain: Seq<(u64, isize)>,
    addr: u64,
    off: isize,
)
    ensures
        ({
            let n = matches.len();
            let lines = offset_lines(matches, max);
            let head: int = if n > max {
                2
            } else {
                1
            };
            &&& lines.len() == head + (if n > max {
                max
            } else {
                n
            })
            &&& lines[0] == "Matches found: "@ + decimal(n)
            &&& n > max ==> lines[1] == "Printing first "@ + decimal(max) + " of "@ + decimal(n)
            &&& 0 <= i < n && i < max ==> lines[head + i] == links(matches[i].1) + hex(
                matches[i].0 as nat,
            )
        }),
        links(Seq::empty()) == Seq::<char>::empty(),
        links(chain.push((addr, off))) == links(chain) + (hex(addr as nat) + " + ("@
            + signed_decimal(off as int) + ") => "@),
{
    assert(chain.push((addr, off)).drop_last() =~= chain);
}

/// A hexdump has one line for each run of `width` bytes, in order: the address of the first of
/// them, and each byte as two hexadecimal digits and a space. The last line may be shorter.
pub proof fn law_dump_lines(base: int, data: Seq<u8>, width: nat, k: int)
    requires
        width > 0,
    ensures
        0 <= k && k * width < data.len() ==> {
            let to = if k * width + width <= data.len() {
                k * width + width
            } else {
                data.len() as int
            };
            &&& k < dump_lines(base, data, width).len()
            &&& dump_lines(base, data, width)[k] == hex((base + k * width) as nat) + ": "@
                + spaced_hex(data.subrange(k * width, to))
        },
        k >= 0 && k * width >= data.len() ==> dump_lines(base, data, width).len() <= k,
    decreases data.len(),
{
    if data.len() > 0 && k >= 0 {
        let n = least(width as int, data.len() as int);
        let rest = data.skip(n);
        if k == 0 {
            assert(0 * width == 0) by (nonlinear_arith);
            assert(data.take(n) =~= data.subrange(0, n));
        } else {
            assert(k * width == (k - 1) * width + width) by (nonlinear_arith);
            assert((k - 1) * width >= 0) by (nonlinear_arith)
                requires
                    k >= 1,
            ;
            law_dump_lines(base + width, rest, width, k - 1);
            if k * width < data.len() {
                let to = if k * width + width <= data.len() {
                    k * width + width
                } else {
                    data.len() as int
                };
                assert(data.subrange(k * width, to) =~= rest.subrange(
                    (k - 1) * width,
                    to - width,
                ));
            }
        }
    } else if k >= 0 {
        assert(k * width >= 0) by (nonlinear_arith)
            requires
                k >= 0,
        ;
    }
}

/// Bytes in a hexdump stand one behind the other, each as two hexadecimal digits and a space.
pub proof fn law_spaced_hex(data: Seq<u8>, b: u8)
    ensures
        spaced_hex(Seq::empty()) == Seq::<char>::empty(),
        spaced_hex(data.push(b)) == spaced_hex(data) + (byte_hex(b) + " "@),
{
    assert(data.push(b).drop_last() =~= data);
}

/// A line of a hexdump has as many bytes as are asked for, and 16 where none are. Every line has an
/// address exactly where the last one has.
pub proof fn law_dump_bounds(base: int, len: int, width: usize)
    requires
        0 <= base <= u64::MAX,
        len > 0,
        width > 0,
    ensures
        line_width(0) == 16,
        line_width(width) == width,
        dump_fits(base, len, width as int) <==> base + (len - 1) / (width as int) * width
            <= u64::MAX,
{
    let w = width as int;
    let last = (len - 1) / w;
    assert(0 <= last && last * w <= len - 1 < last * w + w) by (nonlinear_arith)
        requires
            last == (len - 1) / w,
            len > 0,
            w > 0,
    ;
    if base + last * w <= u64::MAX {
        assert forall|k: int| 0 <= k && k * w < len implies base + #[trigger] (k * w)
            <= u64::MAX by {
            assert(k <= last) by (nonlinear_arith)
                requires
                    k * w < len,
                    len <= last * w + w,
                    w > 0,
            ;
            assert(k * w <= last * w) by (nonlinear_arith)
                requires
                    k <= last,
                    w > 0,
            ;
        }
    }
}

/// Modules are shown one on each line: first address and size in hexadecimal, and name, with tabs
/// between them.
pub proof fn law_module_lines(modules: Seq<ModuleInfo>, i: int)
    ensures
        module_lines(modules).len() == modules.len(),
        0 <= i < modules.len() ==> module_lines(modules)[i] == hex(modules[i].base as nat) + seq![
            '\t',
        ] + hex(modules[i].size as nat) + seq!['\t'] + modules[i].name@,
{
}

} // verus!

//! Memory as the scanners see it: ranges of addresses, requests to read, and what is read.

use vstd::prelude::*;

verus! {

/// A run of addresses that may be scanned.
#[derive(Clone, Copy, Debug, PartialEq, Eq, Structural)]
pub struct MemoryRange {
    /// The first address.
    pub base: u64,
    /// The number of bytes.
    pub size: u64,
}

impl MemoryRange {
    /// Whether the range lies inside the address space.
    pub open spec fn valid(self) -> bool {
        self.base + self.size <= 0x1_0000_0000_0000_0000
    }
}

/// Whether a range lies inside the address space.
pub fn fits(range: &MemoryRange) -> (r: bool)
    ensures
        r == range.valid(),
{
    range.base == 0 || range.size <= 0xFFFF_FFFF_FFFF_FFFF - range.base + 1
}

/// Whether all ranges lie inside the address space.
pub open spec fn all_valid(ranges: Seq<MemoryRange>) -> bool {
    forall|i: int| 0 <= i < ranges.len() ==> (#[trigger] ranges[i]).valid()
}

/// A request to read `len` bytes from `addr` on.
#[derive(Clone, Copy, Debug, PartialEq, Eq, Structural)]
pub struct ReadRequest {
    /// The first address.
    pub addr: u64,
    /// The number of bytes.
    pub len: u64,
}

/// What a read gives of a memory that holds a byte at some addresses: the bytes, where every
/// address of the request holds one, and nothing otherwise.
pub open spec fn read_of(memory: Map<int, u8>, q: ReadRequest) -> Option<Seq<u8>> {
    if forall|i: int| 0 <= i < q.len ==> memory.dom().contains(#[trigger] (q.addr + i)) {
        Some(Seq::new(q.len as nat, |i: int| memory[q.addr + i]))
    } else {
        None
    }
}

/// A copy of addresses.
pub fn copied(addrs: &[u64], count: usize) -> (r: Vec<u64>)
    requires
        count <= addrs@.len(),
    ensures
        r@ == addrs@.take(count as int),
{
    let mut out: Vec<u64> = Vec::new();
    for i in 0..count
        invariant
            count <= addrs@.len(),
            out@ == addrs@.take(i as int),
    {
        out.push(addrs[i]);
        assert(out@ =~= addrs@.take(i + 1));
    }
    out
}

/// The bytes that a reply holds, as a mathematical value.
pub open spec fn reply_of(data: Option<&[u8]>) -> Option<Seq<u8>> {
    match data {
        Some(d) => Some(d@),
        None => None,
    }
}

/// A memory after bytes have been written from an address on.
pub open spec fn write_of(memory: Map<int, u8>, addr: u64, data: Seq<u8>) -> Map<int, u8> {
    Map::new(
        |i: int| memory.dom().contains(i) || addr <= i < addr + data.len(),
        |i: int|
            if addr <= i < addr + data.len() {
                data[i - addr]
            } else {
                memory[i]
            },
    )
}

/// What is read where bytes were written is those bytes, and what is read elsewhere is what was
/// there before.
pub proof fn law_read_gives_back_the_write(
    memory: Map<int, u8>,
    addr: u64,
    data: Seq<u8>,
    q: ReadRequest,
)
    requires
        data.len() <= u64::MAX,
    ensures
        read_of(
            write_of(memory, addr, data),
            ReadRequest { addr, len: data.len() as u64 },
        ) == Some(data),
        q.addr + q.len <= addr || addr + data.len() <= q.addr ==> read_of(
            write_of(memory, addr, data),
            q,
        ) == read_of(memory, q),
{
    let after = write_of(memory, addr, data);
    let w = ReadRequest { addr, len: data.len() as u64 };
    assert(read_of(after, w).unwrap() =~= data);
    if q.addr + q.len <= addr || addr + data.len() <= q.addr {
        assert forall|i: int| 0 <= i < q.len implies memory.dom().contains(#[trigger] (q.addr + i))
            == after.dom().contains(q.addr + i) by {}
        let old_dom = forall|i: int|
            0 <= i < q.len ==> memory.dom().contains(#[trigger] (q.addr + i));
        let new_dom = forall|i: int|
            0 <= i < q.len ==> after.dom().contains(#[trigger] (q.addr + i));
        assert(old_dom == new_dom);
        if old_dom {
            assert(read_of(after, q).unwrap() =~= read_of(memory, q).unwrap());
        }
    }
}

/// A write puts its bytes from its address on, and leaves all other addresses as they were.
pub proof fn law_write_puts_its_bytes(memory: Map<int, u8>, addr: u64, data: Seq<u8>, x: int)
    ensures
        addr <= x < addr + data.len() ==> write_of(memory, addr, data).dom().contains(x)
            && write_of(memory, addr, data)[x] == data[x - addr],
        !(addr <= x < addr + data.len()) ==> {
            &&& write_of(memory, addr, data).dom().contains(x) == memory.dom().contains(x)
            &&& memory.dom().contains(x) ==> write_of(memory, addr, data)[x] == memory[x]
        },
{
}

/// Ranges are valid exactly where each of them ends inside the address space of 64 bits.
pub proof fn law_valid_ranges(ranges: Seq<MemoryRange>, i: int, data: Option<&[u8]>)
    ensures
        all_valid(ranges) && 0 <= i < ranges.len() ==> ranges[i].base + ranges[i].size
            <= 0x1_0000_0000_0000_0000,
        (forall|j: int|
            0 <= j < ranges.len() ==> (#[trigger] ranges[j]).base + ranges[j].size
                <= 0x1_0000_0000_0000_0000) ==> all_valid(ranges),
        reply_of(data) matches Some(b) ==> data matches Some(d) && d@ == b,
        data matches Some(d) ==> reply_of(data) == Some(d@),
{
}

} // verus!

//! The trace and memory binary codec: fixed little-endian layouts for the
//! two execution artifacts that are persisted.
//!
//! A trace entry contributes exactly 24 bytes — allocation pointer, frame
//! pointer, program counter, each as an 8-byte little-endian integer — with
//! no separator or count: the entry count of an image is its byte length
//! divided by 24. A memory image holds one record per occupied address
//! only, in address order: the 8-byte little-endian address followed by the
//! value's 32 little-endian bytes; unoccupied addresses contribute nothing.
//!
//! Both encoders also come entry-by-entry ([`encode_trace_entry`],
//! [`encode_memory_cell`]), so a caller can stream a large artifact to a
//! sink without materializing the whole image.

use vstd::prelude::*;
use vstd::bytes::{spec_u64_to_le_bytes, u64_to_le_bytes};
use crate::felt::Felt;

verus! {

/// One relocated execution step: program counter, allocation pointer and
/// frame pointer after relocation.
#[derive(Clone, Copy, Debug, PartialEq, Eq, Structural)]
pub struct TraceEntry {
    pub pc: u64,
    pub ap: u64,
    pub fp: u64,
}

/// The 24 bytes one step contributes: ap, fp, pc, in that order, each 8
/// bytes little-endian.
pub open spec fn spec_trace_entry_bytes(e: TraceEntry) -> Seq<u8> {
    spec_u64_to_le_bytes(e.ap) + spec_u64_to_le_bytes(e.fp) + spec_u64_to_le_bytes(e.pc)
}

/// The whole trace image: each entry's bytes, in order, nothing else.
pub open spec fn spec_trace_bytes(t: Seq<TraceEntry>) -> Seq<u8>
    decreases t.len(),
{
    if t.len() == 0 {
        Seq::empty()
    } else {
        spec_trace_bytes(t.drop_last()) + spec_trace_entry_bytes(t.last())
    }
}

/// The record one occupied cell contributes: its address, 8 bytes
/// little-endian, then the value's 32 little-endian bytes.
pub open spec fn spec_memory_cell_bytes(address: u64, value: Felt) -> Seq<u8> {
    spec_u64_to_le_bytes(address) + value.spec_bytes()
}

/// The whole memory image: a record for each occupied address, ascending,
/// and nothing for the unoccupied ones — the format is sparse, not dense.
pub open spec fn spec_memory_bytes(cells: Seq<Option<Felt>>) -> Seq<u8>
    decreases cells.len(),
{
    if cells.len() == 0 {
        Seq::empty()
    } else {
        spec_memory_bytes(cells.drop_last()) + match cells.last() {
            None => Seq::<u8>::empty(),
            Some(f) => spec_memory_cell_bytes((cells.len() - 1) as u64, f),
        }
    }
}

/// Every value held in a memory image is a well-formed field element.
pub open spec fn memory_wf(cells: Seq<Option<Felt>>) -> bool {
    forall|k: int| 0 <= k < cells.len() ==> match #[trigger] cells[k] {
        Some(f) => f.wf(),
        None => true,
    }
}

/// Encodes one execution step; a caller writing a large trace may stream
/// these 24-byte pieces to a sink one by one.
pub fn encode_trace_entry(entry: &TraceEntry) -> (r: Vec<u8>)
    ensures
        r@ == spec_trace_entry_bytes(*entry),
        r@.len() == 24,
{
    let mut out = u64_to_le_bytes(entry.ap);
    let mut fp_bytes = u64_to_le_bytes(entry.fp);
    let mut pc_bytes = u64_to_le_bytes(entry.pc);
    out.append(&mut fp_bytes);
    out.append(&mut pc_bytes);
    out
}

/// Encodes a whole relocated trace: the concatenation of its entries'
/// bytes, so the image length is exactly 24 bytes an entry.
pub fn encode_trace(relocated_trace: &Vec<TraceEntry>) -> (r: Vec<u8>)
    ensures
        r@ == spec_trace_bytes(relocated_trace@),
        r@.len() == 24 * relocated_trace@.len(),
{
    let mut out: Vec<u8> = Vec::new();
    let n = relocated_trace.len();
    let mut i: usize = 0;
    proof {
        assert(relocated_trace@.take(0) =~= Seq::<TraceEntry>::empty());
    }
    while i < n
        invariant
            0 <= i <= n,
            n == relocated_trace@.len(),
            out@ == spec_trace_bytes(relocated_trace@.take(i as int)),
            out@.len() == 24 * i,
        decreases n - i,
    {
        let entry = relocated_trace[i];
        let mut piece = encode_trace_entry(&entry);
        out.append(&mut piece);
        proof {
            let t = relocated_trace@;
            assert(t.take(i + 1 as int).drop_last() =~= t.take(i as int));
            assert(t.take(i + 1 as int).last() == t[i as int]);
        }
        i = i + 1;
    }
    proof {
        assert(relocated_trace@.take(n as int) =~= relocated_trace@);
    }
    out
}

/// Encodes one occupied cell; a caller writing a large memory image may
/// stream these records to a sink one by one.
pub fn encode_memory_cell(address: u64, value: &Felt) -> (r: Vec<u8>)
    ensures
        r@ == spec_memory_cell_bytes(address, *value),
{
    let mut out = u64_to_le_bytes(address);
    let mut value_bytes = value.to_bytes_le();
    out.append(&mut value_bytes);
    out
}

/// Encodes a whole relocated memory image: a record per occupied address,
/// in address order, nothing for the holes.
pub fn encode_memory(relocated_memory: &Vec<Option<Felt>>) -> (r: Vec<u8>)
    ensures
        r@ == spec_memory_bytes(relocated_memory@),
{
    let mut out: Vec<u8> = Vec::new();
    let n = relocated_memory.len();
    let mut i: usize = 0;
    proof {
        assert(relocated_memory@.take(0) =~= Seq::<Option<Felt>>::empty());
    }
    while i < n
        invariant
            0 <= i <= n,
            n == relocated_memory@.len(),
            out@ == spec_memory_bytes(relocated_memory@.take(i as int)),
        decreases n - i,
    {
        let cell = &relocated_memory[i];
        if cell.is_some() {
            let f = cell.as_ref().unwrap();
            let mut piece = encode_memory_cell(i as u64, f);
            out.append(&mut piece);
        }
        proof {
            let m = relocated_memory@;
            assert(m.take(i + 1 as int).drop_last() =~= m.take(i as int));
            assert(m.take(i + 1 as int).last() == m[i as int]);
        }
        i = i + 1;
    }
    proof {
        assert(relocated_memory@.take(n as int) =~= relocated_memory@);
    }
    out
}

} // verus!

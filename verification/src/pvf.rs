//! Parsing a parachain validation function (PVF) into what the inner PVM is
//! set up from: its code, its data images, the memory layout it was linked
//! against and the program counter of its entry point. The program format is
//! polkavm's: its parser and its memory-map builder are called, and named.

use crate::hashing::bytes_eq;
use polkavm::{ArcBytes, MemoryMapBuilder, ProgramBlob, ProgramParts};
use vstd::prelude::*;

verus! {

/// The export a PVF validates a block through: `jam_validate_block`.
pub const PVF_ENTRY_POINT: [u8; 18] = [
    106, 97, 109, 95, 118, 97, 108, 105, 100, 97, 116, 101, 95, 98, 108, 111, 99, 107,
];

/// JAM's page size, which the inner PVM's memory is mapped in.
pub const PVF_PAGE_SIZE: u32 = 4096;

/// The parts of a program blob, as plain values.
pub struct PvfParts {
    /// The code and jump table, as the `machine` host call takes them.
    pub code: Vec<u8>,
    pub ro_data: Vec<u8>,
    pub rw_data: Vec<u8>,
    pub ro_data_size: u32,
    pub rw_data_size: u32,
    pub stack_size: u32,
}

/// A memory map's layout, as plain values.
#[derive(Clone, Copy, Debug, PartialEq, Eq, Structural)]
pub struct PvfMemory {
    pub ro_data_address: u32,
    pub ro_data_size: u32,
    pub rw_data_address: u32,
    pub rw_data_size: u32,
    pub stack_address_low: u32,
    pub stack_address_high: u32,
    pub stack_size: u32,
    pub heap_base: u32,
    pub max_heap_size: u32,
}

/// What `ProgramParts::from_bytes` makes of a blob: the code and jump table,
/// the RO and RW data images and the RO, RW and stack sizes; `None` where it
/// refuses the blob.
pub uninterp spec fn pvf_parts_of(code: Seq<u8>) -> Option<(Seq<u8>, Seq<u8>, Seq<u8>, u32, u32, u32)>;

/// The exports, `(symbol, program counter)` in order, of the `ProgramBlob`
/// built from a blob's parts; `None` where parsing or building refuses it.
pub uninterp spec fn pvf_exports_of(code: Seq<u8>) -> Option<Seq<(Seq<u8>, u32)>>;

/// The layout `MemoryMapBuilder` builds for a page size and the RO, RW and
/// stack sizes; `None` where `build` refuses them.
pub uninterp spec fn pvf_memory_map_of(page_size: u32, ro_data_size: u32, rw_data_size: u32, stack_size: u32) -> Option<PvfMemory>;

/// `polkavm::ProgramParts::from_bytes`: claimed to fail exactly where
/// `pvf_parts_of` is `None`, and otherwise to give its parts.
#[verifier::external_body]
fn program_parts(code: &[u8]) -> (r: Option<PvfParts>)
    ensures
        match pvf_parts_of(code@) {
            None => r is None,
            Some((c, ro, rw, ro_size, rw_size, stack)) => r matches Some(p) && p.code@ == c
                && p.ro_data@ == ro && p.rw_data@ == rw && p.ro_data_size == ro_size
                && p.rw_data_size == rw_size && p.stack_size == stack,
        },
{
    match ProgramParts::from_bytes(ArcBytes::from(code)) {
        Ok(parts) => Some(PvfParts {
            code: parts.code_and_jump_table.to_vec(),
            ro_data: parts.ro_data.to_vec(),
            rw_data: parts.rw_data.to_vec(),
            ro_data_size: parts.ro_data_size,
            rw_data_size: parts.rw_data_size,
            stack_size: parts.stack_size,
        }),
        Err(_) => None,
    }
}

/// `polkavm::ProgramBlob::from_parts` over `ProgramParts::from_bytes`, then
/// its `exports()`: claimed to fail exactly where `pvf_exports_of` is `None`,
/// and otherwise to list its exports' symbols and program counters in order.
#[verifier::external_body]
fn program_exports(code: &[u8]) -> (r: Option<Vec<(Vec<u8>, u32)>>)
    ensures
        match pvf_exports_of(code@) {
            None => r is None,
            Some(es) => r matches Some(v) && v@.len() == es.len() && forall|i: int|
                0 <= i < es.len() ==> (#[trigger] v@[i]).0@ == es[i].0 && v@[i].1 == es[i].1,
        },
{
    let parts = match ProgramParts::from_bytes(ArcBytes::from(code)) {
        Ok(p) => p,
        Err(_) => return None,
    };
    let program = match ProgramBlob::from_parts(parts) {
        Ok(p) => p,
        Err(_) => return None,
    };
    Some(program.exports().map(|e| (e.symbol().as_bytes().to_vec(), e.program_counter().0)).collect())
}

/// `polkavm::MemoryMapBuilder::build` with these sizes: claimed to fail
/// exactly where `pvf_memory_map_of` is `None`, and otherwise to give that
/// layout. What its error message says is left unsaid.
#[verifier::external_body]
fn memory_map(page_size: u32, ro_data_size: u32, rw_data_size: u32, stack_size: u32) -> (r: Result<
    PvfMemory,
    &'static str,
>)
    ensures
        match pvf_memory_map_of(page_size, ro_data_size, rw_data_size, stack_size) {
            None => r is Err,
            Some(m) => r == Ok::<PvfMemory, &'static str>(m),
        },
{
    let m = MemoryMapBuilder::new(page_size).ro_data_size(ro_data_size).rw_data_size(rw_data_size)
        .stack_size(stack_size).build()?;
    Ok(PvfMemory {
        ro_data_address: m.ro_data_address(), ro_data_size: m.ro_data_size(),
        rw_data_address: m.rw_data_address(), rw_data_size: m.rw_data_size(),
        stack_address_low: m.stack_address_low(), stack_address_high: m.stack_address_high(),
        stack_size: m.stack_size(), heap_base: m.heap_base(), max_heap_size: m.max_heap_size(),
    })
}

/// A parsed PVF, ready to be set up as an inner PVM.
pub struct PvfLayout {
    /// The code and jump table, as the `machine` host call takes them.
    pub code: Vec<u8>,
    /// The program counter of the `jam_validate_block` export.
    pub entry_pc: u64,
    /// The RO data image.
    pub ro_data: Vec<u8>,
    /// The initialised RW data image; the rest of the RW region is zeroed.
    pub rw_data: Vec<u8>,
    /// The layout the program was linked against.
    pub memory: PvfMemory,
}

/// Why a PVF could not be parsed.
#[derive(Clone, Copy, Debug, PartialEq, Eq)]
pub enum PvfParseError {
    InvalidCodeBytes,
    InvalidMemoryMap(&'static str),
    InvalidProgramParts,
    /// Entry point `jam_validate_block` not found in the program.
    MissingEntryPoint,
}

/// `es[i]` is the first export named `jam_validate_block`.
pub open spec fn is_first_entry(es: Seq<(Seq<u8>, u32)>, i: int) -> bool {
    &&& 0 <= i < es.len()
    &&& es[i].0 == PVF_ENTRY_POINT@
    &&& forall|j: int| 0 <= j < i ==> #[trigger] es[j].0 != PVF_ENTRY_POINT@
}

/// The index of the first export named `jam_validate_block`.
pub open spec fn first_entry(es: Seq<(Seq<u8>, u32)>) -> Option<int> {
    if exists|i: int| is_first_entry(es, i) {
        Some(choose|i: int| is_first_entry(es, i))
    } else {
        None
    }
}

proof fn lemma_first_entry_unique(es: Seq<(Seq<u8>, u32)>, i: int)
    requires
        is_first_entry(es, i),
    ensures
        first_entry(es) == Some(i),
{
    let j = choose|j: int| is_first_entry(es, j);
    assert(is_first_entry(es, j));
    if j < i {
        assert(es[j].0 != PVF_ENTRY_POINT@);
    } else if i < j {
        assert(es[i].0 != PVF_ENTRY_POINT@);
    }
}

/// Parse a PVF: its parts, the memory map they call for in JAM's pages, and
/// the first `jam_validate_block` export, whose program counter is the
/// entry point.
pub fn parse_pvf(code: &[u8]) -> (r: Result<PvfLayout, PvfParseError>)
    ensures
        match pvf_parts_of(code@) {
            None => r == Err::<PvfLayout, PvfParseError>(PvfParseError::InvalidCodeBytes),
            Some((c, ro, rw, ro_size, rw_size, stack)) => match pvf_memory_map_of(
                PVF_PAGE_SIZE,
                ro_size,
                rw_size,
                stack,
            ) {
                None => r matches Err(PvfParseError::InvalidMemoryMap(_)),
                Some(m) => match pvf_exports_of(code@) {
                    None => r == Err::<PvfLayout, PvfParseError>(
                        PvfParseError::InvalidProgramParts,
                    ),
                    Some(es) => match first_entry(es) {
                        None => r == Err::<PvfLayout, PvfParseError>(
                            PvfParseError::MissingEntryPoint,
                        ),
                        Some(i) => r matches Ok(l) && l.code@ == c && l.ro_data@ == ro
                            && l.rw_data@ == rw && l.memory == m && l.entry_pc == es[i].1,
                    },
                },
            },
        },
{
    let parts = match program_parts(code) {
        Some(p) => p,
        None => return Err(PvfParseError::InvalidCodeBytes),
    };
    let memory = match memory_map(
        PVF_PAGE_SIZE,
        parts.ro_data_size,
        parts.rw_data_size,
        parts.stack_size,
    ) {
        Ok(m) => m,
        Err(e) => return Err(PvfParseError::InvalidMemoryMap(e)),
    };
    let exports = match program_exports(code) {
        Some(es) => es,
        None => return Err(PvfParseError::InvalidProgramParts),
    };
    let ghost es = match pvf_exports_of(code@) {
        Some(es) => es,
        None => Seq::empty(),
    };
    let mut i: usize = 0;
    while i < exports.len()
        invariant
            pvf_exports_of(code@) == Some(es),
            pvf_parts_of(code@) matches Some((c, ro, rw, ro_size, rw_size, stack)) && parts.code@
                == c && parts.ro_data@ == ro && parts.rw_data@ == rw && pvf_memory_map_of(
                PVF_PAGE_SIZE,
                ro_size,
                rw_size,
                stack,
            ) == Some(memory),
            exports@.len() == es.len(),
            forall|k: int|
                0 <= k < es.len() ==> (#[trigger] exports@[k]).0@ == es[k].0 && exports@[k].1
                    == es[k].1,
            i <= exports@.len(),
            forall|j: int| 0 <= j < i ==> #[trigger] es[j].0 != PVF_ENTRY_POINT@,
        decreases exports@.len() - i,
    {
        assert(exports@[i as int].0@ == es[i as int].0);
        if bytes_eq(exports[i].0.as_slice(), &PVF_ENTRY_POINT) {
            proof {
                assert(is_first_entry(es, i as int));
                lemma_first_entry_unique(es, i as int);
            }
            let entry_pc = exports[i].1 as u64;
            return Ok(PvfLayout {
                code: parts.code,
                entry_pc,
                ro_data: parts.ro_data,
                rw_data: parts.rw_data,
                memory,
            });
        }
        i = i + 1;
    }
    proof {
        assert(!exists|j: int| is_first_entry(es, j));
    }
    Err(PvfParseError::MissingEntryPoint)
}

} // verus!

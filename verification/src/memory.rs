//! Physical memory as a sequence of bytes, and what a shared mapping shows of
//! it.
//!
//! The byte at index `i` of the sequence is the byte at physical address `i`.
//! A region that is mapped shared shows the bytes of the memory from the
//! request's offset on, and what is written to the region is written to the
//! memory. The laws below say what this means for the usable view: it stands
//! for the requested bytes, no others.

use crate::mapping::overwrite;
use crate::plan::{lemma_frame, MapRequest, PlanView};
use vstd::prelude::*;

verus! {

/// The bytes of `memory` that a region mapped by `request` shows.
pub open spec fn mapped_bytes(memory: Seq<u8>, request: MapRequest) -> Seq<u8> {
    memory.subrange(request.offset as int, request.offset + request.length)
}

/// `memory` when the region mapped shared by `request` holds `region`.
pub open spec fn stored(memory: Seq<u8>, request: MapRequest, region: Seq<u8>) -> Seq<u8> {
    overwrite(memory, request.offset as int, region)
}

/// The first `n` bytes of the usable view are the `n` bytes of physical memory
/// from the requested address on.
pub proof fn lemma_view_shows_requested_bytes(
    plan: PlanView,
    map_base: int,
    memory: Seq<u8>,
    n: int,
)
    requires
        plan.wf(),
        plan.physical_addr + plan.len <= memory.len(),
        0 <= n <= plan.len,
    ensures
        mapped_bytes(memory, plan.request()).len() == plan.map_len(),
        plan.mapping(map_base).read(mapped_bytes(memory, plan.request()), n) == memory.subrange(
            plan.physical_addr,
            plan.physical_addr + n,
        ),
{
    lemma_frame(plan.physical_addr, plan.page_size);
    assert(plan.mapping(map_base).read(mapped_bytes(memory, plan.request()), n)
        =~= memory.subrange(plan.physical_addr, plan.physical_addr + n));
}

/// A write through the usable view stores the bytes in physical memory from
/// the requested address on, and changes no other byte.
pub proof fn lemma_write_stores_at_requested_address(
    plan: PlanView,
    map_base: int,
    memory: Seq<u8>,
    src: Seq<u8>,
)
    requires
        plan.wf(),
        plan.physical_addr + plan.len <= memory.len(),
        src.len() <= plan.len,
    ensures
        stored(
            memory,
            plan.request(),
            plan.mapping(map_base).write(mapped_bytes(memory, plan.request()), src),
        ) == overwrite(memory, plan.physical_addr, src),
{
    lemma_frame(plan.physical_addr, plan.page_size);
    assert(stored(
        memory,
        plan.request(),
        plan.mapping(map_base).write(mapped_bytes(memory, plan.request()), src),
    ) =~= overwrite(memory, plan.physical_addr, src));
}

/// What one mapping wrote, a later mapping of the same address reads: the
/// two share the memory, neither has a copy of its own.
pub proof fn lemma_later_mapping_reads_write(
    first: PlanView,
    first_base: int,
    second: PlanView,
    second_base: int,
    memory: Seq<u8>,
    src: Seq<u8>,
)
    requires
        first.wf(),
        second.wf(),
        first.physical_addr == second.physical_addr,
        first.physical_addr + first.len <= memory.len(),
        second.physical_addr + second.len <= memory.len(),
        src.len() <= first.len,
        src.len() <= second.len,
    ensures
        ({
            let written = first.mapping(first_base).write(
                mapped_bytes(memory, first.request()),
                src,
            );
            let after = stored(memory, first.request(), written);
            second.mapping(second_base).read(
                mapped_bytes(after, second.request()),
                src.len() as int,
            ) == src
        }),
{
    let written = first.mapping(first_base).write(mapped_bytes(memory, first.request()), src);
    let after = stored(memory, first.request(), written);
    lemma_write_stores_at_requested_address(first, first_base, memory, src);
    lemma_view_shows_requested_bytes(second, second_base, after, src.len() as int);
    assert(after.subrange(second.physical_addr, second.physical_addr + src.len()) =~= src);
}

} // verus!

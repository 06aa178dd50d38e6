//! An active mapping and the transfers through it.
//!
//! The mapped region starts at a page frame. The usable view is the part of it
//! that stands for the requested bytes: it starts where the requested address
//! lies in its frame and runs to the end of the region. A transfer copies
//! between a buffer and the start of the usable view, inside the bounds of the
//! view.

use crate::plan::{lemma_frame, MapPlan, PlanView};
use vstd::prelude::*;

verus! {

/// The standard library's `copy_from_slice` on slices. Taken on trust: called
/// with two slices of the same length, it leaves in `dst` what `src` holds.
/// With different lengths it panics, so no such call is made.
pub assume_specification<T>[ <[T]>::copy_from_slice ](dst: &mut [T], src: &[T]) where T: Copy
    requires
        old(dst)@.len() == src@.len(),
    ensures
        final(dst)@ == src@,
;

/// `bytes` with `src` in place of what stood from index `at` on; the other
/// bytes stay.
pub open spec fn overwrite(bytes: Seq<u8>, at: int, src: Seq<u8>) -> Seq<u8> {
    Seq::new(
        bytes.len(),
        |i: int|
            if at <= i < at + src.len() {
                src[i - at]
            } else {
                bytes[i]
            },
    )
}

/// The arguments of the call that lets a mapped region go.
#[derive(Clone, Copy, Debug, PartialEq, Eq)]
pub struct UnmapRequest {
    /// Where the mapped region starts in the address space.
    pub base: usize,
    /// All bytes of the mapped region.
    pub length: usize,
}

/// A mapping as a mathematical value: the addresses are numbers.
pub struct MappingView {
    /// Where the mapped region starts.
    pub map_base: int,
    /// The length of the mapped region, with what lies before the usable view.
    pub len: int,
    /// Where the usable view starts.
    pub slice_base: int,
    /// The length of the usable view.
    pub slice_max_len: int,
}

impl MappingView {
    /// The usable view is not empty, starts inside the mapped region and ends
    /// where the region ends; the region lies in the address space.
    pub open spec fn wf(self) -> bool {
        &&& 0 <= self.map_base
        &&& 0 < self.slice_max_len
        &&& self.map_base <= self.slice_base < self.map_base + self.len
        &&& self.slice_base + self.slice_max_len == self.map_base + self.len
        &&& self.map_base + self.len <= usize::MAX
    }

    /// Where the usable view starts in the mapped region.
    pub open spec fn view_offset(self) -> int {
        self.slice_base - self.map_base
    }

    /// The first `n` bytes of the usable view of `region`.
    pub open spec fn read(self, region: Seq<u8>, n: int) -> Seq<u8> {
        region.subrange(self.view_offset(), self.view_offset() + n)
    }

    /// `region` with `src` stored at the start of the usable view.
    pub open spec fn write(self, region: Seq<u8>, src: Seq<u8>) -> Seq<u8> {
        overwrite(region, self.view_offset(), src)
    }

    /// The whole mapped region is let go.
    pub open spec fn unmap_request(self) -> UnmapRequest {
        UnmapRequest { base: self.map_base as usize, length: self.len as usize }
    }
}

impl PlanView {
    /// The mapping that this plan gives when the region was mapped at
    /// `map_base`.
    pub open spec fn mapping(self, map_base: int) -> MappingView {
        MappingView {
            map_base,
            len: self.map_len(),
            slice_base: map_base + self.frame_offset(),
            slice_max_len: self.len,
        }
    }
}

/// An active mapping of physical memory into the address space.
#[derive(Debug, PartialEq, Eq)]
pub struct Mapping {
    map_base: usize,
    len: usize,
    slice_base: usize,
    slice_max_len: usize,
}

impl View for Mapping {
    type V = MappingView;

    closed spec fn view(&self) -> MappingView {
        MappingView {
            map_base: self.map_base as int,
            len: self.len as int,
            slice_base: self.slice_base as int,
            slice_max_len: self.slice_max_len as int,
        }
    }
}

impl Mapping {
    /// Holds of every value of this type.
    #[verifier::type_invariant]
    pub open spec fn inv(self) -> bool {
        self@.wf()
    }

    /// The mapping that `plan` gives, once the region that it asks for was
    /// mapped at `map_base`.
    pub fn new(plan: &MapPlan, map_base: usize) -> (mapping: Mapping)
        requires
            map_base + plan@.map_len() <= usize::MAX,
        ensures
            mapping@ == plan@.mapping(map_base as int),
            mapping@.wf(),
    {
        proof {
            use_type_invariant(plan);
            lemma_frame(plan@.physical_addr, plan@.page_size);
        }
        let frame_offset: usize = plan.frame_offset();
        let len: usize = plan.map_len();
        Mapping {
            map_base,
            len,
            slice_base: map_base + frame_offset,
            slice_max_len: len - frame_offset,
        }
    }

    /// Where the mapped region starts in the address space.
    pub fn map_base(&self) -> (addr: usize)
        ensures
            addr == self@.map_base,
    {
        self.map_base
    }

    /// The length of the mapped region.
    pub fn len(&self) -> (n: usize)
        ensures
            n == self@.len,
    {
        self.len
    }

    /// Where the usable view starts in the address space.
    pub fn slice_base(&self) -> (addr: usize)
        ensures
            addr == self@.slice_base,
    {
        self.slice_base
    }

    /// The length of the usable view: the most that one transfer can copy.
    pub fn slice_max_len(&self) -> (n: usize)
        ensures
            n == self@.slice_max_len,
    {
        self.slice_max_len
    }

    /// The arguments of the call that unmaps the whole region.
    pub fn unmap_request(&self) -> (request: UnmapRequest)
        ensures
            request == self@.unmap_request(),
    {
        UnmapRequest { base: self.map_base, length: self.len }
    }

    /// Copies the first `dst.len()` bytes of the usable view into `dst`.
    /// `region` holds the bytes of the mapped region, all `len()` of them.
    pub fn copy_into_slice(&self, region: &[u8], dst: &mut [u8])
        requires
            region.len() == self@.len,
            old(dst).len() <= self@.slice_max_len,
        ensures
            final(dst)@ == self@.read(region@, old(dst)@.len() as int),
    {
        proof {
            use_type_invariant(self);
        }
        let mapped_slice = self.as_slice(region, dst.len());
        dst.copy_from_slice(mapped_slice);
    }

    /// Copies `src` to the start of the usable view. `region` holds the bytes
    /// of the mapped region, all `len()` of them; those outside the first
    /// `src.len()` of the usable view stay.
    pub fn copy_from_slice(&mut self, region: &mut [u8], src: &[u8])
        requires
            old(region).len() == old(self)@.len,
            src.len() <= old(self)@.slice_max_len,
        ensures
            final(region)@ == old(self)@.write(old(region)@, src@),
            final(self)@ == old(self)@,
    {
        proof {
            use_type_invariant(&*self);
        }
        let mapped_slice = self.as_mut_slice(region, src.len());
        mapped_slice.copy_from_slice(src);
        assert(final(region)@ =~= old(self)@.write(old(region)@, src@));
    }

    /// The first `slice_len` bytes of the usable view of `region`.
    fn as_slice<'a>(&self, region: &'a [u8], slice_len: usize) -> (view: &'a [u8])
        requires
            region.len() == self@.len,
            slice_len <= self@.slice_max_len,
        ensures
            view@ == self@.read(region@, slice_len as int),
    {
        proof {
            use_type_invariant(self);
        }
        let start: usize = self.slice_base - self.map_base;
        &region[start..start + slice_len]
    }

    /// The first `slice_len` bytes of the usable view of `region`, to write to.
    fn as_mut_slice<'a>(&self, region: &'a mut [u8], slice_len: usize) -> (view: &'a mut [u8])
        requires
            old(region).len() == self@.len,
            slice_len <= self@.slice_max_len,
        ensures
            view@ == self@.read(old(region)@, slice_len as int),
            final(region)@ == old(region)@.subrange(0, self@.view_offset()) + final(view)@
                + old(region)@.subrange(
                self@.view_offset() + slice_len,
                old(region)@.len() as int,
            ),
    {
        proof {
            use_type_invariant(self);
        }
        let start: usize = self.slice_base - self.map_base;
        let (_, rest) = region.split_at_mut(start);
        let (view, _) = rest.split_at_mut(slice_len);
        view
    }
}

/// What a transfer wrote into the usable view, a transfer of the same length
/// reads back; the region keeps its length.
pub proof fn lemma_read_after_write(mapping: MappingView, region: Seq<u8>, src: Seq<u8>)
    requires
        mapping.wf(),
        region.len() == mapping.len,
        src.len() <= mapping.slice_max_len,
    ensures
        mapping.write(region, src).len() == region.len(),
        mapping.read(mapping.write(region, src), src.len() as int) == src,
{
    assert(mapping.read(mapping.write(region, src), src.len() as int) =~= src);
}

/// Reading `n` bytes and writing them back leaves the region as it was, so
/// that reading again gives the same bytes.
pub proof fn lemma_round_trip(mapping: MappingView, region: Seq<u8>, n: int)
    requires
        mapping.wf(),
        region.len() == mapping.len,
        0 <= n <= mapping.slice_max_len,
    ensures
        mapping.write(region, mapping.read(region, n)) == region,
        mapping.read(mapping.write(region, mapping.read(region, n)), n) == mapping.read(
            region,
            n,
        ),
{
    assert(mapping.write(region, mapping.read(region, n)) =~= region);
}

/// Where the requested address lies `o` bytes above the start of its page,
/// with `o` not zero, the region is asked for from `o` bytes below the address
/// on, and the usable view starts `o` bytes into the mapped region.
pub proof fn lemma_unaligned_address(plan: PlanView, map_base: int, o: int)
    requires
        plan.wf(),
        0 < o < plan.page_size,
        plan.physical_addr % plan.page_size == o,
    ensures
        plan.request().offset == plan.physical_addr - o,
        plan.request().length == plan.len + o,
        plan.mapping(map_base).slice_base == map_base + o,
        plan.mapping(map_base).view_offset() == o,
{
    lemma_frame(plan.physical_addr, plan.page_size);
}

} // verus!

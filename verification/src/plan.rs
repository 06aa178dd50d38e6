//! What to ask of the operating system for a physical address range.
//!
//! A mapping can start only at a multiple of the page size. The requested
//! address is usually not one, so the mapping starts at the page frame that
//! holds the address and is longer than the request by the address's offset in
//! that frame.

use vstd::prelude::*;

verus! {

/// The offset of `physical_addr` in the page frame that holds it.
pub open spec fn frame_offset(physical_addr: int, page_size: int) -> int {
    physical_addr % page_size
}

/// The start of the page frame that holds `physical_addr`.
pub open spec fn frame_addr(physical_addr: int, page_size: int) -> int {
    physical_addr - frame_offset(physical_addr, page_size)
}

/// The page frame of an address starts at a multiple of the page size, at or
/// below the address and less than one page below it; frame start and offset
/// add up to the address.
pub proof fn lemma_frame(physical_addr: int, page_size: int)
    requires
        0 <= physical_addr,
        0 < page_size,
    ensures
        0 <= frame_offset(physical_addr, page_size) < page_size,
        0 <= frame_addr(physical_addr, page_size) <= physical_addr,
        physical_addr < frame_addr(physical_addr, page_size) + page_size,
        frame_addr(physical_addr, page_size) + frame_offset(physical_addr, page_size)
            == physical_addr,
        frame_addr(physical_addr, page_size) % page_size == 0,
{
    assert(0 <= physical_addr % page_size < page_size && physical_addr % page_size
        <= physical_addr && (physical_addr - physical_addr % page_size) % page_size == 0)
        by (nonlinear_arith)
        requires
            0 <= physical_addr,
            0 < page_size,
    ;
}

/// How the device that stands for physical memory is opened.
#[derive(Clone, Copy, Debug, PartialEq, Eq)]
pub struct DeviceAccess {
    /// The device is read from.
    pub read: bool,
    /// The device is written to.
    pub write: bool,
    /// Reads and writes reach the memory at once, none is buffered.
    pub synchronous: bool,
}

/// The arguments of the call that maps a region.
#[derive(Clone, Copy, Debug, PartialEq, Eq)]
pub struct MapRequest {
    /// Bytes to map.
    pub length: usize,
    /// Where the region starts in the device: a multiple of the page size.
    pub offset: usize,
    /// The region is read from.
    pub readable: bool,
    /// The region is written to.
    pub writable: bool,
    /// Writes go to the device, not to a private copy.
    pub shared: bool,
}

/// A plan as a mathematical value.
pub struct PlanView {
    pub physical_addr: int,
    pub len: int,
    pub page_size: int,
}

impl PlanView {
    /// The request is not empty, the page size is positive and the length of
    /// the region to map fits the machine.
    pub open spec fn wf(self) -> bool {
        &&& 0 <= self.physical_addr <= usize::MAX
        &&& 0 < self.len
        &&& 0 < self.page_size <= usize::MAX
        &&& self.len + frame_offset(self.physical_addr, self.page_size) <= usize::MAX
    }

    /// Where the requested address lies in the mapped region.
    pub open spec fn frame_offset(self) -> int {
        frame_offset(self.physical_addr, self.page_size)
    }

    /// Where the mapped region starts in physical memory.
    pub open spec fn frame_addr(self) -> int {
        frame_addr(self.physical_addr, self.page_size)
    }

    /// The length of the mapped region: the request and what lies before it in
    /// its page frame.
    pub open spec fn map_len(self) -> int {
        self.len + self.frame_offset()
    }

    /// The device is opened for reading and writing, unbuffered.
    pub open spec fn device_access(self) -> DeviceAccess {
        DeviceAccess { read: true, write: true, synchronous: true }
    }

    /// The region is mapped from the frame start on, readable, writable and
    /// shared.
    pub open spec fn request(self) -> MapRequest {
        MapRequest {
            length: self.map_len() as usize,
            offset: self.frame_addr() as usize,
            readable: true,
            writable: true,
            shared: true,
        }
    }
}

/// The plan for reaching `len` bytes of physical memory from `physical_addr` on.
#[derive(Clone, Copy, Debug, PartialEq, Eq)]
pub struct MapPlan {
    physical_addr: usize,
    len: usize,
    page_size: usize,
}

impl View for MapPlan {
    type V = PlanView;

    closed spec fn view(&self) -> PlanView {
        PlanView {
            physical_addr: self.physical_addr as int,
            len: self.len as int,
            page_size: self.page_size as int,
        }
    }
}

impl MapPlan {
    /// Holds of every value of this type.
    #[verifier::type_invariant]
    pub open spec fn inv(self) -> bool {
        self@.wf()
    }

    /// Plans the mapping of `len` bytes from `physical_addr` on, for a system
    /// whose pages have `page_size` bytes.
    pub fn new(physical_addr: usize, len: usize, page_size: usize) -> (plan: MapPlan)
        requires
            len > 0,
            page_size > 0,
            len + frame_offset(physical_addr as int, page_size as int) <= usize::MAX,
        ensures
            plan@ == (PlanView {
                physical_addr: physical_addr as int,
                len: len as int,
                page_size: page_size as int,
            }),
            plan@.wf(),
    {
        MapPlan { physical_addr, len, page_size }
    }

    /// The offset of the requested address in its page frame.
    pub fn frame_offset(&self) -> (offset: usize)
        ensures
            offset == self@.frame_offset(),
            offset < self@.page_size,
    {
        proof {
            use_type_invariant(self);
            lemma_frame(self@.physical_addr, self@.page_size);
        }
        self.physical_addr % self.page_size
    }

    /// The start of the page frame that holds the requested address.
    pub fn frame_addr(&self) -> (addr: usize)
        ensures
            addr == self@.frame_addr(),
            addr as int % self@.page_size == 0,
    {
        proof {
            use_type_invariant(self);
            lemma_frame(self@.physical_addr, self@.page_size);
        }
        self.physical_addr - self.frame_offset()
    }

    /// The number of bytes to map.
    pub fn map_len(&self) -> (n: usize)
        ensures
            n == self@.map_len(),
    {
        proof {
            use_type_invariant(self);
        }
        self.len + self.frame_offset()
    }

    /// How to open the device.
    pub fn device_access(&self) -> (access: DeviceAccess)
        ensures
            access == self@.device_access(),
    {
        DeviceAccess { read: true, write: true, synchronous: true }
    }

    /// The arguments of the mapping call.
    pub fn request(&self) -> (request: MapRequest)
        ensures
            request == self@.request(),
            request.offset as int % self@.page_size == 0,
            request.offset + self@.frame_offset() == self@.physical_addr,
            request.length == self@.len + self@.frame_offset(),
    {
        MapRequest {
            length: self.map_len(),
            offset: self.frame_addr(),
            readable: true,
            writable: true,
            shared: true,
        }
    }
}

} // verus!

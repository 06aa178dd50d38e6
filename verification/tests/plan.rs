use physmap::{DeviceAccess, MapPlan, MapRequest, Mapping, UnmapRequest};

#[test]
fn unaligned_address_is_split() {
    let plan = MapPlan::new(0x1234, 16, 4096);
    assert_eq!(plan.frame_offset(), 0x234);
    assert_eq!(plan.frame_addr(), 0x1000);
    assert_eq!(plan.map_len(), 0x244);
    assert_eq!(
        plan.request(),
        MapRequest { length: 0x244, offset: 0x1000, readable: true, writable: true, shared: true }
    );
}

#[test]
fn aligned_address_needs_no_padding() {
    let plan = MapPlan::new(0x2000, 64, 4096);
    assert_eq!(plan.frame_offset(), 0);
    assert_eq!(plan.frame_addr(), 0x2000);
    assert_eq!(plan.map_len(), 64);
    assert_eq!(plan.request().offset, 0x2000);
    assert_eq!(plan.request().length, 64);
}

#[test]
fn address_zero_is_its_own_frame() {
    let plan = MapPlan::new(0, 1, 4096);
    assert_eq!(plan.frame_offset(), 0);
    assert_eq!(plan.frame_addr(), 0);
    assert_eq!(plan.map_len(), 1);
}

#[test]
fn last_byte_of_a_page() {
    let plan = MapPlan::new(0x1fff, 2, 4096);
    assert_eq!(plan.frame_offset(), 0xfff);
    assert_eq!(plan.frame_addr(), 0x1000);
    assert_eq!(plan.map_len(), 0x1001);
}

#[test]
fn page_size_need_not_be_a_power_of_two() {
    let plan = MapPlan::new(2500, 10, 1000);
    assert_eq!(plan.frame_offset(), 500);
    assert_eq!(plan.frame_addr(), 2000);
    assert_eq!(plan.map_len(), 510);
}

#[test]
fn page_size_one_aligns_every_address() {
    let plan = MapPlan::new(12345, 7, 1);
    assert_eq!(plan.frame_offset(), 0);
    assert_eq!(plan.frame_addr(), 12345);
    assert_eq!(plan.map_len(), 7);
}

#[test]
fn longest_request_that_fits() {
    let plan = MapPlan::new(0x1234, usize::MAX - 0x234, 4096);
    assert_eq!(plan.map_len(), usize::MAX);
    assert_eq!(plan.frame_addr(), 0x1000);
}

#[test]
fn highest_address() {
    let plan = MapPlan::new(usize::MAX, 1, 4096);
    assert_eq!(plan.frame_offset(), 4095);
    assert_eq!(plan.frame_addr(), usize::MAX - 4095);
    assert_eq!(plan.map_len(), 4096);
}

#[test]
fn device_is_opened_for_unbuffered_reading_and_writing() {
    let plan = MapPlan::new(0x1234, 16, 4096);
    assert_eq!(plan.device_access(), DeviceAccess { read: true, write: true, synchronous: true });
}

#[test]
fn request_starts_at_a_page_and_covers_the_range() {
    let page_size = 4096;
    for physical_addr in [0usize, 1, 4095, 4096, 4097, 0x1234, 0xdead_beef, 0xfed0_0004] {
        for len in [1usize, 2, 4095, 4096, 4097, 100_000] {
            let request = MapPlan::new(physical_addr, len, page_size).request();
            assert_eq!(request.offset % page_size, 0);
            assert!(request.offset <= physical_addr);
            assert!(physical_addr - request.offset < page_size);
            assert_eq!(request.offset + request.length, physical_addr + len);
        }
    }
}

#[test]
fn offset_in_page_moves_request_and_view() {
    let page_size = 4096;
    let map_base = 0x7f00_0000_0000usize;
    for page in [0usize, 1, 7, 0xfed0] {
        for o in [1usize, 2, 0x234, 2048, 4094, 4095] {
            let physical_addr = page * page_size + o;
            let plan = MapPlan::new(physical_addr, 8, page_size);
            assert_eq!(plan.request().offset, physical_addr - o);
            let mapping = Mapping::new(&plan, map_base);
            assert_eq!(mapping.slice_base(), mapping.map_base() + o);
        }
    }
}

#[test]
fn mapping_holds_region_and_view() {
    let plan = MapPlan::new(0x1234, 16, 4096);
    let mapping = Mapping::new(&plan, 0x7000_0000);
    assert_eq!(mapping.map_base(), 0x7000_0000);
    assert_eq!(mapping.len(), 0x244);
    assert_eq!(mapping.slice_base(), 0x7000_0234);
    assert_eq!(mapping.slice_max_len(), 16);
    assert_eq!(mapping.unmap_request(), UnmapRequest { base: 0x7000_0000, length: 0x244 });
}

#[test]
fn view_lies_in_region_and_ends_with_it() {
    for (physical_addr, len, page_size, map_base) in [
        (0usize, 1usize, 4096usize, 0x1000usize),
        (0x1234, 16, 4096, 0x7000_0000),
        (0x1fff, 2, 4096, 0x7000_0000),
        (2500, 10, 1000, 0),
        (0xfed0_0ffc, 0x2000, 4096, 0x7f00_0000_0000),
    ] {
        let mapping = Mapping::new(&MapPlan::new(physical_addr, len, page_size), map_base);
        assert!(mapping.map_base() <= mapping.slice_base());
        assert!(mapping.slice_base() < mapping.map_base() + mapping.len());
        assert_eq!(
            mapping.slice_base() + mapping.slice_max_len(),
            mapping.map_base() + mapping.len()
        );
        assert_eq!(mapping.slice_max_len(), len);
    }
}

#[test]
fn region_may_end_at_the_top_of_the_address_space() {
    let plan = MapPlan::new(0x1234, 16, 4096);
    let map_base = usize::MAX - 0x244;
    let mapping = Mapping::new(&plan, map_base);
    assert_eq!(mapping.slice_base(), usize::MAX - 16);
    assert_eq!(mapping.unmap_request(), UnmapRequest { base: map_base, length: 0x244 });
}

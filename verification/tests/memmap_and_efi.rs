use bootgfx::efi::{check_firmware_status, check_protocol_lookup, graphics_output_protocol_guid};
use bootgfx::error::{EfiStatus, Error};
use bootgfx::memmap::{memory_type_from, EfiMemoryType, MemoryMap};

fn descriptor_bytes(
    memory_type: u32,
    physical_start: u64,
    virtual_start: u64,
    pages: u64,
    attribute: u64,
    stride: usize,
) -> Vec<u8> {
    let mut b = vec![0u8; stride];
    b[0..4].copy_from_slice(&memory_type.to_le_bytes());
    b[8..16].copy_from_slice(&physical_start.to_le_bytes());
    b[16..24].copy_from_slice(&virtual_start.to_le_bytes());
    b[24..32].copy_from_slice(&pages.to_le_bytes());
    b[32..40].copy_from_slice(&attribute.to_le_bytes());
    b
}

fn sample_map(stride: usize) -> MemoryMap {
    let mut buf = Vec::new();
    buf.extend(descriptor_bytes(7, 0x1000, 0, 16, 0xf, stride));
    buf.extend(descriptor_bytes(2, 0x2000_0000, 0x8000_0000_0000, 1, 0x8000_0000_0000_000f, stride));
    // trailing bytes beyond the used size must be ignored
    buf.extend([0xaa; 7]);
    let used = 2 * stride;
    MemoryMap {
        buf,
        used,
        descriptor_size: stride,
        map_key: 42,
        descriptor_version: 1,
    }
}

#[test]
fn walk_decodes_descriptors_at_the_reported_stride() {
    // a stride larger than the structure itself: the walk must advance
    // by the reported size, not the declared one
    let map = sample_map(48);
    assert_eq!(map.len(), 2);
    let d0 = map.descriptor_at(0);
    assert_eq!(d0.memory_type, 7);
    assert_eq!(d0.physical_start, 0x1000);
    assert_eq!(d0.virtual_start, 0);
    assert_eq!(d0.number_of_pages, 16);
    assert_eq!(d0.attribute, 0xf);
    assert_eq!(d0.region_type(), Some(EfiMemoryType::ConventionalMemory));
    let d1 = map.descriptor_at(1);
    assert_eq!(d1.memory_type, 2);
    assert_eq!(d1.physical_start, 0x2000_0000);
    assert_eq!(d1.virtual_start, 0x8000_0000_0000);
    assert_eq!(d1.number_of_pages, 1);
    assert_eq!(d1.attribute, 0x8000_0000_0000_000f);
    assert_eq!(d1.region_type(), Some(EfiMemoryType::LoaderData));
}

#[test]
fn walking_twice_yields_identical_sequences() {
    let map = sample_map(40);
    let mut first = Vec::new();
    let mut it = map.iter();
    while let Some(d) = it.next(&map) {
        first.push(d);
    }
    let mut second = Vec::new();
    let mut it = map.iter();
    while let Some(d) = it.next(&map) {
        second.push(d);
    }
    assert_eq!(first, second);
    assert_eq!(first, map.collect_descriptors());
    assert_eq!(first.len(), 2);
}

#[test]
fn yielded_strides_never_exceed_the_used_size() {
    for stride in [40usize, 48, 56] {
        let map = sample_map(stride);
        assert!(map.len() * map.descriptor_size <= map.used);
    }
    // a partial trailing descriptor is not yielded
    let mut map = sample_map(40);
    map.used = 79;
    assert_eq!(map.len(), 1);
    assert!(map.len() * map.descriptor_size <= map.used);
}

#[test]
fn undersized_buffers_yield_an_empty_sequence() {
    let map = MemoryMap {
        buf: vec![0u8; 64],
        used: 39,
        descriptor_size: 40,
        map_key: 0,
        descriptor_version: 1,
    };
    assert_eq!(map.len(), 0);
    assert!(map.collect_descriptors().is_empty());
    let mut it = map.iter();
    assert!(it.next(&map).is_none());
    // a stride too small to hold a descriptor yields nothing either
    let tiny = MemoryMap {
        buf: vec![0u8; 64],
        used: 64,
        descriptor_size: 16,
        map_key: 0,
        descriptor_version: 1,
    };
    assert_eq!(tiny.len(), 0);
}

#[test]
fn region_types_decode_exactly() {
    assert_eq!(memory_type_from(0), Some(EfiMemoryType::ReservedMemoryType));
    assert_eq!(memory_type_from(7), Some(EfiMemoryType::ConventionalMemory));
    assert_eq!(memory_type_from(14), Some(EfiMemoryType::PersistentMemory));
    assert_eq!(memory_type_from(15), None);
    assert_eq!(memory_type_from(0xffff_ffff), None);
}

#[test]
fn graphics_guid_matches_the_platform_value() {
    let g = graphics_output_protocol_guid();
    assert_eq!(g.data0, 0x9042a9de);
    assert_eq!(g.data1, 0x23dc);
    assert_eq!(g.data2, 0x4a38);
    assert_eq!(g.data3, [0x96, 0xfb, 0x7a, 0xde, 0xd0, 0x80, 0x51, 0x6a]);
}

#[test]
fn protocol_lookup_decision() {
    let ok = EfiStatus::success();
    assert_eq!(check_protocol_lookup(ok, false), Ok(()));
    assert_eq!(check_protocol_lookup(ok, true), Err(Error::ProtocolNotFound));
    let failed = EfiStatus { code: 0x8000_0000_0000_0003 };
    assert_eq!(check_protocol_lookup(failed, false), Err(Error::ProtocolNotFound));
}

#[test]
fn firmware_status_decision_carries_the_status() {
    let ok = EfiStatus::success();
    assert!(ok.is_success());
    assert_eq!(check_firmware_status(ok), Ok(()));
    let failed = EfiStatus { code: 5 };
    assert!(!failed.is_success());
    assert_eq!(check_firmware_status(failed), Err(Error::FirmwareCallFailed(failed)));
}

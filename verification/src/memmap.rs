//! The memory descriptor enumerator: a finite, freely restartable walk
//! over the flat byte buffer a firmware memory-map query filled, in
//! strides of the firmware-reported descriptor size.
//!
//! The walk advances by the reported stride, not this structure's own
//! size, to stay compatible with firmware that appends fields; an empty
//! or undersized buffer simply yields an empty sequence.

use vstd::arithmetic::div_mod::lemma_fundamental_div_mod;
use vstd::arithmetic::mul::{lemma_mul_inequality, lemma_mul_is_distributive_sub_other_way};
use vstd::prelude::*;

verus! {

/// The bytes a descriptor occupies in the buffer at minimum: its five
/// fields and the padding between the first two.
pub const DESCRIPTOR_BYTES: usize = 40;

/// The kind of a physical memory region, one of the fifteen
/// firmware-defined values.
#[derive(Clone, Copy, PartialEq, Eq, Structural, Debug)]
pub enum EfiMemoryType {
    /// Value 0: memory reserved from any use.
    ReservedMemoryType,
    /// Value 1: code of a loaded application.
    LoaderCode,
    /// Value 2: data of a loaded application.
    LoaderData,
    /// Value 3: code of firmware boot services.
    BootServicesCode,
    /// Value 4: data of firmware boot services.
    BootServicesData,
    /// Value 5: code of firmware runtime services.
    RuntimeServicesCode,
    /// Value 6: data of firmware runtime services.
    RuntimeServicesData,
    /// Value 7: free usable memory.
    ConventionalMemory,
    /// Value 8: memory with detected errors.
    UnusableMemory,
    /// Value 9: memory holding reclaimable firmware tables.
    AcpiReclaimMemory,
    /// Value 10: memory the firmware keeps for itself.
    AcpiMemoryNvs,
    /// Value 11: memory-mapped device registers.
    MemoryMappedIo,
    /// Value 12: memory-mapped port space.
    MemoryMappedIoPortSpace,
    /// Value 13: processor firmware code.
    PalCode,
    /// Value 14: byte-addressable persistent memory.
    PersistentMemory,
}

/// The memory type a raw region-type word encodes, if any.
pub open spec fn memory_type_spec(v: u32) -> Option<EfiMemoryType> {
    if v == 0 {
        Some(EfiMemoryType::ReservedMemoryType)
    } else if v == 1 {
        Some(EfiMemoryType::LoaderCode)
    } else if v == 2 {
        Some(EfiMemoryType::LoaderData)
    } else if v == 3 {
        Some(EfiMemoryType::BootServicesCode)
    } else if v == 4 {
        Some(EfiMemoryType::BootServicesData)
    } else if v == 5 {
        Some(EfiMemoryType::RuntimeServicesCode)
    } else if v == 6 {
        Some(EfiMemoryType::RuntimeServicesData)
    } else if v == 7 {
        Some(EfiMemoryType::ConventionalMemory)
    } else if v == 8 {
        Some(EfiMemoryType::UnusableMemory)
    } else if v == 9 {
        Some(EfiMemoryType::AcpiReclaimMemory)
    } else if v == 10 {
        Some(EfiMemoryType::AcpiMemoryNvs)
    } else if v == 11 {
        Some(EfiMemoryType::MemoryMappedIo)
    } else if v == 12 {
        Some(EfiMemoryType::MemoryMappedIoPortSpace)
    } else if v == 13 {
        Some(EfiMemoryType::PalCode)
    } else if v == 14 {
        Some(EfiMemoryType::PersistentMemory)
    } else {
        None
    }
}

/// Decode a raw region-type word; values beyond the defined fifteen
/// yield `None`, which keeps the walk forward-compatible.
pub fn memory_type_from(v: u32) -> (r: Option<EfiMemoryType>)
    ensures
        r == memory_type_spec(v),
{
    if v == 0 {
        Some(EfiMemoryType::ReservedMemoryType)
    } else if v == 1 {
        Some(EfiMemoryType::LoaderCode)
    } else if v == 2 {
        Some(EfiMemoryType::LoaderData)
    } else if v == 3 {
        Some(EfiMemoryType::BootServicesCode)
    } else if v == 4 {
        Some(EfiMemoryType::BootServicesData)
    } else if v == 5 {
        Some(EfiMemoryType::RuntimeServicesCode)
    } else if v == 6 {
        Some(EfiMemoryType::RuntimeServicesData)
    } else if v == 7 {
        Some(EfiMemoryType::ConventionalMemory)
    } else if v == 8 {
        Some(EfiMemoryType::UnusableMemory)
    } else if v == 9 {
        Some(EfiMemoryType::AcpiReclaimMemory)
    } else if v == 10 {
        Some(EfiMemoryType::AcpiMemoryNvs)
    } else if v == 11 {
        Some(EfiMemoryType::MemoryMappedIo)
    } else if v == 12 {
        Some(EfiMemoryType::MemoryMappedIoPortSpace)
    } else if v == 13 {
        Some(EfiMemoryType::PalCode)
    } else if v == 14 {
        Some(EfiMemoryType::PersistentMemory)
    } else {
        None
    }
}

/// One physical memory region, as the firmware describes it.
#[derive(Clone, Copy, PartialEq, Eq, Structural, Debug)]
pub struct MemoryDescriptor {
    /// The raw region-type word; `region_type` decodes it.
    pub memory_type: u32,
    /// Physical address of the region's first byte.
    pub physical_start: u64,
    /// Virtual address the firmware assigned, if any.
    pub virtual_start: u64,
    /// Length of the region in 4 KiB pages.
    pub number_of_pages: u64,
    /// Capability bits of the region.
    pub attribute: u64,
}

impl MemoryDescriptor {
    /// The region's kind, if its raw word is one of the defined fifteen.
    pub fn region_type(&self) -> (r: Option<EfiMemoryType>)
        ensures
            r == memory_type_spec(self.memory_type),
    {
        memory_type_from(self.memory_type)
    }
}

/// The little-endian 32-bit value at `off`.
pub open spec fn le_u32_at(b: Seq<u8>, off: int) -> int {
    b[off] + 0x100 * b[off + 1] + 0x1_0000 * b[off + 2] + 0x100_0000 * b[off + 3]
}

/// The little-endian 64-bit value at `off`.
pub open spec fn le_u64_at(b: Seq<u8>, off: int) -> int {
    le_u32_at(b, off) + 0x1_0000_0000 * le_u32_at(b, off + 4)
}

/// The descriptor whose bytes start at `off`: a region-type word, four
/// bytes of padding, then four 64-bit words, all little-endian.
pub open spec fn descriptor_at_spec(b: Seq<u8>, off: int) -> MemoryDescriptor {
    MemoryDescriptor {
        memory_type: le_u32_at(b, off) as u32,
        physical_start: le_u64_at(b, off + 8) as u64,
        virtual_start: le_u64_at(b, off + 16) as u64,
        number_of_pages: le_u64_at(b, off + 24) as u64,
        attribute: le_u64_at(b, off + 32) as u64,
    }
}

/// How many whole strides fit in the used part of the buffer: the number
/// of descriptors the walk yields. A stride too small to hold a
/// descriptor yields none.
pub open spec fn descriptor_count_spec(used: int, dsize: int) -> int {
    if dsize < DESCRIPTOR_BYTES {
        0
    } else {
        used / dsize
    }
}

/// The sequence of descriptors the walk yields: one per stride, from
/// offset 0 up to the used size.
pub open spec fn descriptors_spec(b: Seq<u8>, used: int, dsize: int) -> Seq<MemoryDescriptor> {
    Seq::new(
        descriptor_count_spec(used, dsize) as nat,
        |i: int| descriptor_at_spec(b, i * dsize),
    )
}

/// The result of one firmware memory-map query: the filled buffer and
/// everything the firmware reported about it.
pub struct MemoryMap {
    /// The buffer handed to the firmware.
    pub buf: Vec<u8>,
    /// How many bytes of `buf` the firmware filled.
    pub used: usize,
    /// The stride between descriptors, as the firmware reported it; it
    /// may exceed `DESCRIPTOR_BYTES`.
    pub descriptor_size: usize,
    /// The firmware's key identifying this snapshot of the map.
    pub map_key: u64,
    /// The descriptor format version the firmware reported.
    pub descriptor_version: u32,
}

impl MemoryMap {
    /// The used part of the buffer does not exceed the buffer.
    pub open spec fn wf(&self) -> bool {
        self.used <= self.buf@.len()
    }

    /// The sequence of descriptors this map holds.
    pub open spec fn descriptors(&self) -> Seq<MemoryDescriptor> {
        descriptors_spec(self.buf@, self.used as int, self.descriptor_size as int)
    }

    /// How many descriptors the walk yields.
    pub fn len(&self) -> (n: usize)
        requires
            self.wf(),
        ensures
            n == self.descriptors().len(),
    {
        if self.descriptor_size < DESCRIPTOR_BYTES {
            0
        } else {
            self.used / self.descriptor_size
        }
    }

    /// The descriptor at walk position `i`.
    pub fn descriptor_at(&self, i: usize) -> (d: MemoryDescriptor)
        requires
            self.wf(),
            i < self.descriptors().len(),
        ensures
            d == self.descriptors()[i as int],
    {
        proof {
            lemma_stride_in_bounds(
                self.used as int,
                self.descriptor_size as int,
                i as int,
            );
        }
        let off: usize = i * self.descriptor_size;
        MemoryDescriptor {
            memory_type: read_u32_le(&self.buf, off),
            physical_start: read_u64_le(&self.buf, off + 8),
            virtual_start: read_u64_le(&self.buf, off + 16),
            number_of_pages: read_u64_le(&self.buf, off + 24),
            attribute: read_u64_le(&self.buf, off + 32),
        }
    }

    /// A fresh enumerator over this map, positioned at the start.
    pub fn iter(&self) -> (it: MemoryMapIter)
        ensures
            it.index == 0,
    {
        MemoryMapIter { index: 0 }
    }

    /// The whole walk at once.
    pub fn collect_descriptors(&self) -> (r: Vec<MemoryDescriptor>)
        requires
            self.wf(),
        ensures
            r@ == self.descriptors(),
    {
        let n: usize = self.len();
        let mut r: Vec<MemoryDescriptor> = Vec::new();
        let mut i: usize = 0;
        while i < n
            invariant
                self.wf(),
                n == self.descriptors().len(),
                i <= n,
                r@.len() == i,
                forall|j: int| 0 <= j < i ==> r@[j] == self.descriptors()[j],
            decreases n - i,
        {
            r.push(self.descriptor_at(i));
            i = i + 1;
        }
        proof {
            assert(r@ =~= self.descriptors());
        }
        r
    }
}

/// A position in the walk over a memory map. Restart by taking a fresh
/// enumerator from `MemoryMap::iter`.
pub struct MemoryMapIter {
    /// The walk position of the next descriptor to yield.
    pub index: usize,
}

impl MemoryMapIter {
    /// The next descriptor of the walk, or `None` once the used part of
    /// the buffer is exhausted. What comes out is a function of the map
    /// and the position alone, so re-walking the same map yields the
    /// same sequence.
    pub fn next(&mut self, map: &MemoryMap) -> (r: Option<MemoryDescriptor>)
        requires
            map.wf(),
        ensures
            old(self).index < map.descriptors().len() ==> {
                &&& r == Some(map.descriptors()[old(self).index as int])
                &&& final(self).index == old(self).index + 1
            },
            old(self).index >= map.descriptors().len() ==> {
                &&& r is None
                &&& final(self).index == old(self).index
            },
    {
        if self.index < map.len() {
            let d = map.descriptor_at(self.index);
            self.index = self.index + 1;
            Some(d)
        } else {
            None
        }
    }
}

/// A whole stride at walk position `i` lies inside the used part of the
/// buffer.
pub proof fn lemma_stride_in_bounds(used: int, dsize: int, i: int)
    requires
        0 <= used,
        0 <= i < descriptor_count_spec(used, dsize),
    ensures
        0 <= i * dsize,
        i * dsize + dsize <= used,
{
    let n = used / dsize;
    lemma_fundamental_div_mod(used, dsize);
    vstd::arithmetic::div_mod::lemma_mod_bound(used, dsize);
    assert(n * dsize <= used) by (nonlinear_arith)
        requires
            used == dsize * n + used % dsize,
            used % dsize >= 0,
    ;
    lemma_mul_inequality(i, n - 1, dsize);
    lemma_mul_is_distributive_sub_other_way(dsize, n, 1);
    assert(0 <= i * dsize) by (nonlinear_arith)
        requires
            0 <= i,
            0 < dsize,
    ;
}

/// However many descriptors the walk yields, the strides they occupy
/// never exceed the used size the firmware reported.
pub proof fn lemma_total_descriptor_bytes(b: Seq<u8>, used: int, dsize: int)
    requires
        0 <= used,
    ensures
        descriptors_spec(b, used, dsize).len() * dsize <= used,
{
    if dsize < DESCRIPTOR_BYTES {
        assert(descriptors_spec(b, used, dsize).len() == 0);
    } else {
        let n = used / dsize;
        lemma_fundamental_div_mod(used, dsize);
        vstd::arithmetic::div_mod::lemma_mod_bound(used, dsize);
        assert(n * dsize <= used) by (nonlinear_arith)
            requires
                used == dsize * n + used % dsize,
                used % dsize >= 0,
        ;
    }
}

/// Walking the same query twice yields identical descriptor sequences:
/// the walk is a function of the buffer and the reported sizes alone.
pub proof fn lemma_walk_restartable(
    map: MemoryMap,
    first: Seq<MemoryDescriptor>,
    second: Seq<MemoryDescriptor>,
)
    requires
        first == map.descriptors(),
        second == map.descriptors(),
    ensures
        first == second,
{
}

/// The little-endian 32-bit word at `off`.
fn read_u32_le(b: &Vec<u8>, off: usize) -> (r: u32)
    requires
        off + 4 <= b@.len(),
    ensures
        r == le_u32_at(b@, off as int),
{
    let n: usize = b.len();
    (b[off] as u32) + 0x100 * (b[off + 1] as u32) + 0x1_0000 * (b[off + 2] as u32) + 0x100_0000
        * (b[off + 3] as u32)
}

/// The little-endian 64-bit word at `off`.
fn read_u64_le(b: &Vec<u8>, off: usize) -> (r: u64)
    requires
        off + 8 <= b@.len(),
    ensures
        r == le_u64_at(b@, off as int),
{
    let n: usize = b.len();
    let lo: u32 = read_u32_le(b, off);
    let hi: u32 = read_u32_le(b, off + 4);
    (lo as u64) + 0x1_0000_0000 * (hi as u64)
}

} // verus!

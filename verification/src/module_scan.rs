//! Finds the code section of a module that is mapped into memory.
//!
//! Memory is read by whoever drives the scan: the scan names the bytes that it needs next, and
//! is fed with them.
use vstd::prelude::*;

use crate::bytes::{le_value, lemma_le_value_2, lemma_le_value_4, read_u16, read_u32};
use crate::image::{
    is_text_name, text_section_name, COFF_NUMBER_OF_SECTIONS_OFFSET,
    COFF_SIZE_OF_OPTIONAL_HEADER_OFFSET, DOS_LFANEW_OFFSET, DOS_SIGNATURE, PE_HEADERS_SIZE,
    PE_SIGNATURE, SECTION_HEADER_SIZE, SECTION_NAME_SIZE, SECTION_SIZE_OF_RAW_DATA_OFFSET,
    SECTION_VIRTUAL_ADDRESS_OFFSET, SECTION_VIRTUAL_SIZE_OFFSET,
};

verus! {

/// The bytes of memory by address.
pub type Memory = spec_fn(int) -> u8;

/// The `len` bytes of memory at `address`.
pub open spec fn memory_bytes(memory: Memory, address: int, len: nat) -> Seq<u8> {
    Seq::new(len, |i: int| memory(address + i))
}

/// The bytes of memory at `address`, unless they reach beyond the last address.
pub open spec fn read(memory: Memory, address: int, len: nat) -> Option<Seq<u8>> {
    if address + len <= usize::MAX {
        Some(memory_bytes(memory, address, len))
    } else {
        None
    }
}

/// The number in memory at `address`.
pub open spec fn read_number(memory: Memory, address: int, len: nat) -> Option<nat> {
    match read(memory, address, len) {
        Some(bytes) => Some(le_value(bytes)),
        None => None,
    }
}

/// A code section of a mapped module.
#[derive(Clone, Copy, Debug, PartialEq, Eq, Structural)]
pub struct MappedSection {
    /// Where the section lies, from the module's first byte.
    pub rva: usize,
    /// How many bytes it has.
    pub size: usize,
}

/// The section whose header is at `header`: as long as the longer of its two sizes says, unless
/// that is nothing or the section starts beyond the last address.
pub open spec fn mapped_section_at(memory: Memory, base: int, header: int) -> Option<
    MappedSection,
> {
    let virtual_size = read_number(memory, header + SECTION_VIRTUAL_SIZE_OFFSET, 4);
    let raw_size = read_number(memory, header + SECTION_SIZE_OF_RAW_DATA_OFFSET, 4);
    let rva = read_number(memory, header + SECTION_VIRTUAL_ADDRESS_OFFSET, 4);
    if virtual_size is None || raw_size is None || rva is None {
        None
    } else {
        let size = if virtual_size->0 >= raw_size->0 {
            virtual_size->0
        } else {
            raw_size->0
        };
        if size == 0 || base + rva->0 > usize::MAX {
            None
        } else {
            Some(MappedSection { rva: rva->0 as usize, size: size as usize })
        }
    }
}

/// The first code section among the headers from number `index` up to `count`.
pub open spec fn mapped_section_from(
    memory: Memory,
    base: int,
    table: int,
    index: int,
    count: int,
) -> Option<MappedSection>
    decreases count - index,
{
    let header = table + index * SECTION_HEADER_SIZE;
    if index >= count {
        None
    } else {
        match read(memory, header, SECTION_NAME_SIZE as nat) {
            None => None,
            Some(name) => if name == text_section_name() {
                mapped_section_at(memory, base, header)
            } else {
                mapped_section_from(memory, base, table, index + 1, count)
            },
        }
    }
}

/// The code section of the module that is mapped at `base`.
pub open spec fn mapped_text_section(memory: Memory, base: int) -> Option<MappedSection> {
    if read_number(memory, base, 2) != Some(DOS_SIGNATURE as nat) {
        None
    } else {
        match read_number(memory, base + DOS_LFANEW_OFFSET, 4) {
            None => None,
            Some(offset) => {
                let header = base + offset;
                if read_number(memory, header, 4) != Some(PE_SIGNATURE as nat) {
                    None
                } else {
                    let count = read_number(memory, header + COFF_NUMBER_OF_SECTIONS_OFFSET, 2);
                    let optional = read_number(
                        memory,
                        header + COFF_SIZE_OF_OPTIONAL_HEADER_OFFSET,
                        2,
                    );
                    if count is None || optional is None {
                        None
                    } else {
                        mapped_section_from(
                            memory,
                            base,
                            header + PE_HEADERS_SIZE + optional->0,
                            0,
                            count->0 as int,
                        )
                    }
                }
            },
        }
    }
}

/// What the scan reads next, with what it has learned.
#[derive(Clone, Copy, Debug, PartialEq, Eq, Structural)]
pub enum Stage {
    DosSignature,
    HeaderOffset,
    PeSignature { header: usize },
    SectionCount { header: usize },
    OptionalHeaderSize { header: usize, count: u16 },
    Name { table: usize, count: u16, index: u16 },
    VirtualSize { header: usize },
    RawSize { header: usize, virtual_size: u32 },
    VirtualAddress { header: usize, size: u32 },
    Done { section: Option<MappedSection> },
}

/// The bytes that the scan asks for.
#[derive(Clone, Copy, Debug, PartialEq, Eq, Structural)]
pub struct ReadRequest {
    pub address: usize,
    pub len: usize,
}

impl Stage {
    /// The address and the number of the bytes that a stage reads.
    pub open spec fn wants(self, base: int) -> Option<(int, nat)> {
        match self {
            Stage::DosSignature => Some((base, 2)),
            Stage::HeaderOffset => Some((base + DOS_LFANEW_OFFSET, 4)),
            Stage::PeSignature { header } => Some((header as int, 4)),
            Stage::SectionCount { header } => Some((header + COFF_NUMBER_OF_SECTIONS_OFFSET, 2)),
            Stage::OptionalHeaderSize { header, .. } => Some(
                (header + COFF_SIZE_OF_OPTIONAL_HEADER_OFFSET, 2),
            ),
            Stage::Name { table, index, .. } => Some(
                (table + index * SECTION_HEADER_SIZE, SECTION_NAME_SIZE as nat),
            ),
            Stage::VirtualSize { header } => Some((header + SECTION_VIRTUAL_SIZE_OFFSET, 4)),
            Stage::RawSize { header, .. } => Some((header + SECTION_SIZE_OF_RAW_DATA_OFFSET, 4)),
            Stage::VirtualAddress { header, .. } => Some(
                (header + SECTION_VIRTUAL_ADDRESS_OFFSET, 4),
            ),
            Stage::Done { .. } => None,
        }
    }

    /// The stage itself, or the end of the scan where the stage would read beyond the last
    /// address.
    pub open spec fn reached(self, base: int) -> Stage {
        match self.wants(base) {
            Some((address, len)) => if address + len <= usize::MAX {
                self
            } else {
                Stage::Done { section: None }
            },
            None => self,
        }
    }

    /// Whether the bytes that the stage reads end before the last address, and a header number is
    /// below the count.
    pub open spec fn valid(self, base: int) -> bool {
        &&& self.reached(base) == self
        &&& self matches Stage::Name { count, index, .. } ==> index < count
    }

    /// How far the scan is from its end, at most.
    pub open spec fn distance(self) -> nat {
        match self {
            Stage::DosSignature => 0x1_000a,
            Stage::HeaderOffset => 0x1_0009,
            Stage::PeSignature { .. } => 0x1_0008,
            Stage::SectionCount { .. } => 0x1_0007,
            Stage::OptionalHeaderSize { count, .. } => 5 + count as nat,
            Stage::Name { count, index, .. } => (4 + count - index) as nat,
            Stage::VirtualSize { .. } => 3,
            Stage::RawSize { .. } => 2,
            Stage::VirtualAddress { .. } => 1,
            Stage::Done { .. } => 0,
        }
    }
}

/// The stage that looks at header number `index`, or the end where there is none.
pub open spec fn name_stage(table: int, count: u16, index: int) -> Stage {
    if index < count && table <= usize::MAX {
        Stage::Name { table: table as usize, count, index: index as u16 }
    } else {
        Stage::Done { section: None }
    }
}

/// The stage behind `stage` once it has read `bytes`.
pub open spec fn next_stage(base: int, stage: Stage, bytes: Seq<u8>) -> Stage {
    let number = le_value(bytes);
    match stage {
        Stage::DosSignature => if number == DOS_SIGNATURE {
            Stage::HeaderOffset.reached(base)
        } else {
            Stage::Done { section: None }
        },
        Stage::HeaderOffset => if base + number <= usize::MAX {
            Stage::PeSignature { header: (base + number) as usize }.reached(base)
        } else {
            Stage::Done { section: None }
        },
        Stage::PeSignature { header } => if number == PE_SIGNATURE {
            Stage::SectionCount { header }.reached(base)
        } else {
            Stage::Done { section: None }
        },
        Stage::SectionCount { header } => Stage::OptionalHeaderSize {
            header,
            count: number as u16,
        }.reached(base),
        Stage::OptionalHeaderSize { header, count } => name_stage(
            header + PE_HEADERS_SIZE + number,
            count,
            0,
        ).reached(base),
        Stage::Name { table, count, index } => if bytes == text_section_name() {
            Stage::VirtualSize {
                header: (table + index * SECTION_HEADER_SIZE) as usize,
            }.reached(base)
        } else {
            name_stage(table as int, count, index + 1).reached(base)
        },
        Stage::VirtualSize { header } => Stage::RawSize {
            header,
            virtual_size: number as u32,
        }.reached(base),
        Stage::RawSize { header, virtual_size } => Stage::VirtualAddress {
            header,
            size: if virtual_size >= number {
                virtual_size
            } else {
                number as u32
            },
        }.reached(base),
        Stage::VirtualAddress { header, size } => Stage::Done {
            section: if size == 0 || base + number > usize::MAX {
                None
            } else {
                Some(MappedSection { rva: number as usize, size: size as usize })
            },
        },
        Stage::Done { .. } => stage,
    }
}

/// A scan of the module that is mapped at one address.
pub struct ModuleScan {
    pub module_base: usize,
    pub stage: Stage,
}

impl ModuleScan {
    /// Whether the stage can be read.
    pub open spec fn valid(self) -> bool {
        self.stage.valid(self.module_base as int)
    }

    /// What the scan ends with where memory is `memory`.
    pub open spec fn outcome(self, memory: Memory) -> Option<MappedSection>
        decreases self.stage.distance(),
    {
        match self.stage {
            Stage::Done { section } => section,
            stage => {
                let (address, len) = stage.wants(self.module_base as int)->0;
                let next = next_stage(
                    self.module_base as int,
                    stage,
                    memory_bytes(memory, address, len),
                );
                if next.distance() < stage.distance() {
                    ModuleScan { stage: next, ..self }.outcome(memory)
                } else {
                    None
                }
            },
        }
    }

    /// Begins a scan.
    pub fn begin(module_base: usize) -> (r: ModuleScan)
        ensures
            r.valid(),
            r.module_base == module_base,
            r.stage == Stage::DosSignature.reached(module_base as int),
    {
        ModuleScan { module_base, stage: reach(module_base, Stage::DosSignature) }
    }

    /// The bytes that the scan needs next, or `None` where it is done.
    pub fn request(&self) -> (r: Option<ReadRequest>)
        requires
            self.valid(),
        ensures
            match r {
                Some(request) => self.stage.wants(self.module_base as int) == Some(
                    (request.address as int, request.len as nat),
                ),
                None => self.stage is Done,
            },
    {
        place(self.module_base, self.stage)
    }

    /// Goes on with the bytes that were asked for.
    pub fn feed(&mut self, bytes: &[u8])
        requires
            old(self).valid(),
            old(self).stage.wants(old(self).module_base as int) matches Some((_, len)) && len
                == bytes@.len(),
        ensures
            final(self).valid(),
            final(self).module_base == old(self).module_base,
            final(self).stage == next_stage(
                old(self).module_base as int,
                old(self).stage,
                bytes@,
            ),
            final(self).stage.distance() < old(self).stage.distance(),
    {
        self.stage = advance(self.module_base, self.stage, bytes);
    }

    /// The section that the scan has found, once it is done.
    pub fn section(&self) -> (r: Option<MappedSection>)
        ensures
            r == match self.stage {
                Stage::Done { section } => section,
                _ => None,
            },
    {
        match self.stage {
            Stage::Done { section } => section,
            _ => None,
        }
    }
}

proof fn lemma_next_stage(base: int, stage: Stage, bytes: Seq<u8>)
    requires
        stage.valid(base),
        stage.wants(base) matches Some((_, len)) && len == bytes.len(),
    ensures
        next_stage(base, stage, bytes).valid(base),
        next_stage(base, stage, bytes).distance() < stage.distance(),
        bytes.len() == 2 ==> le_value(bytes) <= u16::MAX,
        bytes.len() == 4 ==> le_value(bytes) <= u32::MAX,
{
    if bytes.len() == 2 {
        lemma_le_value_2(bytes);
    }
    if bytes.len() == 4 {
        lemma_le_value_4(bytes);
    }
}

/// Law: feeding a scan with what memory holds brings it closer to its end and does not change
/// what it ends with.
pub proof fn feeding_keeps_the_outcome(scan: ModuleScan, memory: Memory)
    requires
        scan.valid(),
        !(scan.stage is Done),
    ensures
        ({
            let base = scan.module_base as int;
            let (address, len) = scan.stage.wants(base)->0;
            let next = ModuleScan {
                stage: next_stage(base, scan.stage, memory_bytes(memory, address, len)),
                ..scan
            };
            &&& next.valid()
            &&& next.stage.distance() < scan.stage.distance()
            &&& next.outcome(memory) == scan.outcome(memory)
        }),
{
    let base = scan.module_base as int;
    let (address, len) = scan.stage.wants(base)->0;
    lemma_next_stage(base, scan.stage, memory_bytes(memory, address, len));
}

proof fn lemma_outcome_from_header(module_base: usize, header: usize, memory: Memory)
    ensures
        ({
            let stage = Stage::VirtualSize { header }.reached(module_base as int);
            ModuleScan { module_base, stage }.outcome(memory) == mapped_section_at(
                memory,
                module_base as int,
                header as int,
            )
        }),
{
    let base = module_base as int;
    let first = Stage::VirtualSize { header };
    if first.reached(base) == first {
        let bytes = memory_bytes(memory, header + SECTION_VIRTUAL_SIZE_OFFSET, 4);
        lemma_next_stage(base, first, bytes);
        let second = next_stage(base, first, bytes);
        feeding_keeps_the_outcome(ModuleScan { module_base, stage: first }, memory);
        if !(second is Done) {
            let bytes = memory_bytes(memory, header + SECTION_SIZE_OF_RAW_DATA_OFFSET, 4);
            lemma_next_stage(base, second, bytes);
            let third = next_stage(base, second, bytes);
            feeding_keeps_the_outcome(ModuleScan { module_base, stage: second }, memory);
            if !(third is Done) {
                let bytes = memory_bytes(memory, header + SECTION_VIRTUAL_ADDRESS_OFFSET, 4);
                lemma_next_stage(base, third, bytes);
                feeding_keeps_the_outcome(ModuleScan { module_base, stage: third }, memory);
            }
        }
    }
}

proof fn lemma_outcome_from_name(
    module_base: usize,
    table: int,
    count: u16,
    index: int,
    memory: Memory,
)
    requires
        0 <= table,
        0 <= index,
    ensures
        ({
            let stage = name_stage(table, count, index).reached(module_base as int);
            ModuleScan { module_base, stage }.outcome(memory) == mapped_section_from(
                memory,
                module_base as int,
                table,
                index,
                count as int,
            )
        }),
    decreases count - index,
{
    let base = module_base as int;
    let stage = name_stage(table, count, index).reached(base);
    if index < count && table <= usize::MAX && !(stage is Done) {
        let header = table + index * SECTION_HEADER_SIZE;
        let bytes = memory_bytes(memory, header, SECTION_NAME_SIZE as nat);
        feeding_keeps_the_outcome(ModuleScan { module_base, stage }, memory);
        if bytes == text_section_name() {
            lemma_outcome_from_header(module_base, header as usize, memory);
        } else {
            lemma_outcome_from_name(module_base, table, count, index + 1, memory);
        }
    }
}

/// Law: a scan ends with the code section of the module, for every memory.
pub proof fn scan_finds_the_mapped_section(module_base: usize, memory: Memory)
    ensures
        ({
            let stage = Stage::DosSignature.reached(module_base as int);
            ModuleScan { module_base, stage }.outcome(memory) == mapped_text_section(
                memory,
                module_base as int,
            )
        }),
{
    let base = module_base as int;
    let s1 = Stage::DosSignature.reached(base);
    if !(s1 is Done) {
        feeding_keeps_the_outcome(ModuleScan { module_base, stage: s1 }, memory);
        let s2 = next_stage(base, s1, memory_bytes(memory, base, 2));
        if !(s2 is Done) {
            feeding_keeps_the_outcome(ModuleScan { module_base, stage: s2 }, memory);
            let b2 = memory_bytes(memory, base + DOS_LFANEW_OFFSET, 4);
            let s3 = next_stage(base, s2, b2);
            if !(s3 is Done) {
                let header = base + le_value(b2);
                feeding_keeps_the_outcome(ModuleScan { module_base, stage: s3 }, memory);
                let s4 = next_stage(base, s3, memory_bytes(memory, header, 4));
                if !(s4 is Done) {
                    feeding_keeps_the_outcome(ModuleScan { module_base, stage: s4 }, memory);
                    let b4 = memory_bytes(memory, header + COFF_NUMBER_OF_SECTIONS_OFFSET, 2);
                    lemma_next_stage(base, s4, b4);
                    let s5 = next_stage(base, s4, b4);
                    if !(s5 is Done) {
                        feeding_keeps_the_outcome(ModuleScan { module_base, stage: s5 }, memory);
                        let b5 = memory_bytes(
                            memory,
                            header + COFF_SIZE_OF_OPTIONAL_HEADER_OFFSET,
                            2,
                        );
                        lemma_outcome_from_name(
                            module_base,
                            header + PE_HEADERS_SIZE + le_value(b5),
                            le_value(b4) as u16,
                            0,
                            memory,
                        );
                    }
                }
            }
        }
    }
}

/// Whether the eight bytes of memory at `at` are the name of the code section.
pub open spec fn names_the_code(memory: Memory, at: int) -> bool {
    &&& memory(at) == '.' as u8 && memory(at + 1) == 't' as u8 && memory(at + 2) == 'e' as u8
    &&& memory(at + 3) == 'x' as u8 && memory(at + 4) == 't' as u8
    &&& memory(at + 5) == 0 && memory(at + 6) == 0 && memory(at + 7) == 0
}

/// The number in two bytes of memory, the low byte first.
pub open spec fn half(memory: Memory, at: int) -> int {
    memory(at) + 0x100 * memory(at + 1)
}

/// The number in four bytes of memory, the low byte first.
pub open spec fn word(memory: Memory, at: int) -> int {
    memory(at) + 0x100 * memory(at + 1) + 0x1_0000 * memory(at + 2) + 0x100_0000 * memory(at + 3)
}

/// Where the section table of the module at `base` starts, behind the optional header.
pub open spec fn table_of(memory: Memory, base: int) -> int {
    let header = base + word(memory, base + 0x3c);
    header + 0x18 + half(memory, header + 0x14)
}

/// Whether memory holds the two signatures of a module at `base`, and section header number
/// `index` is there and the first with the name of the code section.
pub open spec fn code_header_is(memory: Memory, base: int, index: int) -> bool {
    let header = base + word(memory, base + 0x3c);
    let table = table_of(memory, base);
    &&& memory(base) == 'M' as u8 && memory(base + 1) == 'Z' as u8
    &&& memory(header) == 'P' as u8 && memory(header + 1) == 'E' as u8
    &&& memory(header + 2) == 0 && memory(header + 3) == 0
    &&& 0 <= index < half(memory, header + 6)
    &&& names_the_code(memory, table + 0x28 * index)
    &&& forall|earlier: int|
        0 <= earlier < index ==> !#[trigger] names_the_code(memory, table + 0x28 * earlier)
}

proof fn lemma_memory_numbers(memory: Memory, at: int)
    ensures
        le_value(memory_bytes(memory, at, 2)) == half(memory, at),
        le_value(memory_bytes(memory, at, 4)) == word(memory, at),
{
    lemma_le_value_2(memory_bytes(memory, at, 2));
    lemma_le_value_4(memory_bytes(memory, at, 4));
}

proof fn lemma_names_the_code(memory: Memory, at: int)
    ensures
        names_the_code(memory, at) <==> memory_bytes(memory, at, 8) == text_section_name(),
{
    let name = memory_bytes(memory, at, 8);
    if names_the_code(memory, at) {
        assert(name =~= text_section_name());
    } else if name == text_section_name() {
        assert(name[0] == memory(at) && name[1] == memory(at + 1) && name[2] == memory(at + 2));
        assert(name[3] == memory(at + 3) && name[4] == memory(at + 4) && name[5] == memory(at + 5));
        assert(name[6] == memory(at + 6) && name[7] == memory(at + 7));
    }
}

/// Law: the code section of a module is as its header says, for every memory. Its address is the
/// one in the header, and its size is the larger of the two sizes there. A section without bytes,
/// or one that starts beyond the last address, is none.
pub proof fn mapped_section_is_the_one_in_its_header(memory: Memory, base: int, index: int)
    requires
        0 <= base,
        code_header_is(memory, base, index),
        base + 0x40 <= usize::MAX,
        base + word(memory, base + 0x3c) + 0x16 <= usize::MAX,
        table_of(memory, base) + 0x28 * index + 0x14 <= usize::MAX,
    ensures
        ({
            let at = table_of(memory, base) + 0x28 * index;
            let virtual_size = word(memory, at + 8);
            let address = word(memory, at + 12);
            let raw_size = word(memory, at + 16);
            match mapped_text_section(memory, base) {
                Some(section) => {
                    &&& section.rva == address
                    &&& base + section.rva <= usize::MAX
                    &&& section.size > 0
                    &&& section.size >= virtual_size && section.size >= raw_size
                    &&& section.size == virtual_size || section.size == raw_size
                },
                None => virtual_size == 0 && raw_size == 0 || base + address > usize::MAX,
            }
        }),
{
    let header = base + word(memory, base + 0x3c);
    let table = table_of(memory, base);
    let at = table + 0x28 * index;
    lemma_memory_numbers(memory, base);
    lemma_memory_numbers(memory, base + 0x3c);
    lemma_memory_numbers(memory, header);
    lemma_memory_numbers(memory, header + 6);
    lemma_memory_numbers(memory, header + 0x14);
    lemma_memory_numbers(memory, at + 8);
    lemma_memory_numbers(memory, at + 12);
    lemma_memory_numbers(memory, at + 16);
    lemma_first_code_header(memory, base, table, 0, index, half(memory, header + 6));
}

proof fn lemma_first_code_header(
    memory: Memory,
    base: int,
    table: int,
    from: int,
    index: int,
    count: int,
)
    requires
        0 <= from <= index < count,
        table + 0x28 * index + 8 <= usize::MAX,
        names_the_code(memory, table + 0x28 * index),
        forall|i: int| from <= i < index ==> !#[trigger] names_the_code(memory, table + 0x28 * i),
    ensures
        mapped_section_from(memory, base, table, from, count) == mapped_section_at(
            memory,
            base,
            table + 0x28 * index,
        ),
    decreases index - from,
{
    lemma_names_the_code(memory, table + 0x28 * from);
    if from < index {
        assert(!names_the_code(memory, table + 0x28 * from));
        lemma_first_code_header(memory, base, table, from + 1, index, count);
    }
}

/// Law: where a code section is found, the module has the two signatures and a header with the
/// name of the code section, and all that was read lies below the last address.
pub proof fn found_sections_have_a_header(memory: Memory, base: int)
    requires
        0 <= base,
        mapped_text_section(memory, base) is Some,
    ensures
        exists|index: int|
            #[trigger] code_header_is(memory, base, index) && table_of(memory, base) + 0x28 * index
                + 0x14 <= usize::MAX,
        base + 0x40 <= usize::MAX,
        base + word(memory, base + 0x3c) + 0x16 <= usize::MAX,
{
    let header = base + word(memory, base + 0x3c);
    lemma_memory_numbers(memory, base);
    lemma_memory_numbers(memory, base + 0x3c);
    lemma_memory_numbers(memory, header);
    lemma_memory_numbers(memory, header + 6);
    lemma_memory_numbers(memory, header + 0x14);
    let index = lemma_some_code_header(
        memory,
        base,
        table_of(memory, base),
        0,
        half(memory, header + 6),
    );
    assert(code_header_is(memory, base, index));
}

proof fn lemma_some_code_header(
    memory: Memory,
    base: int,
    table: int,
    from: int,
    count: int,
) -> (index: int)
    requires
        mapped_section_from(memory, base, table, from, count) is Some,
    ensures
        from <= index < count,
        table + 0x28 * index + 0x14 <= usize::MAX,
        names_the_code(memory, table + 0x28 * index),
        forall|i: int| from <= i < index ==> !#[trigger] names_the_code(memory, table + 0x28 * i),
    decreases count - from,
{
    lemma_names_the_code(memory, table + 0x28 * from);
    if names_the_code(memory, table + 0x28 * from) {
        from
    } else {
        lemma_some_code_header(memory, base, table, from + 1, count)
    }
}

/// Whether an address and a number of bytes fit below the last address.
fn request_at(base: usize, offset: usize, len: usize) -> (r: Option<ReadRequest>)
    requires
        len <= 8,
    ensures
        match r {
            Some(request) => base + offset + len <= usize::MAX && request.address == base + offset
                && request.len == len,
            None => base + offset + len > usize::MAX,
        },
{
    let address: usize = base.checked_add(offset)?;
    if address <= usize::MAX - len {
        Some(ReadRequest { address, len })
    } else {
        None
    }
}

fn place(base: usize, stage: Stage) -> (r: Option<ReadRequest>)
    ensures
        match r {
            Some(request) => stage.wants(base as int) == Some(
                (request.address as int, request.len as nat),
            ) && request.address + request.len <= usize::MAX,
            None => stage.wants(base as int) matches Some((address, len)) ==> address + len
                > usize::MAX,
        },
{
    match stage {
        Stage::DosSignature => request_at(base, 0, 2),
        Stage::HeaderOffset => request_at(base, DOS_LFANEW_OFFSET, 4),
        Stage::PeSignature { header } => request_at(header, 0, 4),
        Stage::SectionCount { header } => request_at(header, COFF_NUMBER_OF_SECTIONS_OFFSET, 2),
        Stage::OptionalHeaderSize { header, .. } => request_at(
            header,
            COFF_SIZE_OF_OPTIONAL_HEADER_OFFSET,
            2,
        ),
        Stage::Name { table, index, .. } => request_at(
            table,
            index as usize * SECTION_HEADER_SIZE,
            SECTION_NAME_SIZE,
        ),
        Stage::VirtualSize { header } => request_at(header, SECTION_VIRTUAL_SIZE_OFFSET, 4),
        Stage::RawSize { header, .. } => request_at(header, SECTION_SIZE_OF_RAW_DATA_OFFSET, 4),
        Stage::VirtualAddress { header, .. } => request_at(
            header,
            SECTION_VIRTUAL_ADDRESS_OFFSET,
            4,
        ),
        Stage::Done { .. } => None,
    }
}

fn reach(base: usize, stage: Stage) -> (r: Stage)
    ensures
        r == stage.reached(base as int),
{
    match place(base, stage) {
        Some(_) => stage,
        None => match stage {
            Stage::Done { section } => Stage::Done { section },
            _ => Stage::Done { section: None },
        },
    }
}

fn number_of(bytes: &[u8]) -> (r: u32)
    requires
        bytes@.len() == 2 || bytes@.len() == 4,
    ensures
        r == le_value(bytes@),
        bytes@.len() == 2 ==> r <= u16::MAX,
{
    assert(bytes@.subrange(0, bytes@.len() as int) =~= bytes@);
    match read_u32(bytes, 0) {
        Some(v) => v,
        None => {
            proof {
                lemma_le_value_2(bytes@);
            }
            match read_u16(bytes, 0) {
                Some(v) => v as u32,
                None => 0,
            }
        },
    }
}

fn advance(base: usize, stage: Stage, bytes: &[u8]) -> (r: Stage)
    requires
        stage.valid(base as int),
        stage.wants(base as int) matches Some((_, len)) && len == bytes@.len(),
    ensures
        r == next_stage(base as int, stage, bytes@),
        r.valid(base as int),
        r.distance() < stage.distance(),
{
    match stage {
        Stage::DosSignature => if number_of(bytes) == DOS_SIGNATURE as u32 {
            reach(base, Stage::HeaderOffset)
        } else {
            Stage::Done { section: None }
        },
        Stage::HeaderOffset => match base.checked_add(number_of(bytes) as usize) {
            Some(header) => reach(base, Stage::PeSignature { header }),
            None => Stage::Done { section: None },
        },
        Stage::PeSignature { header } => if number_of(bytes) == PE_SIGNATURE {
            reach(base, Stage::SectionCount { header })
        } else {
            Stage::Done { section: None }
        },
        Stage::SectionCount { header } => reach(
            base,
            Stage::OptionalHeaderSize { header, count: number_of(bytes) as u16 },
        ),
        Stage::OptionalHeaderSize { header, count } => {
            let behind_headers: usize = match header.checked_add(PE_HEADERS_SIZE) {
                Some(offset) => offset,
                None => return Stage::Done { section: None },
            };
            let table: usize = match behind_headers.checked_add(number_of(bytes) as usize) {
                Some(table) => table,
                None => return Stage::Done { section: None },
            };
            if count > 0 {
                reach(base, Stage::Name { table, count, index: 0 })
            } else {
                Stage::Done { section: None }
            }
        },
        Stage::Name { table, count, index } => if is_text_name(bytes) {
            reach(
                base,
                Stage::VirtualSize { header: table + index as usize * SECTION_HEADER_SIZE },
            )
        } else if index < count - 1 {
            reach(base, Stage::Name { table, count, index: index + 1 })
        } else {
            Stage::Done { section: None }
        },
        Stage::VirtualSize { header } => reach(
            base,
            Stage::RawSize { header, virtual_size: number_of(bytes) },
        ),
        Stage::RawSize { header, virtual_size } => {
            let raw_size: u32 = number_of(bytes);
            let size: u32 = if virtual_size >= raw_size {
                virtual_size
            } else {
                raw_size
            };
            reach(base, Stage::VirtualAddress { header, size })
        },
        Stage::VirtualAddress { header, size } => {
            let rva: usize = number_of(bytes) as usize;
            let starts: bool = base.checked_add(rva).is_some();
            Stage::Done {
                section: if size == 0 || !starts {
                    None
                } else {
                    Some(MappedSection { rva, size: size as usize })
                },
            }
        },
        Stage::Done { section } => Stage::Done { section },
    }
}

} // verus!

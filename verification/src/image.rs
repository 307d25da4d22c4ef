//! Reads a PE image as it lies in a file.
use vstd::prelude::*;

use crate::bytes::{
    bytes_at, le_at, lemma_le_value_2, lemma_le_value_4, numbers_at_an_offset_are_made_of_the_data,
    read_u16, read_u32,
};

verus! {

/// The first two bytes of an executable.
pub const DOS_SIGNATURE: u16 = 0x5a4d;

/// The four bytes in front of the COFF header.
pub const PE_SIGNATURE: u32 = 0x0000_4550;

/// Where the DOS header keeps the offset of the PE header.
pub const DOS_LFANEW_OFFSET: usize = 0x3c;

/// Offsets from the PE header.
pub const COFF_NUMBER_OF_SECTIONS_OFFSET: usize = 0x06;

pub const COFF_TIMESTAMP_OFFSET: usize = 0x08;

pub const COFF_SIZE_OF_OPTIONAL_HEADER_OFFSET: usize = 0x14;

/// The length of the PE signature and the COFF header.
pub const PE_HEADERS_SIZE: usize = 0x18;

/// The length of a section header, and the offsets of its fields.
pub const SECTION_HEADER_SIZE: usize = 0x28;

pub const SECTION_NAME_SIZE: usize = 8;

pub const SECTION_VIRTUAL_SIZE_OFFSET: usize = 0x08;

pub const SECTION_VIRTUAL_ADDRESS_OFFSET: usize = 0x0c;

pub const SECTION_SIZE_OF_RAW_DATA_OFFSET: usize = 0x10;

pub const SECTION_RAW_DATA_OFFSET: usize = 0x14;

/// The name of the section that holds the code.
pub open spec fn text_section_name() -> Seq<u8> {
    seq![0x2eu8, 0x74u8, 0x65u8, 0x78u8, 0x74u8, 0u8, 0u8, 0u8]
}

/// A code section of a file.
#[derive(Clone, Copy, Debug, PartialEq, Eq)]
pub struct TextSection<'a> {
    /// Where the section lies once the image is mapped, from the image's first byte.
    pub rva: usize,
    /// The bytes of the section.
    pub data: &'a [u8],
}

/// The offset of the PE header: the DOS header has its signature and points to one that has its
/// own.
pub open spec fn pe_header(image: Seq<u8>) -> Option<int> {
    if le_at(image, 0, 2) == Some(DOS_SIGNATURE as nat) {
        match le_at(image, DOS_LFANEW_OFFSET as int, 4) {
            Some(offset) => if le_at(image, offset as int, 4) == Some(PE_SIGNATURE as nat) {
                Some(offset as int)
            } else {
                None
            },
            None => None,
        }
    } else {
        None
    }
}

/// The time stamp of the COFF header.
pub open spec fn timestamp(image: Seq<u8>) -> Option<nat> {
    match pe_header(image) {
        Some(header) => le_at(image, header + COFF_TIMESTAMP_OFFSET, 4),
        None => None,
    }
}

/// Whether the section header at `header` is that of the code section.
pub open spec fn is_text_header(image: Seq<u8>, header: int) -> bool {
    bytes_at(image, header, SECTION_NAME_SIZE as int) == Some(text_section_name())
}

/// The address and the bytes of the section whose header is at `header`: as many as both the
/// mapped section and the file have. An error names what is missing.
pub open spec fn section_at(image: Seq<u8>, header: int) -> Result<(nat, Seq<u8>), Seq<char>> {
    let virtual_size = le_at(image, header + SECTION_VIRTUAL_SIZE_OFFSET, 4);
    let rva = le_at(image, header + SECTION_VIRTUAL_ADDRESS_OFFSET, 4);
    let raw_size = le_at(image, header + SECTION_SIZE_OF_RAW_DATA_OFFSET, 4);
    let raw_offset = le_at(image, header + SECTION_RAW_DATA_OFFSET, 4);
    if virtual_size is None {
        Err("missing virtual size"@)
    } else if rva is None {
        Err("missing section RVA"@)
    } else if raw_size is None {
        Err("missing raw size"@)
    } else if raw_offset is None {
        Err("missing raw offset"@)
    } else {
        let size = if virtual_size->0 <= raw_size->0 {
            virtual_size->0
        } else {
            raw_size->0
        };
        if raw_offset->0 + size > usize::MAX {
            Err("section size overflow"@)
        } else {
            match bytes_at(image, raw_offset->0 as int, size as int) {
                Some(data) => Ok((rva->0, data)),
                None => Err(".text is outside the file"@),
            }
        }
    }
}

/// The offset of the section header with number `index`.
pub open spec fn section_header(table: int, index: int) -> int {
    table + index * SECTION_HEADER_SIZE
}

/// The code section among the headers from number `index` up to `count`.
pub open spec fn text_section_from(image: Seq<u8>, table: int, index: int, count: int) -> Result<
    (nat, Seq<u8>),
    Seq<char>,
>
    decreases count - index,
{
    if index >= count {
        Err(".text section is missing"@)
    } else if section_header(table, index) > usize::MAX {
        Err("section header overflow"@)
    } else if is_text_header(image, section_header(table, index)) {
        section_at(image, section_header(table, index))
    } else {
        text_section_from(image, table, index + 1, count)
    }
}

/// The code section of a file: its address and its bytes, or what is wrong with the file.
pub open spec fn text_section(image: Seq<u8>) -> Result<(nat, Seq<u8>), Seq<char>> {
    match pe_header(image) {
        None => Err("missing PE header"@),
        Some(header) => {
            let count = le_at(image, header + COFF_NUMBER_OF_SECTIONS_OFFSET, 2);
            let optional = le_at(image, header + COFF_SIZE_OF_OPTIONAL_HEADER_OFFSET, 2);
            if count is None {
                Err("missing section count"@)
            } else if optional is None {
                Err("missing optional header size"@)
            } else if header + PE_HEADERS_SIZE + optional->0 > usize::MAX {
                Err("section table overflow"@)
            } else {
                text_section_from(
                    image,
                    header + PE_HEADERS_SIZE + optional->0,
                    0,
                    count->0 as int,
                )
            }
        },
    }
}

proof fn lemma_le_at_bounds(data: Seq<u8>, offset: int)
    ensures
        le_at(data, offset, 2) matches Some(v) ==> v <= u16::MAX,
        le_at(data, offset, 4) matches Some(v) ==> v <= u32::MAX,
{
    if let Some(s) = bytes_at(data, offset, 2) {
        lemma_le_value_2(s);
    }
    if let Some(s) = bytes_at(data, offset, 4) {
        lemma_le_value_4(s);
    }
}

/// Law: the code section that was found is a part of the file, no longer than 32 bits count, and
/// its address fits 32 bits.
pub proof fn text_section_is_part_of_the_file(image: Seq<u8>)
    ensures
        text_section(image) matches Ok((rva, data)) ==> {
            &&& rva <= u32::MAX
            &&& data.len() <= u32::MAX
            &&& exists|offset: int|
                #[trigger] bytes_at(image, offset, data.len() as int) == Some(data)
        },
{
    if let Some(header) = pe_header(image) {
        let count = le_at(image, header + COFF_NUMBER_OF_SECTIONS_OFFSET, 2);
        let optional = le_at(image, header + COFF_SIZE_OF_OPTIONAL_HEADER_OFFSET, 2);
        if count is Some && optional is Some {
            lemma_section_is_part(
                image,
                header + PE_HEADERS_SIZE + optional->0,
                0,
                count->0 as int,
            );
        }
    }
}

proof fn lemma_section_is_part(image: Seq<u8>, table: int, index: int, count: int)
    ensures
        text_section_from(image, table, index, count) matches Ok((rva, data)) ==> {
            &&& rva <= u32::MAX
            &&& data.len() <= u32::MAX
            &&& exists|offset: int|
                #[trigger] bytes_at(image, offset, data.len() as int) == Some(data)
        },
    decreases count - index,
{
    if index < count {
        let header = section_header(table, index);
        if is_text_header(image, header) {
            lemma_le_at_bounds(image, header + SECTION_VIRTUAL_SIZE_OFFSET);
            lemma_le_at_bounds(image, header + SECTION_VIRTUAL_ADDRESS_OFFSET);
            if let Ok((rva, data)) = section_at(image, header) {
                let offset = le_at(image, header + SECTION_RAW_DATA_OFFSET, 4)->0 as int;
                assert(bytes_at(image, offset, data.len() as int) == Some(data));
            }
        } else {
            lemma_section_is_part(image, table, index + 1, count);
        }
    }
}

/// Law: of several code sections the first is taken.
pub proof fn first_text_section_is_taken(
    image: Seq<u8>,
    table: int,
    index: int,
    first: int,
    count: int,
)
    requires
        0 <= index <= first < count,
        section_header(table, first) <= usize::MAX,
        is_text_header(image, section_header(table, first)),
        forall|i: int|
            index <= i < first ==> !is_text_header(image, #[trigger] section_header(table, i)),
    ensures
        text_section_from(image, table, index, count) == section_at(
            image,
            section_header(table, first),
        ),
    decreases first - index,
{
    if index < first {
        assert(!is_text_header(image, section_header(table, index)));
        first_text_section_is_taken(image, table, index + 1, first, count);
    }
}

/// Law: the PE header is found at an offset exactly where the file starts with `MZ`, the four bytes
/// at 0x3c are that offset with the low byte first, and `PE` and two zero bytes stand there.
pub proof fn pe_header_is_where_the_dos_header_points(image: Seq<u8>, offset: int)
    ensures
        pe_header(image) == Some(offset) <==> {
            &&& 0x40 <= image.len()
            &&& image[0] == 0x4d && image[1] == 0x5a
            &&& image[0x3c] + 0x100 * image[0x3d] + 0x1_0000 * image[0x3e] + 0x100_0000
                * image[0x3f] == offset
            &&& offset + 4 <= image.len()
            &&& image[offset] == 0x50 && image[offset + 1] == 0x45 && image[offset + 2] == 0
                && image[offset + 3] == 0
        },
{
    numbers_at_an_offset_are_made_of_the_data(image, 0);
    numbers_at_an_offset_are_made_of_the_data(image, 0x3c);
    numbers_at_an_offset_are_made_of_the_data(image, offset);
}

/// Law: the time stamp is the number in the four bytes that stand eight bytes behind the PE header,
/// where the file has both.
pub proof fn timestamp_stands_behind_the_header(image: Seq<u8>, header: int)
    requires
        pe_header(image) == Some(header),
    ensures
        timestamp(image) == if header + 12 <= image.len() {
            Some(
                (image[header + 8] + 0x100 * image[header + 9] + 0x1_0000 * image[header + 10]
                    + 0x100_0000 * image[header + 11]) as nat,
            )
        } else {
            None
        },
{
    numbers_at_an_offset_are_made_of_the_data(image, header);
    numbers_at_an_offset_are_made_of_the_data(image, header + 8);
}

/// Whether the eight bytes of `image` at `at` are the name of the code section.
pub open spec fn names_the_code(image: Seq<u8>, at: int) -> bool {
    &&& at + 8 <= image.len()
    &&& image[at] == '.' as u8 && image[at + 1] == 't' as u8 && image[at + 2] == 'e' as u8
    &&& image[at + 3] == 'x' as u8 && image[at + 4] == 't' as u8
    &&& image[at + 5] == 0 && image[at + 6] == 0 && image[at + 7] == 0
}

proof fn lemma_names_the_code(image: Seq<u8>, at: int)
    requires
        0 <= at,
    ensures
        names_the_code(image, at) <==> is_text_header(image, at),
{
    if at + 8 <= image.len() {
        let name = image.subrange(at, at + 8);
        if names_the_code(image, at) {
            assert(name =~= text_section_name());
        } else if name == text_section_name() {
            assert(name[0] == image[at] && name[1] == image[at + 1] && name[2] == image[at + 2]);
            assert(name[3] == image[at + 3] && name[4] == image[at + 4]);
            assert(name[5] == image[at + 5] && name[6] == image[at + 6]);
            assert(name[7] == image[at + 7]);
        }
    }
}

/// Law: the code section is described by the first header with its name, in the table behind the
/// optional header. It has the address in that header, and its bytes are those of the file from
/// the raw offset on, as many as the smaller of the two sizes says.
pub proof fn code_section_is_the_one_in_its_header(
    image: Seq<u8>,
    header: int,
    index: int,
)
    requires
        image.len() <= usize::MAX,
        pe_header(image) == Some(header),
        header + 0x16 <= image.len(),
        0 <= index < image[header + 6] + 0x100 * image[header + 7],
        ({
            let table = header + 0x18 + image[header + 0x14] + 0x100 * image[header + 0x15];
            &&& table + 0x28 * index + 0x18 <= image.len()
            &&& names_the_code(image, table + 0x28 * index)
            &&& forall|earlier: int|
                0 <= earlier < index ==> !#[trigger] names_the_code(image, table + 0x28 * earlier)
        }),
    ensures
        ({
            let at = header + 0x18 + image[header + 0x14] + 0x100 * image[header + 0x15] + 0x28
                * index;
            let virtual_size = image[at + 8] + 0x100 * image[at + 9] + 0x1_0000 * image[at + 10]
                + 0x100_0000 * image[at + 11];
            let rva = image[at + 12] + 0x100 * image[at + 13] + 0x1_0000 * image[at + 14]
                + 0x100_0000 * image[at + 15];
            let raw_size = image[at + 16] + 0x100 * image[at + 17] + 0x1_0000 * image[at + 18]
                + 0x100_0000 * image[at + 19];
            let raw_offset = image[at + 20] + 0x100 * image[at + 21] + 0x1_0000 * image[at + 22]
                + 0x100_0000 * image[at + 23];
            match text_section(image) {
                Ok((address, data)) => {
                    &&& address == rva
                    &&& data.len() <= virtual_size && data.len() <= raw_size
                    &&& data.len() == virtual_size || data.len() == raw_size
                    &&& raw_offset + data.len() <= image.len()
                    &&& forall|i: int|
                        0 <= i < data.len() ==> #[trigger] data[i] == image[raw_offset + i]
                },
                Err(message) => {
                    &&& raw_offset + virtual_size > image.len()
                    &&& raw_offset + raw_size > image.len()
                    &&& message == ".text is outside the file"@ || message
                        == "section size overflow"@
                    &&& message == "section size overflow"@ <==> raw_offset + virtual_size
                        > usize::MAX && raw_offset + raw_size > usize::MAX
                },
            }
        }),
{
    let table = header + 0x18 + image[header + 0x14] + 0x100 * image[header + 0x15];
    let at = table + 0x28 * index;
    lemma_table(image, header);
    lemma_names_the_code(image, at);
    assert(section_header(table, index) == at);
    assert forall|i: int| 0 <= i < index implies !is_text_header(
        image,
        #[trigger] section_header(table, i),
    ) by {
        assert(section_header(table, i) == table + 0x28 * i);
        lemma_names_the_code(image, table + 0x28 * i);
    }
    first_text_section_is_taken(
        image,
        table,
        0,
        index,
        image[header + 6] + 0x100 * image[header + 7],
    );
    numbers_at_an_offset_are_made_of_the_data(image, at + 8);
    numbers_at_an_offset_are_made_of_the_data(image, at + 12);
    numbers_at_an_offset_are_made_of_the_data(image, at + 16);
    numbers_at_an_offset_are_made_of_the_data(image, at + 20);
    reveal_strlit(".text is outside the file");
    reveal_strlit("section size overflow");
}

proof fn lemma_table(image: Seq<u8>, header: int)
    requires
        image.len() <= usize::MAX,
        pe_header(image) == Some(header),
        header + 0x16 <= image.len(),
    ensures
        0 <= header,
        ({
            let table = header + 0x18 + image[header + 0x14] + 0x100 * image[header + 0x15];
            let count = image[header + 6] + 0x100 * image[header + 7];
            table <= usize::MAX ==> text_section(image) == text_section_from(
                image,
                table,
                0,
                count,
            )
        }),
{
    pe_header_is_where_the_dos_header_points(image, header);
    numbers_at_an_offset_are_made_of_the_data(image, header + 6);
    numbers_at_an_offset_are_made_of_the_data(image, header + 0x14);
}

/// Law: a file whose section table has no header with the name of the code section has none.
pub proof fn without_its_header_there_is_no_code_section(image: Seq<u8>, header: int)
    requires
        image.len() <= usize::MAX,
        pe_header(image) == Some(header),
        header + 0x16 <= image.len(),
        ({
            let table = header + 0x18 + image[header + 0x14] + 0x100 * image[header + 0x15];
            let count = image[header + 6] + 0x100 * image[header + 7];
            &&& table + 0x28 * count <= usize::MAX
            &&& forall|index: int|
                0 <= index < count ==> !#[trigger] names_the_code(image, table + 0x28 * index)
        }),
    ensures
        text_section(image) == Err::<(nat, Seq<u8>), Seq<char>>(".text section is missing"@),
{
    let table = header + 0x18 + image[header + 0x14] + 0x100 * image[header + 0x15];
    let count = image[header + 6] + 0x100 * image[header + 7];
    lemma_table(image, header);
    lemma_no_text_header(image, table, 0, count);
}

proof fn lemma_no_text_header(image: Seq<u8>, table: int, index: int, count: int)
    requires
        0 <= table,
        0 <= index <= count,
        table + 0x28 * count <= usize::MAX,
        forall|i: int| 0 <= i < count ==> !#[trigger] names_the_code(image, table + 0x28 * i),
    ensures
        text_section_from(image, table, index, count) == Err::<(nat, Seq<u8>), Seq<char>>(
            ".text section is missing"@,
        ),
    decreases count - index,
{
    if index < count {
        assert(section_header(table, index) == table + 0x28 * index);
        assert(!names_the_code(image, table + 0x28 * index));
        lemma_names_the_code(image, table + 0x28 * index);
        lemma_no_text_header(image, table, index + 1, count);
    }
}

/// Law: where a file ends too early, the first number that it lacks is named.
pub proof fn the_missing_number_is_named(image: Seq<u8>, header: int, index: int)
    requires
        image.len() <= usize::MAX,
        pe_header(image) == Some(header),
    ensures
        image.len() < header + 8 ==> text_section(image) == Err::<(nat, Seq<u8>), Seq<char>>(
            "missing section count"@,
        ),
        header + 8 <= image.len() < header + 0x16 ==> text_section(image) == Err::<
            (nat, Seq<u8>),
            Seq<char>,
        >("missing optional header size"@),
        header + 0x16 <= image.len() && 0 <= index < image[header + 6] + 0x100 * image[header + 7]
            ==> {
            let table = header + 0x18 + image[header + 0x14] + 0x100 * image[header + 0x15];
            let at = table + 0x28 * index;
            names_the_code(image, at) && at + 0x18 > image.len() && (forall|earlier: int|
                0 <= earlier < index ==> !#[trigger] names_the_code(
                    image,
                    table + 0x28 * earlier,
                )) ==> text_section(image) == Err::<(nat, Seq<u8>), Seq<char>>(
                if image.len() < at + 12 {
                    "missing virtual size"@
                } else if image.len() < at + 16 {
                    "missing section RVA"@
                } else if image.len() < at + 20 {
                    "missing raw size"@
                } else {
                    "missing raw offset"@
                },
            )
        },
{
    pe_header_is_where_the_dos_header_points(image, header);
    numbers_at_an_offset_are_made_of_the_data(image, header + 6);
    numbers_at_an_offset_are_made_of_the_data(image, header + 0x14);
    if header + 0x16 <= image.len() && 0 <= index < image[header + 6] + 0x100 * image[header + 7] {
        let table = header + 0x18 + image[header + 0x14] + 0x100 * image[header + 0x15];
        let at = table + 0x28 * index;
        if names_the_code(image, at) && forall|earlier: int|
            0 <= earlier < index ==> !#[trigger] names_the_code(image, table + 0x28 * earlier) {
            lemma_table(image, header);
            lemma_names_the_code(image, at);
            assert(section_header(table, index) == at);
            assert forall|i: int| 0 <= i < index implies !is_text_header(
                image,
                #[trigger] section_header(table, i),
            ) by {
                assert(section_header(table, i) == table + 0x28 * i);
                assert(!names_the_code(image, table + 0x28 * i));
                lemma_names_the_code(image, table + 0x28 * i);
            }
            first_text_section_is_taken(
                image,
                table,
                0,
                index,
                image[header + 6] + 0x100 * image[header + 7],
            );
        }
    }
}

/// Law: without a PE header nothing is read.
pub proof fn without_a_header_nothing_is_read(image: Seq<u8>)
    requires
        pe_header(image) is None,
    ensures
        text_section(image) == Err::<(nat, Seq<u8>), Seq<char>>("missing PE header"@),
        timestamp(image) is None,
{
}

fn field_u16(image: &[u8], base: usize, offset: usize) -> (r: Option<u16>)
    ensures
        match r {
            Some(v) => le_at(image@, base + offset, 2) == Some(v as nat),
            None => le_at(image@, base + offset, 2) is None,
        },
{
    assert(image.len() == image@.len());
    match base.checked_add(offset) {
        Some(at) => read_u16(image, at),
        None => None,
    }
}

fn field_u32(image: &[u8], base: usize, offset: usize) -> (r: Option<u32>)
    ensures
        match r {
            Some(v) => le_at(image@, base + offset, 4) == Some(v as nat),
            None => le_at(image@, base + offset, 4) is None,
        },
{
    assert(image.len() == image@.len());
    match base.checked_add(offset) {
        Some(at) => read_u32(image, at),
        None => None,
    }
}

/// Whether eight bytes are the name of the code section.
pub fn is_text_name(name: &[u8]) -> (r: bool)
    ensures
        r == (name@ == text_section_name()),
{
    let r: bool = name.len() == 8 && name[0] == 0x2e && name[1] == 0x74 && name[2] == 0x65
        && name[3] == 0x78 && name[4] == 0x74 && name[5] == 0 && name[6] == 0 && name[7] == 0;
    assert(r ==> name@ =~= text_section_name());
    r
}

fn has_text_name(image: &[u8], header: usize) -> (r: bool)
    ensures
        r == is_text_header(image@, header as int),
{
    if image.len() < SECTION_NAME_SIZE || header > image.len() - SECTION_NAME_SIZE {
        return false;
    }
    is_text_name(&image[header..header + SECTION_NAME_SIZE])
}

/// The offset of the PE header.
pub fn pe_header_offset(image: &[u8]) -> (r: Option<usize>)
    ensures
        match r {
            Some(offset) => pe_header(image@) == Some(offset as int),
            None => pe_header(image@) is None,
        },
{
    if read_u16(image, 0)? != DOS_SIGNATURE {
        return None;
    }
    let pe_header: usize = read_u32(image, DOS_LFANEW_OFFSET)? as usize;
    if read_u32(image, pe_header)? == PE_SIGNATURE {
        Some(pe_header)
    } else {
        None
    }
}

/// The time stamp of the COFF header.
pub fn coff_timestamp(image: &[u8]) -> (r: Option<u32>)
    ensures
        match r {
            Some(v) => timestamp(image@) == Some(v as nat),
            None => timestamp(image@) is None,
        },
{
    let pe_header: usize = pe_header_offset(image)?;
    field_u32(image, pe_header, COFF_TIMESTAMP_OFFSET)
}

/// Finds the code section of a file.
pub fn text_section_from_file<'a>(image: &'a [u8]) -> (r: Result<TextSection<'a>, &'static str>)
    ensures
        match text_section(image@) {
            Ok((rva, data)) => r matches Ok(section) && section.rva == rva && section.data@ == data,
            Err(message) => r matches Err(error) && error@ == message,
        },
{
    let pe_header: usize = match pe_header_offset(image) {
        Some(offset) => offset,
        None => return Err("missing PE header"),
    };
    let section_count: usize = match field_u16(image, pe_header, COFF_NUMBER_OF_SECTIONS_OFFSET) {
        Some(count) => count as usize,
        None => return Err("missing section count"),
    };
    let optional_header_size: usize = match field_u16(
        image,
        pe_header,
        COFF_SIZE_OF_OPTIONAL_HEADER_OFFSET,
    ) {
        Some(size) => size as usize,
        None => return Err("missing optional header size"),
    };
    let behind_headers: usize = match pe_header.checked_add(PE_HEADERS_SIZE) {
        Some(offset) => offset,
        None => return Err("section table overflow"),
    };
    let section_table: usize = match behind_headers.checked_add(optional_header_size) {
        Some(offset) => offset,
        None => return Err("section table overflow"),
    };

    let mut index: usize = 0;
    while index < section_count
        invariant
            index <= section_count <= u16::MAX,
            text_section(image@) == text_section_from(
                image@,
                section_table as int,
                index as int,
                section_count as int,
            ),
        decreases section_count - index,
    {
        let header: usize = match section_table.checked_add(index * SECTION_HEADER_SIZE) {
            Some(offset) => offset,
            None => return Err("section header overflow"),
        };
        if has_text_name(image, header) {
            return section_from_header(image, header);
        }
        index = index + 1;
    }
    Err(".text section is missing")
}

fn section_from_header<'a>(image: &'a [u8], header: usize) -> (r: Result<
    TextSection<'a>,
    &'static str,
>)
    ensures
        match section_at(image@, header as int) {
            Ok((rva, data)) => r matches Ok(section) && section.rva == rva && section.data@ == data,
            Err(message) => r matches Err(error) && error@ == message,
        },
{
    let virtual_size: usize = match field_u32(image, header, SECTION_VIRTUAL_SIZE_OFFSET) {
        Some(size) => size as usize,
        None => return Err("missing virtual size"),
    };
    let rva: usize = match field_u32(image, header, SECTION_VIRTUAL_ADDRESS_OFFSET) {
        Some(rva) => rva as usize,
        None => return Err("missing section RVA"),
    };
    let raw_size: usize = match field_u32(image, header, SECTION_SIZE_OF_RAW_DATA_OFFSET) {
        Some(size) => size as usize,
        None => return Err("missing raw size"),
    };
    let raw_offset: usize = match field_u32(image, header, SECTION_RAW_DATA_OFFSET) {
        Some(offset) => offset as usize,
        None => return Err("missing raw offset"),
    };
    let size: usize = if virtual_size <= raw_size {
        virtual_size
    } else {
        raw_size
    };
    let end: usize = match raw_offset.checked_add(size) {
        Some(end) => end,
        None => return Err("section size overflow"),
    };
    if end > image.len() {
        return Err(".text is outside the file");
    }
    Ok(TextSection { rva, data: &image[raw_offset..end] })
}

} // verus!

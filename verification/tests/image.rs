use autodirector_fix::image::{
    coff_timestamp, is_text_name, pe_header_offset, text_section_from_file, TextSection,
};

const HEADER: usize = 0x80;
const TABLE: usize = HEADER + 0x18 + 0xf0;

fn put(image: &mut [u8], offset: usize, bytes: &[u8]) {
    image[offset..offset + bytes.len()].copy_from_slice(bytes);
}

fn section(image: &mut [u8], index: usize, name: &[u8; 8], fields: [u32; 4]) {
    let header = TABLE + index * 0x28;
    put(image, header, name);
    for (i, field) in fields.iter().enumerate() {
        put(image, header + 8 + 4 * i, &field.to_le_bytes());
    }
}

// Virtual size, address, raw size and raw offset of the code section are 0x30, 0x1000, 0x40 and
// 0x300.
fn image() -> Vec<u8> {
    let mut image = vec![0u8; 0x400];
    put(&mut image, 0, b"MZ");
    put(&mut image, 0x3c, &(HEADER as u32).to_le_bytes());
    put(&mut image, HEADER, b"PE\0\0");
    put(&mut image, HEADER + 6, &2u16.to_le_bytes());
    put(&mut image, HEADER + 8, &0x6543_2100u32.to_le_bytes());
    put(&mut image, HEADER + 0x14, &0xf0u16.to_le_bytes());
    section(&mut image, 0, b".data\0\0\0", [1, 2, 3, 4]);
    section(&mut image, 1, b".text\0\0\0", [0x30, 0x1000, 0x40, 0x300]);
    for i in 0x300..0x400 {
        image[i] = i as u8;
    }
    image
}

#[test]
fn header_and_timestamp_are_found() {
    let image = image();
    assert_eq!(pe_header_offset(&image), Some(HEADER));
    assert_eq!(coff_timestamp(&image), Some(0x6543_2100));
}

#[test]
fn code_section_is_found() {
    let image = image();
    assert_eq!(
        text_section_from_file(&image),
        Ok(TextSection {
            rva: 0x1000,
            data: &image[0x300..0x330],
        })
    );
}

#[test]
fn the_shorter_size_counts() {
    let mut image = image();
    section(&mut image, 1, b".text\0\0\0", [0x50, 0x2000, 0x20, 0x310]);
    assert_eq!(
        text_section_from_file(&image),
        Ok(TextSection {
            rva: 0x2000,
            data: &image[0x310..0x330],
        })
    );
}

#[test]
fn the_first_code_section_counts() {
    let mut image = image();
    section(&mut image, 0, b".text\0\0\0", [0, 0x3000, 0, 0x400]);
    assert_eq!(
        text_section_from_file(&image),
        Ok(TextSection {
            rva: 0x3000,
            data: &[],
        })
    );
}

#[test]
fn files_without_a_header_are_refused() {
    let mut wrong_dos = image();
    wrong_dos[0] = b'Z';
    let mut wrong_pe = image();
    wrong_pe[HEADER] = b'Q';
    let mut far_header = image();
    put(&mut far_header, 0x3c, &u32::MAX.to_le_bytes());
    for image in [Vec::new(), b"MZ".to_vec(), wrong_dos, wrong_pe, far_header] {
        assert_eq!(pe_header_offset(&image), None);
        assert_eq!(coff_timestamp(&image), None);
        assert_eq!(text_section_from_file(&image), Err("missing PE header"));
    }
}

#[test]
fn cut_headers_are_named() {
    let image = image();
    let cut = |len: usize| text_section_from_file(&image[..len]);
    assert_eq!(cut(HEADER + 4), Err("missing section count"));
    assert_eq!(cut(HEADER + 8), Err("missing optional header size"));
    assert_eq!(coff_timestamp(&image[..HEADER + 8]), None);
    assert_eq!(cut(HEADER + 0x16), Err(".text section is missing"));
    let header = TABLE + 0x28;
    assert_eq!(cut(header + 7), Err(".text section is missing"));
    assert_eq!(cut(header + 8), Err("missing virtual size"));
    assert_eq!(cut(header + 12), Err("missing section RVA"));
    assert_eq!(cut(header + 16), Err("missing raw size"));
    assert_eq!(cut(header + 20), Err("missing raw offset"));
    assert_eq!(cut(header + 24), Err(".text is outside the file"));
}

#[test]
fn code_outside_the_file_is_refused() {
    let mut image = image();
    section(&mut image, 1, b".text\0\0\0", [0x30, 0x1000, 0x40, 0x3d1]);
    assert_eq!(
        text_section_from_file(&image),
        Err(".text is outside the file")
    );
    section(&mut image, 1, b".text\0\0\0", [0x30, 0x1000, 0x40, u32::MAX]);
    assert_eq!(
        text_section_from_file(&image),
        Err(".text is outside the file")
    );
}

#[test]
fn a_file_without_a_code_section_is_refused() {
    let mut image = image();
    section(&mut image, 1, b".texts\0\0", [0x30, 0x1000, 0x40, 0x300]);
    assert_eq!(
        text_section_from_file(&image),
        Err(".text section is missing")
    );
    put(&mut image, HEADER + 6, &0u16.to_le_bytes());
    assert_eq!(
        text_section_from_file(&image),
        Err(".text section is missing")
    );
}

#[test]
fn the_name_of_the_code_section_is_eight_bytes() {
    assert!(is_text_name(b".text\0\0\0"));
    assert!(!is_text_name(b".text\0\0"));
    assert!(!is_text_name(b".text\0\0\0\0"));
    assert!(!is_text_name(b".text\0\0x"));
    assert!(!is_text_name(b""));
}

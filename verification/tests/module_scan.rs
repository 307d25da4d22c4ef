use autodirector_fix::module_scan::{MappedSection, ModuleScan, ReadRequest};

const BASE: usize = 0x1_0000;
const HEADER: usize = 0x80;
const TABLE: usize = HEADER + 0x18 + 0x10;

fn put(module: &mut [u8], offset: usize, bytes: &[u8]) {
    module[offset..offset + bytes.len()].copy_from_slice(bytes);
}

fn section(module: &mut [u8], index: usize, name: &[u8; 8], fields: [u32; 3]) {
    let header = TABLE + index * 0x28;
    put(module, header, name);
    for (i, field) in fields.iter().enumerate() {
        put(module, header + 8 + 4 * i, &field.to_le_bytes());
    }
}

// Virtual size, address and raw size of the code section are 0x30, 0x1000 and 0x40.
fn module() -> Vec<u8> {
    let mut module = vec![0u8; 0x200];
    put(&mut module, 0, b"MZ");
    put(&mut module, 0x3c, &(HEADER as u32).to_le_bytes());
    put(&mut module, HEADER, b"PE\0\0");
    put(&mut module, HEADER + 6, &3u16.to_le_bytes());
    put(&mut module, HEADER + 0x14, &0x10u16.to_le_bytes());
    section(&mut module, 0, b".rdata\0\0", [1, 2, 3]);
    section(&mut module, 1, b".text\0\0\0", [0x30, 0x1000, 0x40]);
    section(&mut module, 2, b".text\0\0\0", [1, 2, 3]);
    module
}

fn scan(base: usize, module: &[u8]) -> (Vec<ReadRequest>, Option<MappedSection>) {
    let mut scan = ModuleScan::begin(base);
    let mut requests = Vec::new();
    while let Some(request) = scan.request() {
        let start = request.address - base;
        scan.feed(&module[start..start + request.len]);
        requests.push(request);
    }
    (requests, scan.section())
}

#[test]
fn mapped_code_section_is_found() {
    let (requests, found) = scan(BASE, &module());
    assert_eq!(
        found,
        Some(MappedSection {
            rva: 0x1000,
            size: 0x40,
        })
    );
    let header = TABLE + 0x28;
    let expected: Vec<ReadRequest> = [
        (0, 2),
        (0x3c, 4),
        (HEADER, 4),
        (HEADER + 6, 2),
        (HEADER + 0x14, 2),
        (TABLE, 8),
        (header, 8),
        (header + 8, 4),
        (header + 0x10, 4),
        (header + 0x0c, 4),
    ]
    .iter()
    .map(|(offset, len)| ReadRequest {
        address: BASE + offset,
        len: *len,
    })
    .collect();
    assert_eq!(requests, expected);
}

#[test]
fn the_longer_size_counts() {
    let mut module = module();
    section(&mut module, 1, b".text\0\0\0", [0x50, 0x2000, 0x40]);
    assert_eq!(
        scan(BASE, &module).1,
        Some(MappedSection {
            rva: 0x2000,
            size: 0x50,
        })
    );
}

#[test]
fn modules_without_headers_hold_nothing() {
    let mut wrong_dos = module();
    wrong_dos[1] = b'M';
    assert_eq!(scan(BASE, &wrong_dos).1, None);
    assert_eq!(scan(BASE, &wrong_dos).0.len(), 1);
    let mut wrong_pe = module();
    wrong_pe[HEADER + 1] = b'P';
    assert_eq!(scan(BASE, &wrong_pe).1, None);
    assert_eq!(scan(BASE, &wrong_pe).0.len(), 3);
}

#[test]
fn modules_without_a_code_section_hold_nothing() {
    let mut module = module();
    put(&mut module, HEADER + 6, &1u16.to_le_bytes());
    assert_eq!(scan(BASE, &module).1, None);
    put(&mut module, HEADER + 6, &0u16.to_le_bytes());
    assert_eq!(scan(BASE, &module).1, None);
}

#[test]
fn an_empty_code_section_is_none() {
    let mut module = module();
    section(&mut module, 1, b".text\0\0\0", [0, 0x1000, 0]);
    assert_eq!(scan(BASE, &module).1, None);
}

#[test]
fn nothing_is_read_beyond_the_last_address() {
    assert_eq!(scan(usize::MAX, &[]), (Vec::new(), None));
    assert_eq!(scan(usize::MAX - 1, b"MZ").1, None);
    let mut module = module();
    put(&mut module, 0x3c, &u32::MAX.to_le_bytes());
    let base = usize::MAX - 0x200;
    assert_eq!(scan(base, &module).0.len(), 2);
    assert_eq!(scan(base, &module).1, None);
}

#[test]
fn a_section_beyond_the_last_address_is_none() {
    assert_eq!(scan(usize::MAX - 0x200, &module()).1, None);
}

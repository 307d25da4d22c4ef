use autodirector_fix::report::{
    json_escape, json_optional_move, json_optional_rva, json_optional_string, json_optional_u32,
    signature_report,
};

// A file whose code section, at address 0x1000, holds one block at 0x10 of its 0xa0 bytes.
fn image() -> Vec<u8> {
    let mut image = vec![0u8; 0x200];
    image[0..2].copy_from_slice(b"MZ");
    image[0x3c] = 0x40;
    image[0x40..0x44].copy_from_slice(b"PE\0\0");
    image[0x46] = 1;
    image[0x48..0x4c].copy_from_slice(&1_700_000_000u32.to_le_bytes());
    image[0x58..0x60].copy_from_slice(b".text\0\0\0");
    image[0x60..0x64].copy_from_slice(&0xa0u32.to_le_bytes());
    image[0x64..0x68].copy_from_slice(&0x1000u32.to_le_bytes());
    image[0x68..0x6c].copy_from_slice(&0x100u32.to_le_bytes());
    image[0x6c..0x70].copy_from_slice(&0x100u32.to_le_bytes());
    image[0x110..0x12a].copy_from_slice(&[
        0xe8, 59, 0, 0, 0, 0x48, 0x8b, 0xd6, 0x48, 0x8b, 0x08, 0x4c, 0x8b, 0x41, 0x28, 0x48, 0x8b,
        0xc8, 0x41, 0xff, 0xd0, 0xe9, 70, 0, 0, 0,
    ]);
    image
}

#[test]
fn a_compatible_file_is_reported() {
    let report = signature_report("C:\\game\\\"x\".dll", Some("14\\1"), &image());
    let report = match report {
        Ok(report) => report,
        Err(error) => panic!("{error}"),
    };
    assert!(report.compatible);
    assert_eq!(
        report.json,
        "{\n  \"input\": \"C:\\\\game\\\\\\\"x\\\".dll\",\n  \"build_id\": \"14\\\\1\",\n  \"file_size\": 512,\n  \"coff_timestamp\": 1700000000,\n  \"text_rva\": \"0x1000\",\n  \"text_size\": 160,\n  \"autodirector_view_override\": {\n    \"status\": \"compatible\",\n    \"matches\": 1,\n    \"patch_rva\": \"0x1010\",\n    \"view_setup_move\": \"48 8b d6\",\n    \"get_observer_state_rva\": \"0x1050\",\n    \"normal_setup_jump_target_rva\": \"0x1070\"\n  }\n}"
    );
}

#[test]
fn an_incompatible_file_is_reported() {
    let mut image = image();
    image[0x110] = 0xe9;
    let report = match signature_report("client.dll", None, &image) {
        Ok(report) => report,
        Err(error) => panic!("{error}"),
    };
    assert!(!report.compatible);
    assert_eq!(
        report.json,
        "{\n  \"input\": \"client.dll\",\n  \"build_id\": null,\n  \"file_size\": 512,\n  \"coff_timestamp\": 1700000000,\n  \"text_rva\": \"0x1000\",\n  \"text_size\": 160,\n  \"autodirector_view_override\": {\n    \"status\": \"not_found\",\n    \"matches\": 0,\n    \"patch_rva\": null,\n    \"view_setup_move\": null,\n    \"get_observer_state_rva\": null,\n    \"normal_setup_jump_target_rva\": null\n  }\n}"
    );
}

#[test]
fn a_broken_file_is_refused() {
    assert_eq!(
        signature_report("client.dll", None, &[]).err(),
        Some("missing PE header")
    );
    assert_eq!(
        signature_report("client.dll", None, &image()[..0x60]).err(),
        Some("missing virtual size")
    );
}

#[test]
fn strings_are_escaped() {
    for text in ["", "plain", "a\\b", "\"", "\\\"", "\\\\n\"\u{e9}\n"] {
        assert_eq!(
            json_escape(text),
            text.replace('\\', "\\\\").replace('"', "\\\"")
        );
    }
    assert_eq!(json_escape("a\\\"b"), "a\\\\\\\"b");
}

#[test]
fn optional_values_are_null_or_shown() {
    assert_eq!(json_optional_string(None), "null");
    assert_eq!(json_optional_string(Some("a\"b")), "\"a\\\"b\"");
    assert_eq!(json_optional_u32(None), "null");
    assert_eq!(json_optional_u32(Some(0)), "0");
    assert_eq!(json_optional_u32(Some(u32::MAX)), "4294967295");
    assert_eq!(json_optional_rva(None), "null");
    assert_eq!(json_optional_rva(Some(0)), "\"0x0\"");
    assert_eq!(json_optional_rva(Some(0xab_cdef)), "\"0xabcdef\"");
    assert_eq!(json_optional_move(None), "null");
    assert_eq!(json_optional_move(Some([0x48, 0x0b, 0xd0])), "\"48 0b d0\"");
}

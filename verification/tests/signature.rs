use autodirector_fix::autodirector_signature::{
    analyze_autodirector_view_override, find_unique_pattern, is_view_setup_argument_move,
    relative_target, AnalysisReport, AnalysisStatus, PATCH_LEN,
};

fn valid_block(text: &mut [u8], offset: usize, view_setup_move: [u8; 3]) {
    let block = &mut text[offset..offset + PATCH_LEN];
    block.copy_from_slice(&[
        0xe8,
        0,
        0,
        0,
        0,
        view_setup_move[0],
        view_setup_move[1],
        view_setup_move[2],
        0x48,
        0x8b,
        0x08,
        0x4c,
        0x8b,
        0x41,
        0x28,
        0x48,
        0x8b,
        0xc8,
        0x41,
        0xff,
        0xd0,
        0xe9,
        0,
        0,
        0,
        0,
    ]);

    let call_target = offset + 64;
    let call_displacement = (call_target as isize - (offset + 5) as isize) as i32;
    block[1..5].copy_from_slice(&call_displacement.to_le_bytes());

    let jump_target = offset + 96;
    let jump_displacement = (jump_target as isize - (offset + 26) as isize) as i32;
    block[22..26].copy_from_slice(&jump_displacement.to_le_bytes());
}

#[test]
fn accepts_rbx_view_setup_move_and_resolves_relative_targets() {
    let mut text = vec![0x90; 160];
    valid_block(&mut text, 16, [0x48, 0x8b, 0xd3]);

    let report = analyze_autodirector_view_override(&text);

    assert_eq!(report.status, AnalysisStatus::Compatible);
    assert_eq!(report.matches, 1);
    assert_eq!(report.patch_offset, Some(16));
    assert_eq!(report.get_observer_state_offset, Some(80));
    assert_eq!(report.original_jump_target_offset, Some(112));
}

#[test]
fn rejects_an_ambiguous_match() {
    let mut text = vec![0x90; 256];
    valid_block(&mut text, 16, [0x48, 0x8b, 0xd6]);
    valid_block(&mut text, 128, [0x49, 0x8b, 0xd6]);

    let report = analyze_autodirector_view_override(&text);

    assert_eq!(report.status, AnalysisStatus::Ambiguous);
    assert_eq!(report.matches, 2);
}

#[test]
fn empty_and_foreign_code_is_not_found() {
    for text in [vec![], vec![0x90; 25], vec![0x90; 400]] {
        let report = analyze_autodirector_view_override(&text);
        assert_eq!(
            report,
            AnalysisReport {
                status: AnalysisStatus::NotFound,
                matches: 0,
                patch_offset: None,
                view_setup_argument_move: None,
                get_observer_state_offset: None,
                original_jump_target_offset: None,
            }
        );
        assert!(!report.is_compatible());
    }
}

#[test]
fn a_move_of_another_kind_is_unsupported() {
    for bytes in [[0x48, 0x8b, 0xc3], [0x4c, 0x8b, 0xd3]] {
        let mut text = vec![0x90; 160];
        valid_block(&mut text, 16, bytes);
        let report = analyze_autodirector_view_override(&text);
        assert_eq!(
            report,
            AnalysisReport {
                status: AnalysisStatus::UnsupportedViewSetupMove,
                matches: 1,
                patch_offset: Some(16),
                view_setup_argument_move: Some(bytes),
                get_observer_state_offset: None,
                original_jump_target_offset: None,
            }
        );
    }
}

#[test]
fn a_call_out_of_the_section_is_reported() {
    for displacement in [-22i32, 139, i32::MIN, i32::MAX] {
        let mut text = vec![0x90; 160];
        valid_block(&mut text, 16, [0x48, 0x8b, 0xd3]);
        text[17..21].copy_from_slice(&displacement.to_le_bytes());
        let report = analyze_autodirector_view_override(&text);
        assert_eq!(report.status, AnalysisStatus::CallTargetOutsideText);
        assert_eq!(report.patch_offset, Some(16));
        assert_eq!(report.view_setup_argument_move, Some([0x48, 0x8b, 0xd3]));
        assert_eq!(report.get_observer_state_offset, None);
        assert_eq!(report.original_jump_target_offset, None);
    }
}

#[test]
fn a_jump_out_of_the_section_is_reported() {
    for displacement in [-43i32, 118] {
        let mut text = vec![0x90; 160];
        valid_block(&mut text, 16, [0x48, 0x8b, 0xd3]);
        text[38..42].copy_from_slice(&displacement.to_le_bytes());
        let report = analyze_autodirector_view_override(&text);
        assert_eq!(report.status, AnalysisStatus::JumpTargetOutsideText);
        assert_eq!(report.get_observer_state_offset, Some(80));
        assert_eq!(report.original_jump_target_offset, None);
    }
}

#[test]
fn targets_at_the_edges_of_the_section_are_inside() {
    let mut text = vec![0x90; 160];
    valid_block(&mut text, 16, [0x48, 0x8b, 0xd3]);
    text[17..21].copy_from_slice(&(-21i32).to_le_bytes());
    text[38..42].copy_from_slice(&117i32.to_le_bytes());
    let report = analyze_autodirector_view_override(&text);
    assert!(report.is_compatible());
    assert_eq!(report.get_observer_state_offset, Some(0));
    assert_eq!(report.original_jump_target_offset, Some(159));
}

#[test]
fn statuses_have_names() {
    let names = [
        (AnalysisStatus::Compatible, "compatible"),
        (AnalysisStatus::NotFound, "not_found"),
        (AnalysisStatus::Ambiguous, "ambiguous"),
        (
            AnalysisStatus::UnsupportedViewSetupMove,
            "unsupported_view_setup_move",
        ),
        (
            AnalysisStatus::CallTargetOutsideText,
            "call_target_outside_text",
        ),
        (
            AnalysisStatus::JumpTargetOutsideText,
            "jump_target_outside_text",
        ),
    ];
    for (status, name) in names {
        assert_eq!(status.as_str(), name);
    }
}

#[test]
fn moves_into_rdx_are_told_apart_from_others() {
    for first in 0..=255u8 {
        for third in 0..=255u8 {
            let expected = (first == 0x48 || first == 0x49) && (0xd0..=0xd7).contains(&third);
            assert_eq!(
                is_view_setup_argument_move([first, 0x8b, third]),
                expected
            );
            assert!(!is_view_setup_argument_move([first, 0x89, third]));
        }
    }
}

#[test]
fn unique_pattern_counts_all_matches() {
    let pattern = [Some(3), None];
    assert_eq!(find_unique_pattern(&[3, 0, 3, 3, 0], &pattern), (3, None));
    assert_eq!(find_unique_pattern(&[0, 3, 0], &pattern), (1, Some(1)));
    assert_eq!(find_unique_pattern(&[3], &pattern), (0, None));
    assert_eq!(find_unique_pattern(&[3], &[]), (0, None));
}

#[test]
fn relative_targets_need_a_whole_displacement() {
    let text = [0xe8, 0xfe, 0xff, 0xff, 0xff, 0, 0];
    assert_eq!(relative_target(&text, 0, 5), Some(3));
    assert_eq!(relative_target(&text, 2, 5), None);
    assert_eq!(relative_target(&text, 3, 5), None);
    assert_eq!(relative_target(&text, usize::MAX, 5), None);
}

use autodirector_fix::autodirector_signature::{AnalysisReport, AnalysisStatus, PATCH_LEN};
use autodirector_fix::patching::{
    find_view_override, scan_text, Installation, PatchState, ResolvedViewOverride, Scan,
};
use autodirector_fix::trampoline::{build_conditional_trampoline, build_patch};

const NOT_FOUND: &str = "autodirector view override signature was not found or was unsafe";
const BASE: usize = 0x7000_1000;

fn code() -> Vec<u8> {
    let mut text = vec![0x90; 0xa0];
    text[0x10..0x2a].copy_from_slice(&[
        0xe8, 59, 0, 0, 0, 0x48, 0x8b, 0xd6, 0x48, 0x8b, 0x08, 0x4c, 0x8b, 0x41, 0x28, 0x48, 0x8b,
        0xc8, 0x41, 0xff, 0xd0, 0xe9, 70, 0, 0, 0,
    ]);
    text
}

fn target() -> ResolvedViewOverride {
    ResolvedViewOverride {
        patch_address: BASE + 0x10,
        get_observer_state: BASE + 0x50,
        original_jump_target: BASE + 0x70,
        view_setup_argument_move: [0x48, 0x8b, 0xd6],
    }
}

#[test]
fn a_compatible_module_is_resolved() {
    let scan = scan_text(BASE, &code());
    assert_eq!(scan.text_base, BASE);
    assert_eq!(scan.size, 0xa0);
    let conclusion = find_view_override(Some(scan), "1.250");
    assert_eq!(conclusion.found, Some(target()));
    assert_eq!(
        conclusion.log,
        vec![
            "scanned client.dll .text size=160 matches=1 status=compatible elapsed_ms=1.250",
            "resolved view setup move=48 8b d6",
        ]
    );
}

#[test]
fn an_incompatible_module_is_not_resolved() {
    let mut text = code();
    text[0x10] = 0;
    let conclusion = find_view_override(Some(scan_text(BASE, &text)), "0.001");
    assert_eq!(conclusion.found, None);
    assert_eq!(
        conclusion.log,
        vec![
            "scanned client.dll .text size=160 matches=0 status=not_found elapsed_ms=0.001",
            NOT_FOUND,
        ]
    );
}

#[test]
fn a_module_without_code_is_not_resolved() {
    let conclusion = find_view_override(None, "0.001");
    assert_eq!(conclusion.found, None);
    assert_eq!(conclusion.log, vec![NOT_FOUND]);
}

#[test]
fn an_incomplete_report_is_not_resolved() {
    let scan = Scan {
        text_base: BASE,
        size: 1,
        report: AnalysisReport {
            status: AnalysisStatus::Compatible,
            matches: 1,
            patch_offset: Some(0),
            view_setup_argument_move: Some([1, 2, 3]),
            get_observer_state_offset: None,
            original_jump_target_offset: Some(0),
        },
    };
    let conclusion = find_view_override(Some(scan), "2.000");
    assert_eq!(conclusion.found, None);
    assert_eq!(
        conclusion.log,
        vec![
            "scanned client.dll .text size=1 matches=1 status=compatible elapsed_ms=2.000",
            "resolved view setup move=01 02 03",
            NOT_FOUND,
        ]
    );
}

#[test]
fn the_trampoline_goes_on_behind_the_block() {
    let installation = Installation::begin(target(), 0x4);
    assert_eq!(
        installation.code,
        build_conditional_trampoline(
            BASE + 0x50,
            BASE + 0x2a,
            BASE + 0x70,
            [0x48, 0x8b, 0xd6],
            0x4
        )
    );
}

#[test]
fn without_memory_nothing_is_written() {
    let placement = Installation::begin(target(), 0x4).place(None);
    assert_eq!(placement.write, None);
    assert_eq!(
        placement.log,
        vec![
            "failed to allocate trampoline",
            "failed to write patch at address=0x70001010",
        ]
    );
}

fn write(text: &mut [u8], address: usize, bytes: &[u8]) {
    let start = address - BASE;
    text[start..start + bytes.len()].copy_from_slice(bytes);
}

#[test]
fn restore_gives_the_code_back() {
    let mut text = code();
    let mut state = PatchState::new();
    assert_eq!(state.begin_restore(), None);

    let mut original = [0u8; PATCH_LEN];
    original.copy_from_slice(&text[0x10..0x2a]);
    state.remember(original);
    assert_eq!(state.begin_restore(), None);

    let installation = Installation::begin(target(), 0x4);
    let placement = installation.place(Some(0x5000));
    assert!(placement.log.is_empty());
    let request = placement.write.unwrap();
    assert_eq!(request.address, BASE + 0x10);
    assert_eq!(request.bytes, build_patch(0x5000));
    write(&mut text, request.address, &request.bytes);
    assert_ne!(text, code());
    let outcome = state.finish_install(&installation, 0x5000, true);
    assert_eq!(outcome.release, None);
    assert_eq!(
        outcome.log,
        vec![
            "installed trampoline address=0x5000 len=125",
            "patched view override address=0x70001010 len=26 disabled_mask=0x4",
        ]
    );
    assert!(state.patched);

    let request = state.begin_restore().unwrap();
    assert_eq!(request.address, BASE + 0x10);
    write(&mut text, request.address, &request.bytes);
    assert_eq!(text, code());
    let outcome = state.finish_restore(request.address, true);
    assert_eq!(outcome.release, Some(0x5000));
    assert_eq!(
        outcome.log,
        vec!["restored view override address=0x70001010 len=26"]
    );
    assert_eq!(state.begin_restore(), None);
    assert_eq!(state.finish_restore(1, true).release, None);
}

#[test]
fn a_patch_that_was_not_written_leaves_the_state_alone() {
    let mut state = PatchState::new();
    let installation = Installation::begin(target(), 0x4);
    let outcome = state.finish_install(&installation, 0x5000, false);
    assert_eq!(outcome.release, Some(0x5000));
    assert_eq!(
        outcome.log,
        vec!["failed to write patch at address=0x70001010"]
    );
    assert_eq!(state, PatchState::new());
}

#[test]
fn a_failed_restore_keeps_the_trampoline() {
    let mut state = PatchState::new();
    let installation = Installation::begin(target(), 0x4);
    state.finish_install(&installation, 0x5000, true);
    let request = state.begin_restore().unwrap();
    let outcome = state.finish_restore(request.address, false);
    assert_eq!(outcome.release, None);
    assert_eq!(
        outcome.log,
        vec!["failed to restore view override address=0x70001010"]
    );
    assert_eq!(state.trampoline_address, 0x5000);
    assert_eq!(state.begin_restore(), None);
}

#[test]
fn a_state_without_an_address_restores_nothing() {
    let mut state = PatchState::new();
    state.patched = true;
    assert_eq!(state.begin_restore(), None);
    assert!(!state.patched);
}

use autodirector_fix::trampoline::{
    build_conditional_trampoline, build_patch, emit_absolute_jump, AUTODIRECTOR_MODE_OFFSET,
};

#[test]
fn absolute_jump_uses_rip_relative_indirect_encoding() {
    let mut code = Vec::new();

    emit_absolute_jump(&mut code, 0x1122_3344_5566_7788);

    assert_eq!(
        code,
        vec![
            0xff, 0x25, 0, 0, 0, 0, 0x88, 0x77, 0x66, 0x55, 0x44, 0x33, 0x22, 0x11,
        ]
    );
}

#[test]
fn conditional_trampoline_embeds_disabled_mask() {
    let code = build_conditional_trampoline(0x1000, 0x2000, 0x3000, [0x48, 0x8b, 0xd6], 0b0100);

    assert!(code
        .windows(4)
        .any(|window| window == 0b0100u32.to_le_bytes()));
}

#[test]
fn conditional_trampoline_replays_the_current_view_setup_register_move() {
    let code = build_conditional_trampoline(0x1000, 0x2000, 0x3000, [0x48, 0x8b, 0xd3], 0b0100);

    assert!(code.windows(3).any(|window| window == [0x48, 0x8b, 0xd3]));
}

#[test]
fn conditional_trampoline_is_this_code() {
    let code = build_conditional_trampoline(
        0x1122_3344_5566_7788,
        0x2000,
        0x3000,
        [0x49, 0x8b, 0xd6],
        0x1e,
    );
    let expected: Vec<u8> = vec![
        0x50, 0x51, 0x52, 0x41, 0x50, 0x41, 0x51, 0x41, 0x52, 0x41, 0x53, 0x53, // save
        0x48, 0xb8, 0x88, 0x77, 0x66, 0x55, 0x44, 0x33, 0x22, 0x11, // mov rax
        0xff, 0xd0, // call rax
        0x8b, 0x48, 0x38, // mov ecx,[rax+38h]
        0xb8, 1, 0, 0, 0, // mov eax,1
        0xd3, 0xe0, // shl eax,cl
        0xa9, 0x1e, 0, 0, 0, // test eax,mask
        0x0f, 0x84, 26, 0, 0, 0, // jz
        0x5b, 0x41, 0x5b, 0x41, 0x5a, 0x41, 0x59, 0x41, 0x58, 0x5a, 0x59, 0x58, // restore
        0xff, 0x25, 0, 0, 0, 0, 0x00, 0x20, 0, 0, 0, 0, 0, 0, // jmp normal
        0x5b, 0x41, 0x5b, 0x41, 0x5a, 0x41, 0x59, 0x41, 0x58, 0x5a, 0x59, 0x58, // restore
        0x48, 0xb8, 0x88, 0x77, 0x66, 0x55, 0x44, 0x33, 0x22, 0x11, // mov rax
        0xff, 0xd0, // call rax
        0x49, 0x8b, 0xd6, // mov rdx,r14
        0x48, 0x8b, 0x08, // mov rcx,[rax]
        0x4c, 0x8b, 0x41, 0x28, // mov r8,[rcx+28h]
        0x48, 0x8b, 0xc8, // mov rcx,rax
        0x41, 0xff, 0xd0, // call r8
        0xff, 0x25, 0, 0, 0, 0, 0x00, 0x30, 0, 0, 0, 0, 0, 0, // jmp original
    ];
    assert_eq!(code, expected);
    assert_eq!(code.len(), 125);
    assert_eq!(AUTODIRECTOR_MODE_OFFSET, 0x38);
}

#[test]
fn absolute_jump_is_appended() {
    let mut code = vec![0xcc];
    emit_absolute_jump(&mut code, 1);
    assert_eq!(
        code,
        vec![0xcc, 0xff, 0x25, 0, 0, 0, 0, 1, 0, 0, 0, 0, 0, 0, 0]
    );
}

#[test]
fn patch_is_a_jump_filled_up_with_nops() {
    assert_eq!(
        build_patch(0x0123_4567),
        vec![
            0xff, 0x25, 0, 0, 0, 0, 0x67, 0x45, 0x23, 0x01, 0, 0, 0, 0, 0x90, 0x90, 0x90, 0x90,
            0x90, 0x90, 0x90, 0x90, 0x90, 0x90, 0x90, 0x90,
        ]
    );
}

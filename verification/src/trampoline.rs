//! Assembles the trampoline that decides, each time the override block is reached, whether the
//! autodirector's override or the normal view setup runs.
use vstd::prelude::*;

use crate::autodirector_signature::PATCH_LEN;
use crate::bytes::{
    le_bytes, le_bytes_are_the_digits, lemma_le_bytes_len, push_le_u32, push_le_u64,
};
use vstd::arithmetic::power::pow;

verus! {

/// Where the observer state keeps the autodirector's camera mode.
pub const AUTODIRECTOR_MODE_OFFSET: u8 = 0x38;

/// Pushes of the registers that the call and the test change, and of `rbx`.
pub open spec fn save_registers() -> Seq<u8> {
    seq![
        0x50u8,  // push rax
        0x51u8,  // push rcx
        0x52u8,  // push rdx
        0x41u8,
        0x50u8,  // push r8
        0x41u8,
        0x51u8,  // push r9
        0x41u8,
        0x52u8,  // push r10
        0x41u8,
        0x53u8,  // push r11
        0x53u8,  // push rbx
    ]
}

/// The pops that undo [`save_registers`].
pub open spec fn restore_registers() -> Seq<u8> {
    seq![
        0x5bu8,  // pop rbx
        0x41u8,
        0x5bu8,  // pop r11
        0x41u8,
        0x5au8,  // pop r10
        0x41u8,
        0x59u8,  // pop r9
        0x41u8,
        0x58u8,  // pop r8
        0x5au8,  // pop rdx
        0x59u8,  // pop rcx
        0x58u8,  // pop rax
    ]
}

/// `mov rax, value`
pub open spec fn mov_rax_imm64(value: nat) -> Seq<u8> {
    seq![0x48u8, 0xb8u8] + le_bytes(value, 8)
}

/// `jmp qword ptr [rip]` with the target behind it.
pub open spec fn absolute_jump(target: nat) -> Seq<u8> {
    seq![0xffu8, 0x25u8, 0u8, 0u8, 0u8, 0u8] + le_bytes(target, 8)
}

/// `call rax`
pub open spec fn call_rax() -> Seq<u8> {
    seq![0xffu8, 0xd0u8]
}

/// The test of the mode's bit in the mask, and the branch over the normal path where it is clear.
pub open spec fn mode_test(disabled_mask: nat) -> Seq<u8> {
    seq![
        0x8bu8,
        0x48u8,
        0x38u8,  // mov ecx,[rax+38h]
        0xb8u8,
        1u8,
        0u8,
        0u8,
        0u8,  // mov eax,1
        0xd3u8,
        0xe0u8,  // shl eax,cl
        0xa9u8,  // test eax,disabled_mask
    ] + le_bytes(disabled_mask, 4) + seq![0x0fu8, 0x84u8, 26u8, 0u8, 0u8, 0u8]  // jz
}

/// The part of the override block between the two branches, but for the move in front.
pub open spec fn override_call() -> Seq<u8> {
    seq![
        0x48u8,
        0x8bu8,
        0x08u8,  // mov rcx,[rax]
        0x4cu8,
        0x8bu8,
        0x41u8,
        0x28u8,  // mov r8,[rcx+28h]
        0x48u8,
        0x8bu8,
        0xc8u8,  // mov rcx,rax
        0x41u8,
        0xffu8,
        0xd0u8,  // call r8
    ]
}

/// The decision: the query for the observer state and the test of its mode.
pub open spec fn decision(get_observer_state: nat, disabled_mask: nat) -> Seq<u8> {
    save_registers() + mov_rax_imm64(get_observer_state) + call_rax() + mode_test(disabled_mask)
}

/// The path to the normal view setup.
pub open spec fn normal_path(normal_setup_address: nat) -> Seq<u8> {
    restore_registers() + absolute_jump(normal_setup_address)
}

/// The path that replays the override block.
pub open spec fn override_path(
    get_observer_state: nat,
    view_setup_argument_move: Seq<u8>,
    original_jump_target: nat,
) -> Seq<u8> {
    restore_registers() + mov_rax_imm64(get_observer_state) + call_rax()
        + view_setup_argument_move + override_call() + absolute_jump(original_jump_target)
}

/// The whole trampoline.
pub open spec fn trampoline_code(
    get_observer_state: nat,
    normal_setup_address: nat,
    original_jump_target: nat,
    view_setup_argument_move: Seq<u8>,
    disabled_mask: nat,
) -> Seq<u8> {
    decision(get_observer_state, disabled_mask) + normal_path(normal_setup_address)
        + override_path(get_observer_state, view_setup_argument_move, original_jump_target)
}

/// What takes the place of the override block: a jump to the trampoline and `nop`s behind it.
pub open spec fn patch_code(trampoline: nat) -> Seq<u8> {
    absolute_jump(trampoline) + Seq::new(12, |i: int| 0x90u8)
}

/// Law: a patch is as long as the block. It starts with an indirect jump through the eight bytes
/// behind it, these are the trampoline's address with the lowest byte first, and the rest does
/// nothing.
pub proof fn patch_is_a_jump_and_nops(trampoline: u64, i: int)
    ensures
        patch_code(trampoline as nat).len() == PATCH_LEN,
        patch_code(trampoline as nat).take(6) == seq![0xffu8, 0x25u8, 0u8, 0u8, 0u8, 0u8],
        0 <= i < 8 ==> patch_code(trampoline as nat)[6 + i] == (trampoline as int / pow(
            256,
            i as nat,
        )) % 256,
        14 <= i < PATCH_LEN ==> patch_code(trampoline as nat)[i] == 0x90,
{
    let code = patch_code(trampoline as nat);
    lemma_le_bytes_len(trampoline as nat, 8);
    assert(code.take(6) =~= seq![0xffu8, 0x25u8, 0u8, 0u8, 0u8, 0u8]);
    if 0 <= i < 8 {
        le_bytes_are_the_digits(trampoline as nat, 8, i as nat);
        assert(code[6 + i] == le_bytes(trampoline as nat, 8)[i]);
    }
}

fn emit(code: &mut Vec<u8>, bytes: &[u8])
    ensures
        final(code)@ == old(code)@ + bytes@,
{
    let ghost start = code@;
    let mut i: usize = 0;
    while i < bytes.len()
        invariant
            i <= bytes@.len(),
            code@ == start + bytes@.take(i as int),
        decreases bytes@.len() - i,
    {
        code.push(bytes[i]);
        i = i + 1;
        assert(bytes@.take(i as int) =~= bytes@.take(i - 1).push(bytes@[i - 1]));
    }
    assert(bytes@.take(i as int) =~= bytes@);
}

/// Assembles the trampoline.
pub fn build_conditional_trampoline(
    get_observer_state: usize,
    normal_setup_address: usize,
    original_jump_target: usize,
    view_setup_argument_move: [u8; 3],
    disabled_mask: u32,
) -> (r: Vec<u8>)
    ensures
        r@ == trampoline_code(
            get_observer_state as nat,
            normal_setup_address as nat,
            original_jump_target as nat,
            view_setup_argument_move@,
            disabled_mask as nat,
        ),
{
    let mut code: Vec<u8> = Vec::with_capacity(128);

    emit(
        &mut code,
        &[
            0x50,  // push rax
            0x51,  // push rcx
            0x52,  // push rdx
            0x41,
            0x50,  // push r8
            0x41,
            0x51,  // push r9
            0x41,
            0x52,  // push r10
            0x41,
            0x53,  // push r11
            0x53,  // push rbx
        ],
    );
    assert(code@ =~= save_registers());

    emit_mov_rax_imm64(&mut code, get_observer_state);
    emit(&mut code, &[0xff, 0xd0]);  // call rax
    let ghost before_test = code@;
    emit(&mut code, &[0x8b, 0x48, AUTODIRECTOR_MODE_OFFSET]);  // mov ecx,[rax+38h]
    emit(&mut code, &[0xb8, 1, 0, 0, 0]);  // mov eax,1
    emit(&mut code, &[0xd3, 0xe0]);  // shl eax,cl
    code.push(0xa9);  // test eax,disabled_mask
    push_le_u32(&mut code, disabled_mask);

    let ghost before_branch = code@;
    proof {
        lemma_le_bytes_len(get_observer_state as nat, 8);
        lemma_le_bytes_len(normal_setup_address as nat, 8);
        lemma_le_bytes_len(disabled_mask as nat, 4);
        assert(code@.len() == 39);
    }
    let jz_offset_position: usize = code.len() + 2;
    emit(&mut code, &[0x0f, 0x84, 0, 0, 0, 0]);  // jz to the override path

    emit_restore_saved_registers(&mut code);
    emit_absolute_jump(&mut code, normal_setup_address);

    let original_path_offset: usize = code.len();
    emit_restore_saved_registers(&mut code);
    emit_mov_rax_imm64(&mut code, get_observer_state);
    emit(&mut code, &[0xff, 0xd0]);  // call rax
    emit(&mut code, &view_setup_argument_move);  // mov rdx,<view setup register>
    emit(
        &mut code,
        &[
            0x48,
            0x8b,
            0x08,  // mov rcx,[rax]
            0x4c,
            0x8b,
            0x41,
            0x28,  // mov r8,[rcx+28h]
            0x48,
            0x8b,
            0xc8,  // mov rcx,rax
            0x41,
            0xff,
            0xd0,  // call r8
        ],
    );
    emit_absolute_jump(&mut code, original_jump_target);

    let after_jz: usize = jz_offset_position + 4;
    write_le_u32(&mut code, jz_offset_position, (original_path_offset - after_jz) as u32);
    proof {
        let branch = seq![0x0fu8, 0x84u8] + le_bytes(26, 4);
        reveal_with_fuel(le_bytes, 5);
        assert(branch =~= seq![0x0fu8, 0x84u8, 26u8, 0u8, 0u8, 0u8]);
        assert(before_branch + branch =~= before_test + mode_test(disabled_mask as nat));
        assert(code@ =~= trampoline_code(
            get_observer_state as nat,
            normal_setup_address as nat,
            original_jump_target as nat,
            view_setup_argument_move@,
            disabled_mask as nat,
        ));
    }
    code
}

/// Overwrites the four bytes at `position` with those of `value`.
fn write_le_u32(code: &mut Vec<u8>, position: usize, value: u32)
    requires
        position + 4 <= old(code)@.len(),
    ensures
        final(code)@ == old(code)@.take(position as int) + le_bytes(value as nat, 4) + old(
            code,
        )@.skip(position + 4),
{
    let ghost start = code@;
    let length: usize = code.len();
    assert(position + 4 <= length);
    code.set(position, (value % 0x100) as u8);
    code.set(position + 1, (value / 0x100 % 0x100) as u8);
    code.set(position + 2, (value / 0x1_0000 % 0x100) as u8);
    code.set(position + 3, (value / 0x100_0000) as u8);
    proof {
        reveal_with_fuel(le_bytes, 5);
        assert(code@ =~= start.take(position as int) + le_bytes(value as nat, 4) + start.skip(
            position + 4,
        ));
    }
}

/// Appends an absolute jump.
pub fn emit_absolute_jump(code: &mut Vec<u8>, target: usize)
    ensures
        final(code)@ == old(code)@ + absolute_jump(target as nat),
{
    let ghost start = code@;
    emit(code, &[0xff, 0x25, 0, 0, 0, 0]);
    push_le_u64(code, target as u64);
    assert(code@ =~= start + absolute_jump(target as nat));
}

/// The bytes that replace the override block once the trampoline lies at `trampoline`.
pub fn build_patch(trampoline: usize) -> (r: Vec<u8>)
    ensures
        r@ == patch_code(trampoline as nat),
        r@.len() == PATCH_LEN,
{
    let mut patch: Vec<u8> = Vec::with_capacity(PATCH_LEN);
    emit_absolute_jump(&mut patch, trampoline);
    proof {
        lemma_le_bytes_len(trampoline as nat, 8);
    }
    patch.resize(PATCH_LEN, 0x90);
    assert(patch@ =~= patch_code(trampoline as nat));
    patch
}

fn emit_restore_saved_registers(code: &mut Vec<u8>)
    ensures
        final(code)@ == old(code)@ + restore_registers(),
{
    let ghost start = code@;
    emit(
        code,
        &[
            0x5b,  // pop rbx
            0x41,
            0x5b,  // pop r11
            0x41,
            0x5a,  // pop r10
            0x41,
            0x59,  // pop r9
            0x41,
            0x58,  // pop r8
            0x5a,  // pop rdx
            0x59,  // pop rcx
            0x58,  // pop rax
        ],
    );
    assert(code@ =~= start + restore_registers());
}

fn emit_mov_rax_imm64(code: &mut Vec<u8>, value: usize)
    ensures
        final(code)@ == old(code)@ + mov_rax_imm64(value as nat),
{
    let ghost start = code@;
    emit(code, &[0x48, 0xb8]);
    push_le_u64(code, value as u64);
    assert(code@ =~= start + mov_rax_imm64(value as nat));
}

} // verus!

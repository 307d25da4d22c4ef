//! What the assembled code does when it runs.
use vstd::prelude::*;

use crate::autodirector_signature::{
    compatible_report_is_complete, moves_register_into_rdx, signature, AnalysisReport,
    AnalysisStatus, PATCH_LEN,
};
use crate::bytes::{le_bytes, le_round_trip, lemma_le_bytes_len, lemma_le_value_4};
use crate::config::{mask_bits_follow_the_settings, Camera, CameraConfig};
use crate::machine::{
    arrive, bit, decode, decode_opcode, distance_at, execute, is_volatile, keeps_convention,
    lemma_run_split, run, step, wrap_32, wrap_64, Callees, Instruction, Machine, Outcome,
    Program, R10, R11, R8, R9, RAX, RBX, RCX, RDX, RSP,
};
use crate::trampoline::{
    absolute_jump, call_rax, decision, mode_test, mov_rax_imm64, normal_path, override_call,
    override_path, patch_code, restore_registers, save_registers, trampoline_code,
    AUTODIRECTOR_MODE_OFFSET,
};
use vstd::arithmetic::power::pow;
use vstd::arithmetic::power2::{
    lemma2_to64, lemma_pow2_adds, lemma_pow2_pos, lemma_pow2_strictly_increases,
    lemma_pow2_unfold, pow2,
};

verus! {

/// The autodirector's camera mode, in the state that the query for the observer state returns
/// with.
pub open spec fn camera_mode(answered: Machine) -> nat {
    answered.load(answered.reg(RAX) + AUTODIRECTOR_MODE_OFFSET as int, 4)
}

/// The state with the registers saved that the trampoline saves.
#[verifier::opaque]
pub open spec fn saved(m: Machine) -> Machine {
    m.pushed(m.reg(RAX)).pushed(m.reg(RCX)).pushed(m.reg(RDX)).pushed(m.reg(R8)).pushed(
        m.reg(R9),
    ).pushed(m.reg(R10)).pushed(m.reg(R11)).pushed(m.reg(RBX))
}

proof fn lemma_wrap_add(v: int, k: int)
    ensures
        wrap_64(wrap_64(v) + k) == wrap_64(v + k),
{
    vstd::arithmetic::div_mod::lemma_add_mod_noop(v, k, 0x1_0000_0000_0000_0000);
    vstd::arithmetic::div_mod::lemma_add_mod_noop(
        v % 0x1_0000_0000_0000_0000,
        k,
        0x1_0000_0000_0000_0000,
    );
    vstd::arithmetic::div_mod::lemma_mod_twice(v, 0x1_0000_0000_0000_0000);
}

/// What [`saved`] leaves in the registers and on the stack.
proof fn lemma_saved(m: Machine)
    requires
        m.valid(),
    ensures
        saved(m).valid(),
        saved(m).registers == m.registers.update(RSP as int, wrap_64(m.reg(RSP) - 64)),
        saved(m).stack == m.stack.push(m.reg(RAX)).push(m.reg(RCX)).push(m.reg(RDX)).push(
            m.reg(R8),
        ).push(m.reg(R9)).push(m.reg(R10)).push(m.reg(R11)).push(m.reg(RBX)),
        saved(m).memory == m.memory,
        saved(m).zero == m.zero,
{
    reveal(saved);
    let sp = m.reg(RSP) as int;
    lemma_wrap_add(sp - 8, -8);
    lemma_wrap_add(sp - 16, -8);
    lemma_wrap_add(sp - 24, -8);
    lemma_wrap_add(sp - 32, -8);
    lemma_wrap_add(sp - 40, -8);
    lemma_wrap_add(sp - 48, -8);
    lemma_wrap_add(sp - 56, -8);
    assert(saved(m).registers =~= m.registers.update(RSP as int, wrap_64(sp - 64)));
}

proof fn lemma_push(program: Program, callees: Callees, at: int, m: Machine, number: u8)
    requires
        0 <= at < program.code.len() - 1,
        number < 8,
        program.code[at] == 0x50 + number,
    ensures
        step(program, callees, at, m) == Outcome::At(at + 1, m.pushed(m.reg(number))),
{
    reveal(decode_opcode);
    reveal(execute);
}

proof fn lemma_push_high(program: Program, callees: Callees, at: int, m: Machine, number: u8)
    requires
        0 <= at < program.code.len() - 2,
        8 <= number < 16,
        program.code[at] == 0x41,
        program.code[at + 1] == 0x48 + number,
    ensures
        step(program, callees, at, m) == Outcome::At(at + 2, m.pushed(m.reg(number))),
{
    reveal(decode_opcode);
    reveal(execute);
}

proof fn lemma_run_save(program: Program, callees: Callees, at: int, m: Machine)
    requires
        0 <= at,
        at + 12 < program.code.len(),
        program.code.subrange(at, at + 12) == save_registers(),
        m.valid(),
    ensures
        run(program, callees, at, m, 8) == Outcome::At(at + 12, saved(m)),
{
    let code = program.code;
    let part = code.subrange(at, at + 12);
    assert(part[0] == 0x50 && part[1] == 0x51 && part[2] == 0x52 && part[3] == 0x41);
    assert(part[4] == 0x50 && part[5] == 0x41 && part[6] == 0x51 && part[7] == 0x41);
    assert(part[8] == 0x52 && part[9] == 0x41 && part[10] == 0x53 && part[11] == 0x53);
    let m1 = m.pushed(m.reg(RAX));
    let m2 = m1.pushed(m.reg(RCX));
    let m3 = m2.pushed(m.reg(RDX));
    let m4 = m3.pushed(m.reg(R8));
    let m5 = m4.pushed(m.reg(R9));
    let m6 = m5.pushed(m.reg(R10));
    let m7 = m6.pushed(m.reg(R11));
    reveal(saved);
    lemma_push(program, callees, at, m, RAX);
    lemma_push(program, callees, at + 1, m1, RCX);
    lemma_push(program, callees, at + 2, m2, RDX);
    lemma_push_high(program, callees, at + 3, m3, R8);
    lemma_push_high(program, callees, at + 5, m4, R9);
    lemma_push_high(program, callees, at + 7, m5, R10);
    lemma_push_high(program, callees, at + 9, m6, R11);
    lemma_push(program, callees, at + 11, m7, RBX);
    reveal_with_fuel(run, 9);
}

/// The state after `pop` of a register.
#[verifier::opaque]
spec fn popped_into(m: Machine, number: u8) -> Machine {
    m.popped().with_reg(number, m.stack.last())
}

proof fn lemma_pop(program: Program, callees: Callees, at: int, m: Machine, number: u8)
    requires
        0 <= at < program.code.len() - 1,
        number < 8,
        program.code[at] == 0x58 + number,
        m.stack.len() > 0,
    ensures
        step(program, callees, at, m) == Outcome::At(at + 1, popped_into(m, number)),
        popped_into(m, number).stack == m.stack.drop_last(),
{
    reveal(popped_into);
    reveal(decode_opcode);
    reveal(execute);
}

proof fn lemma_pop_high(program: Program, callees: Callees, at: int, m: Machine, number: u8)
    requires
        0 <= at < program.code.len() - 2,
        8 <= number < 16,
        program.code[at] == 0x41,
        program.code[at + 1] == 0x50 + number,
        m.stack.len() > 0,
    ensures
        step(program, callees, at, m) == Outcome::At(at + 2, popped_into(m, number)),
        popped_into(m, number).stack == m.stack.drop_last(),
{
    reveal(popped_into);
    reveal(decode_opcode);
    reveal(execute);
}

/// The state with the saved registers taken back from the stack.
spec fn restored(a: Machine) -> Machine {
    let m1 = popped_into(a, RBX);
    let m2 = popped_into(m1, R11);
    let m3 = popped_into(m2, R10);
    let m4 = popped_into(m3, R9);
    let m5 = popped_into(m4, R8);
    let m6 = popped_into(m5, RDX);
    let m7 = popped_into(m6, RCX);
    popped_into(m7, RAX)
}

/// Whether the stack is as it was after the registers of `m` were saved, and so are the registers
/// that a call keeps.
spec fn keeps_saved(a: Machine, m: Machine) -> bool {
    &&& a.valid()
    &&& a.stack == saved(m).stack
    &&& forall|i: int|
        0 <= i < 16 && !is_volatile(i) ==> #[trigger] a.registers[i] == saved(m).registers[i]
}

proof fn lemma_popped_into(a: Machine, number: u8, below: Seq<nat>, value: nat, sp: int)
    requires
        a.registers.len() == 16,
        number < 16,
        a.stack == below.push(value),
        a.reg(RSP) == wrap_64(sp),
    ensures
        popped_into(a, number) == (Machine {
            registers: a.registers.update(RSP as int, wrap_64(sp + 8)).update(number as int, value),
            stack: below,
            ..a
        }),
        number != RSP ==> popped_into(a, number).reg(RSP) == wrap_64(sp + 8),
{
    reveal(popped_into);
    lemma_wrap_add(sp, 8);
    assert(below.push(value).drop_last() =~= below);
}

proof fn lemma_restored(a: Machine, m: Machine)
    requires
        m.valid(),
        keeps_saved(a, m),
    ensures
        restored(a) == (Machine { registers: m.registers, stack: m.stack, ..a }),
{
    lemma_saved(m);
    let sp = m.reg(RSP) as int;
    assert(a.registers[RSP as int] == saved(m).registers[RSP as int]);
    let s1 = m.stack.push(m.reg(RAX));
    let s2 = s1.push(m.reg(RCX));
    let s3 = s2.push(m.reg(RDX));
    let s4 = s3.push(m.reg(R8));
    let s5 = s4.push(m.reg(R9));
    let s6 = s5.push(m.reg(R10));
    let s7 = s6.push(m.reg(R11));
    let m1 = popped_into(a, RBX);
    let m2 = popped_into(m1, R11);
    let m3 = popped_into(m2, R10);
    let m4 = popped_into(m3, R9);
    let m5 = popped_into(m4, R8);
    let m6 = popped_into(m5, RDX);
    let m7 = popped_into(m6, RCX);
    lemma_popped_into(a, RBX, s7, m.reg(RBX), sp - 64);
    lemma_popped_into(m1, R11, s6, m.reg(R11), sp - 56);
    lemma_popped_into(m2, R10, s5, m.reg(R10), sp - 48);
    lemma_popped_into(m3, R9, s4, m.reg(R9), sp - 40);
    lemma_popped_into(m4, R8, s3, m.reg(R8), sp - 32);
    lemma_popped_into(m5, RDX, s2, m.reg(RDX), sp - 24);
    lemma_popped_into(m6, RCX, s1, m.reg(RCX), sp - 16);
    lemma_popped_into(m7, RAX, m.stack, m.reg(RAX), sp - 8);
    assert(m.registers[RSP as int] < 0x1_0000_0000_0000_0000);
    assert forall|i: int| 0 <= i < 16 implies restored(a).registers[i] == m.registers[i] by {
        if !is_volatile(i) {
            assert(a.registers[i] == saved(m).registers[i]);
        }
    }
    assert(restored(a).registers =~= m.registers);
}

proof fn lemma_run_restore(program: Program, callees: Callees, at: int, a: Machine, m: Machine)
    requires
        0 <= at,
        at + 12 < program.code.len(),
        program.code.subrange(at, at + 12) == restore_registers(),
        m.valid(),
        keeps_saved(a, m),
    ensures
        run(program, callees, at, a, 8) == Outcome::At(
            at + 12,
            Machine { registers: m.registers, stack: m.stack, ..a },
        ),
{
    let code = program.code;
    let part = code.subrange(at, at + 12);
    assert(part[0] == 0x5b && part[1] == 0x41 && part[2] == 0x5b && part[3] == 0x41);
    assert(part[4] == 0x5a && part[5] == 0x41 && part[6] == 0x59 && part[7] == 0x41);
    assert(part[8] == 0x58 && part[9] == 0x5a && part[10] == 0x59 && part[11] == 0x58);
    lemma_saved(m);
    let m1 = popped_into(a, RBX);
    let m2 = popped_into(m1, R11);
    let m3 = popped_into(m2, R10);
    let m4 = popped_into(m3, R9);
    let m5 = popped_into(m4, R8);
    let m6 = popped_into(m5, RDX);
    let m7 = popped_into(m6, RCX);
    lemma_pop(program, callees, at, a, RBX);
    lemma_pop_high(program, callees, at + 1, m1, R11);
    lemma_pop_high(program, callees, at + 3, m2, R10);
    lemma_pop_high(program, callees, at + 5, m3, R9);
    lemma_pop_high(program, callees, at + 7, m4, R8);
    lemma_pop(program, callees, at + 9, m5, RDX);
    lemma_pop(program, callees, at + 10, m6, RCX);
    lemma_pop(program, callees, at + 11, m7, RAX);
    lemma_restored(a, m);
    reveal_with_fuel(run, 9);
}

/// A power of two has one bit.
proof fn lemma_bit_of_pow2(exponent: nat, index: nat)
    ensures
        bit(pow2(exponent), index) <==> index == exponent,
{
    lemma_pow2_pos(index);
    if index < exponent {
        let rest = (exponent - index) as nat;
        lemma_pow2_adds(index, rest);
        lemma_pow2_unfold(rest);
        vstd::arithmetic::div_mod::lemma_div_multiples_vanish(
            pow2(rest) as int,
            pow2(index) as int,
        );
        assert(pow2(index) * pow2(rest) == pow2(exponent));
        assert(pow2(exponent) / pow2(index) == pow2(rest));
    } else if index == exponent {
        vstd::arithmetic::div_mod::lemma_div_by_self(pow2(index) as int);
    } else {
        lemma_pow2_strictly_increases(exponent, index);
        lemma_pow2_pos(exponent);
        vstd::arithmetic::div_mod::lemma_basic_div(pow2(exponent) as int, pow2(index) as int);
    }
}

proof fn lemma_mov_rax_imm64(program: Program, callees: Callees, at: int, m: Machine, value: nat)
    requires
        0 <= at,
        at + 10 < program.code.len(),
        program.code.subrange(at, at + 10) == mov_rax_imm64(value),
        value < 0x1_0000_0000_0000_0000,
    ensures
        step(program, callees, at, m) == Outcome::At(at + 10, m.with_reg(RAX, value)),
{
    let part = program.code.subrange(at, at + 10);
    lemma_le_bytes_len(value, 8);
    assert(part[0] == 0x48 && part[1] == 0xb8);
    lemma_subpart(program.code, at, 10, 2, 10);
    assert(part.subrange(2, 10) =~= le_bytes(value, 8));
    lemma_pow_256();
    le_round_trip(value, 8);
    reveal(decode_opcode);
    reveal(execute);
}

proof fn lemma_pow_256()
    ensures
        pow(256, 4) == 0x1_0000_0000,
        pow(256, 8) == 0x1_0000_0000_0000_0000,
{
    reveal_with_fuel(pow, 9);
}

proof fn lemma_call_rax(program: Program, callees: Callees, at: int, m: Machine)
    requires
        0 <= at,
        at + 2 < program.code.len(),
        program.code.subrange(at, at + 2) == call_rax(),
    ensures
        step(program, callees, at, m) == Outcome::At(at + 2, callees(m.reg(RAX), m)),
{
    let part = program.code.subrange(at, at + 2);
    assert(part[0] == 0xff && part[1] == 0xd0);
    reveal(decode_opcode);
    reveal(execute);
}

proof fn lemma_absolute_jump(program: Program, callees: Callees, at: int, m: Machine, target: nat)
    requires
        0 <= at,
        at + 14 <= program.code.len(),
        program.code.subrange(at, at + 14) == absolute_jump(target),
        target < 0x1_0000_0000_0000_0000,
    ensures
        step(program, callees, at, m) == Outcome::Left(target, m),
{
    let part = program.code.subrange(at, at + 14);
    lemma_le_bytes_len(target, 8);
    assert(part[0] == 0xff && part[1] == 0x25);
    lemma_subpart(program.code, at, 14, 2, 6);
    assert(part.subrange(2, 6) =~= seq![0u8, 0u8, 0u8, 0u8]);
    lemma_le_value_4(program.code.subrange(at + 2, at + 6));
    lemma_subpart(program.code, at, 14, 6, 14);
    assert(part.subrange(6, 14) =~= le_bytes(target, 8));
    lemma_pow_256();
    le_round_trip(target, 8);
    reveal(decode_opcode);
    reveal(execute);
}

/// A part of a part.
proof fn lemma_subpart(code: Seq<u8>, at: int, len: int, from: int, to: int)
    requires
        0 <= at,
        0 <= from <= to <= len,
        at + len <= code.len(),
    ensures
        code.subrange(at + from, at + to) == code.subrange(at, at + len).subrange(from, to),
{
    assert(code.subrange(at + from, at + to) =~= code.subrange(at, at + len).subrange(from, to));
}

/// The state after the test of the mode, where `a` is the state that the query returned with.
spec fn tested(a: Machine, mode: nat, disabled_mask: nat) -> Machine {
    let decided = a.with_reg(RCX, mode).with_reg(RAX, pow2(mode % 32));
    Machine { zero: !bit(disabled_mask, mode % 32), ..decided }
}

proof fn lemma_step_load_mode(program: Program, callees: Callees, at: int, m: Machine)
    requires
        0 <= at,
        at + 3 < program.code.len(),
        program.code[at] == 0x8b,
        program.code[at + 1] == 0x48,
        program.code[at + 2] == 0x38,
    ensures
        step(program, callees, at, m) == Outcome::At(at + 3, m.with_reg(RCX, camera_mode(m))),
{
    reveal(decode_opcode);
    reveal(execute);
}

proof fn lemma_step_set_one(program: Program, callees: Callees, at: int, m: Machine)
    requires
        0 <= at,
        at + 5 < program.code.len(),
        program.code[at] == 0xb8,
        program.code.subrange(at + 1, at + 5) == seq![1u8, 0u8, 0u8, 0u8],
    ensures
        step(program, callees, at, m) == Outcome::At(at + 5, m.with_reg(RAX, 1)),
{
    lemma_le_value_4(program.code.subrange(at + 1, at + 5));
    reveal(decode_opcode);
    reveal(execute);
}

proof fn lemma_step_shift(program: Program, callees: Callees, at: int, m: Machine)
    requires
        0 <= at,
        at + 2 < program.code.len(),
        program.code[at] == 0xd3,
        program.code[at + 1] == 0xe0,
        m.registers.len() == 16,
        m.reg(RAX) == 1,
    ensures
        ({
            let count = m.reg(RCX) % 32;
            let shifted = m.with_reg(RAX, pow2(count));
            step(program, callees, at, m) == Outcome::At(
                at + 2,
                if count == 0 {
                    shifted
                } else {
                    Machine { zero: false, ..shifted }
                },
            )
        }),
{
    let count = m.reg(RCX) % 32;
    lemma_pow2_strictly_increases(count, 32);
    lemma2_to64();
    lemma_pow2_pos(count);
    assert(wrap_32(1) == 1);
    assert(1 * pow2(count) == pow2(count));
    assert(wrap_32(pow2(count) as int) == pow2(count));
    assert(decode(program.code, at) == Some((Instruction::ShiftLeft32(RAX), at + 2))) by {
        reveal(decode_opcode);
    }
    reveal(execute);
}

proof fn lemma_step_test(
    program: Program,
    callees: Callees,
    at: int,
    m: Machine,
    count: nat,
    disabled_mask: nat,
)
    requires
        0 <= at,
        at + 5 < program.code.len(),
        program.code[at] == 0xa9,
        program.code.subrange(at + 1, at + 5) == le_bytes(disabled_mask, 4),
        disabled_mask < 0x1_0000_0000,
        count < 32,
        m.reg(RAX) == pow2(count),
    ensures
        step(program, callees, at, m) == Outcome::At(
            at + 5,
            Machine { zero: !bit(disabled_mask, count), ..m },
        ),
{
    lemma_pow_256();
    le_round_trip(disabled_mask, 4);
    lemma_pow2_strictly_increases(count, 32);
    lemma2_to64();
    let eax = wrap_32(m.reg(RAX) as int);
    assert(eax == pow2(count));
    let set = exists|i: nat| i < 32 && #[trigger] bit(eax, i) && bit(disabled_mask, i);
    if bit(disabled_mask, count) {
        lemma_bit_of_pow2(count, count);
        assert(bit(eax, count) && bit(disabled_mask, count));
    } else {
        assert forall|i: nat| i < 32 && #[trigger] bit(eax, i) implies !bit(disabled_mask, i) by {
            lemma_bit_of_pow2(count, i);
        }
    }
    assert(set == bit(disabled_mask, count));
    assert(decode(program.code, at) == Some((Instruction::TestEax(disabled_mask), at + 5))) by {
        reveal(decode_opcode);
    }
    reveal(execute);
}

proof fn lemma_step_branch(program: Program, callees: Callees, at: int, m: Machine)
    requires
        0 <= at,
        at + 32 < program.code.len(),
        program.code[at] == 0x0f,
        program.code[at + 1] == 0x84,
        program.code.subrange(at + 2, at + 6) == seq![26u8, 0u8, 0u8, 0u8],
    ensures
        step(program, callees, at, m) == Outcome::At(
            if m.zero {
                at + 32
            } else {
                at + 6
            },
            m,
        ),
{
    lemma_le_value_4(program.code.subrange(at + 2, at + 6));
    reveal(decode_opcode);
    reveal(execute);
}

proof fn lemma_run_test(
    program: Program,
    callees: Callees,
    at: int,
    a: Machine,
    disabled_mask: nat,
)
    requires
        0 <= at,
        at + 47 < program.code.len(),
        program.code.subrange(at, at + 21) == mode_test(disabled_mask),
        disabled_mask < 0x1_0000_0000,
        a.valid(),
    ensures
        run(program, callees, at, a, 5) == Outcome::At(
            if bit(disabled_mask, camera_mode(a) % 32) {
                at + 21
            } else {
                at + 47
            },
            tested(a, camera_mode(a), disabled_mask),
        ),
{
    let code = program.code;
    let part = code.subrange(at, at + 21);
    lemma_le_bytes_len(disabled_mask, 4);
    let mode = camera_mode(a);
    let count = mode % 32;
    assert(part[0] == 0x8b && part[1] == 0x48 && part[2] == 0x38 && part[3] == 0xb8);
    assert(part[8] == 0xd3 && part[9] == 0xe0 && part[10] == 0xa9);
    assert(part[15] == 0x0f && part[16] == 0x84);
    lemma_subpart(code, at, 21, 4, 8);
    assert(part.subrange(4, 8) =~= seq![1u8, 0u8, 0u8, 0u8]);
    lemma_subpart(code, at, 21, 11, 15);
    assert(part.subrange(11, 15) =~= le_bytes(disabled_mask, 4));
    lemma_subpart(code, at, 21, 17, 21);
    assert(part.subrange(17, 21) =~= seq![26u8, 0u8, 0u8, 0u8]);

    let m1 = a.with_reg(RCX, mode);
    let m2 = m1.with_reg(RAX, 1);
    let shifted = m2.with_reg(RAX, pow2(count));
    let m3 = if count == 0 {
        shifted
    } else {
        Machine { zero: false, ..shifted }
    };
    let m4 = Machine { zero: !bit(disabled_mask, count), ..m3 };
    assert(shifted.registers =~= m1.with_reg(RAX, pow2(count)).registers);
    assert(m4 == tested(a, mode, disabled_mask));
    lemma_step_load_mode(program, callees, at, a);
    lemma_step_set_one(program, callees, at + 3, m1);
    lemma_step_shift(program, callees, at + 8, m2);
    lemma_step_test(program, callees, at + 10, m3, count, disabled_mask);
    lemma_step_branch(program, callees, at + 15, m4);
    reveal_with_fuel(run, 6);
}

/// The register that a move into `rdx` reads.
pub open spec fn move_source(bytes: Seq<u8>) -> u8 {
    if bytes[0] == 0x49 {
        (bytes[2] - 0xd0 + 8) as u8
    } else {
        (bytes[2] - 0xd0) as u8
    }
}

/// What the override block does between its two branches: it hands the view setup, in register
/// `source`, to the sixth method of the observer state that the query answered with.
pub open spec fn override_effect(callees: Callees, source: u8, answered: Machine) -> Machine {
    let with_setup = answered.with_reg(RDX, answered.reg(source));
    let with_table = with_setup.with_reg(RCX, with_setup.load(with_setup.reg(RAX) as int, 8));
    let with_method = with_table.with_reg(
        R8,
        with_table.load(with_table.reg(RCX) + 0x28int, 8),
    );
    let with_object = with_method.with_reg(RCX, with_method.reg(RAX));
    callees(with_object.reg(R8), with_object)
}

proof fn lemma_step_move(
    program: Program,
    callees: Callees,
    at: int,
    m: Machine,
    bytes: Seq<u8>,
)
    requires
        0 <= at,
        at + 3 < program.code.len(),
        program.code.subrange(at, at + 3) == bytes,
        moves_register_into_rdx(bytes),
    ensures
        step(program, callees, at, m) == Outcome::At(
            at + 3,
            m.with_reg(RDX, m.reg(move_source(bytes))),
        ),
{
    assert(bytes[0] == program.code[at]);
    assert(bytes[1] == program.code[at + 1]);
    assert(bytes[2] == program.code[at + 2]);
    assert(decode(program.code, at) == Some(
        (Instruction::MovRegister(RDX, move_source(bytes)), at + 3),
    )) by {
        reveal(decode_opcode);
    }
    reveal(execute);
}

proof fn lemma_run_override(
    program: Program,
    callees: Callees,
    at: int,
    m: Machine,
    bytes: Seq<u8>,
)
    requires
        0 <= at,
        at + 16 < program.code.len(),
        program.code.subrange(at, at + 3) == bytes,
        program.code.subrange(at + 3, at + 16) == override_call(),
        moves_register_into_rdx(bytes),
    ensures
        run(program, callees, at, m, 5) == Outcome::At(
            at + 16,
            override_effect(callees, move_source(bytes), m),
        ),
{
    let part = program.code.subrange(at + 3, at + 16);
    assert(part[0] == 0x48 && part[1] == 0x8b && part[2] == 0x08 && part[3] == 0x4c);
    assert(part[4] == 0x8b && part[5] == 0x41 && part[6] == 0x28 && part[7] == 0x48);
    assert(part[8] == 0x8b && part[9] == 0xc8 && part[10] == 0x41 && part[11] == 0xff);
    assert(part[12] == 0xd0);
    let m1 = m.with_reg(RDX, m.reg(move_source(bytes)));
    let m2 = m1.with_reg(RCX, m1.load(m1.reg(RAX) as int, 8));
    let m3 = m2.with_reg(R8, m2.load(m2.reg(RCX) + 0x28int, 8));
    let m4 = m3.with_reg(RCX, m3.reg(RAX));
    lemma_step_move(program, callees, at, m, bytes);
    assert(step(program, callees, at + 3, m1) == Outcome::At(at + 6, m2)) by {
        assert(decode(program.code, at + 3) == Some(
            (Instruction::Load64(RCX, RAX, 0), at + 6),
        )) by {
            reveal(decode_opcode);
        }
        reveal(execute);
    }
    assert(step(program, callees, at + 6, m2) == Outcome::At(at + 10, m3)) by {
        assert(decode(program.code, at + 6) == Some(
            (Instruction::Load64(R8, RCX, 0x28), at + 10),
        )) by {
            reveal(decode_opcode);
        }
        reveal(execute);
    }
    assert(step(program, callees, at + 10, m3) == Outcome::At(at + 13, m4)) by {
        assert(decode(program.code, at + 10) == Some(
            (Instruction::MovRegister(RCX, RAX), at + 13),
        )) by {
            reveal(decode_opcode);
        }
        reveal(execute);
    }
    assert(step(program, callees, at + 13, m4) == Outcome::At(at + 16, callees(m4.reg(R8), m4)))
        by {
        assert(decode(program.code, at + 13) == Some((Instruction::CallRegister(R8), at + 16))) by {
            reveal(decode_opcode);
        }
        reveal(execute);
    }
    reveal_with_fuel(run, 6);
}

/// The parts of the trampoline and where they lie.
proof fn lemma_layout(
    get_observer_state: nat,
    normal_setup_address: nat,
    original_jump_target: nat,
    bytes: Seq<u8>,
    disabled_mask: nat,
)
    requires
        bytes.len() == 3,
    ensures
        ({
            let code = trampoline_code(
                get_observer_state,
                normal_setup_address,
                original_jump_target,
                bytes,
                disabled_mask,
            );
            &&& code.len() == 125
            &&& code.subrange(0, 12) == save_registers()
            &&& code.subrange(12, 22) == mov_rax_imm64(get_observer_state)
            &&& code.subrange(22, 24) == call_rax()
            &&& code.subrange(24, 45) == mode_test(disabled_mask)
            &&& code.subrange(45, 57) == restore_registers()
            &&& code.subrange(57, 71) == absolute_jump(normal_setup_address)
            &&& code.subrange(71, 83) == restore_registers()
            &&& code.subrange(83, 93) == mov_rax_imm64(get_observer_state)
            &&& code.subrange(93, 95) == call_rax()
            &&& code.subrange(95, 98) == bytes
            &&& code.subrange(98, 111) == override_call()
            &&& code.subrange(111, 125) == absolute_jump(original_jump_target)
        }),
{
    let code = trampoline_code(
        get_observer_state,
        normal_setup_address,
        original_jump_target,
        bytes,
        disabled_mask,
    );
    let first = decision(get_observer_state, disabled_mask);
    let second = normal_path(normal_setup_address);
    let third = override_path(get_observer_state, bytes, original_jump_target);
    lemma_decision_layout(get_observer_state, disabled_mask);
    lemma_normal_path_layout(normal_setup_address);
    lemma_override_path_layout(get_observer_state, bytes, original_jump_target);
    assert(code.subrange(0, 45) =~= first);
    assert(code.subrange(45, 71) =~= second);
    assert(code.subrange(71, 125) =~= third);
    lemma_subpart(code, 0, 45, 0, 12);
    lemma_subpart(code, 0, 45, 12, 22);
    lemma_subpart(code, 0, 45, 22, 24);
    lemma_subpart(code, 0, 45, 24, 45);
    lemma_subpart(code, 45, 26, 0, 12);
    lemma_subpart(code, 45, 26, 12, 26);
    lemma_subpart(code, 71, 54, 0, 12);
    lemma_subpart(code, 71, 54, 12, 22);
    lemma_subpart(code, 71, 54, 22, 24);
    lemma_subpart(code, 71, 54, 24, 27);
    lemma_subpart(code, 71, 54, 27, 40);
    lemma_subpart(code, 71, 54, 40, 54);
}

proof fn lemma_decision_layout(get_observer_state: nat, disabled_mask: nat)
    ensures
        ({
            let code = decision(get_observer_state, disabled_mask);
            &&& code.len() == 45
            &&& code.subrange(0, 12) == save_registers()
            &&& code.subrange(12, 22) == mov_rax_imm64(get_observer_state)
            &&& code.subrange(22, 24) == call_rax()
            &&& code.subrange(24, 45) == mode_test(disabled_mask)
        }),
{
    lemma_le_bytes_len(get_observer_state, 8);
    lemma_le_bytes_len(disabled_mask, 4);
    let code = decision(get_observer_state, disabled_mask);
    assert(code.subrange(0, 12) =~= save_registers());
    assert(code.subrange(12, 22) =~= mov_rax_imm64(get_observer_state));
    assert(code.subrange(22, 24) =~= call_rax());
    assert(code.subrange(24, 45) =~= mode_test(disabled_mask));
}

proof fn lemma_normal_path_layout(normal_setup_address: nat)
    ensures
        ({
            let code = normal_path(normal_setup_address);
            &&& code.len() == 26
            &&& code.subrange(0, 12) == restore_registers()
            &&& code.subrange(12, 26) == absolute_jump(normal_setup_address)
        }),
{
    lemma_le_bytes_len(normal_setup_address, 8);
    let code = normal_path(normal_setup_address);
    assert(code.subrange(0, 12) =~= restore_registers());
    assert(code.subrange(12, 26) =~= absolute_jump(normal_setup_address));
}

proof fn lemma_override_path_layout(
    get_observer_state: nat,
    bytes: Seq<u8>,
    original_jump_target: nat,
)
    requires
        bytes.len() == 3,
    ensures
        ({
            let code = override_path(get_observer_state, bytes, original_jump_target);
            &&& code.len() == 54
            &&& code.subrange(0, 12) == restore_registers()
            &&& code.subrange(12, 22) == mov_rax_imm64(get_observer_state)
            &&& code.subrange(22, 24) == call_rax()
            &&& code.subrange(24, 27) == bytes
            &&& code.subrange(27, 40) == override_call()
            &&& code.subrange(40, 54) == absolute_jump(original_jump_target)
        }),
{
    lemma_le_bytes_len(get_observer_state, 8);
    lemma_le_bytes_len(original_jump_target, 8);
    let code = override_path(get_observer_state, bytes, original_jump_target);
    assert(code.subrange(0, 12) =~= restore_registers());
    assert(code.subrange(12, 22) =~= mov_rax_imm64(get_observer_state));
    assert(code.subrange(22, 24) =~= call_rax());
    assert(code.subrange(24, 27) =~= bytes);
    assert(code.subrange(27, 40) =~= override_call());
    assert(code.subrange(40, 54) =~= absolute_jump(original_jump_target));
}

/// Law: a trampoline holds what it was made of at fixed places, every number whole and with its
/// lowest byte first, and any move of three bytes as it is.
pub proof fn trampoline_holds_its_parameters(
    get_observer_state: nat,
    normal_setup_address: nat,
    original_jump_target: nat,
    bytes: Seq<u8>,
    disabled_mask: nat,
)
    requires
        bytes.len() == 3,
    ensures
        ({
            let code = trampoline_code(
                get_observer_state,
                normal_setup_address,
                original_jump_target,
                bytes,
                disabled_mask,
            );
            &&& code.len() == 125
            &&& code.subrange(14, 22) == le_bytes(get_observer_state, 8)
            &&& code.subrange(35, 39) == le_bytes(disabled_mask, 4)
            &&& code.subrange(63, 71) == le_bytes(normal_setup_address, 8)
            &&& code.subrange(85, 93) == le_bytes(get_observer_state, 8)
            &&& code.subrange(95, 98) == bytes
            &&& code.subrange(117, 125) == le_bytes(original_jump_target, 8)
        }),
{
    let code = trampoline_code(
        get_observer_state,
        normal_setup_address,
        original_jump_target,
        bytes,
        disabled_mask,
    );
    lemma_layout(
        get_observer_state,
        normal_setup_address,
        original_jump_target,
        bytes,
        disabled_mask,
    );
    lemma_le_bytes_len(get_observer_state, 8);
    lemma_le_bytes_len(normal_setup_address, 8);
    lemma_le_bytes_len(original_jump_target, 8);
    lemma_le_bytes_len(disabled_mask, 4);
    lemma_subpart(code, 12, 10, 2, 10);
    lemma_subpart(code, 24, 21, 11, 15);
    lemma_subpart(code, 57, 14, 6, 14);
    lemma_subpart(code, 83, 10, 2, 10);
    lemma_subpart(code, 111, 14, 6, 14);
    assert(mov_rax_imm64(get_observer_state).subrange(2, 10) =~= le_bytes(get_observer_state, 8));
    assert(mode_test(disabled_mask).subrange(11, 15) =~= le_bytes(disabled_mask, 4));
    assert(absolute_jump(normal_setup_address).subrange(6, 14) =~= le_bytes(
        normal_setup_address,
        8,
    ));
    assert(absolute_jump(original_jump_target).subrange(6, 14) =~= le_bytes(
        original_jump_target,
        8,
    ));
}

/// Law: trampolines differ only where they hold what they were made of.
pub proof fn trampolines_differ_in_their_parameters_only(
    first: (nat, nat, nat, Seq<u8>, nat),
    second: (nat, nat, nat, Seq<u8>, nat),
    i: int,
)
    requires
        first.3.len() == 3,
        second.3.len() == 3,
        0 <= i < 14 || 22 <= i < 35 || 39 <= i < 63 || 71 <= i < 85 || 93 <= i < 95 || 98 <= i
            < 117,
    ensures
        trampoline_code(first.0, first.1, first.2, first.3, first.4)[i] == trampoline_code(
            second.0,
            second.1,
            second.2,
            second.3,
            second.4,
        )[i],
{
    lemma_fixed_byte(first, i);
    lemma_fixed_byte(second, i);
}

/// The bytes of a trampoline that do not depend on what it was made of.
spec fn fixed_byte(i: int) -> u8 {
    if i < 12 {
        save_registers()[i]
    } else if i < 14 {
        seq![0x48u8, 0xb8u8][i - 12]
    } else if i < 24 {
        call_rax()[i - 22]
    } else if i < 45 {
        mode_test(0)[i - 24]
    } else if i < 57 {
        restore_registers()[i - 45]
    } else if i < 71 {
        absolute_jump(0)[i - 57]
    } else if i < 83 {
        restore_registers()[i - 71]
    } else if i < 85 {
        seq![0x48u8, 0xb8u8][i - 83]
    } else if i < 95 {
        call_rax()[i - 93]
    } else if i < 111 {
        override_call()[i - 98]
    } else {
        absolute_jump(0)[i - 111]
    }
}

proof fn lemma_fixed_byte(made_of: (nat, nat, nat, Seq<u8>, nat), i: int)
    requires
        made_of.3.len() == 3,
        0 <= i < 14 || 22 <= i < 35 || 39 <= i < 63 || 71 <= i < 85 || 93 <= i < 95 || 98 <= i
            < 117,
    ensures
        trampoline_code(made_of.0, made_of.1, made_of.2, made_of.3, made_of.4)[i] == fixed_byte(i),
{
    let code = trampoline_code(made_of.0, made_of.1, made_of.2, made_of.3, made_of.4);
    lemma_layout(made_of.0, made_of.1, made_of.2, made_of.3, made_of.4);
    lemma_le_bytes_len(made_of.0, 8);
    lemma_le_bytes_len(made_of.1, 8);
    lemma_le_bytes_len(made_of.2, 8);
    lemma_le_bytes_len(made_of.4, 4);
    lemma_le_bytes_len(0, 8);
    lemma_le_bytes_len(0, 4);
    if i < 12 {
        assert(code[i] == code.subrange(0, 12)[i]);
    } else if i < 22 {
        assert(code[i] == code.subrange(12, 22)[i - 12]);
    } else if i < 24 {
        assert(code[i] == code.subrange(22, 24)[i - 22]);
    } else if i < 45 {
        assert(code[i] == code.subrange(24, 45)[i - 24]);
    } else if i < 57 {
        assert(code[i] == code.subrange(45, 57)[i - 45]);
    } else if i < 71 {
        assert(code[i] == code.subrange(57, 71)[i - 57]);
    } else if i < 83 {
        assert(code[i] == code.subrange(71, 83)[i - 71]);
    } else if i < 93 {
        assert(code[i] == code.subrange(83, 93)[i - 83]);
    } else if i < 95 {
        assert(code[i] == code.subrange(93, 95)[i - 93]);
    } else if i < 111 {
        assert(code[i] == code.subrange(98, 111)[i - 98]);
    } else {
        assert(code[i] == code.subrange(111, 125)[i - 111]);
    }
}

/// The state in which the trampoline asks for the observer state.
pub open spec fn query_state(get_observer_state: nat, m: Machine) -> Machine {
    saved(m).with_reg(RAX, get_observer_state)
}

/// The state that the trampoline's query returns with.
pub open spec fn query_answer(callees: Callees, get_observer_state: nat, m: Machine) -> Machine {
    callees(get_observer_state, query_state(get_observer_state, m))
}

/// Whether the trampoline's query keeps the calling convention. It is the one call that runs while
/// the trampoline has registers saved on the stack; nothing is asked of any other.
pub open spec fn query_keeps_convention(
    callees: Callees,
    get_observer_state: nat,
    m: Machine,
) -> bool {
    keeps_convention(
        query_state(get_observer_state, m),
        query_answer(callees, get_observer_state, m),
    )
}

proof fn lemma_answer_keeps_saved(callees: Callees, get_observer_state: nat, m: Machine)
    requires
        m.valid(),
        query_keeps_convention(callees, get_observer_state, m),
    ensures
        query_answer(callees, get_observer_state, m).valid(),
        keeps_saved(query_answer(callees, get_observer_state, m), m),
{
    lemma_saved(m);
    let query = query_state(get_observer_state, m);
    let answered = callees(get_observer_state, query);
    assert forall|i: int| 0 <= i < 16 && !is_volatile(i) implies #[trigger] answered.registers[i]
        == saved(m).registers[i] by {
        assert(answered.registers[i] == query.registers[i]);
    }
}

proof fn lemma_tested_keeps_saved(a: Machine, m: Machine, disabled_mask: nat)
    requires
        keeps_saved(a, m),
    ensures
        keeps_saved(tested(a, camera_mode(a), disabled_mask), m),
{
    let mode = camera_mode(a);
    let address = a.reg(RAX) + AUTODIRECTOR_MODE_OFFSET as int;
    lemma_le_value_4(Seq::new(4, |i: int| (a.memory)(wrap_64(address + i))));
    lemma_pow2_strictly_increases(mode % 32, 32);
    lemma2_to64();
    let t = tested(a, mode, disabled_mask);
    assert forall|i: int| 0 <= i < 16 implies 0 <= #[trigger] t.registers[i]
        < 0x1_0000_0000_0000_0000 by {
        assert(0 <= a.registers[i] < 0x1_0000_0000_0000_0000);
    }
    assert forall|i: int| 0 <= i < 16 && !is_volatile(i) implies #[trigger] t.registers[i] == saved(
        m,
    ).registers[i] by {
        assert(a.registers[i] == saved(m).registers[i]);
    }
}

/// The run of the trampoline up to the decision.
proof fn lemma_run_to_decision(
    program: Program,
    callees: Callees,
    m: Machine,
    get_observer_state: nat,
    disabled_mask: nat,
)
    requires
        program.code.len() == 125,
        program.code.subrange(0, 12) == save_registers(),
        program.code.subrange(12, 22) == mov_rax_imm64(get_observer_state),
        program.code.subrange(22, 24) == call_rax(),
        program.code.subrange(24, 45) == mode_test(disabled_mask),
        m.valid(),
        query_keeps_convention(callees, get_observer_state, m),
        get_observer_state < 0x1_0000_0000_0000_0000,
        disabled_mask < 0x1_0000_0000,
    ensures
        ({
            let answered = query_answer(callees, get_observer_state, m);
            run(program, callees, 0, m, 15) == Outcome::At(
                if bit(disabled_mask, camera_mode(answered) % 32) {
                    45
                } else {
                    71
                },
                tested(answered, camera_mode(answered), disabled_mask),
            )
        }),
{
    let query = query_state(get_observer_state, m);
    let answered = query_answer(callees, get_observer_state, m);
    lemma_saved(m);
    lemma_answer_keeps_saved(callees, get_observer_state, m);
    lemma_run_save(program, callees, 0, m);
    lemma_mov_rax_imm64(program, callees, 12, saved(m), get_observer_state);
    lemma_call_rax(program, callees, 22, query);
    lemma_run_test(program, callees, 24, answered, disabled_mask);
    lemma_run_split(program, callees, 0, m, 8, 7);
    lemma_run_split(program, callees, 12, saved(m), 2, 5);
    assert(run(program, callees, 12, saved(m), 2) == Outcome::At(24, answered)) by {
        reveal_with_fuel(run, 3);
    }
}

/// Law: the trampoline asks for the observer state once, and where the bit of the camera mode is
/// set in the mask, control goes to the normal view setup with every general register and the
/// stack as they were. The shift takes the mode modulo 32.
pub proof fn disabled_mode_runs_the_normal_setup(
    address: nat,
    callees: Callees,
    m: Machine,
    get_observer_state: usize,
    normal_setup_address: usize,
    original_jump_target: usize,
    view_setup_argument_move: Seq<u8>,
    disabled_mask: u32,
)
    requires
        m.valid(),
        query_keeps_convention(callees, get_observer_state as nat, m),
        view_setup_argument_move.len() == 3,
        bit(
            disabled_mask as nat,
            camera_mode(query_answer(callees, get_observer_state as nat, m)) % 32,
        ),
    ensures
        ({
            let code = trampoline_code(
                get_observer_state as nat,
                normal_setup_address as nat,
                original_jump_target as nat,
                view_setup_argument_move,
                disabled_mask as nat,
            );
            run(Program { code, address }, callees, 0, m, 31) == Outcome::Left(
                normal_setup_address as nat,
                Machine {
                    memory: query_answer(callees, get_observer_state as nat, m).memory,
                    zero: false,
                    ..m
                },
            )
        }),
{
    let code = trampoline_code(
        get_observer_state as nat,
        normal_setup_address as nat,
        original_jump_target as nat,
        view_setup_argument_move,
        disabled_mask as nat,
    );
    let program = Program { code, address };
    lemma_layout(
        get_observer_state as nat,
        normal_setup_address as nat,
        original_jump_target as nat,
        view_setup_argument_move,
        disabled_mask as nat,
    );
    lemma_run_to_decision(
        program,
        callees,
        m,
        get_observer_state as nat,
        disabled_mask as nat,
    );
    let answered = query_answer(callees, get_observer_state as nat, m);
    let decided = tested(answered, camera_mode(answered), disabled_mask as nat);
    lemma_answer_keeps_saved(callees, get_observer_state as nat, m);
    lemma_tested_keeps_saved(answered, m, disabled_mask as nat);
    lemma_run_restore(program, callees, 45, decided, m);
    let end = Machine { registers: m.registers, stack: m.stack, ..decided };
    lemma_absolute_jump(program, callees, 57, end, normal_setup_address as nat);
    lemma_run_split(program, callees, 0, m, 15, 16);
    lemma_run_split(program, callees, 45, decided, 8, 8);
}

/// Law: where the bit of the camera mode is clear in the mask, the trampoline asks for the
/// observer state a second time, from the registers and the stack as they were, does what the
/// override block does with the answer, and goes where the block goes.
pub proof fn enabled_mode_replays_the_override(
    address: nat,
    callees: Callees,
    m: Machine,
    get_observer_state: usize,
    normal_setup_address: usize,
    original_jump_target: usize,
    view_setup_argument_move: Seq<u8>,
    disabled_mask: u32,
)
    requires
        m.valid(),
        query_keeps_convention(callees, get_observer_state as nat, m),
        moves_register_into_rdx(view_setup_argument_move),
        !bit(
            disabled_mask as nat,
            camera_mode(query_answer(callees, get_observer_state as nat, m)) % 32,
        ),
    ensures
        ({
            let code = trampoline_code(
                get_observer_state as nat,
                normal_setup_address as nat,
                original_jump_target as nat,
                view_setup_argument_move,
                disabled_mask as nat,
            );
            let again = Machine {
                memory: query_answer(callees, get_observer_state as nat, m).memory,
                zero: true,
                ..m
            };
            run(Program { code, address }, callees, 0, m, 31) == Outcome::Left(
                original_jump_target as nat,
                override_effect(
                    callees,
                    move_source(view_setup_argument_move),
                    callees(
                        get_observer_state as nat,
                        again.with_reg(RAX, get_observer_state as nat),
                    ),
                ),
            )
        }),
{
    let code = trampoline_code(
        get_observer_state as nat,
        normal_setup_address as nat,
        original_jump_target as nat,
        view_setup_argument_move,
        disabled_mask as nat,
    );
    let program = Program { code, address };
    lemma_layout(
        get_observer_state as nat,
        normal_setup_address as nat,
        original_jump_target as nat,
        view_setup_argument_move,
        disabled_mask as nat,
    );
    lemma_run_to_decision(
        program,
        callees,
        m,
        get_observer_state as nat,
        disabled_mask as nat,
    );
    let answered = query_answer(callees, get_observer_state as nat, m);
    let decided = tested(answered, camera_mode(answered), disabled_mask as nat);
    lemma_answer_keeps_saved(callees, get_observer_state as nat, m);
    lemma_tested_keeps_saved(answered, m, disabled_mask as nat);
    lemma_run_restore(program, callees, 71, decided, m);
    let again = Machine { registers: m.registers, stack: m.stack, ..decided };
    assert(again == (Machine { memory: answered.memory, zero: true, ..m }));
    let asking = again.with_reg(RAX, get_observer_state as nat);
    lemma_mov_rax_imm64(program, callees, 83, again, get_observer_state as nat);
    lemma_call_rax(program, callees, 93, asking);
    let second = callees(get_observer_state as nat, asking);
    lemma_run_override(program, callees, 95, second, view_setup_argument_move);
    let end = override_effect(callees, move_source(view_setup_argument_move), second);
    lemma_absolute_jump(program, callees, 111, end, original_jump_target as nat);
    lemma_run_split(program, callees, 0, m, 15, 16);
    lemma_run_split(program, callees, 71, decided, 8, 8);
    lemma_run_split(program, callees, 83, again, 2, 6);
    assert(asking.reg(RAX) == get_observer_state as nat);
    assert(run(program, callees, 83, again, 2) == Outcome::At(95, second)) by {
        reveal_with_fuel(run, 3);
    }
    lemma_run_split(program, callees, 95, second, 5, 1);
    assert(run(program, callees, 111, end, 1) == Outcome::Left(original_jump_target as nat, end));
}

/// Law: the setting of a camera type decides which path runs while the autodirector shows that
/// type: `true` keeps the override, `false` gives the normal view setup. The mask is that of a
/// configuration.
pub proof fn camera_setting_decides_the_path(
    address: nat,
    callees: Callees,
    m: Machine,
    get_observer_state: usize,
    normal_setup_address: usize,
    original_jump_target: usize,
    view_setup_argument_move: Seq<u8>,
    config: CameraConfig,
    camera: Camera,
)
    requires
        m.valid(),
        query_keeps_convention(callees, get_observer_state as nat, m),
        moves_register_into_rdx(view_setup_argument_move),
        config.consistent(),
        camera_mode(query_answer(callees, get_observer_state as nat, m)) == camera.mode(),
    ensures
        ({
            let answered = query_answer(callees, get_observer_state as nat, m);
            let code = trampoline_code(
                get_observer_state as nat,
                normal_setup_address as nat,
                original_jump_target as nat,
                view_setup_argument_move,
                config.disabled_mask as nat,
            );
            let again = Machine { memory: answered.memory, zero: true, ..m };
            run(Program { code, address }, callees, 0, m, 31) == if config.keeps(camera) {
                Outcome::Left(
                    original_jump_target as nat,
                    override_effect(
                        callees,
                        move_source(view_setup_argument_move),
                        callees(
                            get_observer_state as nat,
                            again.with_reg(RAX, get_observer_state as nat),
                        ),
                    ),
                )
            } else {
                Outcome::Left(
                    normal_setup_address as nat,
                    Machine { memory: answered.memory, zero: false, ..m },
                )
            }
        }),
{
    mask_bits_follow_the_settings(config, camera, 0);
    if config.keeps(camera) {
        enabled_mode_replays_the_override(
            address,
            callees,
            m,
            get_observer_state,
            normal_setup_address,
            original_jump_target,
            view_setup_argument_move,
            config.disabled_mask,
        );
    } else {
        disabled_mode_runs_the_normal_setup(
            address,
            callees,
            m,
            get_observer_state,
            normal_setup_address,
            original_jump_target,
            view_setup_argument_move,
            config.disabled_mask,
        );
    }
}

/// Law: a mode below 32 that no camera type of the configuration has keeps the override.
pub proof fn unknown_modes_keep_the_override(
    address: nat,
    callees: Callees,
    m: Machine,
    get_observer_state: usize,
    normal_setup_address: usize,
    original_jump_target: usize,
    view_setup_argument_move: Seq<u8>,
    config: CameraConfig,
)
    requires
        m.valid(),
        query_keeps_convention(callees, get_observer_state as nat, m),
        moves_register_into_rdx(view_setup_argument_move),
        config.consistent(),
        ({
            let mode = camera_mode(query_answer(callees, get_observer_state as nat, m));
            mode == 0 || 4 < mode < 32
        }),
    ensures
        ({
            let code = trampoline_code(
                get_observer_state as nat,
                normal_setup_address as nat,
                original_jump_target as nat,
                view_setup_argument_move,
                config.disabled_mask as nat,
            );
            run(Program { code, address }, callees, 0, m, 31) matches Outcome::Left(target, _)
                && target == original_jump_target
        }),
{
    mask_bits_follow_the_settings(
        config,
        Camera::Fixed,
        camera_mode(query_answer(callees, get_observer_state as nat, m)),
    );
    enabled_mode_replays_the_override(
        address,
        callees,
        m,
        get_observer_state,
        normal_setup_address,
        original_jump_target,
        view_setup_argument_move,
        config.disabled_mask,
    );
}

/// Law: the patch leads to the trampoline and changes nothing on the way.
pub proof fn patch_enters_the_trampoline(
    address: nat,
    callees: Callees,
    m: Machine,
    trampoline: usize,
)
    ensures
        patch_code(trampoline as nat).len() == PATCH_LEN,
        run(Program { code: patch_code(trampoline as nat), address }, callees, 0, m, 1)
            == Outcome::Left(trampoline as nat, m),
{
    let code = patch_code(trampoline as nat);
    lemma_le_bytes_len(trampoline as nat, 8);
    assert(code.subrange(0, 14) =~= absolute_jump(trampoline as nat));
    lemma_absolute_jump(Program { code, address }, callees, 0, m, trampoline as nat);
    reveal_with_fuel(run, 2);
}

proof fn lemma_step_call_relative(program: Program, callees: Callees, m: Machine, target: nat)
    requires
        program.code.len() > 5,
        program.code[0] == 0xe8,
        target == wrap_64(program.address + 5 + distance_at(program.code, 1)),
    ensures
        step(program, callees, 0, m) == Outcome::At(5, callees(target, m)),
{
    assert(decode(program.code, 0) == Some(
        (Instruction::CallRelative(distance_at(program.code, 1)), 5int),
    )) by {
        reveal(decode_opcode);
    }
    reveal(execute);
}

proof fn lemma_step_jump(program: Program, callees: Callees, m: Machine)
    requires
        program.code.len() == 26,
        program.code[21] == 0xe9,
    ensures
        step(program, callees, 21, m) == arrive(
            program,
            26 + distance_at(program.code, 22),
            m,
        ),
{
    assert(decode(program.code, 21) == Some(
        (Instruction::Jump(distance_at(program.code, 22)), 26int),
    )) by {
        reveal(decode_opcode);
    }
    reveal(execute);
}

/// Law: the block that a compatible report describes asks for the observer state at the reported
/// address, does with the answer what the trampoline replays, and goes to the reported target,
/// wherever that lies outside the block itself.
pub proof fn reported_block_is_the_override(
    text: Seq<u8>,
    text_address: nat,
    report: AnalysisReport,
    callees: Callees,
    m: Machine,
)
    requires
        report.describes(text),
        report.status == AnalysisStatus::Compatible,
        text_address + text.len() <= 0x1_0000_0000_0000_0000,
        ({
            let patch = report.patch_offset->0;
            let target = report.original_jump_target_offset->0;
            target < patch || patch + PATCH_LEN <= target
        }),
    ensures
        ({
            let patch = report.patch_offset->0;
            let program = Program {
                code: text.subrange(patch as int, patch + PATCH_LEN),
                address: text_address + patch as nat,
            };
            run(program, callees, 0, m, 7) == Outcome::Left(
                text_address + report.original_jump_target_offset->0 as nat,
                override_effect(
                    callees,
                    move_source(report.view_setup_argument_move->0@),
                    callees(text_address + report.get_observer_state_offset->0 as nat, m),
                ),
            )
        }),
{
    compatible_report_is_complete(text, report);
    let patch = report.patch_offset->0 as int;
    let block = text.subrange(patch, patch + 26);
    let program = Program { code: block, address: text_address + patch as nat };
    let bytes = report.view_setup_argument_move->0@;
    let query = text_address + report.get_observer_state_offset->0 as nat;
    let target = text_address + report.original_jump_target_offset->0 as nat;
    assert forall|i: int| 0 <= i < 26 && signature()[i] is Some implies block[i]
        == (#[trigger] signature()[i])->0 by {
        assert(text[patch + i] == block[i]);
    }
    assert(signature()[0] == Some(0xe8u8));
    assert(signature()[21] == Some(0xe9u8));
    lemma_subpart(text, patch, 26, 1, 5);
    lemma_subpart(text, patch, 26, 22, 26);
    assert(block.subrange(1, 5) == text.subrange(patch + 1, patch + 5));
    assert(block.subrange(22, 26) == text.subrange(patch + 22, patch + 26));
    assert(patch + 5 + distance_at(block, 1) == report.get_observer_state_offset->0);
    assert(patch + 26 + distance_at(block, 22) == report.original_jump_target_offset->0);
    let answered = callees(query, m);
    assert(wrap_64(query as int) == query);
    lemma_step_call_relative(program, callees, m, query);
    lemma_subpart(text, patch, 26, 5, 8);
    assert(block.subrange(8, 21) =~= override_call()) by {
        assert(signature().subrange(8, 21) =~= override_call().map_values(|b: u8| Some(b)));
        assert forall|i: int| 0 <= i < 13 implies block[8 + i] == #[trigger] override_call()[i] by {
            assert(signature()[8 + i] == signature().subrange(8, 21)[i]);
        }
    }
    lemma_run_override(program, callees, 5, answered, bytes);
    let end = override_effect(callees, move_source(bytes), answered);
    lemma_step_jump(program, callees, end);
    assert(wrap_64(target as int) == target);
    lemma_run_split(program, callees, 0, m, 1, 6);
    lemma_run_split(program, callees, 5, answered, 5, 1);
    assert(run(program, callees, 0, m, 1) == Outcome::At(5, answered)) by {
        reveal_with_fuel(run, 2);
    }
    assert(run(program, callees, 21, end, 1) == Outcome::Left(target, end)) by {
        reveal_with_fuel(run, 2);
    }
}

} // verus!

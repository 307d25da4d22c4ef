//! Runs the assembled code on a small processor of its own.

use std::collections::HashMap;

use autodirector_fix::config::{parse_camera_config, CameraConfig};
use autodirector_fix::trampoline::{build_conditional_trampoline, build_patch};

const RAX: usize = 0;
const RCX: usize = 1;
const RDX: usize = 2;
const RBX: usize = 3;
const RSP: usize = 4;

const QUERY: u64 = 0x1000;
const NORMAL: u64 = 0x2000;
const ORIGINAL: u64 = 0x3000;
const METHOD: u64 = 0xb000;
const STATE: u64 = 0x9000;

#[derive(Clone, Debug, PartialEq)]
struct Cpu {
    registers: [u64; 16],
    zero: bool,
    stack: Vec<u64>,
    memory: HashMap<u64, u8>,
    calls: Vec<(u64, u64, u64)>,
}

impl Cpu {
    fn store(&mut self, address: u64, value: u64) {
        for (i, byte) in value.to_le_bytes().iter().enumerate() {
            self.memory.insert(address + i as u64, *byte);
        }
    }

    fn load(&self, address: u64, count: u64) -> u64 {
        (0..count).rev().fold(0, |value, i| {
            (value << 8) | u64::from(self.memory[&(address + i)])
        })
    }

    // The query answers with the state object, the method with a mark; both spoil what a callee
    // may spoil.
    fn call(&mut self, address: u64) {
        self.calls
            .push((address, self.registers[RCX], self.registers[RDX]));
        for register in [RAX, RCX, RDX, 8, 9, 10, 11] {
            self.registers[register] = 0xdead_0000 + register as u64;
        }
        match address {
            QUERY => self.registers[RAX] = STATE,
            METHOD => self.registers[RAX] = 0x77,
            _ => panic!("call of {address:#x}"),
        }
    }

    fn new(mode: u32) -> Cpu {
        let mut cpu = Cpu {
            registers: [0; 16],
            zero: false,
            stack: vec![0xaaaa, 0xbbbb],
            memory: HashMap::new(),
            calls: Vec::new(),
        };
        for i in 0..16 {
            cpu.registers[i] = 0x1111_0000_0000_0000 + i as u64;
        }
        cpu.store(STATE, 0xa000);
        cpu.store(STATE + 0x38, u64::from(mode));
        cpu.store(0xa028, METHOD);
        cpu
    }
}

fn number(code: &[u8], at: usize, count: usize) -> u64 {
    code[at..at + count]
        .iter()
        .rev()
        .fold(0, |value, byte| (value << 8) | u64::from(*byte))
}

fn distance(code: &[u8], at: usize) -> i64 {
    i64::from(number(code, at, 4) as u32 as i32)
}

// Runs code that lies at `base` until it leaves, and tells where it goes.
fn run(base: u64, code: &[u8], cpu: &mut Cpu) -> u64 {
    let mut at: usize = 0;
    loop {
        let rex = if code[at] & 0xf0 == 0x40 {
            at += 1;
            code[at - 1]
        } else {
            0x40
        };
        let wide = rex & 8 != 0;
        let low = if rex & 1 != 0 { 8 } else { 0 };
        let high = if rex & 4 != 0 { 8 } else { 0 };
        let op = code[at];
        match op {
            0x50..=0x57 => {
                cpu.stack.push(cpu.registers[(op - 0x50) as usize + low]);
                cpu.registers[RSP] -= 8;
                at += 1;
            }
            0x58..=0x5f => {
                cpu.registers[RSP] += 8;
                cpu.registers[(op - 0x58) as usize + low] = cpu.stack.pop().unwrap();
                at += 1;
            }
            0xb8 if wide => {
                cpu.registers[RAX] = number(code, at + 1, 8);
                at += 9;
            }
            0xb8 => {
                cpu.registers[RAX] = number(code, at + 1, 4);
                at += 5;
            }
            0xa9 => {
                let mask = number(code, at + 1, 4) as u32;
                cpu.zero = cpu.registers[RAX] as u32 & mask == 0;
                at += 5;
            }
            0xd3 => {
                assert_eq!(code[at + 1], 0xe0);
                let shifted = (cpu.registers[RAX] as u32) << (cpu.registers[RCX] & 31);
                cpu.registers[RAX] = u64::from(shifted);
                at += 2;
            }
            0x8b => {
                let second = code[at + 1];
                let register = ((second >> 3) & 7) as usize + high;
                let base = (second & 7) as usize + low;
                let width = if wide { 8 } else { 4 };
                match second >> 6 {
                    3 => cpu.registers[register] = cpu.registers[base],
                    0 => cpu.registers[register] = cpu.load(cpu.registers[base], width),
                    1 => {
                        let address = cpu.registers[base] + u64::from(code[at + 2]);
                        cpu.registers[register] = cpu.load(address, width);
                        at += 1;
                    }
                    _ => panic!("addressing at {at}"),
                }
                at += 2;
            }
            0x0f => {
                assert_eq!(code[at + 1], 0x84);
                let taken = if cpu.zero { distance(code, at + 2) } else { 0 };
                at = (at as i64 + 6 + taken) as usize;
            }
            0xe8 => {
                let target = base as i64 + at as i64 + 5 + distance(code, at + 1);
                cpu.call(target as u64);
                at += 5;
            }
            0xe9 => return (base as i64 + at as i64 + 5 + distance(code, at + 1)) as u64,
            0xff if code[at + 1] == 0x25 => {
                let slot = at as i64 + 6 + distance(code, at + 2);
                return number(code, slot as usize, 8);
            }
            0xff => {
                assert_eq!(code[at + 1], 0xd0);
                let target = cpu.registers[low];
                cpu.call(target);
                at += 2;
            }
            _ => panic!("opcode {op:#x} at {at}"),
        }
    }
}

fn trampoline(config: &CameraConfig) -> Vec<u8> {
    build_conditional_trampoline(
        QUERY as usize,
        NORMAL as usize,
        ORIGINAL as usize,
        [0x48, 0x8b, 0xd3],
        config.disabled_mask,
    )
}

fn config(off: &str) -> CameraConfig {
    let contents = format!("[cameras]\nfirst_person = true\n{off} = false");
    parse_camera_config(&contents).unwrap().0
}

// The block that the patch takes the place of, at address 0x4000.
fn block() -> Vec<u8> {
    let mut code = vec![0xe8];
    code.extend((QUERY as i32 - 0x4005).to_le_bytes());
    code.extend([0x48, 0x8b, 0xd3, 0x48, 0x8b, 0x08, 0x4c, 0x8b, 0x41, 0x28, 0x48, 0x8b, 0xc8]);
    code.extend([0x41, 0xff, 0xd0, 0xe9]);
    code.extend((ORIGINAL as i32 - 0x401a).to_le_bytes());
    code
}

const CAMERAS: [(&str, u32); 4] = [
    ("fixed", 1),
    ("first_person", 2),
    ("chase", 3),
    ("cameraman", 4),
];

#[test]
fn a_camera_that_is_off_gets_the_normal_setup() {
    for (name, mode) in CAMERAS {
        let before = Cpu::new(mode);
        let mut cpu = before.clone();
        assert_eq!(run(0x5000, &trampoline(&config(name)), &mut cpu), NORMAL);
        assert_eq!(cpu.registers, before.registers);
        assert_eq!(cpu.stack, before.stack);
        assert_eq!(
            cpu.calls,
            vec![(QUERY, before.registers[RCX], before.registers[RDX])]
        );
    }
}

#[test]
fn a_camera_that_stays_on_gets_the_override() {
    for (off, _) in CAMERAS {
        for (name, mode) in CAMERAS {
            if name == off {
                continue;
            }
            let before = Cpu::new(mode);
            let mut cpu = before.clone();
            assert_eq!(run(0x5000, &trampoline(&config(off)), &mut cpu), ORIGINAL);
            let mut expected = before.clone();
            assert_eq!(run(0x4000, &block(), &mut expected), ORIGINAL);
            assert_eq!(cpu.registers, expected.registers);
            assert_eq!(cpu.stack, expected.stack);
            let query = (QUERY, before.registers[RCX], before.registers[RDX]);
            assert_eq!(expected.calls[0], query);
            assert_eq!(
                expected.calls[1],
                (METHOD, STATE, before.registers[RBX])
            );
            assert_eq!(cpu.calls[0], query);
            assert_eq!(&cpu.calls[1..], &expected.calls[..]);
        }
    }
}

#[test]
fn modes_without_a_camera_get_the_override() {
    for mode in [0, 5, 31, 32] {
        let mut cpu = Cpu::new(mode);
        let mut everything_off = config("chase");
        everything_off.disabled_mask = 0x1e;
        assert_eq!(run(0x5000, &trampoline(&everything_off), &mut cpu), ORIGINAL);
    }
}

#[test]
fn modes_count_modulo_thirty_two() {
    let mut cpu = Cpu::new(32 + 2);
    assert_eq!(
        run(0x5000, &trampoline(&config("first_person")), &mut cpu),
        NORMAL
    );
}

#[test]
fn the_patch_leads_to_the_trampoline() {
    let before = Cpu::new(1);
    let mut cpu = before.clone();
    assert_eq!(run(0x4000, &build_patch(0x5000), &mut cpu), 0x5000);
    assert_eq!(cpu, before);
}

#[test]
fn a_move_from_an_upper_register_is_replayed() {
    let before = Cpu::new(1);
    let mut cpu = before.clone();
    let code = build_conditional_trampoline(
        QUERY as usize,
        NORMAL as usize,
        ORIGINAL as usize,
        [0x49, 0x8b, 0xd6],
        0x4,
    );
    assert_eq!(run(0x5000, &code, &mut cpu), ORIGINAL);
    assert_eq!(cpu.calls[2], (METHOD, STATE, before.registers[14]));
}

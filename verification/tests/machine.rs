use lc3_vm::cpu::{Cpu, StepResult};
use lc3_vm::opcodes;

#[test]
fn new_cpu_starts_at_default_entry() {
    let cpu = Cpu::new();
    assert_eq!(cpu.pc, 0x3000);
    assert_eq!(cpu.psr, 0);
    assert_eq!(cpu.registers, vec![0u16; 8]);
}

#[test]
fn memory_read_write_roundtrip() {
    let mut cpu = Cpu::new();
    assert_eq!(cpu.memory.read(0x1234), 0);
    cpu.memory.write(0x1234, 0xBEEF);
    assert_eq!(cpu.memory.read(0x1234), 0xBEEF);
}

#[test]
fn device_status_always_ready() {
    let mut cpu = Cpu::new();
    assert_eq!(cpu.memory.read(0xfe00), 0x8000);
    // Writes pass through to the backing store; reads still intercept.
    cpu.memory.write(0xfe00, 0);
    assert_eq!(cpu.memory.read(0xfe00), 0x8000);
}

#[test]
fn sext_positive_values_unchanged() {
    let cpu = Cpu::new();
    assert_eq!(cpu.sext(0x0f, 5), 0x0f);
    assert_eq!(cpu.sext(3, 5), 3);
    assert_eq!(cpu.sext(0x0ff, 9), 0x0ff);
    assert_eq!(cpu.sext(0x3ff, 11), 0x3ff);
}

#[test]
fn sext_negative_values_extend() {
    let cpu = Cpu::new();
    // Five-bit -1 and -16.
    assert_eq!(cpu.sext(0x1f, 5), 0xffff);
    assert_eq!(cpu.sext(0x10, 5), 0xfff0);
    // Six-bit -1, nine-bit -1, eleven-bit -1.
    assert_eq!(cpu.sext(0x3f, 6), 0xffff);
    assert_eq!(cpu.sext(0x1ff, 9), 0xffff);
    assert_eq!(cpu.sext(0x7ff, 11), 0xffff);
    // Full width is the identity.
    assert_eq!(cpu.sext(0x8000, 16), 0x8000);
}

#[test]
fn sext_agrees_with_twos_complement() {
    // Extending then reading as signed 16-bit equals the
    // two's-complement reading of the low-width field.
    let cpu = Cpu::new();
    for bits in [5u8, 6, 9, 11] {
        let m: u16 = 1 << (bits - 1);
        for v in 0..(1u16 << bits) {
            let expected: i32 = if v < m {
                v as i32
            } else {
                v as i32 - (1 << bits) as i32
            };
            assert_eq!(cpu.sext(v, bits) as i16 as i32, expected);
        }
    }
}

#[test]
fn setcc_sets_exactly_one_flag() {
    let mut cpu = Cpu::new();
    for v in [0u16, 1, 5, 0x7fff, 0x8000, 0xffff] {
        cpu.setcc(v);
        let low = cpu.psr & 7;
        assert!(low == 1 || low == 2 || low == 4);
        if v == 0 {
            assert_eq!(low, 2);
        } else if v >= 0x8000 {
            assert_eq!(low, 4);
        } else {
            assert_eq!(low, 1);
        }
    }
}

#[test]
fn setcc_keeps_high_psr_bits() {
    let mut cpu = Cpu::new();
    cpu.psr = 0xab00;
    cpu.setcc(7);
    assert_eq!(cpu.psr, 0xab01);
}

#[test]
fn print_opcode_names_every_operation() {
    assert_eq!(lc3_vm::opcodes::print_opcode(opcodes::ADD), "ADD");
    assert_eq!(lc3_vm::opcodes::print_opcode(opcodes::AND), "AND");
    assert_eq!(lc3_vm::opcodes::print_opcode(opcodes::BR), "BR");
    assert_eq!(lc3_vm::opcodes::print_opcode(opcodes::JMP), "JMP");
    assert_eq!(lc3_vm::opcodes::print_opcode(opcodes::JSR), "JSR");
    assert_eq!(lc3_vm::opcodes::print_opcode(opcodes::LD), "LD");
    assert_eq!(lc3_vm::opcodes::print_opcode(opcodes::LDI), "LDI");
    assert_eq!(lc3_vm::opcodes::print_opcode(opcodes::LDR), "LDR");
    assert_eq!(lc3_vm::opcodes::print_opcode(opcodes::LEA), "LEA");
    assert_eq!(lc3_vm::opcodes::print_opcode(opcodes::NOT), "NOT");
    assert_eq!(lc3_vm::opcodes::print_opcode(opcodes::RTI), "RTI");
    assert_eq!(lc3_vm::opcodes::print_opcode(opcodes::ST), "ST");
    assert_eq!(lc3_vm::opcodes::print_opcode(opcodes::STI), "STI");
    assert_eq!(lc3_vm::opcodes::print_opcode(opcodes::STR), "STR");
    assert_eq!(lc3_vm::opcodes::print_opcode(opcodes::TRAP), "TRAP");
    // The one gap in the dispatch table.
    assert_eq!(lc3_vm::opcodes::print_opcode(13), "Unknown opcode");
    for op in 0u16..16 {
        let known = lc3_vm::opcodes::print_opcode(op) != "Unknown opcode";
        assert_eq!(known, op != 13);
    }
}

#[test]
fn load_image_sets_origin_and_words() {
    let mut cpu = Cpu::new();
    let image: Vec<u8> = vec![0x40, 0x00, 0x12, 0x34, 0xab, 0xcd];
    cpu.load_image(&image);
    assert_eq!(cpu.pc, 0x4000);
    assert_eq!(cpu.memory.read(0x4000), 0x1234);
    assert_eq!(cpu.memory.read(0x4001), 0xabcd);
    assert_eq!(cpu.memory.read(0x4002), 0);
}

#[test]
fn halt_image_runs_to_clean_termination() {
    // An image with origin 0x3000 and the single instruction HALT.
    let mut cpu = Cpu::new();
    let image: Vec<u8> = vec![0x30, 0x00, 0xf0, 0x25];
    cpu.load_image(&image);
    let mut input: Vec<u16> = Vec::new();
    let mut output: Vec<u8> = Vec::new();
    let mut result = StepResult::Continue;
    let mut steps = 0;
    while result == StepResult::Continue {
        result = cpu.step(&mut input, &mut output);
        steps += 1;
        assert!(steps <= 10);
    }
    assert_eq!(result, StepResult::Halt);
    assert!(output.is_empty());
    // Registers 0 to 6 untouched; register 7 holds the return address
    // of the trap, the word after the HALT instruction.
    assert_eq!(&cpu.registers[0..7], &[0u16; 7]);
    assert_eq!(cpu.registers[7], 0x3001);
}

use lc3_vm::cpu::{Cpu, Fault, StepResult};

fn with_program(words: &[u16]) -> Cpu {
    let mut cpu = Cpu::new();
    for (i, &w) in words.iter().enumerate() {
        cpu.memory.write(0x3000 + i as u16, w);
    }
    cpu
}

#[test]
fn getc_reads_one_character_without_echo() {
    let mut cpu = with_program(&[0xf020]);
    let mut input: Vec<u16> = vec![b'a' as u16, b'b' as u16];
    let mut output: Vec<u8> = Vec::new();
    assert_eq!(cpu.step(&mut input, &mut output), StepResult::Continue);
    assert_eq!(cpu.registers[0], b'a' as u16);
    assert_eq!(cpu.registers[7], 0x3001);
    assert_eq!(input, vec![b'b' as u16]);
    assert!(output.is_empty());
}

#[test]
fn getc_without_input_suspends_without_effect() {
    let mut cpu = with_program(&[0xf020]);
    let mut input: Vec<u16> = Vec::new();
    let mut output: Vec<u8> = Vec::new();
    assert_eq!(cpu.step(&mut input, &mut output), StepResult::NeedInput);
    assert_eq!(cpu.pc, 0x3000);
    assert_eq!(cpu.registers[7], 0);
    assert!(output.is_empty());
    // Supplying a character lets the same instruction complete.
    input.push(b'q' as u16);
    assert_eq!(cpu.step(&mut input, &mut output), StepResult::Continue);
    assert_eq!(cpu.registers[0], b'q' as u16);
}

#[test]
fn out_emits_low_byte_of_r0() {
    let mut cpu = with_program(&[0xf021]);
    cpu.registers[0] = 0x0141;  // high byte dropped, 'A' kept
    let mut input: Vec<u16> = Vec::new();
    let mut output: Vec<u8> = Vec::new();
    assert_eq!(cpu.step(&mut input, &mut output), StepResult::Continue);
    assert_eq!(output, vec![b'A']);
}

#[test]
fn puts_emits_words_until_zero() {
    // Memory from 0x4000: [72, 73, 0] — "HI" and the terminator.
    let mut cpu = with_program(&[0xf022]);
    cpu.memory.write(0x4000, 72);
    cpu.memory.write(0x4001, 73);
    cpu.memory.write(0x4002, 0);
    cpu.registers[0] = 0x4000;
    let mut input: Vec<u16> = Vec::new();
    let mut output: Vec<u8> = Vec::new();
    assert_eq!(cpu.step(&mut input, &mut output), StepResult::Continue);
    assert_eq!(output, b"HI".to_vec());
    assert_eq!(cpu.registers[7], 0x3001);
}

#[test]
fn putsp_emits_packed_pairs_until_zero_word() {
    // 0x5000 holds 0x4948: low byte 'H', high byte 'I'; then a zero
    // word.
    let mut cpu = with_program(&[0xf024]);
    cpu.memory.write(0x5000, 0x4948);
    cpu.memory.write(0x5001, 0x0000);
    cpu.registers[0] = 0x5000;
    let mut input: Vec<u16> = Vec::new();
    let mut output: Vec<u8> = Vec::new();
    assert_eq!(cpu.step(&mut input, &mut output), StepResult::Continue);
    assert_eq!(output, b"HI".to_vec());
}

#[test]
fn putsp_skips_a_zero_byte_in_a_nonzero_word() {
    // 0x5000 holds 0x4a00: low byte zero, high byte 'J'.
    let mut cpu = with_program(&[0xf024]);
    cpu.memory.write(0x5000, 0x4a00);
    cpu.memory.write(0x5001, 0x0000);
    cpu.registers[0] = 0x5000;
    let mut input: Vec<u16> = Vec::new();
    let mut output: Vec<u8> = Vec::new();
    assert_eq!(cpu.step(&mut input, &mut output), StepResult::Continue);
    assert_eq!(output, b"J".to_vec());
}

#[test]
fn trap_in_prompts_and_echoes() {
    let mut cpu = with_program(&[0xf023]);
    let mut input: Vec<u16> = vec![b'x' as u16];
    let mut output: Vec<u8> = Vec::new();
    assert_eq!(cpu.step(&mut input, &mut output), StepResult::Continue);
    assert_eq!(cpu.registers[0], b'x' as u16);
    assert_eq!(output, b"\n > x".to_vec());
    assert!(input.is_empty());
}

#[test]
fn trap_in_without_input_suspends() {
    let mut cpu = with_program(&[0xf023]);
    let mut input: Vec<u16> = Vec::new();
    let mut output: Vec<u8> = Vec::new();
    assert_eq!(cpu.step(&mut input, &mut output), StepResult::NeedInput);
    assert!(output.is_empty());
    assert_eq!(cpu.pc, 0x3000);
}

#[test]
fn halt_terminates_cleanly() {
    let mut cpu = with_program(&[0xf025]);
    let mut input: Vec<u16> = Vec::new();
    let mut output: Vec<u8> = Vec::new();
    assert_eq!(cpu.step(&mut input, &mut output), StepResult::Halt);
    assert_eq!(cpu.registers[7], 0x3001);
    assert!(output.is_empty());
}

#[test]
fn unknown_trap_vector_is_fatal() {
    let mut cpu = with_program(&[0xf026]);
    let mut input: Vec<u16> = Vec::new();
    let mut output: Vec<u8> = Vec::new();
    assert_eq!(
        cpu.step(&mut input, &mut output),
        StepResult::Fatal(Fault::UnknownTrap(0x26))
    );
    assert_eq!(cpu.registers[7], 0x3001);
}

#[test]
fn load_through_device_data_register_consumes_input() {
    // LDR R4, R2, #0 with R2 at the device data address: the loaded
    // word is the next injected character.
    let mut cpu = with_program(&[0x6000 | (4 << 9) | (2 << 6)]);
    cpu.registers[2] = 0xfe02;
    let mut input: Vec<u16> = vec![b'z' as u16];
    let mut output: Vec<u8> = Vec::new();
    assert_eq!(cpu.step(&mut input, &mut output), StepResult::Continue);
    assert_eq!(cpu.registers[4], b'z' as u16);
    assert!(input.is_empty());
}

#[test]
fn load_through_device_status_register_reads_ready() {
    // LDR R4, R2, #0 with R2 at the device status address.
    let mut cpu = with_program(&[0x6000 | (4 << 9) | (2 << 6)]);
    cpu.registers[2] = 0xfe00;
    let mut input: Vec<u16> = Vec::new();
    let mut output: Vec<u8> = Vec::new();
    assert_eq!(cpu.step(&mut input, &mut output), StepResult::Continue);
    assert_eq!(cpu.registers[4], 0x8000);
}

#[test]
fn load_through_device_data_register_without_input_suspends() {
    let mut cpu = with_program(&[0x6000 | (4 << 9) | (2 << 6)]);
    cpu.registers[2] = 0xfe02;
    let mut input: Vec<u16> = Vec::new();
    let mut output: Vec<u8> = Vec::new();
    assert_eq!(cpu.step(&mut input, &mut output), StepResult::NeedInput);
    assert_eq!(cpu.pc, 0x3000);
    assert_eq!(cpu.registers[4], 0);
}

#[test]
fn puts_then_halt_program_emits_exactly_hi() {
    // A two-instruction program: PUTS then HALT, string at 0x4000.
    let mut cpu = with_program(&[0xf022, 0xf025]);
    cpu.memory.write(0x4000, 72);
    cpu.memory.write(0x4001, 73);
    cpu.memory.write(0x4002, 0);
    cpu.registers[0] = 0x4000;
    let mut input: Vec<u16> = Vec::new();
    let mut output: Vec<u8> = Vec::new();
    let mut result = StepResult::Continue;
    let mut steps = 0;
    while result == StepResult::Continue {
        result = cpu.step(&mut input, &mut output);
        steps += 1;
        assert!(steps <= 10);
    }
    assert_eq!(result, StepResult::Halt);
    assert_eq!(output, b"HI".to_vec());
}

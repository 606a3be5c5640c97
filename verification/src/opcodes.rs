//! Opcode numbers of the instruction set, and the name of each opcode.
//!
//! The top four bits of an instruction word select the operation. Two
//! pairs of mnemonics share a number: JSR/JSRR (distinguished by bit 11)
//! and JMP/RET (RET is JMP through register 7). The number 13 is assigned
//! to no operation.

use vstd::prelude::*;

verus! {

pub const ADD: u16 = 0b0001;
pub const AND: u16 = 0b0101;
pub const BR: u16 = 0b0000;
pub const JMP: u16 = 0b1100;
pub const JSR: u16 = 0b0100;
pub const JSRR: u16 = 0b0100;
pub const LD: u16 = 0b0010;
pub const LDI: u16 = 0b1010;
pub const LDR: u16 = 0b0110;
pub const LEA: u16 = 0b1110;
pub const NOT: u16 = 0b1001;
pub const RET: u16 = 0b1100;
pub const RTI: u16 = 0b1000;
pub const ST: u16 = 0b0011;
pub const STI: u16 = 0b1011;
pub const STR: u16 = 0b0111;
pub const TRAP: u16 = 0b1111;

/// Whether a four-bit opcode number selects an operation of the
/// instruction set.
pub open spec fn opcode_defined(opcode: u16) -> bool {
    opcode == ADD || opcode == AND || opcode == BR || opcode == JMP
        || opcode == JSR || opcode == LD || opcode == LDI || opcode == LDR
        || opcode == LEA || opcode == NOT || opcode == RTI || opcode == ST
        || opcode == STI || opcode == STR || opcode == TRAP
}

/// Every four-bit opcode number except 13 selects an operation: the
/// dispatch table has a single gap, the reserved number 13.
pub proof fn lemma_opcode_coverage()
    ensures
        forall|opcode: u16| opcode < 16 ==> (opcode_defined(opcode) <==> opcode != 13),
{
}

/// The mnemonic of an opcode number, for diagnostics. Numbers that share
/// an encoding are reported under the first mnemonic (JSR, JMP).
pub fn print_opcode(opcode: u16) -> (r: String)
    ensures
        opcode == ADD ==> r@ == "ADD"@,
        opcode == AND ==> r@ == "AND"@,
        opcode == BR ==> r@ == "BR"@,
        opcode == JMP ==> r@ == "JMP"@,
        opcode == JSR ==> r@ == "JSR"@,
        opcode == LD ==> r@ == "LD"@,
        opcode == LDI ==> r@ == "LDI"@,
        opcode == LDR ==> r@ == "LDR"@,
        opcode == LEA ==> r@ == "LEA"@,
        opcode == NOT ==> r@ == "NOT"@,
        opcode == RTI ==> r@ == "RTI"@,
        opcode == ST ==> r@ == "ST"@,
        opcode == STI ==> r@ == "STI"@,
        opcode == STR ==> r@ == "STR"@,
        opcode == TRAP ==> r@ == "TRAP"@,
        !opcode_defined(opcode) ==> r@ == "Unknown opcode"@,
{
    let s: &str = match opcode {
        ADD => "ADD",
        AND => "AND",
        BR => "BR",
        JMP => "JMP",
        JSR => "JSR",
        LD => "LD",
        LDI => "LDI",
        LDR => "LDR",
        LEA => "LEA",
        NOT => "NOT",
        RTI => "RTI",
        ST => "ST",
        STI => "STI",
        STR => "STR",
        TRAP => "TRAP",
        _ => "Unknown opcode",
    };
    s.to_string()
}

} // verus!

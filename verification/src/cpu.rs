//! The execution engine: register file, program counter, processor
//! status word, and the fetch/decode/execute cycle over the address
//! space in [`crate::memory`].
//!
//! External input is injected: the engine never blocks. [`Cpu::step`]
//! draws characters from a queue of already-captured input. When an
//! instruction would consume a character and the queue is empty, the
//! step has no effect and reports [`StepResult::NeedInput`]; the caller
//! captures more input and retries the same instruction. Output is
//! appended to a byte buffer the caller drains. Fatal conditions (RTI,
//! an unknown trap vector) are returned as values, never raised.

use vstd::prelude::*;

use crate::memory::KBDR;
use crate::memory::KBSR;
use crate::memory::MEM_WORDS;
use crate::memory::Memory;
use crate::memory::spec_read;
use crate::opcodes;

verus! {

/// Default entry point of a machine with no program loaded.
pub const PC_START: u16 = 0x3000;

/// The mathematical state of the machine: eight registers, the full
/// word store, program counter and processor status word.
pub ghost struct VmState {
    pub regs: Seq<u16>,
    pub mem: Seq<u16>,
    pub pc: u16,
    pub psr: u16,
}

/// Well-formedness of a machine state: eight registers and a full
/// address space.
pub open spec fn state_wf(s: VmState) -> bool {
    s.regs.len() == 8 && s.mem.len() == MEM_WORDS
}

/// 16-bit wrapping addition.
pub open spec fn wadd(a: u16, b: u16) -> u16 {
    if a + b > 0xffff {
        (a + b - 0x10000) as u16
    } else {
        (a + b) as u16
    }
}

/// Sign extension of the low `bits` bits of `value` to 16 bits: the
/// field's sign bit is copied into every bit above it.
pub open spec fn sext_spec(value: u16, bits: u16) -> u16 {
    if bits == 0 || bits >= 16 {
        value
    } else if (value >> (bits - 1)) & 1 != 0 {
        value | (0xffffu16 << bits)
    } else {
        value
    }
}

/// The condition-code bits derived from a result value: N = 4, Z = 2,
/// P = 1; exactly one is set.
pub open spec fn cc_of(value: u16) -> u16 {
    if value == 0 {
        2
    } else if value >= 0x8000 {
        4
    } else {
        1
    }
}

/// The processor status word after a result-producing instruction: the
/// low three bits are replaced by the condition codes of `value`.
pub open spec fn set_cc(psr: u16, value: u16) -> u16 {
    (psr & 0xfff8) | cc_of(value)
}

/// The negative flag of a status word.
pub open spec fn flag_n(psr: u16) -> bool {
    psr & 4 == 4
}

/// The zero flag of a status word.
pub open spec fn flag_z(psr: u16) -> bool {
    psr & 2 == 2
}

/// The positive flag of a status word.
pub open spec fn flag_p(psr: u16) -> bool {
    psr & 1 == 1
}

/// After `setcc(value)` exactly one of N/Z/P is set: Z exactly when the
/// value is zero, N exactly when its top bit is set and it is not zero,
/// P otherwise.
pub proof fn lemma_cc_exclusive(psr: u16, value: u16)
    ensures
        flag_z(set_cc(psr, value)) <==> value == 0,
        flag_n(set_cc(psr, value)) <==> (value >= 0x8000 && value != 0),
        flag_p(set_cc(psr, value)) <==> (value < 0x8000 && value != 0),
        !(flag_n(set_cc(psr, value)) && flag_z(set_cc(psr, value))),
        !(flag_n(set_cc(psr, value)) && flag_p(set_cc(psr, value))),
        !(flag_z(set_cc(psr, value)) && flag_p(set_cc(psr, value))),
{
    let cc = cc_of(value);
    assert(cc == 1 || cc == 2 || cc == 4);
    assert(((psr & 0xfff8) | 1) & 4 == 0 && ((psr & 0xfff8) | 1) & 2 == 0 && ((psr & 0xfff8) | 1)
        & 1 == 1) by (bit_vector);
    assert(((psr & 0xfff8) | 2) & 4 == 0 && ((psr & 0xfff8) | 2) & 2 == 2 && ((psr & 0xfff8) | 2)
        & 1 == 0) by (bit_vector);
    assert(((psr & 0xfff8) | 4) & 4 == 4 && ((psr & 0xfff8) | 4) & 2 == 0 && ((psr & 0xfff8) | 4)
        & 1 == 0) by (bit_vector);
}

/// The signed value a 16-bit word denotes under two's complement.
pub open spec fn signed16(value: u16) -> int {
    if value >= 0x8000 {
        value - 0x10000
    } else {
        value as int
    }
}

/// What a read of one word yields, device interception included: at the
/// device data address it consumes the next injected input character
/// (`None` when none is available), at the device status address it
/// yields `DEVICE_READY`, elsewhere the stored word. The result carries
/// the new count of consumed input characters.
pub open spec fn read_at(mem: Seq<u16>, inp: Seq<u16>, k: nat, addr: u16) -> Option<(u16, nat)> {
    if addr == KBDR {
        if k < inp.len() {
            Some((inp[k as int], (k + 1) as nat))
        } else {
            None
        }
    } else {
        Some((spec_read(mem, addr), k))
    }
}

/// A fatal condition: the machine cannot continue and the caller must
/// abort with a diagnostic.
#[derive(Clone, Copy, Debug, PartialEq, Eq, Structural)]
pub enum Fault {
    /// The RTI instruction, which this machine does not support.
    Rti,
    /// A TRAP with a vector outside the service table; carries the
    /// vector.
    UnknownTrap(u16),
}

/// What one call of [`Cpu::step`] reports.
#[derive(Clone, Copy, Debug, PartialEq, Eq, Structural)]
pub enum StepResult {
    /// One instruction executed; fetch the next.
    Continue,
    /// The instruction needs an input character the queue does not
    /// hold. Nothing changed; refill the queue and retry.
    NeedInput,
    /// The HALT trap: clean termination.
    Halt,
    /// The fetched word's top four bits select no operation. Reported,
    /// not fatal: execution continues at the next instruction.
    UnknownOpcode,
    /// A fatal condition; the machine must not be stepped further.
    Fatal(Fault),
}

/// The full effect of one step: the machine state after it, how many
/// input characters it consumed, the bytes it emitted, and its report.
pub ghost struct StepSpec {
    pub state: VmState,
    pub consumed: nat,
    pub out: Seq<u8>,
    pub result: StepResult,
}

/// A completed instruction with no output.
pub open spec fn step_done(s: VmState, k: nat) -> StepSpec {
    StepSpec { state: s, consumed: k, out: Seq::empty(), result: StepResult::Continue }
}

/// An instruction suspended for want of input. The state and count are
/// discarded by [`spec_step`], which rolls the whole step back.
pub open spec fn step_blocked(s: VmState, k: nat) -> StepSpec {
    StepSpec { state: s, consumed: k, out: Seq::empty(), result: StepResult::NeedInput }
}

/// Destination / source register field, bits 9 to 11.
pub open spec fn dr_of(instr: u16) -> u16 {
    (instr >> 9) & 7
}

/// First source / base register field, bits 6 to 8.
pub open spec fn sr1_of(instr: u16) -> u16 {
    (instr >> 6) & 7
}

/// Second source register field, bits 0 to 2.
pub open spec fn sr2_of(instr: u16) -> u16 {
    instr & 7
}

/// Register write followed by the condition-code update every
/// result-producing instruction performs.
pub open spec fn write_reg_cc(s: VmState, r: u16, value: u16) -> VmState {
    VmState { regs: s.regs.update(r as int, value), psr: set_cc(s.psr, value), ..s }
}

/// The prompt the IN service emits before reading: newline, space,
/// greater-than, space.
pub open spec fn prompt_bytes() -> Seq<u8> {
    seq![10u8, 32u8, 62u8, 32u8]
}

/// The PUTS walk: one character per word starting at `addr`, low byte
/// of each word, until a zero word (not emitted). `fuel` bounds the
/// walk to one pass over the address space; a scan that exhausts it
/// ends there. `None` when a device-data read runs out of input.
pub open spec fn puts_walk(mem: Seq<u16>, inp: Seq<u16>, k: nat, addr: u16, fuel: nat) -> Option<
    (Seq<u8>, nat),
>
    decreases fuel,
{
    if fuel == 0 {
        Some((Seq::empty(), k))
    } else {
        match read_at(mem, inp, k, addr) {
            None => None,
            Some((c, k2)) => if c == 0 {
                Some((Seq::empty(), k2))
            } else {
                match puts_walk(mem, inp, k2, wadd(addr, 1), (fuel - 1) as nat) {
                    None => None,
                    Some((rest, k3)) => Some((seq![(c & 0xff) as u8] + rest, k3)),
                }
            },
        }
    }
}

/// The PUTSP walk: two packed characters per word, low byte first, a
/// zero byte emitting nothing, until a word that is zero in both bytes
/// (not emitted). Bounded by `fuel` as [`puts_walk`] is.
pub open spec fn putsp_walk(mem: Seq<u16>, inp: Seq<u16>, k: nat, addr: u16, fuel: nat) -> Option<
    (Seq<u8>, nat),
>
    decreases fuel,
{
    if fuel == 0 {
        Some((Seq::empty(), k))
    } else {
        match read_at(mem, inp, k, addr) {
            None => None,
            Some((c, k2)) => if c == 0 {
                Some((Seq::empty(), k2))
            } else {
                let lo = (c & 0xff) as u8;
                let hi = (c >> 8) as u8;
                let here = (if lo != 0 {
                    seq![lo]
                } else {
                    Seq::empty()
                }) + (if hi != 0 {
                    seq![hi]
                } else {
                    Seq::empty()
                });
                match putsp_walk(mem, inp, k2, wadd(addr, 1), (fuel - 1) as nat) {
                    None => None,
                    Some((rest, k3)) => Some((here + rest, k3)),
                }
            },
        }
    }
}

/// The effect of the already-fetched instruction `instr` on the
/// post-fetch state `s` (program counter already advanced), with `k`
/// input characters consumed by the fetch itself.
pub open spec fn exec_instr(s: VmState, instr: u16, inp: Seq<u16>, k: nat) -> StepSpec {
    let op = instr >> 12;
    if op == opcodes::ADD {
        let a: u16 = s.regs[sr1_of(instr) as int];
        let b: u16 = if (instr >> 5) & 1 == 0 {
            s.regs[sr2_of(instr) as int]
        } else {
            sext_spec(instr & 0x1f, 5)
        };
        step_done(write_reg_cc(s, dr_of(instr), wadd(a, b)), k)
    } else if op == opcodes::AND {
        let a: u16 = s.regs[sr1_of(instr) as int];
        let b: u16 = if (instr >> 5) & 1 == 0 {
            s.regs[sr2_of(instr) as int]
        } else {
            sext_spec(instr & 0x1f, 5)
        };
        step_done(write_reg_cc(s, dr_of(instr), a & b), k)
    } else if op == opcodes::NOT {
        step_done(write_reg_cc(s, dr_of(instr), !s.regs[sr1_of(instr) as int]), k)
    } else if op == opcodes::BR {
        let cond: u16 = dr_of(instr) & (s.psr & 7);
        if cond != 0 {
            step_done(VmState { pc: wadd(s.pc, sext_spec(instr & 0x1ff, 9)), ..s }, k)
        } else {
            step_done(s, k)
        }
    } else if op == opcodes::JMP {
        step_done(VmState { pc: s.regs[sr1_of(instr) as int], ..s }, k)
    } else if op == opcodes::JSR {
        let s1 = VmState { regs: s.regs.update(7, s.pc), ..s };
        if (instr >> 11) & 1 == 0 {
            step_done(VmState { pc: s1.regs[sr1_of(instr) as int], ..s1 }, k)
        } else {
            step_done(VmState { pc: wadd(s.pc, sext_spec(instr & 0x7ff, 11)), ..s1 }, k)
        }
    } else if op == opcodes::LD {
        let addr: u16 = wadd(s.pc, sext_spec(instr & 0x1ff, 9));
        match read_at(s.mem, inp, k, addr) {
            None => step_blocked(s, k),
            Some((v, k2)) => step_done(write_reg_cc(s, dr_of(instr), v), k2),
        }
    } else if op == opcodes::LDI {
        let addr: u16 = wadd(s.pc, sext_spec(instr & 0x1ff, 9));
        match read_at(s.mem, inp, k, addr) {
            None => step_blocked(s, k),
            Some((p, k2)) => match read_at(s.mem, inp, k2, p) {
                None => step_blocked(s, k),
                Some((v, k3)) => step_done(write_reg_cc(s, dr_of(instr), v), k3),
            },
        }
    } else if op == opcodes::LDR {
        let addr: u16 = wadd(s.regs[sr1_of(instr) as int], sext_spec(instr & 0x3f, 6));
        match read_at(s.mem, inp, k, addr) {
            None => step_blocked(s, k),
            Some((v, k2)) => step_done(write_reg_cc(s, dr_of(instr), v), k2),
        }
    } else if op == opcodes::LEA {
        step_done(write_reg_cc(s, dr_of(instr), wadd(s.pc, sext_spec(instr & 0x1ff, 9))), k)
    } else if op == opcodes::ST {
        let addr: u16 = wadd(s.pc, sext_spec(instr & 0x1ff, 9));
        step_done(
            VmState { mem: s.mem.update(addr as int, s.regs[dr_of(instr) as int]), ..s },
            k,
        )
    } else if op == opcodes::STI {
        let addr: u16 = wadd(s.pc, sext_spec(instr & 0x1ff, 9));
        match read_at(s.mem, inp, k, addr) {
            None => step_blocked(s, k),
            Some((p, k2)) => step_done(
                VmState { mem: s.mem.update(p as int, s.regs[dr_of(instr) as int]), ..s },
                k2,
            ),
        }
    } else if op == opcodes::STR {
        let addr: u16 = wadd(s.regs[sr1_of(instr) as int], sext_spec(instr & 0x3f, 6));
        step_done(
            VmState { mem: s.mem.update(addr as int, s.regs[dr_of(instr) as int]), ..s },
            k,
        )
    } else if op == opcodes::RTI {
        StepSpec { state: s, consumed: k, out: Seq::empty(), result: StepResult::Fatal(Fault::Rti) }
    } else if op == opcodes::TRAP {
        exec_trap(VmState { regs: s.regs.update(7, s.pc), ..s }, instr & 0xff, inp, k)
    } else {
        StepSpec { state: s, consumed: k, out: Seq::empty(), result: StepResult::UnknownOpcode }
    }
}

/// The effect of a TRAP with vector `vect`, after the return address
/// has been stored in register 7 (already done in `s`).
pub open spec fn exec_trap(s: VmState, vect: u16, inp: Seq<u16>, k: nat) -> StepSpec {
    if vect == 0x20 {
        // GETC: one input character into register 0, no echo.
        if k < inp.len() {
            step_done(VmState { regs: s.regs.update(0, inp[k as int]), ..s }, (k + 1) as nat)
        } else {
            step_blocked(s, k)
        }
    } else if vect == 0x21 {
        // OUT: the low byte of register 0.
        StepSpec {
            state: s,
            consumed: k,
            out: seq![(s.regs[0] & 0xff) as u8],
            result: StepResult::Continue,
        }
    } else if vect == 0x22 {
        // PUTS: one character per word from the address in register 0.
        match puts_walk(s.mem, inp, k, s.regs[0], MEM_WORDS as nat) {
            None => step_blocked(s, k),
            Some((out, k2)) => StepSpec {
                state: s,
                consumed: k2,
                out: out,
                result: StepResult::Continue,
            },
        }
    } else if vect == 0x23 {
        // IN: prompt, one input character into register 0, echoed.
        if k < inp.len() {
            let c: u16 = inp[k as int];
            StepSpec {
                state: VmState { regs: s.regs.update(0, c), ..s },
                consumed: (k + 1) as nat,
                out: prompt_bytes() + seq![(c & 0xff) as u8],
                result: StepResult::Continue,
            }
        } else {
            step_blocked(s, k)
        }
    } else if vect == 0x24 {
        // PUTSP: two packed characters per word from the address in
        // register 0.
        match putsp_walk(s.mem, inp, k, s.regs[0], MEM_WORDS as nat) {
            None => step_blocked(s, k),
            Some((out, k2)) => StepSpec {
                state: s,
                consumed: k2,
                out: out,
                result: StepResult::Continue,
            },
        }
    } else if vect == 0x25 {
        // HALT: clean termination.
        StepSpec { state: s, consumed: k, out: Seq::empty(), result: StepResult::Halt }
    } else {
        StepSpec {
            state: s,
            consumed: k,
            out: Seq::empty(),
            result: StepResult::Fatal(Fault::UnknownTrap(vect)),
        }
    }
}

/// The effect of one full fetch/decode/execute cycle on state `s` with
/// injected input `inp`: fetch at the program counter (itself a read
/// that the device addresses intercept), advance the counter, execute.
/// A step that runs out of input has no effect at all.
pub open spec fn spec_step(s: VmState, inp: Seq<u16>) -> StepSpec {
    match read_at(s.mem, inp, 0, s.pc) {
        None => step_blocked(s, 0),
        Some((instr, k1)) => {
            let r = exec_instr(VmState { pc: wadd(s.pc, 1), ..s }, instr, inp, k1);
            if r.result is NeedInput {
                step_blocked(s, 0)
            } else {
                r
            }
        },
    }
}

/// A big-endian word from two bytes.
pub open spec fn be_word(hi: u8, lo: u8) -> u16 {
    (hi * 256 + lo) as u16
}

/// The origin address of a program image: its first two bytes,
/// big-endian.
pub open spec fn image_origin(image: Seq<u8>) -> u16 {
    be_word(image[0], image[1])
}

/// Word `j` of a program image's body, big-endian.
pub open spec fn image_word(image: Seq<u8>, j: int) -> u16 {
    be_word(image[2 + 2 * j], image[3 + 2 * j])
}

/// The store after the first `n` words of a program image's body have
/// been written from `origin` on, each word one address further
/// (wrapping around the address space).
pub open spec fn store_words(mem: Seq<u16>, image: Seq<u8>, origin: u16, n: nat) -> Seq<u16>
    decreases n,
{
    if n == 0 {
        mem
    } else {
        store_words(mem, image, origin, (n - 1) as nat).update(
            wadd(origin, (n - 1) as u16) as int,
            image_word(image, n - 1),
        )
    }
}

/// Loading a program image places each body word at its own address —
/// word `j` at `origin + j`, wrapping — and leaves every other word of
/// the store as it was.
pub proof fn lemma_store_words_addresses(mem: Seq<u16>, image: Seq<u8>, origin: u16, n: nat)
    requires
        mem.len() == MEM_WORDS,
        n <= MEM_WORDS,
    ensures
        store_words(mem, image, origin, n).len() == mem.len(),
        forall|j: int|
            0 <= j < n ==> store_words(mem, image, origin, n)[wadd(origin, j as u16) as int]
                == image_word(image, j),
        forall|a: int|
            0 <= a < MEM_WORDS && (forall|j: int|
                0 <= j < n ==> #[trigger] wadd(origin, j as u16) != a) ==> store_words(
                mem,
                image,
                origin,
                n,
            )[a] == mem[a],
    decreases n,
{
    if n > 0 {
        lemma_store_words_addresses(mem, image, origin, (n - 1) as nat);
        assert forall|j: int, l: int|
            0 <= j < MEM_WORDS && 0 <= l < MEM_WORDS && j != l implies #[trigger] wadd(
            origin,
            j as u16,
        ) != #[trigger] wadd(origin, l as u16) by {
            assert(wadd(origin, j as u16) == (origin + j) % 0x10000);
            assert(wadd(origin, l as u16) == (origin + l) % 0x10000);
        }
    }
}

/// A three-bit register field of an instruction word, shifted down from
/// bit `sh`.
fn reg_field(instr: u16, sh: u16) -> (r: u16)
    requires
        sh <= 12,
    ensures
        r == (instr >> sh) & 7,
        r < 8,
{
    let r: u16 = (instr >> sh) & 7;
    proof {
        assert((instr >> sh) & 7 < 8) by (bit_vector);
    }
    r
}

/// Remove the `k` consumed characters from the front of the input
/// queue.
fn drain_input(input: &mut Vec<u16>, k: usize)
    requires
        k <= old(input)@.len(),
    ensures
        final(input)@ == old(input)@.skip(k as int),
{
    let mut i: usize = 0;
    while i < k
        invariant
            i <= k,
            k <= old(input)@.len(),
            input@ == old(input)@.skip(i as int),
        decreases k - i,
    {
        input.remove(0);
        i = i + 1;
        proof {
            assert(input@ =~= old(input)@.skip(i as int));
        }
    }
}

/// The machine: register file, address space, program counter and
/// processor status word. Fields are plain data; the invariant is
/// [`Cpu::wf`].
pub struct Cpu {
    pub registers: Vec<u16>,
    pub memory: Memory,
    pub pc: u16,
    pub psr: u16,
}

impl View for Cpu {
    type V = VmState;

    open spec fn view(&self) -> VmState {
        VmState { regs: self.registers@, mem: self.memory@, pc: self.pc, psr: self.psr }
    }
}

impl Cpu {
    /// Eight registers and a full address space.
    pub open spec fn wf(&self) -> bool {
        self.registers@.len() == 8 && self.memory.wf()
    }

    /// A fresh machine: registers and memory all zero, the program
    /// counter at the default entry point, no condition code set yet.
    pub fn new() -> (r: Cpu)
        ensures
            r.wf(),
            r@.regs == Seq::<u16>::new(8, |i: int| 0u16),
            r@.mem == Seq::<u16>::new(MEM_WORDS as nat, |i: int| 0u16),
            r@.pc == PC_START,
            r@.psr == 0,
    {
        let mut registers: Vec<u16> = Vec::new();
        while registers.len() < 8
            invariant
                registers@.len() <= 8,
                forall|i: int| 0 <= i < registers@.len() ==> registers@[i] == 0u16,
            decreases 8 - registers@.len(),
        {
            registers.push(0u16);
        }
        proof {
            assert(registers@ =~= Seq::<u16>::new(8, |i: int| 0u16));
        }
        Cpu { registers, memory: Memory::new(), pc: PC_START, psr: 0 }
    }

    /// Sign-extend the low `bits` bits of `value` to 16 bits.
    pub fn sext(&self, value: u16, bits: u8) -> (r: u16)
        requires
            1 <= bits <= 16,
        ensures
            r == sext_spec(value, bits as u16),
    {
        if bits >= 16 {
            value
        } else {
            let b: u16 = bits as u16;
            if (value >> (b - 1)) & 1 != 0 {
                value | (0xffffu16 << b)
            } else {
                value
            }
        }
    }

    /// Load a program image: the first two bytes are the big-endian
    /// origin address, the rest big-endian words stored from the origin
    /// on (wrapping around the address space). The program counter is
    /// set to the origin; registers and status word are untouched.
    pub fn load_image(&mut self, image: &Vec<u8>)
        requires
            old(self).wf(),
            image@.len() >= 2,
            image@.len() % 2 == 0,
            image@.len() <= 2 + 2 * MEM_WORDS,
        ensures
            final(self).wf(),
            final(self)@.pc == image_origin(image@),
            final(self)@.regs == old(self)@.regs,
            final(self)@.psr == old(self)@.psr,
            final(self)@.mem == store_words(
                old(self)@.mem,
                image@,
                image_origin(image@),
                ((image@.len() - 2) / 2) as nat,
            ),
    {
        let origin: u16 = (image[0] as u16) * 256 + (image[1] as u16);
        self.pc = origin;
        let n: usize = (image.len() - 2) / 2;
        let mut i: usize = 0;
        while i < n
            invariant
                self.wf(),
                i <= n,
                n == (image@.len() - 2) / 2,
                image@.len() >= 2,
                image@.len() <= 2 + 2 * MEM_WORDS,
                origin == image_origin(image@),
                self.pc == origin,
                self.registers@ == old(self)@.regs,
                self.psr == old(self)@.psr,
                self.memory@ == store_words(old(self)@.mem, image@, origin, i as nat),
            decreases n - i,
        {
            let hi: u8 = image[2 + 2 * i];
            let lo: u8 = image[3 + 2 * i];
            let w: u16 = (hi as u16) * 256 + (lo as u16);
            self.memory.write(origin.wrapping_add(i as u16), w);
            i = i + 1;
        }
    }

    /// One word read with device interception, drawing on the injected
    /// input `input` of which `k` characters are already spoken for.
    /// `None` means the read landed on the device data address and no
    /// input is left.
    fn read_with(&self, input: &Vec<u16>, k: usize, addr: u16) -> (r: Option<(u16, usize)>)
        requires
            self.wf(),
            k <= input@.len(),
        ensures
            (r is None) == (read_at(self@.mem, input@, k as nat, addr) is None),
            r matches Some(p) ==> read_at(self@.mem, input@, k as nat, addr) == Some(
                (p.0, p.1 as nat),
            ) && k <= p.1 <= input@.len(),
    {
        if addr == KBDR {
            if k < input.len() {
                Some((input[k], k + 1))
            } else {
                None
            }
        } else {
            Some((self.memory.read(addr), k))
        }
    }

    /// The PUTS walk of [`puts_walk`], appending the emitted bytes to
    /// `out`. `None` reports exhausted input; `out` then holds an
    /// incomplete prefix the caller discards.
    fn puts_run(&self, input: &Vec<u16>, k: usize, addr: u16, fuel: usize, out: &mut Vec<u8>) -> (r:
        Option<usize>)
        requires
            self.wf(),
            k <= input@.len(),
        ensures
            (r is None) == (puts_walk(self@.mem, input@, k as nat, addr, fuel as nat) is None),
            r matches Some(k2) ==> (puts_walk(self@.mem, input@, k as nat, addr, fuel as nat)
                matches Some(p) && final(out)@ == old(out)@ + p.0 && k2 as nat == p.1 && k <= k2
                <= input@.len()),
        decreases fuel,
    {
        if fuel == 0 {
            proof {
                assert(old(out)@ + Seq::<u8>::empty() =~= old(out)@);
            }
            return Some(k);
        }
        match self.read_with(input, k, addr) {
            None => None,
            Some(p) => {
                let c: u16 = p.0;
                let k2: usize = p.1;
                if c == 0 {
                    proof {
                        assert(old(out)@ + Seq::<u8>::empty() =~= old(out)@);
                    }
                    Some(k2)
                } else {
                    out.push((c & 0xff) as u8);
                    let r = self.puts_run(input, k2, addr.wrapping_add(1), fuel - 1, out);
                    proof {
                        match puts_walk(
                            self@.mem,
                            input@,
                            k2 as nat,
                            wadd(addr, 1),
                            (fuel - 1) as nat,
                        ) {
                            Some(q) => {
                                assert(old(out)@ + (seq![(c & 0xff) as u8] + q.0) =~= (old(out)@
                                    + seq![(c & 0xff) as u8]) + q.0);
                            },
                            None => {},
                        }
                    }
                    r
                }
            },
        }
    }

    /// The PUTSP walk of [`putsp_walk`], appending the emitted bytes to
    /// `out`, as [`Cpu::puts_run`] does for PUTS.
    fn putsp_run(
        &self,
        input: &Vec<u16>,
        k: usize,
        addr: u16,
        fuel: usize,
        out: &mut Vec<u8>,
    ) -> (r: Option<usize>)
        requires
            self.wf(),
            k <= input@.len(),
        ensures
            (r is None) == (putsp_walk(self@.mem, input@, k as nat, addr, fuel as nat) is None),
            r matches Some(k2) ==> (putsp_walk(self@.mem, input@, k as nat, addr, fuel as nat)
                matches Some(p) && final(out)@ == old(out)@ + p.0 && k2 as nat == p.1 && k <= k2
                <= input@.len()),
        decreases fuel,
    {
        if fuel == 0 {
            proof {
                assert(old(out)@ + Seq::<u8>::empty() =~= old(out)@);
            }
            return Some(k);
        }
        match self.read_with(input, k, addr) {
            None => None,
            Some(p) => {
                let c: u16 = p.0;
                let k2: usize = p.1;
                if c == 0 {
                    proof {
                        assert(old(out)@ + Seq::<u8>::empty() =~= old(out)@);
                    }
                    Some(k2)
                } else {
                    let lo: u8 = (c & 0xff) as u8;
                    let hi: u8 = (c >> 8) as u8;
                    let ghost here = (if lo != 0 {
                        seq![lo]
                    } else {
                        Seq::<u8>::empty()
                    }) + (if hi != 0 {
                        seq![hi]
                    } else {
                        Seq::<u8>::empty()
                    });
                    if lo != 0 {
                        out.push(lo);
                    }
                    if hi != 0 {
                        out.push(hi);
                    }
                    proof {
                        assert(out@ =~= old(out)@ + here);
                    }
                    let r = self.putsp_run(input, k2, addr.wrapping_add(1), fuel - 1, out);
                    proof {
                        match putsp_walk(
                            self@.mem,
                            input@,
                            k2 as nat,
                            wadd(addr, 1),
                            (fuel - 1) as nat,
                        ) {
                            Some(q) => {
                                assert(old(out)@ + (here + q.0) =~= (old(out)@ + here) + q.0);
                            },
                            None => {},
                        }
                    }
                    r
                }
            },
        }
    }

    /// Replace the low three bits of the status word by the condition
    /// codes of `value`.
    pub fn setcc(&mut self, value: u16)
        ensures
            final(self)@ == (VmState { psr: set_cc(old(self).psr, value), ..old(self)@ }),
            final(self).wf() == old(self).wf(),
    {
        let cc: u16 = if value == 0 {
            2
        } else if value >= 0x8000 {
            4
        } else {
            1
        };
        self.psr = (self.psr & 0xfff8) | cc;
    }

    /// One fetch/decode/execute cycle, exactly [`spec_step`]: fetch the
    /// word at the program counter, advance the counter, execute.
    ///
    /// `input` is the queue of injected input characters; consumed ones
    /// are removed from its front. Emitted bytes are appended to
    /// `output`. When the cycle would consume a character the queue
    /// does not hold, nothing changes and the report is
    /// [`StepResult::NeedInput`]: refill the queue and call again.
    pub fn step(&mut self, input: &mut Vec<u16>, output: &mut Vec<u8>) -> (r: StepResult)
        requires
            old(self).wf(),
        ensures
            final(self).wf(),
            ({
                let sp = spec_step(old(self)@, old(input)@);
                r == sp.result && final(self)@ == sp.state && final(input)@ == old(
                    input,
                )@.skip(sp.consumed as int) && final(output)@ == old(output)@ + sp.out
            }),
    {
        proof {
            assert(old(output)@ + Seq::<u8>::empty() =~= old(output)@);
            assert(old(input)@.skip(0) =~= old(input)@);
        }
        let fetched = self.read_with(input, 0, self.pc);
        let (instr, k1): (u16, usize) = match fetched {
            None => {
                return StepResult::NeedInput;
            },
            Some(p) => p,
        };
        let pc1: u16 = self.pc.wrapping_add(1);
        let opcode: u16 = instr >> 12;

        if opcode == opcodes::ADD || opcode == opcodes::AND {
            let dr: u16 = reg_field(instr, 9);
            let sr1: u16 = reg_field(instr, 6);
            let a: u16 = self.registers[sr1 as usize];
            let b: u16 = if (instr >> 5) & 1 == 0 {
                let sr2: u16 = instr & 7;
                proof {
                    assert(instr & 7 < 8) by (bit_vector);
                }
                self.registers[sr2 as usize]
            } else {
                self.sext(instr & 0x1f, 5)
            };
            let v: u16 = if opcode == opcodes::ADD {
                a.wrapping_add(b)
            } else {
                a & b
            };
            self.registers[dr as usize] = v;
            self.pc = pc1;
            self.setcc(v);
            drain_input(input, k1);
            StepResult::Continue
        } else if opcode == opcodes::NOT {
            let dr: u16 = reg_field(instr, 9);
            let sr: u16 = reg_field(instr, 6);
            let v: u16 = !self.registers[sr as usize];
            self.registers[dr as usize] = v;
            self.pc = pc1;
            self.setcc(v);
            drain_input(input, k1);
            StepResult::Continue
        } else if opcode == opcodes::BR {
            let cond: u16 = reg_field(instr, 9) & (self.psr & 7);
            if cond != 0 {
                self.pc = pc1.wrapping_add(self.sext(instr & 0x1ff, 9));
            } else {
                self.pc = pc1;
            }
            drain_input(input, k1);
            StepResult::Continue
        } else if opcode == opcodes::JMP {
            let base: u16 = reg_field(instr, 6);
            self.pc = self.registers[base as usize];
            drain_input(input, k1);
            StepResult::Continue
        } else if opcode == opcodes::JSR {
            self.registers[7] = pc1;
            if (instr >> 11) & 1 == 0 {
                let base: u16 = reg_field(instr, 6);
                self.pc = self.registers[base as usize];
            } else {
                self.pc = pc1.wrapping_add(self.sext(instr & 0x7ff, 11));
            }
            drain_input(input, k1);
            StepResult::Continue
        } else if opcode == opcodes::LD {
            let dr: u16 = reg_field(instr, 9);
            let addr: u16 = pc1.wrapping_add(self.sext(instr & 0x1ff, 9));
            match self.read_with(input, k1, addr) {
                None => StepResult::NeedInput,
                Some(p) => {
                    let v: u16 = p.0;
                    let k2: usize = p.1;
                    self.registers[dr as usize] = v;
                    self.pc = pc1;
                    self.setcc(v);
                    drain_input(input, k2);
                    StepResult::Continue
                },
            }
        } else if opcode == opcodes::LDI {
            let dr: u16 = reg_field(instr, 9);
            let addr: u16 = pc1.wrapping_add(self.sext(instr & 0x1ff, 9));
            match self.read_with(input, k1, addr) {
                None => StepResult::NeedInput,
                Some(p) => {
                    let ptr: u16 = p.0;
                    let k2: usize = p.1;
                    match self.read_with(input, k2, ptr) {
                        None => StepResult::NeedInput,
                        Some(q) => {
                            let v: u16 = q.0;
                            let k3: usize = q.1;
                            self.registers[dr as usize] = v;
                            self.pc = pc1;
                            self.setcc(v);
                            drain_input(input, k3);
                            StepResult::Continue
                        },
                    }
                },
            }
        } else if opcode == opcodes::LDR {
            let dr: u16 = reg_field(instr, 9);
            let base: u16 = reg_field(instr, 6);
            let addr: u16 = self.registers[base as usize].wrapping_add(
                self.sext(instr & 0x3f, 6),
            );
            match self.read_with(input, k1, addr) {
                None => StepResult::NeedInput,
                Some(p) => {
                    let v: u16 = p.0;
                    let k2: usize = p.1;
                    self.registers[dr as usize] = v;
                    self.pc = pc1;
                    self.setcc(v);
                    drain_input(input, k2);
                    StepResult::Continue
                },
            }
        } else if opcode == opcodes::LEA {
            let dr: u16 = reg_field(instr, 9);
            let v: u16 = pc1.wrapping_add(self.sext(instr & 0x1ff, 9));
            self.registers[dr as usize] = v;
            self.pc = pc1;
            self.setcc(v);
            drain_input(input, k1);
            StepResult::Continue
        } else if opcode == opcodes::ST {
            let sr: u16 = reg_field(instr, 9);
            let addr: u16 = pc1.wrapping_add(self.sext(instr & 0x1ff, 9));
            let v: u16 = self.registers[sr as usize];
            self.memory.write(addr, v);
            self.pc = pc1;
            drain_input(input, k1);
            StepResult::Continue
        } else if opcode == opcodes::STI {
            let sr: u16 = reg_field(instr, 9);
            let addr: u16 = pc1.wrapping_add(self.sext(instr & 0x1ff, 9));
            match self.read_with(input, k1, addr) {
                None => StepResult::NeedInput,
                Some(p) => {
                    let ptr: u16 = p.0;
                    let k2: usize = p.1;
                    let v: u16 = self.registers[sr as usize];
                    self.memory.write(ptr, v);
                    self.pc = pc1;
                    drain_input(input, k2);
                    StepResult::Continue
                },
            }
        } else if opcode == opcodes::STR {
            let sr: u16 = reg_field(instr, 9);
            let base: u16 = reg_field(instr, 6);
            let addr: u16 = self.registers[base as usize].wrapping_add(
                self.sext(instr & 0x3f, 6),
            );
            let v: u16 = self.registers[sr as usize];
            self.memory.write(addr, v);
            self.pc = pc1;
            drain_input(input, k1);
            StepResult::Continue
        } else if opcode == opcodes::RTI {
            self.pc = pc1;
            drain_input(input, k1);
            StepResult::Fatal(Fault::Rti)
        } else if opcode == opcodes::TRAP {
            self.step_trap(instr, pc1, k1, input, output)
        } else {
            self.pc = pc1;
            drain_input(input, k1);
            StepResult::UnknownOpcode
        }
    }

    /// The TRAP part of [`Cpu::step`]: store the return address in
    /// register 7 and dispatch on the vector, exactly [`exec_trap`]
    /// composed into [`spec_step`].
    fn step_trap(
        &mut self,
        instr: u16,
        pc1: u16,
        k1: usize,
        input: &mut Vec<u16>,
        output: &mut Vec<u8>,
    ) -> (r: StepResult)
        requires
            old(self).wf(),
            k1 <= old(input)@.len(),
            instr >> 12 == opcodes::TRAP,
            pc1 == wadd(old(self).pc, 1),
            read_at(old(self)@.mem, old(input)@, 0, old(self).pc) == Some((instr, k1 as nat)),
        ensures
            final(self).wf(),
            ({
                let sp = spec_step(old(self)@, old(input)@);
                r == sp.result && final(self)@ == sp.state && final(input)@ == old(
                    input,
                )@.skip(sp.consumed as int) && final(output)@ == old(output)@ + sp.out
            }),
    {
        proof {
            assert(old(output)@ + Seq::<u8>::empty() =~= old(output)@);
            assert(old(input)@.skip(0) =~= old(input)@);
        }
        let ghost s0 = self@;
        let ghost inp0 = input@;
        let trapvect: u16 = instr & 0xff;
        if trapvect == 0x20 {
            // GETC
            if k1 < input.len() {
                let c: u16 = input[k1];
                self.registers[7] = pc1;
                self.registers[0] = c;
                self.pc = pc1;
                drain_input(input, k1 + 1);
                StepResult::Continue
            } else {
                StepResult::NeedInput
            }
        } else if trapvect == 0x21 {
            // OUT
            self.registers[7] = pc1;
            self.pc = pc1;
            let b: u8 = (self.registers[0] & 0xff) as u8;
            let ghost out0 = output@;
            output.push(b);
            proof {
                assert(output@ =~= out0 + seq![b]);
            }
            drain_input(input, k1);
            StepResult::Continue
        } else if trapvect == 0x22 {
            // PUTS
            let start: u16 = self.registers[0];
            let mut buf: Vec<u8> = Vec::new();
            match self.puts_run(input, k1, start, MEM_WORDS, &mut buf) {
                None => StepResult::NeedInput,
                Some(k2) => {
                    self.registers[7] = pc1;
                    self.pc = pc1;
                    proof {
                        match puts_walk(s0.mem, inp0, k1 as nat, start, MEM_WORDS as nat) {
                            Some(p) => {
                                assert(Seq::<u8>::empty() + p.0 =~= p.0);
                            },
                            None => {},
                        }
                    }
                    output.append(&mut buf);
                    drain_input(input, k2);
                    StepResult::Continue
                },
            }
        } else if trapvect == 0x23 {
            // IN
            if k1 < input.len() {
                let c: u16 = input[k1];
                self.registers[7] = pc1;
                self.registers[0] = c;
                self.pc = pc1;
                let ghost out0 = output@;
                output.push(10);
                output.push(32);
                output.push(62);
                output.push(32);
                output.push((c & 0xff) as u8);
                proof {
                    assert(output@ =~= out0 + (prompt_bytes() + seq![(c & 0xff) as u8]));
                }
                drain_input(input, k1 + 1);
                StepResult::Continue
            } else {
                StepResult::NeedInput
            }
        } else if trapvect == 0x24 {
            // PUTSP
            let start: u16 = self.registers[0];
            let mut buf: Vec<u8> = Vec::new();
            match self.putsp_run(input, k1, start, MEM_WORDS, &mut buf) {
                None => StepResult::NeedInput,
                Some(k2) => {
                    self.registers[7] = pc1;
                    self.pc = pc1;
                    proof {
                        match putsp_walk(s0.mem, inp0, k1 as nat, start, MEM_WORDS as nat) {
                            Some(p) => {
                                assert(Seq::<u8>::empty() + p.0 =~= p.0);
                            },
                            None => {},
                        }
                    }
                    output.append(&mut buf);
                    drain_input(input, k2);
                    StepResult::Continue
                },
            }
        } else if trapvect == 0x25 {
            // HALT
            self.registers[7] = pc1;
            self.pc = pc1;
            drain_input(input, k1);
            StepResult::Halt
        } else {
            self.registers[7] = pc1;
            self.pc = pc1;
            drain_input(input, k1);
            StepResult::Fatal(Fault::UnknownTrap(trapvect))
        }
    }
}

/// The mask of a `bits`-wide field: `bits` ones.
pub open spec fn field_mask(bits: u16) -> u16 {
    0xffffu16 >> ((16 - bits) as u16)
}

/// Sign extension is faithful: a field value of width `bits`, extended
/// to 16 bits and read as a signed word, denotes exactly the
/// two's-complement reading of the field — itself when the field's
/// sign bit is clear, itself minus 2^`bits` when set.
pub proof fn lemma_sext_signed(value: u16, bits: u16)
    requires
        1 <= bits <= 16,
        value <= field_mask(bits),
    ensures
        signed16(sext_spec(value, bits)) == if (value >> (bits - 1)) & 1 == 0 {
            value as int
        } else {
            value - (field_mask(bits) + 1)
        },
{
    if bits == 16 {
        assert((value >> 15) & 1 == 0 <==> value < 0x8000) by (bit_vector);
        assert(0xffffu16 >> ((16 - 16) as u16) == 0xffffu16) by (bit_vector);
    } else if (value >> (bits - 1)) & 1 == 0 {
        assert(value < 0x8000) by (bit_vector)
            requires
                1 <= bits && bits <= 15 && value <= 0xffffu16 >> ((16 - bits) as u16),
        ;
    } else {
        let e: u16 = sext_spec(value, bits);
        assert(e == (value | (0xffffu16 << bits)));
        assert(e >= 0x8000 && e + ((0xffffu16 >> ((16 - bits) as u16)) + 1) == value + 0x10000)
            by (bit_vector)
            requires
                1 <= bits && bits <= 15 && value <= 0xffffu16 >> ((16 - bits) as u16) && e == (
                value | (0xffffu16 << bits)),
        ;
    }
}

/// An instruction word in register mode: opcode, destination, first
/// source, second source, bit 5 clear.
pub open spec fn word_rrr(op: u16, dr: u16, sr1: u16, sr2: u16) -> u16 {
    (op * 0x1000 + dr * 0x200 + sr1 * 0x40 + sr2) as u16
}

/// An instruction word in immediate mode: opcode, destination, first
/// source, bit 5 set, five-bit immediate.
pub open spec fn word_rri(op: u16, dr: u16, sr1: u16, imm5: u16) -> u16 {
    (op * 0x1000 + dr * 0x200 + sr1 * 0x40 + 0x20 + imm5) as u16
}

/// An instruction word with a register field and a nine-bit offset.
pub open spec fn word_ro9(op: u16, dr: u16, off9: u16) -> u16 {
    (op * 0x1000 + dr * 0x200 + off9) as u16
}

/// Decoding recovers the fields of a register-mode word.
proof fn lemma_decode_rrr(op: u16, dr: u16, sr1: u16, sr2: u16)
    requires
        op < 16,
        dr < 8,
        sr1 < 8,
        sr2 < 8,
    ensures
        word_rrr(op, dr, sr1, sr2) >> 12 == op,
        dr_of(word_rrr(op, dr, sr1, sr2)) == dr,
        sr1_of(word_rrr(op, dr, sr1, sr2)) == sr1,
        sr2_of(word_rrr(op, dr, sr1, sr2)) == sr2,
        (word_rrr(op, dr, sr1, sr2) >> 5) & 1 == 0,
{
    let w: u16 = word_rrr(op, dr, sr1, sr2);
    assert(w >> 12 == op && (w >> 9) & 7 == dr && (w >> 6) & 7 == sr1 && w & 7 == sr2 && (w >> 5)
        & 1 == 0) by (bit_vector)
        requires
            op < 16 && dr < 8 && sr1 < 8 && sr2 < 8 && w == (op * 0x1000 + dr * 0x200 + sr1 * 0x40
                + sr2) as u16,
    ;
}

/// Decoding recovers the fields of an immediate-mode word.
proof fn lemma_decode_rri(op: u16, dr: u16, sr1: u16, imm5: u16)
    requires
        op < 16,
        dr < 8,
        sr1 < 8,
        imm5 < 32,
    ensures
        word_rri(op, dr, sr1, imm5) >> 12 == op,
        dr_of(word_rri(op, dr, sr1, imm5)) == dr,
        sr1_of(word_rri(op, dr, sr1, imm5)) == sr1,
        word_rri(op, dr, sr1, imm5) & 0x1f == imm5,
        (word_rri(op, dr, sr1, imm5) >> 5) & 1 == 1,
{
    let w: u16 = word_rri(op, dr, sr1, imm5);
    assert(w >> 12 == op && (w >> 9) & 7 == dr && (w >> 6) & 7 == sr1 && w & 0x1f == imm5 && (w
        >> 5) & 1 == 1) by (bit_vector)
        requires
            op < 16 && dr < 8 && sr1 < 8 && imm5 < 32 && w == (op * 0x1000 + dr * 0x200 + sr1
                * 0x40 + 0x20 + imm5) as u16,
    ;
}

/// Decoding recovers the fields of a word with a nine-bit offset.
proof fn lemma_decode_ro9(op: u16, dr: u16, off9: u16)
    requires
        op < 16,
        dr < 8,
        off9 < 0x200,
    ensures
        word_ro9(op, dr, off9) >> 12 == op,
        dr_of(word_ro9(op, dr, off9)) == dr,
        word_ro9(op, dr, off9) & 0x1ff == off9,
{
    let w: u16 = word_ro9(op, dr, off9);
    assert(w >> 12 == op && (w >> 9) & 7 == dr && w & 0x1ff == off9) by (bit_vector)
        requires
            op < 16 && dr < 8 && off9 < 0x200 && w == (op * 0x1000 + dr * 0x200 + off9) as u16,
    ;
}

/// Register mode and immediate mode of ADD and AND agree: when the
/// second source register holds the sign-extended immediate, the two
/// encodings have exactly the same effect.
pub proof fn lemma_operate_mode_agreement(
    s: VmState,
    inp: Seq<u16>,
    k: nat,
    op: u16,
    dr: u16,
    sr1: u16,
    sr2: u16,
    imm5: u16,
)
    requires
        state_wf(s),
        op == opcodes::ADD || op == opcodes::AND,
        dr < 8,
        sr1 < 8,
        sr2 < 8,
        imm5 < 32,
        s.regs[sr2 as int] == sext_spec(imm5, 5),
    ensures
        exec_instr(s, word_rrr(op, dr, sr1, sr2), inp, k) == exec_instr(
            s,
            word_rri(op, dr, sr1, imm5),
            inp,
            k,
        ),
{
    lemma_decode_rrr(op, dr, sr1, sr2);
    lemma_decode_rri(op, dr, sr1, imm5);
}

/// LDI reads through two levels of indirection: with the offset
/// resolving to a plain address A holding a pointer P, itself a plain
/// address, the destination receives the word at P and the condition
/// codes follow it.
pub proof fn lemma_ldi_double_indirection(s: VmState, inp: Seq<u16>, k: nat, dr: u16, off9: u16)
    requires
        state_wf(s),
        dr < 8,
        off9 < 0x200,
        wadd(s.pc, sext_spec(off9, 9)) != KBSR,
        wadd(s.pc, sext_spec(off9, 9)) != KBDR,
        s.mem[wadd(s.pc, sext_spec(off9, 9)) as int] != KBSR,
        s.mem[wadd(s.pc, sext_spec(off9, 9)) as int] != KBDR,
    ensures
        ({
            let a = wadd(s.pc, sext_spec(off9, 9));
            let x = s.mem[s.mem[a as int] as int];
            exec_instr(s, word_ro9(opcodes::LDI, dr, off9), inp, k) == step_done(
                write_reg_cc(s, dr, x),
                k,
            )
        }),
{
    lemma_decode_ro9(opcodes::LDI, dr, off9);
}

/// After JSR or JSRR, register 7 holds the address of the instruction
/// immediately following the call: the program counter as it stood
/// after the fetch, before the jump.
pub proof fn lemma_jsr_link(s: VmState, instr: u16, inp: Seq<u16>, k: nat)
    requires
        state_wf(s),
        instr >> 12 == opcodes::JSR,
    ensures
        exec_instr(s, instr, inp, k).state.regs[7] == s.pc,
        exec_instr(s, instr, inp, k).result == StepResult::Continue,
{
}

/// The dispatch table has a single gap: the engine reports an unknown
/// opcode exactly for words whose top four bits are 13, the one number
/// [`opcodes::opcode_defined`] excludes.
pub proof fn lemma_dispatch_no_gaps(s: VmState, instr: u16, inp: Seq<u16>, k: nat)
    ensures
        (exec_instr(s, instr, inp, k).result == StepResult::UnknownOpcode) <==> instr >> 12 == 13,
        opcodes::opcode_defined(instr >> 12) <==> instr >> 12 != 13,
{
    assert(instr >> 12 < 16) by (bit_vector);
}

} // verus!

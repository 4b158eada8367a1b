//! The golden processor's five-stage pipeline, as the comparison tracks it:
//! which instruction (if any) each stage holds.

use vstd::prelude::*;
use vstd::string::StringExecFns;
use crate::disasm::{
    ascii_bytes, disassemble, disassembly, hex_capacity, hex_digits, law_hex_digits_read_back,
    push_hex_digits,
};
use crate::text::hex_value;
use crate::instruction::Instruction;

verus! {

/// What one pipeline stage holds: the program counter of its instruction, and
/// the instruction, or `None` for a bubble.
#[derive(Clone, Copy, Debug)]
pub struct StageState {
    pub pc: u32,
    pub instr: Option<Instruction>,
}

/// The empty stage: a bubble at address zero.
pub open spec fn bubble() -> StageState {
    StageState { pc: 0, instr: None }
}

impl Default for StageState {
    fn default() -> (r: StageState)
        ensures
            r == bubble(),
    {
        StageState { pc: 0, instr: None }
    }
}

/// What a stage shows when printed: `(Bubble)`, or its program counter in
/// eight hexadecimal digits and its instruction in assembly.
pub open spec fn stage_text(s: StageState) -> Seq<char> {
    match s.instr {
        Some(i) => "PC: "@ + hex_digits(s.pc as nat, 8) + " -> Inst: "@ + disassembly(i@),
        None => "(Bubble)"@,
    }
}

impl StageState {
    /// The stage as printed, such as `PC: 010000c0 -> Inst: addi x3, x0, 10`.
    pub fn dis(&self) -> (r: String)
        ensures
            r@ == stage_text(*self),
    {
        match &self.instr {
            Some(i) => {
                let mut s = String::from_str("PC: ");
                push_hex_digits(&mut s, self.pc, 8);
                s.append(" -> Inst: ");
                let d = disassemble(i);
                s.append(d.as_str());
                s
            },
            None => String::from_str("(Bubble)"),
        }
    }

    /// Whether the stage holds no instruction.
    pub fn is_bubble(&self) -> (r: bool)
        ensures
            r == self.instr.is_none(),
    {
        self.instr.is_none()
    }
}

/// The five stages, fetch to writeback.
#[derive(Clone, Copy, Debug)]
pub struct Pipeline {
    pub f: StageState,
    pub d: StageState,
    pub e: StageState,
    pub m: StageState,
    pub w: StageState,
}

/// The pipeline with every stage empty.
pub open spec fn empty_pipeline() -> Pipeline {
    Pipeline { f: bubble(), d: bubble(), e: bubble(), m: bubble(), w: bubble() }
}

/// One clock edge: every instruction moves one stage on, the one in
/// writeback leaves, and fetch becomes empty.
pub open spec fn clocked(p: Pipeline) -> Pipeline {
    Pipeline { f: bubble(), d: p.f, e: p.d, m: p.e, w: p.m }
}

impl Default for Pipeline {
    fn default() -> (r: Pipeline)
        ensures
            r == empty_pipeline(),
    {
        Pipeline {
            f: StageState::default(),
            d: StageState::default(),
            e: StageState::default(),
            m: StageState::default(),
            w: StageState::default(),
        }
    }
}

impl Pipeline {
    /// Advances the pipeline by one clock cycle.
    pub fn clock(&mut self)
        ensures
            *final(self) == clocked(*old(self)),
    {
        self.w = self.m;
        self.m = self.e;
        self.e = self.d;
        self.d = self.f;
        self.f = StageState::default();
    }
}

/// A stage holding an instruction is printed as `PC: `, then its program
/// counter in eight lower-case hexadecimal digits that read back as the
/// program counter, then ` -> Inst: ` and the instruction's assembly.
pub proof fn law_stage_text_shows_pc(s: StageState)
    requires
        s.instr is Some,
    ensures
        stage_text(s).subrange(0, 4) == "PC: "@,
        hex_value(ascii_bytes(stage_text(s).subrange(4, 12))) == Some(s.pc as int),
        forall|j: int|
            4 <= j < 12 ==> ('0' <= #[trigger] stage_text(s)[j] <= '9') || ('a' <= stage_text(
                s,
            )[j] <= 'f'),
        stage_text(s).subrange(12, 22) == " -> Inst: "@,
        stage_text(s).subrange(22, stage_text(s).len() as int) == disassembly(s.instr->0@),
{
    reveal_strlit("PC: ");
    reveal_strlit(" -> Inst: ");
    reveal_with_fuel(hex_capacity, 9);
    assert(hex_capacity(8) == 0x1_0000_0000);
    law_hex_digits_read_back(s.pc as nat, 8);
    let t = stage_text(s);
    let digits = hex_digits(s.pc as nat, 8);
    assert(t == "PC: "@ + digits + " -> Inst: "@ + disassembly(s.instr->0@));
    assert(t.subrange(0, 4) =~= "PC: "@);
    assert(t.subrange(4, 12) =~= digits);
    assert(t.subrange(12, 22) =~= " -> Inst: "@);
    assert(t.subrange(22, t.len() as int) =~= disassembly(s.instr->0@));
    assert forall|j: int| 4 <= j < 12 implies ('0' <= #[trigger] t[j] <= '9') || ('a' <= t[j]
        <= 'f') by {
        assert(t[j] == digits[j - 4]);
    }
}

} // verus!

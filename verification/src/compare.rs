//! Line-by-line comparison of a trace against a golden trace. A field is
//! compared only where the instruction in the matching stage of the golden
//! pipeline uses it; every other field is a "don't care" value.

use vstd::prelude::*;
use vstd::string::StringExecFns;
use crate::instruction::{
    format_has_funct3, format_has_funct7, format_has_rd, format_has_rs1, format_has_rs2,
    format_has_shamt, format_of, funct3_bits, funct7_bits, imm_of, opcode_bits, rd_bits, rs1_bits,
    rs2_bits, Format, Instruction,
};
use crate::pipeline::{clocked, empty_pipeline, Pipeline, StageState};
use crate::trace::{
    DecodeLine, ExecuteLine, MemoryLine, ParsedLine, RegisterLine, WritebackLine,
};

verus! {

/// A field on which the trace under test differs from the golden trace.
#[derive(Clone, Copy, Debug, PartialEq, Eq, Structural)]
pub enum Mismatch {
    Pc,
    FetchedInstr,
    Opcode,
    Rd,
    Rs1,
    Rs2,
    Funct3,
    Funct7,
    Imm,
    Shamt,
    Rs1Addr,
    Rs1Data,
    Rs2Addr,
    Rs2Data,
    AluResult,
    BranchTaken,
    ReadNotWrite,
    Address,
    AccessSize,
    MemoryWdata,
    WriteEnable,
    RdAddr,
    RdData,
    LineKinds,
}

/// What a mismatch says, without the stage it was found in.
pub open spec fn mismatch_text(m: Mismatch) -> Seq<char> {
    match m {
        Mismatch::Pc => "PCs do not match!"@,
        Mismatch::FetchedInstr => "Fetched instructions do not match!"@,
        Mismatch::Opcode => "Opcodes do not match!"@,
        Mismatch::Rd => "RDs do not match!"@,
        Mismatch::Rs1 => "RS1s do not match!"@,
        Mismatch::Rs2 => "RS2s do not match!"@,
        Mismatch::Funct3 => "Funct3s do not match!"@,
        Mismatch::Funct7 => "Funct7s do not match!"@,
        Mismatch::Imm => "IMMs do not match!"@,
        Mismatch::Shamt => "SHAMTs do not match!"@,
        Mismatch::Rs1Addr => "RS1 addresses do not match!"@,
        Mismatch::Rs1Data => "RS1 data does not match!"@,
        Mismatch::Rs2Addr => "RS2 addresses do not match!"@,
        Mismatch::Rs2Data => "RS2 data does not match!"@,
        Mismatch::AluResult => "ALU results do not match!"@,
        Mismatch::BranchTaken => "Branch taken line does not match!"@,
        Mismatch::ReadNotWrite => "Read-not-write line does not match!"@,
        Mismatch::Address => "Addresses do not match!"@,
        Mismatch::AccessSize => "Access sizes do not match!"@,
        Mismatch::MemoryWdata => "Memory write data does not match!"@,
        Mismatch::WriteEnable => "Write enable line does not match!"@,
        Mismatch::RdAddr => "RD addresses do not match!"@,
        Mismatch::RdData => "RD data does not match!"@,
        Mismatch::LineKinds => "Mismatched line types! Something is VERY wrong!"@,
    }
}

impl Mismatch {
    /// What the mismatch says, without the stage it was found in.
    pub fn text(&self) -> (r: &'static str)
        ensures
            r@ == mismatch_text(*self),
    {
        match self {
            Mismatch::Pc => "PCs do not match!",
            Mismatch::FetchedInstr => "Fetched instructions do not match!",
            Mismatch::Opcode => "Opcodes do not match!",
            Mismatch::Rd => "RDs do not match!",
            Mismatch::Rs1 => "RS1s do not match!",
            Mismatch::Rs2 => "RS2s do not match!",
            Mismatch::Funct3 => "Funct3s do not match!",
            Mismatch::Funct7 => "Funct7s do not match!",
            Mismatch::Imm => "IMMs do not match!",
            Mismatch::Shamt => "SHAMTs do not match!",
            Mismatch::Rs1Addr => "RS1 addresses do not match!",
            Mismatch::Rs1Data => "RS1 data does not match!",
            Mismatch::Rs2Addr => "RS2 addresses do not match!",
            Mismatch::Rs2Data => "RS2 data does not match!",
            Mismatch::AluResult => "ALU results do not match!",
            Mismatch::BranchTaken => "Branch taken line does not match!",
            Mismatch::ReadNotWrite => "Read-not-write line does not match!",
            Mismatch::Address => "Addresses do not match!",
            Mismatch::AccessSize => "Access sizes do not match!",
            Mismatch::MemoryWdata => "Memory write data does not match!",
            Mismatch::WriteEnable => "Write enable line does not match!",
            Mismatch::RdAddr => "RD addresses do not match!",
            Mismatch::RdData => "RD data does not match!",
            Mismatch::LineKinds => "Mismatched line types! Something is VERY wrong!",
        }
    }
}

/// The tag of the stage a line describes, such as `[W]`.
pub open spec fn stage_tag(l: ParsedLine) -> Seq<char> {
    match l {
        ParsedLine::F(_) => "[F]"@,
        ParsedLine::D(_) => "[D]"@,
        ParsedLine::R(_) => "[R]"@,
        ParsedLine::E(_) => "[E]"@,
        ParsedLine::M(_) => "[M]"@,
        ParsedLine::W(_) => "[W]"@,
    }
}

/// The message printed for a mismatch found on a line pair whose golden line
/// is `g`: the stage tag, then what the mismatch says, as in
/// `[W] Write enable line does not match!`. Mismatched line kinds belong to no
/// one stage and get no tag.
pub open spec fn mismatch_message(m: Mismatch, g: ParsedLine) -> Seq<char> {
    if m == Mismatch::LineKinds {
        mismatch_text(m)
    } else {
        stage_tag(g) + " "@ + mismatch_text(m)
    }
}

impl Mismatch {
    /// The message printed for the mismatch, found on a line pair whose golden
    /// line is `golden`.
    pub fn message(&self, golden: &ParsedLine) -> (r: String)
        ensures
            r@ == mismatch_message(*self, *golden),
    {
        if let Mismatch::LineKinds = self {
            String::from_str(self.text())
        } else {
            let tag = match golden {
                ParsedLine::F(_) => "[F]",
                ParsedLine::D(_) => "[D]",
                ParsedLine::R(_) => "[R]",
                ParsedLine::E(_) => "[E]",
                ParsedLine::M(_) => "[M]",
                ParsedLine::W(_) => "[W]",
            };
            let mut r = String::from_str(tag);
            r.append(" ");
            r.append(self.text());
            r
        }
    }
}

/// A golden-trace field that the decoder also computes.
#[derive(Clone, Copy, Debug, PartialEq, Eq, Structural)]
pub enum GoldenField {
    Rd,
    Rs1,
    Rs2,
    Funct3,
    Funct7,
    Imm,
    Shamt,
    Rs1Addr,
    Rs2Addr,
    RdAddr,
}

/// A golden-trace field next to the value the decoder gives for it. Where the
/// two differ, the golden trace (or the decoder) is wrong, and comparing stops.
#[derive(Clone, Copy, Debug, PartialEq, Eq)]
pub struct GoldenFault {
    pub field: GoldenField,
    pub golden: u32,
    pub decoded: u32,
}

/// One step of checking a line: a comparison of the two traces (the flag says
/// whether they differ), or a consistency check of the golden trace.
#[derive(Clone, Copy, Debug)]
pub enum Check {
    Compare(Mismatch, bool),
    Golden(GoldenFault),
}

/// The result of running checks in order: the mismatches found, and the
/// failed golden check at which checking stopped, if any.
pub open spec fn run(cs: Seq<Check>) -> (Seq<Mismatch>, Option<GoldenFault>)
    decreases cs.len(),
{
    if cs.len() == 0 {
        (seq![], None)
    } else {
        let prev = run(cs.drop_last());
        if prev.1 is Some {
            prev
        } else {
            match cs.last() {
                Check::Compare(m, differs) => if differs {
                    (prev.0.push(m), None)
                } else {
                    prev
                },
                Check::Golden(f) => if f.golden == f.decoded {
                    prev
                } else {
                    (prev.0, Some(f))
                },
            }
        }
    }
}

pub open spec fn checks_if(present: bool, cs: Seq<Check>) -> Seq<Check> {
    if present {
        cs
    } else {
        seq![]
    }
}

/// A field's comparison followed by the golden trace's consistency check on
/// it, where the field is present.
pub open spec fn field_pair(present: bool, m: Mismatch, differs: bool, fault: GoldenFault) -> Seq<
    Check,
> {
    checks_if(present, seq![Check::Compare(m, differs), Check::Golden(fault)])
}

/// The 32-bit two's complement pattern of a value in the range of `i32`.
pub open spec fn word_pattern(v: int) -> int {
    if v >= 0 {
        v
    } else {
        v + 0x1_0000_0000
    }
}

/// The checks of a decode line, for the instruction word `w` in decode.
pub open spec fn decode_checks(w: u32, g: DecodeLine, t: DecodeLine) -> Seq<Check> {
    let f = format_of(w);
    seq![Check::Compare(Mismatch::Pc, g.pc != t.pc)] + checks_if(
        opcode_bits(w) != 0x0f,
        seq![Check::Compare(Mismatch::Opcode, g.opcode != t.opcode)],
    ) + field_pair(
        format_has_rd(f),
        Mismatch::Rd,
        g.rd != t.rd,
        GoldenFault { field: GoldenField::Rd, golden: g.rd as u32, decoded: rd_bits(w) as u32 },
    ) + field_pair(
        format_has_rs1(f),
        Mismatch::Rs1,
        g.rs1 != t.rs1,
        GoldenFault { field: GoldenField::Rs1, golden: g.rs1 as u32, decoded: rs1_bits(w) as u32 },
    ) + field_pair(
        format_has_rs2(f),
        Mismatch::Rs2,
        g.rs2 != t.rs2,
        GoldenFault { field: GoldenField::Rs2, golden: g.rs2 as u32, decoded: rs2_bits(w) as u32 },
    ) + field_pair(
        format_has_funct3(f),
        Mismatch::Funct3,
        g.funct3 != t.funct3,
        GoldenFault {
            field: GoldenField::Funct3,
            golden: g.funct3 as u32,
            decoded: funct3_bits(w) as u32,
        },
    ) + field_pair(
        format_has_funct7(f),
        Mismatch::Funct7,
        g.funct7 != t.funct7,
        GoldenFault {
            field: GoldenField::Funct7,
            golden: g.funct7 as u32,
            decoded: funct7_bits(w) as u32,
        },
    ) + field_pair(
        imm_of(w) is Some,
        Mismatch::Imm,
        g.imm != t.imm,
        GoldenFault {
            field: GoldenField::Imm,
            golden: g.imm,
            decoded: word_pattern(imm_of(w)->0) as u32,
        },
    ) + field_pair(
        format_has_shamt(f),
        Mismatch::Shamt,
        g.shamt != t.shamt,
        GoldenFault { field: GoldenField::Shamt, golden: g.shamt as u32, decoded: rs2_bits(w) as u32 },
    )
}

/// The checks of a register-read line, for the instruction word `w` in decode.
pub open spec fn register_checks(w: u32, g: RegisterLine, t: RegisterLine) -> Seq<Check> {
    let f = format_of(w);
    checks_if(
        format_has_rs1(f),
        seq![
            Check::Compare(Mismatch::Rs1Addr, g.addr_rs1 != t.addr_rs1),
            Check::Golden(GoldenFault { field: GoldenField::Rs1Addr, golden: g.addr_rs1 as u32, decoded: rs1_bits(w) as u32 }),
            Check::Compare(Mismatch::Rs1Data, g.data_rs1 != t.data_rs1),
        ],
    ) + checks_if(
        format_has_rs2(f),
        seq![
            Check::Compare(Mismatch::Rs2Addr, g.addr_rs2 != t.addr_rs2),
            Check::Golden(GoldenFault { field: GoldenField::Rs2Addr, golden: g.addr_rs2 as u32, decoded: rs2_bits(w) as u32 }),
            Check::Compare(Mismatch::Rs2Data, g.data_rs2 != t.data_rs2),
        ],
    )
}

/// The checks of an execute line, for the instruction word `w` in execute.
pub open spec fn execute_checks(w: u32, g: ExecuteLine, t: ExecuteLine) -> Seq<Check> {
    seq![Check::Compare(Mismatch::Pc, g.pc != t.pc)] + checks_if(
        opcode_bits(w) != 0x0f && opcode_bits(w) != 0x73,
        seq![Check::Compare(Mismatch::AluResult, g.alu_result != t.alu_result)],
    ) + checks_if(
        format_of(w) == Format::B,
        seq![Check::Compare(Mismatch::BranchTaken, g.branch_taken != t.branch_taken)],
    )
}

/// The checks of a memory line, for the instruction word `w` in memory.
pub open spec fn memory_checks(w: u32, g: MemoryLine, t: MemoryLine) -> Seq<Check> {
    seq![
        Check::Compare(Mismatch::Pc, g.pc != t.pc),
        Check::Compare(Mismatch::ReadNotWrite, g.read_not_write != t.read_not_write),
    ] + checks_if(
        opcode_bits(w) == 0x03 || opcode_bits(w) == 0x23,
        seq![
            Check::Compare(Mismatch::Address, g.addr != t.addr),
            Check::Compare(Mismatch::AccessSize, g.access_size != t.access_size),
        ],
    ) + checks_if(
        format_of(w) == Format::S,
        seq![Check::Compare(Mismatch::MemoryWdata, g.memory_wdata != t.memory_wdata)],
    )
}

/// The checks of a writeback line, for the instruction word `w` in writeback.
pub open spec fn writeback_checks(w: u32, g: WritebackLine, t: WritebackLine) -> Seq<Check> {
    seq![Check::Compare(Mismatch::Pc, g.pc != t.pc)] + checks_if(
        opcode_bits(w) != 0x0f,
        seq![Check::Compare(Mismatch::WriteEnable, g.we != t.we)] + checks_if(
            format_has_rd(format_of(w)),
            seq![
                Check::Compare(Mismatch::RdAddr, g.addr_rd != t.addr_rd),
                Check::Golden(GoldenFault { field: GoldenField::RdAddr, golden: g.addr_rd as u32, decoded: rd_bits(w) as u32 }),
                Check::Compare(Mismatch::RdData, g.data_rd != t.data_rd),
            ],
        ),
    )
}

/// The checks for the stage `s`: none where it holds a bubble.
pub open spec fn stage_checks(s: StageState, cs: spec_fn(u32) -> Seq<Check>) -> Seq<Check> {
    match s.instr {
        Some(i) => cs(i@),
        None => seq![],
    }
}

/// The checks of a golden line and a line under test, made against the golden
/// pipeline `p` as it stands once the line has been taken into account.
pub open spec fn line_checks(p: Pipeline, g: ParsedLine, t: ParsedLine) -> Seq<Check> {
    match (g, t) {
        (ParsedLine::F(gl), ParsedLine::F(tl)) => seq![
            Check::Compare(Mismatch::Pc, gl.pc != tl.pc),
            Check::Compare(Mismatch::FetchedInstr, gl.instr != tl.instr),
        ],
        (ParsedLine::D(gl), ParsedLine::D(tl)) => stage_checks(p.d, |w: u32| decode_checks(w, gl, tl)),
        (ParsedLine::R(gl), ParsedLine::R(tl)) => stage_checks(p.d, |w: u32| register_checks(w, gl, tl)),
        (ParsedLine::E(gl), ParsedLine::E(tl)) => stage_checks(p.e, |w: u32| execute_checks(w, gl, tl)),
        (ParsedLine::M(gl), ParsedLine::M(tl)) => stage_checks(p.m, |w: u32| memory_checks(w, gl, tl)),
        (ParsedLine::W(gl), ParsedLine::W(tl)) => stage_checks(p.w, |w: u32| writeback_checks(w, gl, tl)),
        _ => seq![Check::Compare(Mismatch::LineKinds, true)],
    }
}

/// The golden pipeline once a pair of lines has been read: a pair of fetch
/// lines clocks it and puts the golden fetched instruction in fetch; any other
/// pair leaves it as it is.
pub open spec fn advanced(p: Pipeline, g: ParsedLine, t: ParsedLine) -> Pipeline {
    match (g, t) {
        (ParsedLine::F(gl), ParsedLine::F(_)) => Pipeline {
            f: StageState { pc: gl.pc, instr: Some(Instruction { word: gl.instr }) },
            ..clocked(p)
        },
        _ => p,
    }
}

/// `run` stops at the first failed golden check: what follows it is not looked at.
pub proof fn lemma_run_stops(cs: Seq<Check>, k: int)
    requires
        0 <= k <= cs.len(),
        run(cs.take(k)).1 is Some,
    ensures
        run(cs) == run(cs.take(k)),
    decreases cs.len(),
{
    if k < cs.len() {
        assert(cs.drop_last().take(k) =~= cs.take(k));
        lemma_run_stops(cs.drop_last(), k);
    } else {
        assert(cs.take(k) =~= cs);
    }
}

/// Running checks finds at most one mismatch per check.
pub proof fn lemma_run_len(cs: Seq<Check>)
    ensures
        run(cs).0.len() <= cs.len(),
    decreases cs.len(),
{
    if cs.len() > 0 {
        lemma_run_len(cs.drop_last());
    }
}

/// The result of checking one line.
#[derive(Debug)]
pub struct LineOutcome {
    pub errors: Vec<Mismatch>,
    pub fault: Option<GoldenFault>,
}

/// Runs checks in order, collecting the comparisons that differ and stopping
/// at the first golden check that fails.
pub fn run_checks(cs: &Vec<Check>) -> (r: LineOutcome)
    ensures
        (r.errors@, r.fault) == run(cs@),
{
    let mut errors: Vec<Mismatch> = Vec::new();
    let mut i: usize = 0;
    assert(cs@.take(0) =~= seq![]);
    while i < cs.len()
        invariant
            i <= cs.len(),
            run(cs@.take(i as int)) == (errors@, None::<GoldenFault>),
        decreases cs.len() - i,
    {
        assert(cs@.take(i + 1).drop_last() =~= cs@.take(i as int));
        match cs[i] {
            Check::Compare(m, differs) => {
                if differs {
                    errors.push(m);
                }
            },
            Check::Golden(f) => {
                if f.golden != f.decoded {
                    proof {
                        lemma_run_stops(cs@, i + 1);
                    }
                    return LineOutcome { errors, fault: Some(f) };
                }
            },
        }
        i += 1;
    }
    assert(cs@.take(i as int) =~= cs@);
    LineOutcome { errors, fault: None }
}

fn imm_word_pattern(v: i32) -> (r: u32)
    ensures
        r == word_pattern(v as int),
{
    if v >= 0 {
        v as u32
    } else {
        let p: i64 = v as i64 + 0x1_0000_0000;
        p as u32
    }
}

/// A comparison of one field and, right after it, the golden trace's
/// consistency check on it, where the decoder gives the field a value.
fn field_checks(m: Mismatch, differs: bool, field: GoldenField, golden: u32, decoded: Option<u32>) -> (cs: Vec<Check>)
    ensures
        cs@ == field_pair(
            decoded is Some,
            m,
            differs,
            GoldenFault { field, golden, decoded: decoded->0 },
        ),
{
    let mut cs: Vec<Check> = Vec::new();
    if let Some(d) = decoded {
        cs.push(Check::Compare(m, differs));
        cs.push(Check::Golden(GoldenFault { field, golden, decoded: d }));
    }
    assert(cs@ =~= checks_if(
        decoded is Some,
        seq![
            Check::Compare(m, differs),
            Check::Golden(GoldenFault { field, golden, decoded: decoded->0 }),
        ],
    ));
    cs
}

fn widen(o: Option<u8>) -> (r: Option<u32>)
    ensures
        r is Some == o is Some,
        r is Some ==> r->0 == o->0,
{
    match o {
        Some(v) => Some(v as u32),
        None => None,
    }
}

/// The checks of a decode line, for the instruction in decode.
pub fn decode_line_checks(instr: &Instruction, g: &DecodeLine, t: &DecodeLine) -> (cs: Vec<Check>)
    ensures
        cs@ == decode_checks(instr@, *g, *t),
{
    let ghost w = instr@;
    let ghost f = format_of(w);
    let mut cs: Vec<Check> = Vec::new();
    cs.push(Check::Compare(Mismatch::Pc, g.pc != t.pc));
    if !instr.is_fence() {
        cs.push(Check::Compare(Mismatch::Opcode, g.opcode != t.opcode));
    }
    let ghost s0 = cs@;
    assert(s0 =~= seq![Check::Compare(Mismatch::Pc, g.pc != t.pc)] + checks_if(
        opcode_bits(w) != 0x0f,
        seq![Check::Compare(Mismatch::Opcode, g.opcode != t.opcode)],
    ));
    let mut p1 = field_checks(Mismatch::Rd, g.rd != t.rd, GoldenField::Rd, g.rd as u32, widen(instr.get_rd()));
    let mut p2 = field_checks(Mismatch::Rs1, g.rs1 != t.rs1, GoldenField::Rs1, g.rs1 as u32, widen(instr.get_rs1()));
    let mut p3 = field_checks(Mismatch::Rs2, g.rs2 != t.rs2, GoldenField::Rs2, g.rs2 as u32, widen(instr.get_rs2()));
    let mut p4 = field_checks(Mismatch::Funct3, g.funct3 != t.funct3, GoldenField::Funct3, g.funct3 as u32, widen(instr.get_funct3()));
    let mut p5 = field_checks(Mismatch::Funct7, g.funct7 != t.funct7, GoldenField::Funct7, g.funct7 as u32, widen(instr.get_funct7()));
    let imm = match instr.get_imm() {
        Some(v) => Some(imm_word_pattern(v)),
        None => None,
    };
    let mut p6 = field_checks(Mismatch::Imm, g.imm != t.imm, GoldenField::Imm, g.imm, imm);
    let mut p7 = field_checks(Mismatch::Shamt, g.shamt != t.shamt, GoldenField::Shamt, g.shamt as u32, widen(instr.get_shamt()));
    let ghost (q1, q2, q3, q4, q5, q6, q7) = (p1@, p2@, p3@, p4@, p5@, p6@, p7@);
    cs.append(&mut p1);
    cs.append(&mut p2);
    cs.append(&mut p3);
    cs.append(&mut p4);
    cs.append(&mut p5);
    cs.append(&mut p6);
    cs.append(&mut p7);
    assert(cs@ =~= s0 + q1 + q2 + q3 + q4 + q5 + q6 + q7);
    cs
}


/// The checks of a register-read line, for the instruction in decode.
pub fn register_line_checks(instr: &Instruction, g: &RegisterLine, t: &RegisterLine) -> (cs: Vec<Check>)
    ensures
        cs@ == register_checks(instr@, *g, *t),
{
    let mut cs: Vec<Check> = Vec::new();
    if let Some(v) = instr.get_rs1() {
        cs.push(Check::Compare(Mismatch::Rs1Addr, g.addr_rs1 != t.addr_rs1));
        cs.push(Check::Golden(GoldenFault { field: GoldenField::Rs1Addr, golden: g.addr_rs1 as u32, decoded: v as u32 }));
        cs.push(Check::Compare(Mismatch::Rs1Data, g.data_rs1 != t.data_rs1));
    }
    let ghost s1 = cs@;
    if let Some(v) = instr.get_rs2() {
        cs.push(Check::Compare(Mismatch::Rs2Addr, g.addr_rs2 != t.addr_rs2));
        cs.push(Check::Golden(GoldenFault { field: GoldenField::Rs2Addr, golden: g.addr_rs2 as u32, decoded: v as u32 }));
        cs.push(Check::Compare(Mismatch::Rs2Data, g.data_rs2 != t.data_rs2));
    }
    let ghost w = instr@;
    assert(s1 =~= checks_if(
        format_has_rs1(format_of(w)),
        seq![
            Check::Compare(Mismatch::Rs1Addr, g.addr_rs1 != t.addr_rs1),
            Check::Golden(GoldenFault { field: GoldenField::Rs1Addr, golden: g.addr_rs1 as u32, decoded: rs1_bits(w) as u32 }),
            Check::Compare(Mismatch::Rs1Data, g.data_rs1 != t.data_rs1),
        ],
    ));
    assert(cs@ =~= register_checks(w, *g, *t));
    cs
}

/// The checks of an execute line, for the instruction in execute.
pub fn execute_line_checks(instr: &Instruction, g: &ExecuteLine, t: &ExecuteLine) -> (cs: Vec<Check>)
    ensures
        cs@ == execute_checks(instr@, *g, *t),
{
    let mut cs: Vec<Check> = Vec::new();
    cs.push(Check::Compare(Mismatch::Pc, g.pc != t.pc));
    if !instr.is_fence() && !instr.is_system() {
        cs.push(Check::Compare(Mismatch::AluResult, g.alu_result != t.alu_result));
    }
    let ghost s1 = cs@;
    if instr.is_btype() {
        cs.push(Check::Compare(Mismatch::BranchTaken, g.branch_taken != t.branch_taken));
    }
    let ghost w = instr@;
    assert(s1 =~= seq![Check::Compare(Mismatch::Pc, g.pc != t.pc)] + checks_if(
        opcode_bits(w) != 0x0f && opcode_bits(w) != 0x73,
        seq![Check::Compare(Mismatch::AluResult, g.alu_result != t.alu_result)],
    ));
    assert(cs@ =~= execute_checks(w, *g, *t));
    cs
}

/// The checks of a memory line, for the instruction in memory.
pub fn memory_line_checks(instr: &Instruction, g: &MemoryLine, t: &MemoryLine) -> (cs: Vec<Check>)
    ensures
        cs@ == memory_checks(instr@, *g, *t),
{
    let mut cs: Vec<Check> = Vec::new();
    cs.push(Check::Compare(Mismatch::Pc, g.pc != t.pc));
    cs.push(Check::Compare(Mismatch::ReadNotWrite, g.read_not_write != t.read_not_write));
    if instr.is_memory() {
        cs.push(Check::Compare(Mismatch::Address, g.addr != t.addr));
        cs.push(Check::Compare(Mismatch::AccessSize, g.access_size != t.access_size));
    }
    let ghost s1 = cs@;
    if instr.is_stype() {
        cs.push(Check::Compare(Mismatch::MemoryWdata, g.memory_wdata != t.memory_wdata));
    }
    let ghost w = instr@;
    assert(s1 =~= seq![
        Check::Compare(Mismatch::Pc, g.pc != t.pc),
        Check::Compare(Mismatch::ReadNotWrite, g.read_not_write != t.read_not_write),
    ] + checks_if(
        opcode_bits(w) == 0x03 || opcode_bits(w) == 0x23,
        seq![
            Check::Compare(Mismatch::Address, g.addr != t.addr),
            Check::Compare(Mismatch::AccessSize, g.access_size != t.access_size),
        ],
    ));
    assert(cs@ =~= memory_checks(w, *g, *t));
    cs
}

/// The checks of a writeback line, for the instruction in writeback.
pub fn writeback_line_checks(instr: &Instruction, g: &WritebackLine, t: &WritebackLine) -> (cs: Vec<Check>)
    ensures
        cs@ == writeback_checks(instr@, *g, *t),
{
    let ghost w = instr@;
    let mut cs: Vec<Check> = Vec::new();
    cs.push(Check::Compare(Mismatch::Pc, g.pc != t.pc));
    if !instr.is_fence() {
        cs.push(Check::Compare(Mismatch::WriteEnable, g.we != t.we));
        if let Some(v) = instr.get_rd() {
            cs.push(Check::Compare(Mismatch::RdAddr, g.addr_rd != t.addr_rd));
            cs.push(Check::Golden(GoldenFault { field: GoldenField::RdAddr, golden: g.addr_rd as u32, decoded: v as u32 }));
            cs.push(Check::Compare(Mismatch::RdData, g.data_rd != t.data_rd));
        }
    }
    assert(cs@ =~= writeback_checks(w, *g, *t));
    cs
}

impl Pipeline {
    /// Takes a pair of lines into account: a pair of fetch lines clocks the
    /// pipeline and puts the golden fetched instruction in fetch.
    pub fn advance(&mut self, g: &ParsedLine, t: &ParsedLine)
        ensures
            *final(self) == advanced(*old(self), *g, *t),
    {
        match (g, t) {
            (ParsedLine::F(gl), ParsedLine::F(_)) => {
                self.clock();
                self.f.pc = gl.pc;
                self.f.instr = Some(Instruction::from_word(gl.instr));
            },
            _ => {},
        }
    }

    /// The checks of a pair of lines against this (already advanced) pipeline.
    pub fn line_checks(&self, g: &ParsedLine, t: &ParsedLine) -> (cs: Vec<Check>)
        ensures
            cs@ == line_checks(*self, *g, *t),
    {
        match (g, t) {
            (ParsedLine::F(gl), ParsedLine::F(tl)) => vec![
                Check::Compare(Mismatch::Pc, gl.pc != tl.pc),
                Check::Compare(Mismatch::FetchedInstr, gl.instr != tl.instr),
            ],
            (ParsedLine::D(gl), ParsedLine::D(tl)) => match &self.d.instr {
                Some(i) => decode_line_checks(i, gl, tl),
                None => Vec::new(),
            },
            (ParsedLine::R(gl), ParsedLine::R(tl)) => match &self.d.instr {
                Some(i) => register_line_checks(i, gl, tl),
                None => Vec::new(),
            },
            (ParsedLine::E(gl), ParsedLine::E(tl)) => match &self.e.instr {
                Some(i) => execute_line_checks(i, gl, tl),
                None => Vec::new(),
            },
            (ParsedLine::M(gl), ParsedLine::M(tl)) => match &self.m.instr {
                Some(i) => memory_line_checks(i, gl, tl),
                None => Vec::new(),
            },
            (ParsedLine::W(gl), ParsedLine::W(tl)) => match &self.w.instr {
                Some(i) => writeback_line_checks(i, gl, tl),
                None => Vec::new(),
            },
            _ => vec![Check::Compare(Mismatch::LineKinds, true)],
        }
    }
}


/// A line pair yields at most sixteen checks.
pub proof fn lemma_line_checks_len(p: Pipeline, g: ParsedLine, t: ParsedLine)
    ensures
        line_checks(p, g, t).len() <= 16,
{
}

impl Pipeline {
    /// Reads one pair of lines: advances the pipeline, then checks the pair
    /// against it.
    pub fn step(&mut self, g: &ParsedLine, t: &ParsedLine) -> (r: LineOutcome)
        ensures
            *final(self) == advanced(*old(self), *g, *t),
            (r.errors@, r.fault) == run(line_checks(*final(self), *g, *t)),
    {
        self.advance(g, t);
        let cs = self.line_checks(g, t);
        run_checks(&cs)
    }
}

/// The golden pipeline once the first `n` line pairs have been read.
pub open spec fn pipeline_after(golden: Seq<ParsedLine>, test: Seq<ParsedLine>, n: nat) -> Pipeline
    decreases n,
{
    if n == 0 {
        empty_pipeline()
    } else {
        advanced(pipeline_after(golden, test, (n - 1) as nat), golden[n - 1], test[n - 1])
    }
}

/// The mismatches and the golden fault of line pair `i` (counting from zero).
pub open spec fn line_result(golden: Seq<ParsedLine>, test: Seq<ParsedLine>, i: int) -> (
    Seq<Mismatch>,
    Option<GoldenFault>,
) {
    run(line_checks(pipeline_after(golden, test, (i + 1) as nat), golden[i], test[i]))
}

/// Whether line pair `i` gets a report: it has a mismatch.
pub open spec fn is_reported(golden: Seq<ParsedLine>, test: Seq<ParsedLine>, i: int) -> bool {
    line_result(golden, test, i).0.len() > 0
}

/// The indices, in order, of the reported line pairs among the first `n`.
pub open spec fn reported_lines(golden: Seq<ParsedLine>, test: Seq<ParsedLine>, n: nat) -> Seq<int>
    decreases n,
{
    if n == 0 {
        seq![]
    } else {
        let prev = reported_lines(golden, test, (n - 1) as nat);
        if is_reported(golden, test, n - 1) {
            prev.push(n - 1)
        } else {
            prev
        }
    }
}

/// The number of mismatches in the first `n` line pairs.
pub open spec fn errors_upto(golden: Seq<ParsedLine>, test: Seq<ParsedLine>, n: nat) -> nat
    decreases n,
{
    if n == 0 {
        0
    } else {
        errors_upto(golden, test, (n - 1) as nat) + line_result(golden, test, n - 1).0.len()
    }
}

/// What is reported of one line pair: its line number, both lines, the golden
/// pipeline at that line, and the mismatches found.
#[derive(Debug)]
pub struct LineReport {
    pub line_num: usize,
    pub golden: ParsedLine,
    pub test: ParsedLine,
    pub pipeline: Pipeline,
    pub errors: Vec<Mismatch>,
}

/// The report `r` is the one of line pair `i`.
pub open spec fn describes(
    r: LineReport,
    golden: Seq<ParsedLine>,
    test: Seq<ParsedLine>,
    i: int,
) -> bool {
    &&& r.line_num == i + 1
    &&& r.golden == golden[i]
    &&& r.test == test[i]
    &&& r.pipeline == pipeline_after(golden, test, (i + 1) as nat)
    &&& r.errors@ == line_result(golden, test, i).0
}

pub open spec fn min_len(golden: Seq<ParsedLine>, test: Seq<ParsedLine>) -> nat {
    if golden.len() <= test.len() {
        golden.len()
    } else {
        test.len()
    }
}

/// The golden trace agrees with the decoder on every line pair that is
/// compared: no golden check fails.
pub open spec fn golden_consistent(golden: Seq<ParsedLine>, test: Seq<ParsedLine>) -> bool {
    forall|i: int| 0 <= i < min_len(golden, test) ==> (#[trigger] line_result(golden, test, i)).1 is None
}

/// The line pair where the golden trace first disagrees with the decoder: its
/// report (with the mismatches found on it before the failed golden check) and
/// the failed check.
#[derive(Debug)]
pub struct GoldenFaultReport {
    pub line: LineReport,
    pub fault: GoldenFault,
}

/// Finds the first line pair on which a golden check fails, reading the two
/// traces up to the end of the shorter one.
pub fn find_golden_fault(golden: &Vec<ParsedLine>, test: &Vec<ParsedLine>) -> (r: Option<GoldenFaultReport>)
    ensures
        r is None <==> golden_consistent(golden@, test@),
        r matches Some(f) ==> {
            let i = f.line.line_num - 1;
            &&& 0 <= i < min_len(golden@, test@)
            &&& forall|j: int| 0 <= j < i ==> (#[trigger] line_result(golden@, test@, j)).1 is None
            &&& describes(f.line, golden@, test@, i)
            &&& line_result(golden@, test@, i).1 == Some(f.fault)
        },
{
    let n = if golden.len() <= test.len() {
        golden.len()
    } else {
        test.len()
    };
    let mut p = Pipeline::default();
    let mut i: usize = 0;
    while i < n
        invariant
            i <= n,
            n == min_len(golden@, test@),
            p == pipeline_after(golden@, test@, i as nat),
            forall|j: int| 0 <= j < i ==> (#[trigger] line_result(golden@, test@, j)).1 is None,
        decreases n - i,
    {
        let g = golden[i];
        let t = test[i];
        let out = p.step(&g, &t);
        proof {
            assert(pipeline_after(golden@, test@, (i + 1) as nat) == p);
            assert(line_result(golden@, test@, i as int) == (out.errors@, out.fault));
        }
        if let Some(f) = out.fault {
            assert(!golden_consistent(golden@, test@));
            return Some(
                GoldenFaultReport {
                    line: LineReport { line_num: i + 1, golden: g, test: t, pipeline: p, errors: out.errors },
                    fault: f,
                },
            );
        }
        i = i + 1;
    }
    None
}

/// Compares a trace with a golden trace that agrees with the decoder, line
/// pair by line pair, up to the end of the shorter one: a report for each line
/// pair with a mismatch, and the number of mismatches. (Where the golden trace
/// disagrees with the decoder, `find_golden_fault` says where.)
pub fn compare(golden: &Vec<ParsedLine>, test: &Vec<ParsedLine>) -> (c: Comparison)
    requires
        golden@.len() < 0x1000_0000_0000_0000,
        golden_consistent(golden@, test@),
    ensures
        c.reports@.len() == reported_lines(golden@, test@, min_len(golden@, test@)).len(),
        forall|k: int|
            0 <= k < c.reports@.len() ==> describes(
                #[trigger] c.reports@[k],
                golden@,
                test@,
                reported_lines(golden@, test@, min_len(golden@, test@))[k],
            ),
        c.total_errors == errors_upto(golden@, test@, min_len(golden@, test@)),
{
    let n = if golden.len() <= test.len() {
        golden.len()
    } else {
        test.len()
    };
    let mut p = Pipeline::default();
    let mut reports: Vec<LineReport> = Vec::new();
    let mut total: u64 = 0;
    let mut i: usize = 0;
    while i < n
        invariant
            i <= n,
            n == min_len(golden@, test@),
            golden@.len() < 0x1000_0000_0000_0000,
            golden_consistent(golden@, test@),
            p == pipeline_after(golden@, test@, i as nat),
            reports@.len() == reported_lines(golden@, test@, i as nat).len(),
            forall|k: int|
                0 <= k < reports@.len() ==> describes(
                    #[trigger] reports@[k],
                    golden@,
                    test@,
                    reported_lines(golden@, test@, i as nat)[k],
                ),
            total == errors_upto(golden@, test@, i as nat),
            total <= 16 * i,
        decreases n - i,
    {
        let ghost before = reports@;
        let g = golden[i];
        let t = test[i];
        let out = p.step(&g, &t);
        proof {
            lemma_line_checks_len(p, g, t);
            lemma_run_len(line_checks(p, g, t));
            assert(line_result(golden@, test@, i as int).1 is None);
        }
        let ne = out.errors.len();
        total = total + ne as u64;
        if ne > 0 {
            reports.push(LineReport { line_num: i + 1, golden: g, test: t, pipeline: p, errors: out.errors });
        }
        assert forall|k: int|
            0 <= k < reports@.len() implies describes(
            #[trigger] reports@[k],
            golden@,
            test@,
            reported_lines(golden@, test@, (i + 1) as nat)[k],
        ) by {
            if k < before.len() {
                assert(reports@[k] == before[k]);
            }
        }
        i = i + 1;
    }
    Comparison { reports, total_errors: total }
}

/// The outcome of comparing two traces: a report for each line pair with a
/// mismatch, and the number of mismatches.
#[derive(Debug)]
pub struct Comparison {
    pub reports: Vec<LineReport>,
    pub total_errors: u64,
}

} // verus!

//! Properties of the comparison that hold over whole traces.

use vstd::prelude::*;
use crate::compare::{
    advanced, checks_if, decode_checks, errors_upto, execute_checks, field_pair, line_checks,
    golden_consistent, lemma_run_stops, line_result, memory_checks, min_len, pipeline_after,
    register_checks, reported_lines, run, word_pattern, writeback_checks, Check, GoldenFault,
    GoldenField, Mismatch,
};
use crate::instruction::{
    format_has_funct3, format_has_funct7, format_has_rd, format_has_rs1, format_has_rs2,
    format_has_shamt, format_of, funct3_bits, funct7_bits, imm_of, opcode_bits, rd_bits, rs1_bits,
    rs2_bits, Format,
};
use crate::instruction::Instruction;
use crate::pipeline::{clocked, empty_pipeline, Pipeline};
use crate::trace::{
    DecodeLine, ExecuteLine, FetchLine, MemoryLine, ParsedLine, RegisterLine, WritebackLine,
};

verus! {

/// The stage a line describes, as a letter.
pub open spec fn kind_of(l: ParsedLine) -> char {
    match l {
        ParsedLine::F(_) => 'F',
        ParsedLine::D(_) => 'D',
        ParsedLine::R(_) => 'R',
        ParsedLine::E(_) => 'E',
        ParsedLine::M(_) => 'M',
        ParsedLine::W(_) => 'W',
    }
}

/// The program counter a line carries, if it carries one.
pub open spec fn pc_of(l: ParsedLine) -> Option<u32> {
    match l {
        ParsedLine::F(x) => Some(x.pc),
        ParsedLine::D(x) => Some(x.pc),
        ParsedLine::R(_) => None,
        ParsedLine::E(x) => Some(x.pc),
        ParsedLine::M(x) => Some(x.pc),
        ParsedLine::W(x) => Some(x.pc),
    }
}

/// The two lines really differ in the respect that the mismatch `m` names.
pub open spec fn field_differs(m: Mismatch, g: ParsedLine, t: ParsedLine) -> bool {
    match m {
        Mismatch::Pc => kind_of(g) == kind_of(t) && pc_of(g) != pc_of(t),
        Mismatch::LineKinds => kind_of(g) != kind_of(t),
        _ => match (g, t) {
            (ParsedLine::F(a), ParsedLine::F(b)) => m == Mismatch::FetchedInstr && a.instr != b.instr,
            (ParsedLine::D(a), ParsedLine::D(b)) => match m {
                Mismatch::Opcode => a.opcode != b.opcode,
                Mismatch::Rd => a.rd != b.rd,
                Mismatch::Rs1 => a.rs1 != b.rs1,
                Mismatch::Rs2 => a.rs2 != b.rs2,
                Mismatch::Funct3 => a.funct3 != b.funct3,
                Mismatch::Funct7 => a.funct7 != b.funct7,
                Mismatch::Imm => a.imm != b.imm,
                Mismatch::Shamt => a.shamt != b.shamt,
                _ => false,
            },
            (ParsedLine::R(a), ParsedLine::R(b)) => match m {
                Mismatch::Rs1Addr => a.addr_rs1 != b.addr_rs1,
                Mismatch::Rs1Data => a.data_rs1 != b.data_rs1,
                Mismatch::Rs2Addr => a.addr_rs2 != b.addr_rs2,
                Mismatch::Rs2Data => a.data_rs2 != b.data_rs2,
                _ => false,
            },
            (ParsedLine::E(a), ParsedLine::E(b)) => match m {
                Mismatch::AluResult => a.alu_result != b.alu_result,
                Mismatch::BranchTaken => a.branch_taken != b.branch_taken,
                _ => false,
            },
            (ParsedLine::M(a), ParsedLine::M(b)) => match m {
                Mismatch::ReadNotWrite => a.read_not_write != b.read_not_write,
                Mismatch::Address => a.addr != b.addr,
                Mismatch::AccessSize => a.access_size != b.access_size,
                Mismatch::MemoryWdata => a.memory_wdata != b.memory_wdata,
                _ => false,
            },
            (ParsedLine::W(a), ParsedLine::W(b)) => match m {
                Mismatch::WriteEnable => a.we != b.we,
                Mismatch::RdAddr => a.addr_rd != b.addr_rd,
                Mismatch::RdData => a.data_rd != b.data_rd,
                _ => false,
            },
            _ => false,
        },
    }
}

/// The instruction word `w` uses the field the mismatch `m` names, so that
/// the field is compared rather than a "don't care" value.
pub open spec fn uses_field(w: u32, m: Mismatch) -> bool {
    let f = format_of(w);
    match m {
        Mismatch::Opcode => opcode_bits(w) != 0x0f,
        Mismatch::Rd | Mismatch::RdAddr | Mismatch::RdData => format_has_rd(f),
        Mismatch::Rs1 | Mismatch::Rs1Addr | Mismatch::Rs1Data => format_has_rs1(f),
        Mismatch::Rs2 | Mismatch::Rs2Addr | Mismatch::Rs2Data => format_has_rs2(f),
        Mismatch::Funct3 => format_has_funct3(f),
        Mismatch::Funct7 => format_has_funct7(f),
        Mismatch::Imm => imm_of(w) is Some,
        Mismatch::Shamt => format_has_shamt(f),
        Mismatch::AluResult => opcode_bits(w) != 0x0f && opcode_bits(w) != 0x73,
        Mismatch::BranchTaken => f == Format::B,
        Mismatch::Address | Mismatch::AccessSize => opcode_bits(w) == 0x03 || opcode_bits(w)
            == 0x23,
        Mismatch::MemoryWdata => f == Format::S,
        Mismatch::WriteEnable => opcode_bits(w) != 0x0f,
        _ => true,
    }
}

/// Which fields are compared, by the opcode of the instruction in the
/// matching stage: the opcode and the write-enable flag for every instruction
/// but FENCE (0x0f); the ALU result for every one but FENCE and SYSTEM (0x73);
/// whether a branch was taken only for BRANCH (0x63); the address and access
/// size for LOAD (0x03) and STORE (0x23); the data written to memory only for
/// STORE; the destination register (number and data) for LUI, AUIPC, JAL,
/// JALR, LOAD, OP-IMM, OP and SYSTEM; the source registers as the RV32I
/// formats lay them out. The program counter always is.
pub proof fn law_compared_fields_by_opcode(w: u32)
    ensures
        ({
            let op = opcode_bits(w);
            let rd = op == 0x37 || op == 0x17 || op == 0x6f || op == 0x67 || op == 0x03 || op
                == 0x13 || op == 0x33 || op == 0x73;
            let rs1 = op == 0x67 || op == 0x03 || op == 0x13 || op == 0x33 || op == 0x73 || op
                == 0x23 || op == 0x63;
            let rs2 = op == 0x33 || op == 0x23 || op == 0x63;
            &&& uses_field(w, Mismatch::Pc)
            &&& (uses_field(w, Mismatch::Opcode) <==> op != 0x0f)
            &&& (uses_field(w, Mismatch::WriteEnable) <==> op != 0x0f)
            &&& (uses_field(w, Mismatch::AluResult) <==> op != 0x0f && op != 0x73)
            &&& (uses_field(w, Mismatch::BranchTaken) <==> op == 0x63)
            &&& (uses_field(w, Mismatch::Address) <==> op == 0x03 || op == 0x23)
            &&& (uses_field(w, Mismatch::AccessSize) <==> op == 0x03 || op == 0x23)
            &&& (uses_field(w, Mismatch::MemoryWdata) <==> op == 0x23)
            &&& (uses_field(w, Mismatch::Rd) <==> rd)
            &&& (uses_field(w, Mismatch::RdAddr) <==> rd)
            &&& (uses_field(w, Mismatch::RdData) <==> rd)
            &&& (uses_field(w, Mismatch::Rs1) <==> rs1)
            &&& (uses_field(w, Mismatch::Rs1Addr) <==> rs1)
            &&& (uses_field(w, Mismatch::Rs1Data) <==> rs1)
            &&& (uses_field(w, Mismatch::Rs2) <==> rs2)
            &&& (uses_field(w, Mismatch::Rs2Addr) <==> rs2)
            &&& (uses_field(w, Mismatch::Rs2Data) <==> rs2)
        }),
{
}

/// The golden pipeline stage whose instruction a line is checked against.
pub open spec fn stage_for(p: Pipeline, l: ParsedLine) -> Option<Instruction> {
    match l {
        ParsedLine::F(_) => None,
        ParsedLine::D(_) | ParsedLine::R(_) => p.d.instr,
        ParsedLine::E(_) => p.e.instr,
        ParsedLine::M(_) => p.m.instr,
        ParsedLine::W(_) => p.w.instr,
    }
}

/// The mismatch `m` concerns a field that matters for the golden line `g`
/// against pipeline `p`: for a fetch line, the fetch fields; for another line,
/// a field that the instruction in the matching stage uses (none where that
/// stage holds a bubble). Mismatched line kinds always matter.
pub open spec fn relevant(m: Mismatch, p: Pipeline, g: ParsedLine) -> bool {
    if m == Mismatch::LineKinds {
        true
    } else if g is F {
        m == Mismatch::Pc || m == Mismatch::FetchedInstr
    } else {
        match stage_for(p, g) {
            Some(i) => uses_field(i@, m),
            None => false,
        }
    }
}

/// Every comparison in `cs` that claims a difference satisfies `ok`.
pub open spec fn honest(cs: Seq<Check>, ok: spec_fn(Mismatch) -> bool) -> bool {
    forall|k: int|
        0 <= k < cs.len() ==> match #[trigger] cs[k] {
            Check::Compare(m, d) => d ==> ok(m),
            Check::Golden(_) => true,
        }
}

proof fn lemma_run_honest(cs: Seq<Check>, ok: spec_fn(Mismatch) -> bool)
    requires
        honest(cs, ok),
    ensures
        forall|j: int| 0 <= j < run(cs).0.len() ==> ok(#[trigger] run(cs).0[j]),
    decreases cs.len(),
{
    if cs.len() > 0 {
        let prev = cs.drop_last();
        assert(honest(prev, ok)) by {
            assert forall|k: int| 0 <= k < prev.len() implies match #[trigger] prev[k] {
                Check::Compare(m, d) => d ==> ok(m),
                Check::Golden(_) => true,
            } by {
                assert(prev[k] == cs[k]);
            }
        }
        lemma_run_honest(prev, ok);
        let last = cs[cs.len() - 1];
        assert(cs.last() == last);
        if run(prev).1 is None {
            if let Check::Compare(m, d) = last {
                if d {
                    assert(ok(m));
                    assert forall|j: int| 0 <= j < run(cs).0.len() implies ok(
                        #[trigger] run(cs).0[j],
                    ) by {
                        if j < run(prev).0.len() {
                            assert(run(cs).0[j] == run(prev).0[j]);
                        }
                    }
                }
            }
        }
    }
}

proof fn lemma_honest_concat(a: Seq<Check>, b: Seq<Check>, ok: spec_fn(Mismatch) -> bool)
    requires
        honest(a, ok),
        honest(b, ok),
    ensures
        honest(a + b, ok),
{
    assert forall|k: int| 0 <= k < (a + b).len() implies match #[trigger] (a + b)[k] {
        Check::Compare(m, d) => d ==> ok(m),
        Check::Golden(_) => true,
    } by {
        if k < a.len() {
            assert((a + b)[k] == a[k]);
        } else {
            assert((a + b)[k] == b[k - a.len()]);
        }
    }
}

proof fn lemma_honest_weaken(cs: Seq<Check>, ok: spec_fn(Mismatch) -> bool, ok2: spec_fn(Mismatch) -> bool)
    requires
        honest(cs, ok),
        forall|m: Mismatch| #[trigger] ok(m) ==> ok2(m),
    ensures
        honest(cs, ok2),
{
    assert forall|k: int| 0 <= k < cs.len() implies match #[trigger] cs[k] {
        Check::Compare(m, d) => d ==> ok2(m),
        Check::Golden(_) => true,
    } by {
        if let Check::Compare(m, d) = cs[k] {
            if d {
                assert(ok(m));
            }
        }
    }
}

proof fn lemma_honest_one(c: Check, ok: spec_fn(Mismatch) -> bool)
    requires
        match c {
            Check::Compare(m, d) => d ==> ok(m),
            Check::Golden(_) => true,
        },
    ensures
        honest(seq![c], ok),
{
    assert forall|k: int| 0 <= k < seq![c].len() implies match #[trigger] seq![c][k] {
        Check::Compare(m, d) => d ==> ok(m),
        Check::Golden(_) => true,
    } by {
        assert(seq![c][k] == c);
    }
}

proof fn lemma_honest_pair(
    present: bool,
    m: Mismatch,
    d: bool,
    fault: GoldenFault,
    ok: spec_fn(Mismatch) -> bool,
)
    requires
        present && d ==> ok(m),
    ensures
        honest(field_pair(present, m, d, fault), ok),
{
    let s = seq![Check::Compare(m, d), Check::Golden(fault)];
    if present {
        assert forall|k: int| 0 <= k < s.len() implies match #[trigger] s[k] {
            Check::Compare(m, d) => d ==> ok(m),
            Check::Golden(_) => true,
        } by {
            if k == 0 {
                assert(s[k] == Check::Compare(m, d));
            } else {
                assert(s[k] == Check::Golden(fault));
            }
        }
    }
}

/// What a correct check of a line pair may report, for the instruction word `w`.
pub open spec fn reportable(w: u32, g: ParsedLine, t: ParsedLine) -> spec_fn(Mismatch) -> bool {
    |m: Mismatch| field_differs(m, g, t) && uses_field(w, m)
}

#[verifier::spinoff_prover]
#[verifier::rlimit(40)]
proof fn lemma_decode_checks_honest(w: u32, a: DecodeLine, b: DecodeLine)
    ensures
        honest(decode_checks(w, a, b), reportable(w, ParsedLine::D(a), ParsedLine::D(b))),
{
    let ok = reportable(w, ParsedLine::D(a), ParsedLine::D(b));
    let f = format_of(w);
    let c0 = Check::Compare(Mismatch::Pc, a.pc != b.pc);
    let c1 = Check::Compare(Mismatch::Opcode, a.opcode != b.opcode);
    lemma_honest_one(c0, ok);
    if opcode_bits(w) != 0x0f {
        lemma_honest_one(c1, ok);
    }
    let s1 = seq![c0] + checks_if(opcode_bits(w) != 0x0f, seq![c1]);
    lemma_honest_concat(seq![c0], checks_if(opcode_bits(w) != 0x0f, seq![c1]), ok);
    let f2 = GoldenFault { field: GoldenField::Rd, golden: a.rd as u32, decoded: rd_bits(w) as u32 };
    let p2 = field_pair(format_has_rd(f), Mismatch::Rd, a.rd != b.rd, f2);
    lemma_honest_pair(format_has_rd(f), Mismatch::Rd, a.rd != b.rd, f2, ok);
    lemma_honest_concat(s1, p2, ok);
    let s2 = s1 + p2;
    let f3 = GoldenFault { field: GoldenField::Rs1, golden: a.rs1 as u32, decoded: rs1_bits(w) as u32 };
    let p3 = field_pair(format_has_rs1(f), Mismatch::Rs1, a.rs1 != b.rs1, f3);
    lemma_honest_pair(format_has_rs1(f), Mismatch::Rs1, a.rs1 != b.rs1, f3, ok);
    lemma_honest_concat(s2, p3, ok);
    let s3 = s2 + p3;
    let f4 = GoldenFault { field: GoldenField::Rs2, golden: a.rs2 as u32, decoded: rs2_bits(w) as u32 };
    let p4 = field_pair(format_has_rs2(f), Mismatch::Rs2, a.rs2 != b.rs2, f4);
    lemma_honest_pair(format_has_rs2(f), Mismatch::Rs2, a.rs2 != b.rs2, f4, ok);
    lemma_honest_concat(s3, p4, ok);
    let s4 = s3 + p4;
    let f5 = GoldenFault { field: GoldenField::Funct3, golden: a.funct3 as u32, decoded: funct3_bits(w) as u32 };
    let p5 = field_pair(format_has_funct3(f), Mismatch::Funct3, a.funct3 != b.funct3, f5);
    lemma_honest_pair(format_has_funct3(f), Mismatch::Funct3, a.funct3 != b.funct3, f5, ok);
    lemma_honest_concat(s4, p5, ok);
    let s5 = s4 + p5;
    let f6 = GoldenFault { field: GoldenField::Funct7, golden: a.funct7 as u32, decoded: funct7_bits(w) as u32 };
    let p6 = field_pair(format_has_funct7(f), Mismatch::Funct7, a.funct7 != b.funct7, f6);
    lemma_honest_pair(format_has_funct7(f), Mismatch::Funct7, a.funct7 != b.funct7, f6, ok);
    lemma_honest_concat(s5, p6, ok);
    let s6 = s5 + p6;
    let f7 = GoldenFault { field: GoldenField::Imm, golden: a.imm, decoded: word_pattern(imm_of(w)->0) as u32 };
    let p7 = field_pair(imm_of(w) is Some, Mismatch::Imm, a.imm != b.imm, f7);
    lemma_honest_pair(imm_of(w) is Some, Mismatch::Imm, a.imm != b.imm, f7, ok);
    lemma_honest_concat(s6, p7, ok);
    let s7 = s6 + p7;
    let f8 = GoldenFault { field: GoldenField::Shamt, golden: a.shamt as u32, decoded: rs2_bits(w) as u32 };
    let p8 = field_pair(format_has_shamt(f), Mismatch::Shamt, a.shamt != b.shamt, f8);
    lemma_honest_pair(format_has_shamt(f), Mismatch::Shamt, a.shamt != b.shamt, f8, ok);
    lemma_honest_concat(s7, p8, ok);
    assert(s7 + p8 == decode_checks(w, a, b));
}

proof fn lemma_register_checks_honest(w: u32, a: RegisterLine, b: RegisterLine)
    ensures
        honest(register_checks(w, a, b), reportable(w, ParsedLine::R(a), ParsedLine::R(b))),
{
    let ok = reportable(w, ParsedLine::R(a), ParsedLine::R(b));
    let f = format_of(w);
    let x = seq![
        Check::Compare(Mismatch::Rs1Addr, a.addr_rs1 != b.addr_rs1),
        Check::Golden(GoldenFault { field: GoldenField::Rs1Addr, golden: a.addr_rs1 as u32, decoded: rs1_bits(w) as u32 }),
        Check::Compare(Mismatch::Rs1Data, a.data_rs1 != b.data_rs1),
    ];
    let y = seq![
        Check::Compare(Mismatch::Rs2Addr, a.addr_rs2 != b.addr_rs2),
        Check::Golden(GoldenFault { field: GoldenField::Rs2Addr, golden: a.addr_rs2 as u32, decoded: rs2_bits(w) as u32 }),
        Check::Compare(Mismatch::Rs2Data, a.data_rs2 != b.data_rs2),
    ];
    if format_has_rs1(f) {
        assert(honest(x, ok));
    }
    if format_has_rs2(f) {
        assert(honest(y, ok));
    }
    lemma_honest_concat(checks_if(format_has_rs1(f), x), checks_if(format_has_rs2(f), y), ok);
}

proof fn lemma_execute_checks_honest(w: u32, a: ExecuteLine, b: ExecuteLine)
    ensures
        honest(execute_checks(w, a, b), reportable(w, ParsedLine::E(a), ParsedLine::E(b))),
{
    let ok = reportable(w, ParsedLine::E(a), ParsedLine::E(b));
    let c0 = Check::Compare(Mismatch::Pc, a.pc != b.pc);
    let c1 = Check::Compare(Mismatch::AluResult, a.alu_result != b.alu_result);
    let c2 = Check::Compare(Mismatch::BranchTaken, a.branch_taken != b.branch_taken);
    let k1 = opcode_bits(w) != 0x0f && opcode_bits(w) != 0x73;
    let k2 = format_of(w) == Format::B;
    lemma_honest_one(c0, ok);
    if k1 {
        lemma_honest_one(c1, ok);
    }
    if k2 {
        lemma_honest_one(c2, ok);
    }
    let p1 = checks_if(k1, seq![c1]);
    let p2 = checks_if(k2, seq![c2]);
    lemma_honest_concat(seq![c0], p1, ok);
    lemma_honest_concat(seq![c0] + p1, p2, ok);
}

proof fn lemma_memory_checks_honest(w: u32, a: MemoryLine, b: MemoryLine)
    ensures
        honest(memory_checks(w, a, b), reportable(w, ParsedLine::M(a), ParsedLine::M(b))),
{
    let ok = reportable(w, ParsedLine::M(a), ParsedLine::M(b));
    let x = seq![
        Check::Compare(Mismatch::Pc, a.pc != b.pc),
        Check::Compare(Mismatch::ReadNotWrite, a.read_not_write != b.read_not_write),
    ];
    let y = seq![
        Check::Compare(Mismatch::Address, a.addr != b.addr),
        Check::Compare(Mismatch::AccessSize, a.access_size != b.access_size),
    ];
    let z = seq![Check::Compare(Mismatch::MemoryWdata, a.memory_wdata != b.memory_wdata)];
    let k1 = opcode_bits(w) == 0x03 || opcode_bits(w) == 0x23;
    let k2 = format_of(w) == Format::S;
    assert(honest(x, ok));
    if k1 {
        assert(honest(y, ok));
    }
    if k2 {
        assert(honest(z, ok));
    }
    let p1 = checks_if(k1, y);
    let p2 = checks_if(k2, z);
    lemma_honest_concat(x, p1, ok);
    lemma_honest_concat(x + p1, p2, ok);
}

proof fn lemma_writeback_checks_honest(w: u32, a: WritebackLine, b: WritebackLine)
    ensures
        honest(writeback_checks(w, a, b), reportable(w, ParsedLine::W(a), ParsedLine::W(b))),
{
    let ok = reportable(w, ParsedLine::W(a), ParsedLine::W(b));
    let x = seq![Check::Compare(Mismatch::Pc, a.pc != b.pc)];
    let y = seq![Check::Compare(Mismatch::WriteEnable, a.we != b.we)];
    let z = seq![
        Check::Compare(Mismatch::RdAddr, a.addr_rd != b.addr_rd),
        Check::Golden(GoldenFault { field: GoldenField::RdAddr, golden: a.addr_rd as u32, decoded: rd_bits(w) as u32 }),
        Check::Compare(Mismatch::RdData, a.data_rd != b.data_rd),
    ];
    let k1 = opcode_bits(w) != 0x0f;
    let k2 = format_has_rd(format_of(w));
    assert(honest(x, ok));
    if k1 {
        assert(honest(y, ok));
        if k2 {
            assert(honest(z, ok));
        }
        lemma_honest_concat(y, checks_if(k2, z), ok);
    }
    lemma_honest_concat(x, checks_if(k1, y + checks_if(k2, z)), ok);
}

/// What a correct check of the line pair may report against pipeline `p`.
pub open spec fn reportable_at(p: Pipeline, g: ParsedLine, t: ParsedLine) -> spec_fn(Mismatch) -> bool {
    |m: Mismatch| field_differs(m, g, t) && relevant(m, p, g)
}

proof fn lemma_stage_honest(p: Pipeline, g: ParsedLine, t: ParsedLine, cs: Seq<Check>, i: Instruction)
    requires
        stage_for(p, g) == Some(i),
        honest(cs, reportable(i@, g, t)),
    ensures
        honest(cs, reportable_at(p, g, t)),
{
    lemma_honest_weaken(cs, reportable(i@, g, t), reportable_at(p, g, t));
}

proof fn lemma_line_checks_honest(p: Pipeline, g: ParsedLine, t: ParsedLine)
    ensures
        honest(line_checks(p, g, t), reportable_at(p, g, t)),
{
    let ok = reportable_at(p, g, t);
    match (g, t) {
        (ParsedLine::F(a), ParsedLine::F(b)) => {
            let c0 = Check::Compare(Mismatch::Pc, a.pc != b.pc);
            let c1 = Check::Compare(Mismatch::FetchedInstr, a.instr != b.instr);
            lemma_honest_one(c0, ok);
            lemma_honest_one(c1, ok);
            lemma_honest_concat(seq![c0], seq![c1], ok);
            assert(seq![c0] + seq![c1] =~= line_checks(p, g, t));
        },
        (ParsedLine::D(a), ParsedLine::D(b)) => {
            if let Some(i) = p.d.instr {
                lemma_decode_checks_honest(i@, a, b);
                lemma_stage_honest(p, g, t, line_checks(p, g, t), i);
            }
        },
        (ParsedLine::R(a), ParsedLine::R(b)) => {
            if let Some(i) = p.d.instr {
                lemma_register_checks_honest(i@, a, b);
                lemma_stage_honest(p, g, t, line_checks(p, g, t), i);
            }
        },
        (ParsedLine::E(a), ParsedLine::E(b)) => {
            if let Some(i) = p.e.instr {
                lemma_execute_checks_honest(i@, a, b);
                lemma_stage_honest(p, g, t, line_checks(p, g, t), i);
            }
        },
        (ParsedLine::M(a), ParsedLine::M(b)) => {
            if let Some(i) = p.m.instr {
                lemma_memory_checks_honest(i@, a, b);
                lemma_stage_honest(p, g, t, line_checks(p, g, t), i);
            }
        },
        (ParsedLine::W(a), ParsedLine::W(b)) => {
            if let Some(i) = p.w.instr {
                lemma_writeback_checks_honest(i@, a, b);
                lemma_stage_honest(p, g, t, line_checks(p, g, t), i);
            }
        },
        _ => {
            lemma_honest_one(Check::Compare(Mismatch::LineKinds, true), ok);
        },
    }
}

/// A mismatch is reported only where the two lines really differ, in the
/// field it names (or, for mismatched line kinds, in the kind of line), and
/// only for a field that matters: one that the instruction in the matching
/// stage of the golden pipeline uses. Every other field is a "don't care".
pub proof fn law_mismatches_are_real_and_relevant(
    golden: Seq<ParsedLine>,
    test: Seq<ParsedLine>,
    i: int,
)
    requires
        0 <= i < golden.len(),
        i < test.len(),
    ensures
        forall|j: int|
            0 <= j < line_result(golden, test, i).0.len() ==> {
                let m = #[trigger] line_result(golden, test, i).0[j];
                &&& field_differs(m, golden[i], test[i])
                &&& relevant(m, pipeline_after(golden, test, (i + 1) as nat), golden[i])
            },
{
    let p = pipeline_after(golden, test, (i + 1) as nat);
    lemma_line_checks_honest(p, golden[i], test[i]);
    lemma_run_honest(line_checks(p, golden[i], test[i]), reportable_at(p, golden[i], test[i]));
}


/// Comparing a trace with itself finds no mismatch on any line.
pub proof fn law_self_comparison_finds_nothing(trace: Seq<ParsedLine>, n: nat)
    requires
        n <= trace.len(),
    ensures
        errors_upto(trace, trace, n) == 0,
        reported_lines(trace, trace, n).len() == 0,
        forall|i: int| 0 <= i < n ==> (#[trigger] line_result(trace, trace, i)).0.len() == 0,
    decreases n,
{
    if n > 0 {
        law_self_comparison_finds_nothing(trace, (n - 1) as nat);
        let i = n - 1;
        law_mismatches_are_real_and_relevant(trace, trace, i);
        if line_result(trace, trace, i).0.len() > 0 {
            let m = line_result(trace, trace, i).0[0];
            assert(field_differs(m, trace[i], trace[i]));
        }
    }
}

/// An instruction in fetch reaches writeback after four clock cycles.
pub proof fn law_four_cycles_to_writeback(p: Pipeline)
    ensures
        clocked(clocked(clocked(clocked(p)))).w == p.f,
{
}

/// Five clock cycles with nothing fetched empty the pipeline.
pub proof fn law_five_cycles_drain(p: Pipeline)
    ensures
        clocked(clocked(clocked(clocked(clocked(p))))) == empty_pipeline(),
{
}

/// The golden pipeline is built from the golden trace alone: the trace under
/// test matters only through which of its lines are fetch lines.
pub proof fn law_pipeline_follows_golden(
    golden: Seq<ParsedLine>,
    test1: Seq<ParsedLine>,
    test2: Seq<ParsedLine>,
    n: nat,
)
    requires
        n <= golden.len(),
        n <= test1.len(),
        n <= test2.len(),
        forall|i: int| 0 <= i < n ==> (test1[i] is F <==> test2[i] is F),
    ensures
        pipeline_after(golden, test1, n) == pipeline_after(golden, test2, n),
    decreases n,
{
    if n > 0 {
        law_pipeline_follows_golden(golden, test1, test2, (n - 1) as nat);
        let p = pipeline_after(golden, test1, (n - 1) as nat);
        assert(advanced(p, golden[n - 1], test1[n - 1]) == advanced(p, golden[n - 1], test2[n - 1]));
    }
}


/// Every mismatch that `ok` admits is claimed by some comparison in `cs`.
pub open spec fn covers(cs: Seq<Check>, ok: spec_fn(Mismatch) -> bool) -> bool {
    forall|m: Mismatch| #[trigger] ok(m) ==> cs.contains(Check::Compare(m, true))
}

proof fn lemma_covers_concat(
    a: Seq<Check>,
    b: Seq<Check>,
    oka: spec_fn(Mismatch) -> bool,
    okb: spec_fn(Mismatch) -> bool,
)
    requires
        covers(a, oka),
        covers(b, okb),
    ensures
        covers(a + b, |m: Mismatch| oka(m) || okb(m)),
{
    let ok = |m: Mismatch| oka(m) || okb(m);
    assert forall|m: Mismatch| #[trigger] ok(m) implies (a + b).contains(Check::Compare(m, true)) by {
        let x = Check::Compare(m, true);
        if oka(m) {
            let k = choose|k: int| 0 <= k < a.len() && a[k] == x;
            assert((a + b)[k] == x);
        } else {
            let k = choose|k: int| 0 <= k < b.len() && b[k] == x;
            assert((a + b)[a.len() + k] == x);
        }
    }
}

proof fn lemma_covers_weaken(cs: Seq<Check>, ok: spec_fn(Mismatch) -> bool, ok2: spec_fn(Mismatch) -> bool)
    requires
        covers(cs, ok),
        forall|m: Mismatch| #[trigger] ok2(m) ==> ok(m),
    ensures
        covers(cs, ok2),
{
    assert forall|m: Mismatch| #[trigger] ok2(m) implies cs.contains(Check::Compare(m, true)) by {
        assert(ok(m));
    }
}

proof fn lemma_covers_at(cs: Seq<Check>, k: int, m0: Mismatch, d: bool)
    requires
        0 <= k < cs.len(),
        cs[k] == Check::Compare(m0, d),
    ensures
        covers(cs, |m: Mismatch| m == m0 && d),
{
    let ok = |m: Mismatch| m == m0 && d;
    assert forall|m: Mismatch| #[trigger] ok(m) implies cs.contains(
        Check::Compare(m, true),
    ) by {
        assert(cs[k] == Check::Compare(m, true));
    }
}

proof fn lemma_covers_if(c: bool, cs: Seq<Check>, ok: spec_fn(Mismatch) -> bool)
    requires
        covers(cs, ok),
    ensures
        covers(checks_if(c, cs), |m: Mismatch| c && ok(m)),
{
    let ok2 = |m: Mismatch| c && ok(m);
    assert forall|m: Mismatch| #[trigger] ok2(m) implies checks_if(c, cs).contains(
        Check::Compare(m, true),
    ) by {
        assert(ok(m));
    }
}

/// A line with no failed golden check reports every comparison that differs.
proof fn lemma_run_complete(cs: Seq<Check>, m: Mismatch)
    requires
        run(cs).1 is None,
        cs.contains(Check::Compare(m, true)),
    ensures
        run(cs).0.contains(m),
    decreases cs.len(),
{
    let prev = cs.drop_last();
    let last = cs[cs.len() - 1];
    assert(cs.last() == last);
    if run(prev).1 is Some {
        assert(cs.take(prev.len() as int) =~= prev);
        lemma_run_stops(cs, prev.len() as int);
    }
    if last == Check::Compare(m, true) {
        assert(run(cs).0 == run(prev).0.push(m));
        assert(run(cs).0[run(prev).0.len() as int] == m);
    } else {
        let k = choose|k: int| 0 <= k < cs.len() && cs[k] == Check::Compare(m, true);
        assert(prev[k] == Check::Compare(m, true));
        lemma_run_complete(prev, m);
        let j = choose|j: int| 0 <= j < run(prev).0.len() && run(prev).0[j] == m;
        assert(run(cs).0[j] == m);
    }
}

proof fn lemma_field_pair_covers(present: bool, m0: Mismatch, d: bool, fault: GoldenFault)
    ensures
        covers(field_pair(present, m0, d, fault), |m: Mismatch| present && (m == m0 && d)),
{
    let s = seq![Check::Compare(m0, d), Check::Golden(fault)];
    lemma_covers_at(s, 0, m0, d);
    lemma_covers_if(present, s, |m: Mismatch| m == m0 && d);
}

#[verifier::spinoff_prover]
#[verifier::rlimit(60)]
proof fn lemma_decode_checks_cover(w: u32, a: DecodeLine, b: DecodeLine)
    ensures
        covers(decode_checks(w, a, b), reportable(w, ParsedLine::D(a), ParsedLine::D(b))),
{
    let f = format_of(w);
    let s0 = seq![Check::Compare(Mismatch::Pc, a.pc != b.pc)];
    let o0 = |m: Mismatch| m == Mismatch::Pc && a.pc != b.pc;
    lemma_covers_at(s0, 0, Mismatch::Pc, a.pc != b.pc);
    let s1 = seq![Check::Compare(Mismatch::Opcode, a.opcode != b.opcode)];
    lemma_covers_at(s1, 0, Mismatch::Opcode, a.opcode != b.opcode);
    let k1 = opcode_bits(w) != 0x0f;
    let o1 = |m: Mismatch| k1 && (m == Mismatch::Opcode && a.opcode != b.opcode);
    lemma_covers_if(k1, s1, |m: Mismatch| m == Mismatch::Opcode && a.opcode != b.opcode);
    lemma_covers_concat(s0, checks_if(k1, s1), o0, o1);
    let c1 = s0 + checks_if(k1, s1);
    let u1 = |m: Mismatch| o0(m) || o1(m);

    let f2 = GoldenFault { field: GoldenField::Rd, golden: a.rd as u32, decoded: rd_bits(w) as u32 };
    let p2 = field_pair(format_has_rd(f), Mismatch::Rd, a.rd != b.rd, f2);
    lemma_field_pair_covers(format_has_rd(f), Mismatch::Rd, a.rd != b.rd, f2);
    let o2 = |m: Mismatch| format_has_rd(f) && (m == Mismatch::Rd && a.rd != b.rd);
    lemma_covers_concat(c1, p2, u1, o2);
    let c2 = c1 + p2;
    let u2 = |m: Mismatch| u1(m) || o2(m);

    let f3 = GoldenFault { field: GoldenField::Rs1, golden: a.rs1 as u32, decoded: rs1_bits(w) as u32 };
    let p3 = field_pair(format_has_rs1(f), Mismatch::Rs1, a.rs1 != b.rs1, f3);
    lemma_field_pair_covers(format_has_rs1(f), Mismatch::Rs1, a.rs1 != b.rs1, f3);
    let o3 = |m: Mismatch| format_has_rs1(f) && (m == Mismatch::Rs1 && a.rs1 != b.rs1);
    lemma_covers_concat(c2, p3, u2, o3);
    let c3 = c2 + p3;
    let u3 = |m: Mismatch| u2(m) || o3(m);

    let f4 = GoldenFault { field: GoldenField::Rs2, golden: a.rs2 as u32, decoded: rs2_bits(w) as u32 };
    let p4 = field_pair(format_has_rs2(f), Mismatch::Rs2, a.rs2 != b.rs2, f4);
    lemma_field_pair_covers(format_has_rs2(f), Mismatch::Rs2, a.rs2 != b.rs2, f4);
    let o4 = |m: Mismatch| format_has_rs2(f) && (m == Mismatch::Rs2 && a.rs2 != b.rs2);
    lemma_covers_concat(c3, p4, u3, o4);
    let c4 = c3 + p4;
    let u4 = |m: Mismatch| u3(m) || o4(m);

    let f5 = GoldenFault { field: GoldenField::Funct3, golden: a.funct3 as u32, decoded: funct3_bits(w) as u32 };
    let p5 = field_pair(format_has_funct3(f), Mismatch::Funct3, a.funct3 != b.funct3, f5);
    lemma_field_pair_covers(format_has_funct3(f), Mismatch::Funct3, a.funct3 != b.funct3, f5);
    let o5 = |m: Mismatch| format_has_funct3(f) && (m == Mismatch::Funct3 && a.funct3 != b.funct3);
    lemma_covers_concat(c4, p5, u4, o5);
    let c5 = c4 + p5;
    let u5 = |m: Mismatch| u4(m) || o5(m);

    let f6 = GoldenFault { field: GoldenField::Funct7, golden: a.funct7 as u32, decoded: funct7_bits(w) as u32 };
    let p6 = field_pair(format_has_funct7(f), Mismatch::Funct7, a.funct7 != b.funct7, f6);
    lemma_field_pair_covers(format_has_funct7(f), Mismatch::Funct7, a.funct7 != b.funct7, f6);
    let o6 = |m: Mismatch| format_has_funct7(f) && (m == Mismatch::Funct7 && a.funct7 != b.funct7);
    lemma_covers_concat(c5, p6, u5, o6);
    let c6 = c5 + p6;
    let u6 = |m: Mismatch| u5(m) || o6(m);

    let f7 = GoldenFault { field: GoldenField::Imm, golden: a.imm, decoded: word_pattern(imm_of(w)->0) as u32 };
    let p7 = field_pair(imm_of(w) is Some, Mismatch::Imm, a.imm != b.imm, f7);
    lemma_field_pair_covers(imm_of(w) is Some, Mismatch::Imm, a.imm != b.imm, f7);
    let o7 = |m: Mismatch| imm_of(w) is Some && (m == Mismatch::Imm && a.imm != b.imm);
    lemma_covers_concat(c6, p7, u6, o7);
    let c7 = c6 + p7;
    let u7 = |m: Mismatch| u6(m) || o7(m);

    let f8 = GoldenFault { field: GoldenField::Shamt, golden: a.shamt as u32, decoded: rs2_bits(w) as u32 };
    let p8 = field_pair(format_has_shamt(f), Mismatch::Shamt, a.shamt != b.shamt, f8);
    lemma_field_pair_covers(format_has_shamt(f), Mismatch::Shamt, a.shamt != b.shamt, f8);
    let o8 = |m: Mismatch| format_has_shamt(f) && (m == Mismatch::Shamt && a.shamt != b.shamt);
    lemma_covers_concat(c7, p8, u7, o8);
    let u8_ = |m: Mismatch| u7(m) || o8(m);
    assert(c7 + p8 == decode_checks(w, a, b));
    let ok = reportable(w, ParsedLine::D(a), ParsedLine::D(b));
    assert forall|m: Mismatch| #[trigger] ok(m) implies u8_(m) by {
        match m {
            Mismatch::Pc => {},
            Mismatch::Opcode => {},
            Mismatch::Rd => {},
            Mismatch::Rs1 => {},
            Mismatch::Rs2 => {},
            Mismatch::Funct3 => {},
            Mismatch::Funct7 => {},
            Mismatch::Imm => {},
            Mismatch::Shamt => {},
            _ => {},
        }
    }
    lemma_covers_weaken(decode_checks(w, a, b), u8_, ok);
}


proof fn lemma_covers_union(cs: Seq<Check>, oka: spec_fn(Mismatch) -> bool, okb: spec_fn(Mismatch) -> bool)
    requires
        covers(cs, oka),
        covers(cs, okb),
    ensures
        covers(cs, |m: Mismatch| oka(m) || okb(m)),
{
    let ok = |m: Mismatch| oka(m) || okb(m);
    assert forall|m: Mismatch| #[trigger] ok(m) implies cs.contains(Check::Compare(m, true)) by {
        if oka(m) {
            assert(oka(m));
        } else {
            assert(okb(m));
        }
    }
}

proof fn lemma_register_checks_cover(w: u32, a: RegisterLine, b: RegisterLine)
    ensures
        covers(register_checks(w, a, b), reportable(w, ParsedLine::R(a), ParsedLine::R(b))),
{
    let f = format_of(w);
    let x = seq![
        Check::Compare(Mismatch::Rs1Addr, a.addr_rs1 != b.addr_rs1),
        Check::Golden(GoldenFault { field: GoldenField::Rs1Addr, golden: a.addr_rs1 as u32, decoded: rs1_bits(w) as u32 }),
        Check::Compare(Mismatch::Rs1Data, a.data_rs1 != b.data_rs1),
    ];
    let y = seq![
        Check::Compare(Mismatch::Rs2Addr, a.addr_rs2 != b.addr_rs2),
        Check::Golden(GoldenFault { field: GoldenField::Rs2Addr, golden: a.addr_rs2 as u32, decoded: rs2_bits(w) as u32 }),
        Check::Compare(Mismatch::Rs2Data, a.data_rs2 != b.data_rs2),
    ];
    let xa = |m: Mismatch| m == Mismatch::Rs1Addr && a.addr_rs1 != b.addr_rs1;
    let xd = |m: Mismatch| m == Mismatch::Rs1Data && a.data_rs1 != b.data_rs1;
    let ya = |m: Mismatch| m == Mismatch::Rs2Addr && a.addr_rs2 != b.addr_rs2;
    let yd = |m: Mismatch| m == Mismatch::Rs2Data && a.data_rs2 != b.data_rs2;
    lemma_covers_at(x, 0, Mismatch::Rs1Addr, a.addr_rs1 != b.addr_rs1);
    lemma_covers_at(x, 2, Mismatch::Rs1Data, a.data_rs1 != b.data_rs1);
    lemma_covers_at(y, 0, Mismatch::Rs2Addr, a.addr_rs2 != b.addr_rs2);
    lemma_covers_at(y, 2, Mismatch::Rs2Data, a.data_rs2 != b.data_rs2);
    lemma_covers_union(x, xa, xd);
    lemma_covers_union(y, ya, yd);
    let ox = |m: Mismatch| xa(m) || xd(m);
    let oy = |m: Mismatch| ya(m) || yd(m);
    lemma_covers_if(format_has_rs1(f), x, ox);
    lemma_covers_if(format_has_rs2(f), y, oy);
    let cx = |m: Mismatch| format_has_rs1(f) && ox(m);
    let cy = |m: Mismatch| format_has_rs2(f) && oy(m);
    lemma_covers_concat(checks_if(format_has_rs1(f), x), checks_if(format_has_rs2(f), y), cx, cy);
    let u = |m: Mismatch| cx(m) || cy(m);
    let ok = reportable(w, ParsedLine::R(a), ParsedLine::R(b));
    assert forall|m: Mismatch| #[trigger] ok(m) implies u(m) by {
        match m {
            Mismatch::Rs1Addr => {},
            Mismatch::Rs1Data => {},
            Mismatch::Rs2Addr => {},
            Mismatch::Rs2Data => {},
            _ => {},
        }
    }
    lemma_covers_weaken(register_checks(w, a, b), u, ok);
}

proof fn lemma_execute_checks_cover(w: u32, a: ExecuteLine, b: ExecuteLine)
    ensures
        covers(execute_checks(w, a, b), reportable(w, ParsedLine::E(a), ParsedLine::E(b))),
{
    let c0 = seq![Check::Compare(Mismatch::Pc, a.pc != b.pc)];
    let c1 = seq![Check::Compare(Mismatch::AluResult, a.alu_result != b.alu_result)];
    let c2 = seq![Check::Compare(Mismatch::BranchTaken, a.branch_taken != b.branch_taken)];
    let k1 = opcode_bits(w) != 0x0f && opcode_bits(w) != 0x73;
    let k2 = format_of(w) == Format::B;
    let o0 = |m: Mismatch| m == Mismatch::Pc && a.pc != b.pc;
    let o1 = |m: Mismatch| m == Mismatch::AluResult && a.alu_result != b.alu_result;
    let o2 = |m: Mismatch| m == Mismatch::BranchTaken && a.branch_taken != b.branch_taken;
    lemma_covers_at(c0, 0, Mismatch::Pc, a.pc != b.pc);
    lemma_covers_at(c1, 0, Mismatch::AluResult, a.alu_result != b.alu_result);
    lemma_covers_at(c2, 0, Mismatch::BranchTaken, a.branch_taken != b.branch_taken);
    lemma_covers_if(k1, c1, o1);
    lemma_covers_if(k2, c2, o2);
    let q1 = |m: Mismatch| k1 && o1(m);
    let q2 = |m: Mismatch| k2 && o2(m);
    lemma_covers_concat(c0, checks_if(k1, c1), o0, q1);
    let u1 = |m: Mismatch| o0(m) || q1(m);
    lemma_covers_concat(c0 + checks_if(k1, c1), checks_if(k2, c2), u1, q2);
    let u = |m: Mismatch| u1(m) || q2(m);
    let ok = reportable(w, ParsedLine::E(a), ParsedLine::E(b));
    assert forall|m: Mismatch| #[trigger] ok(m) implies u(m) by {
        match m {
            Mismatch::Pc => {},
            Mismatch::AluResult => {},
            Mismatch::BranchTaken => {},
            _ => {},
        }
    }
    lemma_covers_weaken(execute_checks(w, a, b), u, ok);
}

proof fn lemma_memory_checks_cover(w: u32, a: MemoryLine, b: MemoryLine)
    ensures
        covers(memory_checks(w, a, b), reportable(w, ParsedLine::M(a), ParsedLine::M(b))),
{
    let x = seq![
        Check::Compare(Mismatch::Pc, a.pc != b.pc),
        Check::Compare(Mismatch::ReadNotWrite, a.read_not_write != b.read_not_write),
    ];
    let y = seq![
        Check::Compare(Mismatch::Address, a.addr != b.addr),
        Check::Compare(Mismatch::AccessSize, a.access_size != b.access_size),
    ];
    let z = seq![Check::Compare(Mismatch::MemoryWdata, a.memory_wdata != b.memory_wdata)];
    let k1 = opcode_bits(w) == 0x03 || opcode_bits(w) == 0x23;
    let k2 = format_of(w) == Format::S;
    let x0 = |m: Mismatch| m == Mismatch::Pc && a.pc != b.pc;
    let x1 = |m: Mismatch| m == Mismatch::ReadNotWrite && a.read_not_write != b.read_not_write;
    let y0 = |m: Mismatch| m == Mismatch::Address && a.addr != b.addr;
    let y1 = |m: Mismatch| m == Mismatch::AccessSize && a.access_size != b.access_size;
    let z0 = |m: Mismatch| m == Mismatch::MemoryWdata && a.memory_wdata != b.memory_wdata;
    lemma_covers_at(x, 0, Mismatch::Pc, a.pc != b.pc);
    lemma_covers_at(x, 1, Mismatch::ReadNotWrite, a.read_not_write != b.read_not_write);
    lemma_covers_at(y, 0, Mismatch::Address, a.addr != b.addr);
    lemma_covers_at(y, 1, Mismatch::AccessSize, a.access_size != b.access_size);
    lemma_covers_at(z, 0, Mismatch::MemoryWdata, a.memory_wdata != b.memory_wdata);
    lemma_covers_union(x, x0, x1);
    lemma_covers_union(y, y0, y1);
    let ox = |m: Mismatch| x0(m) || x1(m);
    let oy = |m: Mismatch| y0(m) || y1(m);
    lemma_covers_if(k1, y, oy);
    lemma_covers_if(k2, z, z0);
    let q1 = |m: Mismatch| k1 && oy(m);
    let q2 = |m: Mismatch| k2 && z0(m);
    lemma_covers_concat(x, checks_if(k1, y), ox, q1);
    let u1 = |m: Mismatch| ox(m) || q1(m);
    lemma_covers_concat(x + checks_if(k1, y), checks_if(k2, z), u1, q2);
    let u = |m: Mismatch| u1(m) || q2(m);
    let ok = reportable(w, ParsedLine::M(a), ParsedLine::M(b));
    assert forall|m: Mismatch| #[trigger] ok(m) implies u(m) by {
        match m {
            Mismatch::Pc => {},
            Mismatch::ReadNotWrite => {},
            Mismatch::Address => {},
            Mismatch::AccessSize => {},
            Mismatch::MemoryWdata => {},
            _ => {},
        }
    }
    lemma_covers_weaken(memory_checks(w, a, b), u, ok);
}

proof fn lemma_writeback_checks_cover(w: u32, a: WritebackLine, b: WritebackLine)
    ensures
        covers(writeback_checks(w, a, b), reportable(w, ParsedLine::W(a), ParsedLine::W(b))),
{
    let x = seq![Check::Compare(Mismatch::Pc, a.pc != b.pc)];
    let y = seq![Check::Compare(Mismatch::WriteEnable, a.we != b.we)];
    let z = seq![
        Check::Compare(Mismatch::RdAddr, a.addr_rd != b.addr_rd),
        Check::Golden(GoldenFault { field: GoldenField::RdAddr, golden: a.addr_rd as u32, decoded: rd_bits(w) as u32 }),
        Check::Compare(Mismatch::RdData, a.data_rd != b.data_rd),
    ];
    let k1 = opcode_bits(w) != 0x0f;
    let k2 = format_has_rd(format_of(w));
    let x0 = |m: Mismatch| m == Mismatch::Pc && a.pc != b.pc;
    let y0 = |m: Mismatch| m == Mismatch::WriteEnable && a.we != b.we;
    let za = |m: Mismatch| m == Mismatch::RdAddr && a.addr_rd != b.addr_rd;
    let zd = |m: Mismatch| m == Mismatch::RdData && a.data_rd != b.data_rd;
    lemma_covers_at(x, 0, Mismatch::Pc, a.pc != b.pc);
    lemma_covers_at(y, 0, Mismatch::WriteEnable, a.we != b.we);
    lemma_covers_at(z, 0, Mismatch::RdAddr, a.addr_rd != b.addr_rd);
    lemma_covers_at(z, 2, Mismatch::RdData, a.data_rd != b.data_rd);
    lemma_covers_union(z, za, zd);
    let oz = |m: Mismatch| za(m) || zd(m);
    lemma_covers_if(k2, z, oz);
    let q2 = |m: Mismatch| k2 && oz(m);
    lemma_covers_concat(y, checks_if(k2, z), y0, q2);
    let inner = |m: Mismatch| y0(m) || q2(m);
    lemma_covers_if(k1, y + checks_if(k2, z), inner);
    let q1 = |m: Mismatch| k1 && inner(m);
    lemma_covers_concat(x, checks_if(k1, y + checks_if(k2, z)), x0, q1);
    let u = |m: Mismatch| x0(m) || q1(m);
    let ok = reportable(w, ParsedLine::W(a), ParsedLine::W(b));
    assert forall|m: Mismatch| #[trigger] ok(m) implies u(m) by {
        match m {
            Mismatch::Pc => {},
            Mismatch::WriteEnable => {},
            Mismatch::RdAddr => {},
            Mismatch::RdData => {},
            _ => {},
        }
    }
    lemma_covers_weaken(writeback_checks(w, a, b), u, ok);
}

proof fn lemma_stage_covers(p: Pipeline, g: ParsedLine, t: ParsedLine, cs: Seq<Check>, i: Instruction)
    requires
        !(g is F),
        kind_of(g) == kind_of(t),
        stage_for(p, g) == Some(i),
        covers(cs, reportable(i@, g, t)),
    ensures
        covers(cs, reportable_at(p, g, t)),
{
    lemma_covers_weaken(cs, reportable(i@, g, t), reportable_at(p, g, t));
}

proof fn lemma_line_checks_cover(p: Pipeline, g: ParsedLine, t: ParsedLine)
    ensures
        covers(line_checks(p, g, t), reportable_at(p, g, t)),
{
    let ok = reportable_at(p, g, t);
    let cs = line_checks(p, g, t);
    match (g, t) {
        (ParsedLine::F(a), ParsedLine::F(b)) => {
            let o0 = |m: Mismatch| m == Mismatch::Pc && a.pc != b.pc;
            let o1 = |m: Mismatch| m == Mismatch::FetchedInstr && a.instr != b.instr;
            lemma_covers_at(cs, 0, Mismatch::Pc, a.pc != b.pc);
            lemma_covers_at(cs, 1, Mismatch::FetchedInstr, a.instr != b.instr);
            lemma_covers_union(cs, o0, o1);
            lemma_covers_weaken(cs, |m: Mismatch| o0(m) || o1(m), ok);
        },
        (ParsedLine::D(a), ParsedLine::D(b)) => {
            if let Some(i) = p.d.instr {
                lemma_decode_checks_cover(i@, a, b);
                lemma_stage_covers(p, g, t, cs, i);
            }
        },
        (ParsedLine::R(a), ParsedLine::R(b)) => {
            if let Some(i) = p.d.instr {
                lemma_register_checks_cover(i@, a, b);
                lemma_stage_covers(p, g, t, cs, i);
            }
        },
        (ParsedLine::E(a), ParsedLine::E(b)) => {
            if let Some(i) = p.e.instr {
                lemma_execute_checks_cover(i@, a, b);
                lemma_stage_covers(p, g, t, cs, i);
            }
        },
        (ParsedLine::M(a), ParsedLine::M(b)) => {
            if let Some(i) = p.m.instr {
                lemma_memory_checks_cover(i@, a, b);
                lemma_stage_covers(p, g, t, cs, i);
            }
        },
        (ParsedLine::W(a), ParsedLine::W(b)) => {
            if let Some(i) = p.w.instr {
                lemma_writeback_checks_cover(i@, a, b);
                lemma_stage_covers(p, g, t, cs, i);
            }
        },
        _ => {
            lemma_covers_at(cs, 0, Mismatch::LineKinds, true);
            lemma_covers_weaken(cs, |m: Mismatch| m == Mismatch::LineKinds && true, ok);
        },
    }
}

/// On a line pair where no golden check fails, every field that differs and
/// matters (see `relevant`) is reported, and so are mismatched line kinds.
pub proof fn law_relevant_differences_are_reported(
    golden: Seq<ParsedLine>,
    test: Seq<ParsedLine>,
    i: int,
)
    requires
        0 <= i < golden.len(),
        i < test.len(),
        line_result(golden, test, i).1 is None,
    ensures
        forall|m: Mismatch|
            field_differs(m, golden[i], test[i]) && relevant(
                m,
                pipeline_after(golden, test, (i + 1) as nat),
                golden[i],
            ) ==> #[trigger] line_result(golden, test, i).0.contains(m),
{
    let p = pipeline_after(golden, test, (i + 1) as nat);
    let cs = line_checks(p, golden[i], test[i]);
    lemma_line_checks_cover(p, golden[i], test[i]);
    assert forall|m: Mismatch|
        field_differs(m, golden[i], test[i]) && relevant(m, p, golden[i]) implies #[trigger] line_result(
        golden,
        test,
        i,
    ).0.contains(m) by {
        assert(reportable_at(p, golden[i], test[i])(m));
        lemma_run_complete(cs, m);
    }
}


/// A line pair of one kind, other than fetch, whose stage holds a bubble in
/// the golden pipeline yields no mismatch and no golden fault, whatever the
/// line under test says.
pub proof fn law_bubble_stage_adds_nothing(golden: Seq<ParsedLine>, test: Seq<ParsedLine>, i: int)
    requires
        0 <= i < golden.len(),
        i < test.len(),
        kind_of(golden[i]) == kind_of(test[i]),
        !(golden[i] is F),
        stage_for(pipeline_after(golden, test, (i + 1) as nat), golden[i]) is None,
    ensures
        line_result(golden, test, i) == (Seq::<Mismatch>::empty(), None::<GoldenFault>),
{
    let p = pipeline_after(golden, test, (i + 1) as nat);
    assert(line_checks(p, golden[i], test[i]) =~= seq![]);
}

proof fn lemma_same_prefix(
    g1: Seq<ParsedLine>,
    t1: Seq<ParsedLine>,
    g2: Seq<ParsedLine>,
    t2: Seq<ParsedLine>,
    n: nat,
)
    requires
        n <= g1.len(),
        n <= t1.len(),
        n <= g2.len(),
        n <= t2.len(),
        forall|i: int| 0 <= i < n ==> g1[i] == g2[i] && t1[i] == t2[i],
    ensures
        pipeline_after(g1, t1, n) == pipeline_after(g2, t2, n),
        forall|i: int| 0 <= i < n ==> #[trigger] line_result(g1, t1, i) == line_result(g2, t2, i),
        errors_upto(g1, t1, n) == errors_upto(g2, t2, n),
        reported_lines(g1, t1, n) == reported_lines(g2, t2, n),
    decreases n,
{
    if n > 0 {
        lemma_same_prefix(g1, t1, g2, t2, (n - 1) as nat);
        assert(line_result(g1, t1, n - 1) == line_result(g2, t2, n - 1));
    }
}

proof fn lemma_consistent_alike(
    g1: Seq<ParsedLine>,
    t1: Seq<ParsedLine>,
    g2: Seq<ParsedLine>,
    t2: Seq<ParsedLine>,
)
    requires
        min_len(g1, t1) == min_len(g2, t2),
        forall|i: int|
            0 <= i < min_len(g1, t1) ==> #[trigger] line_result(g1, t1, i) == line_result(g2, t2, i),
    ensures
        golden_consistent(g1, t1) == golden_consistent(g2, t2),
{
    if golden_consistent(g1, t1) {
        assert forall|i: int| 0 <= i < min_len(g2, t2) implies (#[trigger] line_result(g2, t2, i)).1 is None by {
            assert(line_result(g1, t1, i).1 is None);
        }
    }
    if golden_consistent(g2, t2) {
        assert forall|i: int| 0 <= i < min_len(g1, t1) implies (#[trigger] line_result(g1, t1, i)).1 is None by {
            assert(line_result(g2, t2, i).1 is None);
        }
    }
}

/// Lines appended to the trace under test, where it is already at least as
/// long as the golden trace, change nothing: not which line pairs are
/// compared, not the consistency of the golden trace, not the reports, not the
/// count.
pub proof fn law_lines_past_the_golden_trace_are_ignored(
    golden: Seq<ParsedLine>,
    test: Seq<ParsedLine>,
    extra: Seq<ParsedLine>,
)
    requires
        golden.len() <= test.len(),
    ensures
        min_len(golden, test + extra) == min_len(golden, test),
        golden_consistent(golden, test + extra) == golden_consistent(golden, test),
        reported_lines(golden, test + extra, min_len(golden, test)) == reported_lines(
            golden,
            test,
            min_len(golden, test),
        ),
        errors_upto(golden, test + extra, min_len(golden, test)) == errors_upto(
            golden,
            test,
            min_len(golden, test),
        ),
{
    let n = min_len(golden, test);
    let t2 = test + extra;
    assert forall|i: int| 0 <= i < n implies golden[i] == golden[i] && t2[i] == test[i] by {}
    lemma_same_prefix(golden, t2, golden, test, n);
    lemma_consistent_alike(golden, t2, golden, test);
}

/// Lines appended to the golden trace, where it is already at least as long
/// as the trace under test, change nothing either.
pub proof fn law_lines_past_the_test_trace_are_ignored(
    golden: Seq<ParsedLine>,
    test: Seq<ParsedLine>,
    extra: Seq<ParsedLine>,
)
    requires
        test.len() <= golden.len(),
    ensures
        min_len(golden + extra, test) == min_len(golden, test),
        golden_consistent(golden + extra, test) == golden_consistent(golden, test),
        reported_lines(golden + extra, test, min_len(golden, test)) == reported_lines(
            golden,
            test,
            min_len(golden, test),
        ),
        errors_upto(golden + extra, test, min_len(golden, test)) == errors_upto(
            golden,
            test,
            min_len(golden, test),
        ),
{
    let n = min_len(golden, test);
    let g2 = golden + extra;
    assert forall|i: int| 0 <= i < n implies g2[i] == golden[i] && test[i] == test[i] by {}
    lemma_same_prefix(g2, test, golden, test, n);
    lemma_consistent_alike(g2, test, golden, test);
}

/// The number of fields on which two fetch lines differ.
pub open spec fn fetch_differences(g: FetchLine, t: FetchLine) -> nat {
    (if g.pc != t.pc { 1nat } else { 0nat }) + (if g.instr != t.instr { 1nat } else { 0nat })
}

proof fn lemma_fetch_line_result(golden: Seq<ParsedLine>, test: Seq<ParsedLine>, j: int)
    requires
        0 <= j < golden.len(),
        j < test.len(),
        golden[j] is F,
        test[j] is F,
    ensures
        line_result(golden, test, j).0.len() == fetch_differences(golden[j]->F_0, test[j]->F_0),
{
    let p = pipeline_after(golden, test, (j + 1) as nat);
    let cs = line_checks(p, golden[j], test[j]);
    assert(cs.drop_last().drop_last() =~= seq![]);
    reveal_with_fuel(run, 3);
}

/// Changing one fetch line of the trace under test (for another fetch line)
/// changes the count by exactly that line's own fetch differences: the golden
/// pipeline is fed from the golden trace only.
pub proof fn law_test_fetch_line_counts_alone(
    golden: Seq<ParsedLine>,
    test1: Seq<ParsedLine>,
    test2: Seq<ParsedLine>,
    j: int,
    n: nat,
)
    requires
        test1.len() == test2.len(),
        0 <= j < n,
        n <= golden.len(),
        n <= test1.len(),
        forall|i: int| 0 <= i < test1.len() && i != j ==> test1[i] == test2[i],
        golden[j] is F,
        test1[j] is F,
        test2[j] is F,
    ensures
        errors_upto(golden, test1, n) + fetch_differences(golden[j]->F_0, test2[j]->F_0)
            == errors_upto(golden, test2, n) + fetch_differences(golden[j]->F_0, test1[j]->F_0),
    decreases n,
{
    lemma_fetch_line_result(golden, test1, j);
    lemma_fetch_line_result(golden, test2, j);
    let k = (n - 1) as nat;
    if k > j {
        law_test_fetch_line_counts_alone(golden, test1, test2, j, k);
    } else {
        lemma_prefix_counts(golden, test1, test2, k);
    }
    law_pipeline_follows_golden(golden, test1, test2, n);
    if k != j {
        assert(line_result(golden, test1, k as int) == line_result(golden, test2, k as int));
    }
}

proof fn lemma_prefix_counts(golden: Seq<ParsedLine>, test1: Seq<ParsedLine>, test2: Seq<ParsedLine>, n: nat)
    requires
        n <= golden.len(),
        n <= test1.len(),
        n <= test2.len(),
        forall|i: int| 0 <= i < n ==> test1[i] == test2[i],
    ensures
        errors_upto(golden, test1, n) == errors_upto(golden, test2, n),
{
    lemma_same_prefix(golden, test1, golden, test2, n);
}


/// The line pairs before the first golden fault form a consistent pair of
/// traces of their own, compared exactly as they are within the whole traces.
pub proof fn law_prefix_before_first_fault_is_consistent(
    golden: Seq<ParsedLine>,
    test: Seq<ParsedLine>,
    i: int,
)
    requires
        0 <= i <= min_len(golden, test),
        forall|j: int| 0 <= j < i ==> (#[trigger] line_result(golden, test, j)).1 is None,
    ensures
        min_len(golden.take(i), test.take(i)) == i,
        golden_consistent(golden.take(i), test.take(i)),
        reported_lines(golden.take(i), test.take(i), i as nat) == reported_lines(golden, test, i as nat),
        errors_upto(golden.take(i), test.take(i), i as nat) == errors_upto(golden, test, i as nat),
{
    let g = golden.take(i);
    let t = test.take(i);
    lemma_same_prefix(g, t, golden, test, i as nat);
    assert forall|j: int| 0 <= j < min_len(g, t) implies (#[trigger] line_result(g, t, j)).1 is None by {
        assert(line_result(g, t, j) == line_result(golden, test, j));
    }
}

} // verus!

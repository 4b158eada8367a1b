//! When the golden trace agrees with the decoder: exactly when every golden
//! decode, register-read and writeback line carries the register numbers,
//! function codes and immediate that the instruction in its stage encodes.

use vstd::prelude::*;
use crate::compare::{
    checks_if, decode_checks, field_pair, golden_consistent, line_checks, line_result, min_len,
    pipeline_after, register_checks, run, word_pattern, writeback_checks, Check, GoldenFault,
    GoldenField, Mismatch,
};
use crate::instruction::{
    format_has_funct3, format_has_funct7, format_has_rd, format_has_rs1, format_has_rs2,
    format_has_shamt, format_of, funct3_bits, funct7_bits, imm_of, opcode_bits, rd_bits, rs1_bits,
    rs2_bits, Format,
};
use crate::laws::kind_of;
use crate::pipeline::Pipeline;
use crate::trace::{DecodeLine, ParsedLine, RegisterLine, WritebackLine};

verus! {

/// The golden decode line `d` carries what the word `w` encodes, in every
/// field that `w` has: its register numbers, function codes, shift amount,
/// and its immediate as a 32-bit two's complement pattern.
pub open spec fn decode_line_agrees(w: u32, d: DecodeLine) -> bool {
    let f = format_of(w);
    &&& format_has_rd(f) ==> d.rd == rd_bits(w)
    &&& format_has_rs1(f) ==> d.rs1 == rs1_bits(w)
    &&& format_has_rs2(f) ==> d.rs2 == rs2_bits(w)
    &&& format_has_funct3(f) ==> d.funct3 == funct3_bits(w)
    &&& format_has_funct7(f) ==> d.funct7 == funct7_bits(w)
    &&& imm_of(w) is Some ==> d.imm == imm_of(w)->0 % 0x1_0000_0000
    &&& format_has_shamt(f) ==> d.shamt == rs2_bits(w)
}

/// The golden register-read line `r` names the source registers that the
/// word `w` encodes, where it has them.
pub open spec fn register_line_agrees(w: u32, r: RegisterLine) -> bool {
    &&& format_has_rs1(format_of(w)) ==> r.addr_rs1 == rs1_bits(w)
    &&& format_has_rs2(format_of(w)) ==> r.addr_rs2 == rs2_bits(w)
}

/// The golden writeback line `x` names the destination register that the
/// word `w` encodes, where it has one.
pub open spec fn writeback_line_agrees(w: u32, x: WritebackLine) -> bool {
    format_has_rd(format_of(w)) ==> x.addr_rd == rd_bits(w)
}

/// The golden line `g` agrees with the instruction that the golden pipeline
/// `p` holds in its stage: decode and register-read lines with the one in
/// decode, writeback lines with the one in writeback. A bubble, and every
/// other kind of line, leaves nothing to agree on.
pub open spec fn golden_line_agrees(p: Pipeline, g: ParsedLine) -> bool {
    match g {
        ParsedLine::D(d) => match p.d.instr {
            Some(i) => decode_line_agrees(i@, d),
            None => true,
        },
        ParsedLine::R(r) => match p.d.instr {
            Some(i) => register_line_agrees(i@, r),
            None => true,
        },
        ParsedLine::W(x) => match p.w.instr {
            Some(i) => writeback_line_agrees(i@, x),
            None => true,
        },
        _ => true,
    }
}

/// Every golden check in `cs` passes.
pub open spec fn golden_checks_pass(cs: Seq<Check>) -> bool {
    forall|k: int|
        0 <= k < cs.len() ==> match #[trigger] cs[k] {
            Check::Golden(f) => f.golden == f.decoded,
            Check::Compare(_, _) => true,
        }
}

proof fn lemma_run_fault(cs: Seq<Check>)
    ensures
        run(cs).1 is None <==> golden_checks_pass(cs),
    decreases cs.len(),
{
    if cs.len() > 0 {
        let prev = cs.drop_last();
        let last = cs[cs.len() - 1];
        assert(cs.last() == last);
        lemma_run_fault(prev);
        if golden_checks_pass(cs) {
            assert forall|k: int| 0 <= k < prev.len() implies match #[trigger] prev[k] {
                Check::Golden(f) => f.golden == f.decoded,
                Check::Compare(_, _) => true,
            } by {
                assert(prev[k] == cs[k]);
            }
            assert(match cs[cs.len() - 1] {
                Check::Golden(f) => f.golden == f.decoded,
                Check::Compare(_, _) => true,
            });
        } else if golden_checks_pass(prev) {
            let k = choose|k: int|
                0 <= k < cs.len() && !match #[trigger] cs[k] {
                    Check::Golden(f) => f.golden == f.decoded,
                    Check::Compare(_, _) => true,
                };
            if k < prev.len() {
                assert(prev[k] == cs[k]);
            }
        } else {
            let k = choose|k: int|
                0 <= k < prev.len() && !match #[trigger] prev[k] {
                    Check::Golden(f) => f.golden == f.decoded,
                    Check::Compare(_, _) => true,
                };
            assert(prev[k] == cs[k]);
        }
    }
}

proof fn lemma_pass_concat(a: Seq<Check>, b: Seq<Check>)
    ensures
        golden_checks_pass(a + b) <==> golden_checks_pass(a) && golden_checks_pass(b),
{
    let s = a + b;
    if golden_checks_pass(s) {
        assert forall|k: int| 0 <= k < a.len() implies match #[trigger] a[k] {
            Check::Golden(f) => f.golden == f.decoded,
            Check::Compare(_, _) => true,
        } by {
            assert(s[k] == a[k]);
        }
        assert forall|k: int| 0 <= k < b.len() implies match #[trigger] b[k] {
            Check::Golden(f) => f.golden == f.decoded,
            Check::Compare(_, _) => true,
        } by {
            assert(s[a.len() + k] == b[k]);
        }
    }
    if golden_checks_pass(a) && golden_checks_pass(b) {
        assert forall|k: int| 0 <= k < s.len() implies match #[trigger] s[k] {
            Check::Golden(f) => f.golden == f.decoded,
            Check::Compare(_, _) => true,
        } by {
            if k < a.len() {
                assert(s[k] == a[k]);
            } else {
                assert(s[k] == b[k - a.len()]);
            }
        }
    }
}

proof fn lemma_pass_pair(present: bool, m: Mismatch, d: bool, fault: GoldenFault)
    ensures
        golden_checks_pass(field_pair(present, m, d, fault)) <==> (present ==> fault.golden
            == fault.decoded),
{
    let s = seq![Check::Compare(m, d), Check::Golden(fault)];
    if present && golden_checks_pass(field_pair(present, m, d, fault)) {
        assert(s[1] == Check::Golden(fault));
    }
}

proof fn lemma_pass_compare(m: Mismatch, d: bool)
    ensures
        golden_checks_pass(seq![Check::Compare(m, d)]),
{
}

proof fn lemma_pass_three(m1: Mismatch, d1: bool, f: GoldenFault, m2: Mismatch, d2: bool)
    ensures
        golden_checks_pass(seq![Check::Compare(m1, d1), Check::Golden(f), Check::Compare(m2, d2)])
            <==> f.golden == f.decoded,
{
    let s = seq![Check::Compare(m1, d1), Check::Golden(f), Check::Compare(m2, d2)];
    if golden_checks_pass(s) {
        assert(s[1] == Check::Golden(f));
    }
}

/// The immediate of a word lies within the 32-bit range.
proof fn lemma_imm_range(w: u32)
    ensures
        imm_of(w) is Some ==> -0x1_0000_0000 <= imm_of(w)->0 < 0x1_0000_0000,
{
    assert(w as int / 0x10_0000 < 0x1000);
    assert(w as int / 0x200_0000 < 0x80);
    assert((w as int / 0x1000) * 0x1000 <= w as int);
    assert(w as int / 0x8000_0000 <= 1);
}

/// A register-sized golden field agrees with the decoder's value exactly
/// where the two are equal as numbers.
proof fn lemma_small_field(g: u8, v: int)
    requires
        0 <= v < 0x100,
    ensures
        (g as u32 == v as u32) <==> (g == v),
{
}

#[verifier::spinoff_prover]
#[verifier::rlimit(60)]
proof fn lemma_decode_pass(w: u32, a: DecodeLine, b: DecodeLine)
    ensures
        golden_checks_pass(decode_checks(w, a, b)) <==> decode_line_agrees(w, a),
{
    let f = format_of(w);
    let s0 = seq![Check::Compare(Mismatch::Pc, a.pc != b.pc)];
    let c1 = seq![Check::Compare(Mismatch::Opcode, a.opcode != b.opcode)];
    let p1 = checks_if(opcode_bits(w) != 0x0f, c1);
    lemma_pass_compare(Mismatch::Pc, a.pc != b.pc);
    lemma_pass_compare(Mismatch::Opcode, a.opcode != b.opcode);
    lemma_pass_concat(s0, p1);
    let s1 = s0 + p1;
    let g2 = GoldenFault { field: GoldenField::Rd, golden: a.rd as u32, decoded: rd_bits(w) as u32 };
    let p2 = field_pair(format_has_rd(f), Mismatch::Rd, a.rd != b.rd, g2);
    lemma_pass_pair(format_has_rd(f), Mismatch::Rd, a.rd != b.rd, g2);
    lemma_small_field(a.rd, rd_bits(w));
    lemma_pass_concat(s1, p2);
    let s2 = s1 + p2;
    let g3 = GoldenFault { field: GoldenField::Rs1, golden: a.rs1 as u32, decoded: rs1_bits(w) as u32 };
    let p3 = field_pair(format_has_rs1(f), Mismatch::Rs1, a.rs1 != b.rs1, g3);
    lemma_pass_pair(format_has_rs1(f), Mismatch::Rs1, a.rs1 != b.rs1, g3);
    lemma_small_field(a.rs1, rs1_bits(w));
    lemma_pass_concat(s2, p3);
    let s3 = s2 + p3;
    let g4 = GoldenFault { field: GoldenField::Rs2, golden: a.rs2 as u32, decoded: rs2_bits(w) as u32 };
    let p4 = field_pair(format_has_rs2(f), Mismatch::Rs2, a.rs2 != b.rs2, g4);
    lemma_pass_pair(format_has_rs2(f), Mismatch::Rs2, a.rs2 != b.rs2, g4);
    lemma_small_field(a.rs2, rs2_bits(w));
    lemma_pass_concat(s3, p4);
    let s4 = s3 + p4;
    let g5 = GoldenFault { field: GoldenField::Funct3, golden: a.funct3 as u32, decoded: funct3_bits(w) as u32 };
    let p5 = field_pair(format_has_funct3(f), Mismatch::Funct3, a.funct3 != b.funct3, g5);
    lemma_pass_pair(format_has_funct3(f), Mismatch::Funct3, a.funct3 != b.funct3, g5);
    lemma_small_field(a.funct3, funct3_bits(w));
    lemma_pass_concat(s4, p5);
    let s5 = s4 + p5;
    let g6 = GoldenFault { field: GoldenField::Funct7, golden: a.funct7 as u32, decoded: funct7_bits(w) as u32 };
    let p6 = field_pair(format_has_funct7(f), Mismatch::Funct7, a.funct7 != b.funct7, g6);
    lemma_pass_pair(format_has_funct7(f), Mismatch::Funct7, a.funct7 != b.funct7, g6);
    lemma_small_field(a.funct7, funct7_bits(w));
    lemma_pass_concat(s5, p6);
    let s6 = s5 + p6;
    let g7 = GoldenFault { field: GoldenField::Imm, golden: a.imm, decoded: word_pattern(imm_of(w)->0) as u32 };
    let p7 = field_pair(imm_of(w) is Some, Mismatch::Imm, a.imm != b.imm, g7);
    lemma_pass_pair(imm_of(w) is Some, Mismatch::Imm, a.imm != b.imm, g7);
    lemma_imm_range(w);
    lemma_pass_concat(s6, p7);
    let s7 = s6 + p7;
    let g8 = GoldenFault { field: GoldenField::Shamt, golden: a.shamt as u32, decoded: rs2_bits(w) as u32 };
    let p8 = field_pair(format_has_shamt(f), Mismatch::Shamt, a.shamt != b.shamt, g8);
    lemma_pass_pair(format_has_shamt(f), Mismatch::Shamt, a.shamt != b.shamt, g8);
    lemma_small_field(a.shamt, rs2_bits(w));
    lemma_pass_concat(s7, p8);
    assert(s7 + p8 == decode_checks(w, a, b));
}

proof fn lemma_register_pass(w: u32, a: RegisterLine, b: RegisterLine)
    ensures
        golden_checks_pass(register_checks(w, a, b)) <==> register_line_agrees(w, a),
{
    let f = format_of(w);
    let g1 = GoldenFault { field: GoldenField::Rs1Addr, golden: a.addr_rs1 as u32, decoded: rs1_bits(w) as u32 };
    let g2 = GoldenFault { field: GoldenField::Rs2Addr, golden: a.addr_rs2 as u32, decoded: rs2_bits(w) as u32 };
    let x = seq![
        Check::Compare(Mismatch::Rs1Addr, a.addr_rs1 != b.addr_rs1),
        Check::Golden(g1),
        Check::Compare(Mismatch::Rs1Data, a.data_rs1 != b.data_rs1),
    ];
    let y = seq![
        Check::Compare(Mismatch::Rs2Addr, a.addr_rs2 != b.addr_rs2),
        Check::Golden(g2),
        Check::Compare(Mismatch::Rs2Data, a.data_rs2 != b.data_rs2),
    ];
    lemma_pass_three(Mismatch::Rs1Addr, a.addr_rs1 != b.addr_rs1, g1, Mismatch::Rs1Data, a.data_rs1 != b.data_rs1);
    lemma_pass_three(Mismatch::Rs2Addr, a.addr_rs2 != b.addr_rs2, g2, Mismatch::Rs2Data, a.data_rs2 != b.data_rs2);
    lemma_small_field(a.addr_rs1, rs1_bits(w));
    lemma_small_field(a.addr_rs2, rs2_bits(w));
    lemma_pass_concat(checks_if(format_has_rs1(f), x), checks_if(format_has_rs2(f), y));
}

proof fn lemma_writeback_pass(w: u32, a: WritebackLine, b: WritebackLine)
    ensures
        golden_checks_pass(writeback_checks(w, a, b)) <==> writeback_line_agrees(w, a),
{
    let g = GoldenFault { field: GoldenField::RdAddr, golden: a.addr_rd as u32, decoded: rd_bits(w) as u32 };
    let x = seq![Check::Compare(Mismatch::Pc, a.pc != b.pc)];
    let y = seq![Check::Compare(Mismatch::WriteEnable, a.we != b.we)];
    let z = seq![
        Check::Compare(Mismatch::RdAddr, a.addr_rd != b.addr_rd),
        Check::Golden(g),
        Check::Compare(Mismatch::RdData, a.data_rd != b.data_rd),
    ];
    let k1 = opcode_bits(w) != 0x0f;
    let k2 = format_has_rd(format_of(w));
    lemma_pass_compare(Mismatch::Pc, a.pc != b.pc);
    lemma_pass_compare(Mismatch::WriteEnable, a.we != b.we);
    lemma_pass_three(Mismatch::RdAddr, a.addr_rd != b.addr_rd, g, Mismatch::RdData, a.data_rd != b.data_rd);
    lemma_small_field(a.addr_rd, rd_bits(w));
    lemma_pass_concat(y, checks_if(k2, z));
    lemma_pass_concat(x, checks_if(k1, y + checks_if(k2, z)));
    assert(!k1 ==> format_of(w) == Format::Other);
}

proof fn lemma_line_pass(p: Pipeline, g: ParsedLine, t: ParsedLine)
    ensures
        golden_checks_pass(line_checks(p, g, t)) <==> (kind_of(g) == kind_of(t)
            ==> golden_line_agrees(p, g)),
{
    match (g, t) {
        (ParsedLine::F(a), ParsedLine::F(b)) => {
            lemma_pass_concat(
                seq![Check::Compare(Mismatch::Pc, a.pc != b.pc)],
                seq![Check::Compare(Mismatch::FetchedInstr, a.instr != b.instr)],
            );
            assert(seq![Check::Compare(Mismatch::Pc, a.pc != b.pc)] + seq![
                Check::Compare(Mismatch::FetchedInstr, a.instr != b.instr),
            ] =~= line_checks(p, g, t));
        },
        (ParsedLine::D(a), ParsedLine::D(b)) => {
            if let Some(i) = p.d.instr {
                lemma_decode_pass(i@, a, b);
            }
        },
        (ParsedLine::R(a), ParsedLine::R(b)) => {
            if let Some(i) = p.d.instr {
                lemma_register_pass(i@, a, b);
            }
        },
        (ParsedLine::E(a), ParsedLine::E(b)) => {},
        (ParsedLine::M(a), ParsedLine::M(b)) => {},
        (ParsedLine::W(a), ParsedLine::W(b)) => {
            if let Some(i) = p.w.instr {
                lemma_writeback_pass(i@, a, b);
            }
        },
        _ => {
            lemma_pass_compare(Mismatch::LineKinds, true);
        },
    }
}

/// A golden check fails on a line pair of one kind exactly where the golden
/// line disagrees with the instruction in its stage of the golden pipeline;
/// on a pair of two kinds of line, none fails.
pub proof fn law_golden_fault_iff_disagreement(golden: Seq<ParsedLine>, test: Seq<ParsedLine>, i: int)
    requires
        0 <= i < golden.len(),
        i < test.len(),
    ensures
        line_result(golden, test, i).1 is None <==> (kind_of(golden[i]) == kind_of(test[i])
            ==> golden_line_agrees(pipeline_after(golden, test, (i + 1) as nat), golden[i])),
{
    let p = pipeline_after(golden, test, (i + 1) as nat);
    lemma_line_pass(p, golden[i], test[i]);
    lemma_run_fault(line_checks(p, golden[i], test[i]));
}

/// A golden trace is consistent with the decoder exactly when each of its
/// decode, register-read and writeback lines (against a line of the same
/// kind) carries the fields that the instruction in its stage encodes.
pub proof fn law_consistent_iff_golden_lines_agree(golden: Seq<ParsedLine>, test: Seq<ParsedLine>)
    ensures
        golden_consistent(golden, test) <==> forall|i: int|
            0 <= i < min_len(golden, test) && kind_of(golden[i]) == kind_of(test[i])
                ==> golden_line_agrees(
                #[trigger] pipeline_after(golden, test, (i + 1) as nat),
                golden[i],
            ),
{
    let n = min_len(golden, test);
    if golden_consistent(golden, test) {
        assert forall|i: int|
            0 <= i < n && kind_of(golden[i]) == kind_of(test[i]) implies golden_line_agrees(
            #[trigger] pipeline_after(golden, test, (i + 1) as nat),
            golden[i],
        ) by {
            assert(line_result(golden, test, i).1 is None);
            law_golden_fault_iff_disagreement(golden, test, i);
        }
    }
    if forall|i: int|
        0 <= i < n && kind_of(golden[i]) == kind_of(test[i]) ==> golden_line_agrees(
            #[trigger] pipeline_after(golden, test, (i + 1) as nat),
            golden[i],
        ) {
        assert forall|i: int| 0 <= i < n implies (#[trigger] line_result(golden, test, i)).1 is None by {
            law_golden_fault_iff_disagreement(golden, test, i);
            if kind_of(golden[i]) == kind_of(test[i]) {
                assert(golden_line_agrees(pipeline_after(golden, test, (i + 1) as nat), golden[i]));
            }
        }
    }
}

} // verus!

//! How many mismatches a line pair yields: each kind at most once, and, where
//! no golden check fails, exactly the kinds that are real and relevant.

use vstd::prelude::*;
use crate::compare::{
    checks_if, decode_checks, execute_checks, field_pair, line_checks, line_result, memory_checks,
    pipeline_after, register_checks, run, word_pattern, writeback_checks, Check, GoldenFault,
    GoldenField, Mismatch,
};
use crate::instruction::{
    format_has_funct3, format_has_funct7, format_has_rd, format_has_rs1, format_has_rs2,
    format_has_shamt, format_of, funct3_bits, funct7_bits, imm_of, opcode_bits, rd_bits, rs1_bits,
    rs2_bits, Format,
};
use crate::laws::{
    field_differs, law_mismatches_are_real_and_relevant, law_relevant_differences_are_reported,
    relevant,
};
use crate::pipeline::Pipeline;
use crate::trace::{DecodeLine, ExecuteLine, MemoryLine, ParsedLine, RegisterLine, WritebackLine};

verus! {

/// The place of a mismatch kind in the order in which a line's fields are
/// checked: fetch and decode fields, register reads, execute, memory,
/// writeback, and mismatched line kinds last.
pub open spec fn check_order(m: Mismatch) -> int {
    match m {
        Mismatch::Pc => 0,
        Mismatch::FetchedInstr => 1,
        Mismatch::Opcode => 2,
        Mismatch::Rd => 3,
        Mismatch::Rs1 => 4,
        Mismatch::Rs2 => 5,
        Mismatch::Funct3 => 6,
        Mismatch::Funct7 => 7,
        Mismatch::Imm => 8,
        Mismatch::Shamt => 9,
        Mismatch::Rs1Addr => 10,
        Mismatch::Rs1Data => 11,
        Mismatch::Rs2Addr => 12,
        Mismatch::Rs2Data => 13,
        Mismatch::AluResult => 14,
        Mismatch::BranchTaken => 15,
        Mismatch::ReadNotWrite => 16,
        Mismatch::Address => 17,
        Mismatch::AccessSize => 18,
        Mismatch::MemoryWdata => 19,
        Mismatch::WriteEnable => 20,
        Mismatch::RdAddr => 21,
        Mismatch::RdData => 22,
        Mismatch::LineKinds => 23,
    }
}

/// Every comparison in `cs` is of a kind whose place lies in `[lo, hi)`, and
/// the comparisons come in strictly increasing order of their kinds.
pub open spec fn ordered_within(cs: Seq<Check>, lo: int, hi: int) -> bool {
    &&& forall|k: int|
        0 <= k < cs.len() ==> match #[trigger] cs[k] {
            Check::Compare(m, _) => lo <= check_order(m) < hi,
            Check::Golden(_) => true,
        }
    &&& forall|k: int, l: int|
        0 <= k < l < cs.len() ==> match (#[trigger] cs[k], #[trigger] cs[l]) {
            (Check::Compare(a, _), Check::Compare(b, _)) => check_order(a) < check_order(b),
            _ => true,
        }
}

/// The kinds in `s` come in strictly increasing order, all within `[lo, hi)`.
pub open spec fn increasing_within(s: Seq<Mismatch>, lo: int, hi: int) -> bool {
    &&& forall|k: int| 0 <= k < s.len() ==> lo <= check_order(#[trigger] s[k]) < hi
    &&& forall|k: int, l: int|
        0 <= k < l < s.len() ==> check_order(#[trigger] s[k]) < check_order(#[trigger] s[l])
}

proof fn lemma_run_increasing(cs: Seq<Check>, lo: int, hi: int)
    requires
        ordered_within(cs, lo, hi),
    ensures
        increasing_within(run(cs).0, lo, hi),
    decreases cs.len(),
{
    if cs.len() > 0 {
        let prev = cs.drop_last();
        let last = cs[cs.len() - 1];
        assert(cs.last() == last);
        let mut top = hi;
        if let Check::Compare(m, d) = last {
            if d && run(prev).1 is None {
                top = check_order(m);
            }
        }
        assert(ordered_within(prev, lo, top)) by {
            assert forall|k: int| 0 <= k < prev.len() implies match #[trigger] prev[k] {
                Check::Compare(m, _) => lo <= check_order(m) < top,
                Check::Golden(_) => true,
            } by {
                assert(prev[k] == cs[k]);
                let l = cs.len() - 1;
                assert(match (cs[k], cs[l]) {
                    (Check::Compare(a, _), Check::Compare(b, _)) => check_order(a) < check_order(b),
                    _ => true,
                });
            }
            assert forall|k: int, l: int| 0 <= k < l < prev.len() implies match (
                #[trigger] prev[k],
                #[trigger] prev[l],
            ) {
                (Check::Compare(a, _), Check::Compare(b, _)) => check_order(a) < check_order(b),
                _ => true,
            } by {
                assert(prev[k] == cs[k]);
                assert(prev[l] == cs[l]);
            }
        }
        lemma_run_increasing(prev, lo, top);
        let r = run(cs).0;
        let q = run(prev).0;
        if let Check::Compare(m, d) = last {
            if d && run(prev).1 is None {
                assert(r == q.push(m));
                assert(lo <= check_order(m) < hi) by {
                    assert(match cs[cs.len() - 1] {
                        Check::Compare(m, _) => lo <= check_order(m) < hi,
                        Check::Golden(_) => true,
                    });
                }
                assert forall|k: int| 0 <= k < r.len() implies lo <= check_order(#[trigger] r[k])
                    < hi by {
                    if k < q.len() {
                        assert(r[k] == q[k]);
                    }
                }
                assert forall|k: int, l: int| 0 <= k < l < r.len() implies check_order(
                    #[trigger] r[k],
                ) < check_order(#[trigger] r[l]) by {
                    assert(r[k] == q[k]);
                    if l < q.len() {
                        assert(r[l] == q[l]);
                    }
                }
            }
        }
    }
}

proof fn lemma_ordered_empty(lo: int, hi: int)
    ensures
        ordered_within(Seq::<Check>::empty(), lo, hi),
{
}

proof fn lemma_ordered_if(c: bool, cs: Seq<Check>, lo: int, hi: int)
    requires
        ordered_within(cs, lo, hi),
    ensures
        ordered_within(checks_if(c, cs), lo, hi),
{
}

proof fn lemma_ordered_concat(a: Seq<Check>, b: Seq<Check>, lo: int, mid: int, hi: int)
    requires
        lo <= mid <= hi,
        ordered_within(a, lo, mid),
        ordered_within(b, mid, hi),
    ensures
        ordered_within(a + b, lo, hi),
{
    let s = a + b;
    assert forall|k: int| 0 <= k < s.len() implies match #[trigger] s[k] {
        Check::Compare(m, _) => lo <= check_order(m) < hi,
        Check::Golden(_) => true,
    } by {
        if k < a.len() {
            assert(s[k] == a[k]);
        } else {
            assert(s[k] == b[k - a.len()]);
        }
    }
    assert forall|k: int, l: int| 0 <= k < l < s.len() implies match (
        #[trigger] s[k],
        #[trigger] s[l],
    ) {
        (Check::Compare(x, _), Check::Compare(y, _)) => check_order(x) < check_order(y),
        _ => true,
    } by {
        if l < a.len() {
            assert(s[k] == a[k]);
            assert(s[l] == a[l]);
        } else if k >= a.len() {
            assert(s[k] == b[k - a.len()]);
            assert(s[l] == b[l - a.len()]);
        } else {
            assert(s[k] == a[k]);
            assert(s[l] == b[l - a.len()]);
        }
    }
}

proof fn lemma_ordered_one(m: Mismatch, d: bool)
    ensures
        ordered_within(seq![Check::Compare(m, d)], check_order(m), check_order(m) + 1),
{
}

proof fn lemma_ordered_pair(present: bool, m: Mismatch, d: bool, fault: GoldenFault)
    ensures
        ordered_within(field_pair(present, m, d, fault), check_order(m), check_order(m) + 1),
{
    let s = seq![Check::Compare(m, d), Check::Golden(fault)];
    assert(ordered_within(s, check_order(m), check_order(m) + 1));
}

proof fn lemma_ordered_two(m1: Mismatch, d1: bool, m2: Mismatch, d2: bool)
    requires
        check_order(m1) < check_order(m2),
    ensures
        ordered_within(
            seq![Check::Compare(m1, d1), Check::Compare(m2, d2)],
            check_order(m1),
            check_order(m2) + 1,
        ),
{
}

proof fn lemma_ordered_three(m1: Mismatch, d1: bool, f: GoldenFault, m2: Mismatch, d2: bool)
    requires
        check_order(m1) < check_order(m2),
    ensures
        ordered_within(
            seq![Check::Compare(m1, d1), Check::Golden(f), Check::Compare(m2, d2)],
            check_order(m1),
            check_order(m2) + 1,
        ),
{
}

proof fn lemma_ordered_widen(cs: Seq<Check>, lo: int, hi: int, lo2: int, hi2: int)
    requires
        ordered_within(cs, lo, hi),
        lo2 <= lo,
        hi <= hi2,
    ensures
        ordered_within(cs, lo2, hi2),
{
    assert forall|k: int| 0 <= k < cs.len() implies match #[trigger] cs[k] {
        Check::Compare(m, _) => lo2 <= check_order(m) < hi2,
        Check::Golden(_) => true,
    } by {
        assert(match cs[k] {
            Check::Compare(m, _) => lo <= check_order(m) < hi,
            Check::Golden(_) => true,
        });
    }
}

/// Appends `b`, whose kinds lie in `[mid, hi)`, to `a`, whose kinds lie in `[lo, top)`.
proof fn lemma_ordered_append(a: Seq<Check>, b: Seq<Check>, lo: int, top: int, mid: int, hi: int)
    requires
        lo <= top <= mid <= hi,
        ordered_within(a, lo, top),
        ordered_within(b, mid, hi),
    ensures
        ordered_within(a + b, lo, hi),
{
    lemma_ordered_widen(a, lo, top, lo, mid);
    lemma_ordered_concat(a, b, lo, mid, hi);
}

#[verifier::spinoff_prover]
#[verifier::rlimit(40)]
proof fn lemma_decode_ordered(w: u32, a: DecodeLine, b: DecodeLine)
    ensures
        ordered_within(decode_checks(w, a, b), 0, 10),
{
    let f = format_of(w);
    let s0 = seq![Check::Compare(Mismatch::Pc, a.pc != b.pc)];
    lemma_ordered_one(Mismatch::Pc, a.pc != b.pc);
    let c1 = seq![Check::Compare(Mismatch::Opcode, a.opcode != b.opcode)];
    lemma_ordered_one(Mismatch::Opcode, a.opcode != b.opcode);
    let p1 = checks_if(opcode_bits(w) != 0x0f, c1);
    lemma_ordered_if(opcode_bits(w) != 0x0f, c1, 2, 3);
    lemma_ordered_append(s0, p1, 0, 1, 2, 3);
    let s1 = s0 + p1;
    let p2 = field_pair(format_has_rd(f), Mismatch::Rd, a.rd != b.rd, GoldenFault { field: GoldenField::Rd, golden: a.rd as u32, decoded: rd_bits(w) as u32 });
    lemma_ordered_pair(format_has_rd(f), Mismatch::Rd, a.rd != b.rd, GoldenFault { field: GoldenField::Rd, golden: a.rd as u32, decoded: rd_bits(w) as u32 });
    lemma_ordered_append(s1, p2, 0, 3, 3, 4);
    let s2 = s1 + p2;
    let p3 = field_pair(format_has_rs1(f), Mismatch::Rs1, a.rs1 != b.rs1, GoldenFault { field: GoldenField::Rs1, golden: a.rs1 as u32, decoded: rs1_bits(w) as u32 });
    lemma_ordered_pair(format_has_rs1(f), Mismatch::Rs1, a.rs1 != b.rs1, GoldenFault { field: GoldenField::Rs1, golden: a.rs1 as u32, decoded: rs1_bits(w) as u32 });
    lemma_ordered_append(s2, p3, 0, 4, 4, 5);
    let s3 = s2 + p3;
    let p4 = field_pair(format_has_rs2(f), Mismatch::Rs2, a.rs2 != b.rs2, GoldenFault { field: GoldenField::Rs2, golden: a.rs2 as u32, decoded: rs2_bits(w) as u32 });
    lemma_ordered_pair(format_has_rs2(f), Mismatch::Rs2, a.rs2 != b.rs2, GoldenFault { field: GoldenField::Rs2, golden: a.rs2 as u32, decoded: rs2_bits(w) as u32 });
    lemma_ordered_append(s3, p4, 0, 5, 5, 6);
    let s4 = s3 + p4;
    let p5 = field_pair(format_has_funct3(f), Mismatch::Funct3, a.funct3 != b.funct3, GoldenFault { field: GoldenField::Funct3, golden: a.funct3 as u32, decoded: funct3_bits(w) as u32 });
    lemma_ordered_pair(format_has_funct3(f), Mismatch::Funct3, a.funct3 != b.funct3, GoldenFault { field: GoldenField::Funct3, golden: a.funct3 as u32, decoded: funct3_bits(w) as u32 });
    lemma_ordered_append(s4, p5, 0, 6, 6, 7);
    let s5 = s4 + p5;
    let p6 = field_pair(format_has_funct7(f), Mismatch::Funct7, a.funct7 != b.funct7, GoldenFault { field: GoldenField::Funct7, golden: a.funct7 as u32, decoded: funct7_bits(w) as u32 });
    lemma_ordered_pair(format_has_funct7(f), Mismatch::Funct7, a.funct7 != b.funct7, GoldenFault { field: GoldenField::Funct7, golden: a.funct7 as u32, decoded: funct7_bits(w) as u32 });
    lemma_ordered_append(s5, p6, 0, 7, 7, 8);
    let s6 = s5 + p6;
    let p7 = field_pair(imm_of(w) is Some, Mismatch::Imm, a.imm != b.imm, GoldenFault { field: GoldenField::Imm, golden: a.imm, decoded: word_pattern(imm_of(w)->0) as u32 });
    lemma_ordered_pair(imm_of(w) is Some, Mismatch::Imm, a.imm != b.imm, GoldenFault { field: GoldenField::Imm, golden: a.imm, decoded: word_pattern(imm_of(w)->0) as u32 });
    lemma_ordered_append(s6, p7, 0, 8, 8, 9);
    let s7 = s6 + p7;
    let p8 = field_pair(format_has_shamt(f), Mismatch::Shamt, a.shamt != b.shamt, GoldenFault { field: GoldenField::Shamt, golden: a.shamt as u32, decoded: rs2_bits(w) as u32 });
    lemma_ordered_pair(format_has_shamt(f), Mismatch::Shamt, a.shamt != b.shamt, GoldenFault { field: GoldenField::Shamt, golden: a.shamt as u32, decoded: rs2_bits(w) as u32 });
    lemma_ordered_append(s7, p8, 0, 9, 9, 10);
    assert(s7 + p8 == decode_checks(w, a, b));
}

proof fn lemma_register_ordered(w: u32, a: RegisterLine, b: RegisterLine)
    ensures
        ordered_within(register_checks(w, a, b), 0, 24),
{
    let f = format_of(w);
    let g1 = GoldenFault { field: GoldenField::Rs1Addr, golden: a.addr_rs1 as u32, decoded: rs1_bits(w) as u32 };
    let g2 = GoldenFault { field: GoldenField::Rs2Addr, golden: a.addr_rs2 as u32, decoded: rs2_bits(w) as u32 };
    let x = seq![
        Check::Compare(Mismatch::Rs1Addr, a.addr_rs1 != b.addr_rs1),
        Check::Golden(g1),
        Check::Compare(Mismatch::Rs1Data, a.data_rs1 != b.data_rs1),
    ];
    let y = seq![
        Check::Compare(Mismatch::Rs2Addr, a.addr_rs2 != b.addr_rs2),
        Check::Golden(g2),
        Check::Compare(Mismatch::Rs2Data, a.data_rs2 != b.data_rs2),
    ];
    lemma_ordered_three(Mismatch::Rs1Addr, a.addr_rs1 != b.addr_rs1, g1, Mismatch::Rs1Data, a.data_rs1 != b.data_rs1);
    lemma_ordered_three(Mismatch::Rs2Addr, a.addr_rs2 != b.addr_rs2, g2, Mismatch::Rs2Data, a.data_rs2 != b.data_rs2);
    lemma_ordered_if(format_has_rs1(f), x, 10, 12);
    lemma_ordered_if(format_has_rs2(f), y, 12, 14);
    lemma_ordered_append(checks_if(format_has_rs1(f), x), checks_if(format_has_rs2(f), y), 10, 12, 12, 14);
    lemma_ordered_widen(register_checks(w, a, b), 10, 14, 0, 24);
}

proof fn lemma_execute_ordered(w: u32, a: ExecuteLine, b: ExecuteLine)
    ensures
        ordered_within(execute_checks(w, a, b), 0, 24),
{
    let s0 = seq![Check::Compare(Mismatch::Pc, a.pc != b.pc)];
    let c1 = seq![Check::Compare(Mismatch::AluResult, a.alu_result != b.alu_result)];
    let c2 = seq![Check::Compare(Mismatch::BranchTaken, a.branch_taken != b.branch_taken)];
    let k1 = opcode_bits(w) != 0x0f && opcode_bits(w) != 0x73;
    let k2 = format_of(w) == Format::B;
    lemma_ordered_one(Mismatch::Pc, a.pc != b.pc);
    lemma_ordered_one(Mismatch::AluResult, a.alu_result != b.alu_result);
    lemma_ordered_one(Mismatch::BranchTaken, a.branch_taken != b.branch_taken);
    lemma_ordered_if(k1, c1, 14, 15);
    lemma_ordered_if(k2, c2, 15, 16);
    lemma_ordered_append(s0, checks_if(k1, c1), 0, 1, 14, 15);
    lemma_ordered_append(s0 + checks_if(k1, c1), checks_if(k2, c2), 0, 15, 15, 24);
}

proof fn lemma_memory_ordered(w: u32, a: MemoryLine, b: MemoryLine)
    ensures
        ordered_within(memory_checks(w, a, b), 0, 24),
{
    let x = seq![
        Check::Compare(Mismatch::Pc, a.pc != b.pc),
        Check::Compare(Mismatch::ReadNotWrite, a.read_not_write != b.read_not_write),
    ];
    let y = seq![
        Check::Compare(Mismatch::Address, a.addr != b.addr),
        Check::Compare(Mismatch::AccessSize, a.access_size != b.access_size),
    ];
    let z = seq![Check::Compare(Mismatch::MemoryWdata, a.memory_wdata != b.memory_wdata)];
    let k1 = opcode_bits(w) == 0x03 || opcode_bits(w) == 0x23;
    let k2 = format_of(w) == Format::S;
    lemma_ordered_two(Mismatch::Pc, a.pc != b.pc, Mismatch::ReadNotWrite, a.read_not_write != b.read_not_write);
    lemma_ordered_two(Mismatch::Address, a.addr != b.addr, Mismatch::AccessSize, a.access_size != b.access_size);
    lemma_ordered_one(Mismatch::MemoryWdata, a.memory_wdata != b.memory_wdata);
    lemma_ordered_if(k1, y, 17, 19);
    lemma_ordered_if(k2, z, 19, 20);
    lemma_ordered_append(x, checks_if(k1, y), 0, 17, 17, 19);
    lemma_ordered_append(x + checks_if(k1, y), checks_if(k2, z), 0, 19, 19, 24);
}

proof fn lemma_writeback_ordered(w: u32, a: WritebackLine, b: WritebackLine)
    ensures
        ordered_within(writeback_checks(w, a, b), 0, 24),
{
    let g = GoldenFault { field: GoldenField::RdAddr, golden: a.addr_rd as u32, decoded: rd_bits(w) as u32 };
    let x = seq![Check::Compare(Mismatch::Pc, a.pc != b.pc)];
    let y = seq![Check::Compare(Mismatch::WriteEnable, a.we != b.we)];
    let z = seq![
        Check::Compare(Mismatch::RdAddr, a.addr_rd != b.addr_rd),
        Check::Golden(g),
        Check::Compare(Mismatch::RdData, a.data_rd != b.data_rd),
    ];
    let k1 = opcode_bits(w) != 0x0f;
    let k2 = format_has_rd(format_of(w));
    lemma_ordered_one(Mismatch::Pc, a.pc != b.pc);
    lemma_ordered_one(Mismatch::WriteEnable, a.we != b.we);
    lemma_ordered_three(Mismatch::RdAddr, a.addr_rd != b.addr_rd, g, Mismatch::RdData, a.data_rd != b.data_rd);
    lemma_ordered_if(k2, z, 21, 23);
    lemma_ordered_append(y, checks_if(k2, z), 20, 21, 21, 23);
    lemma_ordered_if(k1, y + checks_if(k2, z), 20, 23);
    lemma_ordered_append(x, checks_if(k1, y + checks_if(k2, z)), 0, 1, 20, 24);
}

proof fn lemma_line_checks_ordered(p: Pipeline, g: ParsedLine, t: ParsedLine)
    ensures
        ordered_within(line_checks(p, g, t), 0, 24),
{
    match (g, t) {
        (ParsedLine::F(a), ParsedLine::F(b)) => {
            lemma_ordered_two(Mismatch::Pc, a.pc != b.pc, Mismatch::FetchedInstr, a.instr != b.instr);
            lemma_ordered_widen(line_checks(p, g, t), 0, 2, 0, 24);
        },
        (ParsedLine::D(a), ParsedLine::D(b)) => {
            if let Some(i) = p.d.instr {
                lemma_decode_ordered(i@, a, b);
                lemma_ordered_widen(line_checks(p, g, t), 0, 10, 0, 24);
            }
        },
        (ParsedLine::R(a), ParsedLine::R(b)) => {
            if let Some(i) = p.d.instr {
                lemma_register_ordered(i@, a, b);
            }
        },
        (ParsedLine::E(a), ParsedLine::E(b)) => {
            if let Some(i) = p.e.instr {
                lemma_execute_ordered(i@, a, b);
            }
        },
        (ParsedLine::M(a), ParsedLine::M(b)) => {
            if let Some(i) = p.m.instr {
                lemma_memory_ordered(i@, a, b);
            }
        },
        (ParsedLine::W(a), ParsedLine::W(b)) => {
            if let Some(i) = p.w.instr {
                lemma_writeback_ordered(i@, a, b);
            }
        },
        _ => {
            lemma_ordered_one(Mismatch::LineKinds, true);
        },
    }
}

/// No mismatch is reported twice on a line pair: the mismatches of a line
/// come out in the order in which its fields are checked, each kind at most
/// once.
pub proof fn law_mismatches_are_distinct(golden: Seq<ParsedLine>, test: Seq<ParsedLine>, i: int)
    requires
        0 <= i < golden.len(),
        i < test.len(),
    ensures
        line_result(golden, test, i).0.no_duplicates(),
        forall|k: int, l: int|
            0 <= k < l < line_result(golden, test, i).0.len() ==> check_order(
                #[trigger] line_result(golden, test, i).0[k],
            ) < check_order(#[trigger] line_result(golden, test, i).0[l]),
{
    let p = pipeline_after(golden, test, (i + 1) as nat);
    lemma_line_checks_ordered(p, golden[i], test[i]);
    lemma_run_increasing(line_checks(p, golden[i], test[i]), 0, 24);
    let r = line_result(golden, test, i).0;
    assert forall|k: int, l: int| 0 <= k < r.len() && 0 <= l < r.len() && k != l implies r[k]
        != r[l] by {
        if k < l {
            assert(check_order(r[k]) < check_order(r[l]));
        } else {
            assert(check_order(r[l]) < check_order(r[k]));
        }
    }
}

/// On a line pair where no golden check fails, the mismatches reported are
/// exactly the kinds on which the two lines really differ in a field that
/// matters, each once: their number is the number of such kinds.
pub proof fn law_mismatch_count(golden: Seq<ParsedLine>, test: Seq<ParsedLine>, i: int)
    requires
        0 <= i < golden.len(),
        i < test.len(),
        line_result(golden, test, i).1 is None,
    ensures
        ({
            let kinds = Set::new(
                |m: Mismatch|
                    field_differs(m, golden[i], test[i]) && relevant(
                        m,
                        pipeline_after(golden, test, (i + 1) as nat),
                        golden[i],
                    ),
            );
            &&& kinds.finite()
            &&& line_result(golden, test, i).0.len() == kinds.len()
        }),
{
    let p = pipeline_after(golden, test, (i + 1) as nat);
    let r = line_result(golden, test, i).0;
    let kinds = Set::new(|m: Mismatch| field_differs(m, golden[i], test[i]) && relevant(m, p, golden[i]));
    law_mismatches_are_distinct(golden, test, i);
    law_mismatches_are_real_and_relevant(golden, test, i);
    law_relevant_differences_are_reported(golden, test, i);
    assert(r.to_set() =~= kinds) by {
        assert forall|m: Mismatch| kinds.contains(m) implies r.to_set().contains(m) by {
            assert(r.contains(m));
        }
        assert forall|m: Mismatch| r.to_set().contains(m) implies kinds.contains(m) by {
            let j = choose|j: int| 0 <= j < r.len() && r[j] == m;
            assert(r[j] == m);
        }
    }
    r.unique_seq_to_set();
    vstd::seq_lib::seq_to_set_is_finite(r);
}

} // verus!

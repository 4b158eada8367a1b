use pd5diff::compare::{compare, find_golden_fault, GoldenField, Mismatch};
use pd5diff::pipeline::Pipeline;
use pd5diff::trace::ParsedLine;

fn lines(text: &[&str]) -> Vec<ParsedLine> {
    text.iter().map(|s| ParsedLine::parse(s.as_bytes()).unwrap()).collect()
}

/// Four cycles that fetch the instructions that one sample cycle shows in
/// writeback, memory, execute and decode, then that cycle itself.
fn sample_golden() -> Vec<&'static str> {
    vec![
        "[F] 010000b0 fff08093",
        "[F] 010000b4 7ff08f13",
        "[F] 010000b8 80000eb7",
        "[F] 010000bc 7fee8e93",
        "[F] 010000c0 00a00193",
        "[D] 010000bc 13 1d 1d 00 0 3f 000007fe 1e",
        "[R] 1d 00 7fffffff 00000000",
        "[E] 010000b8 80000000 0",
        "[M] 010000b4 800007fe 0 0 00000000",
        "[W] 010000b0 1 01 7fffffff",
    ]
}

#[test]
fn write_enable_error_and_dont_care_address() {
    let golden = lines(&sample_golden());
    let mut test_text = sample_golden();
    test_text[8] = "[M] 010000b4 deadbeef 0 0 00000000";
    test_text[9] = "[W] 010000b0 0 01 7fffffff";
    let test = lines(&test_text);
    let c = compare(&golden, &test);
    assert!(find_golden_fault(&golden, &test).is_none());
    assert_eq!(c.total_errors, 1);
    assert_eq!(c.reports.len(), 1);
    let r = &c.reports[0];
    assert_eq!(r.line_num, 10);
    assert_eq!(r.errors, vec![Mismatch::WriteEnable]);
    assert_eq!(r.pipeline.w.dis(), "PC: 010000b0 -> Inst: addi x1, x1, -1");
    assert_eq!(r.pipeline.m.dis(), "PC: 010000b4 -> Inst: addi x30, x1, 2047");
    assert_eq!(r.pipeline.e.dis(), "PC: 010000b8 -> Inst: lui x29, 524288");
    assert_eq!(r.pipeline.d.dis(), "PC: 010000bc -> Inst: addi x29, x29, 2046");
    assert_eq!(r.pipeline.f.dis(), "PC: 010000c0 -> Inst: addi x3, x0, 10");
    assert_eq!(r.errors[0].message(&r.golden), "[W] Write enable line does not match!");
}

#[test]
fn lui_rd_error_and_dont_care_rs1() {
    let golden = lines(&["[F] 01000008 010007b7", "[F] 0100000c 00000013", "[D] 01000008 37 0f 00 10 0 00 01000000 10"]);
    let test = lines(&["[F] 01000008 010007b7", "[F] 0100000c 00000013", "[D] 01000008 37 0e aa 10 0 00 01000000 00"]);
    let c = compare(&golden, &test);
    assert_eq!(c.total_errors, 1);
    assert_eq!(c.reports.len(), 1);
    assert_eq!(c.reports[0].line_num, 3);
    assert_eq!(c.reports[0].errors, vec![Mismatch::Rd]);
    assert_eq!(c.reports[0].errors[0].message(&c.reports[0].golden), "[D] RDs do not match!");
}

#[test]
fn golden_trace_compared_with_itself_is_clean() {
    let golden = lines(&sample_golden());
    let c = compare(&golden, &golden);
    assert_eq!(c.total_errors, 0);
    assert!(c.reports.is_empty());
    assert!(find_golden_fault(&golden, &golden).is_none());
}

#[test]
fn fetch_mismatches() {
    let golden = lines(&["[F] 00000000 00a00193"]);
    let test = lines(&["[F] 00000004 00b00193"]);
    let c = compare(&golden, &test);
    assert_eq!(c.total_errors, 2);
    assert_eq!(c.reports[0].errors, vec![Mismatch::Pc, Mismatch::FetchedInstr]);
    assert_eq!(c.reports[0].errors[1].message(&c.reports[0].golden), "[F] Fetched instructions do not match!");
}

#[test]
fn mismatched_line_kinds() {
    let golden = lines(&["[F] 00000000 00a00193", "[E] 0 0 0"]);
    let test = lines(&["[E] 0 0 0", "[E] 0 0 0"]);
    let c = compare(&golden, &test);
    assert_eq!(c.total_errors, 1);
    assert_eq!(c.reports[0].errors, vec![Mismatch::LineKinds]);
    assert_eq!(
        c.reports[0].errors[0].message(&c.reports[0].golden),
        "Mismatched line types! Something is VERY wrong!"
    );
    // No fetch pair was read, so execute holds a bubble and is not checked.
    assert!(c.reports[0].pipeline.f.is_bubble());
}

#[test]
fn bubbles_are_not_checked() {
    let golden = lines(&["[D] 0 13 01 02 03 0 00 00000000 00", "[W] 0 1 01 00000000"]);
    let test = lines(&["[D] 4 33 05 06 07 1 01 00000001 01", "[W] 8 0 02 00000005"]);
    let c = compare(&golden, &test);
    assert_eq!(c.total_errors, 0);
    assert!(c.reports.is_empty());
}

#[test]
fn golden_fault_stops_the_comparison() {
    // The golden decode line claims rd 5 for addi x3, x0, 10.
    let golden = lines(&[
        "[F] 00000000 00a00193",
        "[F] 00000004 00000013",
        "[D] 00000001 13 05 00 00 0 00 0000000a 00",
        "[F] 00000008 00000013",
    ]);
    let test = lines(&[
        "[F] 00000000 00a00193",
        "[F] 00000004 00000013",
        "[D] 00000000 13 06 00 00 0 00 0000000a 00",
        "[F] 0000000c 00000013",
    ]);
    let f = find_golden_fault(&golden, &test).unwrap();
    assert_eq!(f.line.line_num, 3);
    assert_eq!(f.line.errors, vec![Mismatch::Pc, Mismatch::Rd]);
    assert_eq!(f.fault.field, GoldenField::Rd);
    assert_eq!(f.fault.golden, 5);
    assert_eq!(f.fault.decoded, 3);
    // The lines before the fault compare cleanly on their own.
    let c = compare(&golden[..2].to_vec(), &test[..2].to_vec());
    assert_eq!(c.total_errors, 0);
}

#[test]
fn golden_fault_on_identical_traces() {
    // addi x3, x0, 10 decodes to rd 3, but the golden decode line says 4.
    let golden = lines(&[
        "[F] 01000000 00a00193",
        "[F] 01000004 00a00193",
        "[D] 01000000 13 04 00 0a 0 00 0000000a 0a",
    ]);
    let f = find_golden_fault(&golden, &golden).unwrap();
    assert_eq!(f.line.line_num, 3);
    assert!(f.line.errors.is_empty());
    assert_eq!(f.fault.field, GoldenField::Rd);
    assert_eq!(f.fault.golden, 4);
    assert_eq!(f.fault.decoded, 3);
}

#[test]
fn immediate_consistency_uses_the_word_pattern() {
    // addi x1, x1, -1: the golden imm field holds ffffffff.
    let golden = lines(&["[F] 0 fff08093", "[F] 4 00000013", "[D] 0 13 01 01 1f 0 7f ffffffff 1f"]);
    let test = lines(&["[F] 0 fff08093", "[F] 4 00000013", "[D] 0 13 01 01 00 0 00 fffffffe 00"]);
    assert!(find_golden_fault(&golden, &test).is_none());
    let c = compare(&golden, &test);
    assert_eq!(c.reports[0].errors, vec![Mismatch::Imm]);
}

#[test]
fn memory_and_execute_rules() {
    // sw x2, -4(x8) is in memory; beq in execute; both fetched beforehand.
    let golden = lines(&[
        "[F] 0 fe242e23",
        "[F] 4 fe208ce3",
        "[F] 8 00000013",
        "[F] c 00000013",
        "[E] 4 00000000 1",
        "[M] 0 fffffffc 0 2 00000005",
    ]);
    let test = lines(&[
        "[F] 0 fe242e23",
        "[F] 4 fe208ce3",
        "[F] 8 00000013",
        "[F] c 00000013",
        "[E] 4 00000001 0",
        "[M] 0 fffffff8 1 1 00000006",
    ]);
    let c = compare(&golden, &test);
    assert_eq!(c.reports.len(), 2);
    assert_eq!(c.reports[0].errors, vec![Mismatch::AluResult, Mismatch::BranchTaken]);
    assert_eq!(
        c.reports[1].errors,
        vec![Mismatch::ReadNotWrite, Mismatch::Address, Mismatch::AccessSize, Mismatch::MemoryWdata]
    );
    assert_eq!(c.total_errors, 6);
}

#[test]
fn register_read_rules() {
    // add x3, x1, x2 in decode: both source registers are compared.
    let golden = lines(&["[F] 0 002081b3", "[F] 4 00000013", "[R] 01 02 00000010 00000020"]);
    let test = lines(&["[F] 0 002081b3", "[F] 4 00000013", "[R] 01 03 00000011 00000020"]);
    let c = compare(&golden, &test);
    assert_eq!(c.reports[0].errors, vec![Mismatch::Rs1Data, Mismatch::Rs2Addr]);
}

#[test]
fn step_reads_one_pair() {
    let mut p = Pipeline::default();
    let g = ParsedLine::parse(b"[F] 10 00a00193").unwrap();
    let out = p.step(&g, &g);
    assert!(out.errors.is_empty());
    assert!(out.fault.is_none());
    assert_eq!(p.f.pc, 0x10);
}

#[test]
fn shorter_trace_bounds_the_comparison() {
    let golden = lines(&sample_golden());
    let test = lines(&sample_golden()[..3]);
    let c = compare(&golden, &test);
    assert!(c.reports.is_empty());
    assert_eq!(c.total_errors, 0);
}

#[test]
fn golden_pipeline_ignores_test_values() {
    let golden = lines(&["[F] 0 00a00193", "[F] 4 fff08093", "[D] 0 13 03 00 00 0 00 0000000a 00"]);
    let test1 = lines(&["[F] 8 00000013", "[F] c 00000013", "[D] 0 13 04 00 00 0 00 0000000a 00"]);
    let test2 = lines(&["[F] 0 00a00193", "[F] 4 fff08093", "[D] 0 13 05 00 00 0 00 0000000a 00"]);
    let c1 = compare(&golden, &test1);
    let c2 = compare(&golden, &test2);
    let last1 = c1.reports.last().unwrap();
    let last2 = c2.reports.last().unwrap();
    assert_eq!(last1.line_num, 3);
    assert_eq!(last2.line_num, 3);
    assert_eq!(last1.errors, vec![Mismatch::Rd]);
    assert_eq!(last2.errors, vec![Mismatch::Rd]);
    assert_eq!(last1.pipeline.f.dis(), "PC: 00000004 -> Inst: addi x1, x1, -1");
    assert_eq!(last2.pipeline.f.dis(), "PC: 00000004 -> Inst: addi x1, x1, -1");
    assert_eq!(last1.pipeline.d.dis(), "PC: 00000000 -> Inst: addi x3, x0, 10");
    assert_eq!(last2.pipeline.d.dis(), "PC: 00000000 -> Inst: addi x3, x0, 10");
    assert_eq!(c1.total_errors, 5);
    assert_eq!(c2.total_errors, 1);
}

#[test]
fn seven_line_traces_count_one_error() {
    let golden_text = [
        "[F] 010000b0 fff08093",
        "[F] 010000b4 7ff08f13",
        "[F] 010000b8 80000eb7",
        "[F] 010000bc 7fee8e93",
        "[F] 010000c0 00a00193",
        "[M] 010000b4 800007fe 0 0 00000000",
        "[W] 010000b0 1 01 7fffffff",
    ];
    let mut test_text = golden_text;
    test_text[5] = "[M] 010000b4 deadbeef 0 0 00000000";
    test_text[6] = "[W] 010000b0 0 01 7fffffff";
    let c = compare(&lines(&golden_text), &lines(&test_text));
    assert_eq!(c.total_errors, 1);
    assert_eq!(c.reports.len(), 1);
    assert_eq!(c.reports[0].line_num, 7);
    assert_eq!(c.reports[0].errors[0].message(&c.reports[0].golden), "[W] Write enable line does not match!");
}

#[test]
fn execute_line_against_first_addi() {
    let golden = lines(&["[F] 01000000 00a00193", "[F] 01000004 00a00193", "[F] 01000008 00a00193", "[E] 01000000 0000000a 0"]);
    let test = lines(&["[F] 01000000 00a00193", "[F] 01000004 00a00193", "[F] 01000008 00a00193", "[E] 01000000 0000000b 1"]);
    let c = compare(&golden, &test);
    assert_eq!(c.total_errors, 1);
    assert_eq!(c.reports[0].errors, vec![Mismatch::AluResult]);
    assert_eq!(c.reports[0].errors[0].message(&c.reports[0].golden), "[E] ALU results do not match!");
}

#[test]
fn empty_test_trace_compares_nothing() {
    let golden = lines(&sample_golden());
    let c = compare(&golden, &Vec::new());
    assert_eq!(c.total_errors, 0);
    assert!(c.reports.is_empty());
    assert!(find_golden_fault(&golden, &Vec::new()).is_none());
}

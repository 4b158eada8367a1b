use pd5diff::trace::{
    parse_trace,
    DecodeLine, ExecuteLine, FetchLine, MemoryLine, ParsedLine, RegisterLine, WritebackLine,
};

fn parse(s: &str) -> Option<ParsedLine> {
    ParsedLine::parse(s.as_bytes())
}

fn text(l: &ParsedLine) -> String {
    String::from_utf8(l.to_text()).unwrap()
}

const SAMPLE_LINES: [&str; 6] = [
    "[F] 010000c0 00a00193",
    "[D] 010000bc 13 1d 1d 00 0 3f 000007fe 1e",
    "[R] 1d 00 7fffffff 00000000",
    "[E] 010000b8 80000000 0",
    "[M] 010000b4 800007fe 0 0 00000000",
    "[W] 010000b0 1 01 7fffffff",
];

#[test]
fn parses_each_kind_of_line() {
    assert_eq!(parse(SAMPLE_LINES[0]), Some(ParsedLine::F(FetchLine { pc: 0x0100_00c0, instr: 0x00a0_0193 })));
    assert_eq!(
        parse(SAMPLE_LINES[1]),
        Some(ParsedLine::D(DecodeLine {
            pc: 0x0100_00bc,
            opcode: 0x13,
            rd: 0x1d,
            rs1: 0x1d,
            rs2: 0,
            funct3: 0,
            funct7: 0x3f,
            imm: 0x7fe,
            shamt: 0x1e,
        }))
    );
    assert_eq!(
        parse(SAMPLE_LINES[2]),
        Some(ParsedLine::R(RegisterLine { addr_rs1: 0x1d, addr_rs2: 0, data_rs1: 0x7fff_ffff, data_rs2: 0 }))
    );
    assert_eq!(
        parse(SAMPLE_LINES[3]),
        Some(ParsedLine::E(ExecuteLine { pc: 0x0100_00b8, alu_result: 0x8000_0000, branch_taken: false }))
    );
    assert_eq!(
        parse(SAMPLE_LINES[4]),
        Some(ParsedLine::M(MemoryLine {
            pc: 0x0100_00b4,
            addr: 0x8000_07fe,
            read_not_write: false,
            access_size: 0,
            memory_wdata: 0,
        }))
    );
    assert_eq!(
        parse(SAMPLE_LINES[5]),
        Some(ParsedLine::W(WritebackLine { pc: 0x0100_00b0, we: true, addr_rd: 1, data_rd: 0x7fff_ffff }))
    );
}

#[test]
fn text_of_each_sample_line_is_the_line() {
    for s in SAMPLE_LINES.iter() {
        let l = parse(s).unwrap();
        assert_eq!(text(&l), *s);
    }
}

#[test]
fn text_reads_back() {
    let l = ParsedLine::D(DecodeLine {
        pc: 0xffff_ffff,
        opcode: 0xff,
        rd: 0,
        rs1: 31,
        rs2: 2,
        funct3: 0x17,
        funct7: 0x20,
        imm: 0xffff_f800,
        shamt: 5,
    });
    assert_eq!(text(&l), "[D] ffffffff ff 00 1f 02 17 20 fffff800 05");
    assert_eq!(parse(&text(&l)), Some(l));
    let m = ParsedLine::M(MemoryLine { pc: 4, addr: 8, read_not_write: true, access_size: 2, memory_wdata: 0xdead_beef });
    assert_eq!(text(&m), "[M] 00000004 00000008 1 2 deadbeef");
    assert_eq!(parse(&text(&m)), Some(m));
}

#[test]
fn blanks_and_case() {
    assert_eq!(
        parse("  [F]\t010000C0   00A00193 \r"),
        Some(ParsedLine::F(FetchLine { pc: 0x0100_00c0, instr: 0x00a0_0193 }))
    );
    assert_eq!(parse("[E] 0 0 1"), Some(ParsedLine::E(ExecuteLine { pc: 0, alu_result: 0, branch_taken: true })));
    assert_eq!(parse("[F] 0000000000000010 1"), Some(ParsedLine::F(FetchLine { pc: 16, instr: 1 })));
}

#[test]
fn rejects_other_text() {
    assert_eq!(parse(""), None);
    assert_eq!(parse("   "), None);
    assert_eq!(parse("[X] 0 0"), None);
    assert_eq!(parse("F 0 0"), None);
    assert_eq!(parse("[F] 0"), None);
    assert_eq!(parse("[F] 0 0 0"), None);
    assert_eq!(parse("[F] 0 g"), None);
    assert_eq!(parse("[F]0 0"), None);
    assert_eq!(parse("[F] 100000000 0"), None);
    assert_eq!(parse("[E] 0 0 2"), None);
    assert_eq!(parse("[R] 100 0 0 0"), None);
}

#[test]
fn whole_trace_text() {
    let text = b"[F] 010000c0 00a00193\n\n  \r\n[E] 010000b8 80000000 0\r\n";
    let trace = parse_trace(text).unwrap();
    assert_eq!(
        trace,
        vec![
            ParsedLine::F(FetchLine { pc: 0x0100_00c0, instr: 0x00a0_0193 }),
            ParsedLine::E(ExecuteLine { pc: 0x0100_00b8, alu_result: 0x8000_0000, branch_taken: false }),
        ]
    );
    assert_eq!(parse_trace(b""), Ok(vec![]));
    assert_eq!(parse_trace(b"[F] 0 0"), Ok(vec![ParsedLine::F(FetchLine { pc: 0, instr: 0 })]));
}

#[test]
fn whole_trace_reports_first_bad_line() {
    assert_eq!(parse_trace(b"[F] 0 0\n\n[F] 0\n[X] 1 2\n"), Err(3));
    assert_eq!(parse_trace(b"garbage"), Err(1));
}

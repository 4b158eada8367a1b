//! The lines of a pipeline trace: one line per stage per clock cycle.

use vstd::prelude::*;
use crate::text::{
    hex_number, hex_text, is_blank, lemma_hex_text_reads_back, lemma_line_len_exact,
    lemma_words_blank_then, lemma_words_word_then, parse_hex, push_hex, split_words, text_lines,
    words,
};

verus! {

/// `[F] pc instr`: the fetch stage.
#[derive(Clone, Copy, Debug, PartialEq, Eq)]
pub struct FetchLine {
    pub pc: u32,
    pub instr: u32,
}

/// `[D] pc opcode rd rs1 rs2 funct3 funct7 imm shamt`: the decode stage.
#[derive(Clone, Copy, Debug, PartialEq, Eq)]
pub struct DecodeLine {
    pub pc: u32,
    pub opcode: u8,
    pub rd: u8,
    pub rs1: u8,
    pub rs2: u8,
    pub funct3: u8,
    pub funct7: u8,
    pub imm: u32,
    pub shamt: u8,
}

/// `[R] addr_rs1 addr_rs2 data_rs1 data_rs2`: the register-file read.
#[derive(Clone, Copy, Debug, PartialEq, Eq)]
pub struct RegisterLine {
    pub addr_rs1: u8,
    pub addr_rs2: u8,
    pub data_rs1: u32,
    pub data_rs2: u32,
}

/// `[E] pc alu_result branch_taken`: the execute stage.
#[derive(Clone, Copy, Debug, PartialEq, Eq)]
pub struct ExecuteLine {
    pub pc: u32,
    pub alu_result: u32,
    pub branch_taken: bool,
}

/// `[M] pc addr read_not_write access_size memory_wdata`: the memory stage.
#[derive(Clone, Copy, Debug, PartialEq, Eq)]
pub struct MemoryLine {
    pub pc: u32,
    pub addr: u32,
    pub read_not_write: bool,
    pub access_size: u8,
    pub memory_wdata: u32,
}

/// `[W] pc we addr_rd data_rd`: the writeback stage.
#[derive(Clone, Copy, Debug, PartialEq, Eq)]
pub struct WritebackLine {
    pub pc: u32,
    pub we: bool,
    pub addr_rd: u8,
    pub data_rd: u32,
}

/// One parsed line of a trace, tagged by the stage it describes.
#[derive(Clone, Copy, Debug, PartialEq, Eq)]
pub enum ParsedLine {
    F(FetchLine),
    D(DecodeLine),
    R(RegisterLine),
    E(ExecuteLine),
    M(MemoryLine),
    W(WritebackLine),
}


/// The stage letter a line's first word names: `[F]`, `[D]`, `[R]`, `[E]`,
/// `[M]` or `[W]`.
pub open spec fn tag_letter(t: Seq<u8>) -> Option<u8> {
    if t.len() == 3 && t[0] == 0x5b && t[2] == 0x5d && (t[1] == 0x46 || t[1] == 0x44 || t[1]
        == 0x52 || t[1] == 0x45 || t[1] == 0x4d || t[1] == 0x57) {
        Some(t[1])
    } else {
        None
    }
}

/// The largest value each field of a line of kind `k` may hold, in order.
pub open spec fn field_limits(k: u8) -> Seq<int> {
    if k == 0x46 {
        seq![0xffff_ffff, 0xffff_ffff]
    } else if k == 0x44 {
        seq![0xffff_ffff, 0xff, 0xff, 0xff, 0xff, 0xff, 0xff, 0xffff_ffff, 0xff]
    } else if k == 0x52 {
        seq![0xff, 0xff, 0xffff_ffff, 0xffff_ffff]
    } else if k == 0x45 {
        seq![0xffff_ffff, 0xffff_ffff, 1]
    } else if k == 0x4d {
        seq![0xffff_ffff, 0xffff_ffff, 1, 0xff, 0xffff_ffff]
    } else {
        seq![0xffff_ffff, 1, 0xff, 0xffff_ffff]
    }
}

/// The fields after the first word, each a hexadecimal number within its
/// limit, and exactly as many as there are limits.
pub open spec fn field_values(ws: Seq<Seq<u8>>, limits: Seq<int>) -> Option<Seq<int>> {
    if ws.len() == limits.len() + 1 && (forall|j: int|
        0 <= j < limits.len() ==> (#[trigger] hex_number(ws[j + 1], limits[j])) is Some) {
        Some(Seq::new(limits.len(), |j: int| hex_number(ws[j + 1], limits[j])->0))
    } else {
        None
    }
}

/// The line of kind `k` with field values `v`.
pub open spec fn line_from_fields(k: u8, v: Seq<int>) -> ParsedLine {
    if k == 0x46 {
        ParsedLine::F(FetchLine { pc: v[0] as u32, instr: v[1] as u32 })
    } else if k == 0x44 {
        ParsedLine::D(
            DecodeLine {
                pc: v[0] as u32,
                opcode: v[1] as u8,
                rd: v[2] as u8,
                rs1: v[3] as u8,
                rs2: v[4] as u8,
                funct3: v[5] as u8,
                funct7: v[6] as u8,
                imm: v[7] as u32,
                shamt: v[8] as u8,
            },
        )
    } else if k == 0x52 {
        ParsedLine::R(
            RegisterLine {
                addr_rs1: v[0] as u8,
                addr_rs2: v[1] as u8,
                data_rs1: v[2] as u32,
                data_rs2: v[3] as u32,
            },
        )
    } else if k == 0x45 {
        ParsedLine::E(ExecuteLine { pc: v[0] as u32, alu_result: v[1] as u32, branch_taken: v[2] == 1 })
    } else if k == 0x4d {
        ParsedLine::M(
            MemoryLine {
                pc: v[0] as u32,
                addr: v[1] as u32,
                read_not_write: v[2] == 1,
                access_size: v[3] as u8,
                memory_wdata: v[4] as u32,
            },
        )
    } else {
        ParsedLine::W(WritebackLine { pc: v[0] as u32, we: v[1] == 1, addr_rd: v[2] as u8, data_rd: v[3] as u32 })
    }
}

/// The line a text holds: a stage tag, then the stage's fields in
/// hexadecimal, all separated by blanks; `None` for any other text.
pub open spec fn parse_spec(s: Seq<u8>) -> Option<ParsedLine> {
    let ws = words(s);
    if ws.len() > 0 && tag_letter(ws[0]) is Some && field_values(
        ws,
        field_limits(tag_letter(ws[0])->0),
    ) is Some {
        Some(
            line_from_fields(
                tag_letter(ws[0])->0,
                field_values(ws, field_limits(tag_letter(ws[0])->0))->0,
            ),
        )
    } else {
        None
    }
}

fn tag_letter_exec(t: &Vec<u8>) -> (r: Option<u8>)
    ensures
        r == tag_letter(t@),
{
    if t.len() == 3 && t[0] == 0x5b && t[2] == 0x5d && (t[1] == 0x46 || t[1] == 0x44 || t[1]
        == 0x52 || t[1] == 0x45 || t[1] == 0x4d || t[1] == 0x57) {
        Some(t[1])
    } else {
        None
    }
}

fn field_limits_exec(k: u8) -> (r: Vec<u32>)
    ensures
        r@.map_values(|x: u32| x as int) == field_limits(k),
{
    let w: u32 = 0xffff_ffff;
    let b: u32 = 0xff;
    let r = if k == 0x46 {
        vec![w, w]
    } else if k == 0x44 {
        vec![w, b, b, b, b, b, b, w, b]
    } else if k == 0x52 {
        vec![b, b, w, w]
    } else if k == 0x45 {
        vec![w, w, 1]
    } else if k == 0x4d {
        vec![w, w, 1, b, w]
    } else {
        vec![w, 1, b, w]
    };
    assert(r@.map_values(|x: u32| x as int) =~= field_limits(k));
    r
}

fn parse_fields(ws: &Vec<Vec<u8>>, limits: &Vec<u32>) -> (r: Option<Vec<u32>>)
    ensures
        match r {
            Some(v) => field_values(
                ws@.map_values(|w: Vec<u8>| w@),
                limits@.map_values(|x: u32| x as int),
            ) == Some(v@.map_values(|x: u32| x as int)),
            None => field_values(
                ws@.map_values(|w: Vec<u8>| w@),
                limits@.map_values(|x: u32| x as int),
            ) is None,
        },
{
    let ghost wv = ws@.map_values(|w: Vec<u8>| w@);
    let ghost lv = limits@.map_values(|x: u32| x as int);
    if ws.len() == 0 || ws.len() - 1 != limits.len() {
        return None;
    }
    let mut vals: Vec<u32> = Vec::new();
    let mut j: usize = 0;
    while j < limits.len()
        invariant
            j <= limits.len(),
            ws.len() == limits.len() + 1,
            wv == ws@.map_values(|w: Vec<u8>| w@),
            lv == limits@.map_values(|x: u32| x as int),
            vals@.len() == j,
            forall|i: int|
                0 <= i < j ==> (#[trigger] hex_number(wv[i + 1], lv[i])) == Some(
                    vals@[i] as int,
                ),
        decreases limits.len() - j,
    {
        match parse_hex(ws[j + 1].as_slice(), limits[j]) {
            Some(v) => {
                vals.push(v);
            },
            None => {
                assert(hex_number(wv[j + 1], lv[j as int]) is None);
                return None;
            },
        }
        j = j + 1;
    }
    assert(field_values(wv, lv) == Some(vals@.map_values(|x: u32| x as int))) by {
        assert(Seq::new(lv.len(), |i: int| hex_number(wv[i + 1], lv[i])->0) =~= vals@.map_values(
            |x: u32| x as int,
        ));
    }
    Some(vals)
}

fn line_from_values(k: u8, v: &Vec<u32>) -> (r: ParsedLine)
    requires
        v@.len() == field_limits(k).len(),
        forall|i: int| 0 <= i < v@.len() ==> v@[i] <= #[trigger] field_limits(k)[i],
    ensures
        r == line_from_fields(k, v@.map_values(|x: u32| x as int)),
{
    let ghost vi = v@.map_values(|x: u32| x as int);
    assert(forall|i: int| 0 <= i < v@.len() ==> vi[i] == v@[i]);
    if k == 0x46 {
        ParsedLine::F(FetchLine { pc: v[0], instr: v[1] })
    } else if k == 0x44 {
        assert(v@[1] <= field_limits(k)[1] && v@[2] <= field_limits(k)[2] && v@[3] <= field_limits(k)[3]
            && v@[4] <= field_limits(k)[4] && v@[5] <= field_limits(k)[5] && v@[6] <= field_limits(k)[6]
            && v@[8] <= field_limits(k)[8]);
        ParsedLine::D(
            DecodeLine {
                pc: v[0],
                opcode: v[1] as u8,
                rd: v[2] as u8,
                rs1: v[3] as u8,
                rs2: v[4] as u8,
                funct3: v[5] as u8,
                funct7: v[6] as u8,
                imm: v[7],
                shamt: v[8] as u8,
            },
        )
    } else if k == 0x52 {
        assert(v@[0] <= field_limits(k)[0] && v@[1] <= field_limits(k)[1]);
        ParsedLine::R(
            RegisterLine {
                addr_rs1: v[0] as u8,
                addr_rs2: v[1] as u8,
                data_rs1: v[2],
                data_rs2: v[3],
            },
        )
    } else if k == 0x45 {
        ParsedLine::E(ExecuteLine { pc: v[0], alu_result: v[1], branch_taken: v[2] == 1 })
    } else if k == 0x4d {
        assert(v@[3] <= field_limits(k)[3]);
        ParsedLine::M(
            MemoryLine {
                pc: v[0],
                addr: v[1],
                read_not_write: v[2] == 1,
                access_size: v[3] as u8,
                memory_wdata: v[4],
            },
        )
    } else {
        assert(v@[2] <= field_limits(k)[2]);
        ParsedLine::W(WritebackLine { pc: v[0], we: v[1] == 1, addr_rd: v[2] as u8, data_rd: v[3] })
    }
}

impl ParsedLine {
    /// Reads one line of a trace, or gives `None` where the text is not a
    /// trace line.
    pub fn parse(s: &[u8]) -> (r: Option<ParsedLine>)
        ensures
            r == parse_spec(s@),
    {
        let ws = split_words(s);
        let ghost wv = ws@.map_values(|w: Vec<u8>| w@);
        if ws.len() == 0 {
            return None;
        }
        assert(wv[0] == ws@[0]@);
        let k = match tag_letter_exec(&ws[0]) {
            Some(k) => k,
            None => {
                return None;
            },
        };
        let limits = field_limits_exec(k);
        match parse_fields(&ws, &limits) {
            Some(vals) => {
                proof {
                    let lv = field_limits(k);
                    assert(limits@.map_values(|x: u32| x as int) == lv);
                    let fv = field_values(wv, lv)->0;
                    assert(fv == vals@.map_values(|x: u32| x as int));
                    assert(fv.len() == lv.len());
                    assert forall|i: int| 0 <= i < vals@.len() implies vals@[i] <= #[trigger] lv[i] by {
                        assert(fv[i] == vals@[i] as int);
                        assert(hex_number(wv[i + 1], lv[i]) is Some);
                        assert(fv[i] == hex_number(wv[i + 1], lv[i])->0);
                    }
                }
                Some(line_from_values(k, &vals))
            },
            None => None,
        }
    }
}


/// The stage letter of a line.
pub open spec fn letter_of(l: ParsedLine) -> u8 {
    match l {
        ParsedLine::F(_) => 0x46,
        ParsedLine::D(_) => 0x44,
        ParsedLine::R(_) => 0x52,
        ParsedLine::E(_) => 0x45,
        ParsedLine::M(_) => 0x4d,
        ParsedLine::W(_) => 0x57,
    }
}

pub open spec fn flag(b: bool) -> int {
    if b {
        1
    } else {
        0
    }
}

/// The field values of a line, in the order its text gives them.
pub open spec fn values_of(l: ParsedLine) -> Seq<int> {
    match l {
        ParsedLine::F(x) => seq![x.pc as int, x.instr as int],
        ParsedLine::D(x) => seq![
            x.pc as int,
            x.opcode as int,
            x.rd as int,
            x.rs1 as int,
            x.rs2 as int,
            x.funct3 as int,
            x.funct7 as int,
            x.imm as int,
            x.shamt as int,
        ],
        ParsedLine::R(x) => seq![
            x.addr_rs1 as int,
            x.addr_rs2 as int,
            x.data_rs1 as int,
            x.data_rs2 as int,
        ],
        ParsedLine::E(x) => seq![x.pc as int, x.alu_result as int, flag(x.branch_taken)],
        ParsedLine::M(x) => seq![
            x.pc as int,
            x.addr as int,
            flag(x.read_not_write),
            x.access_size as int,
            x.memory_wdata as int,
        ],
        ParsedLine::W(x) => seq![x.pc as int, flag(x.we), x.addr_rd as int, x.data_rd as int],
    }
}

/// The number of hexadecimal digits each field of a line of kind `k` is
/// written with: eight for a word, two for a register number or a code byte,
/// one for a flag, funct3 and the access size.
pub open spec fn field_widths(k: u8) -> Seq<nat> {
    if k == 0x46 {
        seq![8, 8]
    } else if k == 0x44 {
        seq![8, 2, 2, 2, 2, 1, 2, 8, 2]
    } else if k == 0x52 {
        seq![2, 2, 8, 8]
    } else if k == 0x45 {
        seq![8, 8, 1]
    } else if k == 0x4d {
        seq![8, 8, 1, 1, 8]
    } else {
        seq![8, 1, 2, 8]
    }
}

/// Each value, after a blank, in hexadecimal of the matching width.
pub open spec fn fields_text(vals: Seq<int>, widths: Seq<nat>) -> Seq<u8>
    decreases vals.len(),
{
    if vals.len() == 0 {
        seq![]
    } else {
        seq![0x20u8] + hex_text(vals[0] as nat, widths[0]) + fields_text(
            vals.drop_first(),
            widths.drop_first(),
        )
    }
}

/// The text of a line: its tag, then its fields.
pub open spec fn text_of(l: ParsedLine) -> Seq<u8> {
    seq![0x5bu8, letter_of(l), 0x5du8] + fields_text(values_of(l), field_widths(letter_of(l)))
}

proof fn lemma_fields_text_push(vals: Seq<int>, widths: Seq<nat>, v: int, w: nat)
    requires
        vals.len() == widths.len(),
    ensures
        fields_text(vals.push(v), widths.push(w)) == fields_text(vals, widths) + seq![0x20u8]
            + hex_text(v as nat, w),
    decreases vals.len(),
{
    if vals.len() == 0 {
        assert(vals.push(v).drop_first() =~= seq![]);
        assert(widths.push(w).drop_first() =~= seq![]);
        assert(vals.push(v)[0] == v);
        assert(widths.push(w)[0] == w);
        assert(fields_text(seq![], seq![]) == Seq::<u8>::empty());
        assert(fields_text(vals.push(v), widths.push(w)) =~= fields_text(vals, widths) + seq![0x20u8]
            + hex_text(v as nat, w));
    } else {
        lemma_fields_text_push(vals.drop_first(), widths.drop_first(), v, w);
        assert(vals.push(v).drop_first() =~= vals.drop_first().push(v));
        assert(widths.push(w).drop_first() =~= widths.drop_first().push(w));
        assert(vals.push(v)[0] == vals[0]);
        assert(widths.push(w)[0] == widths[0]);
        let h = seq![0x20u8] + hex_text(vals[0] as nat, widths[0]);
        assert(fields_text(vals, widths) == h + fields_text(vals.drop_first(), widths.drop_first()));
        assert(fields_text(vals.push(v), widths.push(w)) == h + fields_text(
            vals.drop_first().push(v),
            widths.drop_first().push(w),
        ));
        assert(fields_text(vals.push(v), widths.push(w)) =~= fields_text(vals, widths) + seq![0x20u8]
            + hex_text(v as nat, w));
    }
}

fn field_widths_exec(k: u8) -> (r: Vec<usize>)
    ensures
        r@.map_values(|x: usize| x as nat) == field_widths(k),
{
    let r = if k == 0x46 {
        vec![8, 8]
    } else if k == 0x44 {
        vec![8, 2, 2, 2, 2, 1, 2, 8, 2]
    } else if k == 0x52 {
        vec![2, 2, 8, 8]
    } else if k == 0x45 {
        vec![8, 8, 1]
    } else if k == 0x4d {
        vec![8, 8, 1, 1, 8]
    } else {
        vec![8, 1, 2, 8]
    };
    assert(r@.map_values(|x: usize| x as nat) =~= field_widths(k));
    r
}

fn flag_exec(b: bool) -> (r: u32)
    ensures
        r == flag(b),
{
    if b {
        1
    } else {
        0
    }
}

impl ParsedLine {
    /// The stage letter of the line.
    pub fn letter(&self) -> (r: u8)
        ensures
            r == letter_of(*self),
    {
        match self {
            ParsedLine::F(_) => 0x46,
            ParsedLine::D(_) => 0x44,
            ParsedLine::R(_) => 0x52,
            ParsedLine::E(_) => 0x45,
            ParsedLine::M(_) => 0x4d,
            ParsedLine::W(_) => 0x57,
        }
    }

    /// The field values of the line, in the order its text gives them.
    pub fn values(&self) -> (r: Vec<u32>)
        ensures
            r@.map_values(|x: u32| x as int) == values_of(*self),
    {
        let r = match self {
            ParsedLine::F(x) => vec![x.pc, x.instr],
            ParsedLine::D(x) => vec![
                x.pc,
                x.opcode as u32,
                x.rd as u32,
                x.rs1 as u32,
                x.rs2 as u32,
                x.funct3 as u32,
                x.funct7 as u32,
                x.imm,
                x.shamt as u32,
            ],
            ParsedLine::R(x) => vec![x.addr_rs1 as u32, x.addr_rs2 as u32, x.data_rs1, x.data_rs2],
            ParsedLine::E(x) => vec![x.pc, x.alu_result, flag_exec(x.branch_taken)],
            ParsedLine::M(x) => vec![
                x.pc,
                x.addr,
                flag_exec(x.read_not_write),
                x.access_size as u32,
                x.memory_wdata,
            ],
            ParsedLine::W(x) => vec![x.pc, flag_exec(x.we), x.addr_rd as u32, x.data_rd],
        };
        assert(r@.map_values(|x: u32| x as int) =~= values_of(*self));
        r
    }

    /// The line as trace text, such as `[F] 010000c0 00a00193`.
    pub fn to_text(&self) -> (r: Vec<u8>)
        ensures
            r@ == text_of(*self),
    {
        let k = self.letter();
        let vals = self.values();
        let widths = field_widths_exec(k);
        let ghost vv = vals@.map_values(|x: u32| x as int);
        let ghost wv = widths@.map_values(|x: usize| x as nat);
        assert(values_of(*self).len() == field_widths(letter_of(*self)).len()) by {
            match *self {
                ParsedLine::F(_) => {},
                ParsedLine::D(_) => {},
                ParsedLine::R(_) => {},
                ParsedLine::E(_) => {},
                ParsedLine::M(_) => {},
                ParsedLine::W(_) => {},
            }
        }
        assert(vals@.len() == vv.len());
        assert(widths@.len() == wv.len());
        let mut out: Vec<u8> = vec![0x5b, k, 0x5d];
        let ghost head = out@;
        let mut j: usize = 0;
        assert(vv.take(0) =~= seq![]);
        assert(wv.take(0) =~= seq![]);
        assert(out@ =~= head + fields_text(vv.take(0), wv.take(0)));
        while j < vals.len()
            invariant
                j <= vals.len(),
                vals.len() == widths.len(),
                vv == vals@.map_values(|x: u32| x as int),
                wv == widths@.map_values(|x: usize| x as nat),
                out@ == head + fields_text(vv.take(j as int), wv.take(j as int)),
            decreases vals.len() - j,
        {
            out.push(0x20);
            push_hex(&mut out, vals[j], widths[j]);
            proof {
                lemma_fields_text_push(vv.take(j as int), wv.take(j as int), vv[j as int], wv[j as int]);
                assert(vv.take(j as int).push(vv[j as int]) =~= vv.take(j + 1));
                assert(wv.take(j as int).push(wv[j as int]) =~= wv.take(j + 1));
            }
            j = j + 1;
            assert(out@ =~= head + fields_text(vv.take(j as int), wv.take(j as int)));
        }
        assert(vv.take(j as int) =~= vv);
        assert(wv.take(j as int) =~= wv);
        out
    }
}


proof fn lemma_words_of_fields(vals: Seq<int>, widths: Seq<nat>)
    requires
        vals.len() == widths.len(),
        forall|j: int| 0 <= j < vals.len() ==> 0 <= #[trigger] vals[j],
    ensures
        words(fields_text(vals, widths)) == Seq::new(
            vals.len(),
            |j: int| hex_text(vals[j] as nat, widths[j]),
        ),
        fields_text(vals, widths).len() == 0 || fields_text(vals, widths)[0] == 0x20,
    decreases vals.len(),
{
    if vals.len() > 0 {
        let rest = fields_text(vals.drop_first(), widths.drop_first());
        lemma_words_of_fields(vals.drop_first(), widths.drop_first());
        let t0 = hex_text(vals[0] as nat, widths[0]);
        lemma_hex_text_reads_back(vals[0] as nat, widths[0]);
        lemma_words_word_then(t0, rest);
        assert(fields_text(vals, widths) =~= seq![0x20u8] + (t0 + rest));
        lemma_words_blank_then(0x20u8, t0 + rest);
        assert(words(fields_text(vals, widths)) =~= Seq::new(
            vals.len(),
            |j: int| hex_text(vals[j] as nat, widths[j]),
        ));
    }
}

proof fn lemma_values_fit(l: ParsedLine)
    ensures
        values_of(l).len() == field_limits(letter_of(l)).len(),
        values_of(l).len() == field_widths(letter_of(l)).len(),
        forall|j: int|
            0 <= j < values_of(l).len() ==> 0 <= #[trigger] values_of(l)[j] <= field_limits(
                letter_of(l),
            )[j],
        line_from_fields(letter_of(l), values_of(l)) == l,
{
}

/// Writing a line as text and reading the text back gives the line.
pub proof fn law_text_reads_back(l: ParsedLine)
    ensures
        parse_spec(text_of(l)) == Some(l),
{
    let k = letter_of(l);
    let vals = values_of(l);
    let widths = field_widths(k);
    let limits = field_limits(k);
    lemma_values_fit(l);
    lemma_words_of_fields(vals, widths);
    let tag = seq![0x5bu8, k, 0x5du8];
    let f = fields_text(vals, widths);
    lemma_words_word_then(tag, f);
    let ws = words(text_of(l));
    assert(ws == seq![tag] + words(f));
    assert(ws[0] == tag);
    assert(tag_letter(tag) == Some(k));
    assert forall|j: int| 0 <= j < limits.len() implies (#[trigger] hex_number(ws[j + 1], limits[j]))
        == Some(vals[j]) by {
        assert(ws[j + 1] == hex_text(vals[j] as nat, widths[j]));
        lemma_hex_text_reads_back(vals[j] as nat, widths[j]);
    }
    assert(field_values(ws, limits) == Some(vals)) by {
        assert(Seq::new(limits.len(), |j: int| hex_number(ws[j + 1], limits[j])->0) =~= vals);
    }
}


/// The lines `ls` of a trace read in order, the first of them being line
/// number `first`: lines with no word are skipped, and the result is the
/// number of the first other line that is not a trace line, if there is one.
pub open spec fn parse_lines(ls: Seq<Seq<u8>>, first: int) -> Result<Seq<ParsedLine>, int>
    decreases ls.len(),
{
    if ls.len() == 0 {
        Ok(seq![])
    } else if words(ls[0]).len() == 0 {
        parse_lines(ls.drop_first(), first + 1)
    } else {
        match parse_spec(ls[0]) {
            None => Err(first),
            Some(l) => match parse_lines(ls.drop_first(), first + 1) {
                Ok(rest) => Ok(seq![l] + rest),
                Err(n) => Err(n),
            },
        }
    }
}

/// A whole trace read from its text, its lines numbered from one.
pub open spec fn parse_trace_spec(s: Seq<u8>) -> Result<Seq<ParsedLine>, int> {
    parse_lines(text_lines(s), 1)
}

pub open spec fn prepend(acc: Seq<ParsedLine>, r: Result<Seq<ParsedLine>, int>) -> Result<
    Seq<ParsedLine>,
    int,
> {
    match r {
        Ok(rest) => Ok(acc + rest),
        Err(n) => Err(n),
    }
}

/// Reads a whole trace: one line per non-blank line of text, or the number
/// (counting from one) of the first line of text that is not a trace line.
pub fn parse_trace(s: &[u8]) -> (r: Result<Vec<ParsedLine>, usize>)
    requires
        s@.len() < usize::MAX,
    ensures
        match r {
            Ok(v) => parse_trace_spec(s@) == Ok::<Seq<ParsedLine>, int>(v@),
            Err(n) => parse_trace_spec(s@) == Err::<Seq<ParsedLine>, int>(n as int),
        },
{
    let mut acc: Vec<ParsedLine> = Vec::new();
    let mut i: usize = 0;
    let mut num: usize = 1;
    assert(s@.skip(0) =~= s@);
    assert(acc@ + seq![] =~= acc@);
    while i < s.len()
        invariant
            i <= s.len(),
            s@.len() < usize::MAX,
            1 <= num <= i + 1,
            parse_trace_spec(s@) == prepend(acc@, parse_lines(text_lines(s@.skip(i as int)), num as int)),
        decreases s.len() - i,
    {
        let ghost rest = s@.skip(i as int);
        let mut line: Vec<u8> = Vec::new();
        let mut j: usize = i;
        while j < s.len() && s[j] != 0x0a
            invariant
                i <= j <= s.len(),
                line@ == s@.subrange(i as int, j as int),
                forall|k: int| i <= k < j ==> #[trigger] s@[k] != 0x0a,
            decreases s.len() - j,
        {
            line.push(s[j]);
            j = j + 1;
            assert(line@ =~= s@.subrange(i as int, j as int));
        }
        let ghost k = (j - i) as int;
        proof {
            assert forall|q: int| 0 <= q < k implies #[trigger] rest[q] != 0x0a by {
                assert(rest[q] == s@[i + q]);
            }
            if j < s.len() {
                assert(rest[k] == s@[j as int]);
            }
            lemma_line_len_exact(rest, k);
            assert(rest.take(k) =~= line@);
        }
        let ghost tail: Seq<Seq<u8>> = if j < s.len() {
            text_lines(s@.skip(j + 1))
        } else {
            seq![]
        };
        proof {
            if j < s.len() {
                assert(rest.skip(k + 1) =~= s@.skip(j + 1));
            } else {
                assert(rest =~= line@);
            }
            assert(text_lines(rest) == seq![line@] + tail);
            assert((seq![line@] + tail)[0] == line@);
            assert((seq![line@] + tail).drop_first() =~= tail);
        }
        let ws = split_words(line.as_slice());
        if ws.len() != 0 {
            assert(words(line@).len() != 0);
            match ParsedLine::parse(line.as_slice()) {
                None => {
                    return Err(num);
                },
                Some(l) => {
                    proof {
                        match parse_lines(tail, num + 1) {
                            Ok(r) => {
                                assert(acc@ + (seq![l] + r) =~= acc@.push(l) + r);
                            },
                            Err(_) => {},
                        }
                    }
                    acc.push(l);
                },
            }
        } else {
            assert(words(line@).len() == 0);
        }
        if j < s.len() {
            i = j + 1;
            num = num + 1;
        } else {
            i = j;
            assert(s@.skip(i as int) =~= seq![]);
        }
    }
    assert(s@.skip(i as int) =~= seq![]);
    assert(acc@ + seq![] =~= acc@);
    Ok(acc)
}

} // verus!

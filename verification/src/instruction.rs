//! RV32I instruction words: their fields, their encoding format and the
//! classes of instruction that the trace comparison distinguishes.

use vstd::prelude::*;

verus! {

/// Bits 6..0 of an instruction word.
pub open spec fn opcode_bits(w: u32) -> int {
    w as int % 0x80
}

/// Bits 11..7.
pub open spec fn rd_bits(w: u32) -> int {
    w as int / 0x80 % 0x20
}

/// Bits 14..12.
pub open spec fn funct3_bits(w: u32) -> int {
    w as int / 0x1000 % 0x8
}

/// Bits 19..15.
pub open spec fn rs1_bits(w: u32) -> int {
    w as int / 0x8000 % 0x20
}

/// Bits 24..20 (the second source register, or the shift amount).
pub open spec fn rs2_bits(w: u32) -> int {
    w as int / 0x10_0000 % 0x20
}

/// Bits 31..25.
pub open spec fn funct7_bits(w: u32) -> int {
    w as int / 0x200_0000
}

/// The value of a `width`-bit two's complement pattern `v`, where `modulus` is 2^width.
pub open spec fn sign_extend(v: int, modulus: int) -> int {
    if v >= modulus / 2 {
        v - modulus
    } else {
        v
    }
}

/// I-type immediate: bits 31..20, sign-extended.
pub open spec fn i_imm(w: u32) -> int {
    sign_extend(w as int / 0x10_0000, 0x1000)
}

/// S-type immediate: bits 31..25 then bits 11..7, sign-extended.
pub open spec fn s_imm(w: u32) -> int {
    sign_extend(funct7_bits(w) * 0x20 + rd_bits(w), 0x1000)
}

/// B-type immediate: bit 31 is imm[12], bit 7 is imm[11], bits 30..25 are
/// imm[10:5], bits 11..8 are imm[4:1], imm[0] is zero; sign-extended.
pub open spec fn b_imm(w: u32) -> int {
    sign_extend(
        (w as int / 0x8000_0000) * 0x1000 + (w as int / 0x80 % 0x2) * 0x800 + (w as int
            / 0x200_0000 % 0x40) * 0x20 + (w as int / 0x100 % 0x10) * 0x2,
        0x2000,
    )
}

/// U-type immediate: bits 31..12 in place, low twelve bits zero, read as a signed word.
pub open spec fn u_imm(w: u32) -> int {
    sign_extend((w as int / 0x1000) * 0x1000, 0x1_0000_0000)
}

/// J-type immediate: bit 31 is imm[20], bits 19..12 are imm[19:12], bit 20 is
/// imm[11], bits 30..21 are imm[10:1], imm[0] is zero; sign-extended.
pub open spec fn j_imm(w: u32) -> int {
    sign_extend(
        (w as int / 0x8000_0000) * 0x10_0000 + (w as int / 0x1000 % 0x100) * 0x1000 + (w as int
            / 0x10_0000 % 0x2) * 0x800 + (w as int / 0x20_0000 % 0x400) * 0x2,
        0x20_0000,
    )
}

/// The RV32I encoding formats, which decide the fields an instruction has.
/// `IShift` is the I-type variant of the immediate shifts, whose immediate
/// field holds a shift amount and a function code; `Other` covers FENCE and
/// words outside RV32I, which have none of the fields the trace compares.
#[derive(Clone, Copy, Debug, PartialEq, Eq, Structural)]
pub enum Format {
    R,
    I,
    IShift,
    S,
    B,
    U,
    J,
    Other,
}

/// The format an instruction word is encoded in, by its major opcode (and, for
/// OP-IMM, its funct3, which tells the shifts apart).
pub open spec fn format_of(w: u32) -> Format {
    let op = opcode_bits(w);
    if op == 0x33 {
        Format::R
    } else if op == 0x13 {
        if funct3_bits(w) == 1 || funct3_bits(w) == 5 {
            Format::IShift
        } else {
            Format::I
        }
    } else if op == 0x03 || op == 0x67 || op == 0x73 {
        Format::I
    } else if op == 0x23 {
        Format::S
    } else if op == 0x63 {
        Format::B
    } else if op == 0x37 || op == 0x17 {
        Format::U
    } else if op == 0x6f {
        Format::J
    } else {
        Format::Other
    }
}

pub open spec fn format_has_rd(f: Format) -> bool {
    f is R || f is I || f is IShift || f is U || f is J
}

pub open spec fn format_has_rs1(f: Format) -> bool {
    f is R || f is I || f is IShift || f is S || f is B
}

pub open spec fn format_has_rs2(f: Format) -> bool {
    f is R || f is S || f is B
}

pub open spec fn format_has_funct3(f: Format) -> bool {
    f is R || f is I || f is IShift || f is S || f is B
}

pub open spec fn format_has_funct7(f: Format) -> bool {
    f is R || f is IShift
}

pub open spec fn format_has_shamt(f: Format) -> bool {
    f is IShift
}

/// The immediate of a word, where its format has one.
pub open spec fn imm_of(w: u32) -> Option<int> {
    match format_of(w) {
        Format::I => Some(i_imm(w)),
        Format::S => Some(s_imm(w)),
        Format::B => Some(b_imm(w)),
        Format::U => Some(u_imm(w)),
        Format::J => Some(j_imm(w)),
        _ => None,
    }
}

pub open spec fn field_if(present: bool, v: int) -> Option<int> {
    if present {
        Some(v)
    } else {
        None
    }
}

pub open spec fn opt_u8(o: Option<u8>) -> Option<int> {
    match o {
        Some(v) => Some(v as int),
        None => None,
    }
}

pub open spec fn opt_i32(o: Option<i32>) -> Option<int> {
    match o {
        Some(v) => Some(v as int),
        None => None,
    }
}

/// A 32-bit RV32I instruction word.
#[derive(Clone, Copy, Debug, PartialEq, Eq, Structural)]
pub struct Instruction {
    pub word: u32,
}

impl View for Instruction {
    type V = u32;

    open spec fn view(&self) -> u32 {
        self.word
    }
}

impl Instruction {
    /// Wraps an instruction word.
    pub fn from_word(word: u32) -> (r: Instruction)
        ensures
            r == (Instruction { word }),
    {
        Instruction { word }
    }

    /// The instruction word.
    pub fn word(&self) -> (r: u32)
        ensures
            r == self@,
    {
        self.word
    }

    /// Bits 6..0.
    pub fn opcode(&self) -> (r: u8)
        ensures
            r == opcode_bits(self@),
    {
        let w = self.word;
        assert(w & 0x7f == w % 0x80) by (bit_vector);
        (w & 0x7f) as u8
    }

    /// The raw bits of the field, whatever the format.
    pub fn rd_field(&self) -> (r: u8)
        ensures
            r == rd_bits(self@),
    {
        let w = self.word;
        assert((w >> 7u32) & 0x1f == w / 0x80 % 0x20) by (bit_vector);
        ((w >> 7u32) & 0x1f) as u8
    }

    /// The raw bits of the field, whatever the format.
    pub fn funct3_field(&self) -> (r: u8)
        ensures
            r == funct3_bits(self@),
    {
        let w = self.word;
        assert((w >> 12u32) & 0x7 == w / 0x1000 % 0x8) by (bit_vector);
        ((w >> 12u32) & 0x7) as u8
    }

    /// The raw bits of the field, whatever the format.
    pub fn rs1_field(&self) -> (r: u8)
        ensures
            r == rs1_bits(self@),
    {
        let w = self.word;
        assert((w >> 15u32) & 0x1f == w / 0x8000 % 0x20) by (bit_vector);
        ((w >> 15u32) & 0x1f) as u8
    }

    /// The raw bits of the field, whatever the format.
    pub fn rs2_field(&self) -> (r: u8)
        ensures
            r == rs2_bits(self@),
    {
        let w = self.word;
        assert((w >> 20u32) & 0x1f == w / 0x10_0000 % 0x20) by (bit_vector);
        ((w >> 20u32) & 0x1f) as u8
    }

    /// The raw bits of the field, whatever the format.
    pub fn funct7_field(&self) -> (r: u8)
        ensures
            r == funct7_bits(self@),
    {
        let w = self.word;
        assert(w >> 25u32 == w / 0x200_0000) by (bit_vector);
        assert(w >> 25u32 < 0x80) by (bit_vector);
        (w >> 25u32) as u8
    }

    /// Bits 31..12, as an unsigned number.
    pub fn upper20(&self) -> (r: u32)
        ensures
            r == self@ as int / 0x1000,
    {
        let w = self.word;
        assert(w >> 12u32 == w / 0x1000) by (bit_vector);
        w >> 12u32
    }

    /// Bits 31..20, as an unsigned number (the CSR number of a CSR access).
    pub fn upper12(&self) -> (r: u32)
        ensures
            r == self@ as int / 0x10_0000,
    {
        let w = self.word;
        assert(w >> 20u32 == w / 0x10_0000) by (bit_vector);
        w >> 20u32
    }

    /// The encoding format of the instruction.
    pub fn format(&self) -> (r: Format)
        ensures
            r == format_of(self@),
    {
        let op = self.opcode();
        if op == 0x33 {
            Format::R
        } else if op == 0x13 {
            let f3 = self.funct3_field();
            if f3 == 1 || f3 == 5 {
                Format::IShift
            } else {
                Format::I
            }
        } else if op == 0x03 || op == 0x67 || op == 0x73 {
            Format::I
        } else if op == 0x23 {
            Format::S
        } else if op == 0x63 {
            Format::B
        } else if op == 0x37 || op == 0x17 {
            Format::U
        } else if op == 0x6f {
            Format::J
        } else {
            Format::Other
        }
    }
    /// The destination register, where the format has one.
    pub fn get_rd(&self) -> (r: Option<u8>)
        ensures
            opt_u8(r) == field_if(format_has_rd(format_of(self@)), rd_bits(self@)),
    {
        let f = self.format();
        match f {
            Format::R | Format::I | Format::IShift | Format::U | Format::J => Some(self.rd_field()),
            _ => None,
        }
    }

    /// The first source register, where the format has one.
    pub fn get_rs1(&self) -> (r: Option<u8>)
        ensures
            opt_u8(r) == field_if(format_has_rs1(format_of(self@)), rs1_bits(self@)),
    {
        let f = self.format();
        match f {
            Format::R | Format::I | Format::IShift | Format::S | Format::B => Some(
                self.rs1_field(),
            ),
            _ => None,
        }
    }

    /// The second source register, where the format has one.
    pub fn get_rs2(&self) -> (r: Option<u8>)
        ensures
            opt_u8(r) == field_if(format_has_rs2(format_of(self@)), rs2_bits(self@)),
    {
        let f = self.format();
        match f {
            Format::R | Format::S | Format::B => Some(self.rs2_field()),
            _ => None,
        }
    }

    /// The funct3 code, where the format has one.
    pub fn get_funct3(&self) -> (r: Option<u8>)
        ensures
            opt_u8(r) == field_if(format_has_funct3(format_of(self@)), funct3_bits(self@)),
    {
        let f = self.format();
        match f {
            Format::R | Format::I | Format::IShift | Format::S | Format::B => Some(
                self.funct3_field(),
            ),
            _ => None,
        }
    }

    /// The funct7 code, where the format has one.
    pub fn get_funct7(&self) -> (r: Option<u8>)
        ensures
            opt_u8(r) == field_if(format_has_funct7(format_of(self@)), funct7_bits(self@)),
    {
        let f = self.format();
        match f {
            Format::R | Format::IShift => Some(self.funct7_field()),
            _ => None,
        }
    }

    /// The shift amount of an immediate shift.
    pub fn get_shamt(&self) -> (r: Option<u8>)
        ensures
            opt_u8(r) == field_if(format_has_shamt(format_of(self@)), rs2_bits(self@)),
    {
        let f = self.format();
        match f {
            Format::IShift => Some(self.rs2_field()),
            _ => None,
        }
    }

    /// The immediate read in this format, whatever the opcode.
    pub fn i_immediate(&self) -> (r: i32)
        ensures
            r == i_imm(self@),
    {
        let w = self.word;
        assert(w >> 20u32 == w / 0x10_0000) by (bit_vector);
        assert(w >> 20u32 < 0x1000) by (bit_vector);
        let raw = w >> 20u32;
        if raw >= 0x800 {
            raw as i32 - 0x1000
        } else {
            raw as i32
        }
    }

    /// The immediate read in this format, whatever the opcode.
    pub fn s_immediate(&self) -> (r: i32)
        ensures
            r == s_imm(self@),
    {
        let w = self.word;
        let raw = ((w >> 25u32) << 5u32) | ((w >> 7u32) & 0x1f);
        assert(((w >> 25u32) << 5u32) | ((w >> 7u32) & 0x1f) == (w / 0x200_0000) * 0x20 + w
            / 0x80 % 0x20) by (bit_vector);
        assert(((w >> 25u32) << 5u32) | ((w >> 7u32) & 0x1f) < 0x1000) by (bit_vector);
        if raw >= 0x800 {
            raw as i32 - 0x1000
        } else {
            raw as i32
        }
    }

    /// The immediate read in this format, whatever the opcode.
    pub fn b_immediate(&self) -> (r: i32)
        ensures
            r == b_imm(self@),
    {
        let w = self.word;
        let raw = ((w >> 31u32) << 12u32) | (((w >> 7u32) & 1) << 11u32) | (((w >> 25u32) & 0x3f)
            << 5u32) | (((w >> 8u32) & 0xf) << 1u32);
        assert(((w >> 31u32) << 12u32) | (((w >> 7u32) & 1) << 11u32) | (((w >> 25u32) & 0x3f)
            << 5u32) | (((w >> 8u32) & 0xf) << 1u32) == (w / 0x8000_0000) * 0x1000 + (w / 0x80
            % 0x2) * 0x800 + (w / 0x200_0000 % 0x40) * 0x20 + (w / 0x100 % 0x10) * 0x2)
            by (bit_vector);
        assert(((w >> 31u32) << 12u32) | (((w >> 7u32) & 1) << 11u32) | (((w >> 25u32) & 0x3f)
            << 5u32) | (((w >> 8u32) & 0xf) << 1u32) < 0x2000) by (bit_vector);
        if raw >= 0x1000 {
            raw as i32 - 0x2000
        } else {
            raw as i32
        }
    }

    /// The immediate read in this format, whatever the opcode.
    pub fn u_immediate(&self) -> (r: i32)
        ensures
            r == u_imm(self@),
    {
        let w = self.word;
        let raw = w & 0xffff_f000;
        assert(w & 0xffff_f000 == (w / 0x1000) * 0x1000) by (bit_vector);
        if raw >= 0x8000_0000 {
            let v: i64 = raw as i64 - 0x1_0000_0000;
            v as i32
        } else {
            raw as i32
        }
    }

    /// The immediate read in this format, whatever the opcode.
    pub fn j_immediate(&self) -> (r: i32)
        ensures
            r == j_imm(self@),
    {
        let w = self.word;
        let raw = ((w >> 31u32) << 20u32) | (((w >> 12u32) & 0xff) << 12u32) | (((w >> 20u32)
            & 1) << 11u32) | (((w >> 21u32) & 0x3ff) << 1u32);
        assert(((w >> 31u32) << 20u32) | (((w >> 12u32) & 0xff) << 12u32) | (((w >> 20u32) & 1)
            << 11u32) | (((w >> 21u32) & 0x3ff) << 1u32) == (w / 0x8000_0000) * 0x10_0000 + (w
            / 0x1000 % 0x100) * 0x1000 + (w / 0x10_0000 % 0x2) * 0x800 + (w / 0x20_0000 % 0x400)
            * 0x2) by (bit_vector);
        assert(((w >> 31u32) << 20u32) | (((w >> 12u32) & 0xff) << 12u32) | (((w >> 20u32) & 1)
            << 11u32) | (((w >> 21u32) & 0x3ff) << 1u32) < 0x20_0000) by (bit_vector);
        if raw >= 0x10_0000 {
            raw as i32 - 0x20_0000
        } else {
            raw as i32
        }
    }

    /// The sign-extended immediate, where the format has one.
    pub fn get_imm(&self) -> (r: Option<i32>)
        ensures
            opt_i32(r) == imm_of(self@),
    {
        let f = self.format();
        match f {
            Format::I => Some(self.i_immediate()),
            Format::S => Some(self.s_immediate()),
            Format::B => Some(self.b_immediate()),
            Format::U => Some(self.u_immediate()),
            Format::J => Some(self.j_immediate()),
            _ => None,
        }
    }

    /// A FENCE (MISC-MEM opcode).
    pub fn is_fence(&self) -> (r: bool)
        ensures
            r == (opcode_bits(self@) == 0x0f),
    {
        self.opcode() == 0x0f
    }

    /// An environment call, breakpoint or CSR access (SYSTEM opcode).
    pub fn is_system(&self) -> (r: bool)
        ensures
            r == (opcode_bits(self@) == 0x73),
    {
        self.opcode() == 0x73
    }

    /// A conditional branch.
    pub fn is_btype(&self) -> (r: bool)
        ensures
            r == (format_of(self@) == Format::B),
    {
        self.opcode() == 0x63
    }

    /// A store.
    pub fn is_stype(&self) -> (r: bool)
        ensures
            r == (format_of(self@) == Format::S),
    {
        self.opcode() == 0x23
    }

    /// A load or a store: the instructions that access data memory.
    pub fn is_memory(&self) -> (r: bool)
        ensures
            r == (opcode_bits(self@) == 0x03 || opcode_bits(self@) == 0x23),
    {
        let op = self.opcode();
        op == 0x03 || op == 0x23
    }
}

/// Which fields an RV32I instruction has, read off its major opcode as the
/// RV32I base encoding lays them out: LUI (0x37) and AUIPC (0x17) are U-type;
/// a destination register belongs to LUI, AUIPC, JAL (0x6f), JALR (0x67),
/// LOAD (0x03), OP-IMM (0x13), OP (0x33) and SYSTEM (0x73); a first source
/// register and a funct3 to JALR, LOAD, OP-IMM, OP, SYSTEM, STORE (0x23) and
/// BRANCH (0x63); a second source register to OP, STORE and BRANCH; funct7 to
/// OP and the immediate shifts (OP-IMM with funct3 1 or 5), whose immediate
/// field is a shift amount; every other opcode with a destination or a source
/// register, and STORE and BRANCH, has an immediate.
pub proof fn law_fields_by_opcode(w: u32)
    ensures
        ({
            let op = opcode_bits(w);
            let shift = op == 0x13 && (funct3_bits(w) == 1 || funct3_bits(w) == 5);
            &&& (format_of(w) == Format::U <==> op == 0x37 || op == 0x17)
            &&& (format_has_rd(format_of(w)) <==> op == 0x37 || op == 0x17 || op == 0x6f || op
                == 0x67 || op == 0x03 || op == 0x13 || op == 0x33 || op == 0x73)
            &&& (format_has_rs1(format_of(w)) <==> op == 0x67 || op == 0x03 || op == 0x13 || op
                == 0x33 || op == 0x73 || op == 0x23 || op == 0x63)
            &&& (format_has_rs2(format_of(w)) <==> op == 0x33 || op == 0x23 || op == 0x63)
            &&& (format_has_funct3(format_of(w)) <==> op == 0x67 || op == 0x03 || op == 0x13 || op
                == 0x33 || op == 0x73 || op == 0x23 || op == 0x63)
            &&& (format_has_funct7(format_of(w)) <==> op == 0x33 || shift)
            &&& (format_has_shamt(format_of(w)) <==> shift)
            &&& (imm_of(w) is Some <==> !shift && (op == 0x37 || op == 0x17 || op == 0x6f || op
                == 0x67 || op == 0x03 || op == 0x13 || op == 0x73 || op == 0x23 || op == 0x63))
        }),
{
}

/// The immediate of an RV32I instruction, by its opcode: the upper immediate
/// of LUI and AUIPC, the jump offset of JAL, the branch offset of BRANCH, the
/// store offset of STORE, and the twelve-bit immediate of JALR, LOAD, SYSTEM
/// and the OP-IMM operations other than shifts.
pub proof fn law_immediate_by_opcode(w: u32)
    ensures
        ({
            let op = opcode_bits(w);
            &&& (op == 0x37 || op == 0x17) ==> imm_of(w) == Some(u_imm(w))
            &&& op == 0x6f ==> imm_of(w) == Some(j_imm(w))
            &&& op == 0x63 ==> imm_of(w) == Some(b_imm(w))
            &&& op == 0x23 ==> imm_of(w) == Some(s_imm(w))
            &&& (op == 0x67 || op == 0x03 || op == 0x73 || (op == 0x13 && funct3_bits(w) != 1
                && funct3_bits(w) != 5)) ==> imm_of(w) == Some(i_imm(w))
        }),
{
}

/// The word `w` with the branch offset `o` placed where the RV32I B-type
/// format keeps it: offset bit 12 in bit 31, bits 10..5 in bits 30..25, bits
/// 4..1 in bits 11..8 and bit 11 in bit 7. Every other bit of `w` stays.
pub open spec fn place_branch_offset(w: u32, o: int) -> u32 {
    let u = (o % 0x2000) as u32;
    (w & 0x01ff_f07f) | ((u >> 12u32) << 31u32) | (((u >> 5u32) & 0x3f) << 25u32) | (((u
        >> 1u32) & 0xf) << 8u32) | (((u >> 11u32) & 1) << 7u32)
}

/// A branch offset placed in a word as the B-type format lays it out reads
/// back as itself, and the opcode, funct3 and source registers stay.
pub proof fn law_branch_offset_reads_back(w: u32, o: int)
    requires
        -0x1000 <= o < 0x1000,
        o % 2 == 0,
    ensures
        b_imm(place_branch_offset(w, o)) == o,
        opcode_bits(place_branch_offset(w, o)) == opcode_bits(w),
        funct3_bits(place_branch_offset(w, o)) == funct3_bits(w),
        rs1_bits(place_branch_offset(w, o)) == rs1_bits(w),
        rs2_bits(place_branch_offset(w, o)) == rs2_bits(w),
{
    let u = (o % 0x2000) as u32;
    assert(u as int == o % 0x2000);
    assert(u % 2 == 0);
    let x = place_branch_offset(w, o);
    assert((x / 0x8000_0000) * 0x1000 + (x / 0x80 % 0x2) * 0x800 + (x / 0x200_0000 % 0x40) * 0x20
        + (x / 0x100 % 0x10) * 0x2 == u && x % 0x80 == w % 0x80 && x / 0x1000 % 0x8 == w / 0x1000
        % 0x8 && x / 0x8000 % 0x20 == w / 0x8000 % 0x20 && x / 0x10_0000 % 0x20 == w / 0x10_0000
        % 0x20) by (bit_vector)
        requires
            x == (w & 0x01ff_f07f) | ((u >> 12u32) << 31u32) | (((u >> 5u32) & 0x3f) << 25u32)
                | (((u >> 1u32) & 0xf) << 8u32) | (((u >> 11u32) & 1) << 7u32),
            u < 0x2000,
            u % 2 == 0,
    ;
}

/// The word `w` with the jump offset `o` placed where the RV32I J-type format
/// keeps it: offset bit 20 in bit 31, bits 10..1 in bits 30..21, bit 11 in
/// bit 20 and bits 19..12 in bits 19..12. The opcode and rd bits of `w` stay.
pub open spec fn place_jump_offset(w: u32, o: int) -> u32 {
    let u = (o % 0x20_0000) as u32;
    (w & 0xfff) | ((u >> 20u32) << 31u32) | (((u >> 1u32) & 0x3ff) << 21u32) | (((u >> 11u32)
        & 1) << 20u32) | (((u >> 12u32) & 0xff) << 12u32)
}

/// A jump offset placed in a word as the J-type format lays it out reads back
/// as itself, and the opcode and destination register stay.
pub proof fn law_jump_offset_reads_back(w: u32, o: int)
    requires
        -0x10_0000 <= o < 0x10_0000,
        o % 2 == 0,
    ensures
        j_imm(place_jump_offset(w, o)) == o,
        opcode_bits(place_jump_offset(w, o)) == opcode_bits(w),
        rd_bits(place_jump_offset(w, o)) == rd_bits(w),
{
    let u = (o % 0x20_0000) as u32;
    assert(u as int == o % 0x20_0000);
    assert(u % 2 == 0);
    let x = place_jump_offset(w, o);
    assert((x / 0x8000_0000) * 0x10_0000 + (x / 0x1000 % 0x100) * 0x1000 + (x / 0x10_0000 % 0x2)
        * 0x800 + (x / 0x20_0000 % 0x400) * 0x2 == u && x % 0x80 == w % 0x80 && x / 0x80 % 0x20
        == w / 0x80 % 0x20) by (bit_vector)
        requires
            x == (w & 0xfff) | ((u >> 20u32) << 31u32) | (((u >> 1u32) & 0x3ff) << 21u32) | (((u
                >> 11u32) & 1) << 20u32) | (((u >> 12u32) & 0xff) << 12u32),
            u < 0x20_0000,
            u % 2 == 0,
    ;
}

/// The word `w` with the store offset `o` placed where the RV32I S-type
/// format keeps it: offset bits 11..5 in bits 31..25 and bits 4..0 in bits
/// 11..7. The opcode, funct3 and source register bits of `w` stay.
pub open spec fn place_store_offset(w: u32, o: int) -> u32 {
    let u = (o % 0x1000) as u32;
    (w & 0x01ff_f07f) | ((u >> 5u32) << 25u32) | ((u & 0x1f) << 7u32)
}

/// A store offset placed in a word as the S-type format lays it out reads
/// back as itself, and the opcode, funct3 and source registers stay.
pub proof fn law_store_offset_reads_back(w: u32, o: int)
    requires
        -0x800 <= o < 0x800,
    ensures
        s_imm(place_store_offset(w, o)) == o,
        opcode_bits(place_store_offset(w, o)) == opcode_bits(w),
        funct3_bits(place_store_offset(w, o)) == funct3_bits(w),
        rs1_bits(place_store_offset(w, o)) == rs1_bits(w),
        rs2_bits(place_store_offset(w, o)) == rs2_bits(w),
{
    let u = (o % 0x1000) as u32;
    assert(u as int == o % 0x1000);
    let x = place_store_offset(w, o);
    assert((x / 0x200_0000) * 0x20 + x / 0x80 % 0x20 == u && x % 0x80 == w % 0x80 && x / 0x1000
        % 0x8 == w / 0x1000 % 0x8 && x / 0x8000 % 0x20 == w / 0x8000 % 0x20 && x / 0x10_0000
        % 0x20 == w / 0x10_0000 % 0x20) by (bit_vector)
        requires
            x == (w & 0x01ff_f07f) | ((u >> 5u32) << 25u32) | ((u & 0x1f) << 7u32),
            u < 0x1000,
    ;
}

/// The word `w` with the twelve-bit immediate `o` placed in bits 31..20, as
/// the RV32I I-type format keeps it. Every other bit of `w` stays.
pub open spec fn place_short_immediate(w: u32, o: int) -> u32 {
    let u = (o % 0x1000) as u32;
    (w & 0x000f_ffff) | (u << 20u32)
}

/// A twelve-bit immediate placed in a word as the I-type format lays it out
/// reads back as itself, and the opcode, rd, funct3 and rs1 stay.
pub proof fn law_short_immediate_reads_back(w: u32, o: int)
    requires
        -0x800 <= o < 0x800,
    ensures
        i_imm(place_short_immediate(w, o)) == o,
        opcode_bits(place_short_immediate(w, o)) == opcode_bits(w),
        rd_bits(place_short_immediate(w, o)) == rd_bits(w),
        funct3_bits(place_short_immediate(w, o)) == funct3_bits(w),
        rs1_bits(place_short_immediate(w, o)) == rs1_bits(w),
{
    let u = (o % 0x1000) as u32;
    assert(u as int == o % 0x1000);
    let x = place_short_immediate(w, o);
    assert(x / 0x10_0000 == u && x % 0x8000 == w % 0x8000 && x / 0x8000 % 0x20 == w / 0x8000
        % 0x20) by (bit_vector)
        requires
            x == (w & 0x000f_ffff) | (u << 20u32),
            u < 0x1000,
    ;
    assert(x % 0x80 == w % 0x80 && x / 0x80 % 0x20 == w / 0x80 % 0x20 && x / 0x1000 % 0x8 == w
        / 0x1000 % 0x8) by (bit_vector)
        requires
            x % 0x8000 == w % 0x8000,
    ;
}

/// The word `w` with the upper immediate `o` (a multiple of 0x1000 within
/// the signed 32-bit range) in bits 31..12, as the RV32I U-type format keeps
/// it. The opcode and rd bits of `w` stay.
pub open spec fn place_upper_immediate(w: u32, o: int) -> u32 {
    let u = (o % 0x1_0000_0000) as u32;
    (w & 0xfff) | (u & 0xffff_f000)
}

/// An upper immediate placed in a word as the U-type format lays it out
/// reads back as itself, and the opcode and destination register stay.
pub proof fn law_upper_immediate_reads_back(w: u32, o: int)
    requires
        -0x8000_0000 <= o < 0x8000_0000,
        o % 0x1000 == 0,
    ensures
        u_imm(place_upper_immediate(w, o)) == o,
        opcode_bits(place_upper_immediate(w, o)) == opcode_bits(w),
        rd_bits(place_upper_immediate(w, o)) == rd_bits(w),
{
    let u = (o % 0x1_0000_0000) as u32;
    assert(u as int == o % 0x1_0000_0000);
    assert(u % 0x1000 == 0);
    let x = place_upper_immediate(w, o);
    assert((x / 0x1000) * 0x1000 == u && x % 0x80 == w % 0x80 && x / 0x80 % 0x20 == w / 0x80
        % 0x20) by (bit_vector)
        requires
            x == (w & 0xfff) | (u & 0xffff_f000),
            u % 0x1000 == 0,
    ;
}

} // verus!

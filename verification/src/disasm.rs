//! Assembly text for RV32I instruction words, as printed for the stages of
//! the golden pipeline, such as `addi x3, x0, 10`.

use vstd::prelude::*;
use vstd::string::StringExecFns;
use crate::text::{hex_char, hex_text, hex_value, lemma_hex_text_reads_back};
use crate::instruction::{
    b_imm, funct3_bits, funct7_bits, i_imm, j_imm, opcode_bits, rd_bits, rs1_bits, rs2_bits, s_imm,
    Instruction,
};

verus! {

/// The decimal digit `d`.
pub open spec fn digit_text(d: int) -> Seq<char> {
    if d == 0 {
        "0"@
    } else if d == 1 {
        "1"@
    } else if d == 2 {
        "2"@
    } else if d == 3 {
        "3"@
    } else if d == 4 {
        "4"@
    } else if d == 5 {
        "5"@
    } else if d == 6 {
        "6"@
    } else if d == 7 {
        "7"@
    } else if d == 8 {
        "8"@
    } else {
        "9"@
    }
}

/// `n` in decimal, without leading zeros.
pub open spec fn decimal(n: nat) -> Seq<char>
    decreases n,
{
    if n < 10 {
        digit_text(n as int)
    } else {
        decimal(n / 10) + digit_text((n % 10) as int)
    }
}

/// `v` in decimal, with a minus sign where it is negative.
pub open spec fn signed_decimal(v: int) -> Seq<char> {
    if v < 0 {
        "-"@ + decimal((-v) as nat)
    } else {
        decimal(v as nat)
    }
}

/// A register name, such as `x3`.
pub open spec fn reg(r: int) -> Seq<char> {
    "x"@ + decimal(r as nat)
}

pub open spec fn list2(a: Seq<char>, b: Seq<char>) -> Seq<char> {
    a + ", "@ + b
}

pub open spec fn list3(a: Seq<char>, b: Seq<char>, c: Seq<char>) -> Seq<char> {
    a + ", "@ + b + ", "@ + c
}

/// An address operand: an offset from a base register, such as `-4(x2)`.
pub open spec fn offset_operand(offset: int, base: int) -> Seq<char> {
    signed_decimal(offset) + "("@ + reg(base) + ")"@
}

/// The mnemonic of an RV32I instruction word, or `None` for a word outside RV32I.
pub open spec fn mnemonic(w: u32) -> Option<Seq<char>> {
    let op = opcode_bits(w);
    let f3 = funct3_bits(w);
    let f7 = funct7_bits(w);
    if op == 0x37 {
        Some("lui"@)
    } else if op == 0x17 {
        Some("auipc"@)
    } else if op == 0x6f {
        Some("jal"@)
    } else if op == 0x67 && f3 == 0 {
        Some("jalr"@)
    } else if op == 0x63 {
        if f3 == 0 {
            Some("beq"@)
        } else if f3 == 1 {
            Some("bne"@)
        } else if f3 == 4 {
            Some("blt"@)
        } else if f3 == 5 {
            Some("bge"@)
        } else if f3 == 6 {
            Some("bltu"@)
        } else if f3 == 7 {
            Some("bgeu"@)
        } else {
            None
        }
    } else if op == 0x03 {
        if f3 == 0 {
            Some("lb"@)
        } else if f3 == 1 {
            Some("lh"@)
        } else if f3 == 2 {
            Some("lw"@)
        } else if f3 == 4 {
            Some("lbu"@)
        } else if f3 == 5 {
            Some("lhu"@)
        } else {
            None
        }
    } else if op == 0x23 {
        if f3 == 0 {
            Some("sb"@)
        } else if f3 == 1 {
            Some("sh"@)
        } else if f3 == 2 {
            Some("sw"@)
        } else {
            None
        }
    } else if op == 0x13 {
        if f3 == 0 {
            Some("addi"@)
        } else if f3 == 2 {
            Some("slti"@)
        } else if f3 == 3 {
            Some("sltiu"@)
        } else if f3 == 4 {
            Some("xori"@)
        } else if f3 == 6 {
            Some("ori"@)
        } else if f3 == 7 {
            Some("andi"@)
        } else if f3 == 1 && f7 == 0 {
            Some("slli"@)
        } else if f3 == 5 && f7 == 0 {
            Some("srli"@)
        } else if f3 == 5 && f7 == 0x20 {
            Some("srai"@)
        } else {
            None
        }
    } else if op == 0x33 {
        if f7 == 0 {
            if f3 == 0 {
                Some("add"@)
            } else if f3 == 1 {
                Some("sll"@)
            } else if f3 == 2 {
                Some("slt"@)
            } else if f3 == 3 {
                Some("sltu"@)
            } else if f3 == 4 {
                Some("xor"@)
            } else if f3 == 5 {
                Some("srl"@)
            } else if f3 == 6 {
                Some("or"@)
            } else {
                Some("and"@)
            }
        } else if f7 == 0x20 && f3 == 0 {
            Some("sub"@)
        } else if f7 == 0x20 && f3 == 5 {
            Some("sra"@)
        } else {
            None
        }
    } else if op == 0x0f {
        Some("fence"@)
    } else if op == 0x73 {
        if f3 == 0 {
            if w as int / 0x10_0000 == 0 {
                Some("ecall"@)
            } else if w as int / 0x10_0000 == 1 {
                Some("ebreak"@)
            } else {
                None
            }
        } else if f3 == 1 {
            Some("csrrw"@)
        } else if f3 == 2 {
            Some("csrrs"@)
        } else if f3 == 3 {
            Some("csrrc"@)
        } else if f3 == 5 {
            Some("csrrwi"@)
        } else if f3 == 6 {
            Some("csrrsi"@)
        } else if f3 == 7 {
            Some("csrrci"@)
        } else {
            None
        }
    } else {
        None
    }
}

/// The operands of an RV32I instruction word, empty where it has none.
pub open spec fn operands(w: u32) -> Seq<char> {
    let op = opcode_bits(w);
    let f3 = funct3_bits(w);
    if op == 0x37 || op == 0x17 {
        list2(reg(rd_bits(w)), decimal((w as int / 0x1000) as nat))
    } else if op == 0x6f {
        list2(reg(rd_bits(w)), signed_decimal(j_imm(w)))
    } else if op == 0x67 || op == 0x03 {
        list2(reg(rd_bits(w)), offset_operand(i_imm(w), rs1_bits(w)))
    } else if op == 0x63 {
        list3(reg(rs1_bits(w)), reg(rs2_bits(w)), signed_decimal(b_imm(w)))
    } else if op == 0x23 {
        list2(reg(rs2_bits(w)), offset_operand(s_imm(w), rs1_bits(w)))
    } else if op == 0x13 {
        if f3 == 1 || f3 == 5 {
            list3(reg(rd_bits(w)), reg(rs1_bits(w)), decimal(rs2_bits(w) as nat))
        } else {
            list3(reg(rd_bits(w)), reg(rs1_bits(w)), signed_decimal(i_imm(w)))
        }
    } else if op == 0x33 {
        list3(reg(rd_bits(w)), reg(rs1_bits(w)), reg(rs2_bits(w)))
    } else if op == 0x73 && f3 != 0 {
        if f3 >= 5 {
            list3(reg(rd_bits(w)), decimal((w as int / 0x10_0000) as nat), decimal(rs1_bits(w) as nat))
        } else {
            list3(reg(rd_bits(w)), decimal((w as int / 0x10_0000) as nat), reg(rs1_bits(w)))
        }
    } else {
        seq![]
    }
}

/// The assembly text of an instruction word: its mnemonic, then its operands
/// after a space where it has any; `illegal` for a word outside RV32I.
pub open spec fn disassembly(w: u32) -> Seq<char> {
    match mnemonic(w) {
        Some(m) => if operands(w).len() == 0 {
            m
        } else {
            m + " "@ + operands(w)
        },
        None => "illegal"@,
    }
}


fn push_digit(s: &mut String, d: u32)
    requires
        d < 10,
    ensures
        final(s)@ == old(s)@ + digit_text(d as int),
{
    let t = if d == 0 {
        "0"
    } else if d == 1 {
        "1"
    } else if d == 2 {
        "2"
    } else if d == 3 {
        "3"
    } else if d == 4 {
        "4"
    } else if d == 5 {
        "5"
    } else if d == 6 {
        "6"
    } else if d == 7 {
        "7"
    } else if d == 8 {
        "8"
    } else {
        "9"
    };
    s.append(t);
}

/// Appends `n` in decimal.
pub fn push_decimal(s: &mut String, n: u32)
    ensures
        final(s)@ == old(s)@ + decimal(n as nat),
    decreases n,
{
    if n >= 10 {
        push_decimal(s, n / 10);
    }
    push_digit(s, n % 10);
    assert(final(s)@ =~= old(s)@ + decimal(n as nat)) by {
        if n >= 10 {
            assert(decimal(n as nat) == decimal((n / 10) as nat) + digit_text((n % 10) as int));
        }
    }
}

fn push_signed(s: &mut String, v: i32)
    ensures
        final(s)@ == old(s)@ + signed_decimal(v as int),
{
    if v < 0 {
        s.append("-");
        let m: i64 = -(v as i64);
        push_decimal(s, m as u32);
        assert(final(s)@ =~= old(s)@ + signed_decimal(v as int));
    } else {
        push_decimal(s, v as u32);
    }
}

fn push_reg(s: &mut String, r: u8)
    ensures
        final(s)@ == old(s)@ + reg(r as int),
{
    s.append("x");
    push_decimal(s, r as u32);
    assert(final(s)@ =~= old(s)@ + reg(r as int));
}

fn push_offset(s: &mut String, offset: i32, base: u8)
    ensures
        final(s)@ == old(s)@ + offset_operand(offset as int, base as int),
{
    push_signed(s, offset);
    s.append("(");
    push_reg(s, base);
    s.append(")");
    assert(final(s)@ =~= old(s)@ + offset_operand(offset as int, base as int));
}

/// The mnemonic of the instruction, or `None` for a word outside RV32I.
pub fn mnemonic_of(instr: &Instruction) -> (r: Option<&'static str>)
    ensures
        match r {
            Some(m) => mnemonic(instr@) == Some(m@),
            None => mnemonic(instr@) is None,
        },
{
    let op = instr.opcode();
    let f3 = instr.funct3_field();
    let f7 = instr.funct7_field();
    if op == 0x37 {
        Some("lui")
    } else if op == 0x17 {
        Some("auipc")
    } else if op == 0x6f {
        Some("jal")
    } else if op == 0x67 && f3 == 0 {
        Some("jalr")
    } else if op == 0x63 {
        if f3 == 0 {
            Some("beq")
        } else if f3 == 1 {
            Some("bne")
        } else if f3 == 4 {
            Some("blt")
        } else if f3 == 5 {
            Some("bge")
        } else if f3 == 6 {
            Some("bltu")
        } else if f3 == 7 {
            Some("bgeu")
        } else {
            None
        }
    } else if op == 0x03 {
        if f3 == 0 {
            Some("lb")
        } else if f3 == 1 {
            Some("lh")
        } else if f3 == 2 {
            Some("lw")
        } else if f3 == 4 {
            Some("lbu")
        } else if f3 == 5 {
            Some("lhu")
        } else {
            None
        }
    } else if op == 0x23 {
        if f3 == 0 {
            Some("sb")
        } else if f3 == 1 {
            Some("sh")
        } else if f3 == 2 {
            Some("sw")
        } else {
            None
        }
    } else if op == 0x13 {
        if f3 == 0 {
            Some("addi")
        } else if f3 == 2 {
            Some("slti")
        } else if f3 == 3 {
            Some("sltiu")
        } else if f3 == 4 {
            Some("xori")
        } else if f3 == 6 {
            Some("ori")
        } else if f3 == 7 {
            Some("andi")
        } else if f3 == 1 && f7 == 0 {
            Some("slli")
        } else if f3 == 5 && f7 == 0 {
            Some("srli")
        } else if f3 == 5 && f7 == 0x20 {
            Some("srai")
        } else {
            None
        }
    } else if op == 0x33 {
        if f7 == 0 {
            if f3 == 0 {
                Some("add")
            } else if f3 == 1 {
                Some("sll")
            } else if f3 == 2 {
                Some("slt")
            } else if f3 == 3 {
                Some("sltu")
            } else if f3 == 4 {
                Some("xor")
            } else if f3 == 5 {
                Some("srl")
            } else if f3 == 6 {
                Some("or")
            } else {
                Some("and")
            }
        } else if f7 == 0x20 && f3 == 0 {
            Some("sub")
        } else if f7 == 0x20 && f3 == 5 {
            Some("sra")
        } else {
            None
        }
    } else if op == 0x0f {
        Some("fence")
    } else if op == 0x73 {
        if f3 == 0 {
            let imm = instr.upper12();
            if imm == 0 {
                Some("ecall")
            } else if imm == 1 {
                Some("ebreak")
            } else {
                None
            }
        } else if f3 == 1 {
            Some("csrrw")
        } else if f3 == 2 {
            Some("csrrs")
        } else if f3 == 3 {
            Some("csrrc")
        } else if f3 == 5 {
            Some("csrrwi")
        } else if f3 == 6 {
            Some("csrrsi")
        } else if f3 == 7 {
            Some("csrrci")
        } else {
            None
        }
    } else {
        None
    }
}

/// Whether the instruction's assembly text has operands.
fn has_operands(instr: &Instruction) -> (r: bool)
    ensures
        r == (operands(instr@).len() > 0),
{
    let op = instr.opcode();
    let f3 = instr.funct3_field();
    proof {
        reveal_strlit(", ");
    }
    op == 0x37 || op == 0x17 || op == 0x6f || op == 0x67 || op == 0x03 || op == 0x63 || op == 0x23
        || op == 0x13 || op == 0x33 || (op == 0x73 && f3 != 0)
}

fn push_operands(s: &mut String, instr: &Instruction)
    ensures
        final(s)@ == old(s)@ + operands(instr@),
{
    let ghost w = instr@;
    let op = instr.opcode();
    let f3 = instr.funct3_field();
    if op == 0x37 || op == 0x17 {
        push_reg(s, instr.rd_field());
        s.append(", ");
        push_decimal(s, instr.upper20());
    } else if op == 0x6f {
        push_reg(s, instr.rd_field());
        s.append(", ");
        push_signed(s, instr.j_immediate());
    } else if op == 0x67 || op == 0x03 {
        push_reg(s, instr.rd_field());
        s.append(", ");
        push_offset(s, instr.i_immediate(), instr.rs1_field());
    } else if op == 0x63 {
        push_reg(s, instr.rs1_field());
        s.append(", ");
        push_reg(s, instr.rs2_field());
        s.append(", ");
        push_signed(s, instr.b_immediate());
    } else if op == 0x23 {
        push_reg(s, instr.rs2_field());
        s.append(", ");
        push_offset(s, instr.s_immediate(), instr.rs1_field());
    } else if op == 0x13 {
        push_reg(s, instr.rd_field());
        s.append(", ");
        push_reg(s, instr.rs1_field());
        s.append(", ");
        if f3 == 1 || f3 == 5 {
            push_decimal(s, instr.rs2_field() as u32);
        } else {
            push_signed(s, instr.i_immediate());
        }
    } else if op == 0x33 {
        push_reg(s, instr.rd_field());
        s.append(", ");
        push_reg(s, instr.rs1_field());
        s.append(", ");
        push_reg(s, instr.rs2_field());
    } else if op == 0x73 && f3 != 0 {
        push_reg(s, instr.rd_field());
        s.append(", ");
        push_decimal(s, instr.upper12());
        s.append(", ");
        if f3 >= 5 {
            push_decimal(s, instr.rs1_field() as u32);
        } else {
            push_reg(s, instr.rs1_field());
        }
    }
    assert(final(s)@ =~= old(s)@ + operands(w));
}

/// The assembly text of an instruction, such as `addi x3, x0, 10`.
pub fn disassemble(instr: &Instruction) -> (r: String)
    ensures
        r@ == disassembly(instr@),
{
    match mnemonic_of(instr) {
        Some(m) => {
            let mut s = String::from_str(m);
            if has_operands(instr) {
                s.append(" ");
                push_operands(&mut s, instr);
            }
            s
        },
        None => String::from_str("illegal"),
    }
}


/// The lower-case hexadecimal digit `d`.
pub open spec fn hex_digit_text(d: int) -> Seq<char> {
    if d == 0 {
        "0"@
    } else if d == 1 {
        "1"@
    } else if d == 2 {
        "2"@
    } else if d == 3 {
        "3"@
    } else if d == 4 {
        "4"@
    } else if d == 5 {
        "5"@
    } else if d == 6 {
        "6"@
    } else if d == 7 {
        "7"@
    } else if d == 8 {
        "8"@
    } else if d == 9 {
        "9"@
    } else if d == 10 {
        "a"@
    } else if d == 11 {
        "b"@
    } else if d == 12 {
        "c"@
    } else if d == 13 {
        "d"@
    } else if d == 14 {
        "e"@
    } else {
        "f"@
    }
}

/// The low `n` hexadecimal digits of `v`, with leading zeros.
pub open spec fn hex_digits(v: nat, n: nat) -> Seq<char>
    decreases n,
{
    if n == 0 {
        seq![]
    } else {
        hex_digits(v / 16, (n - 1) as nat) + hex_digit_text((v % 16) as int)
    }
}

fn push_hex_digit(s: &mut String, d: u32)
    requires
        d < 16,
    ensures
        final(s)@ == old(s)@ + hex_digit_text(d as int),
{
    let t = if d == 0 {
        "0"
    } else if d == 1 {
        "1"
    } else if d == 2 {
        "2"
    } else if d == 3 {
        "3"
    } else if d == 4 {
        "4"
    } else if d == 5 {
        "5"
    } else if d == 6 {
        "6"
    } else if d == 7 {
        "7"
    } else if d == 8 {
        "8"
    } else if d == 9 {
        "9"
    } else if d == 10 {
        "a"
    } else if d == 11 {
        "b"
    } else if d == 12 {
        "c"
    } else if d == 13 {
        "d"
    } else if d == 14 {
        "e"
    } else {
        "f"
    };
    s.append(t);
}

/// Appends the low `n` hexadecimal digits of `v`, with leading zeros.
pub fn push_hex_digits(s: &mut String, v: u32, n: u32)
    ensures
        final(s)@ == old(s)@ + hex_digits(v as nat, n as nat),
    decreases n,
{
    if n > 0 {
        push_hex_digits(s, v / 16, n - 1);
        push_hex_digit(s, v % 16);
        assert(final(s)@ =~= old(s)@ + hex_digits(v as nat, n as nat));
    }
}

/// The bytes of a text whose characters are all ASCII.
pub open spec fn ascii_bytes(s: Seq<char>) -> Seq<u8> {
    s.map_values(|c: char| c as u8)
}

/// How many values `n` hexadecimal digits can write: sixteen to the `n`.
pub open spec fn hex_capacity(n: nat) -> nat
    decreases n,
{
    if n == 0 {
        1
    } else {
        16 * hex_capacity((n - 1) as nat)
    }
}

proof fn lemma_hex_digit_byte(d: int)
    requires
        0 <= d < 16,
    ensures
        hex_digit_text(d).len() == 1,
        ascii_bytes(hex_digit_text(d)) == seq![hex_char(d)],
        ('0' <= hex_digit_text(d)[0] <= '9') || ('a' <= hex_digit_text(d)[0] <= 'f'),
{
    reveal_strlit("0");
    reveal_strlit("1");
    reveal_strlit("2");
    reveal_strlit("3");
    reveal_strlit("4");
    reveal_strlit("5");
    reveal_strlit("6");
    reveal_strlit("7");
    reveal_strlit("8");
    reveal_strlit("9");
    reveal_strlit("a");
    reveal_strlit("b");
    reveal_strlit("c");
    reveal_strlit("d");
    reveal_strlit("e");
    reveal_strlit("f");
    assert(ascii_bytes(hex_digit_text(d)) =~= seq![hex_char(d)]);
}

/// A number printed in `n` hexadecimal digits, where it fits in them, is
/// printed in lower-case digits that read back (as `hex_value` reads
/// hexadecimal text) as the number itself.
pub proof fn law_hex_digits_read_back(v: nat, n: nat)
    requires
        1 <= n,
        v < hex_capacity(n),
    ensures
        hex_digits(v, n).len() == n,
        ascii_bytes(hex_digits(v, n)) == hex_text(v, n),
        hex_value(ascii_bytes(hex_digits(v, n))) == Some(v as int),
        forall|j: int|
            0 <= j < n ==> ('0' <= #[trigger] hex_digits(v, n)[j] <= '9') || ('a' <= hex_digits(
                v,
                n,
            )[j] <= 'f'),
    decreases n,
{
    let d = (v % 16) as int;
    lemma_hex_digit_byte(d);
    if n == 1 {
        assert(hex_digits(v / 16, 0) =~= seq![]);
        assert(hex_digits(v, n) =~= hex_digit_text(d));
        assert(hex_capacity(0) == 1);
        assert(v < 16);
        assert(hex_text(v, n) == seq![hex_char(v as int)]);
    } else {
        assert(v / 16 < hex_capacity((n - 1) as nat));
        law_hex_digits_read_back(v / 16, (n - 1) as nat);
        let head = hex_digits(v / 16, (n - 1) as nat);
        assert(hex_digits(v, n) == head + hex_digit_text(d));
        assert(ascii_bytes(hex_digits(v, n)) =~= ascii_bytes(head) + ascii_bytes(hex_digit_text(d)));
        assert(hex_text(v, n) == hex_text(v / 16, (n - 1) as nat) + seq![hex_char(d)]);
        assert forall|j: int|
            0 <= j < n implies ('0' <= #[trigger] hex_digits(v, n)[j] <= '9') || ('a' <= hex_digits(
            v,
            n,
        )[j] <= 'f') by {
            if j < n - 1 {
                assert(hex_digits(v, n)[j] == head[j]);
            } else {
                assert(hex_digits(v, n)[j] == hex_digit_text(d)[0]);
            }
        }
    }
    lemma_hex_text_reads_back(v, n);
}

/// The mnemonics of the RV32I conditional branches (BRANCH, opcode 0x63), by
/// funct3: 0 `beq`, 1 `bne`, 4 `blt`, 5 `bge`, 6 `bltu`, 7 `bgeu`; 2 and 3
/// encode no instruction.
pub proof fn law_branch_mnemonics(w: u32)
    requires
        opcode_bits(w) == 0x63,
    ensures
        funct3_bits(w) == 0 ==> mnemonic(w) == Some("beq"@),
        funct3_bits(w) == 1 ==> mnemonic(w) == Some("bne"@),
        funct3_bits(w) == 4 ==> mnemonic(w) == Some("blt"@),
        funct3_bits(w) == 5 ==> mnemonic(w) == Some("bge"@),
        funct3_bits(w) == 6 ==> mnemonic(w) == Some("bltu"@),
        funct3_bits(w) == 7 ==> mnemonic(w) == Some("bgeu"@),
        funct3_bits(w) == 2 || funct3_bits(w) == 3 ==> mnemonic(w) is None,
{
}

/// The mnemonics of the RV32I loads (LOAD, opcode 0x03) and stores (STORE,
/// opcode 0x23), by funct3: loads 0 `lb`, 1 `lh`, 2 `lw`, 4 `lbu`, 5 `lhu`;
/// stores 0 `sb`, 1 `sh`, 2 `sw`; every other funct3 encodes no instruction.
pub proof fn law_memory_mnemonics(w: u32)
    ensures
        opcode_bits(w) == 0x03 ==> {
            &&& funct3_bits(w) == 0 ==> mnemonic(w) == Some("lb"@)
            &&& funct3_bits(w) == 1 ==> mnemonic(w) == Some("lh"@)
            &&& funct3_bits(w) == 2 ==> mnemonic(w) == Some("lw"@)
            &&& funct3_bits(w) == 4 ==> mnemonic(w) == Some("lbu"@)
            &&& funct3_bits(w) == 5 ==> mnemonic(w) == Some("lhu"@)
            &&& (funct3_bits(w) == 3 || funct3_bits(w) >= 6) ==> mnemonic(w) is None
        },
        opcode_bits(w) == 0x23 ==> {
            &&& funct3_bits(w) == 0 ==> mnemonic(w) == Some("sb"@)
            &&& funct3_bits(w) == 1 ==> mnemonic(w) == Some("sh"@)
            &&& funct3_bits(w) == 2 ==> mnemonic(w) == Some("sw"@)
            &&& funct3_bits(w) >= 3 ==> mnemonic(w) is None
        },
{
}

/// The mnemonics of the RV32I register-register operations (OP, opcode
/// 0x33), by funct7 and funct3: with funct7 0, funct3 0 `add`, 1 `sll`, 2
/// `slt`, 3 `sltu`, 4 `xor`, 5 `srl`, 6 `or`, 7 `and`; with funct7 0x20,
/// funct3 0 `sub` and 5 `sra`; nothing else.
pub proof fn law_register_op_mnemonics(w: u32)
    requires
        opcode_bits(w) == 0x33,
    ensures
        funct7_bits(w) == 0 ==> {
            &&& funct3_bits(w) == 0 ==> mnemonic(w) == Some("add"@)
            &&& funct3_bits(w) == 1 ==> mnemonic(w) == Some("sll"@)
            &&& funct3_bits(w) == 2 ==> mnemonic(w) == Some("slt"@)
            &&& funct3_bits(w) == 3 ==> mnemonic(w) == Some("sltu"@)
            &&& funct3_bits(w) == 4 ==> mnemonic(w) == Some("xor"@)
            &&& funct3_bits(w) == 5 ==> mnemonic(w) == Some("srl"@)
            &&& funct3_bits(w) == 6 ==> mnemonic(w) == Some("or"@)
            &&& funct3_bits(w) == 7 ==> mnemonic(w) == Some("and"@)
        },
        funct7_bits(w) == 0x20 ==> {
            &&& funct3_bits(w) == 0 ==> mnemonic(w) == Some("sub"@)
            &&& funct3_bits(w) == 5 ==> mnemonic(w) == Some("sra"@)
            &&& funct3_bits(w) != 0 && funct3_bits(w) != 5 ==> mnemonic(w) is None
        },
        funct7_bits(w) != 0 && funct7_bits(w) != 0x20 ==> mnemonic(w) is None,
{
}

/// The mnemonics of LUI (0x37), AUIPC (0x17), JAL (0x6f), JALR (0x67, with
/// funct3 0) and FENCE (0x0f).
pub proof fn law_jump_and_upper_mnemonics(w: u32)
    ensures
        opcode_bits(w) == 0x37 ==> mnemonic(w) == Some("lui"@),
        opcode_bits(w) == 0x17 ==> mnemonic(w) == Some("auipc"@),
        opcode_bits(w) == 0x6f ==> mnemonic(w) == Some("jal"@),
        opcode_bits(w) == 0x67 && funct3_bits(w) == 0 ==> mnemonic(w) == Some("jalr"@),
        opcode_bits(w) == 0x0f ==> mnemonic(w) == Some("fence"@),
{
}

/// An operation on an immediate (OP-IMM, opcode 0x13) is named as the same
/// operation on registers (OP, opcode 0x33) with an `i` appended: for the
/// shifts (funct3 1 and 5) with the same funct7, for the others against
/// funct7 0. Where the register form does not exist, neither does the
/// immediate form. (The one exception is unsigned set-less-than, funct3 3:
/// `sltiu` puts its `u` after the `i`, as `law_unsigned_variants_append_u`
/// says.)
pub proof fn law_immediate_ops_append_i(wi: u32, wr: u32)
    requires
        opcode_bits(wi) == 0x13,
        opcode_bits(wr) == 0x33,
        funct3_bits(wi) == funct3_bits(wr),
        funct3_bits(wi) != 3,
        funct3_bits(wi) == 1 || funct3_bits(wi) == 5 ==> funct7_bits(wi) == funct7_bits(wr),
        funct3_bits(wi) != 1 && funct3_bits(wi) != 5 ==> funct7_bits(wr) == 0,
    ensures
        mnemonic(wr) is Some ==> mnemonic(wi) == Some(mnemonic(wr)->0 + "i"@),
        mnemonic(wr) is None ==> mnemonic(wi) is None,
{
    reveal_strlit("i");
    reveal_strlit("add");
    reveal_strlit("addi");
    reveal_strlit("sll");
    reveal_strlit("slli");
    reveal_strlit("slt");
    reveal_strlit("slti");
    reveal_strlit("xor");
    reveal_strlit("xori");
    reveal_strlit("srl");
    reveal_strlit("srli");
    reveal_strlit("sra");
    reveal_strlit("srai");
    reveal_strlit("or");
    reveal_strlit("ori");
    reveal_strlit("and");
    reveal_strlit("andi");
    let f = funct3_bits(wi);
    let g = funct7_bits(wr);
    if f == 0 {
        assert("addi"@ =~= "add"@ + "i"@);
    } else if f == 1 {
        if g == 0 {
            assert("slli"@ =~= "sll"@ + "i"@);
        }
    } else if f == 2 {
        assert("slti"@ =~= "slt"@ + "i"@);
    } else if f == 4 {
        assert("xori"@ =~= "xor"@ + "i"@);
    } else if f == 5 {
        if g == 0 {
            assert("srli"@ =~= "srl"@ + "i"@);
        } else if g == 0x20 {
            assert("srai"@ =~= "sra"@ + "i"@);
        }
    } else if f == 6 {
        assert("ori"@ =~= "or"@ + "i"@);
    } else {
        assert("andi"@ =~= "and"@ + "i"@);
    }
}

/// The unsigned variant of a branch, a narrow load or a set-less-than is
/// named as the signed one with a `u` appended; its funct3 is the signed
/// one's plus 2 (branches, set-less-than) or plus 4 (loads).
pub proof fn law_unsigned_variants_append_u(ws: u32, wu: u32)
    requires
        opcode_bits(ws) == opcode_bits(wu),
        funct7_bits(ws) == funct7_bits(wu),
        ({
            let op = opcode_bits(ws);
            let f = funct3_bits(ws);
            let g = funct3_bits(wu);
            ||| op == 0x63 && (f == 4 || f == 5) && g == f + 2
            ||| op == 0x03 && (f == 0 || f == 1) && g == f + 4
            ||| op == 0x13 && f == 2 && g == 3
            ||| op == 0x33 && funct7_bits(ws) == 0 && f == 2 && g == 3
        }),
    ensures
        mnemonic(ws) is Some,
        mnemonic(wu) == Some(mnemonic(ws)->0 + "u"@),
{
    reveal_strlit("u");
    reveal_strlit("blt");
    reveal_strlit("bltu");
    reveal_strlit("bge");
    reveal_strlit("bgeu");
    reveal_strlit("lb");
    reveal_strlit("lbu");
    reveal_strlit("lh");
    reveal_strlit("lhu");
    reveal_strlit("slti");
    reveal_strlit("sltiu");
    reveal_strlit("slt");
    reveal_strlit("sltu");
    assert("bltu"@ =~= "blt"@ + "u"@);
    assert("bgeu"@ =~= "bge"@ + "u"@);
    assert("lbu"@ =~= "lb"@ + "u"@);
    assert("lhu"@ =~= "lh"@ + "u"@);
    assert("sltiu"@ =~= "slti"@ + "u"@);
    assert("sltu"@ =~= "slt"@ + "u"@);
}

/// The value of a text of decimal digits (zero for the empty text).
pub open spec fn decimal_value(s: Seq<char>) -> int
    decreases s.len(),
{
    if s.len() == 0 {
        0
    } else {
        decimal_value(s.drop_last()) * 10 + (s.last() as int - '0' as int)
    }
}

proof fn lemma_digit_char(d: int)
    requires
        0 <= d < 10,
    ensures
        digit_text(d).len() == 1,
        '0' <= digit_text(d)[0] <= '9',
        digit_text(d)[0] as int - '0' as int == d,
{
    reveal_strlit("0");
    reveal_strlit("1");
    reveal_strlit("2");
    reveal_strlit("3");
    reveal_strlit("4");
    reveal_strlit("5");
    reveal_strlit("6");
    reveal_strlit("7");
    reveal_strlit("8");
    reveal_strlit("9");
}

/// A number printed in decimal is a run of decimal digits, without a leading
/// zero (but for zero itself), that reads back as the number.
pub proof fn law_decimal_reads_back(n: nat)
    ensures
        decimal(n).len() >= 1,
        forall|j: int| 0 <= j < decimal(n).len() ==> '0' <= #[trigger] decimal(n)[j] <= '9',
        n > 0 ==> decimal(n)[0] != '0',
        decimal_value(decimal(n)) == n,
    decreases n,
{
    if n < 10 {
        lemma_digit_char(n as int);
        let t = decimal(n);
        assert(t.drop_last() =~= seq![]);
        assert(decimal_value(t.drop_last()) == 0);
    } else {
        let d = (n % 10) as int;
        law_decimal_reads_back(n / 10);
        lemma_digit_char(d);
        let head = decimal(n / 10);
        let t = decimal(n);
        assert(t == head + digit_text(d));
        assert(t.drop_last() =~= head);
        assert(t.last() == digit_text(d)[0]);
        assert(decimal_value(t) == decimal_value(head) * 10 + d);
        assert(t[0] == head[0]);
        assert forall|j: int| 0 <= j < t.len() implies '0' <= #[trigger] t[j] <= '9' by {
            if j < head.len() {
                assert(t[j] == head[j]);
            }
        }
    }
}

} // verus!

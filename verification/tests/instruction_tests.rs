use pd5diff::instruction::{Format, Instruction};
use pd5diff::disasm::disassemble;

fn ins(w: u32) -> Instruction {
    Instruction::from_word(w)
}

#[test]
fn addi_fields() {
    // addi x3, x0, 10
    let i = ins(0x00a0_0193);
    assert_eq!(i.opcode(), 0x13);
    assert_eq!(i.format(), Format::I);
    assert_eq!(i.get_rd(), Some(3));
    assert_eq!(i.get_rs1(), Some(0));
    assert_eq!(i.get_rs2(), None);
    assert_eq!(i.get_funct3(), Some(0));
    assert_eq!(i.get_funct7(), None);
    assert_eq!(i.get_imm(), Some(10));
    assert_eq!(i.get_shamt(), None);
    assert!(!i.is_fence() && !i.is_system() && !i.is_btype() && !i.is_stype() && !i.is_memory());
}

#[test]
fn negative_i_immediate() {
    // addi x1, x1, -1
    let i = ins(0xfff0_8093);
    assert_eq!(i.get_imm(), Some(-1));
    assert_eq!(i.get_rd(), Some(1));
    assert_eq!(i.get_rs1(), Some(1));
}

#[test]
fn lui_has_no_source_registers() {
    // lui x29, 524288
    let i = ins(0x8000_0eb7);
    assert_eq!(i.format(), Format::U);
    assert_eq!(i.get_rd(), Some(29));
    assert_eq!(i.get_rs1(), None);
    assert_eq!(i.get_rs2(), None);
    assert_eq!(i.get_funct3(), None);
    assert_eq!(i.get_imm(), Some(i32::MIN));
    // lui x15, 4096
    assert_eq!(ins(0x0100_07b7).get_imm(), Some(0x0100_0000));
}

#[test]
fn store_fields() {
    // sw x2, -4(x8)
    let i = ins(0xfe24_2e23);
    assert_eq!(i.format(), Format::S);
    assert_eq!(i.get_rd(), None);
    assert_eq!(i.get_rs1(), Some(8));
    assert_eq!(i.get_rs2(), Some(2));
    assert_eq!(i.get_funct3(), Some(2));
    assert_eq!(i.get_imm(), Some(-4));
    assert!(i.is_stype() && i.is_memory());
}

#[test]
fn branch_fields() {
    // beq x1, x2, -8
    let i = ins(0xfe20_8ce3);
    assert_eq!(i.format(), Format::B);
    assert_eq!(i.get_imm(), Some(-8));
    assert_eq!(i.get_rs1(), Some(1));
    assert_eq!(i.get_rs2(), Some(2));
    assert_eq!(i.get_rd(), None);
    assert!(i.is_btype());
    // bne x5, x0, 2048
    assert_eq!(ins(0x0000_9063 | (5 << 15) | (1 << 7)).get_imm(), Some(2048));
}

#[test]
fn jal_fields() {
    // jal x1, 2048 ; jal x0, -4
    assert_eq!(ins(0x0010_00ef).get_imm(), Some(2048));
    assert_eq!(ins(0xffdf_f06f).get_imm(), Some(-4));
    assert_eq!(ins(0xffdf_f06f).get_rd(), Some(0));
    assert_eq!(ins(0x0010_00ef).format(), Format::J);
}

#[test]
fn shift_immediate_fields() {
    // srai x5, x6, 3
    let i = ins(0x4033_5293);
    assert_eq!(i.format(), Format::IShift);
    assert_eq!(i.get_shamt(), Some(3));
    assert_eq!(i.get_funct7(), Some(0x20));
    assert_eq!(i.get_imm(), None);
    assert_eq!(i.get_rs2(), None);
}

#[test]
fn r_type_fields() {
    // sub x3, x1, x2
    let i = ins(0x4020_81b3);
    assert_eq!(i.format(), Format::R);
    assert_eq!(i.get_rd(), Some(3));
    assert_eq!(i.get_rs1(), Some(1));
    assert_eq!(i.get_rs2(), Some(2));
    assert_eq!(i.get_funct7(), Some(0x20));
    assert_eq!(i.get_imm(), None);
}

#[test]
fn fence_and_system() {
    let fence = ins(0x0ff0_000f);
    assert!(fence.is_fence());
    assert_eq!(fence.format(), Format::Other);
    assert_eq!(fence.get_rd(), None);
    assert_eq!(fence.get_funct3(), None);
    let ecall = ins(0x0000_0073);
    assert!(ecall.is_system());
    assert_eq!(ecall.get_rd(), Some(0));
    assert_eq!(ecall.get_imm(), Some(0));
}

#[test]
fn load_is_memory() {
    // lw x5, 8(x2)
    let i = ins(0x0081_2283);
    assert!(i.is_memory() && !i.is_stype());
    assert_eq!(i.get_imm(), Some(8));
}

fn text(w: u32) -> String {
    disassemble(&ins(w))
}

#[test]
fn disassembly_of_sample_instructions() {
    assert_eq!(text(0x00a0_0193), "addi x3, x0, 10");
    assert_eq!(text(0x7fee_8e93), "addi x29, x29, 2046");
    assert_eq!(text(0x8000_0eb7), "lui x29, 524288");
    assert_eq!(text(0x7ff0_8f13), "addi x30, x1, 2047");
    assert_eq!(text(0xfff0_8093), "addi x1, x1, -1");
    assert_eq!(text(0x0100_07b7), "lui x15, 4096");
}

#[test]
fn disassembly_of_other_formats() {
    assert_eq!(text(0xfe24_2e23), "sw x2, -4(x8)");
    assert_eq!(text(0x0081_2283), "lw x5, 8(x2)");
    assert_eq!(text(0xfe20_8ce3), "beq x1, x2, -8");
    assert_eq!(text(0xffdf_f06f), "jal x0, -4");
    assert_eq!(text(0x4033_5293), "srai x5, x6, 3");
    assert_eq!(text(0x4020_81b3), "sub x3, x1, x2");
    assert_eq!(text(0x0000_8067), "jalr x0, 0(x1)");
    assert_eq!(text(0x0ff0_000f), "fence");
    assert_eq!(text(0x0000_0073), "ecall");
    assert_eq!(text(0x0010_0073), "ebreak");
    assert_eq!(text(0x3000_2573), "csrrs x10, 768, x0");
    assert_eq!(text(0x0000_0000), "illegal");
    assert_eq!(text(0x0200_0033), "illegal");
}

use pd5diff::instruction::Instruction;
use pd5diff::pipeline::{Pipeline, StageState};

fn stage(pc: u32, w: u32) -> StageState {
    StageState { pc, instr: Some(Instruction::from_word(w)) }
}

#[test]
fn clock_moves_every_stage_on() {
    let mut p = Pipeline::default();
    p.f = stage(0x10, 0x00a0_0193);
    p.d = stage(0x0c, 0xfff0_8093);
    p.w = stage(0x00, 0x0000_0073);
    p.clock();
    assert!(p.f.is_bubble());
    assert_eq!(p.d.pc, 0x10);
    assert_eq!(p.d.instr, Some(Instruction::from_word(0x00a0_0193)));
    assert_eq!(p.e.pc, 0x0c);
    assert!(p.m.is_bubble());
    assert!(p.w.is_bubble());
}

#[test]
fn four_clocks_take_fetch_to_writeback() {
    let mut p = Pipeline::default();
    p.f = stage(0x0100_00c0, 0x00a0_0193);
    for _ in 0..4 {
        p.clock();
    }
    assert_eq!(p.w.pc, 0x0100_00c0);
    assert!(!p.w.is_bubble());
    p.clock();
    assert!(p.f.is_bubble() && p.d.is_bubble() && p.e.is_bubble() && p.m.is_bubble() && p.w.is_bubble());
}

#[test]
fn stage_text() {
    assert_eq!(stage(0x0100_00c0, 0x00a0_0193).dis(), "PC: 010000c0 -> Inst: addi x3, x0, 10");
    assert_eq!(stage(0x0000_0004, 0x8000_0eb7).dis(), "PC: 00000004 -> Inst: lui x29, 524288");
    assert_eq!(StageState::default().dis(), "(Bubble)");
    assert!(StageState::default().is_bubble());
}

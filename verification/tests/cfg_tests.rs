use causm::cfg::{Terminator, CFG};
use causm::instruction::Instruction;
use causm::ir::Reg;

#[test]
fn test_cfg_construction() {
    // R0 = 5
    // JumpIf R0 to 4
    // R1 = 10
    // Jump to 5
    // R1 = 20 (index 4)
    // Return R1 (index 5)
    let instructions = vec![
        Instruction::LoadInt { dest: Reg(0), value: 5 },
        Instruction::JumpIf { cond: Reg(0), target: 4 },
        Instruction::LoadInt { dest: Reg(1), value: 10 },
        Instruction::Jump { target: 5 },
        Instruction::LoadInt { dest: Reg(1), value: 20 },
        Instruction::Return { src: Some(Reg(1)) },
    ];

    let cfg = CFG::from_flat_instructions(&instructions);

    assert_eq!(cfg.entry_block, 0);
    // Block 0: LoadInt, JumpIf. Ends with Branch to block 2 (target 4) and block 1 (fallthrough).
    let b0 = cfg.blocks.get(&0).unwrap();
    assert_eq!(b0.instructions.len(), 1);
    assert!(matches!(
        b0.terminator,
        Terminator::Branch { then_block: 2, else_block: 1, .. }
    ));

    // Block 1: LoadInt, Jump. Ends with Jump to block 3 (target 5).
    let b1 = cfg.blocks.get(&1).unwrap();
    assert_eq!(b1.instructions.len(), 1);
    assert!(matches!(b1.terminator, Terminator::Jump { target: 3 }));

    // Block 2: LoadInt. Ends with fallthrough Jump to block 3.
    let b2 = cfg.blocks.get(&2).unwrap();
    assert_eq!(b2.instructions.len(), 1);
    assert!(matches!(b2.terminator, Terminator::Jump { target: 3 }));

    // Block 3: Return.
    let b3 = cfg.blocks.get(&3).unwrap();
    assert_eq!(b3.instructions.len(), 0);
    assert!(matches!(b3.terminator, Terminator::Return { src: Some(Reg(1)) }));
}

use causm::blockmap::BlockId;
use causm::cfg::{BasicBlock, Terminator, CFG};
use causm::instruction::Instruction;
use causm::ir::{BinaryOperator, Reg};
use causm::ssa::instruction::SsaInstruction;
use causm::ssa::transformer::SsaTransformer;
use causm::ssa::{SsaReg, SsaSelectCase, SsaTerminator};
use std::collections::HashSet;

fn diamond() -> Vec<Instruction> {
    vec![
        Instruction::LoadInt { dest: Reg(0), value: 5 },
        Instruction::JumpIf { cond: Reg(0), target: 4 },
        Instruction::LoadInt { dest: Reg(1), value: 10 },
        Instruction::Jump { target: 5 },
        Instruction::LoadInt { dest: Reg(1), value: 20 },
        Instruction::BinaryOp { dest: Reg(2), op: BinaryOperator::Add, left: Reg(1), right: Reg(0) },
    ]
}

fn check_diamond_phi(instrs: &[Instruction]) {
    let cfg = CFG::from_flat_instructions(instrs);
    let transformer = SsaTransformer::new(cfg);
    let ssa_cfg = transformer.transform();

    let b3 = ssa_cfg.blocks.get(&3).unwrap();
    assert_eq!(b3.phi_nodes.len(), 1);
    let phi = &b3.phi_nodes[0];
    assert_eq!(phi.original_reg, Reg(1));
    assert_eq!(phi.dest, SsaReg { reg: 1, version: 3 });

    let incoming: HashSet<(BlockId, SsaReg)> = phi.incoming.iter().cloned().collect();
    assert!(incoming.contains(&(1, SsaReg { reg: 1, version: 1 })));
    assert!(incoming.contains(&(2, SsaReg { reg: 1, version: 2 })));
}

#[test]
fn ssa_test_ssa_renaming_and_phi() {
    check_diamond_phi(&diamond());
}

#[test]
fn mod_test_ssa_renaming_and_phi() {
    check_diamond_phi(&diamond());
}

#[test]
fn ssa_uses_read_the_phi_version() {
    let cfg = CFG::from_flat_instructions(&diamond());
    let ssa_cfg = SsaTransformer::new(cfg).transform();
    let b3 = ssa_cfg.blocks.get(&3).unwrap();
    assert_eq!(b3.instructions.len(), 1);
    match &b3.instructions[0] {
        SsaInstruction::BinaryOp { dest, left, right, .. } => {
            assert_eq!(*dest, SsaReg { reg: 2, version: 1 });
            assert_eq!(*left, SsaReg { reg: 1, version: 3 });
            assert_eq!(*right, SsaReg { reg: 0, version: 1 });
        }
        other => panic!("unexpected instruction {:?}", other),
    }
    // Block 0 branches on the first version of register 0.
    let b0 = ssa_cfg.blocks.get(&0).unwrap();
    match &b0.terminator {
        SsaTerminator::Branch { cond, then_block, else_block } => {
            assert_eq!(*cond, SsaReg { reg: 0, version: 1 });
            assert_eq!(*then_block, 2);
            assert_eq!(*else_block, 1);
        }
        other => panic!("unexpected terminator {:?}", other),
    }
}

#[test]
fn ssa_drops_unreachable_blocks() {
    // Block 1 (index 1..2) is never reached: index 0 jumps to index 2.
    let instrs = vec![
        Instruction::Jump { target: 2 },
        Instruction::LoadInt { dest: Reg(0), value: 1 },
        Instruction::LoadInt { dest: Reg(0), value: 2 },
    ];
    let cfg = CFG::from_flat_instructions(&instrs);
    assert_eq!(cfg.blocks.len(), 3);
    let ssa_cfg = SsaTransformer::new(cfg).transform();
    assert!(ssa_cfg.blocks.get(&0).is_some());
    assert!(ssa_cfg.blocks.get(&1).is_none());
    assert!(ssa_cfg.blocks.get(&2).is_some());
    let b2 = ssa_cfg.blocks.get(&2).unwrap();
    assert!(b2.phi_nodes.is_empty());
    assert!(matches!(b2.terminator, SsaTerminator::Return { src: None }));
}

#[test]
fn ssa_loop_gets_phi_at_header() {
    // 0: r0 = 0 ; 1: r0 = r0 + r0 ; 2: jump 1
    let instrs = vec![
        Instruction::LoadInt { dest: Reg(0), value: 0 },
        Instruction::BinaryOp { dest: Reg(0), op: BinaryOperator::Add, left: Reg(0), right: Reg(0) },
        Instruction::Jump { target: 1 },
    ];
    let cfg = CFG::from_flat_instructions(&instrs);
    let ssa_cfg = SsaTransformer::new(cfg).transform();
    let header = ssa_cfg.blocks.get(&1).unwrap();
    assert_eq!(header.phi_nodes.len(), 1);
    let phi = &header.phi_nodes[0];
    assert_eq!(phi.original_reg, Reg(0));
    assert_eq!(phi.dest, SsaReg { reg: 0, version: 2 });
    let incoming: HashSet<(BlockId, SsaReg)> = phi.incoming.iter().cloned().collect();
    assert!(incoming.contains(&(0, SsaReg { reg: 0, version: 1 })));
    assert!(incoming.contains(&(1, SsaReg { reg: 0, version: 3 })));
    match &header.instructions[0] {
        SsaInstruction::BinaryOp { dest, left, right, .. } => {
            assert_eq!(*dest, SsaReg { reg: 0, version: 3 });
            assert_eq!(*left, SsaReg { reg: 0, version: 2 });
            assert_eq!(*right, SsaReg { reg: 0, version: 2 });
        }
        other => panic!("unexpected instruction {:?}", other),
    }
    let _ = Terminator::Unreachable;
}

fn sr(reg: u32, version: u32) -> SsaReg {
    SsaReg { reg, version }
}

#[test]
fn terminator_texts() {
    let t = SsaTerminator::Branch { cond: sr(0, 1), then_block: 2, else_block: 1 };
    assert_eq!(t.display_text(), "Branch R0_1 -> Block 2 else Block 1");
    assert_eq!(SsaTerminator::Return { src: None }.display_text(), "Return void");
    assert_eq!(SsaTerminator::Return { src: Some(sr(4, 2)) }.display_text(), "Return R4_2");
    assert_eq!(SsaTerminator::Jump { target: 7 }.display_text(), "Jump Block 7");
    let m = SsaTerminator::MatchEntropy {
        target: sr(3, 0),
        valid_block: Some(1),
        decayed_block: None,
        pending_block: Some(4),
        consumed_block: None,
    };
    assert_eq!(m.display_text(), "MatchEntropy R3_0 -> [ Valid: Block 1, Pending: Block 4 ]");
    let s = SsaTerminator::Select {
        max_ms: 50,
        cases: vec![SsaSelectCase { chan_id: "c".to_string(), dest: sr(1, 0), target: 2 }],
        timeout_block: Some(3),
    };
    assert_eq!(s.display_text(), "Select (max 50ms) [ c -> R1_0 to Block 2 ], Timeout: Block 3");
    assert_eq!(SsaTerminator::Unreachable.display_text(), "Unreachable");
}

#[test]
fn instruction_texts() {
    let b = SsaInstruction::BinaryOp { dest: sr(2, 1), op: BinaryOperator::Add, left: sr(1, 3), right: sr(0, 1) };
    assert_eq!(b.display_text(""), "R2_1 = R1_3 Add R0_1");
    let s = SsaInstruction::LoadString { dest: sr(0, 0), value: "hi\"x".to_string() };
    assert_eq!(s.display_text(""), "R0_0 = \"hi\\\"x\"");
    let f = SsaInstruction::ConstFloat { dest: sr(0, 2), value: 0 };
    assert_eq!(f.display_text("2.5"), "R0_2 = 2.5");
    let n = SsaInstruction::LoadInt { dest: sr(9, 1), value: -42 };
    assert_eq!(n.display_text("ignored"), "R9_1 = -42");
    let d = SsaInstruction::DynamicCall {
        method: "m".to_string(),
        args: vec![sr(1, 0), sr(2, 0)],
        dest: sr(5, 0),
        budget: Some(10),
    };
    assert_eq!(d.display_text(""), "R5_0 = DynamicCall m(R1_0, R2_0) [budget: 10ms]");
    let sp = SsaInstruction::Split { parent: "p".to_string(), branches: vec!["a".to_string(), "b".to_string()] };
    assert_eq!(sp.display_text(""), "Split p into [\"a\", \"b\"]");
    let e = SsaInstruction::Entangle { regs: vec![] };
    assert_eq!(e.display_text(""), "Entangle []");
    assert_eq!(SsaInstruction::Collapse.display_text(""), "Collapse");
    let j = SsaInstruction::JumpIfNot { cond: sr(1, 1), target: 12 };
    assert_eq!(j.display_text(""), "JumpIfNot R1_1 to Block 12");
}

#[test]
fn listing_and_dot_of_diamond() {
    let cfg = CFG::from_flat_instructions(&diamond());
    let ssa_cfg = SsaTransformer::new(cfg).transform();
    let floats: Vec<Vec<String>> = ssa_cfg
        .blocks
        .entries
        .iter()
        .map(|(_, b)| vec![String::new(); b.instructions.len()])
        .collect();
    let text = ssa_cfg.display_text(&floats);
    assert!(text.starts_with("  Block 0:\n    R0_1 = 5\n    Terminator: Branch R0_1 -> Block 2 else Block 1\n"));
    assert!(text.contains("  Block 3:\n    R1_3 = phi [ "));
    assert!(text.ends_with("    R2_1 = R1_3 Add R0_1\n    Terminator: Return void\n"));
    let dot = ssa_cfg.to_dot(&floats);
    assert!(dot.starts_with("digraph SsaCFG {\n  node [shape=box, fontname=\"Courier\"];\n  block_0 [label=\"Block 0\\n  R0_1 = 5\\n  Terminator: Branch R0_1 -> Block 2 else Block 1\\n\"];\n  block_0 -> block_2;\n  block_0 -> block_1;\n"));
    assert!(dot.ends_with("}\n"));
}

#[test]
fn ssa_hash_is_a_fingerprint() {
    let g = SsaTransformer::new(CFG::from_flat_instructions(&diamond())).transform();
    let h1 = causm::jit::cache::hash_ssa_cfg("r", &g);
    let h2 = causm::jit::cache::hash_ssa_cfg("r", &g.clone());
    assert_eq!(h1, h2);
    assert_ne!(h1, causm::jit::cache::hash_ssa_cfg("other", &g));
}

#[test]
fn ssa_unreachable_edge_to_missing_block_is_ignored() {
    let mut cfg = CFG::from_flat_instructions(&diamond());
    cfg.blocks.push_last(50, BasicBlock { id: 50, instructions: vec![], terminator: Terminator::Jump { target: 99 } });
    let t = SsaTransformer::new(cfg);
    assert!(t.successors[t.successors.len() - 1].is_empty());
    let ssa_cfg = t.transform();
    assert_eq!(ssa_cfg.blocks.len(), 4);
    assert!(ssa_cfg.blocks.get(&50).is_none());
    assert_eq!(ssa_cfg.blocks.get(&3).unwrap().phi_nodes.len(), 1);
}

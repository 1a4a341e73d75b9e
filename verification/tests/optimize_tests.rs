use causm::blockmap::BlockMap;
use causm::cfg::{BasicBlock, SelectCase, Terminator, CFG};
use causm::instruction::Instruction;
use causm::ir::{BinaryOperator, MergeResolution, Reg};
use causm::optimize::cfg_simp::CfgSimplificationPass;
use causm::optimize::channels::ChannelLivenessPass;
use causm::optimize::coalescing::BlockCoalescingPass;
use causm::optimize::concurrency::{analyze_concurrency, ConcurrencyError};
use causm::optimize::constant_prop::{constant_propagation, ConstantPropagationPass};
use causm::optimize::copy_prop::CopyPropagationPass;
use causm::optimize::dead_code::{dead_code_elimination, has_side_effects};
use causm::optimize::entropy::optimize_entropy;
use causm::optimize::fold::SsaConstant;
use causm::optimize::graph::{get_terminator_successors, predecessors_of};
use causm::optimize::lease::LeaseOptimizationPass;
use causm::optimize::ssa_check::{verify_ssa_cfg, VerificationError};
use causm::optimize::flatten::check_flattenable;
use causm::optimize::{destruct_ssa, flatten_cfg, OptimizationPass, PassManager};
use causm::ssa::instruction::SsaInstruction;
use causm::ssa::transformer::SsaTransformer;
use causm::ssa::{SsaBasicBlock, SsaCFG, SsaPhiNode, SsaReg, SsaTerminator};
use std::collections::HashSet;

fn ssa_of(instrs: &[Instruction]) -> SsaCFG {
    let cfg = CFG::from_flat_instructions(instrs);
    SsaTransformer::new(cfg).transform()
}

fn no_float_fold(_op: BinaryOperator, _a: u64, _b: u64) -> Option<SsaConstant> {
    None
}

fn float_fold(op: BinaryOperator, a: u64, b: u64) -> Option<SsaConstant> {
    let (x, y) = (f64::from_bits(a), f64::from_bits(b));
    match op {
        BinaryOperator::Add => Some(SsaConstant::Float((x + y).to_bits())),
        BinaryOperator::Mul => Some(SsaConstant::Float((x * y).to_bits())),
        _ => None,
    }
}

fn r(reg: u32, version: u32) -> SsaReg {
    SsaReg { reg, version }
}

#[test]
fn test_dedicated_const_instructions_propagation() {
    let instrs = vec![
        Instruction::ConstInt { dest: Reg(1), value: 10 },
        Instruction::ConstInt { dest: Reg(2), value: 20 },
        Instruction::BinaryOp { dest: Reg(3), op: BinaryOperator::Add, left: Reg(1), right: Reg(2) },
        Instruction::ConstString { dest: Reg(4), value: "hello".to_string() },
    ];
    let mut ssa_cfg = ssa_of(&instrs);
    let modified = constant_propagation(&mut ssa_cfg, &no_float_fold);
    assert!(modified);
    let entry = ssa_cfg.blocks.get(&ssa_cfg.entry_block).unwrap();
    let has_folded_add = entry.instructions.iter().any(|i| {
        matches!(i, SsaInstruction::LoadInt { value: 30, .. } | SsaInstruction::ConstInt { value: 30, .. })
    });
    assert!(has_folded_add);
}

#[test]
fn test_redundant_match_entropy_elimination() {
    let instrs = vec![
        Instruction::ConstInt { dest: Reg(1), value: 42 },
        Instruction::MatchEntropy {
            target: Reg(1),
            valid_target: Some(1),
            decayed_target: Some(1),
            pending_target: Some(1),
            consumed_target: Some(1),
        },
    ];
    let mut ssa_cfg = ssa_of(&instrs);
    let modified = optimize_entropy(&mut ssa_cfg);
    assert!(modified);
    let entry = ssa_cfg.blocks.get(&ssa_cfg.entry_block).unwrap();
    assert!(matches!(entry.terminator, SsaTerminator::Jump { target: 1 }));
}

#[test]
fn test_known_valid_match_entropy_folding() {
    let instrs = vec![
        Instruction::ConstInt { dest: Reg(1), value: 100 },
        Instruction::MatchEntropy {
            target: Reg(1),
            valid_target: Some(2),
            decayed_target: Some(3),
            pending_target: None,
            consumed_target: None,
        },
        Instruction::Anchor { name: "valid_path".to_string() },
        Instruction::Anchor { name: "decayed_path".to_string() },
    ];
    let mut ssa_cfg = ssa_of(&instrs);
    let modified = optimize_entropy(&mut ssa_cfg);
    assert!(modified);
    let entry = ssa_cfg.blocks.get(&ssa_cfg.entry_block).unwrap();
    assert!(matches!(entry.terminator, SsaTerminator::Jump { target: 1 }));
}

#[test]
fn test_block_coalescing_pass() {
    let instrs = vec![
        Instruction::LoadInt { dest: Reg(0), value: 5 },
        Instruction::Jump { target: 2 },
        Instruction::LoadInt { dest: Reg(1), value: 10 },
        Instruction::Return { src: Some(Reg(1)) },
    ];
    let mut ssa_cfg = ssa_of(&instrs);
    let pass = BlockCoalescingPass;
    let empty_used = HashSet::new();
    let changed = pass.run(&mut ssa_cfg, &empty_used, false);
    assert!(changed);
    assert_eq!(ssa_cfg.blocks.len(), 1);
    let block0 = ssa_cfg.blocks.get(&0).unwrap();
    assert_eq!(block0.instructions.len(), 2);
    match &block0.terminator {
        SsaTerminator::Return { src } => {
            assert!(src.is_some());
        }
        _ => panic!("Expected return terminator"),
    }
}

#[test]
fn test_constant_propagation_pass() {
    let instrs = vec![
        Instruction::LoadInt { dest: Reg(0), value: 5 },
        Instruction::LoadInt { dest: Reg(1), value: 10 },
        Instruction::BinaryOp { dest: Reg(2), op: BinaryOperator::Add, left: Reg(0), right: Reg(1) },
        Instruction::Return { src: Some(Reg(2)) },
    ];
    let mut ssa_cfg = ssa_of(&instrs);
    let pass = ConstantPropagationPass::new(float_fold);
    let empty_used = HashSet::new();
    let changed = pass.run(&mut ssa_cfg, &empty_used, false);
    assert!(changed);
    let block0 = ssa_cfg.blocks.get(&0).unwrap();
    let found_load_15 = block0.instructions.iter().any(|inst| matches!(inst, SsaInstruction::LoadInt { value: 15, .. }));
    assert!(found_load_15, "Expected folded instruction LoadInt with value 15");
}

#[test]
fn test_cfg_simplification_pass_unreachable() {
    let instrs = vec![
        Instruction::LoadBool { dest: Reg(0), value: true },
        Instruction::JumpIf { cond: Reg(0), target: 4 },
        Instruction::LoadInt { dest: Reg(1), value: 10 },
        Instruction::Return { src: Some(Reg(1)) },
        Instruction::LoadInt { dest: Reg(2), value: 20 },
        Instruction::Return { src: Some(Reg(2)) },
    ];
    let mut ssa_cfg = ssa_of(&instrs);
    assert_eq!(ssa_cfg.blocks.len(), 3);
    let pass = CfgSimplificationPass;
    let empty_used = HashSet::new();
    let changed = pass.run(&mut ssa_cfg, &empty_used, false);
    assert!(changed);
    assert_eq!(ssa_cfg.blocks.len(), 2);
}

#[test]
fn test_channel_liveness_pass() {
    let instrs = vec![
        Instruction::OpenChan { name: "dead_chan".to_string(), capacity: 10, decay_after_ms: None },
        Instruction::OpenChan { name: "live_chan".to_string(), capacity: 10, decay_after_ms: None },
        Instruction::ChanSend { chan_id: "live_chan".to_string(), src: Reg(0) },
        Instruction::Return { src: None },
    ];
    let mut ssa_cfg = ssa_of(&instrs);
    let pass = ChannelLivenessPass::new(vec![]);
    let empty_used = HashSet::new();
    let changed = pass.run(&mut ssa_cfg, &empty_used, false);
    assert!(changed);
    let block0 = ssa_cfg.blocks.get(&0).unwrap();
    let remaining_open_chans: Vec<_> = block0
        .instructions
        .iter()
        .filter_map(|i| match i {
            SsaInstruction::OpenChan { name, .. } => Some(name.as_str()),
            _ => None,
        })
        .collect();
    assert_eq!(remaining_open_chans, vec!["live_chan"]);
}

#[test]
fn channel_used_elsewhere_stays_open() {
    let instrs = vec![
        Instruction::OpenChan { name: "remote".to_string(), capacity: 1, decay_after_ms: None },
        Instruction::Return { src: None },
    ];
    let mut ssa_cfg = ssa_of(&instrs);
    let pass = ChannelLivenessPass::new(vec!["remote".to_string()]);
    let changed = pass.run(&mut ssa_cfg, &HashSet::new(), false);
    assert!(!changed);
    assert_eq!(ssa_cfg.blocks.get(&0).unwrap().instructions.len(), 1);
}

#[test]
fn test_verifier_pass_unclosed_temporal_block() {
    let instrs = vec![
        Instruction::While { max_ms: 100 },
        Instruction::LoadInt { dest: Reg(0), value: 42 },
        Instruction::Return { src: Some(Reg(0)) },
    ];
    let ssa_cfg = ssa_of(&instrs);
    let res = verify_ssa_cfg(&ssa_cfg);
    assert!(res.is_err());
    let errs = res.unwrap_err();
    assert!(errs.iter().any(|e| matches!(e, VerificationError::UnbalancedTemporalBlock { .. })));
}

#[test]
fn verifier_reports_depth_and_stray_end() {
    let instrs = vec![
        Instruction::EndLoop { max_ms: 5 },
        Instruction::While { max_ms: 1 },
        Instruction::While { max_ms: 1 },
        Instruction::Return { src: None },
    ];
    let ssa_cfg = ssa_of(&instrs);
    let errs = verify_ssa_cfg(&ssa_cfg).unwrap_err();
    assert_eq!(
        errs,
        vec![
            VerificationError::UnbalancedTemporalBlock { block: 0, reason: "EndLoop without matching Loop".to_string() },
            VerificationError::UnbalancedTemporalBlock { block: 0, reason: "Unclosed While construct (depth: 2)".to_string() },
        ]
    );
}

#[test]
fn verifier_accepts_balanced_graph() {
    let instrs = vec![
        Instruction::While { max_ms: 1 },
        Instruction::EndWhile { max_ms: 1 },
        Instruction::Return { src: None },
    ];
    assert_eq!(verify_ssa_cfg(&ssa_of(&instrs)), Ok(()));
}

#[test]
fn verifier_flags_phi_input_from_non_predecessor() {
    let mut ssa_cfg = ssa_of(&[Instruction::Return { src: None }]);
    ssa_cfg.blocks.entries[0].1.phi_nodes.push(SsaPhiNode { dest: r(1, 1), original_reg: Reg(1), incoming: vec![(7, r(1, 0))] });
    let errs = verify_ssa_cfg(&ssa_cfg).unwrap_err();
    assert_eq!(errs, vec![VerificationError::InvalidPhiPredecessor { block: 0, pred: 7 }]);
}

#[test]
fn flatten_lays_blocks_out_by_id_and_resolves_jumps() {
    let instrs = vec![
        Instruction::LoadInt { dest: Reg(0), value: 5 },
        Instruction::JumpIf { cond: Reg(0), target: 4 },
        Instruction::LoadInt { dest: Reg(1), value: 10 },
        Instruction::Jump { target: 5 },
        Instruction::LoadInt { dest: Reg(1), value: 20 },
        Instruction::Return { src: Some(Reg(1)) },
    ];
    let cfg = CFG::from_flat_instructions(&instrs);
    let flat = flatten_cfg(&cfg);
    // block 0: load, jump-if to block 2, jump to block 1
    assert_eq!(flat[0], Instruction::LoadInt { dest: Reg(0), value: 5 });
    assert_eq!(flat[1], Instruction::JumpIf { cond: Reg(0), target: 5 });
    assert_eq!(flat[2], Instruction::Jump { target: 3 });
    // block 1 at 3: load, jump to block 3 at 7
    assert_eq!(flat[3], Instruction::LoadInt { dest: Reg(1), value: 10 });
    assert_eq!(flat[4], Instruction::Jump { target: 7 });
    // block 2 at 5: load, falls through to block 3 by a jump
    assert_eq!(flat[5], Instruction::LoadInt { dest: Reg(1), value: 20 });
    assert_eq!(flat[6], Instruction::Jump { target: 7 });
    assert_eq!(flat[7], Instruction::Return { src: Some(Reg(1)) });
    // the leader after the final return opens an empty block that returns nothing
    assert_eq!(flat[8], Instruction::Return { src: None });
    assert_eq!(flat.len(), 9);
}

#[test]
fn destruct_ssa_turns_phis_into_moves() {
    let instrs = vec![
        Instruction::LoadInt { dest: Reg(0), value: 5 },
        Instruction::JumpIf { cond: Reg(0), target: 4 },
        Instruction::LoadInt { dest: Reg(1), value: 10 },
        Instruction::Jump { target: 5 },
        Instruction::LoadInt { dest: Reg(1), value: 20 },
        Instruction::BinaryOp { dest: Reg(2), op: BinaryOperator::Add, left: Reg(1), right: Reg(0) },
    ];
    let ssa_cfg = ssa_of(&instrs);
    let cfg = destruct_ssa(ssa_cfg);
    assert_eq!(cfg.blocks.len(), 4);
    // the phi for register 1 sits in block 3 with the same register in both
    // predecessors, so no move is needed
    let b1 = cfg.blocks.get(&1).unwrap();
    assert_eq!(b1.instructions, vec![Instruction::LoadInt { dest: Reg(1), value: 10 }]);
    let b3 = cfg.blocks.get(&3).unwrap();
    assert_eq!(b3.instructions, vec![Instruction::BinaryOp { dest: Reg(2), op: BinaryOperator::Add, left: Reg(1), right: Reg(0) }]);
}

#[test]
fn destruct_ssa_moves_values_from_other_registers() {
    let phi = SsaPhiNode { dest: r(3, 1), original_reg: Reg(3), incoming: vec![(0, r(4, 1)), (0, r(3, 0))] };
    let ssa_cfg = SsaCFG {
        entry_block: 0,
        blocks: BlockMap {
            entries: vec![
                (0, SsaBasicBlock { id: 0, phi_nodes: vec![], instructions: vec![], terminator: SsaTerminator::Jump { target: 1 } }),
                (1, SsaBasicBlock { id: 1, phi_nodes: vec![phi], instructions: vec![], terminator: SsaTerminator::Return { src: None } }),
            ],
        },
        original_pc_to_block_id: vec![0, 1],
    };
    let cfg = destruct_ssa(ssa_cfg);
    let b0 = cfg.blocks.get(&0).unwrap();
    assert_eq!(b0.instructions, vec![Instruction::Move { dest: Reg(3), src: Reg(4) }]);
    assert_eq!(b0.terminator, Terminator::Jump { target: 1 });
}

#[test]
fn dead_code_removes_unused_pure_chain() {
    let instrs = vec![
        Instruction::LoadInt { dest: Reg(0), value: 1 },
        Instruction::BinaryOp { dest: Reg(1), op: BinaryOperator::Add, left: Reg(0), right: Reg(0) },
        Instruction::LoadInt { dest: Reg(2), value: 7 },
        Instruction::Return { src: Some(Reg(2)) },
    ];
    let mut ssa_cfg = ssa_of(&instrs);
    let changed = dead_code_elimination(&mut ssa_cfg, &HashSet::new(), true);
    assert!(changed);
    let b0 = ssa_cfg.blocks.get(&0).unwrap();
    assert_eq!(b0.instructions.len(), 1);
    assert!(matches!(b0.instructions[0], SsaInstruction::LoadInt { value: 7, .. }));
}

#[test]
fn dead_code_keeps_globally_used_and_side_effects() {
    let instrs = vec![
        Instruction::LoadInt { dest: Reg(0), value: 1 },
        Instruction::Call { routine: "f".to_string(), args: vec![], dest: Reg(5) },
        Instruction::Return { src: None },
    ];
    let mut globals = HashSet::new();
    globals.insert(0u32);
    let mut ssa_cfg = ssa_of(&instrs);
    let changed = dead_code_elimination(&mut ssa_cfg, &globals, false);
    assert!(!changed);
    assert_eq!(ssa_cfg.blocks.get(&0).unwrap().instructions.len(), 2);
    // inside a routine body the global use does not count
    let changed = dead_code_elimination(&mut ssa_cfg, &globals, true);
    assert!(changed);
    assert_eq!(ssa_cfg.blocks.get(&0).unwrap().instructions.len(), 1);
}

#[test]
fn side_effects_classification() {
    assert!(!has_side_effects(&SsaInstruction::Move { dest: r(1, 1), src: r(0, 1) }));
    assert!(has_side_effects(&SsaInstruction::Consume { src: r(0, 1) }));
}

#[test]
fn lease_of_no_duration_is_dropped() {
    let instrs = vec![
        Instruction::LoadInt { dest: Reg(0), value: 1 },
        Instruction::Lease { target_reg: Reg(1), source_reg: Reg(0), duration_ms: 0 },
        Instruction::Lease { target_reg: Reg(2), source_reg: Reg(0), duration_ms: 5 },
        Instruction::Lease { target_reg: Reg(3), source_reg: Reg(0), duration_ms: 5 },
        Instruction::EndLease { source_reg: Reg(0), duration_ms: 0 },
        Instruction::Return { src: Some(Reg(2)) },
    ];
    let mut ssa_cfg = ssa_of(&instrs);
    let changed = LeaseOptimizationPass.run(&mut ssa_cfg, &HashSet::new(), false);
    assert!(changed);
    let b0 = ssa_cfg.blocks.get(&0).unwrap();
    let leases: Vec<u32> = b0
        .instructions
        .iter()
        .filter_map(|i| match i {
            SsaInstruction::Lease { target_reg, .. } => Some(target_reg.reg),
            _ => None,
        })
        .collect();
    assert_eq!(leases, vec![2]);
    assert!(!b0.instructions.iter().any(|i| matches!(i, SsaInstruction::EndLease { .. })));
}

#[test]
fn concurrency_reports_unmerged_and_mismatched() {
    let instrs = vec![
        Instruction::Split { parent: "main".to_string(), branches: vec!["a".to_string(), "b".to_string()] },
        Instruction::Merge {
            branches: vec!["a".to_string(), "c".to_string()],
            target: "main".to_string(),
            resolution: MergeResolution { text: "first".to_string() },
        },
        Instruction::Return { src: None },
    ];
    let errs = analyze_concurrency(&ssa_of(&instrs)).unwrap_err();
    assert_eq!(
        errs,
        vec![
            ConcurrencyError::MismatchedMerge { branch: "c".to_string(), target: "main".to_string() },
            ConcurrencyError::UnmergedBranch { branch: "b".to_string(), parent: "main".to_string() },
        ]
    );
}

#[test]
fn concurrency_accepts_balanced_split() {
    let instrs = vec![
        Instruction::Split { parent: "p".to_string(), branches: vec!["x".to_string()] },
        Instruction::Merge { branches: vec!["x".to_string()], target: "p".to_string(), resolution: MergeResolution { text: "first".to_string() } },
        Instruction::Return { src: None },
    ];
    assert_eq!(analyze_concurrency(&ssa_of(&instrs)), Ok(()));
}

#[test]
fn copy_propagation_pass_forwards_moves() {
    let instrs = vec![
        Instruction::LoadInt { dest: Reg(0), value: 3 },
        Instruction::Move { dest: Reg(1), src: Reg(0) },
        Instruction::Return { src: Some(Reg(1)) },
    ];
    let mut ssa_cfg = ssa_of(&instrs);
    let changed = CopyPropagationPass.run(&mut ssa_cfg, &HashSet::new(), false);
    assert!(changed);
    let b0 = ssa_cfg.blocks.get(&0).unwrap();
    assert_eq!(b0.terminator, SsaTerminator::Return { src: Some(r(0, 1)) });
}

#[test]
fn pass_manager_runs_to_fixed_point() {
    let instrs = vec![
        Instruction::LoadInt { dest: Reg(0), value: 2 },
        Instruction::LoadInt { dest: Reg(1), value: 3 },
        Instruction::BinaryOp { dest: Reg(2), op: BinaryOperator::Mul, left: Reg(0), right: Reg(1) },
        Instruction::Return { src: Some(Reg(2)) },
    ];
    let mut ssa_cfg = ssa_of(&instrs);
    let mut manager = PassManager::new();
    manager.add_pass(Box::new(ConstantPropagationPass::new(float_fold)));
    manager.add_pass(Box::new(CopyPropagationPass));
    manager.add_pass(Box::new(BlockCoalescingPass));
    let rounds = manager.run(&mut ssa_cfg, &HashSet::new(), true);
    assert!(rounds >= 2 && rounds <= 10);
    let b0 = ssa_cfg.blocks.get(&0).unwrap();
    assert!(b0.instructions.iter().any(|i| matches!(i, SsaInstruction::LoadInt { value: 6, .. })));
}

#[test]
fn graph_successors_and_predecessors() {
    let t = SsaTerminator::Branch { cond: r(0, 1), then_block: 2, else_block: 2 };
    assert_eq!(get_terminator_successors(&t), vec![2, 2]);
    let instrs = vec![
        Instruction::LoadInt { dest: Reg(0), value: 5 },
        Instruction::JumpIf { cond: Reg(0), target: 4 },
        Instruction::LoadInt { dest: Reg(1), value: 10 },
        Instruction::Jump { target: 5 },
        Instruction::LoadInt { dest: Reg(1), value: 20 },
        Instruction::Return { src: None },
    ];
    let ssa_cfg = ssa_of(&instrs);
    assert_eq!(predecessors_of(&ssa_cfg, 3), vec![1, 2]);
    assert_eq!(predecessors_of(&ssa_cfg, 0), Vec::<u32>::new());
}

#[test]
fn cfg_simplification_bypasses_empty_jump_block() {
    let instrs = vec![
        Instruction::LoadInt { dest: Reg(0), value: 5 },
        Instruction::Jump { target: 2 },
        Instruction::Jump { target: 3 },
        Instruction::Return { src: Some(Reg(0)) },
    ];
    let mut ssa_cfg = ssa_of(&instrs);
    let before = ssa_cfg.blocks.len();
    let changed = CfgSimplificationPass.run(&mut ssa_cfg, &HashSet::new(), false);
    assert!(changed);
    assert_eq!(ssa_cfg.blocks.len(), before - 1);
    assert_eq!(ssa_cfg.blocks.get(&0).unwrap().terminator, SsaTerminator::Jump { target: 2 });
}

#[test]
fn cfg_to_dot_lists_blocks_and_edges() {
    let cfg = CFG {
        entry_block: 0,
        blocks: BlockMap {
            entries: vec![
                (0, BasicBlock {
                    id: 0,
                    instructions: vec![],
                    terminator: Terminator::Select {
                        max_ms: 1,
                        cases: vec![SelectCase { chan_id: "c".to_string(), dest: Reg(1), target_block: 1 }],
                        timeout_block: None,
                    },
                }),
                (1, BasicBlock { id: 1, instructions: vec![], terminator: Terminator::Unreachable }),
            ],
        },
        original_pc_to_block_id: vec![0, 1],
    };
    let dot = cfg.to_dot();
    assert!(dot.starts_with("digraph CFG {\n  node [shape=box, fontname=\"Courier\"];\n"));
    assert!(dot.contains("  block_0 -> block_1 [label=\"case c\"];\n"));
    assert!(dot.contains("  block_1 [label=\"Block 1\\n  Terminator: Unreachable\\n\"];\n"));
    assert!(dot.ends_with("}\n"));
}

#[test]
fn passes_are_named() {
    assert_eq!(CopyPropagationPass.name(), "CopyPropagation");
    assert_eq!(BlockCoalescingPass.name(), "BlockCoalescing");
    assert_eq!(CfgSimplificationPass.name(), "CfgSimplification");
    assert_eq!(LeaseOptimizationPass.name(), "lease-optimization");
    assert_eq!(ConstantPropagationPass::new(no_float_fold).name(), "ConstantPropagation");
    assert_eq!(ChannelLivenessPass::new(vec![]).name(), "channel-liveness");
    assert_eq!(causm::optimize::entropy::EntropyOptimizationPass.name(), "EntropyOptimization");
    assert_eq!(causm::optimize::dead_code::DeadCodeEliminationPass.name(), "DeadCodeElimination");
    assert_eq!(causm::optimize::ssa_check::VerifierPass.name(), "verifier");
    assert_eq!(causm::optimize::concurrency::ConcurrencyAnalysisPass.name(), "concurrency-analysis");
}

#[test]
fn empty_manager_runs_one_round_and_keeps_the_graph() {
    let instrs = vec![
        Instruction::LoadInt { dest: Reg(0), value: 2 },
        Instruction::Return { src: Some(Reg(0)) },
    ];
    let mut ssa_cfg = ssa_of(&instrs);
    let before = ssa_cfg.clone();
    let rounds = PassManager::new().run(&mut ssa_cfg, &HashSet::new(), false);
    assert_eq!(rounds, 1);
    assert_eq!(ssa_cfg, before);
}

#[test]
fn copy_propagation_resolves_chains_to_their_end() {
    let instrs = vec![
        Instruction::LoadInt { dest: Reg(0), value: 3 },
        Instruction::Move { dest: Reg(1), src: Reg(0) },
        Instruction::Move { dest: Reg(2), src: Reg(1) },
        Instruction::Return { src: Some(Reg(2)) },
    ];
    let mut ssa_cfg = ssa_of(&instrs);
    assert!(CopyPropagationPass.run(&mut ssa_cfg, &HashSet::new(), false));
    let b0 = ssa_cfg.blocks.get(&0).unwrap();
    assert_eq!(b0.terminator, SsaTerminator::Return { src: Some(r(0, 1)) });
    // No usable copy: nothing changes.
    let mut plain = ssa_of(&[Instruction::LoadInt { dest: Reg(0), value: 3 }, Instruction::Return { src: Some(Reg(0)) }]);
    let before = plain.clone();
    assert!(!CopyPropagationPass.run(&mut plain, &HashSet::new(), false));
    assert_eq!(plain, before);
}

#[test]
fn flattenable_only_with_known_targets() {
    let good = CFG {
        entry_block: 0,
        blocks: BlockMap {
            entries: vec![
                (0, BasicBlock { id: 0, instructions: vec![], terminator: Terminator::Jump { target: 1 } }),
                (1, BasicBlock { id: 1, instructions: vec![], terminator: Terminator::Return { src: None } }),
            ],
        },
        original_pc_to_block_id: vec![0, 1],
    };
    assert!(check_flattenable(&good));
    let dangling = CFG {
        entry_block: 0,
        blocks: BlockMap {
            entries: vec![(0, BasicBlock { id: 0, instructions: vec![], terminator: Terminator::Jump { target: 7 } })],
        },
        original_pc_to_block_id: vec![0],
    };
    assert!(!check_flattenable(&dangling));
    let bad_fallback = CFG {
        entry_block: 0,
        blocks: BlockMap {
            entries: vec![(0, BasicBlock {
                id: 0,
                instructions: vec![Instruction::Speculate { max_ms: 1, fallback_target: 5 }],
                terminator: Terminator::Return { src: None },
            })],
        },
        original_pc_to_block_id: vec![0],
    };
    assert!(!check_flattenable(&bad_fallback));
}

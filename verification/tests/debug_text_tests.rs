use causm::cfg::{SelectCase, Terminator};
use causm::debug_text::{instruction_debug_text, ssa_terminator_debug_text, terminator_debug_text};
use causm::instruction::Instruction;
use causm::ir::{
    ArenaIntrospect, AutoDropSpec, BinaryOperator, Capability, EntropyMode, IrSelectCase, Manifest, MergeResolution, ParamMode,
    PolicyTarget, SaturationPolicy, SpeculationCommitMode, SyscallTarget, TypeName, UnaryOperator, Reg,
};
use causm::ssa::{SsaReg, SsaSelectCase, SsaTerminator};

fn every_instruction() -> Vec<Instruction> {
    vec![
        Instruction::BinaryOp { dest: Reg(3), op: BinaryOperator::Shl, left: Reg(3), right: Reg(3) },
        Instruction::UnaryOp { dest: Reg(3), op: UnaryOperator::BitwiseNot, src: Reg(3) },
        Instruction::LoadInt { dest: Reg(3), value: -42 },
        Instruction::LoadFloat { dest: Reg(3), value: 7 },
        Instruction::LoadBool { dest: Reg(3), value: true },
        Instruction::LoadString { dest: Reg(3), value: "a\"b\n".to_string() },
        Instruction::LoadNull { dest: Reg(3) },
        Instruction::ConstInt { dest: Reg(3), value: -42 },
        Instruction::ConstFloat { dest: Reg(3), value: 7 },
        Instruction::ConstBool { dest: Reg(3), value: true },
        Instruction::ConstString { dest: Reg(3), value: "a\"b\n".to_string() },
        Instruction::ConstNull { dest: Reg(3) },
        Instruction::Move { dest: Reg(3), src: Reg(3) },
        Instruction::TupleLit { dest: Reg(3), elems: vec![Reg(1), Reg(20)] },
        Instruction::TupleAccess { dest: Reg(3), tuple: Reg(3), index: 9 },
        Instruction::Consume { src: Reg(3) },
        Instruction::ConsumeField { src: Reg(3), field: "a\"b\n".to_string() },
        Instruction::ConsumeFieldDynamic { target: Reg(3), index: Reg(3) },
        Instruction::Clone { dest: Reg(3), src: Reg(3) },
        Instruction::StrBytes { dest: Reg(3), src: Reg(3) },
        Instruction::ToStr { dest: Reg(3), src: Reg(3) },
        Instruction::ConditionalSelect { dest: Reg(3), cond: Reg(3), true_val: Reg(3), false_val: Reg(3) },
        Instruction::Jump { target: 9 },
        Instruction::JumpIf { cond: Reg(3), target: 9 },
        Instruction::JumpIfNot { cond: Reg(3), target: 9 },
        Instruction::Call { routine: "a\"b\n".to_string(), args: vec![Reg(1), Reg(20)], dest: Reg(3) },
        Instruction::DynamicCall { method: "a\"b\n".to_string(), args: vec![Reg(1), Reg(20)], dest: Reg(3), budget: Some(5) },
        Instruction::Return { src: Some(Reg(4)) },
        Instruction::Isolate { name: "a\"b\n".to_string(), manifest: Manifest { text: "tM".to_string() } },
        Instruction::EndIsolate,
        Instruction::Lease { target_reg: Reg(3), source_reg: Reg(3), duration_ms: 7 },
        Instruction::EndLease { source_reg: Reg(3), duration_ms: 7 },
        Instruction::Split { parent: "a\"b\n".to_string(), branches: vec!["x".to_string(), "y z".to_string()] },
        Instruction::Merge { branches: vec!["x".to_string(), "y z".to_string()], target: "a\"b\n".to_string(), resolution: MergeResolution { text: "tM".to_string() } },
        Instruction::Entangle { regs: vec![Reg(1), Reg(20)] },
        Instruction::SetEntropyMode { mode: EntropyMode::Chaos },
        Instruction::Anchor { name: "a\"b\n".to_string() },
        Instruction::Rewind { target: "a\"b\n".to_string(), anchor: "a\"b\n".to_string() },
        Instruction::Commit { vars: vec!["x".to_string(), "y z".to_string()] },
        Instruction::Watchdog { target: "a\"b\n".to_string(), timeout_ms: 7, recovery_jump: None },
        Instruction::Speculate { max_ms: 7, fallback_target: 9 },
        Instruction::EndSpeculate { max_ms: 7, fallback_target: 9 },
        Instruction::Collapse,
        Instruction::Select { max_ms: 7, cases: vec![IrSelectCase { chan_id: "c".to_string(), dest: Reg(2), target: 11 }], timeout_target: None },
        Instruction::MatchEntropy { target: Reg(3), valid_target: None, decayed_target: None, pending_target: None, consumed_target: None },
        Instruction::RelativisticBlock { target: "a\"b\n".to_string(), block_pc: 9, block_len: 9 },
        Instruction::PeriodicEpoch { interval_ms: 7, block_pc: 9, block_len: 9 },
        Instruction::EndPeriodicEpoch { interval_ms: 7 },
        Instruction::FreezeBaseWatermark,
        Instruction::ResetBaseWatermark,
        Instruction::SetSaturationPolicy { target: PolicyTarget { text: "tP".to_string() }, policy: SaturationPolicy { text: "tS".to_string() } },
        Instruction::ArenaIntrospect { dest: Reg(3), kind: ArenaIntrospect { text: "tA".to_string() } },
        Instruction::CapabilityCheck { dest: Reg(3), capability: Capability { text: "tC".to_string() } },
        Instruction::SpeculationMode { mode: SpeculationCommitMode::Selective },
        Instruction::OpenChan { name: "a\"b\n".to_string(), capacity: 9, decay_after_ms: Some(5) },
        Instruction::ChanSend { chan_id: "a\"b\n".to_string(), src: Reg(3) },
        Instruction::ChanRecv { dest: Reg(3), chan_id: "a\"b\n".to_string() },
        Instruction::AwaitChan { chan_id: "a\"b\n".to_string() },
        Instruction::StructLit { dest: Reg(3), fields: vec![("f".to_string(), Reg(8)), ("g".to_string(), Reg(9))], type_label: Some("n".to_string()) },
        Instruction::TopologyLit { dest: Reg(3), fields: vec![("f".to_string(), Reg(8)), ("g".to_string(), Reg(9))] },
        Instruction::ArrayLit { dest: Reg(3), elements: vec![Reg(1), Reg(20)] },
        Instruction::ArrayRepeat { dest: Reg(3), value: Reg(3), count: Reg(3) },
        Instruction::ArraySlice { dest: Reg(3), target: Reg(3), start: Some(Reg(4)), end: Some(Reg(4)), inclusive: true },
        Instruction::FieldAccess { dest: Reg(3), target: Reg(3), field: "a\"b\n".to_string() },
        Instruction::FieldUpdate { target: Reg(3), field: "a\"b\n".to_string(), src: Reg(3) },
        Instruction::Syscall { dest: Reg(3), target: SyscallTarget { text: "tS".to_string() }, args: vec![Reg(1), Reg(20)], duration_ms: Some(5) },
        Instruction::AutoDrop { target: Reg(3), spec: AutoDropSpec { text: "tA".to_string() } },
        Instruction::IndexAccess { dest: Reg(3), target: Reg(3), index: Reg(3) },
        Instruction::IndexFieldUpdate { target: Reg(3), index: Reg(3), field: "a\"b\n".to_string(), src: Reg(3) },
        Instruction::TypeAssert { dest: Reg(3), src: Reg(3), type_label: "a\"b\n".to_string() },
        Instruction::TypeCast { dest: Reg(3), src: Reg(3), target_type: TypeName { text: "tT".to_string() } },
        Instruction::AssertState { src: Reg(3), state: "a\"b\n".to_string() },
        Instruction::TryTypeAssert { dest: Reg(3), src: Reg(3), type_label: "a\"b\n".to_string(), success: Reg(3) },
        Instruction::TryEnumVariant { dest: Reg(3), src: Reg(3), enum_name: Some("n".to_string()), variant_name: "a\"b\n".to_string(), success: Reg(3) },
        Instruction::Print { src: Reg(3) },
        Instruction::Debug { src: Reg(3) },
        Instruction::AssertTime { op: BinaryOperator::Shl, limit_ms: 7 },
        Instruction::Slice { ms: 7 },
        Instruction::Break,
        Instruction::LoopTick,
        Instruction::EndLoopTick,
        Instruction::Capability { cap: Capability { text: "tC".to_string() } },
        Instruction::For { dest_cond: Reg(3), item_reg: Reg(3), item_name: "a\"b\n".to_string(), mode: ParamMode::Lease, source: Reg(3), pacing_ms: Some(5), max_ms: Some(5) },
        Instruction::EndFor,
        Instruction::SplitMap { item_reg: Reg(3), item_name: "a\"b\n".to_string(), mode: ParamMode::Lease, source: Reg(3), reconcile: Some(MergeResolution { text: "last".to_string() }) },
        Instruction::EndSplitMap,
        Instruction::Defer { dest: Reg(3), cap: Capability { text: "tC".to_string() }, deadline_ms: 7 },
        Instruction::Await { target: Reg(3) },
        Instruction::Loop { max_ms: 7 },
        Instruction::EndLoop { max_ms: 7 },
        Instruction::LoopTickOn { chan_id: "a\"b\n".to_string() },
        Instruction::While { max_ms: 7 },
        Instruction::EndWhile { max_ms: 7 },
        Instruction::ForStep { dest_cond: Reg(3), item_reg: Reg(3), item_name: "a\"b\n".to_string(), source: Reg(3), step_ms: Some(5) },
        Instruction::EndForStep,
        Instruction::ArrayLen { dest: Reg(3), src: Reg(3) },
    ]
}

#[test]
fn instruction_texts_match_their_debug_form() {
    let all = every_instruction();
    assert_eq!(all.len(), 96);
    for i in &all {
        assert_eq!(instruction_debug_text(i), format!("{:?}", i));
    }
}

#[test]
fn instruction_text_of_a_binary_operation() {
    let i = Instruction::BinaryOp { dest: Reg(2), op: BinaryOperator::Add, left: Reg(0), right: Reg(1) };
    assert_eq!(instruction_debug_text(&i), "BinaryOp { dest: Reg(2), op: Add, left: Reg(0), right: Reg(1) }");
}

#[test]
fn terminator_texts_match_their_debug_form() {
    let all = vec![
        Terminator::Jump { target: 4 },
        Terminator::Branch { cond: Reg(1), then_block: 2, else_block: 3 },
        Terminator::Return { src: None },
        Terminator::Return { src: Some(Reg(6)) },
        Terminator::MatchEntropy { target: Reg(0), valid_block: Some(1), decayed_block: None, pending_block: Some(3), consumed_block: None },
        Terminator::Select {
            max_ms: 10,
            cases: vec![
                SelectCase { chan_id: "in".to_string(), dest: Reg(2), target_block: 5 },
                SelectCase { chan_id: "q\"x".to_string(), dest: Reg(3), target_block: 6 },
            ],
            timeout_block: Some(7),
        },
        Terminator::Select { max_ms: 0, cases: vec![], timeout_block: None },
        Terminator::Unreachable,
    ];
    for t in &all {
        assert_eq!(terminator_debug_text(t), format!("{:?}", t));
    }
    assert_eq!(terminator_debug_text(&Terminator::Jump { target: 4 }), "Jump { target: 4 }");
}

#[test]
fn ssa_terminator_texts_match_their_debug_form() {
    let r = SsaReg { reg: 1, version: 2 };
    let all = vec![
        SsaTerminator::Jump { target: 4 },
        SsaTerminator::Branch { cond: r, then_block: 2, else_block: 3 },
        SsaTerminator::Return { src: Some(r) },
        SsaTerminator::Return { src: None },
        SsaTerminator::MatchEntropy { target: r, valid_block: None, decayed_block: Some(2), pending_block: None, consumed_block: Some(9) },
        SsaTerminator::Select {
            max_ms: 3,
            cases: vec![SsaSelectCase { chan_id: "c".to_string(), dest: r, target: 8 }],
            timeout_block: None,
        },
        SsaTerminator::Unreachable,
    ];
    for t in &all {
        assert_eq!(ssa_terminator_debug_text(t), format!("{:?}", t));
    }
}

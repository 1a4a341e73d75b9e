//! The SSA instruction set: deep copy, register properties, and the mapping
//! back to flat instructions.

use vstd::prelude::*;
use crate::properties::SsaInstructionProperties;
use crate::ir::{Reg, BinaryOperator, UnaryOperator, EntropyMode, SpeculationCommitMode, ParamMode, Manifest, MergeResolution, PolicyTarget, SaturationPolicy, ArenaIntrospect, Capability, SyscallTarget, AutoDropSpec, TypeName, IrSelectCase, copy_option_string, copy_option_resolution, copy_strings};
use crate::instruction::Instruction;
use crate::ssa::{SsaReg, SsaSelectCase, copy_ssa_regs, copy_ssa_fields, copy_ssa_cases};

verus! {

/// Appends the registers of `v` to `regs`.
pub fn append_regs_ssa(regs: &mut Vec<SsaReg>, v: &Vec<SsaReg>)
    ensures
        final(regs)@ == old(regs)@ + v@,
{
    let ghost start = regs@;
    let mut i: usize = 0;
    while i < v.len()
        invariant
            i <= v.len(),
            regs@ == start + v@.subrange(0, i as int),
        decreases v.len() - i,
    {
        regs.push(v[i]);
        i = i + 1;
        assert(start + v@.subrange(0, i as int) =~= start + v@.subrange(0, i - 1) + seq![v@[i - 1]]);
    }
    assert(v@.subrange(0, v@.len() as int) =~= v@);
}

/// Appends the registers held by the named fields `v` to `regs`.
pub fn append_field_regs_ssa(regs: &mut Vec<SsaReg>, v: &Vec<(String, SsaReg)>)
    ensures
        final(regs)@ == old(regs)@ + v@.map_values(|p: (String, SsaReg)| p.1),
{
    let ghost start = regs@;
    let mut i: usize = 0;
    while i < v.len()
        invariant
            i <= v.len(),
            regs@ == start + v@.subrange(0, i as int).map_values(|p: (String, SsaReg)| p.1),
        decreases v.len() - i,
    {
        regs.push(v[i].1);
        i = i + 1;
        assert(start + v@.subrange(0, i as int).map_values(|p: (String, SsaReg)| p.1) =~= start + v@.subrange(0, i - 1).map_values(|p: (String, SsaReg)| p.1) + seq![v@[i - 1].1]);
    }
    assert(v@.subrange(0, v@.len() as int) =~= v@);
}

/// The flat register an SSA register stands for.
pub open spec fn flat_reg(r: SsaReg) -> Reg {
    Reg(r.reg)
}

pub open spec fn flat_opt(o: Option<SsaReg>) -> Option<Reg> {
    match o {
        Some(r) => Some(flat_reg(r)),
        None => None,
    }
}

pub open spec fn flat_seq(s: Seq<SsaReg>) -> Seq<Reg> {
    s.map_values(|r: SsaReg| flat_reg(r))
}

pub open spec fn flat_fields(s: Seq<(String, SsaReg)>) -> Seq<(String, Reg)> {
    s.map_values(|p: (String, SsaReg)| (p.0, flat_reg(p.1)))
}

pub open spec fn flat_case(c: SsaSelectCase) -> IrSelectCase {
    IrSelectCase { chan_id: c.chan_id, dest: flat_reg(c.dest), target: c.target }
}

pub open spec fn flat_cases(s: Seq<SsaSelectCase>) -> Seq<IrSelectCase> {
    s.map_values(|c: SsaSelectCase| flat_case(c))
}

pub fn flatten_opt(o: &Option<SsaReg>) -> (r: Option<Reg>)
    ensures
        r == flat_opt(*o),
{
    match o {
        Some(x) => Some(Reg(x.reg)),
        None => None,
    }
}

pub fn flatten_regs(v: &Vec<SsaReg>) -> (r: Vec<Reg>)
    ensures
        r@ == flat_seq(v@),
{
    let mut out: Vec<Reg> = Vec::new();
    let mut i: usize = 0;
    while i < v.len()
        invariant
            i <= v.len(),
            out@ == flat_seq(v@.subrange(0, i as int)),
        decreases v.len() - i,
    {
        out.push(Reg(v[i].reg));
        i = i + 1;
        assert(out@ =~= flat_seq(v@.subrange(0, i as int)));
    }
    assert(v@.subrange(0, v@.len() as int) =~= v@);
    out
}

pub fn flatten_fields(v: &Vec<(String, SsaReg)>) -> (r: Vec<(String, Reg)>)
    ensures
        r@ == flat_fields(v@),
{
    let mut out: Vec<(String, Reg)> = Vec::new();
    let mut i: usize = 0;
    while i < v.len()
        invariant
            i <= v.len(),
            out@ == flat_fields(v@.subrange(0, i as int)),
        decreases v.len() - i,
    {
        out.push((v[i].0.clone(), Reg(v[i].1.reg)));
        i = i + 1;
        assert(out@ =~= flat_fields(v@.subrange(0, i as int)));
    }
    assert(v@.subrange(0, v@.len() as int) =~= v@);
    out
}

pub fn flatten_cases(v: &Vec<SsaSelectCase>) -> (r: Vec<IrSelectCase>)
    ensures
        r@ == flat_cases(v@),
{
    let mut out: Vec<IrSelectCase> = Vec::new();
    let mut i: usize = 0;
    while i < v.len()
        invariant
            i <= v.len(),
            out@ == flat_cases(v@.subrange(0, i as int)),
        decreases v.len() - i,
    {
        out.push(IrSelectCase { chan_id: v[i].chan_id.clone(), dest: Reg(v[i].dest.reg), target: v[i].target });
        i = i + 1;
        assert(out@ =~= flat_cases(v@.subrange(0, i as int)));
    }
    assert(v@.subrange(0, v@.len() as int) =~= v@);
    out
}

/// An instruction in SSA form: every register operand carries a version.
#[derive(Debug, Clone, PartialEq, Eq)]
pub enum SsaInstruction {
    BinaryOp {
        dest: SsaReg,
        op: BinaryOperator,
        left: SsaReg,
        right: SsaReg,
    },
    UnaryOp {
        dest: SsaReg,
        op: UnaryOperator,
        src: SsaReg,
    },
    LoadInt {
        dest: SsaReg,
        value: i64,
    },
    LoadFloat {
        dest: SsaReg,
        value: u64,
    },
    LoadBool {
        dest: SsaReg,
        value: bool,
    },
    LoadString {
        dest: SsaReg,
        value: String,
    },
    LoadNull {
        dest: SsaReg,
    },
    ConstInt {
        dest: SsaReg,
        value: i64,
    },
    ConstFloat {
        dest: SsaReg,
        value: u64,
    },
    ConstBool {
        dest: SsaReg,
        value: bool,
    },
    ConstString {
        dest: SsaReg,
        value: String,
    },
    ConstNull {
        dest: SsaReg,
    },
    Move {
        dest: SsaReg,
        src: SsaReg,
    },
    Consume {
        src: SsaReg,
    },
    ConsumeField {
        src: SsaReg,
        field: String,
    },
    ConsumeFieldDynamic {
        target: SsaReg,
        index: SsaReg,
    },
    Clone {
        dest: SsaReg,
        src: SsaReg,
    },
    StrBytes {
        dest: SsaReg,
        src: SsaReg,
    },
    ToStr {
        dest: SsaReg,
        src: SsaReg,
    },
    ConditionalSelect {
        dest: SsaReg,
        cond: SsaReg,
        true_val: SsaReg,
        false_val: SsaReg,
    },
    Call {
        routine: String,
        args: Vec<SsaReg>,
        dest: SsaReg,
    },
    DynamicCall {
        method: String,
        args: Vec<SsaReg>,
        dest: SsaReg,
        budget: Option<u64>,
    },
    TypeAssert {
        dest: SsaReg,
        src: SsaReg,
        type_label: String,
    },
    TypeCast {
        dest: SsaReg,
        src: SsaReg,
        target_type: TypeName,
    },
    AssertState {
        src: SsaReg,
        state: String,
    },
    TryTypeAssert {
        dest: SsaReg,
        src: SsaReg,
        type_label: String,
        success: SsaReg,
    },
    TryEnumVariant {
        dest: SsaReg,
        src: SsaReg,
        enum_name: Option<String>,
        variant_name: String,
        success: SsaReg,
    },
    Print {
        src: SsaReg,
    },
    Debug {
        src: SsaReg,
    },
    Slice {
        ms: u64,
    },
    Isolate {
        name: String,
        manifest: Manifest,
    },
    EndIsolate,
    Lease {
        target_reg: SsaReg,
        source_reg: SsaReg,
        duration_ms: u64,
    },
    EndLease {
        source_reg: SsaReg,
        duration_ms: u64,
    },
    Split {
        parent: String,
        branches: Vec<String>,
    },
    Merge {
        branches: Vec<String>,
        target: String,
        resolution: MergeResolution,
    },
    Entangle {
        regs: Vec<SsaReg>,
    },
    SetEntropyMode {
        mode: EntropyMode,
    },
    Anchor {
        name: String,
    },
    Rewind {
        target: String,
        anchor: String,
    },
    Commit {
        vars: Vec<String>,
    },
    Watchdog {
        target: String,
        timeout_ms: u64,
        recovery_jump: Option<usize>,
    },
    Speculate {
        max_ms: u64,
        fallback_target: usize,
    },
    EndSpeculate {
        max_ms: u64,
        fallback_target: usize,
    },
    Collapse,
    Select {
        max_ms: u64,
        cases: Vec<SsaSelectCase>,
        timeout_target: Option<usize>,
    },
    MatchEntropy {
        target: SsaReg,
        valid_target: Option<usize>,
        decayed_target: Option<usize>,
        pending_target: Option<usize>,
        consumed_target: Option<usize>,
    },
    RelativisticBlock {
        target: String,
        block_pc: usize,
        block_len: usize,
    },
    SpeculationMode {
        mode: SpeculationCommitMode,
    },
    OpenChan {
        name: String,
        capacity: usize,
        decay_after_ms: Option<u64>,
    },
    ChanSend {
        chan_id: String,
        src: SsaReg,
    },
    ChanRecv {
        dest: SsaReg,
        chan_id: String,
    },
    AwaitChan {
        chan_id: String,
    },
    StructLit {
        dest: SsaReg,
        fields: Vec<(String, SsaReg)>,
        type_label: Option<String>,
    },
    TopologyLit {
        dest: SsaReg,
        fields: Vec<(String, SsaReg)>,
    },
    ArrayLit {
        dest: SsaReg,
        elements: Vec<SsaReg>,
    },
    ArrayRepeat {
        dest: SsaReg,
        value: SsaReg,
        count: SsaReg,
    },
    ArraySlice {
        dest: SsaReg,
        target: SsaReg,
        start: Option<SsaReg>,
        end: Option<SsaReg>,
        inclusive: bool,
    },
    FieldAccess {
        dest: SsaReg,
        target: SsaReg,
        field: String,
    },
    FieldUpdate {
        target: SsaReg,
        old_target: SsaReg,
        field: String,
        src: SsaReg,
    },
    IndexAccess {
        dest: SsaReg,
        target: SsaReg,
        index: SsaReg,
    },
    IndexFieldUpdate {
        target: SsaReg,
        old_target: SsaReg,
        index: SsaReg,
        field: String,
        src: SsaReg,
    },
    AssertTime {
        op: BinaryOperator,
        limit_ms: u64,
    },
    Capability {
        cap: Capability,
    },
    For {
        dest_cond: SsaReg,
        item_reg: SsaReg,
        item_name: String,
        mode: ParamMode,
        source: SsaReg,
        pacing_ms: Option<u64>,
        max_ms: Option<u64>,
    },
    EndFor,
    SplitMap {
        item_reg: SsaReg,
        item_name: String,
        mode: ParamMode,
        source: SsaReg,
        reconcile: Option<MergeResolution>,
    },
    EndSplitMap,
    Defer {
        dest: SsaReg,
        cap: Capability,
        deadline_ms: u64,
    },
    Await {
        target: SsaReg,
    },
    Loop {
        max_ms: u64,
    },
    EndLoop {
        max_ms: u64,
    },
    Break,
    LoopTick,
    EndLoopTick,
    Jump {
        target: usize,
    },
    JumpIf {
        cond: SsaReg,
        target: usize,
    },
    JumpIfNot {
        cond: SsaReg,
        target: usize,
    },
    While {
        max_ms: u64,
    },
    EndWhile {
        max_ms: u64,
    },
    ForStep {
        dest_cond: SsaReg,
        item_reg: SsaReg,
        item_name: String,
        source: SsaReg,
        step_ms: Option<u64>,
    },
    EndForStep,
    ArrayLen {
        dest: SsaReg,
        src: SsaReg,
    },
    LoopTickOn {
        chan_id: String,
    },
    Syscall {
        dest: SsaReg,
        target: SyscallTarget,
        args: Vec<SsaReg>,
        duration_ms: Option<u64>,
    },
    AutoDrop {
        target: SsaReg,
        spec: AutoDropSpec,
    },
    SetSaturationPolicy {
        target: PolicyTarget,
        policy: SaturationPolicy,
    },
    PeriodicEpoch {
        interval_ms: u64,
        block_pc: usize,
        block_len: usize,
    },
    EndPeriodicEpoch {
        interval_ms: u64,
    },
    FreezeBaseWatermark,
    ResetBaseWatermark,
    ArenaIntrospect {
        dest: SsaReg,
        kind: ArenaIntrospect,
    },
    CapabilityCheck {
        dest: SsaReg,
        capability: Capability,
    },
    /// An instruction that renaming does not translate, kept as its debug text.
    Other(String),
}

/// Deep equality of two instructions: same variant and equal contents.
pub open spec fn same_ssa_instr(a: SsaInstruction, b: SsaInstruction) -> bool {
    match (a, b) {
        (SsaInstruction::BinaryOp { dest: a_dest, op: a_op, left: a_left, right: a_right }, SsaInstruction::BinaryOp { dest: b_dest, op: b_op, left: b_left, right: b_right }) => a_dest == b_dest && a_op == b_op && a_left == b_left && a_right == b_right,
        (SsaInstruction::UnaryOp { dest: a_dest, op: a_op, src: a_src }, SsaInstruction::UnaryOp { dest: b_dest, op: b_op, src: b_src }) => a_dest == b_dest && a_op == b_op && a_src == b_src,
        (SsaInstruction::LoadInt { dest: a_dest, value: a_value }, SsaInstruction::LoadInt { dest: b_dest, value: b_value }) => a_dest == b_dest && a_value == b_value,
        (SsaInstruction::LoadFloat { dest: a_dest, value: a_value }, SsaInstruction::LoadFloat { dest: b_dest, value: b_value }) => a_dest == b_dest && a_value == b_value,
        (SsaInstruction::LoadBool { dest: a_dest, value: a_value }, SsaInstruction::LoadBool { dest: b_dest, value: b_value }) => a_dest == b_dest && a_value == b_value,
        (SsaInstruction::LoadString { dest: a_dest, value: a_value }, SsaInstruction::LoadString { dest: b_dest, value: b_value }) => a_dest == b_dest && a_value == b_value,
        (SsaInstruction::LoadNull { dest: a_dest }, SsaInstruction::LoadNull { dest: b_dest }) => a_dest == b_dest,
        (SsaInstruction::ConstInt { dest: a_dest, value: a_value }, SsaInstruction::ConstInt { dest: b_dest, value: b_value }) => a_dest == b_dest && a_value == b_value,
        (SsaInstruction::ConstFloat { dest: a_dest, value: a_value }, SsaInstruction::ConstFloat { dest: b_dest, value: b_value }) => a_dest == b_dest && a_value == b_value,
        (SsaInstruction::ConstBool { dest: a_dest, value: a_value }, SsaInstruction::ConstBool { dest: b_dest, value: b_value }) => a_dest == b_dest && a_value == b_value,
        (SsaInstruction::ConstString { dest: a_dest, value: a_value }, SsaInstruction::ConstString { dest: b_dest, value: b_value }) => a_dest == b_dest && a_value == b_value,
        (SsaInstruction::ConstNull { dest: a_dest }, SsaInstruction::ConstNull { dest: b_dest }) => a_dest == b_dest,
        (SsaInstruction::Move { dest: a_dest, src: a_src }, SsaInstruction::Move { dest: b_dest, src: b_src }) => a_dest == b_dest && a_src == b_src,
        (SsaInstruction::Consume { src: a_src }, SsaInstruction::Consume { src: b_src }) => a_src == b_src,
        (SsaInstruction::ConsumeField { src: a_src, field: a_field }, SsaInstruction::ConsumeField { src: b_src, field: b_field }) => a_src == b_src && a_field == b_field,
        (SsaInstruction::ConsumeFieldDynamic { target: a_target, index: a_index }, SsaInstruction::ConsumeFieldDynamic { target: b_target, index: b_index }) => a_target == b_target && a_index == b_index,
        (SsaInstruction::Clone { dest: a_dest, src: a_src }, SsaInstruction::Clone { dest: b_dest, src: b_src }) => a_dest == b_dest && a_src == b_src,
        (SsaInstruction::StrBytes { dest: a_dest, src: a_src }, SsaInstruction::StrBytes { dest: b_dest, src: b_src }) => a_dest == b_dest && a_src == b_src,
        (SsaInstruction::ToStr { dest: a_dest, src: a_src }, SsaInstruction::ToStr { dest: b_dest, src: b_src }) => a_dest == b_dest && a_src == b_src,
        (SsaInstruction::ConditionalSelect { dest: a_dest, cond: a_cond, true_val: a_true_val, false_val: a_false_val }, SsaInstruction::ConditionalSelect { dest: b_dest, cond: b_cond, true_val: b_true_val, false_val: b_false_val }) => a_dest == b_dest && a_cond == b_cond && a_true_val == b_true_val && a_false_val == b_false_val,
        (SsaInstruction::Call { routine: a_routine, args: a_args, dest: a_dest }, SsaInstruction::Call { routine: b_routine, args: b_args, dest: b_dest }) => a_routine == b_routine && a_args@ == b_args@ && a_dest == b_dest,
        (SsaInstruction::DynamicCall { method: a_method, args: a_args, dest: a_dest, budget: a_budget }, SsaInstruction::DynamicCall { method: b_method, args: b_args, dest: b_dest, budget: b_budget }) => a_method == b_method && a_args@ == b_args@ && a_dest == b_dest && a_budget == b_budget,
        (SsaInstruction::TypeAssert { dest: a_dest, src: a_src, type_label: a_type_label }, SsaInstruction::TypeAssert { dest: b_dest, src: b_src, type_label: b_type_label }) => a_dest == b_dest && a_src == b_src && a_type_label == b_type_label,
        (SsaInstruction::TypeCast { dest: a_dest, src: a_src, target_type: a_target_type }, SsaInstruction::TypeCast { dest: b_dest, src: b_src, target_type: b_target_type }) => a_dest == b_dest && a_src == b_src && a_target_type == b_target_type,
        (SsaInstruction::AssertState { src: a_src, state: a_state }, SsaInstruction::AssertState { src: b_src, state: b_state }) => a_src == b_src && a_state == b_state,
        (SsaInstruction::TryTypeAssert { dest: a_dest, src: a_src, type_label: a_type_label, success: a_success }, SsaInstruction::TryTypeAssert { dest: b_dest, src: b_src, type_label: b_type_label, success: b_success }) => a_dest == b_dest && a_src == b_src && a_type_label == b_type_label && a_success == b_success,
        (SsaInstruction::TryEnumVariant { dest: a_dest, src: a_src, enum_name: a_enum_name, variant_name: a_variant_name, success: a_success }, SsaInstruction::TryEnumVariant { dest: b_dest, src: b_src, enum_name: b_enum_name, variant_name: b_variant_name, success: b_success }) => a_dest == b_dest && a_src == b_src && a_enum_name == b_enum_name && a_variant_name == b_variant_name && a_success == b_success,
        (SsaInstruction::Print { src: a_src }, SsaInstruction::Print { src: b_src }) => a_src == b_src,
        (SsaInstruction::Debug { src: a_src }, SsaInstruction::Debug { src: b_src }) => a_src == b_src,
        (SsaInstruction::Slice { ms: a_ms }, SsaInstruction::Slice { ms: b_ms }) => a_ms == b_ms,
        (SsaInstruction::Isolate { name: a_name, manifest: a_manifest }, SsaInstruction::Isolate { name: b_name, manifest: b_manifest }) => a_name == b_name && a_manifest == b_manifest,
        (SsaInstruction::EndIsolate, SsaInstruction::EndIsolate) => true,
        (SsaInstruction::Lease { target_reg: a_target_reg, source_reg: a_source_reg, duration_ms: a_duration_ms }, SsaInstruction::Lease { target_reg: b_target_reg, source_reg: b_source_reg, duration_ms: b_duration_ms }) => a_target_reg == b_target_reg && a_source_reg == b_source_reg && a_duration_ms == b_duration_ms,
        (SsaInstruction::EndLease { source_reg: a_source_reg, duration_ms: a_duration_ms }, SsaInstruction::EndLease { source_reg: b_source_reg, duration_ms: b_duration_ms }) => a_source_reg == b_source_reg && a_duration_ms == b_duration_ms,
        (SsaInstruction::Split { parent: a_parent, branches: a_branches }, SsaInstruction::Split { parent: b_parent, branches: b_branches }) => a_parent == b_parent && a_branches@ == b_branches@,
        (SsaInstruction::Merge { branches: a_branches, target: a_target, resolution: a_resolution }, SsaInstruction::Merge { branches: b_branches, target: b_target, resolution: b_resolution }) => a_branches@ == b_branches@ && a_target == b_target && a_resolution == b_resolution,
        (SsaInstruction::Entangle { regs: a_regs }, SsaInstruction::Entangle { regs: b_regs }) => a_regs@ == b_regs@,
        (SsaInstruction::SetEntropyMode { mode: a_mode }, SsaInstruction::SetEntropyMode { mode: b_mode }) => a_mode == b_mode,
        (SsaInstruction::Anchor { name: a_name }, SsaInstruction::Anchor { name: b_name }) => a_name == b_name,
        (SsaInstruction::Rewind { target: a_target, anchor: a_anchor }, SsaInstruction::Rewind { target: b_target, anchor: b_anchor }) => a_target == b_target && a_anchor == b_anchor,
        (SsaInstruction::Commit { vars: a_vars }, SsaInstruction::Commit { vars: b_vars }) => a_vars@ == b_vars@,
        (SsaInstruction::Watchdog { target: a_target, timeout_ms: a_timeout_ms, recovery_jump: a_recovery_jump }, SsaInstruction::Watchdog { target: b_target, timeout_ms: b_timeout_ms, recovery_jump: b_recovery_jump }) => a_target == b_target && a_timeout_ms == b_timeout_ms && a_recovery_jump == b_recovery_jump,
        (SsaInstruction::Speculate { max_ms: a_max_ms, fallback_target: a_fallback_target }, SsaInstruction::Speculate { max_ms: b_max_ms, fallback_target: b_fallback_target }) => a_max_ms == b_max_ms && a_fallback_target == b_fallback_target,
        (SsaInstruction::EndSpeculate { max_ms: a_max_ms, fallback_target: a_fallback_target }, SsaInstruction::EndSpeculate { max_ms: b_max_ms, fallback_target: b_fallback_target }) => a_max_ms == b_max_ms && a_fallback_target == b_fallback_target,
        (SsaInstruction::Collapse, SsaInstruction::Collapse) => true,
        (SsaInstruction::Select { max_ms: a_max_ms, cases: a_cases, timeout_target: a_timeout_target }, SsaInstruction::Select { max_ms: b_max_ms, cases: b_cases, timeout_target: b_timeout_target }) => a_max_ms == b_max_ms && a_cases@ == b_cases@ && a_timeout_target == b_timeout_target,
        (SsaInstruction::MatchEntropy { target: a_target, valid_target: a_valid_target, decayed_target: a_decayed_target, pending_target: a_pending_target, consumed_target: a_consumed_target }, SsaInstruction::MatchEntropy { target: b_target, valid_target: b_valid_target, decayed_target: b_decayed_target, pending_target: b_pending_target, consumed_target: b_consumed_target }) => a_target == b_target && a_valid_target == b_valid_target && a_decayed_target == b_decayed_target && a_pending_target == b_pending_target && a_consumed_target == b_consumed_target,
        (SsaInstruction::RelativisticBlock { target: a_target, block_pc: a_block_pc, block_len: a_block_len }, SsaInstruction::RelativisticBlock { target: b_target, block_pc: b_block_pc, block_len: b_block_len }) => a_target == b_target && a_block_pc == b_block_pc && a_block_len == b_block_len,
        (SsaInstruction::SpeculationMode { mode: a_mode }, SsaInstruction::SpeculationMode { mode: b_mode }) => a_mode == b_mode,
        (SsaInstruction::OpenChan { name: a_name, capacity: a_capacity, decay_after_ms: a_decay_after_ms }, SsaInstruction::OpenChan { name: b_name, capacity: b_capacity, decay_after_ms: b_decay_after_ms }) => a_name == b_name && a_capacity == b_capacity && a_decay_after_ms == b_decay_after_ms,
        (SsaInstruction::ChanSend { chan_id: a_chan_id, src: a_src }, SsaInstruction::ChanSend { chan_id: b_chan_id, src: b_src }) => a_chan_id == b_chan_id && a_src == b_src,
        (SsaInstruction::ChanRecv { dest: a_dest, chan_id: a_chan_id }, SsaInstruction::ChanRecv { dest: b_dest, chan_id: b_chan_id }) => a_dest == b_dest && a_chan_id == b_chan_id,
        (SsaInstruction::AwaitChan { chan_id: a_chan_id }, SsaInstruction::AwaitChan { chan_id: b_chan_id }) => a_chan_id == b_chan_id,
        (SsaInstruction::StructLit { dest: a_dest, fields: a_fields, type_label: a_type_label }, SsaInstruction::StructLit { dest: b_dest, fields: b_fields, type_label: b_type_label }) => a_dest == b_dest && a_fields@ == b_fields@ && a_type_label == b_type_label,
        (SsaInstruction::TopologyLit { dest: a_dest, fields: a_fields }, SsaInstruction::TopologyLit { dest: b_dest, fields: b_fields }) => a_dest == b_dest && a_fields@ == b_fields@,
        (SsaInstruction::ArrayLit { dest: a_dest, elements: a_elements }, SsaInstruction::ArrayLit { dest: b_dest, elements: b_elements }) => a_dest == b_dest && a_elements@ == b_elements@,
        (SsaInstruction::ArrayRepeat { dest: a_dest, value: a_value, count: a_count }, SsaInstruction::ArrayRepeat { dest: b_dest, value: b_value, count: b_count }) => a_dest == b_dest && a_value == b_value && a_count == b_count,
        (SsaInstruction::ArraySlice { dest: a_dest, target: a_target, start: a_start, end: a_end, inclusive: a_inclusive }, SsaInstruction::ArraySlice { dest: b_dest, target: b_target, start: b_start, end: b_end, inclusive: b_inclusive }) => a_dest == b_dest && a_target == b_target && a_start == b_start && a_end == b_end && a_inclusive == b_inclusive,
        (SsaInstruction::FieldAccess { dest: a_dest, target: a_target, field: a_field }, SsaInstruction::FieldAccess { dest: b_dest, target: b_target, field: b_field }) => a_dest == b_dest && a_target == b_target && a_field == b_field,
        (SsaInstruction::FieldUpdate { target: a_target, old_target: a_old_target, field: a_field, src: a_src }, SsaInstruction::FieldUpdate { target: b_target, old_target: b_old_target, field: b_field, src: b_src }) => a_target == b_target && a_old_target == b_old_target && a_field == b_field && a_src == b_src,
        (SsaInstruction::IndexAccess { dest: a_dest, target: a_target, index: a_index }, SsaInstruction::IndexAccess { dest: b_dest, target: b_target, index: b_index }) => a_dest == b_dest && a_target == b_target && a_index == b_index,
        (SsaInstruction::IndexFieldUpdate { target: a_target, old_target: a_old_target, index: a_index, field: a_field, src: a_src }, SsaInstruction::IndexFieldUpdate { target: b_target, old_target: b_old_target, index: b_index, field: b_field, src: b_src }) => a_target == b_target && a_old_target == b_old_target && a_index == b_index && a_field == b_field && a_src == b_src,
        (SsaInstruction::AssertTime { op: a_op, limit_ms: a_limit_ms }, SsaInstruction::AssertTime { op: b_op, limit_ms: b_limit_ms }) => a_op == b_op && a_limit_ms == b_limit_ms,
        (SsaInstruction::Capability { cap: a_cap }, SsaInstruction::Capability { cap: b_cap }) => a_cap == b_cap,
        (SsaInstruction::For { dest_cond: a_dest_cond, item_reg: a_item_reg, item_name: a_item_name, mode: a_mode, source: a_source, pacing_ms: a_pacing_ms, max_ms: a_max_ms }, SsaInstruction::For { dest_cond: b_dest_cond, item_reg: b_item_reg, item_name: b_item_name, mode: b_mode, source: b_source, pacing_ms: b_pacing_ms, max_ms: b_max_ms }) => a_dest_cond == b_dest_cond && a_item_reg == b_item_reg && a_item_name == b_item_name && a_mode == b_mode && a_source == b_source && a_pacing_ms == b_pacing_ms && a_max_ms == b_max_ms,
        (SsaInstruction::EndFor, SsaInstruction::EndFor) => true,
        (SsaInstruction::SplitMap { item_reg: a_item_reg, item_name: a_item_name, mode: a_mode, source: a_source, reconcile: a_reconcile }, SsaInstruction::SplitMap { item_reg: b_item_reg, item_name: b_item_name, mode: b_mode, source: b_source, reconcile: b_reconcile }) => a_item_reg == b_item_reg && a_item_name == b_item_name && a_mode == b_mode && a_source == b_source && a_reconcile == b_reconcile,
        (SsaInstruction::EndSplitMap, SsaInstruction::EndSplitMap) => true,
        (SsaInstruction::Defer { dest: a_dest, cap: a_cap, deadline_ms: a_deadline_ms }, SsaInstruction::Defer { dest: b_dest, cap: b_cap, deadline_ms: b_deadline_ms }) => a_dest == b_dest && a_cap == b_cap && a_deadline_ms == b_deadline_ms,
        (SsaInstruction::Await { target: a_target }, SsaInstruction::Await { target: b_target }) => a_target == b_target,
        (SsaInstruction::Loop { max_ms: a_max_ms }, SsaInstruction::Loop { max_ms: b_max_ms }) => a_max_ms == b_max_ms,
        (SsaInstruction::EndLoop { max_ms: a_max_ms }, SsaInstruction::EndLoop { max_ms: b_max_ms }) => a_max_ms == b_max_ms,
        (SsaInstruction::Break, SsaInstruction::Break) => true,
        (SsaInstruction::LoopTick, SsaInstruction::LoopTick) => true,
        (SsaInstruction::EndLoopTick, SsaInstruction::EndLoopTick) => true,
        (SsaInstruction::Jump { target: a_target }, SsaInstruction::Jump { target: b_target }) => a_target == b_target,
        (SsaInstruction::JumpIf { cond: a_cond, target: a_target }, SsaInstruction::JumpIf { cond: b_cond, target: b_target }) => a_cond == b_cond && a_target == b_target,
        (SsaInstruction::JumpIfNot { cond: a_cond, target: a_target }, SsaInstruction::JumpIfNot { cond: b_cond, target: b_target }) => a_cond == b_cond && a_target == b_target,
        (SsaInstruction::While { max_ms: a_max_ms }, SsaInstruction::While { max_ms: b_max_ms }) => a_max_ms == b_max_ms,
        (SsaInstruction::EndWhile { max_ms: a_max_ms }, SsaInstruction::EndWhile { max_ms: b_max_ms }) => a_max_ms == b_max_ms,
        (SsaInstruction::ForStep { dest_cond: a_dest_cond, item_reg: a_item_reg, item_name: a_item_name, source: a_source, step_ms: a_step_ms }, SsaInstruction::ForStep { dest_cond: b_dest_cond, item_reg: b_item_reg, item_name: b_item_name, source: b_source, step_ms: b_step_ms }) => a_dest_cond == b_dest_cond && a_item_reg == b_item_reg && a_item_name == b_item_name && a_source == b_source && a_step_ms == b_step_ms,
        (SsaInstruction::EndForStep, SsaInstruction::EndForStep) => true,
        (SsaInstruction::ArrayLen { dest: a_dest, src: a_src }, SsaInstruction::ArrayLen { dest: b_dest, src: b_src }) => a_dest == b_dest && a_src == b_src,
        (SsaInstruction::LoopTickOn { chan_id: a_chan_id }, SsaInstruction::LoopTickOn { chan_id: b_chan_id }) => a_chan_id == b_chan_id,
        (SsaInstruction::Syscall { dest: a_dest, target: a_target, args: a_args, duration_ms: a_duration_ms }, SsaInstruction::Syscall { dest: b_dest, target: b_target, args: b_args, duration_ms: b_duration_ms }) => a_dest == b_dest && a_target == b_target && a_args@ == b_args@ && a_duration_ms == b_duration_ms,
        (SsaInstruction::AutoDrop { target: a_target, spec: a_spec }, SsaInstruction::AutoDrop { target: b_target, spec: b_spec }) => a_target == b_target && a_spec == b_spec,
        (SsaInstruction::SetSaturationPolicy { target: a_target, policy: a_policy }, SsaInstruction::SetSaturationPolicy { target: b_target, policy: b_policy }) => a_target == b_target && a_policy == b_policy,
        (SsaInstruction::PeriodicEpoch { interval_ms: a_interval_ms, block_pc: a_block_pc, block_len: a_block_len }, SsaInstruction::PeriodicEpoch { interval_ms: b_interval_ms, block_pc: b_block_pc, block_len: b_block_len }) => a_interval_ms == b_interval_ms && a_block_pc == b_block_pc && a_block_len == b_block_len,
        (SsaInstruction::EndPeriodicEpoch { interval_ms: a_interval_ms }, SsaInstruction::EndPeriodicEpoch { interval_ms: b_interval_ms }) => a_interval_ms == b_interval_ms,
        (SsaInstruction::FreezeBaseWatermark, SsaInstruction::FreezeBaseWatermark) => true,
        (SsaInstruction::ResetBaseWatermark, SsaInstruction::ResetBaseWatermark) => true,
        (SsaInstruction::ArenaIntrospect { dest: a_dest, kind: a_kind }, SsaInstruction::ArenaIntrospect { dest: b_dest, kind: b_kind }) => a_dest == b_dest && a_kind == b_kind,
        (SsaInstruction::CapabilityCheck { dest: a_dest, capability: a_capability }, SsaInstruction::CapabilityCheck { dest: b_dest, capability: b_capability }) => a_dest == b_dest && a_capability == b_capability,
        (SsaInstruction::Other(x), SsaInstruction::Other(y)) => x == y,
        _ => false,
    }
}

impl SsaInstruction {
    /// A deep copy of the instruction.
    pub fn duplicate(&self) -> (r: Self)
        ensures
            same_ssa_instr(r, *self),
    {
        match self {
            SsaInstruction::BinaryOp { dest: dest, op: op, left: left, right: right } => SsaInstruction::BinaryOp { dest: *dest, op: *op, left: *left, right: *right },
            SsaInstruction::UnaryOp { dest: dest, op: op, src: src } => SsaInstruction::UnaryOp { dest: *dest, op: *op, src: *src },
            SsaInstruction::LoadInt { dest: dest, value: value } => SsaInstruction::LoadInt { dest: *dest, value: *value },
            SsaInstruction::LoadFloat { dest: dest, value: value } => SsaInstruction::LoadFloat { dest: *dest, value: *value },
            SsaInstruction::LoadBool { dest: dest, value: value } => SsaInstruction::LoadBool { dest: *dest, value: *value },
            SsaInstruction::LoadString { dest: dest, value: value } => SsaInstruction::LoadString { dest: *dest, value: value.clone() },
            SsaInstruction::LoadNull { dest: dest } => SsaInstruction::LoadNull { dest: *dest },
            SsaInstruction::ConstInt { dest: dest, value: value } => SsaInstruction::ConstInt { dest: *dest, value: *value },
            SsaInstruction::ConstFloat { dest: dest, value: value } => SsaInstruction::ConstFloat { dest: *dest, value: *value },
            SsaInstruction::ConstBool { dest: dest, value: value } => SsaInstruction::ConstBool { dest: *dest, value: *value },
            SsaInstruction::ConstString { dest: dest, value: value } => SsaInstruction::ConstString { dest: *dest, value: value.clone() },
            SsaInstruction::ConstNull { dest: dest } => SsaInstruction::ConstNull { dest: *dest },
            SsaInstruction::Move { dest: dest, src: src } => SsaInstruction::Move { dest: *dest, src: *src },
            SsaInstruction::Consume { src: src } => SsaInstruction::Consume { src: *src },
            SsaInstruction::ConsumeField { src: src, field: field } => SsaInstruction::ConsumeField { src: *src, field: field.clone() },
            SsaInstruction::ConsumeFieldDynamic { target: target, index: index } => SsaInstruction::ConsumeFieldDynamic { target: *target, index: *index },
            SsaInstruction::Clone { dest: dest, src: src } => SsaInstruction::Clone { dest: *dest, src: *src },
            SsaInstruction::StrBytes { dest: dest, src: src } => SsaInstruction::StrBytes { dest: *dest, src: *src },
            SsaInstruction::ToStr { dest: dest, src: src } => SsaInstruction::ToStr { dest: *dest, src: *src },
            SsaInstruction::ConditionalSelect { dest: dest, cond: cond, true_val: true_val, false_val: false_val } => SsaInstruction::ConditionalSelect { dest: *dest, cond: *cond, true_val: *true_val, false_val: *false_val },
            SsaInstruction::Call { routine: routine, args: args, dest: dest } => SsaInstruction::Call { routine: routine.clone(), args: copy_ssa_regs(args), dest: *dest },
            SsaInstruction::DynamicCall { method: method, args: args, dest: dest, budget: budget } => SsaInstruction::DynamicCall { method: method.clone(), args: copy_ssa_regs(args), dest: *dest, budget: *budget },
            SsaInstruction::TypeAssert { dest: dest, src: src, type_label: type_label } => SsaInstruction::TypeAssert { dest: *dest, src: *src, type_label: type_label.clone() },
            SsaInstruction::TypeCast { dest: dest, src: src, target_type: target_type } => SsaInstruction::TypeCast { dest: *dest, src: *src, target_type: target_type.duplicate() },
            SsaInstruction::AssertState { src: src, state: state } => SsaInstruction::AssertState { src: *src, state: state.clone() },
            SsaInstruction::TryTypeAssert { dest: dest, src: src, type_label: type_label, success: success } => SsaInstruction::TryTypeAssert { dest: *dest, src: *src, type_label: type_label.clone(), success: *success },
            SsaInstruction::TryEnumVariant { dest: dest, src: src, enum_name: enum_name, variant_name: variant_name, success: success } => SsaInstruction::TryEnumVariant { dest: *dest, src: *src, enum_name: copy_option_string(enum_name), variant_name: variant_name.clone(), success: *success },
            SsaInstruction::Print { src: src } => SsaInstruction::Print { src: *src },
            SsaInstruction::Debug { src: src } => SsaInstruction::Debug { src: *src },
            SsaInstruction::Slice { ms: ms } => SsaInstruction::Slice { ms: *ms },
            SsaInstruction::Isolate { name: name, manifest: manifest } => SsaInstruction::Isolate { name: name.clone(), manifest: manifest.duplicate() },
            SsaInstruction::EndIsolate => SsaInstruction::EndIsolate,
            SsaInstruction::Lease { target_reg: target_reg, source_reg: source_reg, duration_ms: duration_ms } => SsaInstruction::Lease { target_reg: *target_reg, source_reg: *source_reg, duration_ms: *duration_ms },
            SsaInstruction::EndLease { source_reg: source_reg, duration_ms: duration_ms } => SsaInstruction::EndLease { source_reg: *source_reg, duration_ms: *duration_ms },
            SsaInstruction::Split { parent: parent, branches: branches } => SsaInstruction::Split { parent: parent.clone(), branches: copy_strings(branches) },
            SsaInstruction::Merge { branches: branches, target: target, resolution: resolution } => SsaInstruction::Merge { branches: copy_strings(branches), target: target.clone(), resolution: resolution.duplicate() },
            SsaInstruction::Entangle { regs: regs } => SsaInstruction::Entangle { regs: copy_ssa_regs(regs) },
            SsaInstruction::SetEntropyMode { mode: mode } => SsaInstruction::SetEntropyMode { mode: *mode },
            SsaInstruction::Anchor { name: name } => SsaInstruction::Anchor { name: name.clone() },
            SsaInstruction::Rewind { target: target, anchor: anchor } => SsaInstruction::Rewind { target: target.clone(), anchor: anchor.clone() },
            SsaInstruction::Commit { vars: vars } => SsaInstruction::Commit { vars: copy_strings(vars) },
            SsaInstruction::Watchdog { target: target, timeout_ms: timeout_ms, recovery_jump: recovery_jump } => SsaInstruction::Watchdog { target: target.clone(), timeout_ms: *timeout_ms, recovery_jump: *recovery_jump },
            SsaInstruction::Speculate { max_ms: max_ms, fallback_target: fallback_target } => SsaInstruction::Speculate { max_ms: *max_ms, fallback_target: *fallback_target },
            SsaInstruction::EndSpeculate { max_ms: max_ms, fallback_target: fallback_target } => SsaInstruction::EndSpeculate { max_ms: *max_ms, fallback_target: *fallback_target },
            SsaInstruction::Collapse => SsaInstruction::Collapse,
            SsaInstruction::Select { max_ms: max_ms, cases: cases, timeout_target: timeout_target } => SsaInstruction::Select { max_ms: *max_ms, cases: copy_ssa_cases(cases), timeout_target: *timeout_target },
            SsaInstruction::MatchEntropy { target: target, valid_target: valid_target, decayed_target: decayed_target, pending_target: pending_target, consumed_target: consumed_target } => SsaInstruction::MatchEntropy { target: *target, valid_target: *valid_target, decayed_target: *decayed_target, pending_target: *pending_target, consumed_target: *consumed_target },
            SsaInstruction::RelativisticBlock { target: target, block_pc: block_pc, block_len: block_len } => SsaInstruction::RelativisticBlock { target: target.clone(), block_pc: *block_pc, block_len: *block_len },
            SsaInstruction::SpeculationMode { mode: mode } => SsaInstruction::SpeculationMode { mode: *mode },
            SsaInstruction::OpenChan { name: name, capacity: capacity, decay_after_ms: decay_after_ms } => SsaInstruction::OpenChan { name: name.clone(), capacity: *capacity, decay_after_ms: *decay_after_ms },
            SsaInstruction::ChanSend { chan_id: chan_id, src: src } => SsaInstruction::ChanSend { chan_id: chan_id.clone(), src: *src },
            SsaInstruction::ChanRecv { dest: dest, chan_id: chan_id } => SsaInstruction::ChanRecv { dest: *dest, chan_id: chan_id.clone() },
            SsaInstruction::AwaitChan { chan_id: chan_id } => SsaInstruction::AwaitChan { chan_id: chan_id.clone() },
            SsaInstruction::StructLit { dest: dest, fields: fields, type_label: type_label } => SsaInstruction::StructLit { dest: *dest, fields: copy_ssa_fields(fields), type_label: copy_option_string(type_label) },
            SsaInstruction::TopologyLit { dest: dest, fields: fields } => SsaInstruction::TopologyLit { dest: *dest, fields: copy_ssa_fields(fields) },
            SsaInstruction::ArrayLit { dest: dest, elements: elements } => SsaInstruction::ArrayLit { dest: *dest, elements: copy_ssa_regs(elements) },
            SsaInstruction::ArrayRepeat { dest: dest, value: value, count: count } => SsaInstruction::ArrayRepeat { dest: *dest, value: *value, count: *count },
            SsaInstruction::ArraySlice { dest: dest, target: target, start: start, end: end, inclusive: inclusive } => SsaInstruction::ArraySlice { dest: *dest, target: *target, start: *start, end: *end, inclusive: *inclusive },
            SsaInstruction::FieldAccess { dest: dest, target: target, field: field } => SsaInstruction::FieldAccess { dest: *dest, target: *target, field: field.clone() },
            SsaInstruction::FieldUpdate { target: target, old_target: old_target, field: field, src: src } => SsaInstruction::FieldUpdate { target: *target, old_target: *old_target, field: field.clone(), src: *src },
            SsaInstruction::IndexAccess { dest: dest, target: target, index: index } => SsaInstruction::IndexAccess { dest: *dest, target: *target, index: *index },
            SsaInstruction::IndexFieldUpdate { target: target, old_target: old_target, index: index, field: field, src: src } => SsaInstruction::IndexFieldUpdate { target: *target, old_target: *old_target, index: *index, field: field.clone(), src: *src },
            SsaInstruction::AssertTime { op: op, limit_ms: limit_ms } => SsaInstruction::AssertTime { op: *op, limit_ms: *limit_ms },
            SsaInstruction::Capability { cap: cap } => SsaInstruction::Capability { cap: cap.duplicate() },
            SsaInstruction::For { dest_cond: dest_cond, item_reg: item_reg, item_name: item_name, mode: mode, source: source, pacing_ms: pacing_ms, max_ms: max_ms } => SsaInstruction::For { dest_cond: *dest_cond, item_reg: *item_reg, item_name: item_name.clone(), mode: *mode, source: *source, pacing_ms: *pacing_ms, max_ms: *max_ms },
            SsaInstruction::EndFor => SsaInstruction::EndFor,
            SsaInstruction::SplitMap { item_reg: item_reg, item_name: item_name, mode: mode, source: source, reconcile: reconcile } => SsaInstruction::SplitMap { item_reg: *item_reg, item_name: item_name.clone(), mode: *mode, source: *source, reconcile: copy_option_resolution(reconcile) },
            SsaInstruction::EndSplitMap => SsaInstruction::EndSplitMap,
            SsaInstruction::Defer { dest: dest, cap: cap, deadline_ms: deadline_ms } => SsaInstruction::Defer { dest: *dest, cap: cap.duplicate(), deadline_ms: *deadline_ms },
            SsaInstruction::Await { target: target } => SsaInstruction::Await { target: *target },
            SsaInstruction::Loop { max_ms: max_ms } => SsaInstruction::Loop { max_ms: *max_ms },
            SsaInstruction::EndLoop { max_ms: max_ms } => SsaInstruction::EndLoop { max_ms: *max_ms },
            SsaInstruction::Break => SsaInstruction::Break,
            SsaInstruction::LoopTick => SsaInstruction::LoopTick,
            SsaInstruction::EndLoopTick => SsaInstruction::EndLoopTick,
            SsaInstruction::Jump { target: target } => SsaInstruction::Jump { target: *target },
            SsaInstruction::JumpIf { cond: cond, target: target } => SsaInstruction::JumpIf { cond: *cond, target: *target },
            SsaInstruction::JumpIfNot { cond: cond, target: target } => SsaInstruction::JumpIfNot { cond: *cond, target: *target },
            SsaInstruction::While { max_ms: max_ms } => SsaInstruction::While { max_ms: *max_ms },
            SsaInstruction::EndWhile { max_ms: max_ms } => SsaInstruction::EndWhile { max_ms: *max_ms },
            SsaInstruction::ForStep { dest_cond: dest_cond, item_reg: item_reg, item_name: item_name, source: source, step_ms: step_ms } => SsaInstruction::ForStep { dest_cond: *dest_cond, item_reg: *item_reg, item_name: item_name.clone(), source: *source, step_ms: *step_ms },
            SsaInstruction::EndForStep => SsaInstruction::EndForStep,
            SsaInstruction::ArrayLen { dest: dest, src: src } => SsaInstruction::ArrayLen { dest: *dest, src: *src },
            SsaInstruction::LoopTickOn { chan_id: chan_id } => SsaInstruction::LoopTickOn { chan_id: chan_id.clone() },
            SsaInstruction::Syscall { dest: dest, target: target, args: args, duration_ms: duration_ms } => SsaInstruction::Syscall { dest: *dest, target: target.duplicate(), args: copy_ssa_regs(args), duration_ms: *duration_ms },
            SsaInstruction::AutoDrop { target: target, spec: spec } => SsaInstruction::AutoDrop { target: *target, spec: spec.duplicate() },
            SsaInstruction::SetSaturationPolicy { target: target, policy: policy } => SsaInstruction::SetSaturationPolicy { target: target.duplicate(), policy: policy.duplicate() },
            SsaInstruction::PeriodicEpoch { interval_ms: interval_ms, block_pc: block_pc, block_len: block_len } => SsaInstruction::PeriodicEpoch { interval_ms: *interval_ms, block_pc: *block_pc, block_len: *block_len },
            SsaInstruction::EndPeriodicEpoch { interval_ms: interval_ms } => SsaInstruction::EndPeriodicEpoch { interval_ms: *interval_ms },
            SsaInstruction::FreezeBaseWatermark => SsaInstruction::FreezeBaseWatermark,
            SsaInstruction::ResetBaseWatermark => SsaInstruction::ResetBaseWatermark,
            SsaInstruction::ArenaIntrospect { dest: dest, kind: kind } => SsaInstruction::ArenaIntrospect { dest: *dest, kind: kind.duplicate() },
            SsaInstruction::CapabilityCheck { dest: dest, capability: capability } => SsaInstruction::CapabilityCheck { dest: *dest, capability: capability.duplicate() },
            SsaInstruction::Other(s) => SsaInstruction::Other(s.clone()),
        }
    }
}

/// The register that the instruction defines, if any.
pub open spec fn spec_ssa_defined_reg(i: &SsaInstruction) -> Option<SsaReg> {
    match i {
        SsaInstruction::BinaryOp { dest, .. } => Some(*dest),
        SsaInstruction::UnaryOp { dest, .. } => Some(*dest),
        SsaInstruction::LoadInt { dest, .. } => Some(*dest),
        SsaInstruction::LoadFloat { dest, .. } => Some(*dest),
        SsaInstruction::LoadBool { dest, .. } => Some(*dest),
        SsaInstruction::LoadString { dest, .. } => Some(*dest),
        SsaInstruction::LoadNull { dest, .. } => Some(*dest),
        SsaInstruction::ConstInt { dest, .. } => Some(*dest),
        SsaInstruction::ConstFloat { dest, .. } => Some(*dest),
        SsaInstruction::ConstBool { dest, .. } => Some(*dest),
        SsaInstruction::ConstString { dest, .. } => Some(*dest),
        SsaInstruction::ConstNull { dest, .. } => Some(*dest),
        SsaInstruction::Move { dest, .. } => Some(*dest),
        SsaInstruction::Clone { dest, .. } => Some(*dest),
        SsaInstruction::StrBytes { dest, .. } => Some(*dest),
        SsaInstruction::ToStr { dest, .. } => Some(*dest),
        SsaInstruction::ArrayLen { dest, .. } => Some(*dest),
        SsaInstruction::Call { dest, .. } => Some(*dest),
        SsaInstruction::DynamicCall { dest, .. } => Some(*dest),
        SsaInstruction::TypeAssert { dest, .. } => Some(*dest),
        SsaInstruction::TypeCast { dest, .. } => Some(*dest),
        SsaInstruction::TryTypeAssert { dest, .. } => Some(*dest),
        SsaInstruction::TryEnumVariant { dest, .. } => Some(*dest),
        SsaInstruction::StructLit { dest, .. } => Some(*dest),
        SsaInstruction::TopologyLit { dest, .. } => Some(*dest),
        SsaInstruction::ArrayLit { dest, .. } => Some(*dest),
        SsaInstruction::ArrayRepeat { dest, .. } => Some(*dest),
        SsaInstruction::ArraySlice { dest, .. } => Some(*dest),
        SsaInstruction::FieldAccess { dest, .. } => Some(*dest),
        SsaInstruction::IndexAccess { dest, .. } => Some(*dest),
        SsaInstruction::ChanRecv { dest, .. } => Some(*dest),
        SsaInstruction::ConditionalSelect { dest, .. } => Some(*dest),
        SsaInstruction::Defer { dest, .. } => Some(*dest),
        SsaInstruction::Syscall { dest, .. } => Some(*dest),
        SsaInstruction::ArenaIntrospect { dest, .. } => Some(*dest),
        SsaInstruction::CapabilityCheck { dest, .. } => Some(*dest),
        SsaInstruction::Lease { target_reg, .. } => Some(*target_reg),
        SsaInstruction::For { dest_cond, .. } => Some(*dest_cond),
        SsaInstruction::ForStep { dest_cond, .. } => Some(*dest_cond),
        SsaInstruction::SplitMap { item_reg, .. } => Some(*item_reg),
        SsaInstruction::FieldUpdate { target, .. } => Some(*target),
        SsaInstruction::IndexFieldUpdate { target, .. } => Some(*target),
        _ => None,
    }
}
/// The registers that the instruction reads, in operand order.
pub open spec fn spec_ssa_used_regs(i: &SsaInstruction) -> Seq<SsaReg> {
    match i {
        SsaInstruction::BinaryOp { left, right, .. } => seq![*left] + seq![*right],
        SsaInstruction::UnaryOp { src, .. } => seq![*src],
        SsaInstruction::Move { src, .. } => seq![*src],
        SsaInstruction::Consume { src, .. } => seq![*src],
        SsaInstruction::ConsumeField { src, .. } => seq![*src],
        SsaInstruction::ConsumeFieldDynamic { target, index, .. } => seq![*target] + seq![*index],
        SsaInstruction::Clone { src, .. } => seq![*src],
        SsaInstruction::StrBytes { src, .. } => seq![*src],
        SsaInstruction::ToStr { src, .. } => seq![*src],
        SsaInstruction::ConditionalSelect { cond, true_val, false_val, .. } => seq![*cond] + seq![*true_val] + seq![*false_val],
        SsaInstruction::Call { args, .. } => args@,
        SsaInstruction::DynamicCall { args, .. } => args@,
        SsaInstruction::TypeAssert { src, .. } => seq![*src],
        SsaInstruction::TypeCast { src, .. } => seq![*src],
        SsaInstruction::AssertState { src, .. } => seq![*src],
        SsaInstruction::TryTypeAssert { src, .. } => seq![*src],
        SsaInstruction::TryEnumVariant { src, .. } => seq![*src],
        SsaInstruction::Print { src, .. } => seq![*src],
        SsaInstruction::Debug { src, .. } => seq![*src],
        SsaInstruction::Lease { source_reg, .. } => seq![*source_reg],
        SsaInstruction::EndLease { source_reg, .. } => seq![*source_reg],
        SsaInstruction::Entangle { regs, .. } => regs@,
        SsaInstruction::MatchEntropy { target, .. } => seq![*target],
        SsaInstruction::ChanSend { src, .. } => seq![*src],
        SsaInstruction::StructLit { fields, .. } => fields@.map_values(|p: (String, SsaReg)| p.1),
        SsaInstruction::TopologyLit { fields, .. } => fields@.map_values(|p: (String, SsaReg)| p.1),
        SsaInstruction::ArrayLit { elements, .. } => elements@,
        SsaInstruction::ArrayRepeat { value, count, .. } => seq![*value] + seq![*count],
        SsaInstruction::ArraySlice { target, start, end, .. } => seq![*target] + (match start { Some(x) => seq![*x], None => Seq::<SsaReg>::empty() }) + (match end { Some(x) => seq![*x], None => Seq::<SsaReg>::empty() }),
        SsaInstruction::FieldAccess { target, .. } => seq![*target],
        SsaInstruction::FieldUpdate { old_target, src, .. } => seq![*old_target] + seq![*src],
        SsaInstruction::IndexAccess { target, index, .. } => seq![*target] + seq![*index],
        SsaInstruction::IndexFieldUpdate { old_target, index, src, .. } => seq![*old_target] + seq![*index] + seq![*src],
        SsaInstruction::For { source, .. } => seq![*source],
        SsaInstruction::SplitMap { source, .. } => seq![*source],
        SsaInstruction::Await { target, .. } => seq![*target],
        SsaInstruction::JumpIf { cond, .. } => seq![*cond],
        SsaInstruction::JumpIfNot { cond, .. } => seq![*cond],
        SsaInstruction::ForStep { source, .. } => seq![*source],
        SsaInstruction::ArrayLen { src, .. } => seq![*src],
        SsaInstruction::Syscall { args, .. } => args@,
        SsaInstruction::AutoDrop { target, .. } => seq![*target],
        _ => Seq::<SsaReg>::empty(),
    }
}
/// The registers whose values the instruction consumes.
pub open spec fn spec_ssa_consumed_regs(i: &SsaInstruction) -> Seq<SsaReg> {
    match i {
        SsaInstruction::Consume { src, .. } => seq![*src],
        SsaInstruction::ConsumeField { src, .. } => seq![*src],
        SsaInstruction::ConsumeFieldDynamic { target, .. } => seq![*target],
        SsaInstruction::Call { args, .. } => args@,
        SsaInstruction::DynamicCall { args, .. } => args@,
        SsaInstruction::ChanSend { src, .. } => seq![*src],
        SsaInstruction::FieldUpdate { target, .. } => seq![*target],
        SsaInstruction::IndexFieldUpdate { target, .. } => seq![*target],
        SsaInstruction::For { source, .. } => seq![*source],
        SsaInstruction::SplitMap { source, .. } => seq![*source],
        SsaInstruction::ForStep { source, .. } => seq![*source],
        _ => Seq::<SsaReg>::empty(),
    }
}
/// The registers that the instruction decays by a structural read.
pub open spec fn spec_ssa_decayed_regs(i: &SsaInstruction) -> Seq<SsaReg> {
    match i {
        SsaInstruction::FieldAccess { target, .. } => seq![*target],
        SsaInstruction::IndexAccess { target, .. } => seq![*target],
        _ => Seq::<SsaReg>::empty(),
    }
}
impl SsaInstructionProperties for SsaInstruction {
    /// The register that the instruction defines, if any.
    fn defined_ssa_reg(&self) -> (r: Option<SsaReg>)
        ensures
            r == spec_ssa_defined_reg(self),
    {
        match self {
            SsaInstruction::BinaryOp { dest, .. } => Some(*dest),
            SsaInstruction::UnaryOp { dest, .. } => Some(*dest),
            SsaInstruction::LoadInt { dest, .. } => Some(*dest),
            SsaInstruction::LoadFloat { dest, .. } => Some(*dest),
            SsaInstruction::LoadBool { dest, .. } => Some(*dest),
            SsaInstruction::LoadString { dest, .. } => Some(*dest),
            SsaInstruction::LoadNull { dest, .. } => Some(*dest),
            SsaInstruction::ConstInt { dest, .. } => Some(*dest),
            SsaInstruction::ConstFloat { dest, .. } => Some(*dest),
            SsaInstruction::ConstBool { dest, .. } => Some(*dest),
            SsaInstruction::ConstString { dest, .. } => Some(*dest),
            SsaInstruction::ConstNull { dest, .. } => Some(*dest),
            SsaInstruction::Move { dest, .. } => Some(*dest),
            SsaInstruction::Clone { dest, .. } => Some(*dest),
            SsaInstruction::StrBytes { dest, .. } => Some(*dest),
            SsaInstruction::ToStr { dest, .. } => Some(*dest),
            SsaInstruction::ArrayLen { dest, .. } => Some(*dest),
            SsaInstruction::Call { dest, .. } => Some(*dest),
            SsaInstruction::DynamicCall { dest, .. } => Some(*dest),
            SsaInstruction::TypeAssert { dest, .. } => Some(*dest),
            SsaInstruction::TypeCast { dest, .. } => Some(*dest),
            SsaInstruction::TryTypeAssert { dest, .. } => Some(*dest),
            SsaInstruction::TryEnumVariant { dest, .. } => Some(*dest),
            SsaInstruction::StructLit { dest, .. } => Some(*dest),
            SsaInstruction::TopologyLit { dest, .. } => Some(*dest),
            SsaInstruction::ArrayLit { dest, .. } => Some(*dest),
            SsaInstruction::ArrayRepeat { dest, .. } => Some(*dest),
            SsaInstruction::ArraySlice { dest, .. } => Some(*dest),
            SsaInstruction::FieldAccess { dest, .. } => Some(*dest),
            SsaInstruction::IndexAccess { dest, .. } => Some(*dest),
            SsaInstruction::ChanRecv { dest, .. } => Some(*dest),
            SsaInstruction::ConditionalSelect { dest, .. } => Some(*dest),
            SsaInstruction::Defer { dest, .. } => Some(*dest),
            SsaInstruction::Syscall { dest, .. } => Some(*dest),
            SsaInstruction::ArenaIntrospect { dest, .. } => Some(*dest),
            SsaInstruction::CapabilityCheck { dest, .. } => Some(*dest),
            SsaInstruction::Lease { target_reg, .. } => Some(*target_reg),
            SsaInstruction::For { dest_cond, .. } => Some(*dest_cond),
            SsaInstruction::ForStep { dest_cond, .. } => Some(*dest_cond),
            SsaInstruction::SplitMap { item_reg, .. } => Some(*item_reg),
            SsaInstruction::FieldUpdate { target, .. } => Some(*target),
            SsaInstruction::IndexFieldUpdate { target, .. } => Some(*target),
            _ => None,
        }
    }
    /// See `spec_ssa_used_regs`.
    fn used_ssa_regs(&self) -> (r: Vec<SsaReg>)
        ensures
            r@ == spec_ssa_used_regs(self),
    {
        let mut acc: Vec<SsaReg> = Vec::new();
        match self {
            SsaInstruction::BinaryOp { left, right, .. } => {
                acc.push(*left);
                acc.push(*right);
            },
            SsaInstruction::UnaryOp { src, .. } => {
                acc.push(*src);
            },
            SsaInstruction::Move { src, .. } => {
                acc.push(*src);
            },
            SsaInstruction::Consume { src, .. } => {
                acc.push(*src);
            },
            SsaInstruction::ConsumeField { src, .. } => {
                acc.push(*src);
            },
            SsaInstruction::ConsumeFieldDynamic { target, index, .. } => {
                acc.push(*target);
                acc.push(*index);
            },
            SsaInstruction::Clone { src, .. } => {
                acc.push(*src);
            },
            SsaInstruction::StrBytes { src, .. } => {
                acc.push(*src);
            },
            SsaInstruction::ToStr { src, .. } => {
                acc.push(*src);
            },
            SsaInstruction::ConditionalSelect { cond, true_val, false_val, .. } => {
                acc.push(*cond);
                acc.push(*true_val);
                acc.push(*false_val);
            },
            SsaInstruction::Call { args, .. } => {
                append_regs_ssa(&mut acc, args);
            },
            SsaInstruction::DynamicCall { args, .. } => {
                append_regs_ssa(&mut acc, args);
            },
            SsaInstruction::TypeAssert { src, .. } => {
                acc.push(*src);
            },
            SsaInstruction::TypeCast { src, .. } => {
                acc.push(*src);
            },
            SsaInstruction::AssertState { src, .. } => {
                acc.push(*src);
            },
            SsaInstruction::TryTypeAssert { src, .. } => {
                acc.push(*src);
            },
            SsaInstruction::TryEnumVariant { src, .. } => {
                acc.push(*src);
            },
            SsaInstruction::Print { src, .. } => {
                acc.push(*src);
            },
            SsaInstruction::Debug { src, .. } => {
                acc.push(*src);
            },
            SsaInstruction::Lease { source_reg, .. } => {
                acc.push(*source_reg);
            },
            SsaInstruction::EndLease { source_reg, .. } => {
                acc.push(*source_reg);
            },
            SsaInstruction::Entangle { regs, .. } => {
                append_regs_ssa(&mut acc, regs);
            },
            SsaInstruction::MatchEntropy { target, .. } => {
                acc.push(*target);
            },
            SsaInstruction::ChanSend { src, .. } => {
                acc.push(*src);
            },
            SsaInstruction::StructLit { fields, .. } => {
                append_field_regs_ssa(&mut acc, fields);
            },
            SsaInstruction::TopologyLit { fields, .. } => {
                append_field_regs_ssa(&mut acc, fields);
            },
            SsaInstruction::ArrayLit { elements, .. } => {
                append_regs_ssa(&mut acc, elements);
            },
            SsaInstruction::ArrayRepeat { value, count, .. } => {
                acc.push(*value);
                acc.push(*count);
            },
            SsaInstruction::ArraySlice { target, start, end, .. } => {
                acc.push(*target);
                if let Some(x) = start { acc.push(*x); }
                if let Some(x) = end { acc.push(*x); }
            },
            SsaInstruction::FieldAccess { target, .. } => {
                acc.push(*target);
            },
            SsaInstruction::FieldUpdate { old_target, src, .. } => {
                acc.push(*old_target);
                acc.push(*src);
            },
            SsaInstruction::IndexAccess { target, index, .. } => {
                acc.push(*target);
                acc.push(*index);
            },
            SsaInstruction::IndexFieldUpdate { old_target, index, src, .. } => {
                acc.push(*old_target);
                acc.push(*index);
                acc.push(*src);
            },
            SsaInstruction::For { source, .. } => {
                acc.push(*source);
            },
            SsaInstruction::SplitMap { source, .. } => {
                acc.push(*source);
            },
            SsaInstruction::Await { target, .. } => {
                acc.push(*target);
            },
            SsaInstruction::JumpIf { cond, .. } => {
                acc.push(*cond);
            },
            SsaInstruction::JumpIfNot { cond, .. } => {
                acc.push(*cond);
            },
            SsaInstruction::ForStep { source, .. } => {
                acc.push(*source);
            },
            SsaInstruction::ArrayLen { src, .. } => {
                acc.push(*src);
            },
            SsaInstruction::Syscall { args, .. } => {
                append_regs_ssa(&mut acc, args);
            },
            SsaInstruction::AutoDrop { target, .. } => {
                acc.push(*target);
            },
            _ => {},
        }
        assert(acc@ =~= spec_ssa_used_regs(self));
        acc
    }
    /// See `spec_ssa_consumed_regs`.
    fn consumed_ssa_regs(&self) -> (r: Vec<SsaReg>)
        ensures
            r@ == spec_ssa_consumed_regs(self),
    {
        let mut acc: Vec<SsaReg> = Vec::new();
        match self {
            SsaInstruction::Consume { src, .. } => {
                acc.push(*src);
            },
            SsaInstruction::ConsumeField { src, .. } => {
                acc.push(*src);
            },
            SsaInstruction::ConsumeFieldDynamic { target, .. } => {
                acc.push(*target);
            },
            SsaInstruction::Call { args, .. } => {
                append_regs_ssa(&mut acc, args);
            },
            SsaInstruction::DynamicCall { args, .. } => {
                append_regs_ssa(&mut acc, args);
            },
            SsaInstruction::ChanSend { src, .. } => {
                acc.push(*src);
            },
            SsaInstruction::FieldUpdate { target, .. } => {
                acc.push(*target);
            },
            SsaInstruction::IndexFieldUpdate { target, .. } => {
                acc.push(*target);
            },
            SsaInstruction::For { source, .. } => {
                acc.push(*source);
            },
            SsaInstruction::SplitMap { source, .. } => {
                acc.push(*source);
            },
            SsaInstruction::ForStep { source, .. } => {
                acc.push(*source);
            },
            _ => {},
        }
        assert(acc@ =~= spec_ssa_consumed_regs(self));
        acc
    }
    /// See `spec_ssa_decayed_regs`.
    fn decayed_ssa_regs(&self) -> (r: Vec<SsaReg>)
        ensures
            r@ == spec_ssa_decayed_regs(self),
    {
        let mut acc: Vec<SsaReg> = Vec::new();
        match self {
            SsaInstruction::FieldAccess { target, .. } => {
                acc.push(*target);
            },
            SsaInstruction::IndexAccess { target, .. } => {
                acc.push(*target);
            },
            _ => {},
        }
        assert(acc@ =~= spec_ssa_decayed_regs(self));
        acc
    }
}

/// `f` is the flat instruction that `s` becomes once register versions are
/// dropped (and the previous-value operand of an update is dropped).
pub open spec fn erases_to(s: SsaInstruction, f: Instruction) -> bool {
    match (s, f) {
        (SsaInstruction::BinaryOp { dest: s_dest, op: s_op, left: s_left, right: s_right }, Instruction::BinaryOp { dest: f_dest, op: f_op, left: f_left, right: f_right }) => f_dest.0 == s_dest.reg && f_op == s_op && f_left.0 == s_left.reg && f_right.0 == s_right.reg,
        (SsaInstruction::UnaryOp { dest: s_dest, op: s_op, src: s_src }, Instruction::UnaryOp { dest: f_dest, op: f_op, src: f_src }) => f_dest.0 == s_dest.reg && f_op == s_op && f_src.0 == s_src.reg,
        (SsaInstruction::LoadInt { dest: s_dest, value: s_value }, Instruction::LoadInt { dest: f_dest, value: f_value }) => f_dest.0 == s_dest.reg && f_value == s_value,
        (SsaInstruction::LoadFloat { dest: s_dest, value: s_value }, Instruction::LoadFloat { dest: f_dest, value: f_value }) => f_dest.0 == s_dest.reg && f_value == s_value,
        (SsaInstruction::LoadBool { dest: s_dest, value: s_value }, Instruction::LoadBool { dest: f_dest, value: f_value }) => f_dest.0 == s_dest.reg && f_value == s_value,
        (SsaInstruction::LoadString { dest: s_dest, value: s_value }, Instruction::LoadString { dest: f_dest, value: f_value }) => f_dest.0 == s_dest.reg && f_value == s_value,
        (SsaInstruction::LoadNull { dest: s_dest }, Instruction::LoadNull { dest: f_dest }) => f_dest.0 == s_dest.reg,
        (SsaInstruction::ConstInt { dest: s_dest, value: s_value }, Instruction::ConstInt { dest: f_dest, value: f_value }) => f_dest.0 == s_dest.reg && f_value == s_value,
        (SsaInstruction::ConstFloat { dest: s_dest, value: s_value }, Instruction::ConstFloat { dest: f_dest, value: f_value }) => f_dest.0 == s_dest.reg && f_value == s_value,
        (SsaInstruction::ConstBool { dest: s_dest, value: s_value }, Instruction::ConstBool { dest: f_dest, value: f_value }) => f_dest.0 == s_dest.reg && f_value == s_value,
        (SsaInstruction::ConstString { dest: s_dest, value: s_value }, Instruction::ConstString { dest: f_dest, value: f_value }) => f_dest.0 == s_dest.reg && f_value == s_value,
        (SsaInstruction::ConstNull { dest: s_dest }, Instruction::ConstNull { dest: f_dest }) => f_dest.0 == s_dest.reg,
        (SsaInstruction::Move { dest: s_dest, src: s_src }, Instruction::Move { dest: f_dest, src: f_src }) => f_dest.0 == s_dest.reg && f_src.0 == s_src.reg,
        (SsaInstruction::Consume { src: s_src }, Instruction::Consume { src: f_src }) => f_src.0 == s_src.reg,
        (SsaInstruction::ConsumeField { src: s_src, field: s_field }, Instruction::ConsumeField { src: f_src, field: f_field }) => f_src.0 == s_src.reg && f_field == s_field,
        (SsaInstruction::ConsumeFieldDynamic { target: s_target, index: s_index }, Instruction::ConsumeFieldDynamic { target: f_target, index: f_index }) => f_target.0 == s_target.reg && f_index.0 == s_index.reg,
        (SsaInstruction::Clone { dest: s_dest, src: s_src }, Instruction::Clone { dest: f_dest, src: f_src }) => f_dest.0 == s_dest.reg && f_src.0 == s_src.reg,
        (SsaInstruction::StrBytes { dest: s_dest, src: s_src }, Instruction::StrBytes { dest: f_dest, src: f_src }) => f_dest.0 == s_dest.reg && f_src.0 == s_src.reg,
        (SsaInstruction::ToStr { dest: s_dest, src: s_src }, Instruction::ToStr { dest: f_dest, src: f_src }) => f_dest.0 == s_dest.reg && f_src.0 == s_src.reg,
        (SsaInstruction::ConditionalSelect { dest: s_dest, cond: s_cond, true_val: s_true_val, false_val: s_false_val }, Instruction::ConditionalSelect { dest: f_dest, cond: f_cond, true_val: f_true_val, false_val: f_false_val }) => f_dest.0 == s_dest.reg && f_cond.0 == s_cond.reg && f_true_val.0 == s_true_val.reg && f_false_val.0 == s_false_val.reg,
        (SsaInstruction::Call { routine: s_routine, args: s_args, dest: s_dest }, Instruction::Call { routine: f_routine, args: f_args, dest: f_dest }) => f_routine == s_routine && f_args@ == flat_seq(s_args@) && f_dest.0 == s_dest.reg,
        (SsaInstruction::DynamicCall { method: s_method, args: s_args, dest: s_dest, budget: s_budget }, Instruction::DynamicCall { method: f_method, args: f_args, dest: f_dest, budget: f_budget }) => f_method == s_method && f_args@ == flat_seq(s_args@) && f_dest.0 == s_dest.reg && f_budget == s_budget,
        (SsaInstruction::TypeAssert { dest: s_dest, src: s_src, type_label: s_type_label }, Instruction::TypeAssert { dest: f_dest, src: f_src, type_label: f_type_label }) => f_dest.0 == s_dest.reg && f_src.0 == s_src.reg && f_type_label == s_type_label,
        (SsaInstruction::TypeCast { dest: s_dest, src: s_src, target_type: s_target_type }, Instruction::TypeCast { dest: f_dest, src: f_src, target_type: f_target_type }) => f_dest.0 == s_dest.reg && f_src.0 == s_src.reg && f_target_type == s_target_type,
        (SsaInstruction::AssertState { src: s_src, state: s_state }, Instruction::AssertState { src: f_src, state: f_state }) => f_src.0 == s_src.reg && f_state == s_state,
        (SsaInstruction::TryTypeAssert { dest: s_dest, src: s_src, type_label: s_type_label, success: s_success }, Instruction::TryTypeAssert { dest: f_dest, src: f_src, type_label: f_type_label, success: f_success }) => f_dest.0 == s_dest.reg && f_src.0 == s_src.reg && f_type_label == s_type_label && f_success.0 == s_success.reg,
        (SsaInstruction::TryEnumVariant { dest: s_dest, src: s_src, enum_name: s_enum_name, variant_name: s_variant_name, success: s_success }, Instruction::TryEnumVariant { dest: f_dest, src: f_src, enum_name: f_enum_name, variant_name: f_variant_name, success: f_success }) => f_dest.0 == s_dest.reg && f_src.0 == s_src.reg && f_enum_name == s_enum_name && f_variant_name == s_variant_name && f_success.0 == s_success.reg,
        (SsaInstruction::Print { src: s_src }, Instruction::Print { src: f_src }) => f_src.0 == s_src.reg,
        (SsaInstruction::Debug { src: s_src }, Instruction::Debug { src: f_src }) => f_src.0 == s_src.reg,
        (SsaInstruction::Slice { ms: s_ms }, Instruction::Slice { ms: f_ms }) => f_ms == s_ms,
        (SsaInstruction::Isolate { name: s_name, manifest: s_manifest }, Instruction::Isolate { name: f_name, manifest: f_manifest }) => f_name == s_name && f_manifest == s_manifest,
        (SsaInstruction::EndIsolate, Instruction::EndIsolate) => true,
        (SsaInstruction::Lease { target_reg: s_target_reg, source_reg: s_source_reg, duration_ms: s_duration_ms }, Instruction::Lease { target_reg: f_target_reg, source_reg: f_source_reg, duration_ms: f_duration_ms }) => f_target_reg.0 == s_target_reg.reg && f_source_reg.0 == s_source_reg.reg && f_duration_ms == s_duration_ms,
        (SsaInstruction::EndLease { source_reg: s_source_reg, duration_ms: s_duration_ms }, Instruction::EndLease { source_reg: f_source_reg, duration_ms: f_duration_ms }) => f_source_reg.0 == s_source_reg.reg && f_duration_ms == s_duration_ms,
        (SsaInstruction::Split { parent: s_parent, branches: s_branches }, Instruction::Split { parent: f_parent, branches: f_branches }) => f_parent == s_parent && f_branches@ == s_branches@,
        (SsaInstruction::Merge { branches: s_branches, target: s_target, resolution: s_resolution }, Instruction::Merge { branches: f_branches, target: f_target, resolution: f_resolution }) => f_branches@ == s_branches@ && f_target == s_target && f_resolution == s_resolution,
        (SsaInstruction::Entangle { regs: s_regs }, Instruction::Entangle { regs: f_regs }) => f_regs@ == flat_seq(s_regs@),
        (SsaInstruction::SetEntropyMode { mode: s_mode }, Instruction::SetEntropyMode { mode: f_mode }) => f_mode == s_mode,
        (SsaInstruction::Anchor { name: s_name }, Instruction::Anchor { name: f_name }) => f_name == s_name,
        (SsaInstruction::Rewind { target: s_target, anchor: s_anchor }, Instruction::Rewind { target: f_target, anchor: f_anchor }) => f_target == s_target && f_anchor == s_anchor,
        (SsaInstruction::Commit { vars: s_vars }, Instruction::Commit { vars: f_vars }) => f_vars@ == s_vars@,
        (SsaInstruction::Watchdog { target: s_target, timeout_ms: s_timeout_ms, recovery_jump: s_recovery_jump }, Instruction::Watchdog { target: f_target, timeout_ms: f_timeout_ms, recovery_jump: f_recovery_jump }) => f_target == s_target && f_timeout_ms == s_timeout_ms && f_recovery_jump == s_recovery_jump,
        (SsaInstruction::Speculate { max_ms: s_max_ms, fallback_target: s_fallback_target }, Instruction::Speculate { max_ms: f_max_ms, fallback_target: f_fallback_target }) => f_max_ms == s_max_ms && f_fallback_target == s_fallback_target,
        (SsaInstruction::EndSpeculate { max_ms: s_max_ms, fallback_target: s_fallback_target }, Instruction::EndSpeculate { max_ms: f_max_ms, fallback_target: f_fallback_target }) => f_max_ms == s_max_ms && f_fallback_target == s_fallback_target,
        (SsaInstruction::Collapse, Instruction::Collapse) => true,
        (SsaInstruction::Select { max_ms: s_max_ms, cases: s_cases, timeout_target: s_timeout_target }, Instruction::Select { max_ms: f_max_ms, cases: f_cases, timeout_target: f_timeout_target }) => f_max_ms == s_max_ms && f_cases@ == flat_cases(s_cases@) && f_timeout_target == s_timeout_target,
        (SsaInstruction::MatchEntropy { target: s_target, valid_target: s_valid_target, decayed_target: s_decayed_target, pending_target: s_pending_target, consumed_target: s_consumed_target }, Instruction::MatchEntropy { target: f_target, valid_target: f_valid_target, decayed_target: f_decayed_target, pending_target: f_pending_target, consumed_target: f_consumed_target }) => f_target.0 == s_target.reg && f_valid_target == s_valid_target && f_decayed_target == s_decayed_target && f_pending_target == s_pending_target && f_consumed_target == s_consumed_target,
        (SsaInstruction::RelativisticBlock { target: s_target, block_pc: s_block_pc, block_len: s_block_len }, Instruction::RelativisticBlock { target: f_target, block_pc: f_block_pc, block_len: f_block_len }) => f_target == s_target && f_block_pc == s_block_pc && f_block_len == s_block_len,
        (SsaInstruction::SpeculationMode { mode: s_mode }, Instruction::SpeculationMode { mode: f_mode }) => f_mode == s_mode,
        (SsaInstruction::OpenChan { name: s_name, capacity: s_capacity, decay_after_ms: s_decay_after_ms }, Instruction::OpenChan { name: f_name, capacity: f_capacity, decay_after_ms: f_decay_after_ms }) => f_name == s_name && f_capacity == s_capacity && f_decay_after_ms == s_decay_after_ms,
        (SsaInstruction::ChanSend { chan_id: s_chan_id, src: s_src }, Instruction::ChanSend { chan_id: f_chan_id, src: f_src }) => f_chan_id == s_chan_id && f_src.0 == s_src.reg,
        (SsaInstruction::ChanRecv { dest: s_dest, chan_id: s_chan_id }, Instruction::ChanRecv { dest: f_dest, chan_id: f_chan_id }) => f_dest.0 == s_dest.reg && f_chan_id == s_chan_id,
        (SsaInstruction::AwaitChan { chan_id: s_chan_id }, Instruction::AwaitChan { chan_id: f_chan_id }) => f_chan_id == s_chan_id,
        (SsaInstruction::StructLit { dest: s_dest, fields: s_fields, type_label: s_type_label }, Instruction::StructLit { dest: f_dest, fields: f_fields, type_label: f_type_label }) => f_dest.0 == s_dest.reg && f_fields@ == flat_fields(s_fields@) && f_type_label == s_type_label,
        (SsaInstruction::TopologyLit { dest: s_dest, fields: s_fields }, Instruction::TopologyLit { dest: f_dest, fields: f_fields }) => f_dest.0 == s_dest.reg && f_fields@ == flat_fields(s_fields@),
        (SsaInstruction::ArrayLit { dest: s_dest, elements: s_elements }, Instruction::ArrayLit { dest: f_dest, elements: f_elements }) => f_dest.0 == s_dest.reg && f_elements@ == flat_seq(s_elements@),
        (SsaInstruction::ArrayRepeat { dest: s_dest, value: s_value, count: s_count }, Instruction::ArrayRepeat { dest: f_dest, value: f_value, count: f_count }) => f_dest.0 == s_dest.reg && f_value.0 == s_value.reg && f_count.0 == s_count.reg,
        (SsaInstruction::ArraySlice { dest: s_dest, target: s_target, start: s_start, end: s_end, inclusive: s_inclusive }, Instruction::ArraySlice { dest: f_dest, target: f_target, start: f_start, end: f_end, inclusive: f_inclusive }) => f_dest.0 == s_dest.reg && f_target.0 == s_target.reg && f_start == flat_opt(s_start) && f_end == flat_opt(s_end) && f_inclusive == s_inclusive,
        (SsaInstruction::FieldAccess { dest: s_dest, target: s_target, field: s_field }, Instruction::FieldAccess { dest: f_dest, target: f_target, field: f_field }) => f_dest.0 == s_dest.reg && f_target.0 == s_target.reg && f_field == s_field,
        (SsaInstruction::FieldUpdate { target: s_target, old_target: s_old_target, field: s_field, src: s_src }, Instruction::FieldUpdate { target: f_target, field: f_field, src: f_src }) => f_target.0 == s_target.reg && f_field == s_field && f_src.0 == s_src.reg,
        (SsaInstruction::IndexAccess { dest: s_dest, target: s_target, index: s_index }, Instruction::IndexAccess { dest: f_dest, target: f_target, index: f_index }) => f_dest.0 == s_dest.reg && f_target.0 == s_target.reg && f_index.0 == s_index.reg,
        (SsaInstruction::IndexFieldUpdate { target: s_target, old_target: s_old_target, index: s_index, field: s_field, src: s_src }, Instruction::IndexFieldUpdate { target: f_target, index: f_index, field: f_field, src: f_src }) => f_target.0 == s_target.reg && f_index.0 == s_index.reg && f_field == s_field && f_src.0 == s_src.reg,
        (SsaInstruction::AssertTime { op: s_op, limit_ms: s_limit_ms }, Instruction::AssertTime { op: f_op, limit_ms: f_limit_ms }) => f_op == s_op && f_limit_ms == s_limit_ms,
        (SsaInstruction::Capability { cap: s_cap }, Instruction::Capability { cap: f_cap }) => f_cap == s_cap,
        (SsaInstruction::For { dest_cond: s_dest_cond, item_reg: s_item_reg, item_name: s_item_name, mode: s_mode, source: s_source, pacing_ms: s_pacing_ms, max_ms: s_max_ms }, Instruction::For { dest_cond: f_dest_cond, item_reg: f_item_reg, item_name: f_item_name, mode: f_mode, source: f_source, pacing_ms: f_pacing_ms, max_ms: f_max_ms }) => f_dest_cond.0 == s_dest_cond.reg && f_item_reg.0 == s_item_reg.reg && f_item_name == s_item_name && f_mode == s_mode && f_source.0 == s_source.reg && f_pacing_ms == s_pacing_ms && f_max_ms == s_max_ms,
        (SsaInstruction::EndFor, Instruction::EndFor) => true,
        (SsaInstruction::SplitMap { item_reg: s_item_reg, item_name: s_item_name, mode: s_mode, source: s_source, reconcile: s_reconcile }, Instruction::SplitMap { item_reg: f_item_reg, item_name: f_item_name, mode: f_mode, source: f_source, reconcile: f_reconcile }) => f_item_reg.0 == s_item_reg.reg && f_item_name == s_item_name && f_mode == s_mode && f_source.0 == s_source.reg && f_reconcile == s_reconcile,
        (SsaInstruction::EndSplitMap, Instruction::EndSplitMap) => true,
        (SsaInstruction::Defer { dest: s_dest, cap: s_cap, deadline_ms: s_deadline_ms }, Instruction::Defer { dest: f_dest, cap: f_cap, deadline_ms: f_deadline_ms }) => f_dest.0 == s_dest.reg && f_cap == s_cap && f_deadline_ms == s_deadline_ms,
        (SsaInstruction::Await { target: s_target }, Instruction::Await { target: f_target }) => f_target.0 == s_target.reg,
        (SsaInstruction::Loop { max_ms: s_max_ms }, Instruction::Loop { max_ms: f_max_ms }) => f_max_ms == s_max_ms,
        (SsaInstruction::EndLoop { max_ms: s_max_ms }, Instruction::EndLoop { max_ms: f_max_ms }) => f_max_ms == s_max_ms,
        (SsaInstruction::Break, Instruction::Break) => true,
        (SsaInstruction::LoopTick, Instruction::LoopTick) => true,
        (SsaInstruction::EndLoopTick, Instruction::EndLoopTick) => true,
        (SsaInstruction::Jump { target: s_target }, Instruction::Jump { target: f_target }) => f_target == s_target,
        (SsaInstruction::JumpIf { cond: s_cond, target: s_target }, Instruction::JumpIf { cond: f_cond, target: f_target }) => f_cond.0 == s_cond.reg && f_target == s_target,
        (SsaInstruction::JumpIfNot { cond: s_cond, target: s_target }, Instruction::JumpIfNot { cond: f_cond, target: f_target }) => f_cond.0 == s_cond.reg && f_target == s_target,
        (SsaInstruction::While { max_ms: s_max_ms }, Instruction::While { max_ms: f_max_ms }) => f_max_ms == s_max_ms,
        (SsaInstruction::EndWhile { max_ms: s_max_ms }, Instruction::EndWhile { max_ms: f_max_ms }) => f_max_ms == s_max_ms,
        (SsaInstruction::ForStep { dest_cond: s_dest_cond, item_reg: s_item_reg, item_name: s_item_name, source: s_source, step_ms: s_step_ms }, Instruction::ForStep { dest_cond: f_dest_cond, item_reg: f_item_reg, item_name: f_item_name, source: f_source, step_ms: f_step_ms }) => f_dest_cond.0 == s_dest_cond.reg && f_item_reg.0 == s_item_reg.reg && f_item_name == s_item_name && f_source.0 == s_source.reg && f_step_ms == s_step_ms,
        (SsaInstruction::EndForStep, Instruction::EndForStep) => true,
        (SsaInstruction::ArrayLen { dest: s_dest, src: s_src }, Instruction::ArrayLen { dest: f_dest, src: f_src }) => f_dest.0 == s_dest.reg && f_src.0 == s_src.reg,
        (SsaInstruction::LoopTickOn { chan_id: s_chan_id }, Instruction::LoopTickOn { chan_id: f_chan_id }) => f_chan_id == s_chan_id,
        (SsaInstruction::Syscall { dest: s_dest, target: s_target, args: s_args, duration_ms: s_duration_ms }, Instruction::Syscall { dest: f_dest, target: f_target, args: f_args, duration_ms: f_duration_ms }) => f_dest.0 == s_dest.reg && f_target == s_target && f_args@ == flat_seq(s_args@) && f_duration_ms == s_duration_ms,
        (SsaInstruction::AutoDrop { target: s_target, spec: s_spec }, Instruction::AutoDrop { target: f_target, spec: f_spec }) => f_target.0 == s_target.reg && f_spec == s_spec,
        (SsaInstruction::SetSaturationPolicy { target: s_target, policy: s_policy }, Instruction::SetSaturationPolicy { target: f_target, policy: f_policy }) => f_target == s_target && f_policy == s_policy,
        (SsaInstruction::PeriodicEpoch { interval_ms: s_interval_ms, block_pc: s_block_pc, block_len: s_block_len }, Instruction::PeriodicEpoch { interval_ms: f_interval_ms, block_pc: f_block_pc, block_len: f_block_len }) => f_interval_ms == s_interval_ms && f_block_pc == s_block_pc && f_block_len == s_block_len,
        (SsaInstruction::EndPeriodicEpoch { interval_ms: s_interval_ms }, Instruction::EndPeriodicEpoch { interval_ms: f_interval_ms }) => f_interval_ms == s_interval_ms,
        (SsaInstruction::FreezeBaseWatermark, Instruction::FreezeBaseWatermark) => true,
        (SsaInstruction::ResetBaseWatermark, Instruction::ResetBaseWatermark) => true,
        (SsaInstruction::ArenaIntrospect { dest: s_dest, kind: s_kind }, Instruction::ArenaIntrospect { dest: f_dest, kind: f_kind }) => f_dest.0 == s_dest.reg && f_kind == s_kind,
        (SsaInstruction::CapabilityCheck { dest: s_dest, capability: s_capability }, Instruction::CapabilityCheck { dest: f_dest, capability: f_capability }) => f_dest.0 == s_dest.reg && f_capability == s_capability,
        _ => false,
    }
}

/// Drops register versions: the flat instruction that `s` stands for.
pub fn ssa_instr_to_instr(s: &SsaInstruction) -> (f: Instruction)
    requires
        !(*s is Other),
    ensures
        erases_to(*s, f),
{
    match s {
        SsaInstruction::BinaryOp { dest: dest, op: op, left: left, right: right } => Instruction::BinaryOp { dest: Reg(dest.reg), op: *op, left: Reg(left.reg), right: Reg(right.reg) },
        SsaInstruction::UnaryOp { dest: dest, op: op, src: src } => Instruction::UnaryOp { dest: Reg(dest.reg), op: *op, src: Reg(src.reg) },
        SsaInstruction::LoadInt { dest: dest, value: value } => Instruction::LoadInt { dest: Reg(dest.reg), value: *value },
        SsaInstruction::LoadFloat { dest: dest, value: value } => Instruction::LoadFloat { dest: Reg(dest.reg), value: *value },
        SsaInstruction::LoadBool { dest: dest, value: value } => Instruction::LoadBool { dest: Reg(dest.reg), value: *value },
        SsaInstruction::LoadString { dest: dest, value: value } => Instruction::LoadString { dest: Reg(dest.reg), value: value.clone() },
        SsaInstruction::LoadNull { dest: dest } => Instruction::LoadNull { dest: Reg(dest.reg) },
        SsaInstruction::ConstInt { dest: dest, value: value } => Instruction::ConstInt { dest: Reg(dest.reg), value: *value },
        SsaInstruction::ConstFloat { dest: dest, value: value } => Instruction::ConstFloat { dest: Reg(dest.reg), value: *value },
        SsaInstruction::ConstBool { dest: dest, value: value } => Instruction::ConstBool { dest: Reg(dest.reg), value: *value },
        SsaInstruction::ConstString { dest: dest, value: value } => Instruction::ConstString { dest: Reg(dest.reg), value: value.clone() },
        SsaInstruction::ConstNull { dest: dest } => Instruction::ConstNull { dest: Reg(dest.reg) },
        SsaInstruction::Move { dest: dest, src: src } => Instruction::Move { dest: Reg(dest.reg), src: Reg(src.reg) },
        SsaInstruction::Consume { src: src } => Instruction::Consume { src: Reg(src.reg) },
        SsaInstruction::ConsumeField { src: src, field: field } => Instruction::ConsumeField { src: Reg(src.reg), field: field.clone() },
        SsaInstruction::ConsumeFieldDynamic { target: target, index: index } => Instruction::ConsumeFieldDynamic { target: Reg(target.reg), index: Reg(index.reg) },
        SsaInstruction::Clone { dest: dest, src: src } => Instruction::Clone { dest: Reg(dest.reg), src: Reg(src.reg) },
        SsaInstruction::StrBytes { dest: dest, src: src } => Instruction::StrBytes { dest: Reg(dest.reg), src: Reg(src.reg) },
        SsaInstruction::ToStr { dest: dest, src: src } => Instruction::ToStr { dest: Reg(dest.reg), src: Reg(src.reg) },
        SsaInstruction::ConditionalSelect { dest: dest, cond: cond, true_val: true_val, false_val: false_val } => Instruction::ConditionalSelect { dest: Reg(dest.reg), cond: Reg(cond.reg), true_val: Reg(true_val.reg), false_val: Reg(false_val.reg) },
        SsaInstruction::Call { routine: routine, args: args, dest: dest } => Instruction::Call { routine: routine.clone(), args: flatten_regs(args), dest: Reg(dest.reg) },
        SsaInstruction::DynamicCall { method: method, args: args, dest: dest, budget: budget } => Instruction::DynamicCall { method: method.clone(), args: flatten_regs(args), dest: Reg(dest.reg), budget: *budget },
        SsaInstruction::TypeAssert { dest: dest, src: src, type_label: type_label } => Instruction::TypeAssert { dest: Reg(dest.reg), src: Reg(src.reg), type_label: type_label.clone() },
        SsaInstruction::TypeCast { dest: dest, src: src, target_type: target_type } => Instruction::TypeCast { dest: Reg(dest.reg), src: Reg(src.reg), target_type: target_type.duplicate() },
        SsaInstruction::AssertState { src: src, state: state } => Instruction::AssertState { src: Reg(src.reg), state: state.clone() },
        SsaInstruction::TryTypeAssert { dest: dest, src: src, type_label: type_label, success: success } => Instruction::TryTypeAssert { dest: Reg(dest.reg), src: Reg(src.reg), type_label: type_label.clone(), success: Reg(success.reg) },
        SsaInstruction::TryEnumVariant { dest: dest, src: src, enum_name: enum_name, variant_name: variant_name, success: success } => Instruction::TryEnumVariant { dest: Reg(dest.reg), src: Reg(src.reg), enum_name: copy_option_string(enum_name), variant_name: variant_name.clone(), success: Reg(success.reg) },
        SsaInstruction::Print { src: src } => Instruction::Print { src: Reg(src.reg) },
        SsaInstruction::Debug { src: src } => Instruction::Debug { src: Reg(src.reg) },
        SsaInstruction::Slice { ms: ms } => Instruction::Slice { ms: *ms },
        SsaInstruction::Isolate { name: name, manifest: manifest } => Instruction::Isolate { name: name.clone(), manifest: manifest.duplicate() },
        SsaInstruction::EndIsolate => Instruction::EndIsolate,
        SsaInstruction::Lease { target_reg: target_reg, source_reg: source_reg, duration_ms: duration_ms } => Instruction::Lease { target_reg: Reg(target_reg.reg), source_reg: Reg(source_reg.reg), duration_ms: *duration_ms },
        SsaInstruction::EndLease { source_reg: source_reg, duration_ms: duration_ms } => Instruction::EndLease { source_reg: Reg(source_reg.reg), duration_ms: *duration_ms },
        SsaInstruction::Split { parent: parent, branches: branches } => Instruction::Split { parent: parent.clone(), branches: copy_strings(branches) },
        SsaInstruction::Merge { branches: branches, target: target, resolution: resolution } => Instruction::Merge { branches: copy_strings(branches), target: target.clone(), resolution: resolution.duplicate() },
        SsaInstruction::Entangle { regs: regs } => Instruction::Entangle { regs: flatten_regs(regs) },
        SsaInstruction::SetEntropyMode { mode: mode } => Instruction::SetEntropyMode { mode: *mode },
        SsaInstruction::Anchor { name: name } => Instruction::Anchor { name: name.clone() },
        SsaInstruction::Rewind { target: target, anchor: anchor } => Instruction::Rewind { target: target.clone(), anchor: anchor.clone() },
        SsaInstruction::Commit { vars: vars } => Instruction::Commit { vars: copy_strings(vars) },
        SsaInstruction::Watchdog { target: target, timeout_ms: timeout_ms, recovery_jump: recovery_jump } => Instruction::Watchdog { target: target.clone(), timeout_ms: *timeout_ms, recovery_jump: *recovery_jump },
        SsaInstruction::Speculate { max_ms: max_ms, fallback_target: fallback_target } => Instruction::Speculate { max_ms: *max_ms, fallback_target: *fallback_target },
        SsaInstruction::EndSpeculate { max_ms: max_ms, fallback_target: fallback_target } => Instruction::EndSpeculate { max_ms: *max_ms, fallback_target: *fallback_target },
        SsaInstruction::Collapse => Instruction::Collapse,
        SsaInstruction::Select { max_ms: max_ms, cases: cases, timeout_target: timeout_target } => Instruction::Select { max_ms: *max_ms, cases: flatten_cases(cases), timeout_target: *timeout_target },
        SsaInstruction::MatchEntropy { target: target, valid_target: valid_target, decayed_target: decayed_target, pending_target: pending_target, consumed_target: consumed_target } => Instruction::MatchEntropy { target: Reg(target.reg), valid_target: *valid_target, decayed_target: *decayed_target, pending_target: *pending_target, consumed_target: *consumed_target },
        SsaInstruction::RelativisticBlock { target: target, block_pc: block_pc, block_len: block_len } => Instruction::RelativisticBlock { target: target.clone(), block_pc: *block_pc, block_len: *block_len },
        SsaInstruction::SpeculationMode { mode: mode } => Instruction::SpeculationMode { mode: *mode },
        SsaInstruction::OpenChan { name: name, capacity: capacity, decay_after_ms: decay_after_ms } => Instruction::OpenChan { name: name.clone(), capacity: *capacity, decay_after_ms: *decay_after_ms },
        SsaInstruction::ChanSend { chan_id: chan_id, src: src } => Instruction::ChanSend { chan_id: chan_id.clone(), src: Reg(src.reg) },
        SsaInstruction::ChanRecv { dest: dest, chan_id: chan_id } => Instruction::ChanRecv { dest: Reg(dest.reg), chan_id: chan_id.clone() },
        SsaInstruction::AwaitChan { chan_id: chan_id } => Instruction::AwaitChan { chan_id: chan_id.clone() },
        SsaInstruction::StructLit { dest: dest, fields: fields, type_label: type_label } => Instruction::StructLit { dest: Reg(dest.reg), fields: flatten_fields(fields), type_label: copy_option_string(type_label) },
        SsaInstruction::TopologyLit { dest: dest, fields: fields } => Instruction::TopologyLit { dest: Reg(dest.reg), fields: flatten_fields(fields) },
        SsaInstruction::ArrayLit { dest: dest, elements: elements } => Instruction::ArrayLit { dest: Reg(dest.reg), elements: flatten_regs(elements) },
        SsaInstruction::ArrayRepeat { dest: dest, value: value, count: count } => Instruction::ArrayRepeat { dest: Reg(dest.reg), value: Reg(value.reg), count: Reg(count.reg) },
        SsaInstruction::ArraySlice { dest: dest, target: target, start: start, end: end, inclusive: inclusive } => Instruction::ArraySlice { dest: Reg(dest.reg), target: Reg(target.reg), start: flatten_opt(start), end: flatten_opt(end), inclusive: *inclusive },
        SsaInstruction::FieldAccess { dest: dest, target: target, field: field } => Instruction::FieldAccess { dest: Reg(dest.reg), target: Reg(target.reg), field: field.clone() },
        SsaInstruction::FieldUpdate { target: target, old_target: old_target, field: field, src: src } => Instruction::FieldUpdate { target: Reg(target.reg), field: field.clone(), src: Reg(src.reg) },
        SsaInstruction::IndexAccess { dest: dest, target: target, index: index } => Instruction::IndexAccess { dest: Reg(dest.reg), target: Reg(target.reg), index: Reg(index.reg) },
        SsaInstruction::IndexFieldUpdate { target: target, old_target: old_target, index: index, field: field, src: src } => Instruction::IndexFieldUpdate { target: Reg(target.reg), index: Reg(index.reg), field: field.clone(), src: Reg(src.reg) },
        SsaInstruction::AssertTime { op: op, limit_ms: limit_ms } => Instruction::AssertTime { op: *op, limit_ms: *limit_ms },
        SsaInstruction::Capability { cap: cap } => Instruction::Capability { cap: cap.duplicate() },
        SsaInstruction::For { dest_cond: dest_cond, item_reg: item_reg, item_name: item_name, mode: mode, source: source, pacing_ms: pacing_ms, max_ms: max_ms } => Instruction::For { dest_cond: Reg(dest_cond.reg), item_reg: Reg(item_reg.reg), item_name: item_name.clone(), mode: *mode, source: Reg(source.reg), pacing_ms: *pacing_ms, max_ms: *max_ms },
        SsaInstruction::EndFor => Instruction::EndFor,
        SsaInstruction::SplitMap { item_reg: item_reg, item_name: item_name, mode: mode, source: source, reconcile: reconcile } => Instruction::SplitMap { item_reg: Reg(item_reg.reg), item_name: item_name.clone(), mode: *mode, source: Reg(source.reg), reconcile: copy_option_resolution(reconcile) },
        SsaInstruction::EndSplitMap => Instruction::EndSplitMap,
        SsaInstruction::Defer { dest: dest, cap: cap, deadline_ms: deadline_ms } => Instruction::Defer { dest: Reg(dest.reg), cap: cap.duplicate(), deadline_ms: *deadline_ms },
        SsaInstruction::Await { target: target } => Instruction::Await { target: Reg(target.reg) },
        SsaInstruction::Loop { max_ms: max_ms } => Instruction::Loop { max_ms: *max_ms },
        SsaInstruction::EndLoop { max_ms: max_ms } => Instruction::EndLoop { max_ms: *max_ms },
        SsaInstruction::Break => Instruction::Break,
        SsaInstruction::LoopTick => Instruction::LoopTick,
        SsaInstruction::EndLoopTick => Instruction::EndLoopTick,
        SsaInstruction::Jump { target: target } => Instruction::Jump { target: *target },
        SsaInstruction::JumpIf { cond: cond, target: target } => Instruction::JumpIf { cond: Reg(cond.reg), target: *target },
        SsaInstruction::JumpIfNot { cond: cond, target: target } => Instruction::JumpIfNot { cond: Reg(cond.reg), target: *target },
        SsaInstruction::While { max_ms: max_ms } => Instruction::While { max_ms: *max_ms },
        SsaInstruction::EndWhile { max_ms: max_ms } => Instruction::EndWhile { max_ms: *max_ms },
        SsaInstruction::ForStep { dest_cond: dest_cond, item_reg: item_reg, item_name: item_name, source: source, step_ms: step_ms } => Instruction::ForStep { dest_cond: Reg(dest_cond.reg), item_reg: Reg(item_reg.reg), item_name: item_name.clone(), source: Reg(source.reg), step_ms: *step_ms },
        SsaInstruction::EndForStep => Instruction::EndForStep,
        SsaInstruction::ArrayLen { dest: dest, src: src } => Instruction::ArrayLen { dest: Reg(dest.reg), src: Reg(src.reg) },
        SsaInstruction::LoopTickOn { chan_id: chan_id } => Instruction::LoopTickOn { chan_id: chan_id.clone() },
        SsaInstruction::Syscall { dest: dest, target: target, args: args, duration_ms: duration_ms } => Instruction::Syscall { dest: Reg(dest.reg), target: target.duplicate(), args: flatten_regs(args), duration_ms: *duration_ms },
        SsaInstruction::AutoDrop { target: target, spec: spec } => Instruction::AutoDrop { target: Reg(target.reg), spec: spec.duplicate() },
        SsaInstruction::SetSaturationPolicy { target: target, policy: policy } => Instruction::SetSaturationPolicy { target: target.duplicate(), policy: policy.duplicate() },
        SsaInstruction::PeriodicEpoch { interval_ms: interval_ms, block_pc: block_pc, block_len: block_len } => Instruction::PeriodicEpoch { interval_ms: *interval_ms, block_pc: *block_pc, block_len: *block_len },
        SsaInstruction::EndPeriodicEpoch { interval_ms: interval_ms } => Instruction::EndPeriodicEpoch { interval_ms: *interval_ms },
        SsaInstruction::FreezeBaseWatermark => Instruction::FreezeBaseWatermark,
        SsaInstruction::ResetBaseWatermark => Instruction::ResetBaseWatermark,
        SsaInstruction::ArenaIntrospect { dest: dest, kind: kind } => Instruction::ArenaIntrospect { dest: Reg(dest.reg), kind: kind.duplicate() },
        SsaInstruction::CapabilityCheck { dest: dest, capability: capability } => Instruction::CapabilityCheck { dest: Reg(dest.reg), capability: capability.duplicate() },
        SsaInstruction::Other(_) => Instruction::EndIsolate,
    }
}

} // verus!

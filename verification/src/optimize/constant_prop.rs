//! Constant propagation: registers whose value is known at compile time are
//! found by repeated sweeps, computations of them become loads of the
//! value, and branches on a known condition become jumps.

use vstd::prelude::*;
use std::collections::{HashMap, HashSet};
use crate::ir::{BinaryOperator};
use crate::ssa::{SsaReg, SsaCFG, SsaBasicBlock, SsaPhiNode, SsaTerminator, SsaSelectCase, copy_ssa_cases};
use crate::ssa::instruction::{SsaInstruction, same_ssa_instr, spec_ssa_defined_reg};
use crate::blockmap::{BlockId, BlockMap};
use crate::optimize::copy_prop::{reg_key, key_of, lemma_reg_key_injective, opt_reg_seq, lemma_distinct_within};
use crate::optimize::fold::{SsaConstant, same_const, copy_const, const_eq, fold_binary_op, fold_unary_op, fold_int, fold_bool, fold_unary, fold_binary_rel};
use crate::optimize::{OptimizationPass, lemma_same_keys_wf};

verus! {

broadcast use vstd::std_specs::hash::group_hash_axioms;

/// Known constants by register, with the registers in the order they became
/// known.
pub struct ConstMap {
    pub map: HashMap<u64, SsaConstant>,
    pub keys: Vec<SsaReg>,
}

impl ConstMap {
    pub open spec fn view(&self) -> Map<SsaReg, SsaConstant> {
        Map::new(|r: SsaReg| self.map@.contains_key(reg_key(r)), |r: SsaReg| self.map@[reg_key(r)])
    }

    pub open spec fn wf(&self) -> bool {
        &&& self.keys@.no_duplicates()
        &&& forall|r: SsaReg| #[trigger] self.map@.contains_key(reg_key(r)) <==> self.keys@.contains(r)
    }

    pub fn new() -> (c: Self)
        ensures
            c.wf(),
            c.view() == Map::<SsaReg, SsaConstant>::empty(),
            c.keys@.len() == 0,
    {
        let c = ConstMap { map: HashMap::new(), keys: Vec::new() };
        assert(c.view() =~= Map::<SsaReg, SsaConstant>::empty());
        c
    }

    pub fn get(&self, r: SsaReg) -> (o: Option<&SsaConstant>)
        ensures
            match o {
                Some(v) => self.view().contains_key(r) && *v == self.view()[r],
                None => !self.view().contains_key(r),
            },
    {
        self.map.get(&key_of(r))
    }

    /// Stores `v` under `r`; says whether `r` was new.
    pub fn insert(&mut self, r: SsaReg, v: SsaConstant) -> (was_new: bool)
        requires
            old(self).wf(),
        ensures
            final(self).wf(),
            final(self).view() == old(self).view().insert(r, v),
            was_new == !old(self).view().contains_key(r),
            !was_new ==> final(self).keys@ == old(self).keys@,
            was_new ==> final(self).keys@ == old(self).keys@.push(r),
    {
        let k = key_of(r);
        let was_new = !self.map.contains_key(&k);
        if was_new {
            self.keys.push(r);
        }
        self.map.insert(k, v);
        proof {
            if was_new {
                assert(!old(self).keys@.contains(r));
                assert forall|a: int, b: int| 0 <= a < self.keys@.len() && 0 <= b < self.keys@.len() && a != b implies self.keys@[a] != self.keys@[b] by {
                    if a == self.keys@.len() - 1 {
                        assert(old(self).keys@.contains(self.keys@[b]) || b == a);
                    } else if b == self.keys@.len() - 1 {
                        assert(old(self).keys@[a] == self.keys@[a]);
                    }
                }
            }
            assert forall|q: SsaReg| #[trigger] self.map@.contains_key(reg_key(q)) <==> self.keys@.contains(q) by {
                lemma_reg_key_injective(q, r);
                if q != r {
                    if old(self).keys@.contains(q) {
                        let i = choose|i: int| 0 <= i < old(self).keys@.len() && old(self).keys@[i] == q;
                        assert(self.keys@[i] == q);
                    }
                    if self.keys@.contains(q) && !old(self).keys@.contains(q) {
                        let i = choose|i: int| 0 <= i < self.keys@.len() && self.keys@[i] == q;
                        assert(i < old(self).keys@.len() ==> old(self).keys@[i] == q);
                    }
                } else {
                    if old(self).map@.contains_key(reg_key(r)) {
                        assert(old(self).keys@.contains(r));
                    } else {
                        assert(self.keys@[self.keys@.len() - 1] == r);
                    }
                }
            }
            assert forall|q: SsaReg| self.view().contains_key(q) == old(self).view().insert(r, v).contains_key(q) by {
                lemma_reg_key_injective(q, r);
            }
            assert forall|q: SsaReg| self.view().contains_key(q) implies self.view()[q] == old(self).view().insert(r, v)[q] by {
                lemma_reg_key_injective(q, r);
            }
            assert(self.view() =~= old(self).view().insert(r, v));
        }
        was_new
    }
}

/// Registers defined by the instructions, in order.
pub open spec fn instr_defs(s: Seq<SsaInstruction>) -> Seq<SsaReg>
    decreases s.len(),
{
    if s.len() == 0 {
        Seq::empty()
    } else {
        instr_defs(s.drop_last()) + opt_reg_seq(spec_ssa_defined_reg(&s.last()))
    }
}

pub open spec fn block_defs_seq(b: SsaBasicBlock) -> Seq<SsaReg> {
    instr_defs(b.instructions@) + b.phi_nodes@.map_values(|p: SsaPhiNode| p.dest)
}

/// Registers defined in the first `k` blocks.
pub open spec fn cfg_defs(es: Seq<(BlockId, SsaBasicBlock)>, k: int) -> Seq<SsaReg>
    decreases k,
{
    if k <= 0 {
        Seq::empty()
    } else {
        cfg_defs(es, k - 1) + block_defs_seq(es[k - 1].1)
    }
}

proof fn lemma_instr_defs(s: Seq<SsaInstruction>, j: int, d: SsaReg)
    requires
        0 <= j < s.len(),
        spec_ssa_defined_reg(&s[j]) == Some(d),
    ensures
        instr_defs(s).contains(d),
    decreases s.len(),
{
    if j == s.len() - 1 {
        let a = instr_defs(s.drop_last());
        assert(instr_defs(s)[a.len() as int] == d);
    } else {
        assert(s.drop_last()[j] == s[j]);
        lemma_instr_defs(s.drop_last(), j, d);
        let a = instr_defs(s.drop_last());
        let q = choose|q: int| 0 <= q < a.len() && a[q] == d;
        assert(instr_defs(s)[q] == d);
    }
}

proof fn lemma_cfg_defs(es: Seq<(BlockId, SsaBasicBlock)>, k: int, i: int, d: SsaReg)
    requires
        0 <= i < k <= es.len(),
        block_defs_seq(es[i].1).contains(d),
    ensures
        cfg_defs(es, k).contains(d),
    decreases k,
{
    let a = cfg_defs(es, k - 1);
    let b = block_defs_seq(es[k - 1].1);
    assert(cfg_defs(es, k) == a + b);
    if i == k - 1 {
        let q = choose|q: int| 0 <= q < b.len() && b[q] == d;
        assert((a + b)[a.len() + q] == d);
    } else {
        lemma_cfg_defs(es, k - 1, i, d);
        let q = choose|q: int| 0 <= q < a.len() && a[q] == d;
        assert((a + b)[q] == d);
    }
}

/// A register is defined in the graph, by an instruction or a phi node.
pub open spec fn defined_in(cfg: SsaCFG, d: SsaReg) -> bool {
    cfg_defs(cfg.blocks.entries@, cfg.blocks.entries@.len() as int).contains(d)
}

proof fn lemma_instr_defined(cfg: SsaCFG, i: int, j: int, d: SsaReg)
    requires
        0 <= i < cfg.blocks.entries@.len(),
        0 <= j < cfg.blocks.entries@[i].1.instructions@.len(),
        spec_ssa_defined_reg(&cfg.blocks.entries@[i].1.instructions@[j]) == Some(d),
    ensures
        defined_in(cfg, d),
{
    let b = cfg.blocks.entries@[i].1;
    lemma_instr_defs(b.instructions@, j, d);
    let a = instr_defs(b.instructions@);
    let q = choose|q: int| 0 <= q < a.len() && a[q] == d;
    assert(block_defs_seq(b)[q] == d);
    lemma_cfg_defs(cfg.blocks.entries@, cfg.blocks.entries@.len() as int, i, d);
}

proof fn lemma_phi_defined(cfg: SsaCFG, i: int, j: int)
    requires
        0 <= i < cfg.blocks.entries@.len(),
        0 <= j < cfg.blocks.entries@[i].1.phi_nodes@.len(),
    ensures
        defined_in(cfg, cfg.blocks.entries@[i].1.phi_nodes@[j].dest),
{
    let b = cfg.blocks.entries@[i].1;
    let a = instr_defs(b.instructions@);
    assert(block_defs_seq(b)[a.len() + j] == b.phi_nodes@[j].dest);
    lemma_cfg_defs(cfg.blocks.entries@, cfg.blocks.entries@.len() as int, i, b.phi_nodes@[j].dest);
}

/// The load that stands for constant `c` stored into `d`.
pub open spec fn load_of(d: SsaReg, c: SsaConstant, s: SsaInstruction) -> bool {
    match c {
        SsaConstant::Int(v) => s == SsaInstruction::LoadInt { dest: d, value: v },
        SsaConstant::Float(v) => s == SsaInstruction::LoadFloat { dest: d, value: v },
        SsaConstant::Bool(v) => s == SsaInstruction::LoadBool { dest: d, value: v },
        SsaConstant::Str(v) => s matches SsaInstruction::LoadString { dest, value } && dest == d && value@ == v@,
        SsaConstant::Null => s == SsaInstruction::LoadNull { dest: d },
    }
}

/// The register a computation or copy defines: the instructions that
/// constant propagation may turn into loads.
pub open spec fn foldable_dest(s: SsaInstruction) -> Option<SsaReg> {
    match s {
        SsaInstruction::BinaryOp { dest, .. } => Some(dest),
        SsaInstruction::UnaryOp { dest, .. } => Some(dest),
        SsaInstruction::Move { dest, .. } => Some(dest),
        _ => None,
    }
}

/// `b` is `a` with a computation of a known register turned into a load of
/// its value.
pub open spec fn const_instr(a: SsaInstruction, b: SsaInstruction, m: Map<SsaReg, SsaConstant>) -> bool {
    match foldable_dest(a) {
        Some(d) => if m.contains_key(d) {
            load_of(d, m[d], b)
        } else {
            same_ssa_instr(b, a)
        },
        None => same_ssa_instr(b, a),
    }
}

/// A branch on a known condition becomes a jump to the side it takes.
pub open spec fn const_term(a: SsaTerminator, b: SsaTerminator, m: Map<SsaReg, SsaConstant>) -> bool {
    match a {
        SsaTerminator::Branch { cond, then_block, else_block } => if m.contains_key(cond) && m[cond] is Bool {
            b == SsaTerminator::Jump { target: if m[cond]->Bool_0 { then_block } else { else_block } }
        } else {
            b == a
        },
        _ => same_ssa_term(b, a),
    }
}

/// Deep equality of terminators.
pub open spec fn same_ssa_term(a: SsaTerminator, b: SsaTerminator) -> bool {
    match (a, b) {
        (SsaTerminator::Select { max_ms: m1, cases: c1, timeout_block: t1 }, SsaTerminator::Select { max_ms: m2, cases: c2, timeout_block: t2 }) =>
            m1 == m2 && c1@ == c2@ && t1 == t2,
        _ => a == b,
    }
}

pub open spec fn same_phi(a: SsaPhiNode, b: SsaPhiNode) -> bool {
    a.dest == b.dest && a.original_reg == b.original_reg && a.incoming@ == b.incoming@
}

pub open spec fn const_block(a: SsaBasicBlock, b: SsaBasicBlock, m: Map<SsaReg, SsaConstant>) -> bool {
    &&& b.id == a.id
    &&& b.phi_nodes@.len() == a.phi_nodes@.len()
    &&& forall|j: int| 0 <= j < a.phi_nodes@.len() ==> same_phi(#[trigger] b.phi_nodes@[j], a.phi_nodes@[j])
    &&& b.instructions@.len() == a.instructions@.len()
    &&& forall|k: int| 0 <= k < a.instructions@.len() ==> const_instr(a.instructions@[k], #[trigger] b.instructions@[k], m)
    &&& const_term(a.terminator, b.terminator, m)
}

/// `b` is `a` rewritten with the known constants `m`.
pub open spec fn const_cfg(a: SsaCFG, b: SsaCFG, m: Map<SsaReg, SsaConstant>) -> bool {
    &&& b.entry_block == a.entry_block
    &&& b.original_pc_to_block_id@ == a.original_pc_to_block_id@
    &&& b.blocks.entries@.len() == a.blocks.entries@.len()
    &&& forall|i: int| 0 <= i < a.blocks.entries@.len() ==> (#[trigger] b.blocks.entries@[i]).0 == a.blocks.entries@[i].0
        && const_block(a.blocks.entries@[i].1, b.blocks.entries@[i].1, m)
}

/// The instruction computes or copies a known register.
pub open spec fn folds_known(s: SsaInstruction, m: Map<SsaReg, SsaConstant>) -> bool {
    match foldable_dest(s) {
        Some(d) => m.contains_key(d),
        None => false,
    }
}

/// Something in the block is rewritten.
pub open spec fn const_block_changes(a: SsaBasicBlock, m: Map<SsaReg, SsaConstant>) -> bool {
    ||| exists|k: int| 0 <= k < a.instructions@.len() && folds_known(#[trigger] a.instructions@[k], m)
    ||| (a.terminator matches SsaTerminator::Branch { cond, .. } && m.contains_key(cond) && m[cond] is Bool)
}

/// A binary operator folds two known constants, floats aside.
pub open spec fn binary_foldable(op: BinaryOperator, l: SsaConstant, r: SsaConstant) -> bool {
    match (l, r) {
        (SsaConstant::Int(a), SsaConstant::Int(b)) => fold_int(op, a, b) is Some,
        (SsaConstant::Bool(a), SsaConstant::Bool(b)) => fold_bool(op, a, b) is Some,
        (SsaConstant::Str(_), SsaConstant::Str(_)) => op == BinaryOperator::Add || op == BinaryOperator::Eq || op == BinaryOperator::Neq,
        _ => false,
    }
}

/// `c` is the constant that instruction `s` gives its destination when the
/// registers of `m` are known: its literal, the value it copies, or the fold
/// of its operands (float operands by what `float_fold` returns).
pub open spec fn instr_value_ok<F: Fn(BinaryOperator, u64, u64) -> Option<SsaConstant>>(s: SsaInstruction, m: Map<SsaReg, SsaConstant>, c: SsaConstant, float_fold: F) -> bool {
    match s {
        SsaInstruction::LoadInt { value, .. } | SsaInstruction::ConstInt { value, .. } => c == SsaConstant::Int(value),
        SsaInstruction::LoadFloat { value, .. } | SsaInstruction::ConstFloat { value, .. } => c == SsaConstant::Float(value),
        SsaInstruction::LoadBool { value, .. } | SsaInstruction::ConstBool { value, .. } => c == SsaConstant::Bool(value),
        SsaInstruction::LoadString { value, .. } | SsaInstruction::ConstString { value, .. } => c == SsaConstant::Str(value),
        SsaInstruction::LoadNull { .. } | SsaInstruction::ConstNull { .. } => c == SsaConstant::Null,
        SsaInstruction::Move { src, .. } | SsaInstruction::Clone { src, .. } => m.contains_key(src) && c == m[src],
        SsaInstruction::UnaryOp { op, src, .. } => m.contains_key(src) && fold_unary(op, m[src]) == Some(c),
        SsaInstruction::BinaryOp { op, left, right, .. } => m.contains_key(left) && m.contains_key(right) && match (m[left], m[right]) {
            (SsaConstant::Float(a), SsaConstant::Float(b)) => float_fold.ensures((op, a, b), Some(c)),
            _ => fold_binary_rel(op, m[left], m[right], Some(c)),
        },
        _ => false,
    }
}

/// Instruction `s` gives its destination a constant when the registers of
/// `m` are known, whatever the float folder does: a literal, a copy of a
/// known register, or a fold of known operands that is defined.
pub open spec fn instr_gives(s: SsaInstruction, m: Map<SsaReg, SsaConstant>) -> bool {
    match s {
        SsaInstruction::LoadInt { .. } | SsaInstruction::ConstInt { .. } | SsaInstruction::LoadFloat { .. }
        | SsaInstruction::ConstFloat { .. } | SsaInstruction::LoadBool { .. } | SsaInstruction::ConstBool { .. }
        | SsaInstruction::LoadString { .. } | SsaInstruction::ConstString { .. } | SsaInstruction::LoadNull { .. }
        | SsaInstruction::ConstNull { .. } => true,
        SsaInstruction::Move { src, .. } | SsaInstruction::Clone { src, .. } => m.contains_key(src),
        SsaInstruction::UnaryOp { op, src, .. } => m.contains_key(src) && fold_unary(op, m[src]) is Some,
        SsaInstruction::BinaryOp { op, left, right, .. } => m.contains_key(left) && m.contains_key(right) && binary_foldable(op, m[left], m[right]),
        _ => false,
    }
}

/// Known register `x` holds what one of its definitions gives it: an
/// instruction (see `instr_value_ok`), or a phi node whose incoming values
/// are all known and the same constant.
pub open spec fn const_justified<F: Fn(BinaryOperator, u64, u64) -> Option<SsaConstant>>(cfg: SsaCFG, m: Map<SsaReg, SsaConstant>, x: SsaReg, float_fold: F) -> bool {
    let e = cfg.blocks.entries@;
    ||| exists|i: int, k: int| 0 <= i < e.len() && 0 <= k < e[i].1.instructions@.len()
        && spec_ssa_defined_reg(&e[i].1.instructions@[k]) == Some(x)
        && #[trigger] instr_value_ok(e[i].1.instructions@[k], m, m[x], float_fold)
    ||| exists|i: int, j: int| 0 <= i < e.len() && 0 <= j < e[i].1.phi_nodes@.len()
        && (#[trigger] e[i].1.phi_nodes@[j]).dest == x && phi_agrees(e[i].1.phi_nodes@[j].incoming@, m)
        && m[x] == m[e[i].1.phi_nodes@[j].incoming@[0].1]
}

/// Every known register holds what one of its definitions gives it.
pub open spec fn consts_sound<F: Fn(BinaryOperator, u64, u64) -> Option<SsaConstant>>(cfg: SsaCFG, m: Map<SsaReg, SsaConstant>, float_fold: F) -> bool {
    forall|x: SsaReg| #[trigger] m.contains_key(x) ==> const_justified(cfg, m, x, float_fold)
}

/// The instruction gives nothing, or its destination is known.
pub open spec fn instr_done(s: SsaInstruction, m: Map<SsaReg, SsaConstant>) -> bool {
    instr_gives(s, m) ==> match spec_ssa_defined_reg(&s) {
        Some(d) => m.contains_key(d),
        None => false,
    }
}

/// The phi node's incoming values are not all known and equal, or its
/// destination is known.
pub open spec fn phi_done(p: SsaPhiNode, m: Map<SsaReg, SsaConstant>) -> bool {
    phi_agrees(p.incoming@, m) ==> m.contains_key(p.dest)
}

/// Nothing more can be learnt: every instruction that gives a constant, and
/// every phi node whose incoming values agree, has its destination known.
pub open spec fn consts_complete(cfg: SsaCFG, m: Map<SsaReg, SsaConstant>) -> bool {
    let e = cfg.blocks.entries@;
    &&& forall|i: int, k: int| 0 <= i < e.len() && 0 <= k < e[i].1.instructions@.len() ==> instr_done(#[trigger] e[i].1.instructions@[k], m)
    &&& forall|i: int, j: int| 0 <= i < e.len() && 0 <= j < e[i].1.phi_nodes@.len() ==> phi_done(#[trigger] e[i].1.phi_nodes@[j], m)
}

proof fn lemma_value_ok_insert<F: Fn(BinaryOperator, u64, u64) -> Option<SsaConstant>>(s: SsaInstruction, m: Map<SsaReg, SsaConstant>, c0: SsaConstant, d: SsaReg, c: SsaConstant, float_fold: F)
    requires
        instr_value_ok(s, m, c0, float_fold),
        !m.contains_key(d),
    ensures
        instr_value_ok(s, m.insert(d, c), c0, float_fold),
{
}

proof fn lemma_agrees_insert(inc: Seq<(BlockId, SsaReg)>, m: Map<SsaReg, SsaConstant>, d: SsaReg, c: SsaConstant)
    requires
        phi_agrees(inc, m),
        !m.contains_key(d),
    ensures
        phi_agrees(inc, m.insert(d, c)),
        m.insert(d, c)[inc[0].1] == m[inc[0].1],
{
    assert(m.contains_key(inc[0].1));
    assert forall|j: int| 0 <= j < inc.len() implies #[trigger] m.insert(d, c).contains_key(inc[j].1) && same_const(m.insert(d, c)[inc[0].1], m.insert(d, c)[inc[j].1]) by {
        assert(m.contains_key(inc[j].1));
    }
}

/// Adding a new register keeps every known register justified.
proof fn lemma_sound_insert<F: Fn(BinaryOperator, u64, u64) -> Option<SsaConstant>>(cfg: SsaCFG, m: Map<SsaReg, SsaConstant>, d: SsaReg, c: SsaConstant, float_fold: F)
    requires
        consts_sound(cfg, m, float_fold),
        !m.contains_key(d),
        const_justified(cfg, m.insert(d, c), d, float_fold),
    ensures
        consts_sound(cfg, m.insert(d, c), float_fold),
{
    let m2 = m.insert(d, c);
    let e = cfg.blocks.entries@;
    assert forall|x: SsaReg| #[trigger] m2.contains_key(x) implies const_justified(cfg, m2, x, float_fold) by {
        if x != d {
            assert(m.contains_key(x));
            assert(const_justified(cfg, m, x, float_fold));
            assert(m2[x] == m[x]);
            if exists|i: int, k: int| 0 <= i < e.len() && 0 <= k < e[i].1.instructions@.len()
                && spec_ssa_defined_reg(&e[i].1.instructions@[k]) == Some(x)
                && #[trigger] instr_value_ok(e[i].1.instructions@[k], m, m[x], float_fold) {
                let (i, k) = choose|i: int, k: int| 0 <= i < e.len() && 0 <= k < e[i].1.instructions@.len()
                    && spec_ssa_defined_reg(&e[i].1.instructions@[k]) == Some(x)
                    && #[trigger] instr_value_ok(e[i].1.instructions@[k], m, m[x], float_fold);
                lemma_value_ok_insert(e[i].1.instructions@[k], m, m[x], d, c, float_fold);
            } else {
                let (i, j) = choose|i: int, j: int| 0 <= i < e.len() && 0 <= j < e[i].1.phi_nodes@.len()
                    && (#[trigger] e[i].1.phi_nodes@[j]).dest == x && phi_agrees(e[i].1.phi_nodes@[j].incoming@, m)
                    && m[x] == m[e[i].1.phi_nodes@[j].incoming@[0].1];
                lemma_agrees_insert(e[i].1.phi_nodes@[j].incoming@, m, d, c);
            }
        }
    }
}

/// One instruction's contribution to a sweep: the constant its destination
/// gets, if any.
fn sweep_instr<F: Fn(BinaryOperator, u64, u64) -> Option<SsaConstant>>(inst: &SsaInstruction, consts: &ConstMap, float_fold: &F) -> (r: Option<(SsaReg, SsaConstant)>)
    requires
        forall|o: BinaryOperator, a: u64, b: u64| float_fold.requires((o, a, b)),
    ensures
        match r {
            Some((d, c)) => spec_ssa_defined_reg(inst) == Some(d) && instr_value_ok(*inst, consts.view(), c, *float_fold),
            None => !instr_gives(*inst, consts.view()),
        },
{
    match inst {
        SsaInstruction::LoadInt { dest, value } | SsaInstruction::ConstInt { dest, value } => Some((*dest, SsaConstant::Int(*value))),
        SsaInstruction::LoadFloat { dest, value } | SsaInstruction::ConstFloat { dest, value } => Some((*dest, SsaConstant::Float(*value))),
        SsaInstruction::LoadBool { dest, value } | SsaInstruction::ConstBool { dest, value } => Some((*dest, SsaConstant::Bool(*value))),
        SsaInstruction::LoadString { dest, value } | SsaInstruction::ConstString { dest, value } => Some((*dest, SsaConstant::Str(value.clone()))),
        SsaInstruction::LoadNull { dest } | SsaInstruction::ConstNull { dest } => Some((*dest, SsaConstant::Null)),
        SsaInstruction::Move { dest, src } | SsaInstruction::Clone { dest, src } => match consts.get(*src) {
            Some(v) => Some((*dest, copy_const(v))),
            None => None,
        },
        SsaInstruction::UnaryOp { dest, op, src } => match consts.get(*src) {
            Some(v) => match fold_unary_op(*op, v) {
                Some(f) => Some((*dest, f)),
                None => None,
            },
            None => None,
        },
        SsaInstruction::BinaryOp { dest, op, left, right } => match consts.get(*left) {
            Some(l) => match consts.get(*right) {
                Some(r) => match fold_binary_op(*op, l, r, float_fold) {
                    Some(f) => Some((*dest, f)),
                    None => None,
                },
                None => None,
            },
            None => None,
        },
        _ => None,
    }
}

/// Every incoming value of a phi node is known, and all are the same
/// constant as the first.
pub open spec fn phi_agrees(inc: Seq<(BlockId, SsaReg)>, m: Map<SsaReg, SsaConstant>) -> bool {
    &&& inc.len() > 0
    &&& forall|j: int| 0 <= j < inc.len() ==> #[trigger] m.contains_key(inc[j].1) && same_const(m[inc[0].1], m[inc[j].1])
}

/// A phi node's contribution to a sweep: the common constant of all its
/// incoming values, when they are all known and equal.
fn sweep_phi(phi: &SsaPhiNode, consts: &ConstMap) -> (r: Option<SsaConstant>)
    ensures
        match r {
            Some(c) => phi_agrees(phi.incoming@, consts.view()) && c == consts.view()[phi.incoming@[0].1],
            None => !phi_agrees(phi.incoming@, consts.view()),
        },
{
    let ghost m = consts.view();
    let ghost inc = phi.incoming@;
    if phi.incoming.len() == 0 {
        return None;
    }
    let mut first: Option<SsaConstant> = None;
    let mut i: usize = 0;
    while i < phi.incoming.len()
        invariant
            m == consts.view(),
            inc == phi.incoming@,
            inc.len() > 0,
            i <= inc.len(),
            forall|j: int| 0 <= j < i ==> #[trigger] m.contains_key(inc[j].1) && same_const(m[inc[0].1], m[inc[j].1]),
            i == 0 ==> first is None,
            i > 0 ==> first == Some(m[inc[0].1]),
        decreases phi.incoming@.len() - i,
    {
        match consts.get(phi.incoming[i].1) {
            Some(v) => {
                match &first {
                    Some(f) => {
                        if !const_eq(f, v) {
                            return None;
                        }
                    },
                    None => {
                        first = Some(copy_const(v));
                    },
                }
            },
            None => {
                return None;
            },
        }
        assert(m.contains_key(inc[i as int].1) && same_const(m[inc[0].1], m[inc[i as int].1]));
        assert forall|j: int| 0 <= j < i + 1 implies #[trigger] m.contains_key(inc[j].1) && same_const(m[inc[0].1], m[inc[j].1]) by {}
        i = i + 1;
    }
    first
}

fn load_for(d: SsaReg, c: &SsaConstant) -> (s: SsaInstruction)
    ensures
        load_of(d, *c, s),
{
    match c {
        SsaConstant::Int(v) => SsaInstruction::LoadInt { dest: d, value: *v },
        SsaConstant::Float(v) => SsaInstruction::LoadFloat { dest: d, value: *v },
        SsaConstant::Bool(v) => SsaInstruction::LoadBool { dest: d, value: *v },
        SsaConstant::Str(v) => SsaInstruction::LoadString { dest: d, value: v.clone() },
        SsaConstant::Null => SsaInstruction::LoadNull { dest: d },
    }
}

pub fn copy_phi_node(p: &SsaPhiNode) -> (r: SsaPhiNode)
    ensures
        same_phi(r, *p),
{
    let mut inc: Vec<(BlockId, SsaReg)> = Vec::new();
    let mut i: usize = 0;
    while i < p.incoming.len()
        invariant
            i <= p.incoming@.len(),
            inc@ == p.incoming@.subrange(0, i as int),
        decreases p.incoming@.len() - i,
    {
        inc.push(p.incoming[i]);
        i = i + 1;
        assert(inc@ =~= p.incoming@.subrange(0, i as int));
    }
    assert(p.incoming@.subrange(0, p.incoming@.len() as int) =~= p.incoming@);
    SsaPhiNode { dest: p.dest, original_reg: p.original_reg, incoming: inc }
}

pub fn copy_ssa_term(t: &SsaTerminator) -> (r: SsaTerminator)
    ensures
        same_ssa_term(r, *t),
{
    match t {
        SsaTerminator::Jump { target } => SsaTerminator::Jump { target: *target },
        SsaTerminator::Branch { cond, then_block, else_block } => SsaTerminator::Branch { cond: *cond, then_block: *then_block, else_block: *else_block },
        SsaTerminator::Return { src } => SsaTerminator::Return { src: *src },
        SsaTerminator::MatchEntropy { target, valid_block, decayed_block, pending_block, consumed_block } => SsaTerminator::MatchEntropy {
            target: *target,
            valid_block: *valid_block,
            decayed_block: *decayed_block,
            pending_block: *pending_block,
            consumed_block: *consumed_block,
        },
        SsaTerminator::Select { max_ms, cases, timeout_block } => SsaTerminator::Select { max_ms: *max_ms, cases: copy_ssa_cases(cases), timeout_block: *timeout_block },
        SsaTerminator::Unreachable => SsaTerminator::Unreachable,
    }
}

fn const_block_exec(b: &SsaBasicBlock, consts: &ConstMap) -> (r: (SsaBasicBlock, bool))
    ensures
        const_block(*b, r.0, consts.view()),
        r.1 == const_block_changes(*b, consts.view()),
{
    let mut phis: Vec<SsaPhiNode> = Vec::new();
    let mut j: usize = 0;
    while j < b.phi_nodes.len()
        invariant
            j <= b.phi_nodes@.len(),
            phis@.len() == j,
            forall|q: int| 0 <= q < j ==> same_phi(#[trigger] phis@[q], b.phi_nodes@[q]),
        decreases b.phi_nodes@.len() - j,
    {
        phis.push(copy_phi_node(&b.phi_nodes[j]));
        j = j + 1;
    }
    let mut instrs: Vec<SsaInstruction> = Vec::new();
    let mut changed = false;
    let mut k: usize = 0;
    while k < b.instructions.len()
        invariant
            k <= b.instructions@.len(),
            instrs@.len() == k,
            forall|q: int| 0 <= q < k ==> const_instr(b.instructions@[q], #[trigger] instrs@[q], consts.view()),
            changed == exists|q: int| 0 <= q < k && folds_known(#[trigger] b.instructions@[q], consts.view()),
        decreases b.instructions@.len() - k,
    {
        let inst = &b.instructions[k];
        let d = match inst {
            SsaInstruction::BinaryOp { dest, .. } | SsaInstruction::UnaryOp { dest, .. } | SsaInstruction::Move { dest, .. } => Some(*dest),
            _ => None,
        };
        assert(d == foldable_dest(*inst));
        let replaced = match d {
            Some(dd) => match consts.get(dd) {
                Some(c) => Some(load_for(dd, c)),
                None => None,
            },
            None => None,
        };
        match replaced {
            Some(s) => {
                instrs.push(s);
                changed = true;
            },
            None => {
                instrs.push(inst.duplicate());
            },
        }
        k = k + 1;
    }
    let mut term_changed = false;
    let t = match &b.terminator {
        SsaTerminator::Branch { cond, then_block, else_block } => match consts.get(*cond) {
            Some(SsaConstant::Bool(v)) => {
                term_changed = true;
                SsaTerminator::Jump { target: if *v { *then_block } else { *else_block } }
            },
            _ => SsaTerminator::Branch { cond: *cond, then_block: *then_block, else_block: *else_block },
        },
        other => copy_ssa_term(other),
    };
    (SsaBasicBlock { id: b.id, phi_nodes: phis, instructions: instrs, terminator: t }, changed || term_changed)
}

/// Finds the registers with a value known at compile time, sweeping the
/// blocks until a sweep learns of no new register: literals are known;
/// copies, unary and binary operators of known values are folded; a phi
/// node whose incoming values are all known and equal takes that value.
/// Then computations and copies of known registers become loads, and
/// branches on a known condition become jumps to the side they take.
/// Floating-point operators are folded by `float_fold`. The result says
/// whether anything was rewritten.
pub fn constant_propagation<F: Fn(BinaryOperator, u64, u64) -> Option<SsaConstant>>(ssa_cfg: &mut SsaCFG, float_fold: &F) -> (changed: bool)
    requires
        forall|o: BinaryOperator, a: u64, b: u64| float_fold.requires((o, a, b)),
    ensures
        exists|m: Map<SsaReg, SsaConstant>|
            {
                &&& forall|d: SsaReg| #[trigger] m.contains_key(d) ==> defined_in(*old(ssa_cfg), d)
                &&& consts_sound(*old(ssa_cfg), m, *float_fold)
                &&& consts_complete(*old(ssa_cfg), m)
                &&& const_cfg(*old(ssa_cfg), *final(ssa_cfg), m)
                &&& changed == exists|i: int| 0 <= i < old(ssa_cfg).blocks.entries@.len() && #[trigger] const_block_changes(old(ssa_cfg).blocks.entries@[i].1, m)
            },
{
    let ghost g = *ssa_cfg;
    let ghost defs = cfg_defs(g.blocks.entries@, g.blocks.entries@.len() as int);
    let n = ssa_cfg.blocks.entries.len();
    let mut consts = ConstMap::new();
    proof {
        assert(consts_sound(g, consts.view(), *float_fold));
    }
    loop
        invariant
            g == *ssa_cfg,
            n == g.blocks.entries@.len(),
            defs == cfg_defs(g.blocks.entries@, n as int),
            forall|o: BinaryOperator, a: u64, b: u64| float_fold.requires((o, a, b)),
            consts.wf(),
            forall|d: SsaReg| consts.keys@.contains(d) ==> defs.contains(d),
            consts_sound(g, consts.view(), *float_fold),
        ensures
            consts.wf(),
            forall|d: SsaReg| consts.keys@.contains(d) ==> defs.contains(d),
            consts_sound(g, consts.view(), *float_fold),
            consts_complete(g, consts.view()),
        decreases defs.len() - consts.keys@.len(),
    {
        proof {
            lemma_distinct_within(consts.keys@, defs);
        }
        let ghost start_len = consts.keys@.len();
        let ghost m0 = consts.view();
        let mut changed = false;
        let mut i: usize = 0;
        while i < n
            invariant
                g == *ssa_cfg,
                n == g.blocks.entries@.len(),
                defs == cfg_defs(g.blocks.entries@, n as int),
                forall|o: BinaryOperator, a: u64, b: u64| float_fold.requires((o, a, b)),
                consts.wf(),
                forall|d: SsaReg| consts.keys@.contains(d) ==> defs.contains(d),
                consts_sound(g, consts.view(), *float_fold),
                i <= n,
                consts.keys@.len() >= start_len,
                changed == (consts.keys@.len() > start_len),
                !changed ==> consts.view() == m0,
                !changed ==> forall|i2: int, k: int| 0 <= i2 < i && 0 <= k < g.blocks.entries@[i2].1.instructions@.len()
                    ==> instr_done(#[trigger] g.blocks.entries@[i2].1.instructions@[k], m0),
                !changed ==> forall|i2: int, j: int| 0 <= i2 < i && 0 <= j < g.blocks.entries@[i2].1.phi_nodes@.len()
                    ==> phi_done(#[trigger] g.blocks.entries@[i2].1.phi_nodes@[j], m0),
            decreases n - i,
        {
            let blk = &ssa_cfg.blocks.entries[i].1;
            let mut k: usize = 0;
            while k < blk.instructions.len()
                invariant
                    g == *ssa_cfg,
                    n == g.blocks.entries@.len(),
                    i < n,
                    *blk == g.blocks.entries@[i as int].1,
                    defs == cfg_defs(g.blocks.entries@, n as int),
                    forall|o: BinaryOperator, a: u64, b: u64| float_fold.requires((o, a, b)),
                    consts.wf(),
                    forall|d: SsaReg| consts.keys@.contains(d) ==> defs.contains(d),
                    consts_sound(g, consts.view(), *float_fold),
                    k <= blk.instructions@.len(),
                    consts.keys@.len() >= start_len,
                    changed == (consts.keys@.len() > start_len),
                    !changed ==> consts.view() == m0,
                    !changed ==> forall|i2: int, k2: int| 0 <= i2 < i && 0 <= k2 < g.blocks.entries@[i2].1.instructions@.len()
                        ==> instr_done(#[trigger] g.blocks.entries@[i2].1.instructions@[k2], m0),
                    !changed ==> forall|i2: int, j: int| 0 <= i2 < i && 0 <= j < g.blocks.entries@[i2].1.phi_nodes@.len()
                        ==> phi_done(#[trigger] g.blocks.entries@[i2].1.phi_nodes@[j], m0),
                    !changed ==> forall|k2: int| 0 <= k2 < k ==> instr_done(#[trigger] blk.instructions@[k2], m0),
                decreases blk.instructions@.len() - k,
            {
                let ghost v0 = consts.view();
                let ghost ins = blk.instructions@[k as int];
                match sweep_instr(&blk.instructions[k], &consts, float_fold) {
                    Some((d, c)) => {
                        if consts.get(d).is_none() {
                            proof {
                                lemma_instr_defined(g, i as int, k as int, d);
                                lemma_value_ok_insert(ins, v0, c, d, c, *float_fold);
                                assert(g.blocks.entries@[i as int].1.instructions@[k as int] == ins);
                                assert(const_justified(g, v0.insert(d, c), d, *float_fold));
                                lemma_sound_insert(g, v0, d, c, *float_fold);
                            }
                            let was_new = consts.insert(d, c);
                            changed = true;
                        }
                    },
                    None => {},
                }
                proof {
                    if !changed {
                        assert(instr_done(ins, m0));
                    }
                }
                k = k + 1;
            }
            let mut j: usize = 0;
            while j < blk.phi_nodes.len()
                invariant
                    g == *ssa_cfg,
                    n == g.blocks.entries@.len(),
                    i < n,
                    *blk == g.blocks.entries@[i as int].1,
                    defs == cfg_defs(g.blocks.entries@, n as int),
                    consts.wf(),
                    forall|d: SsaReg| consts.keys@.contains(d) ==> defs.contains(d),
                    consts_sound(g, consts.view(), *float_fold),
                    j <= blk.phi_nodes@.len(),
                    consts.keys@.len() >= start_len,
                    changed == (consts.keys@.len() > start_len),
                    !changed ==> consts.view() == m0,
                    !changed ==> forall|i2: int, k2: int| 0 <= i2 <= i && 0 <= k2 < g.blocks.entries@[i2].1.instructions@.len()
                        ==> instr_done(#[trigger] g.blocks.entries@[i2].1.instructions@[k2], m0),
                    !changed ==> forall|i2: int, j2: int| 0 <= i2 < i && 0 <= j2 < g.blocks.entries@[i2].1.phi_nodes@.len()
                        ==> phi_done(#[trigger] g.blocks.entries@[i2].1.phi_nodes@[j2], m0),
                    !changed ==> forall|j2: int| 0 <= j2 < j ==> phi_done(#[trigger] blk.phi_nodes@[j2], m0),
                decreases blk.phi_nodes@.len() - j,
            {
                let phi = &blk.phi_nodes[j];
                let ghost v0 = consts.view();
                match sweep_phi(phi, &consts) {
                    Some(c) => {
                        if consts.get(phi.dest).is_none() {
                            proof {
                                lemma_phi_defined(g, i as int, j as int);
                                lemma_agrees_insert(phi.incoming@, v0, phi.dest, c);
                                assert(g.blocks.entries@[i as int].1.phi_nodes@[j as int] == *phi);
                                assert(const_justified(g, v0.insert(phi.dest, c), phi.dest, *float_fold));
                                lemma_sound_insert(g, v0, phi.dest, c, *float_fold);
                            }
                            let was_new = consts.insert(phi.dest, c);
                            changed = true;
                        }
                    },
                    None => {},
                }
                j = j + 1;
            }
            proof {
                if !changed {
                    assert forall|i2: int, j2: int| 0 <= i2 < i + 1 && 0 <= j2 < g.blocks.entries@[i2].1.phi_nodes@.len()
                        implies phi_done(#[trigger] g.blocks.entries@[i2].1.phi_nodes@[j2], m0) by {
                        if i2 == i {
                            assert(g.blocks.entries@[i2].1.phi_nodes@[j2] == blk.phi_nodes@[j2]);
                        }
                    }
                }
            }
            i = i + 1;
        }
        if !changed {
            break;
        }
        proof {
            lemma_distinct_within(consts.keys@, defs);
        }
    }
    // rewrite
    let mut entries: Vec<(BlockId, SsaBasicBlock)> = Vec::new();
    let mut any = false;
    let mut i: usize = 0;
    while i < n
        invariant
            g == *ssa_cfg,
            n == g.blocks.entries@.len(),
            i <= n,
            entries@.len() == i,
            forall|q: int| 0 <= q < i ==> (#[trigger] entries@[q]).0 == g.blocks.entries@[q].0 && const_block(g.blocks.entries@[q].1, entries@[q].1, consts.view()),
            any == exists|q: int| 0 <= q < i && #[trigger] const_block_changes(g.blocks.entries@[q].1, consts.view()),
        decreases n - i,
    {
        let (nb, c) = const_block_exec(&ssa_cfg.blocks.entries[i].1, &consts);
        entries.push((ssa_cfg.blocks.entries[i].0, nb));
        any = any || c;
        i = i + 1;
    }
    ssa_cfg.blocks = BlockMap { entries };
    proof {
        assert forall|d: SsaReg| #[trigger] consts.view().contains_key(d) implies defined_in(g, d) by {
            assert(consts.keys@.contains(d));
        }
        assert(const_cfg(g, *ssa_cfg, consts.view()));
    }
    any
}

/// Instruction `k` of block `i` is the only definition of `d` in the graph:
/// no other instruction and no phi node defines it.
pub open spec fn only_definition(cfg: SsaCFG, d: SsaReg, i: int, k: int) -> bool {
    let e = cfg.blocks.entries@;
    &&& 0 <= i < e.len() && 0 <= k < e[i].1.instructions@.len()
    &&& spec_ssa_defined_reg(&e[i].1.instructions@[k]) == Some(d)
    &&& forall|i2: int, k2: int| 0 <= i2 < e.len() && 0 <= k2 < e[i2].1.instructions@.len()
        && spec_ssa_defined_reg(&#[trigger] e[i2].1.instructions@[k2]) == Some(d) ==> i2 == i && k2 == k
    &&& forall|i2: int, j: int| 0 <= i2 < e.len() && 0 <= j < e[i2].1.phi_nodes@.len() ==> (#[trigger] e[i2].1.phi_nodes@[j]).dest != d
}

/// Instruction `k` of block `i` is a binary operation, the only definition
/// of its destination, on registers whose only definitions are the integer
/// loads at `(il, kl)` and `(ir, kr)`, and it folds to the integer `v`.
pub open spec fn literal_fold_site(a: SsaCFG, i: int, k: int, il: int, kl: int, ir: int, kr: int, v: i64) -> bool {
    let e = a.blocks.entries@;
    &&& 0 <= i < e.len() && 0 <= k < e[i].1.instructions@.len()
    &&& 0 <= il < e.len() && 0 <= kl < e[il].1.instructions@.len()
    &&& 0 <= ir < e.len() && 0 <= kr < e[ir].1.instructions@.len()
    &&& match (e[i].1.instructions@[k], e[il].1.instructions@[kl], e[ir].1.instructions@[kr]) {
        (SsaInstruction::BinaryOp { dest, op, left, right }, SsaInstruction::LoadInt { value: x, .. }, SsaInstruction::LoadInt { value: y, .. }) =>
            only_definition(a, dest, i, k) && only_definition(a, left, il, kl) && only_definition(a, right, ir, kr)
                && fold_int(op, x, y) == Some(SsaConstant::Int(v)),
        _ => false,
    }
}

/// Folding two integer literals: where a binary operation on registers
/// whose only definitions are integer loads folds to an integer, and the
/// operation is the only definition of its destination, constant
/// propagation turns it into a load of the folded value.
pub proof fn law_folds_integer_literals<F: Fn(BinaryOperator, u64, u64) -> Option<SsaConstant>>(
    a: SsaCFG,
    b: SsaCFG,
    m: Map<SsaReg, SsaConstant>,
    float_fold: F,
    i: int,
    k: int,
    il: int,
    kl: int,
    ir: int,
    kr: int,
    v: i64,
)
    requires
        consts_sound(a, m, float_fold),
        consts_complete(a, m),
        const_cfg(a, b, m),
        literal_fold_site(a, i, k, il, kl, ir, kr, v),
    ensures
        match a.blocks.entries@[i].1.instructions@[k] {
            SsaInstruction::BinaryOp { dest, .. } => b.blocks.entries@[i].1.instructions@[k] == (SsaInstruction::LoadInt { dest, value: v }),
            _ => false,
        },
{
    let e = a.blocks.entries@;
    let s = e[i].1.instructions@[k];
    let sl = e[il].1.instructions@[kl];
    let sr = e[ir].1.instructions@[kr];
    match s {
        SsaInstruction::BinaryOp { dest, op, left, right } => {
            assert(instr_done(sl, m));
            assert(instr_done(sr, m));
            assert(m.contains_key(left) && m.contains_key(right));
            assert(const_justified(a, m, left, float_fold));
            assert(const_justified(a, m, right, float_fold));
            let x = sl->LoadInt_value;
            let y = sr->LoadInt_value;
            if exists|i2: int, k2: int| 0 <= i2 < e.len() && 0 <= k2 < e[i2].1.instructions@.len()
                && spec_ssa_defined_reg(&e[i2].1.instructions@[k2]) == Some(left)
                && #[trigger] instr_value_ok(e[i2].1.instructions@[k2], m, m[left], float_fold) {
                let (i2, k2) = choose|i2: int, k2: int| 0 <= i2 < e.len() && 0 <= k2 < e[i2].1.instructions@.len()
                    && spec_ssa_defined_reg(&e[i2].1.instructions@[k2]) == Some(left)
                    && #[trigger] instr_value_ok(e[i2].1.instructions@[k2], m, m[left], float_fold);
                assert(i2 == il && k2 == kl);
            } else {
                let (i2, j) = choose|i2: int, j: int| 0 <= i2 < e.len() && 0 <= j < e[i2].1.phi_nodes@.len()
                    && (#[trigger] e[i2].1.phi_nodes@[j]).dest == left && phi_agrees(e[i2].1.phi_nodes@[j].incoming@, m)
                    && m[left] == m[e[i2].1.phi_nodes@[j].incoming@[0].1];
                assert(false);
            }
            assert(m[left] == SsaConstant::Int(x));
            if exists|i2: int, k2: int| 0 <= i2 < e.len() && 0 <= k2 < e[i2].1.instructions@.len()
                && spec_ssa_defined_reg(&e[i2].1.instructions@[k2]) == Some(right)
                && #[trigger] instr_value_ok(e[i2].1.instructions@[k2], m, m[right], float_fold) {
                let (i2, k2) = choose|i2: int, k2: int| 0 <= i2 < e.len() && 0 <= k2 < e[i2].1.instructions@.len()
                    && spec_ssa_defined_reg(&e[i2].1.instructions@[k2]) == Some(right)
                    && #[trigger] instr_value_ok(e[i2].1.instructions@[k2], m, m[right], float_fold);
                assert(i2 == ir && k2 == kr);
            } else {
                let (i2, j) = choose|i2: int, j: int| 0 <= i2 < e.len() && 0 <= j < e[i2].1.phi_nodes@.len()
                    && (#[trigger] e[i2].1.phi_nodes@[j]).dest == right && phi_agrees(e[i2].1.phi_nodes@[j].incoming@, m)
                    && m[right] == m[e[i2].1.phi_nodes@[j].incoming@[0].1];
                assert(false);
            }
            assert(m[right] == SsaConstant::Int(y));
            assert(instr_gives(s, m));
            assert(instr_done(s, m));
            assert(m.contains_key(dest));
            assert(const_justified(a, m, dest, float_fold));
            if exists|i2: int, k2: int| 0 <= i2 < e.len() && 0 <= k2 < e[i2].1.instructions@.len()
                && spec_ssa_defined_reg(&e[i2].1.instructions@[k2]) == Some(dest)
                && #[trigger] instr_value_ok(e[i2].1.instructions@[k2], m, m[dest], float_fold) {
                let (i2, k2) = choose|i2: int, k2: int| 0 <= i2 < e.len() && 0 <= k2 < e[i2].1.instructions@.len()
                    && spec_ssa_defined_reg(&e[i2].1.instructions@[k2]) == Some(dest)
                    && #[trigger] instr_value_ok(e[i2].1.instructions@[k2], m, m[dest], float_fold);
                assert(i2 == i && k2 == k);
            } else {
                let (i2, j) = choose|i2: int, j: int| 0 <= i2 < e.len() && 0 <= j < e[i2].1.phi_nodes@.len()
                    && (#[trigger] e[i2].1.phi_nodes@[j]).dest == dest && phi_agrees(e[i2].1.phi_nodes@[j].incoming@, m)
                    && m[dest] == m[e[i2].1.phi_nodes@[j].incoming@[0].1];
                assert(false);
            }
            assert(m[dest] == SsaConstant::Int(v));
            assert(const_block(e[i].1, b.blocks.entries@[i].1, m));
            assert(const_instr(s, b.blocks.entries@[i].1.instructions@[k], m));
        },
        _ => {},
    }
}

/// Branching on a boolean literal: where a branch's condition register has
/// as its only definition a load of `true`, constant propagation turns the
/// branch into a jump to its then-block; a load of `false`, to its
/// else-block.
pub proof fn law_branch_on_literal<F: Fn(BinaryOperator, u64, u64) -> Option<SsaConstant>>(
    a: SsaCFG,
    b: SsaCFG,
    m: Map<SsaReg, SsaConstant>,
    float_fold: F,
    i: int,
    il: int,
    kl: int,
    value: bool,
)
    requires
        consts_sound(a, m, float_fold),
        consts_complete(a, m),
        const_cfg(a, b, m),
        0 <= i < a.blocks.entries@.len(),
        0 <= il < a.blocks.entries@.len(),
        0 <= kl < a.blocks.entries@[il].1.instructions@.len(),
        a.blocks.entries@[il].1.instructions@[kl] matches SsaInstruction::LoadBool { dest, value: v } && v == value,
        a.blocks.entries@[i].1.terminator is Branch,
        only_definition(a, a.blocks.entries@[i].1.terminator->cond, il, kl),
    ensures
        b.blocks.entries@[i].1.terminator == (SsaTerminator::Jump {
            target: if value { a.blocks.entries@[i].1.terminator->then_block } else { a.blocks.entries@[i].1.terminator->else_block },
        }),
{
    let e = a.blocks.entries@;
    let sl = e[il].1.instructions@[kl];
    let cond = e[i].1.terminator->cond;
    assert(instr_done(sl, m));
    assert(m.contains_key(cond));
    assert(const_justified(a, m, cond, float_fold));
    if exists|i2: int, k2: int| 0 <= i2 < e.len() && 0 <= k2 < e[i2].1.instructions@.len()
        && spec_ssa_defined_reg(&e[i2].1.instructions@[k2]) == Some(cond)
        && #[trigger] instr_value_ok(e[i2].1.instructions@[k2], m, m[cond], float_fold) {
        let (i2, k2) = choose|i2: int, k2: int| 0 <= i2 < e.len() && 0 <= k2 < e[i2].1.instructions@.len()
            && spec_ssa_defined_reg(&e[i2].1.instructions@[k2]) == Some(cond)
            && #[trigger] instr_value_ok(e[i2].1.instructions@[k2], m, m[cond], float_fold);
        assert(i2 == il && k2 == kl);
    } else {
        let (i2, j) = choose|i2: int, j: int| 0 <= i2 < e.len() && 0 <= j < e[i2].1.phi_nodes@.len()
            && (#[trigger] e[i2].1.phi_nodes@[j]).dest == cond && phi_agrees(e[i2].1.phi_nodes@[j].incoming@, m)
            && m[cond] == m[e[i2].1.phi_nodes@[j].incoming@[0].1];
        assert(false);
    }
    assert(m[cond] == SsaConstant::Bool(value));
    assert(const_block(e[i].1, b.blocks.entries@[i].1, m));
}

/// What constant propagation with the float folder `float_fold` may do to
/// `before`: rewrite it with a sound and complete map of known registers
/// (see `constant_propagation`), reporting whether anything changed.
pub open spec fn const_prop_step<F: Fn(BinaryOperator, u64, u64) -> Option<SsaConstant>>(float_fold: F, before: SsaCFG, after: SsaCFG, changed: bool) -> bool {
    exists|m: Map<SsaReg, SsaConstant>|
        {
            &&& forall|d: SsaReg| #[trigger] m.contains_key(d) ==> defined_in(before, d)
            &&& consts_sound(before, m, float_fold)
            &&& consts_complete(before, m)
            &&& const_cfg(before, after, m)
            &&& changed == exists|i: int| 0 <= i < before.blocks.entries@.len() && #[trigger] const_block_changes(before.blocks.entries@[i].1, m)
        }
}

/// Constant propagation (see `constant_propagation`); float operations are
/// folded by the folder it holds.
pub struct ConstantPropagationPass<F: Fn(BinaryOperator, u64, u64) -> Option<SsaConstant>> {
    float_fold: F,
}

impl<F: Fn(BinaryOperator, u64, u64) -> Option<SsaConstant>> ConstantPropagationPass<F> {
    #[verifier::type_invariant]
    spec fn folder_total(self) -> bool {
        forall|o: BinaryOperator, a: u64, b: u64| self.float_fold.requires((o, a, b))
    }

    /// The folder the pass applies to float operations.
    pub closed spec fn folder(self) -> F {
        self.float_fold
    }

    /// A pass that folds float operations with `float_fold`, which must
    /// accept every operator and pair of operand bit patterns.
    pub fn new(float_fold: F) -> (p: Self)
        requires
            forall|o: BinaryOperator, a: u64, b: u64| float_fold.requires((o, a, b)),
        ensures
            p.folder() == float_fold,
    {
        ConstantPropagationPass { float_fold }
    }
}

impl<F: Fn(BinaryOperator, u64, u64) -> Option<SsaConstant>> OptimizationPass for ConstantPropagationPass<F> {
    fn name(&self) -> (r: &'static str)
        ensures
            r@ == "ConstantPropagation"@,
    {
        "ConstantPropagation"
    }

    open spec fn step(&self, before: SsaCFG, after: SsaCFG, globals: Set<u32>, is_routine: bool, changed: bool) -> bool {
        const_prop_step(self.folder(), before, after, changed)
    }

    fn run(&self, ssa_cfg: &mut SsaCFG, globally_used_regs: &HashSet<u32>, is_routine: bool) -> (changed: bool) {
        proof {
            use_type_invariant(self);
        }
        let changed = constant_propagation(ssa_cfg, &self.float_fold);
        proof {
            let m = choose|m: Map<SsaReg, SsaConstant>| {
                &&& forall|d: SsaReg| #[trigger] m.contains_key(d) ==> defined_in(*old(ssa_cfg), d)
                &&& consts_sound(*old(ssa_cfg), m, self.float_fold)
                &&& consts_complete(*old(ssa_cfg), m)
                &&& const_cfg(*old(ssa_cfg), *ssa_cfg, m)
                &&& changed == exists|i: int| 0 <= i < old(ssa_cfg).blocks.entries@.len() && #[trigger] const_block_changes(old(ssa_cfg).blocks.entries@[i].1, m)
            };
            lemma_same_keys_wf(*old(ssa_cfg), *ssa_cfg);
        }
        changed
    }
}

} // verus!

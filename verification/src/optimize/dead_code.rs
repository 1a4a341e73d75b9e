//! Dead code elimination: phi nodes and side-effect-free instructions whose
//! result nothing reads are removed, until none is left.

use vstd::prelude::*;
use crate::properties::SsaInstructionProperties;
use std::collections::HashSet;
use crate::blockmap::BlockId;
use crate::ssa::{SsaCFG, SsaBasicBlock, SsaReg, SsaTerminator, SsaPhiNode};
use crate::ssa::instruction::{SsaInstruction, spec_ssa_used_regs, spec_ssa_defined_reg};
use crate::ssa::transformer::{num_false, covers, lemma_num_false_covers};
use crate::optimize::OptimizationPass;

verus! {

broadcast use vstd::std_specs::hash::group_hash_axioms;

/// The registers a terminator reads, in order.
pub open spec fn term_src_regs(t: SsaTerminator) -> Seq<SsaReg> {
    match t {
        SsaTerminator::Branch { cond, .. } => seq![cond],
        SsaTerminator::Return { src: Some(r) } => seq![r],
        SsaTerminator::MatchEntropy { target, .. } => seq![target],
        _ => Seq::empty(),
    }
}

/// The registers a terminator reads, in order.
pub fn for_each_ssa_term_src_reg(term: &SsaTerminator) -> (r: Vec<SsaReg>)
    ensures
        r@ == term_src_regs(*term),
{
    let mut r: Vec<SsaReg> = Vec::new();
    match term {
        SsaTerminator::Branch { cond, .. } => {
            r.push(*cond);
        },
        SsaTerminator::Return { src: Some(s) } => {
            r.push(*s);
        },
        SsaTerminator::MatchEntropy { target, .. } => {
            r.push(*target);
        },
        _ => {},
    }
    assert(r@ =~= term_src_regs(*term));
    r
}

/// The registers an instruction reads, in operand order.
pub fn for_each_ssa_src_reg(instr: &SsaInstruction) -> (r: Vec<SsaReg>)
    ensures
        r@ == spec_ssa_used_regs(instr),
{
    instr.used_ssa_regs()
}

/// The register an instruction defines, if any.
pub fn get_ssa_dest_reg(instr: &SsaInstruction) -> (r: Option<SsaReg>)
    ensures
        r == spec_ssa_defined_reg(instr),
{
    instr.defined_ssa_reg()
}

/// The instruction only computes its result: an operation, a load or
/// constant, a move, a select, a clone, a literal, an access, an update of a
/// copy, a cast.
pub open spec fn pure_instr(s: SsaInstruction) -> bool {
    match s {
        SsaInstruction::BinaryOp { .. } => true,
        SsaInstruction::UnaryOp { .. } => true,
        SsaInstruction::LoadInt { .. } => true,
        SsaInstruction::LoadFloat { .. } => true,
        SsaInstruction::LoadBool { .. } => true,
        SsaInstruction::LoadString { .. } => true,
        SsaInstruction::LoadNull { .. } => true,
        SsaInstruction::ConstInt { .. } => true,
        SsaInstruction::ConstFloat { .. } => true,
        SsaInstruction::ConstBool { .. } => true,
        SsaInstruction::ConstString { .. } => true,
        SsaInstruction::ConstNull { .. } => true,
        SsaInstruction::Move { .. } => true,
        SsaInstruction::ConditionalSelect { .. } => true,
        SsaInstruction::Clone { .. } => true,
        SsaInstruction::StructLit { .. } => true,
        SsaInstruction::TopologyLit { .. } => true,
        SsaInstruction::ArrayLit { .. } => true,
        SsaInstruction::FieldAccess { .. } => true,
        SsaInstruction::IndexAccess { .. } => true,
        SsaInstruction::FieldUpdate { .. } => true,
        SsaInstruction::IndexFieldUpdate { .. } => true,
        SsaInstruction::TypeCast { .. } => true,
        _ => false,
    }
}

/// Whether the instruction does more than compute its result.
pub fn has_side_effects(instr: &SsaInstruction) -> (b: bool)
    ensures
        b == !pure_instr(*instr),
{
    match instr {
        SsaInstruction::BinaryOp { .. } | SsaInstruction::UnaryOp { .. } | SsaInstruction::LoadInt { .. }
        | SsaInstruction::LoadFloat { .. } | SsaInstruction::LoadBool { .. } | SsaInstruction::LoadString { .. }
        | SsaInstruction::LoadNull { .. } | SsaInstruction::ConstInt { .. } | SsaInstruction::ConstFloat { .. }
        | SsaInstruction::ConstBool { .. } | SsaInstruction::ConstString { .. } | SsaInstruction::ConstNull { .. }
        | SsaInstruction::Move { .. } | SsaInstruction::ConditionalSelect { .. } | SsaInstruction::Clone { .. }
        | SsaInstruction::StructLit { .. } | SsaInstruction::TopologyLit { .. } | SsaInstruction::ArrayLit { .. }
        | SsaInstruction::FieldAccess { .. } | SsaInstruction::IndexAccess { .. } | SsaInstruction::FieldUpdate { .. }
        | SsaInstruction::IndexFieldUpdate { .. } | SsaInstruction::TypeCast { .. } => false,
        _ => true,
    }
}

/// Flags of the elements of each block: its phi nodes, then its
/// instructions; `true` marks an element as removed.
pub open spec fn kept(flags: Seq<Seq<bool>>, b: SsaBasicBlock, i: int, kind: int, x: int) -> bool {
    if kind == 0 {
        !flags[i][x]
    } else {
        !flags[i][b.phi_nodes@.len() + x]
    }
}

/// Phi node `j` of `b` reads `r`.
pub open spec fn phi_reads(b: SsaBasicBlock, j: int, r: SsaReg) -> bool {
    exists|q: int| 0 <= q < b.phi_nodes@[j].incoming@.len() && (#[trigger] b.phi_nodes@[j].incoming@[q]).1 == r
}

/// Instruction `k` of `b` reads `r`.
pub open spec fn instr_reads(b: SsaBasicBlock, k: int, r: SsaReg) -> bool {
    spec_ssa_used_regs(&b.instructions@[k]).contains(r)
}

/// The terminator of `b` reads `r`.
pub open spec fn term_reads(b: SsaBasicBlock, r: SsaReg) -> bool {
    term_src_regs(b.terminator).contains(r)
}

/// `r` is read by an element that `keep` keeps, or by a terminator.
/// `keep(i, 0, j)` keeps phi node `j` of block `i`; `keep(i, 1, k)` keeps
/// its instruction `k`.
pub open spec fn read_in(e: Seq<(BlockId, SsaBasicBlock)>, keep: spec_fn(int, int, int) -> bool, r: SsaReg) -> bool {
    ||| exists|i: int, j: int| 0 <= i < e.len() && 0 <= j < e[i].1.phi_nodes@.len() && keep(i, 0, j)
        && #[trigger] phi_reads(e[i].1, j, r)
    ||| exists|i: int, k: int| 0 <= i < e.len() && 0 <= k < e[i].1.instructions@.len() && keep(i, 1, k)
        && #[trigger] instr_reads(e[i].1, k, r)
    ||| exists|i: int| 0 <= i < e.len() && #[trigger] term_reads(e[i].1, r)
}

/// `r` must be kept: something kept reads it, or code outside the graph
/// does (for a graph that is not a routine body).
pub open spec fn live_reg(e: Seq<(BlockId, SsaBasicBlock)>, keep: spec_fn(int, int, int) -> bool, globals: Set<u32>, is_routine: bool, r: SsaReg) -> bool {
    read_in(e, keep, r) || (!is_routine && globals.contains(r.reg))
}

/// Instruction `s` must stay given `keep`: it defines nothing, or does more
/// than compute, or its result is live.
pub open spec fn instr_needed(e: Seq<(BlockId, SsaBasicBlock)>, keep: spec_fn(int, int, int) -> bool, globals: Set<u32>, is_routine: bool, s: SsaInstruction) -> bool {
    match spec_ssa_defined_reg(&s) {
        Some(d) => !pure_instr(s) || live_reg(e, keep, globals, is_routine, d),
        None => true,
    }
}

/// Every element `keep` keeps must stay, given `keep`.
pub open spec fn closed(e: Seq<(BlockId, SsaBasicBlock)>, keep: spec_fn(int, int, int) -> bool, globals: Set<u32>, is_routine: bool) -> bool {
    &&& forall|i: int, j: int| 0 <= i < e.len() && 0 <= j < e[i].1.phi_nodes@.len() && #[trigger] keep(i, 0, j)
        ==> live_reg(e, keep, globals, is_routine, e[i].1.phi_nodes@[j].dest)
    &&& forall|i: int, k: int| 0 <= i < e.len() && 0 <= k < e[i].1.instructions@.len() && #[trigger] keep(i, 1, k)
        ==> instr_needed(e, keep, globals, is_routine, e[i].1.instructions@[k])
}

/// An element survives: some closed choice of elements keeps it.
pub open spec fn survives(e: Seq<(BlockId, SsaBasicBlock)>, globals: Set<u32>, is_routine: bool, i: int, kind: int, x: int) -> bool {
    exists|keep: spec_fn(int, int, int) -> bool| #[trigger] closed(e, keep, globals, is_routine) && keep(i, kind, x)
}

/// The elements of `s` at the indices `f` admits, in order.
pub open spec fn select<T>(s: Seq<T>, f: spec_fn(int) -> bool, k: int) -> Seq<T>
    decreases k,
{
    if k <= 0 {
        Seq::empty()
    } else {
        select(s, f, k - 1) + if f(k - 1) {
            seq![s[k - 1]]
        } else {
            Seq::<T>::empty()
        }
    }
}

/// `h` is `g` with only the surviving phi nodes and instructions.
pub open spec fn dead_code_removed(g: SsaCFG, h: SsaCFG, globals: Set<u32>, is_routine: bool) -> bool {
    let e = g.blocks.entries@;
    &&& h.entry_block == g.entry_block
    &&& h.original_pc_to_block_id == g.original_pc_to_block_id
    &&& h.blocks.entries@.len() == e.len()
    &&& forall|i: int| 0 <= i < e.len() ==> {
        let (k, a) = #[trigger] e[i];
        let (k2, b) = h.blocks.entries@[i];
        &&& k2 == k
        &&& b.id == a.id
        &&& b.terminator == a.terminator
        &&& b.phi_nodes@ == select(a.phi_nodes@, |j: int| survives(e, globals, is_routine, i, 0, j), a.phi_nodes@.len() as int)
        &&& b.instructions@ == select(a.instructions@, |k: int| survives(e, globals, is_routine, i, 1, k), a.instructions@.len() as int)
    }
}

/// Some element does not survive.
pub open spec fn has_dead_code(g: SsaCFG, globals: Set<u32>, is_routine: bool) -> bool {
    let e = g.blocks.entries@;
    ||| exists|i: int, j: int| 0 <= i < e.len() && 0 <= j < e[i].1.phi_nodes@.len() && !#[trigger] survives(e, globals, is_routine, i, 0, j)
    ||| exists|i: int, k: int| 0 <= i < e.len() && 0 <= k < e[i].1.instructions@.len() && !#[trigger] survives(e, globals, is_routine, i, 1, k)
}

proof fn lemma_select_has<T>(s: Seq<T>, f: spec_fn(int) -> bool, k: int, x: int)
    requires
        0 <= x < k <= s.len(),
        f(x),
    ensures
        exists|j: int| 0 <= j < select(s, f, k).len() && select(s, f, k)[j] == s[x],
    decreases k,
{
    let pre = select(s, f, k - 1);
    if x == k - 1 {
        assert(select(s, f, k)[pre.len() as int] == s[x]);
    } else {
        lemma_select_has(s, f, k - 1, x);
        let j = choose|j: int| 0 <= j < pre.len() && pre[j] == s[x];
        assert(select(s, f, k)[j] == s[x]);
    }
}

proof fn lemma_select_from<T>(s: Seq<T>, f: spec_fn(int) -> bool, k: int, j: int)
    requires
        0 <= k <= s.len(),
        0 <= j < select(s, f, k).len(),
    ensures
        exists|x: int| 0 <= x < k && f(x) && select(s, f, k)[j] == s[x],
    decreases k,
{
    if k > 0 {
        let pre = select(s, f, k - 1);
        if j < pre.len() {
            lemma_select_from(s, f, k - 1, j);
            let x = choose|x: int| 0 <= x < k - 1 && f(x) && pre[x] == s[x] && pre[j] == s[x];
            assert(select(s, f, k)[j] == pre[j]);
        } else {
            assert(select(s, f, k)[j] == s[k - 1]);
        }
    }
}

/// What the dead-code pass leaves reads `r` wherever what it kept did.
proof fn lemma_live_kept(g: SsaCFG, h: SsaCFG, globals: Set<u32>, is_routine: bool, keep: spec_fn(int, int, int) -> bool, r: SsaReg)
    requires
        dead_code_removed(g, h, globals, is_routine),
        closed(g.blocks.entries@, keep, globals, is_routine),
        live_reg(g.blocks.entries@, keep, globals, is_routine, r),
    ensures
        live_reg(h.blocks.entries@, |i: int, kind: int, x: int| true, globals, is_routine, r),
{
    let e = g.blocks.entries@;
    let he = h.blocks.entries@;
    let all = |i: int, kind: int, x: int| true;
    if read_in(e, keep, r) {
        if exists|i: int, j: int| 0 <= i < e.len() && 0 <= j < e[i].1.phi_nodes@.len() && keep(i, 0, j) && #[trigger] phi_reads(e[i].1, j, r) {
            let (i, j) = choose|i: int, j: int| 0 <= i < e.len() && 0 <= j < e[i].1.phi_nodes@.len() && keep(i, 0, j) && #[trigger] phi_reads(e[i].1, j, r);
            let a = e[i].1;
            let f = |x: int| survives(e, globals, is_routine, i, 0, x);
            assert(survives(e, globals, is_routine, i, 0, j));
            lemma_select_has(a.phi_nodes@, f, a.phi_nodes@.len() as int, j);
            let b = he[i].1;
            assert(b.phi_nodes@ == select(a.phi_nodes@, f, a.phi_nodes@.len() as int));
            let j2 = choose|j2: int| 0 <= j2 < b.phi_nodes@.len() && b.phi_nodes@[j2] == a.phi_nodes@[j];
            let q = choose|q: int| 0 <= q < a.phi_nodes@[j].incoming@.len() && (#[trigger] a.phi_nodes@[j].incoming@[q]).1 == r;
            assert(b.phi_nodes@[j2].incoming@[q].1 == r);
            assert(phi_reads(he[i].1, j2, r));
            assert(all(i, 0, j2));
        } else if exists|i: int, k: int| 0 <= i < e.len() && 0 <= k < e[i].1.instructions@.len() && keep(i, 1, k) && #[trigger] instr_reads(e[i].1, k, r) {
            let (i, k) = choose|i: int, k: int| 0 <= i < e.len() && 0 <= k < e[i].1.instructions@.len() && keep(i, 1, k) && #[trigger] instr_reads(e[i].1, k, r);
            let a = e[i].1;
            let f = |x: int| survives(e, globals, is_routine, i, 1, x);
            assert(survives(e, globals, is_routine, i, 1, k));
            lemma_select_has(a.instructions@, f, a.instructions@.len() as int, k);
            let b = he[i].1;
            assert(b.instructions@ == select(a.instructions@, f, a.instructions@.len() as int));
            let k2 = choose|k2: int| 0 <= k2 < b.instructions@.len() && b.instructions@[k2] == a.instructions@[k];
            assert(instr_reads(he[i].1, k2, r));
            assert(all(i, 1, k2));
        } else {
            let i = choose|i: int| 0 <= i < e.len() && #[trigger] term_reads(e[i].1, r);
            assert(he[i].1.terminator == e[i].1.terminator);
            assert(term_reads(he[i].1, r));
        }
    }
}

/// Removing dead code twice removes nothing the second time: what the pass
/// leaves has no dead code.
pub proof fn law_dead_code_idempotent(g: SsaCFG, h: SsaCFG, globals: Set<u32>, is_routine: bool)
    requires
        dead_code_removed(g, h, globals, is_routine),
    ensures
        !has_dead_code(h, globals, is_routine),
{
    let e = g.blocks.entries@;
    let he = h.blocks.entries@;
    let all = |i: int, kind: int, x: int| true;
    assert forall|i: int, j: int| 0 <= i < he.len() && 0 <= j < he[i].1.phi_nodes@.len() && #[trigger] all(i, 0, j)
        implies live_reg(he, all, globals, is_routine, he[i].1.phi_nodes@[j].dest) by {
        let a = e[i].1;
        let f = |x: int| survives(e, globals, is_routine, i, 0, x);
        lemma_select_from(a.phi_nodes@, f, a.phi_nodes@.len() as int, j);
        let x = choose|x: int| 0 <= x < a.phi_nodes@.len() && f(x) && select(a.phi_nodes@, f, a.phi_nodes@.len() as int)[j] == a.phi_nodes@[x];
        let keep = choose|keep: spec_fn(int, int, int) -> bool| #[trigger] closed(e, keep, globals, is_routine) && keep(i, 0, x);
        lemma_live_kept(g, h, globals, is_routine, keep, a.phi_nodes@[x].dest);
    }
    assert forall|i: int, k: int| 0 <= i < he.len() && 0 <= k < he[i].1.instructions@.len() && #[trigger] all(i, 1, k)
        implies instr_needed(he, all, globals, is_routine, he[i].1.instructions@[k]) by {
        let a = e[i].1;
        let f = |x: int| survives(e, globals, is_routine, i, 1, x);
        lemma_select_from(a.instructions@, f, a.instructions@.len() as int, k);
        let x = choose|x: int| 0 <= x < a.instructions@.len() && f(x) && select(a.instructions@, f, a.instructions@.len() as int)[k] == a.instructions@[x];
        let keep = choose|keep: spec_fn(int, int, int) -> bool| #[trigger] closed(e, keep, globals, is_routine) && keep(i, 1, x);
        let s = a.instructions@[x];
        assert(instr_needed(e, keep, globals, is_routine, s));
        match spec_ssa_defined_reg(&s) {
            Some(d) => {
                if pure_instr(s) {
                    lemma_live_kept(g, h, globals, is_routine, keep, d);
                }
            },
            None => {},
        }
    }
    assert(closed(he, all, globals, is_routine));
    assert forall|i: int, j: int| 0 <= i < he.len() && 0 <= j < he[i].1.phi_nodes@.len() implies #[trigger] survives(he, globals, is_routine, i, 0, j) by {
        assert(all(i, 0, j));
    }
    assert forall|i: int, k: int| 0 <= i < he.len() && 0 <= k < he[i].1.instructions@.len() implies #[trigger] survives(he, globals, is_routine, i, 1, k) by {
        assert(all(i, 1, k));
    }
}

/// Dead code elimination removes only instructions that merely compute a
/// value: operators, loads and constants, moves, selects, clones, literals,
/// accesses, updates of a copy and casts. Any other instruction (a channel
/// receive or send, a call, a print, a system call, ...) stays in its block,
/// whether or not anything reads its result.
pub proof fn law_dead_code_keeps_effects(g: SsaCFG, h: SsaCFG, globals: Set<u32>, is_routine: bool, i: int, k: int, s: SsaInstruction)
    requires
        dead_code_removed(g, h, globals, is_routine),
        0 <= i < g.blocks.entries@.len(),
        0 <= k < g.blocks.entries@[i].1.instructions@.len(),
        s == g.blocks.entries@[i].1.instructions@[k],
        !(s is BinaryOp || s is UnaryOp || s is LoadInt || s is LoadFloat || s is LoadBool || s is LoadString || s is LoadNull || s is ConstInt || s is ConstFloat || s is ConstBool || s is ConstString || s is ConstNull || s is Move || s is ConditionalSelect || s is Clone || s is StructLit || s is TopologyLit || s is ArrayLit || s is FieldAccess || s is IndexAccess || s is FieldUpdate || s is IndexFieldUpdate || s is TypeCast),
    ensures
        h.blocks.entries@[i].1.instructions@.contains(s),
{
    let e = g.blocks.entries@;
    let keep = |a: int, kind: int, x: int| kind == 1 && 0 <= a < e.len() && 0 <= x < e[a].1.instructions@.len() && !pure_instr(e[a].1.instructions@[x]);
    assert(closed(e, keep, globals, is_routine));
    assert(!pure_instr(s));
    assert(keep(i, 1, k));
    assert(survives(e, globals, is_routine, i, 1, k));
    let a = e[i].1;
    let f = |x: int| survives(e, globals, is_routine, i, 1, x);
    lemma_select_has(a.instructions@, f, a.instructions@.len() as int, k);
    let j = choose|j: int| 0 <= j < select(a.instructions@, f, a.instructions@.len() as int).len() && select(a.instructions@, f, a.instructions@.len() as int)[j] == a.instructions@[k];
    assert(h.blocks.entries@[i].1.instructions@[j] == s);
}

/// An instruction that merely computes a value (see
/// `law_dead_code_keeps_effects`) whose result nothing in the graph reads,
/// and that no code outside the graph reads either (a routine body, or a
/// register that is not global), is removed, and the pass reports a change.
pub proof fn law_dead_code_drops_unread(g: SsaCFG, globals: Set<u32>, is_routine: bool, i: int, k: int, s: SsaInstruction, d: SsaReg)
    requires
        0 <= i < g.blocks.entries@.len(),
        0 <= k < g.blocks.entries@[i].1.instructions@.len(),
        s == g.blocks.entries@[i].1.instructions@[k],
        s is BinaryOp || s is UnaryOp || s is LoadInt || s is LoadFloat || s is LoadBool || s is LoadString || s is LoadNull || s is ConstInt || s is ConstFloat || s is ConstBool || s is ConstString || s is ConstNull || s is Move || s is ConditionalSelect || s is Clone || s is StructLit || s is TopologyLit || s is ArrayLit || s is FieldAccess || s is IndexAccess || s is FieldUpdate || s is IndexFieldUpdate || s is TypeCast,
        spec_ssa_defined_reg(&s) == Some(d),
        is_routine || !globals.contains(d.reg),
        forall|a: int, x: int| 0 <= a < g.blocks.entries@.len() && 0 <= x < g.blocks.entries@[a].1.instructions@.len()
            ==> !spec_ssa_used_regs(&#[trigger] g.blocks.entries@[a].1.instructions@[x]).contains(d),
        forall|a: int, j: int, q: int| 0 <= a < g.blocks.entries@.len() && 0 <= j < g.blocks.entries@[a].1.phi_nodes@.len()
            && 0 <= q < g.blocks.entries@[a].1.phi_nodes@[j].incoming@.len() ==> (#[trigger] g.blocks.entries@[a].1.phi_nodes@[j].incoming@[q]).1 != d,
        forall|a: int| 0 <= a < g.blocks.entries@.len() ==> !term_src_regs(#[trigger] g.blocks.entries@[a].1.terminator).contains(d),
    ensures
        !survives(g.blocks.entries@, globals, is_routine, i, 1, k),
        has_dead_code(g, globals, is_routine),
{
    let e = g.blocks.entries@;
    if survives(e, globals, is_routine, i, 1, k) {
        let keep = choose|keep: spec_fn(int, int, int) -> bool| #[trigger] closed(e, keep, globals, is_routine) && keep(i, 1, k);
        assert(instr_needed(e, keep, globals, is_routine, s));
        assert(pure_instr(s));
        assert(!read_in(e, keep, d)) by {
            assert forall|a: int, j: int| 0 <= a < e.len() && 0 <= j < e[a].1.phi_nodes@.len() implies !#[trigger] phi_reads(e[a].1, j, d) by {
                if phi_reads(e[a].1, j, d) {
                    let q = choose|q: int| 0 <= q < e[a].1.phi_nodes@[j].incoming@.len() && (#[trigger] e[a].1.phi_nodes@[j].incoming@[q]).1 == d;
                }
            }
            assert forall|a: int, x: int| 0 <= a < e.len() && 0 <= x < e[a].1.instructions@.len() implies !#[trigger] instr_reads(e[a].1, x, d) by {
                assert(!spec_ssa_used_regs(&e[a].1.instructions@[x]).contains(d));
            }
            assert forall|a: int| 0 <= a < e.len() implies !#[trigger] term_reads(e[a].1, d) by {
                assert(!term_src_regs(e[a].1.terminator).contains(d));
            }
        }
    }
}

/// The removal flags as sequences.
pub open spec fn flag_view(f: Seq<Vec<bool>>) -> Seq<Seq<bool>> {
    f.map_values(|v: Vec<bool>| v@)
}

/// The choice of elements that the flags keep.
pub open spec fn keep_of(e: Seq<(BlockId, SsaBasicBlock)>, fl: Seq<Seq<bool>>) -> spec_fn(int, int, int) -> bool {
    |i: int, kind: int, x: int| kept(fl, e[i].1, i, kind, x)
}

/// One flag per element of each block.
pub open spec fn flags_shape(e: Seq<(BlockId, SsaBasicBlock)>, fl: Seq<Seq<bool>>) -> bool {
    &&& fl.len() == e.len()
    &&& forall|i: int| 0 <= i < e.len() ==> (#[trigger] fl[i]).len() == e[i].1.phi_nodes@.len() + e[i].1.instructions@.len()
}

/// `k` keeps no element that `c` drops.
pub open spec fn within(e: Seq<(BlockId, SsaBasicBlock)>, k: spec_fn(int, int, int) -> bool, c: spec_fn(int, int, int) -> bool) -> bool {
    &&& forall|i: int, j: int| 0 <= i < e.len() && 0 <= j < e[i].1.phi_nodes@.len() && #[trigger] k(i, 0, j) ==> c(i, 0, j)
    &&& forall|i: int, x: int| 0 <= i < e.len() && 0 <= x < e[i].1.instructions@.len() && #[trigger] k(i, 1, x) ==> c(i, 1, x)
}

proof fn lemma_read_mono(e: Seq<(BlockId, SsaBasicBlock)>, k: spec_fn(int, int, int) -> bool, c: spec_fn(int, int, int) -> bool, r: SsaReg)
    requires
        within(e, k, c),
        read_in(e, k, r),
    ensures
        read_in(e, c, r),
{
    if exists|i: int, j: int| 0 <= i < e.len() && 0 <= j < e[i].1.phi_nodes@.len() && k(i, 0, j) && #[trigger] phi_reads(e[i].1, j, r) {
        let (i, j) = choose|i: int, j: int| 0 <= i < e.len() && 0 <= j < e[i].1.phi_nodes@.len() && k(i, 0, j) && #[trigger] phi_reads(e[i].1, j, r);
        assert(c(i, 0, j));
    } else if exists|i: int, x: int| 0 <= i < e.len() && 0 <= x < e[i].1.instructions@.len() && k(i, 1, x) && #[trigger] instr_reads(e[i].1, x, r) {
        let (i, x) = choose|i: int, x: int| 0 <= i < e.len() && 0 <= x < e[i].1.instructions@.len() && k(i, 1, x) && #[trigger] instr_reads(e[i].1, x, r);
        assert(c(i, 1, x));
    }
}

fn phi_read_kept(ssa_cfg: &SsaCFG, flags: &Vec<Vec<bool>>, r: SsaReg) -> (b: bool)
    requires
        flags_shape(ssa_cfg.blocks.entries@, flag_view(flags@)),
    ensures
        b == exists|i: int, j: int| 0 <= i < ssa_cfg.blocks.entries@.len() && 0 <= j < ssa_cfg.blocks.entries@[i].1.phi_nodes@.len()
            && keep_of(ssa_cfg.blocks.entries@, flag_view(flags@))(i, 0, j) && #[trigger] phi_reads(ssa_cfg.blocks.entries@[i].1, j, r),
{
    let ghost e = ssa_cfg.blocks.entries@;
    let ghost fl = flag_view(flags@);
    let ghost keep = keep_of(e, fl);
    let mut i: usize = 0;
    while i < ssa_cfg.blocks.entries.len()
        invariant
            e == ssa_cfg.blocks.entries@,
            fl == flag_view(flags@),
            keep == keep_of(e, fl),
            flags_shape(e, fl),
            i <= e.len(),
            forall|i2: int, j: int| 0 <= i2 < i && 0 <= j < e[i2].1.phi_nodes@.len() && keep(i2, 0, j) ==> !#[trigger] phi_reads(e[i2].1, j, r),
        decreases e.len() - i,
    {
        let blk = &ssa_cfg.blocks.entries[i].1;
        let mut j: usize = 0;
        while j < blk.phi_nodes.len()
            invariant
                e == ssa_cfg.blocks.entries@,
                fl == flag_view(flags@),
                keep == keep_of(e, fl),
                flags_shape(e, fl),
                i < e.len(),
                *blk == e[i as int].1,
                j <= blk.phi_nodes@.len(),
                forall|i2: int, j2: int| 0 <= i2 < i && 0 <= j2 < e[i2].1.phi_nodes@.len() && keep(i2, 0, j2) ==> !#[trigger] phi_reads(e[i2].1, j2, r),
                forall|j2: int| 0 <= j2 < j && keep(i as int, 0, j2) ==> !#[trigger] phi_reads(e[i as int].1, j2, r),
            decreases blk.phi_nodes@.len() - j,
        {
            assert(fl[i as int] == flags@[i as int]@);
            assert(flags@[i as int]@.len() == blk.phi_nodes@.len() + blk.instructions@.len());
            if !flags[i][j] {
                assert(keep(i as int, 0, j as int));
                let inc = &blk.phi_nodes[j].incoming;
                let mut q: usize = 0;
                while q < inc.len()
                    invariant
                        e == ssa_cfg.blocks.entries@,
                        fl == flag_view(flags@),
                        keep == keep_of(e, fl),
                        i < e.len(),
                        *blk == e[i as int].1,
                        j < blk.phi_nodes@.len(),
                        keep(i as int, 0, j as int),
                        q <= inc@.len(),
                        *inc == blk.phi_nodes@[j as int].incoming,
                        forall|q2: int| 0 <= q2 < q ==> (#[trigger] inc@[q2]).1 != r,
                    decreases inc@.len() - q,
                {
                    if inc[q].1 == r {
                        assert(phi_reads(e[i as int].1, j as int, r));
                        assert(keep(i as int, 0, j as int));
                        return true;
                    }
                    q = q + 1;
                }
            }
            j = j + 1;
        }
        i = i + 1;
    }
    false
}

fn instr_read_kept(ssa_cfg: &SsaCFG, flags: &Vec<Vec<bool>>, r: SsaReg) -> (b: bool)
    requires
        flags_shape(ssa_cfg.blocks.entries@, flag_view(flags@)),
    ensures
        b == exists|i: int, k: int| 0 <= i < ssa_cfg.blocks.entries@.len() && 0 <= k < ssa_cfg.blocks.entries@[i].1.instructions@.len()
            && keep_of(ssa_cfg.blocks.entries@, flag_view(flags@))(i, 1, k) && #[trigger] instr_reads(ssa_cfg.blocks.entries@[i].1, k, r),
{
    let ghost e = ssa_cfg.blocks.entries@;
    let ghost fl = flag_view(flags@);
    let ghost keep = keep_of(e, fl);
    let mut i: usize = 0;
    while i < ssa_cfg.blocks.entries.len()
        invariant
            e == ssa_cfg.blocks.entries@,
            fl == flag_view(flags@),
            keep == keep_of(e, fl),
            flags_shape(e, fl),
            i <= e.len(),
            forall|i2: int, k: int| 0 <= i2 < i && 0 <= k < e[i2].1.instructions@.len() && keep(i2, 1, k) ==> !#[trigger] instr_reads(e[i2].1, k, r),
        decreases e.len() - i,
    {
        let blk = &ssa_cfg.blocks.entries[i].1;
        let np = blk.phi_nodes.len();
        let mut k: usize = 0;
        while k < blk.instructions.len()
            invariant
                e == ssa_cfg.blocks.entries@,
                fl == flag_view(flags@),
                keep == keep_of(e, fl),
                flags_shape(e, fl),
                i < e.len(),
                *blk == e[i as int].1,
                np == blk.phi_nodes@.len(),
                k <= blk.instructions@.len(),
                forall|i2: int, k2: int| 0 <= i2 < i && 0 <= k2 < e[i2].1.instructions@.len() && keep(i2, 1, k2) ==> !#[trigger] instr_reads(e[i2].1, k2, r),
                forall|k2: int| 0 <= k2 < k && keep(i as int, 1, k2) ==> !#[trigger] instr_reads(e[i as int].1, k2, r),
            decreases blk.instructions@.len() - k,
        {
            assert(fl[i as int] == flags@[i as int]@);
            assert(flags@[i as int]@.len() == blk.phi_nodes@.len() + blk.instructions@.len());
            let fl_len = flags[i].len();
            if !flags[i][np + k] {
                assert(keep(i as int, 1, k as int));
                let regs = blk.instructions[k].used_ssa_regs();
                let mut q: usize = 0;
                while q < regs.len()
                    invariant
                        e == ssa_cfg.blocks.entries@,
                        fl == flag_view(flags@),
                        keep == keep_of(e, fl),
                        i < e.len(),
                        *blk == e[i as int].1,
                        k < blk.instructions@.len(),
                        keep(i as int, 1, k as int),
                        regs@ == spec_ssa_used_regs(&blk.instructions@[k as int]),
                        q <= regs@.len(),
                        forall|q2: int| 0 <= q2 < q ==> regs@[q2] != r,
                    decreases regs@.len() - q,
                {
                    if regs[q] == r {
                        assert(instr_reads(e[i as int].1, k as int, r));
                        assert(keep(i as int, 1, k as int));
                        return true;
                    }
                    q = q + 1;
                }
            }
            k = k + 1;
        }
        i = i + 1;
    }
    false
}

fn term_read(ssa_cfg: &SsaCFG, r: SsaReg) -> (b: bool)
    ensures
        b == exists|i: int| 0 <= i < ssa_cfg.blocks.entries@.len() && #[trigger] term_reads(ssa_cfg.blocks.entries@[i].1, r),
{
    let mut i: usize = 0;
    while i < ssa_cfg.blocks.entries.len()
        invariant
            i <= ssa_cfg.blocks.entries@.len(),
            forall|i2: int| 0 <= i2 < i ==> !#[trigger] term_reads(ssa_cfg.blocks.entries@[i2].1, r),
        decreases ssa_cfg.blocks.entries@.len() - i,
    {
        let regs = for_each_ssa_term_src_reg(&ssa_cfg.blocks.entries[i].1.terminator);
        let mut q: usize = 0;
        while q < regs.len()
            invariant
                i < ssa_cfg.blocks.entries@.len(),
                regs@ == term_src_regs(ssa_cfg.blocks.entries@[i as int].1.terminator),
                q <= regs@.len(),
                forall|q2: int| 0 <= q2 < q ==> regs@[q2] != r,
            decreases regs@.len() - q,
        {
            if regs[q] == r {
                assert(term_reads(ssa_cfg.blocks.entries@[i as int].1, r));
                return true;
            }
            q = q + 1;
        }
        i = i + 1;
    }
    false
}

/// Whether `r` is live given the flags (see `live_reg`).
fn reg_live(ssa_cfg: &SsaCFG, flags: &Vec<Vec<bool>>, globals: &HashSet<u32>, is_routine: bool, r: SsaReg) -> (b: bool)
    requires
        flags_shape(ssa_cfg.blocks.entries@, flag_view(flags@)),
    ensures
        b == live_reg(ssa_cfg.blocks.entries@, keep_of(ssa_cfg.blocks.entries@, flag_view(flags@)), globals@, is_routine, r),
{
    phi_read_kept(ssa_cfg, flags, r) || instr_read_kept(ssa_cfg, flags, r) || term_read(ssa_cfg, r)
        || (!is_routine && globals.contains(&r.reg))
}

/// The number of kept elements.
pub open spec fn total_kept(fl: Seq<Seq<bool>>) -> int
    decreases fl.len(),
{
    if fl.len() == 0 {
        0
    } else {
        total_kept(fl.drop_last()) + num_false(fl.last())
    }
}

proof fn lemma_total_kept_update(fl: Seq<Seq<bool>>, i: int, t: Seq<bool>)
    requires
        0 <= i < fl.len(),
        0 <= num_false(t) <= num_false(fl[i]),
        forall|q: int| 0 <= q < fl.len() ==> 0 <= #[trigger] num_false(fl[q]),
    ensures
        total_kept(fl.update(i, t)) - total_kept(fl) == num_false(t) - num_false(fl[i]),
        0 <= total_kept(fl),
    decreases fl.len(),
{
    let fl2 = fl.update(i, t);
    if fl.len() > 0 {
        if i < fl.len() - 1 {
            assert(fl2.drop_last() =~= fl.drop_last().update(i, t));
            assert forall|q: int| 0 <= q < fl.drop_last().len() implies 0 <= #[trigger] num_false(fl.drop_last()[q]) by {
                assert(fl.drop_last()[q] == fl[q]);
            }
            lemma_total_kept_update(fl.drop_last(), i, t);
            assert(fl2.last() == fl.last());
            assert(0 <= num_false(fl[fl.len() - 1]));
        } else {
            assert(fl2.drop_last() =~= fl.drop_last());
            assert forall|q: int| 0 <= q < fl.drop_last().len() implies 0 <= #[trigger] num_false(fl.drop_last()[q]) by {
                assert(fl.drop_last()[q] == fl[q]);
            }
            lemma_total_kept_nonneg(fl.drop_last());
        }
    }
}

proof fn lemma_total_kept_nonneg(fl: Seq<Seq<bool>>)
    requires
        forall|q: int| 0 <= q < fl.len() ==> 0 <= #[trigger] num_false(fl[q]),
    ensures
        0 <= total_kept(fl),
    decreases fl.len(),
{
    if fl.len() > 0 {
        assert forall|q: int| 0 <= q < fl.drop_last().len() implies 0 <= #[trigger] num_false(fl.drop_last()[q]) by {
            assert(fl.drop_last()[q] == fl[q]);
        }
        lemma_total_kept_nonneg(fl.drop_last());
        assert(0 <= num_false(fl[fl.len() - 1]));
    }
}

proof fn lemma_num_false_nonneg(s: Seq<bool>)
    ensures
        0 <= num_false(s),
    decreases s.len(),
{
    if s.len() > 0 {
        lemma_num_false_nonneg(s.drop_last());
    }
}

/// Whether element `x` of block `i` must stay given the current flags.
fn element_needed(ssa_cfg: &SsaCFG, flags: &Vec<Vec<bool>>, globals: &HashSet<u32>, is_routine: bool, i: usize, x: usize) -> (b: bool)
    requires
        flags_shape(ssa_cfg.blocks.entries@, flag_view(flags@)),
        i < ssa_cfg.blocks.entries@.len(),
        x < ssa_cfg.blocks.entries@[i as int].1.phi_nodes@.len() + ssa_cfg.blocks.entries@[i as int].1.instructions@.len(),
    ensures
        ({
            let e = ssa_cfg.blocks.entries@;
            let blk = e[i as int].1;
            let keep = keep_of(e, flag_view(flags@));
            if x < blk.phi_nodes@.len() {
                b == live_reg(e, keep, globals@, is_routine, blk.phi_nodes@[x as int].dest)
            } else {
                b == instr_needed(e, keep, globals@, is_routine, blk.instructions@[x - blk.phi_nodes@.len()])
            }
        }),
{
    let blk = &ssa_cfg.blocks.entries[i].1;
    let np = blk.phi_nodes.len();
    if x < np {
        reg_live(ssa_cfg, flags, globals, is_routine, blk.phi_nodes[x].dest)
    } else {
        let s = &blk.instructions[x - np];
        match get_ssa_dest_reg(s) {
            Some(d) => has_side_effects(s) || reg_live(ssa_cfg, flags, globals, is_routine, d),
            None => true,
        }
    }
}

/// One sweep over all elements, removing each that is not needed given the
/// removals so far; says whether any was removed.
fn dce_round(ssa_cfg: &SsaCFG, flags: &mut Vec<Vec<bool>>, globals: &HashSet<u32>, is_routine: bool) -> (changed: bool)
    requires
        flags_shape(ssa_cfg.blocks.entries@, flag_view(old(flags)@)),
        forall|k: spec_fn(int, int, int) -> bool| #[trigger] closed(ssa_cfg.blocks.entries@, k, globals@, is_routine)
            ==> within(ssa_cfg.blocks.entries@, k, keep_of(ssa_cfg.blocks.entries@, flag_view(old(flags)@))),
    ensures
        flags_shape(ssa_cfg.blocks.entries@, flag_view(final(flags)@)),
        forall|k: spec_fn(int, int, int) -> bool| #[trigger] closed(ssa_cfg.blocks.entries@, k, globals@, is_routine)
            ==> within(ssa_cfg.blocks.entries@, k, keep_of(ssa_cfg.blocks.entries@, flag_view(final(flags)@))),
        changed ==> total_kept(flag_view(final(flags)@)) < total_kept(flag_view(old(flags)@)),
        0 <= total_kept(flag_view(final(flags)@)),
        !changed ==> flag_view(final(flags)@) == flag_view(old(flags)@),
        !changed ==> closed(ssa_cfg.blocks.entries@, keep_of(ssa_cfg.blocks.entries@, flag_view(final(flags)@)), globals@, is_routine),
{
    let ghost e = ssa_cfg.blocks.entries@;
    let ghost f0 = flag_view(flags@);
    proof {
        assert forall|q: int| 0 <= q < e.len() implies 0 <= #[trigger] num_false(flag_view(flags@)[q]) <= num_false(f0[q]) by {
            lemma_num_false_nonneg(f0[q]);
        }
    }
    let mut changed = false;
    let mut i: usize = 0;
    while i < ssa_cfg.blocks.entries.len()
        invariant
            e == ssa_cfg.blocks.entries@,
            f0 == flag_view(old(flags)@),
            flags_shape(e, flag_view(flags@)),
            i <= e.len(),
            forall|k: spec_fn(int, int, int) -> bool| #[trigger] closed(e, k, globals@, is_routine)
                ==> within(e, k, keep_of(e, flag_view(flags@))),
            forall|q: int| 0 <= q < e.len() ==> 0 <= #[trigger] num_false(flag_view(flags@)[q]) <= num_false(f0[q]),
            changed ==> total_kept(flag_view(flags@)) < total_kept(f0),
            total_kept(flag_view(flags@)) <= total_kept(f0),
            !changed ==> flag_view(flags@) == f0,
            !changed ==> forall|i2: int, j: int| 0 <= i2 < i && 0 <= j < e[i2].1.phi_nodes@.len()
                && #[trigger] keep_of(e, f0)(i2, 0, j) ==> live_reg(e, keep_of(e, f0), globals@, is_routine, e[i2].1.phi_nodes@[j].dest),
            !changed ==> forall|i2: int, k: int| 0 <= i2 < i && 0 <= k < e[i2].1.instructions@.len()
                && #[trigger] keep_of(e, f0)(i2, 1, k) ==> instr_needed(e, keep_of(e, f0), globals@, is_routine, e[i2].1.instructions@[k]),
        decreases e.len() - i,
    {
        let np = ssa_cfg.blocks.entries[i].1.phi_nodes.len();
        assert(flag_view(flags@)[i as int] == flags@[i as int]@);
        let len = flags[i].len();
        let mut x: usize = 0;
        while x < len
            invariant
                e == ssa_cfg.blocks.entries@,
                f0 == flag_view(old(flags)@),
                flags_shape(e, flag_view(flags@)),
                i < e.len(),
                np == e[i as int].1.phi_nodes@.len(),
                len == np + e[i as int].1.instructions@.len(),
                x <= len,
                forall|k: spec_fn(int, int, int) -> bool| #[trigger] closed(e, k, globals@, is_routine)
                    ==> within(e, k, keep_of(e, flag_view(flags@))),
                forall|q: int| 0 <= q < e.len() ==> 0 <= #[trigger] num_false(flag_view(flags@)[q]) <= num_false(f0[q]),
                changed ==> total_kept(flag_view(flags@)) < total_kept(f0),
                total_kept(flag_view(flags@)) <= total_kept(f0),
                !changed ==> flag_view(flags@) == f0,
                !changed ==> forall|i2: int, j: int| 0 <= i2 < i && 0 <= j < e[i2].1.phi_nodes@.len()
                    && #[trigger] keep_of(e, f0)(i2, 0, j) ==> live_reg(e, keep_of(e, f0), globals@, is_routine, e[i2].1.phi_nodes@[j].dest),
                !changed ==> forall|i2: int, k: int| 0 <= i2 < i && 0 <= k < e[i2].1.instructions@.len()
                    && #[trigger] keep_of(e, f0)(i2, 1, k) ==> instr_needed(e, keep_of(e, f0), globals@, is_routine, e[i2].1.instructions@[k]),
                !changed ==> forall|j: int| 0 <= j < np && j < x
                    && #[trigger] keep_of(e, f0)(i as int, 0, j) ==> live_reg(e, keep_of(e, f0), globals@, is_routine, e[i as int].1.phi_nodes@[j].dest),
                !changed ==> forall|k: int| 0 <= k < len - np && np + k < x
                    && #[trigger] keep_of(e, f0)(i as int, 1, k) ==> instr_needed(e, keep_of(e, f0), globals@, is_routine, e[i as int].1.instructions@[k]),
            decreases len - x,
        {
            assert(flag_view(flags@)[i as int] == flags@[i as int]@);
            if !flags[i][x] {
                let needed = element_needed(ssa_cfg, flags, globals, is_routine, i, x);
                if !needed {
                    let ghost fb = flag_view(flags@);
                    let ghost cb = keep_of(e, fb);
                    proof {
                        assert forall|k: spec_fn(int, int, int) -> bool| #[trigger] closed(e, k, globals@, is_routine)
                            implies !k(i as int, if x < np { 0 } else { 1 }, if x < np { x as int } else { x - np }) by {
                            assert(within(e, k, cb));
                            if x < np {
                                if k(i as int, 0, x as int) {
                                    let d = e[i as int].1.phi_nodes@[x as int].dest;
                                    if read_in(e, k, d) {
                                        lemma_read_mono(e, k, cb, d);
                                    }
                                }
                            } else {
                                let xi = x - np;
                                if k(i as int, 1, xi) {
                                    let s = e[i as int].1.instructions@[xi];
                                    match spec_ssa_defined_reg(&s) {
                                        Some(d) => {
                                            if read_in(e, k, d) {
                                                lemma_read_mono(e, k, cb, d);
                                            }
                                        },
                                        None => {},
                                    }
                                }
                            }
                        }
                    }
                    flags[i].set(x, true);
                    proof {
                        let fa = flag_view(flags@);
                        assert(fa =~= fb.update(i as int, fb[i as int].update(x as int, true)));
                        assert forall|k: spec_fn(int, int, int) -> bool| #[trigger] closed(e, k, globals@, is_routine)
                            implies within(e, k, keep_of(e, fa)) by {
                            assert(within(e, k, cb));
                            assert(!k(i as int, if x < np { 0 } else { 1 }, if x < np { x as int } else { x - np }));
                        }
                        lemma_num_false_covers(fa[i as int], fb[i as int]);
                        assert(fa[i as int][x as int] && !fb[i as int][x as int]);
                        lemma_num_false_nonneg(fa[i as int]);
                        assert forall|q: int| 0 <= q < fb.len() implies 0 <= #[trigger] num_false(fb[q]) by {
                            lemma_num_false_nonneg(fb[q]);
                        }
                        lemma_total_kept_update(fb, i as int, fa[i as int]);
                        assert(fa == fb.update(i as int, fa[i as int]));
                    }
                    changed = true;
                }
            }
            x = x + 1;
        }
        i = i + 1;
    }
    proof {
        let fv = flag_view(flags@);
        assert forall|q: int| 0 <= q < fv.len() implies 0 <= #[trigger] num_false(fv[q]) by {
            lemma_num_false_nonneg(fv[q]);
        }
        lemma_total_kept_nonneg(fv);
    }
    changed
}

/// Some flag is set.
pub open spec fn has_true(s: Seq<bool>) -> bool {
    exists|x: int| 0 <= x < s.len() && s[x]
}

fn any_set(v: &Vec<bool>) -> (b: bool)
    ensures
        b == has_true(v@),
{
    let mut x: usize = 0;
    while x < v.len()
        invariant
            x <= v@.len(),
            forall|x2: int| 0 <= x2 < x ==> !v@[x2],
        decreases v@.len() - x,
    {
        if v[x] {
            return true;
        }
        x = x + 1;
    }
    false
}

/// `out` is `orig` at the indices the flags leave unset.
fn filter_phis(orig: Vec<SsaPhiNode>, fl: &Vec<bool>, Ghost(f): Ghost<spec_fn(int) -> bool>) -> (out: Vec<SsaPhiNode>)
    requires
        fl@.len() >= orig@.len(),
        forall|j: int| 0 <= j < orig@.len() ==> #[trigger] f(j) == !fl@[j],
    ensures
        out@ == select(orig@, f, orig@.len() as int),
{
    let ghost o = orig@;
    let mut rest = orig;
    let mut out: Vec<SsaPhiNode> = Vec::new();
    let mut j: usize = 0;
    let n = rest.len();
    while j < n
        invariant
            n == o.len(),
            fl@.len() >= o.len(),
            forall|j: int| 0 <= j < o.len() ==> #[trigger] f(j) == !fl@[j],
            j <= n,
            rest@ == o.subrange(j as int, n as int),
            out@ == select(o, f, j as int),
        decreases n - j,
    {
        let ghost r0 = rest@;
        let x = rest.remove(0);
        proof {
            assert(r0[0] == o[j as int]);
            assert(rest@ =~= o.subrange(j + 1, n as int));
        }
        if !fl[j] {
            out.push(x);
        }
        j = j + 1;
        assert(out@ =~= select(o, f, j as int));
    }
    out
}

fn filter_instrs(orig: Vec<SsaInstruction>, fl: &Vec<bool>, off: usize, Ghost(f): Ghost<spec_fn(int) -> bool>) -> (out: Vec<SsaInstruction>)
    requires
        fl@.len() == off + orig@.len(),
        forall|k: int| 0 <= k < orig@.len() ==> #[trigger] f(k) == !fl@[off + k],
    ensures
        out@ == select(orig@, f, orig@.len() as int),
{
    let ghost o = orig@;
    let mut rest = orig;
    let mut out: Vec<SsaInstruction> = Vec::new();
    let mut k: usize = 0;
    let n = rest.len();
    let fl_len = fl.len();
    while k < n
        invariant
            n == o.len(),
            fl_len == fl@.len(),
            fl@.len() == off + o.len(),
            forall|k: int| 0 <= k < o.len() ==> #[trigger] f(k) == !fl@[off + k],
            k <= n,
            rest@ == o.subrange(k as int, n as int),
            out@ == select(o, f, k as int),
        decreases n - k,
    {
        let ghost r0 = rest@;
        let x = rest.remove(0);
        proof {
            assert(r0[0] == o[k as int]);
            assert(rest@ =~= o.subrange(k + 1, n as int));
        }
        if !fl[off + k] {
            out.push(x);
        }
        k = k + 1;
        assert(out@ =~= select(o, f, k as int));
    }
    out
}

/// Removes the phi nodes and instructions that do not survive (see
/// `survives`): what remains is the largest choice in which every phi node
/// and every side-effect-free instruction with a result has that result
/// read by something that remains, by a terminator, or (outside a routine
/// body) by code outside the graph. Says whether anything was removed.
pub fn dead_code_elimination(ssa_cfg: &mut SsaCFG, globally_used_regs: &HashSet<u32>, is_routine: bool) -> (changed: bool)
    ensures
        dead_code_removed(*old(ssa_cfg), *final(ssa_cfg), globally_used_regs@, is_routine),
        changed == has_dead_code(*old(ssa_cfg), globally_used_regs@, is_routine),
        old(ssa_cfg).blocks.wf() ==> final(ssa_cfg).blocks.wf(),
{
    let ghost g = *ssa_cfg;
    let ghost e = g.blocks.entries@;
    let ghost gl = globally_used_regs@;
    let n = ssa_cfg.blocks.entries.len();
    let mut flags: Vec<Vec<bool>> = Vec::new();
    let mut i: usize = 0;
    while i < n
        invariant
            g == *ssa_cfg,
            e == g.blocks.entries@,
            n == e.len(),
            i <= n,
            flags@.len() == i,
            forall|q: int| 0 <= q < i ==> (#[trigger] flags@[q])@.len() == e[q].1.phi_nodes@.len() + e[q].1.instructions@.len()
                && forall|x: int| 0 <= x < flags@[q]@.len() ==> !flags@[q]@[x],
        decreases n - i,
    {
        let mut fl: Vec<bool> = Vec::new();
        let blk = &ssa_cfg.blocks.entries[i].1;
        let mut j: usize = 0;
        while j < blk.phi_nodes.len()
            invariant
                j <= blk.phi_nodes@.len(),
                fl@.len() == j,
                forall|x: int| 0 <= x < fl@.len() ==> !fl@[x],
            decreases blk.phi_nodes@.len() - j,
        {
            fl.push(false);
            j = j + 1;
        }
        let mut k: usize = 0;
        while k < blk.instructions.len()
            invariant
                k <= blk.instructions@.len(),
                fl@.len() == blk.phi_nodes@.len() + k,
                forall|x: int| 0 <= x < fl@.len() ==> !fl@[x],
            decreases blk.instructions@.len() - k,
        {
            fl.push(false);
            k = k + 1;
        }
        flags.push(fl);
        i = i + 1;
    }
    let ghost f_init = flag_view(flags@);
    proof {
        assert(flags_shape(e, f_init));
        assert forall|k: spec_fn(int, int, int) -> bool| #[trigger] closed(e, k, gl, is_routine)
            implies within(e, k, keep_of(e, f_init)) by {
            assert forall|i: int, j: int| 0 <= i < e.len() && 0 <= j < e[i].1.phi_nodes@.len() && #[trigger] k(i, 0, j)
                implies keep_of(e, f_init)(i, 0, j) by {
                assert(f_init[i] == flags@[i]@);
            }
            assert forall|i: int, x: int| 0 <= i < e.len() && 0 <= x < e[i].1.instructions@.len() && #[trigger] k(i, 1, x)
                implies keep_of(e, f_init)(i, 1, x) by {
                assert(f_init[i] == flags@[i]@);
            }
        }
    }
    loop
        invariant
            g == *ssa_cfg,
            e == g.blocks.entries@,
            gl == globally_used_regs@,
            flags_shape(e, flag_view(flags@)),
            forall|k: spec_fn(int, int, int) -> bool| #[trigger] closed(e, k, gl, is_routine)
                ==> within(e, k, keep_of(e, flag_view(flags@))),
        ensures
            flags_shape(e, flag_view(flags@)),
            forall|k: spec_fn(int, int, int) -> bool| #[trigger] closed(e, k, gl, is_routine)
                ==> within(e, k, keep_of(e, flag_view(flags@))),
            closed(e, keep_of(e, flag_view(flags@)), gl, is_routine),
        decreases total_kept(flag_view(flags@)),
    {
        let c = dce_round(ssa_cfg, &mut flags, globally_used_regs, is_routine);
        if !c {
            break;
        }
    }
    let ghost fin = flag_view(flags@);
    let ghost keep = keep_of(e, fin);
    // whatever the flags keep is exactly what survives
    proof {
        assert(closed(e, keep, gl, is_routine));
        assert forall|i: int, kind: int, x: int| 0 <= i < e.len() && (kind == 0 || kind == 1)
            && 0 <= x < (if kind == 0 { e[i].1.phi_nodes@.len() } else { e[i].1.instructions@.len() })
            implies #[trigger] survives(e, gl, is_routine, i, kind, x) == keep(i, kind, x) by {
            if keep(i, kind, x) {
                assert(closed(e, keep, gl, is_routine) && keep(i, kind, x));
            }
            if survives(e, gl, is_routine, i, kind, x) {
                let k = choose|k: spec_fn(int, int, int) -> bool| #[trigger] closed(e, k, gl, is_routine) && k(i, kind, x);
                assert(within(e, k, keep));
            }
        }
    }
    // anything removed
    let mut any = false;
    let mut i: usize = 0;
    while i < n
        invariant
            e == g.blocks.entries@,
            n == e.len(),
            fin == flag_view(flags@),
            flags_shape(e, fin),
            flags@.len() == n,
            i <= n,
            any == exists|i2: int| 0 <= i2 < i && #[trigger] has_true(fin[i2]),
        decreases n - i,
    {
        assert(fin[i as int] == flags@[i as int]@);
        let t = any_set(&flags[i]);
        any = any || t;
        i = i + 1;
    }
    proof {
        if any {
            let i2 = choose|i2: int| 0 <= i2 < n && #[trigger] has_true(fin[i2]);
            let x2 = choose|x2: int| 0 <= x2 < fin[i2].len() && fin[i2][x2];
            let np = e[i2].1.phi_nodes@.len();
            if x2 < np {
                assert(!survives(e, gl, is_routine, i2, 0, x2));
            } else {
                assert(!survives(e, gl, is_routine, i2, 1, x2 - np));
            }
        } else {
            assert forall|i2: int, j: int| 0 <= i2 < e.len() && 0 <= j < e[i2].1.phi_nodes@.len()
                implies #[trigger] survives(e, gl, is_routine, i2, 0, j) by {
                assert(!has_true(fin[i2]));
                assert(!fin[i2][j]);
            }
            assert forall|i2: int, k: int| 0 <= i2 < e.len() && 0 <= k < e[i2].1.instructions@.len()
                implies #[trigger] survives(e, gl, is_routine, i2, 1, k) by {
                assert(!has_true(fin[i2]));
                assert(!fin[i2][e[i2].1.phi_nodes@.len() + k]);
            }
        }
    }
    // rebuild the blocks
    let mut rest: Vec<(BlockId, SsaBasicBlock)> = Vec::new();
    std::mem::swap(&mut rest, &mut ssa_cfg.blocks.entries);
    let mut out: Vec<(BlockId, SsaBasicBlock)> = Vec::new();
    let mut i: usize = 0;
    while i < n
        invariant
            e == g.blocks.entries@,
            n == e.len(),
            gl == globally_used_regs@,
            fin == flag_view(flags@),
            flags_shape(e, fin),
            keep == keep_of(e, fin),
            forall|i: int, kind: int, x: int| 0 <= i < e.len() && (kind == 0 || kind == 1)
                && 0 <= x < (if kind == 0 { e[i].1.phi_nodes@.len() } else { e[i].1.instructions@.len() })
                ==> #[trigger] survives(e, gl, is_routine, i, kind, x) == keep(i, kind, x),
            ssa_cfg.entry_block == g.entry_block,
            ssa_cfg.original_pc_to_block_id == g.original_pc_to_block_id,
            i <= n,
            rest@ == e.subrange(i as int, n as int),
            out@.len() == i,
            forall|q: int| 0 <= q < i ==> {
                let (k, a) = #[trigger] e[q];
                let (k2, b) = out@[q];
                &&& k2 == k
                &&& b.id == a.id
                &&& b.terminator == a.terminator
                &&& b.phi_nodes@ == select(a.phi_nodes@, |j: int| survives(e, gl, is_routine, q, 0, j), a.phi_nodes@.len() as int)
                &&& b.instructions@ == select(a.instructions@, |k: int| survives(e, gl, is_routine, q, 1, k), a.instructions@.len() as int)
            },
        decreases n - i,
    {
        let ghost r0 = rest@;
        let (id, blk) = rest.remove(0);
        proof {
            assert(r0[0] == e[i as int]);
            assert(rest@ =~= e.subrange(i + 1, n as int));
            assert(fin[i as int] == flags@[i as int]@);
        }
        let SsaBasicBlock { id: bid, phi_nodes, instructions, terminator } = blk;
        let np = phi_nodes.len();
        let ghost fp = |j: int| survives(e, gl, is_routine, i as int, 0, j);
        let ghost fi = |k: int| survives(e, gl, is_routine, i as int, 1, k);
        proof {
            assert forall|j: int| 0 <= j < phi_nodes@.len() implies #[trigger] fp(j) == !flags@[i as int]@[j] by {
                assert(survives(e, gl, is_routine, i as int, 0, j) == keep(i as int, 0, j));
            }
            assert forall|k: int| 0 <= k < instructions@.len() implies #[trigger] fi(k) == !flags@[i as int]@[np + k] by {
                assert(survives(e, gl, is_routine, i as int, 1, k) == keep(i as int, 1, k));
            }
        }
        let new_phis = filter_phis(phi_nodes, &flags[i], Ghost(fp));
        let new_instrs = filter_instrs(instructions, &flags[i], np, Ghost(fi));
        let ghost o0 = out@;
        out.push((id, SsaBasicBlock { id: bid, phi_nodes: new_phis, instructions: new_instrs, terminator }));
        proof {
            assert forall|q: int| 0 <= q < i + 1 implies {
                let (k, a) = #[trigger] e[q];
                let (k2, b) = out@[q];
                &&& k2 == k
                &&& b.id == a.id
                &&& b.terminator == a.terminator
                &&& b.phi_nodes@ == select(a.phi_nodes@, |j: int| survives(e, gl, is_routine, q, 0, j), a.phi_nodes@.len() as int)
                &&& b.instructions@ == select(a.instructions@, |k: int| survives(e, gl, is_routine, q, 1, k), a.instructions@.len() as int)
            } by {
                if q < i {
                    assert(out@[q] == o0[q]);
                }
            }
        }
        i = i + 1;
    }
    proof {
        assert(out@.len() == e.len());
        if g.blocks.wf() {
            assert forall|a: int, b: int| 0 <= a < b < out@.len() implies (#[trigger] out@[a]).0 < (#[trigger] out@[b]).0 by {
                assert(out@[a].0 == e[a].0 && out@[b].0 == e[b].0);
                assert(e[a].0 < e[b].0);
            }
        }
    }
    ssa_cfg.blocks.entries = out;
    any
}

/// Removes dead code (see `dead_code_elimination`).
pub struct DeadCodeEliminationPass;

impl OptimizationPass for DeadCodeEliminationPass {
    fn name(&self) -> (r: &'static str)
        ensures
            r@ == "DeadCodeElimination"@,
    {
        "DeadCodeElimination"
    }

    open spec fn step(&self, before: SsaCFG, after: SsaCFG, globals: Set<u32>, is_routine: bool, changed: bool) -> bool {
        &&& dead_code_removed(before, after, globals, is_routine)
        &&& changed == has_dead_code(before, globals, is_routine)
    }

    fn run(&self, ssa_cfg: &mut SsaCFG, globally_used_regs: &HashSet<u32>, is_routine: bool) -> (changed: bool) {
        dead_code_elimination(ssa_cfg, globally_used_regs, is_routine)
    }
}

} // verus!

//! Dead channel elimination: a channel that is opened but never sent to,
//! received from, awaited, ticked on or selected on, here or anywhere else
//! in the program, is not opened.

use vstd::prelude::*;
use std::collections::HashSet;
use crate::ssa::{SsaCFG, SsaBasicBlock, SsaTerminator, SsaSelectCase};
use crate::ssa::instruction::{SsaInstruction, same_ssa_instr};
use crate::blockmap::{BlockId, BlockMap};
use crate::optimize::OptimizationPass;
use crate::optimize::constant_prop::{same_phi, same_ssa_term, copy_ssa_term};
use crate::plugin::str_eq;

verus! {

/// Removes `OpenChan` instructions of channels nobody uses.
pub struct ChannelLivenessPass {
    /// Channels referenced anywhere in the program.
    pub globally_referenced_channels: Vec<String>,
}

impl ChannelLivenessPass {
    pub fn new(globally_referenced_channels: Vec<String>) -> (p: Self)
        ensures
            p.globally_referenced_channels@ == globally_referenced_channels@,
    {
        ChannelLivenessPass { globally_referenced_channels }
    }
}

/// The channel names an instruction refers to by use.
pub open spec fn instr_channels(s: SsaInstruction) -> Seq<String> {
    match s {
        SsaInstruction::ChanSend { chan_id, .. } => seq![chan_id],
        SsaInstruction::ChanRecv { chan_id, .. } => seq![chan_id],
        SsaInstruction::AwaitChan { chan_id } => seq![chan_id],
        SsaInstruction::LoopTickOn { chan_id } => seq![chan_id],
        SsaInstruction::Select { cases, .. } => cases@.map_values(|c: SsaSelectCase| c.chan_id),
        _ => Seq::empty(),
    }
}

pub open spec fn term_channels(t: SsaTerminator) -> Seq<String> {
    match t {
        SsaTerminator::Select { cases, .. } => cases@.map_values(|c: SsaSelectCase| c.chan_id),
        _ => Seq::empty(),
    }
}

/// Some string of `names` reads `n`.
pub open spec fn names_have(names: Seq<String>, n: Seq<char>) -> bool {
    exists|i: int| 0 <= i < names.len() && (#[trigger] names[i])@ == n
}

/// Channel `n` is used in the graph.
pub open spec fn used_in_cfg(cfg: SsaCFG, n: Seq<char>) -> bool {
    ||| exists|i: int, k: int|
        0 <= i < cfg.blocks.entries@.len() && 0 <= k < cfg.blocks.entries@[i].1.instructions@.len()
            && names_have(instr_channels(#[trigger] cfg.blocks.entries@[i].1.instructions@[k]), n)
    ||| exists|i: int| 0 <= i < cfg.blocks.entries@.len() && names_have(term_channels((#[trigger] cfg.blocks.entries@[i]).1.terminator), n)
}

/// The instruction survives: it opens no channel, or one in use.
pub open spec fn keeps_chan(s: SsaInstruction, used: spec_fn(Seq<char>) -> bool) -> bool {
    match s {
        SsaInstruction::OpenChan { name, .. } => used(name@),
        _ => true,
    }
}

/// `b` lists, as deep copies, the instructions of `a` that `keep` keeps.
pub open spec fn filtered_same(a: Seq<SsaInstruction>, b: Seq<SsaInstruction>, keep: spec_fn(SsaInstruction) -> bool) -> bool {
    let f = a.filter(keep);
    b.len() == f.len() && forall|k: int| 0 <= k < f.len() ==> same_ssa_instr(#[trigger] b[k], f[k])
}

/// `b` is block `a` with only the instructions `keep` keeps.
pub open spec fn block_filtered(a: SsaBasicBlock, b: SsaBasicBlock, keep: spec_fn(SsaInstruction) -> bool) -> bool {
    &&& b.id == a.id
    &&& b.phi_nodes@.len() == a.phi_nodes@.len()
    &&& forall|j: int| 0 <= j < a.phi_nodes@.len() ==> same_phi(#[trigger] b.phi_nodes@[j], a.phi_nodes@[j])
    &&& filtered_same(a.instructions@, b.instructions@, keep)
    &&& same_ssa_term(b.terminator, a.terminator)
}

/// `b` is graph `a` with only the instructions `keep` keeps.
pub open spec fn cfg_filtered(a: SsaCFG, b: SsaCFG, keep: spec_fn(SsaInstruction) -> bool) -> bool {
    &&& b.entry_block == a.entry_block
    &&& b.original_pc_to_block_id@ == a.original_pc_to_block_id@
    &&& b.blocks.entries@.len() == a.blocks.entries@.len()
    &&& forall|i: int| 0 <= i < a.blocks.entries@.len() ==> (#[trigger] b.blocks.entries@[i]).0 == a.blocks.entries@[i].0
        && block_filtered(a.blocks.entries@[i].1, b.blocks.entries@[i].1, keep)
}

/// Some block loses an instruction.
pub open spec fn cfg_drops(a: SsaCFG, keep: spec_fn(SsaInstruction) -> bool) -> bool {
    exists|i: int| 0 <= i < a.blocks.entries@.len() && (#[trigger] a.blocks.entries@[i]).1.instructions@.filter(keep).len() < a.blocks.entries@[i].1.instructions@.len()
}

pub proof fn lemma_filter_step(s: Seq<SsaInstruction>, keep: spec_fn(SsaInstruction) -> bool, i: int)
    requires
        0 <= i < s.len(),
    ensures
        s.subrange(0, i + 1).filter(keep) == if keep(s[i]) {
            s.subrange(0, i).filter(keep).push(s[i])
        } else {
            s.subrange(0, i).filter(keep)
        },
        s.subrange(0, i).filter(keep).len() <= i,
{
    reveal(Seq::filter);
    assert(s.subrange(0, i + 1).drop_last() =~= s.subrange(0, i));
    s.subrange(0, i).lemma_filter_len(keep);
}

/// The channels that the first `k` instructions of `s` use, in order.
pub open spec fn instrs_channels(s: Seq<SsaInstruction>, k: int) -> Seq<String>
    decreases k,
{
    if k <= 0 {
        Seq::empty()
    } else {
        instrs_channels(s, k - 1) + instr_channels(s[k - 1])
    }
}

/// The channels that the first `i` blocks of `e` use, in order.
pub open spec fn entries_channels(e: Seq<(BlockId, SsaBasicBlock)>, i: int) -> Seq<String>
    decreases i,
{
    if i <= 0 {
        Seq::empty()
    } else {
        entries_channels(e, i - 1) + instrs_channels(e[i - 1].1.instructions@, e[i - 1].1.instructions@.len() as int)
            + term_channels(e[i - 1].1.terminator)
    }
}

proof fn lemma_names_concat(a: Seq<String>, b: Seq<String>, c: Seq<char>)
    ensures
        names_have(a + b, c) <==> names_have(a, c) || names_have(b, c),
{
    if names_have(a + b, c) {
        let q = choose|q: int| 0 <= q < (a + b).len() && (#[trigger] (a + b)[q])@ == c;
        if q < a.len() {
            assert(a[q] == (a + b)[q]);
        } else {
            assert(b[q - a.len()] == (a + b)[q]);
        }
    }
    if names_have(a, c) {
        let q = choose|q: int| 0 <= q < a.len() && (#[trigger] a[q])@ == c;
        assert((a + b)[q] == a[q]);
    }
    if names_have(b, c) {
        let q = choose|q: int| 0 <= q < b.len() && (#[trigger] b[q])@ == c;
        assert((a + b)[a.len() + q] == b[q]);
    }
}

/// Instruction `k` of `s` uses channel `c`.
pub open spec fn instr_uses(s: Seq<SsaInstruction>, k: int, c: Seq<char>) -> bool {
    names_have(instr_channels(s[k]), c)
}

proof fn lemma_instrs_channels(s: Seq<SsaInstruction>, k: int, c: Seq<char>)
    requires
        0 <= k <= s.len(),
    ensures
        names_have(instrs_channels(s, k), c) <==> exists|k2: int| 0 <= k2 < k && #[trigger] instr_uses(s, k2, c),
    decreases k,
{
    if k > 0 {
        lemma_instrs_channels(s, k - 1, c);
        lemma_names_concat(instrs_channels(s, k - 1), instr_channels(s[k - 1]), c);
        if instr_uses(s, k - 1, c) {
        }
        if exists|k2: int| 0 <= k2 < k && #[trigger] instr_uses(s, k2, c) {
            let k2 = choose|k2: int| 0 <= k2 < k && #[trigger] instr_uses(s, k2, c);
            if k2 < k - 1 {
            }
        }
    } else {
        assert(instrs_channels(s, k) =~= Seq::<String>::empty());
    }
}

proof fn lemma_entries_channels(e: Seq<(BlockId, SsaBasicBlock)>, i: int, c: Seq<char>)
    requires
        0 <= i <= e.len(),
    ensures
        names_have(entries_channels(e, i), c) <==> (
            (exists|i2: int, k: int| 0 <= i2 < i && 0 <= k < e[i2].1.instructions@.len()
                && names_have(instr_channels(#[trigger] e[i2].1.instructions@[k]), c))
            || (exists|i2: int| 0 <= i2 < i && names_have(term_channels((#[trigger] e[i2]).1.terminator), c))),
    decreases i,
{
    if i > 0 {
        let b = e[i - 1].1;
        let len = b.instructions@.len() as int;
        lemma_entries_channels(e, i - 1, c);
        lemma_names_concat(entries_channels(e, i - 1) + instrs_channels(b.instructions@, len), term_channels(b.terminator), c);
        lemma_names_concat(entries_channels(e, i - 1), instrs_channels(b.instructions@, len), c);
        lemma_instrs_channels(b.instructions@, len, c);
        if names_have(instrs_channels(b.instructions@, len), c) {
            let k2 = choose|k2: int| 0 <= k2 < len && #[trigger] instr_uses(b.instructions@, k2, c);
            assert(names_have(instr_channels(e[i - 1].1.instructions@[k2]), c));
        }
        if exists|i2: int, k: int| 0 <= i2 < i && 0 <= k < e[i2].1.instructions@.len()
                && names_have(instr_channels(#[trigger] e[i2].1.instructions@[k]), c) {
            let (i2, k) = choose|i2: int, k: int| 0 <= i2 < i && 0 <= k < e[i2].1.instructions@.len()
                && names_have(instr_channels(#[trigger] e[i2].1.instructions@[k]), c);
            if i2 == i - 1 {
                assert(instr_uses(b.instructions@, k, c));
            }
        }
        if exists|i2: int| 0 <= i2 < i && names_have(term_channels((#[trigger] e[i2]).1.terminator), c) {
            let i2 = choose|i2: int| 0 <= i2 < i && names_have(term_channels((#[trigger] e[i2]).1.terminator), c);
            if i2 < i - 1 {
            }
        }
    } else {
        assert(entries_channels(e, i) =~= Seq::<String>::empty());
    }
}

pub(crate) fn names_contain(names: &Vec<String>, n: &str) -> (r: bool)
    ensures
        r == names_have(names@, n@),
{
    let mut i: usize = 0;
    while i < names.len()
        invariant
            i <= names@.len(),
            forall|j: int| 0 <= j < i ==> (#[trigger] names@[j])@ != n@,
        decreases names@.len() - i,
    {
        if str_eq(names[i].as_str(), n) {
            return true;
        }
        i = i + 1;
    }
    false
}

fn push_channels(names: &mut Vec<String>, s: &SsaInstruction)
    ensures
        final(names)@ == old(names)@ + instr_channels(*s),
{
    match s {
        SsaInstruction::ChanSend { chan_id, .. } | SsaInstruction::ChanRecv { chan_id, .. } | SsaInstruction::AwaitChan { chan_id }
        | SsaInstruction::LoopTickOn { chan_id } => {
            names.push(chan_id.clone());
        },
        SsaInstruction::Select { cases, .. } => {
            push_case_channels(names, cases);
        },
        _ => {
            assert(old(names)@ + instr_channels(*s) =~= old(names)@);
        },
    }
}

fn push_case_channels(names: &mut Vec<String>, cases: &Vec<SsaSelectCase>)
    ensures
        final(names)@ == old(names)@ + cases@.map_values(|c: SsaSelectCase| c.chan_id),
{
    let mut k: usize = 0;
    while k < cases.len()
        invariant
            k <= cases@.len(),
            names@ == old(names)@ + cases@.subrange(0, k as int).map_values(|c: SsaSelectCase| c.chan_id),
        decreases cases@.len() - k,
    {
        names.push(cases[k].chan_id.clone());
        k = k + 1;
        assert(names@ =~= old(names)@ + cases@.subrange(0, k as int).map_values(|c: SsaSelectCase| c.chan_id));
    }
    assert(cases@.subrange(0, cases@.len() as int) =~= cases@);
}

/// Removes every `OpenChan` of a channel that neither `globals` nor the
/// graph itself uses; says whether any was removed.
pub fn eliminate_dead_channels(ssa_cfg: &mut SsaCFG, globals: &Vec<String>) -> (changed: bool)
    ensures
        cfg_filtered(*old(ssa_cfg), *final(ssa_cfg), |s: SsaInstruction| keeps_chan(s, |n: Seq<char>| names_have(globals@, n) || used_in_cfg(*old(ssa_cfg), n))),
        changed == cfg_drops(*old(ssa_cfg), |s: SsaInstruction| keeps_chan(s, |n: Seq<char>| names_have(globals@, n) || used_in_cfg(*old(ssa_cfg), n))),
{
    let ghost g = *ssa_cfg;
    let n = ssa_cfg.blocks.entries.len();
    // channels used in this graph
    let mut local: Vec<String> = Vec::new();
    let mut i: usize = 0;
    while i < n
        invariant
            g == *ssa_cfg,
            n == g.blocks.entries@.len(),
            i <= n,
            local@ == entries_channels(g.blocks.entries@, i as int),
        decreases n - i,
    {
        let blk = &ssa_cfg.blocks.entries[i].1;
        let ghost l0 = local@;
        let mut k: usize = 0;
        while k < blk.instructions.len()
            invariant
                *blk == g.blocks.entries@[i as int].1,
                k <= blk.instructions@.len(),
                local@ == l0 + instrs_channels(blk.instructions@, k as int),
            decreases blk.instructions@.len() - k,
        {
            push_channels(&mut local, &blk.instructions[k]);
            proof {
                assert(local@ =~= l0 + instrs_channels(blk.instructions@, k + 1));
            }
            k = k + 1;
        }
        match &blk.terminator {
            SsaTerminator::Select { cases, .. } => {
                push_case_channels(&mut local, cases);
            },
            _ => {},
        }
        proof {
            assert(local@ =~= entries_channels(g.blocks.entries@, i + 1));
        }
        i = i + 1;
    }
    proof {
        assert forall|c: Seq<char>| names_have(local@, c) <==> used_in_cfg(g, c) by {
            lemma_entries_channels(g.blocks.entries@, n as int, c);
        }
    }
    let ghost keep = |s: SsaInstruction| keeps_chan(s, |nm: Seq<char>| names_have(globals@, nm) || used_in_cfg(g, nm));
    // remove the dead opens
    let mut entries: Vec<(BlockId, SsaBasicBlock)> = Vec::new();
    let mut changed = false;
    let mut i: usize = 0;
    while i < n
        invariant
            g == *ssa_cfg,
            n == g.blocks.entries@.len(),
            i <= n,
            keep == |s: SsaInstruction| keeps_chan(s, |nm: Seq<char>| names_have(globals@, nm) || used_in_cfg(g, nm)),
            forall|c: Seq<char>| names_have(local@, c) <==> used_in_cfg(g, c),
            entries@.len() == i,
            forall|q: int| 0 <= q < i ==> (#[trigger] entries@[q]).0 == g.blocks.entries@[q].0 && block_filtered(g.blocks.entries@[q].1, entries@[q].1, keep),
            changed == exists|q: int| 0 <= q < i && (#[trigger] g.blocks.entries@[q]).1.instructions@.filter(keep).len() < g.blocks.entries@[q].1.instructions@.len(),
        decreases n - i,
    {
        let blk = &ssa_cfg.blocks.entries[i].1;
        let mut instrs: Vec<SsaInstruction> = Vec::new();
        let mut k: usize = 0;
        while k < blk.instructions.len()
            invariant
                *blk == g.blocks.entries@[i as int].1,
                keep == |s: SsaInstruction| keeps_chan(s, |nm: Seq<char>| names_have(globals@, nm) || used_in_cfg(g, nm)),
                forall|c: Seq<char>| names_have(local@, c) <==> used_in_cfg(g, c),
                k <= blk.instructions@.len(),
                instrs@.len() == blk.instructions@.subrange(0, k as int).filter(keep).len(),
                forall|q: int| 0 <= q < instrs@.len() ==> same_ssa_instr(#[trigger] instrs@[q], blk.instructions@.subrange(0, k as int).filter(keep)[q]),
            decreases blk.instructions@.len() - k,
        {
            proof {
                lemma_filter_step(blk.instructions@, keep, k as int);
            }
            let s = &blk.instructions[k];
            let kept = match s {
                SsaInstruction::OpenChan { name, .. } => names_contain(globals, name.as_str()) || names_contain(&local, name.as_str()),
                _ => true,
            };
            assert(kept == keep(*s));
            if kept {
                instrs.push(s.duplicate());
            }
            k = k + 1;
        }
        proof {
            assert(blk.instructions@.subrange(0, blk.instructions@.len() as int) =~= blk.instructions@);
            blk.instructions@.lemma_filter_len(keep);
        }
        let mut phis = Vec::new();
        let mut j: usize = 0;
        while j < blk.phi_nodes.len()
            invariant
                j <= blk.phi_nodes@.len(),
                phis@.len() == j,
                forall|q: int| 0 <= q < j ==> same_phi(#[trigger] phis@[q], blk.phi_nodes@[q]),
            decreases blk.phi_nodes@.len() - j,
        {
            phis.push(crate::optimize::constant_prop::copy_phi_node(&blk.phi_nodes[j]));
            j = j + 1;
        }
        let dropped = instrs.len() < blk.instructions.len();
        changed = changed || dropped;
        entries.push((ssa_cfg.blocks.entries[i].0, SsaBasicBlock { id: blk.id, phi_nodes: phis, instructions: instrs, terminator: copy_ssa_term(&blk.terminator) }));
        i = i + 1;
    }
    ssa_cfg.blocks = BlockMap { entries };
    changed
}

impl OptimizationPass for ChannelLivenessPass {
    fn name(&self) -> (r: &'static str)
        ensures
            r@ == "channel-liveness"@,
    {
        "channel-liveness"
    }

    open spec fn step(&self, before: SsaCFG, after: SsaCFG, globals: Set<u32>, is_routine: bool, changed: bool) -> bool {
        &&& cfg_filtered(before, after, |s: SsaInstruction| keeps_chan(s, |n: Seq<char>| names_have(self.globally_referenced_channels@, n) || used_in_cfg(before, n)))
        &&& changed == cfg_drops(before, |s: SsaInstruction| keeps_chan(s, |n: Seq<char>| names_have(self.globally_referenced_channels@, n) || used_in_cfg(before, n)))
    }

    fn run(&self, ssa_cfg: &mut SsaCFG, globally_used_regs: &HashSet<u32>, is_routine: bool) -> (changed: bool) {
        eliminate_dead_channels(ssa_cfg, &self.globally_referenced_channels)
    }
}

} // verus!

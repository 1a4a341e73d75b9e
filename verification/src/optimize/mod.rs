//! Optimisation passes over SSA graphs, the manager that runs them to a
//! fixed point, and the lowering of graphs back to flat instruction lists.

pub mod fold;
pub mod copy_prop;
pub mod constant_prop;
pub mod channels;
pub mod flatten;
pub mod entropy;
pub mod graph;
pub mod cfg_simp;
pub mod ssa_check;
pub mod dead_code;
pub mod coalescing;
pub mod lease;
pub mod concurrency;
pub mod pipeline;

pub use flatten::{flatten_cfg, destruct_ssa};

use vstd::prelude::*;
use std::collections::HashSet;
use crate::ssa::SsaCFG;

verus! {

/// A transformation of an SSA graph. `globally_used_regs` are registers
/// that code outside the graph reads; `is_routine` says whether the graph
/// is a routine body (whose registers nothing outside reads). The result
/// says whether the graph changed.
pub trait OptimizationPass {
    fn name(&self) -> &'static str;

    /// What one run of the pass does: it may turn `before` into `after`,
    /// reporting `changed`, given the registers `globals` that code outside
    /// reads and whether the graph is a routine body.
    spec fn step(&self, before: SsaCFG, after: SsaCFG, globals: Set<u32>, is_routine: bool, changed: bool) -> bool;

    fn run(&self, ssa_cfg: &mut SsaCFG, globally_used_regs: &HashSet<u32>, is_routine: bool) -> (changed: bool)
        requires
            old(ssa_cfg).blocks.wf(),
        ensures
            final(ssa_cfg).blocks.wf(),
            self.step(*old(ssa_cfg), *final(ssa_cfg), globally_used_regs@, is_routine, changed),
    ;
}

/// Some pass of the round reported a change.
pub open spec fn any_change(cs: Seq<bool>) -> bool {
    exists|k: int| 0 <= k < cs.len() && cs[k]
}

/// One round: the passes run in order, the `k`-th taking `gs[k]` to
/// `gs[k + 1]` and reporting `cs[k]`.
pub open spec fn round_ran(passes: Seq<Box<dyn OptimizationPass>>, gs: Seq<SsaCFG>, cs: Seq<bool>, globals: Set<u32>, is_routine: bool) -> bool {
    &&& gs.len() == passes.len() + 1
    &&& cs.len() == passes.len()
    &&& forall|k: int| 0 <= k < passes.len() ==> #[trigger] passes[k].step(gs[k], gs[k + 1], globals, is_routine, cs[k])
}

/// `rounds` rounds of the passes take `a` to `b`: each round starts where
/// the one before ended, every round but the last reports a change, and
/// the last reports none unless it is the tenth.
pub open spec fn rounds_ran(
    passes: Seq<Box<dyn OptimizationPass>>,
    a: SsaCFG,
    b: SsaCFG,
    gs: Seq<Seq<SsaCFG>>,
    cs: Seq<Seq<bool>>,
    rounds: int,
    globals: Set<u32>,
    is_routine: bool,
) -> bool {
    &&& 1 <= rounds <= 10
    &&& gs.len() == rounds
    &&& cs.len() == rounds
    &&& gs[0][0] == a
    &&& gs[rounds - 1][passes.len() as int] == b
    &&& forall|r: int| 0 <= r < rounds ==> round_ran(passes, #[trigger] gs[r], cs[r], globals, is_routine)
    &&& forall|r: int| 1 <= r < rounds ==> (#[trigger] gs[r])[0] == gs[r - 1][passes.len() as int] && any_change(cs[r - 1])
    &&& rounds < 10 ==> !any_change(cs[rounds - 1])
}

/// Runs passes in order, round after round, until a round changes nothing
/// or ten rounds have run.
pub struct PassManager {
    passes: Vec<Box<dyn OptimizationPass>>,
}

impl PassManager {
    /// How many passes the manager runs.
    pub closed spec fn pass_count(&self) -> nat {
        self.passes@.len()
    }

    /// The passes the manager runs, in order.
    pub closed spec fn passes(&self) -> Seq<Box<dyn OptimizationPass>> {
        self.passes@
    }

    pub fn new() -> (m: Self)
        ensures
            m.pass_count() == 0,
            m.passes() == Seq::<Box<dyn OptimizationPass>>::empty(),
    {
        PassManager { passes: Vec::new() }
    }

    /// Appends a pass to the ones the manager runs.
    pub fn add_pass(&mut self, pass: Box<dyn OptimizationPass>)
        ensures
            final(self).passes() == old(self).passes().push(pass),
    {
        self.passes.push(pass);
    }

    /// Runs every pass in order, and again, while a round changes the graph
    /// and fewer than ten rounds have run. Returns the number of rounds.
    pub fn run(&self, ssa_cfg: &mut SsaCFG, globally_used_regs: &HashSet<u32>, is_routine: bool) -> (rounds: u32)
        requires
            old(ssa_cfg).blocks.wf(),
        ensures
            final(ssa_cfg).blocks.wf(),
            1 <= rounds <= 10,
            exists|gs: Seq<Seq<SsaCFG>>, cs: Seq<Seq<bool>>|
                #[trigger] rounds_ran(self.passes(), *old(ssa_cfg), *final(ssa_cfg), gs, cs, rounds as int, globally_used_regs@, is_routine),
    {
        let ghost passes = self.passes@;
        let ghost np = passes.len() as int;
        let ghost globals = globally_used_regs@;
        let ghost mut gs: Seq<Seq<SsaCFG>> = Seq::empty();
        let ghost mut cs: Seq<Seq<bool>> = Seq::empty();
        let mut changed = true;
        let mut iterations: u32 = 0;
        while changed && iterations < 10
            invariant
                passes == self.passes@,
                np == passes.len(),
                globals == globally_used_regs@,
                ssa_cfg.blocks.wf(),
                iterations <= 10,
                iterations == 0 ==> changed && *ssa_cfg == *old(ssa_cfg),
                gs.len() == iterations,
                cs.len() == iterations,
                iterations > 0 ==> gs[0][0] == *old(ssa_cfg) && gs[iterations - 1][np] == *ssa_cfg && changed == any_change(cs[iterations - 1]),
                forall|r: int| 0 <= r < iterations ==> round_ran(passes, #[trigger] gs[r], cs[r], globals, is_routine),
                forall|r: int| 1 <= r < iterations ==> (#[trigger] gs[r])[0] == gs[r - 1][np] && any_change(cs[r - 1]),
            decreases 10 - iterations,
        {
            let ghost start = *ssa_cfg;
            let ghost mut rg: Seq<SsaCFG> = seq![start];
            let ghost mut rc: Seq<bool> = Seq::empty();
            let ghost was_changed = changed;
            changed = false;
            let mut k: usize = 0;
            while k < self.passes.len()
                invariant
                    passes == self.passes@,
                    np == passes.len(),
                    globals == globally_used_regs@,
                    ssa_cfg.blocks.wf(),
                    k <= np,
                    rg.len() == k + 1,
                    rc.len() == k,
                    rg[0] == start,
                    rg[k as int] == *ssa_cfg,
                    forall|j: int| 0 <= j < k ==> #[trigger] passes[j].step(rg[j], rg[j + 1], globals, is_routine, rc[j]),
                    changed == any_change(rc),
                decreases np - k,
            {
                let ghost before = *ssa_cfg;
                let c = self.passes[k].run(ssa_cfg, globally_used_regs, is_routine);
                if c {
                    changed = true;
                }
                proof {
                    let rc0 = rc;
                    let rg0 = rg;
                    rg = rg.push(*ssa_cfg);
                    rc = rc.push(c);
                    assert forall|j: int| 0 <= j < k + 1 implies #[trigger] passes[j].step(rg[j], rg[j + 1], globals, is_routine, rc[j]) by {
                        if j < k {
                            assert(rg[j] == rg0[j] && rg[j + 1] == rg0[j + 1] && rc[j] == rc0[j]);
                        }
                    }
                    if changed {
                        if c {
                            assert(rc[k as int]);
                        } else {
                            let w = choose|w: int| 0 <= w < rc0.len() && rc0[w];
                            assert(rc[w]);
                        }
                        assert(any_change(rc));
                    } else {
                        assert forall|w: int| 0 <= w < rc.len() implies !rc[w] by {
                            if w < k {
                                assert(rc[w] == rc0[w]);
                            }
                        }
                    }
                }
                k = k + 1;
            }
            proof {
                let gs0 = gs;
                let cs0 = cs;
                gs = gs.push(rg);
                cs = cs.push(rc);
                assert forall|r: int| 0 <= r < iterations + 1 implies round_ran(passes, #[trigger] gs[r], cs[r], globals, is_routine) by {
                    if r < iterations {
                        assert(gs[r] == gs0[r] && cs[r] == cs0[r]);
                    }
                }
                assert forall|r: int| 1 <= r < iterations + 1 implies (#[trigger] gs[r])[0] == gs[r - 1][np] && any_change(cs[r - 1]) by {
                    if r < iterations {
                        assert(gs[r] == gs0[r] && gs[r - 1] == gs0[r - 1] && cs[r - 1] == cs0[r - 1]);
                    } else {
                        assert(gs[r - 1] == gs0[r - 1] && cs[r - 1] == cs0[r - 1]);
                    }
                }
            }
            iterations = iterations + 1;
        }
        proof {
            assert(self.passes() == passes);
            assert(rounds_ran(self.passes(), *old(ssa_cfg), *ssa_cfg, gs, cs, iterations as int, globally_used_regs@, is_routine));
        }
        iterations
    }
}

/// A graph whose blocks keep the keys of a well-formed graph, position by
/// position, is well formed.
pub proof fn lemma_same_keys_wf(a: SsaCFG, b: SsaCFG)
    requires
        a.blocks.wf(),
        b.blocks.entries@.len() == a.blocks.entries@.len(),
        forall|i: int| 0 <= i < a.blocks.entries@.len() ==> (#[trigger] b.blocks.entries@[i]).0 == a.blocks.entries@[i].0,
    ensures
        b.blocks.wf(),
{
    assert forall|x: int, y: int| 0 <= x < y < b.blocks.entries@.len() implies
        (#[trigger] b.blocks.entries@[x]).0 < (#[trigger] b.blocks.entries@[y]).0 by {
        assert(a.blocks.entries@[x].0 < a.blocks.entries@[y].0);
    }
}

} // verus!

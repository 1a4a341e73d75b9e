//! Whole programs: the timeline blocks and routines that the front end
//! produces, and the passes that work across them.

use vstd::prelude::*;
use crate::ir::{Reg, ParamMode, EntropyMode, TypeName, AutoDropSpec, ForeignBinding};
use crate::instruction::Instruction;
use crate::plugin::str_eq;
use crate::optimize::channels::{names_have, names_contain};
use crate::ssa::transformer::{num_false, covers, lemma_num_false_covers};
use crate::ir::BinaryOperator;
use crate::optimize::PassManager;
use crate::optimize::fold::SsaConstant;
use crate::optimize::pipeline::{optimize_instructions, ssa_of_instructions, note_read_before_defined, optimized_via, pipeline_rejects};
use crate::optimize::OptimizationPass;
use crate::optimize::constant_prop::ConstantPropagationPass;
use crate::optimize::copy_prop::CopyPropagationPass;
use crate::optimize::cfg_simp::CfgSimplificationPass;
use crate::optimize::entropy::EntropyOptimizationPass;
use crate::optimize::channels::ChannelLivenessPass;
use crate::optimize::lease::LeaseOptimizationPass;
use crate::optimize::concurrency::ConcurrencyAnalysisPass;
use crate::optimize::coalescing::BlockCoalescingPass;
use crate::optimize::dead_code::DeadCodeEliminationPass;
use crate::optimize::ssa_check::VerifierPass;
use crate::cfg::CFG;
use crate::ssa::SsaCFG;
use std::collections::HashSet;
use crate::debug_text::{instruction_debug, instruction_debug_text};
use crate::text::{push_str, push_decimal, dec_text};

verus! {

/// A range of source text.
#[derive(Debug, Clone, Copy, PartialEq, Eq, Hash, Structural)]
pub struct Span {
    pub start: usize,
    pub end: usize,
}

/// The time coordinate of a timeline block, held as its surface text.
#[derive(Debug, Clone, PartialEq, Eq, Hash)]
pub struct TimeCoordinate {
    pub text: String,
}

/// A routine: its signature and its flat instructions, each with the source
/// range it came from where that is known.
#[derive(Debug, Clone, PartialEq, Eq)]
pub struct IrRoutine {
    pub params: Vec<(ParamMode, String, TypeName)>,
    pub return_type: TypeName,
    pub taking_ms: Option<u64>,
    pub foreign_binding: Option<ForeignBinding>,
    pub instructions: Vec<Instruction>,
    pub spans: Vec<Option<Span>>,
}

/// A block of the root timeline.
#[derive(Debug, Clone, PartialEq, Eq)]
pub struct IrBlock {
    pub time: TimeCoordinate,
    pub entropy_mode: Option<EntropyMode>,
    pub instructions: Vec<Instruction>,
    pub spans: Vec<Option<Span>>,
}

/// A whole program. The tables keyed by name hold each name once.
#[derive(Debug, Clone, PartialEq, Eq)]
pub struct IrProgram {
    pub blocks: Vec<IrBlock>,
    pub routines: Vec<(String, IrRoutine)>,
    pub symbols: Vec<(String, Reg)>,
    pub type_decay_limits: Vec<(String, u64)>,
    pub auto_drop_specs: Vec<(String, AutoDropSpec)>,
    pub struct_extends: Vec<(String, String)>,
    pub decay_handlers: Vec<(String, Vec<Instruction>)>,
}

/// The name of the `i`-th routine.
pub open spec fn rname(ir: IrProgram, i: int) -> Seq<char> {
    ir.routines@[i].0@
}

/// No two routines share a name.
pub open spec fn routines_distinct(ir: IrProgram) -> bool {
    forall|i: int, j: int|
        0 <= i < ir.routines@.len() && 0 <= j < ir.routines@.len() && i != j ==> #[trigger] rname(ir, i) != #[trigger] rname(ir, j)
}

// ---------------------------------------------------------------------------
// Channels referenced anywhere in the program

/// The channels that an instruction sends to, receives from, waits on,
/// ticks on or selects over.
pub open spec fn chan_refs(i: Instruction) -> Seq<Seq<char>> {
    match i {
        Instruction::ChanSend { chan_id, .. } => seq![chan_id@],
        Instruction::ChanRecv { chan_id, .. } => seq![chan_id@],
        Instruction::AwaitChan { chan_id } => seq![chan_id@],
        Instruction::LoopTickOn { chan_id } => seq![chan_id@],
        Instruction::Select { cases, .. } => cases@.map_values(|c: crate::ir::IrSelectCase| c.chan_id@),
        _ => Seq::empty(),
    }
}

/// Some instruction of `is` references channel `c`.
pub open spec fn instrs_ref(is: Seq<Instruction>, c: Seq<char>) -> bool {
    exists|k: int| 0 <= k < is.len() && (#[trigger] chan_refs(is[k])).contains(c)
}

/// One of the first `n` timeline blocks references channel `c`.
pub open spec fn blocks_ref(ir: IrProgram, n: int, c: Seq<char>) -> bool {
    exists|x: int| 0 <= x < n && instrs_ref((#[trigger] ir.blocks@[x]).instructions@, c)
}

/// One of the first `n` routines references channel `c`.
pub open spec fn routines_ref(ir: IrProgram, n: int, c: Seq<char>) -> bool {
    exists|x: int| 0 <= x < n && instrs_ref((#[trigger] ir.routines@[x]).1.instructions@, c)
}

/// One of the first `n` decay handlers references channel `c`.
pub open spec fn handlers_ref(ir: IrProgram, n: int, c: Seq<char>) -> bool {
    exists|x: int| 0 <= x < n && instrs_ref((#[trigger] ir.decay_handlers@[x]).1@, c)
}

/// Some block, routine or decay handler of the program references channel `c`.
pub open spec fn program_refs(ir: IrProgram, c: Seq<char>) -> bool {
    ||| blocks_ref(ir, ir.blocks@.len() as int, c)
    ||| routines_ref(ir, ir.routines@.len() as int, c)
    ||| handlers_ref(ir, ir.decay_handlers@.len() as int, c)
}

proof fn lemma_refs_step(ir: IrProgram, n: int, c: Seq<char>)
    requires
        0 <= n,
    ensures
        n < ir.blocks@.len() ==> (blocks_ref(ir, n + 1, c) <==> (blocks_ref(ir, n, c) || instrs_ref(ir.blocks@[n].instructions@, c))),
        n < ir.routines@.len() ==> (routines_ref(ir, n + 1, c) <==> (routines_ref(ir, n, c) || instrs_ref(ir.routines@[n].1.instructions@, c))),
        n < ir.decay_handlers@.len() ==> (handlers_ref(ir, n + 1, c) <==> (handlers_ref(ir, n, c) || instrs_ref(ir.decay_handlers@[n].1@, c))),
{
    if n < ir.blocks@.len() && blocks_ref(ir, n + 1, c) && !instrs_ref(ir.blocks@[n].instructions@, c) {
        let x = choose|x: int| 0 <= x < n + 1 && instrs_ref((#[trigger] ir.blocks@[x]).instructions@, c);
        assert(x != n);
    }
    if n < ir.routines@.len() && routines_ref(ir, n + 1, c) && !instrs_ref(ir.routines@[n].1.instructions@, c) {
        let x = choose|x: int| 0 <= x < n + 1 && instrs_ref((#[trigger] ir.routines@[x]).1.instructions@, c);
        assert(x != n);
    }
    if n < ir.decay_handlers@.len() && handlers_ref(ir, n + 1, c) && !instrs_ref(ir.decay_handlers@[n].1@, c) {
        let x = choose|x: int| 0 <= x < n + 1 && instrs_ref((#[trigger] ir.decay_handlers@[x]).1@, c);
        assert(x != n);
    }
}

proof fn lemma_one(x: Seq<char>, c: Seq<char>)
    ensures
        seq![x].contains(c) <==> c == x,
{
    if c == x {
        assert(seq![x][0] == c);
    }
}

proof fn lemma_take_step<A>(s: Seq<A>, k: int, c: A)
    requires
        0 <= k < s.len(),
    ensures
        s.take(k + 1).contains(c) <==> (s.take(k).contains(c) || s[k] == c),
{
    if s.take(k + 1).contains(c) && s[k] != c {
        let q = choose|q: int| 0 <= q < s.take(k + 1).len() && #[trigger] s.take(k + 1)[q] == c;
        assert(s.take(k)[q] == c);
    }
    if s.take(k).contains(c) {
        let q = choose|q: int| 0 <= q < s.take(k).len() && #[trigger] s.take(k)[q] == c;
        assert(s.take(k + 1)[q] == c);
    }
    if s[k] == c {
        assert(s.take(k + 1)[k] == c);
    }
}

proof fn lemma_instrs_step(is: Seq<Instruction>, k: int, c: Seq<char>)
    requires
        0 <= k < is.len(),
    ensures
        instrs_ref(is.take(k + 1), c) <==> (instrs_ref(is.take(k), c) || chan_refs(is[k]).contains(c)),
{
    if instrs_ref(is.take(k + 1), c) {
        let q = choose|q: int| 0 <= q < is.take(k + 1).len() && (#[trigger] chan_refs(is.take(k + 1)[q])).contains(c);
        if q < k {
            assert(is.take(k)[q] == is.take(k + 1)[q]);
        }
    }
    if instrs_ref(is.take(k), c) {
        let q = choose|q: int| 0 <= q < is.take(k).len() && (#[trigger] chan_refs(is.take(k)[q])).contains(c);
        assert(is.take(k)[q] == is.take(k + 1)[q]);
    }
    if chan_refs(is[k]).contains(c) {
        assert(is.take(k + 1)[k] == is[k]);
    }
}

/// No name occurs twice in `v`.
pub open spec fn names_distinct(v: Seq<String>) -> bool {
    forall|i: int, j: int| 0 <= i < v.len() && 0 <= j < v.len() && i != j ==> #[trigger] v[i]@ != #[trigger] v[j]@
}

fn add_name(names: &mut Vec<String>, n: &String)
    requires
        names_distinct(old(names)@),
    ensures
        names_distinct(final(names)@),
        forall|c: Seq<char>| #[trigger] names_have(final(names)@, c) <==> (names_have(old(names)@, c) || c == n@),
{
    if !names_contain(names, n.as_str()) {
        let ghost o = names@;
        names.push(n.clone());
        assert forall|c: Seq<char>| #[trigger] names_have(names@, c) <==> (names_have(o, c) || c == n@) by {
            if names_have(names@, c) {
                let k = choose|k: int| 0 <= k < names@.len() && (#[trigger] names@[k])@ == c;
                if k < o.len() {
                    assert(o[k] == names@[k]);
                }
            }
            if names_have(o, c) {
                let k = choose|k: int| 0 <= k < o.len() && (#[trigger] o[k])@ == c;
                assert(names@[k] == o[k]);
            }
            if c == n@ {
                assert(names@[o.len() as int]@ == c);
            }
        }
    }
}

fn add_instr_channels(names: &mut Vec<String>, i: &Instruction)
    requires
        names_distinct(old(names)@),
    ensures
        names_distinct(final(names)@),
        forall|c: Seq<char>| #[trigger] names_have(final(names)@, c) <==> (names_have(old(names)@, c) || chan_refs(*i).contains(c)),
{
    match i {
        Instruction::ChanSend { chan_id, .. } => {
            add_name(names, chan_id);
            assert forall|c: Seq<char>| chan_refs(*i).contains(c) <==> c == chan_id@ by {
                lemma_one(chan_id@, c);
            }
        },
        Instruction::ChanRecv { chan_id, .. } => {
            add_name(names, chan_id);
            assert forall|c: Seq<char>| chan_refs(*i).contains(c) <==> c == chan_id@ by {
                lemma_one(chan_id@, c);
            }
        },
        Instruction::AwaitChan { chan_id } => {
            add_name(names, chan_id);
            assert forall|c: Seq<char>| chan_refs(*i).contains(c) <==> c == chan_id@ by {
                lemma_one(chan_id@, c);
            }
        },
        Instruction::LoopTickOn { chan_id } => {
            add_name(names, chan_id);
            assert forall|c: Seq<char>| chan_refs(*i).contains(c) <==> c == chan_id@ by {
                lemma_one(chan_id@, c);
            }
        },
        Instruction::Select { cases, .. } => {
            let ghost o = names@;
            let ghost cs = cases@.map_values(|c: crate::ir::IrSelectCase| c.chan_id@);
            let mut k: usize = 0;
            while k < cases.len()
                invariant
                    k <= cases@.len(),
                    cs == cases@.map_values(|c: crate::ir::IrSelectCase| c.chan_id@),
                    names_distinct(names@),
                    forall|c: Seq<char>| #[trigger] names_have(names@, c) <==> (names_have(o, c) || cs.take(k as int).contains(c)),
                decreases cases@.len() - k,
            {
                let ghost mid = names@;
                add_name(names, &cases[k].chan_id);
                assert forall|c: Seq<char>| #[trigger] names_have(names@, c) <==> (names_have(o, c) || cs.take(k + 1).contains(c)) by {
                    lemma_take_step(cs, k as int, c);
                    assert(cs[k as int] == cases@[k as int].chan_id@);
                    assert(names_have(names@, c) <==> (names_have(mid, c) || c == cases@[k as int].chan_id@));
                    assert(names_have(mid, c) <==> (names_have(o, c) || cs.take(k as int).contains(c)));
                }
                k = k + 1;
            }
            assert(cs.take(cases@.len() as int) =~= cs);
        },
        _ => {},
    }
}

fn add_instrs_channels(names: &mut Vec<String>, is: &Vec<Instruction>)
    requires
        names_distinct(old(names)@),
    ensures
        names_distinct(final(names)@),
        forall|c: Seq<char>| #[trigger] names_have(final(names)@, c) <==> (names_have(old(names)@, c) || instrs_ref(is@, c)),
{
    let ghost o = names@;
    let mut k: usize = 0;
    while k < is.len()
        invariant
            k <= is@.len(),
            names_distinct(names@),
            forall|c: Seq<char>| #[trigger] names_have(names@, c) <==> (names_have(o, c) || instrs_ref(is@.take(k as int), c)),
        decreases is@.len() - k,
    {
        let ghost mid = names@;
        add_instr_channels(names, &is[k]);
        assert forall|c: Seq<char>| #[trigger] names_have(names@, c) <==> (names_have(o, c) || instrs_ref(is@.take(k + 1), c)) by {
            lemma_instrs_step(is@, k as int, c);
            assert(names_have(names@, c) <==> (names_have(mid, c) || chan_refs(is@[k as int]).contains(c)));
            assert(names_have(mid, c) <==> (names_have(o, c) || instrs_ref(is@.take(k as int), c)));
        }
        k = k + 1;
    }
    assert(is@.take(is@.len() as int) =~= is@);
}

/// The channels that some block, routine or decay handler of the program
/// sends to, receives from, waits on, ticks on or selects over, each once.
pub fn collect_globally_referenced_channels(ir: &IrProgram) -> (names: Vec<String>)
    ensures
        names_distinct(names@),
        forall|c: Seq<char>| #[trigger] names_have(names@, c) <==> program_refs(*ir, c),
{
    let mut names: Vec<String> = Vec::new();
    let mut b: usize = 0;
    while b < ir.blocks.len()
        invariant
            b <= ir.blocks@.len(),
            names_distinct(names@),
            forall|c: Seq<char>| #[trigger] names_have(names@, c) <==> blocks_ref(*ir, b as int, c),
        decreases ir.blocks@.len() - b,
    {
        let ghost mid = names@;
        add_instrs_channels(&mut names, &ir.blocks[b].instructions);
        assert forall|c: Seq<char>| #[trigger] names_have(names@, c) <==> blocks_ref(*ir, b + 1, c) by {
            lemma_refs_step(*ir, b as int, c);
            assert(names_have(mid, c) <==> blocks_ref(*ir, b as int, c));
        }
        b = b + 1;
    }
    let mut r: usize = 0;
    while r < ir.routines.len()
        invariant
            r <= ir.routines@.len(),
            names_distinct(names@),
            forall|c: Seq<char>| #[trigger] names_have(names@, c) <==> (blocks_ref(*ir, ir.blocks@.len() as int, c) || routines_ref(*ir, r as int, c)),
        decreases ir.routines@.len() - r,
    {
        let ghost mid = names@;
        add_instrs_channels(&mut names, &ir.routines[r].1.instructions);
        assert forall|c: Seq<char>| #[trigger] names_have(names@, c) <==> (blocks_ref(*ir, ir.blocks@.len() as int, c) || routines_ref(*ir, r + 1, c)) by {
            lemma_refs_step(*ir, r as int, c);
            assert(names_have(mid, c) <==> (blocks_ref(*ir, ir.blocks@.len() as int, c) || routines_ref(*ir, r as int, c)));
        }
        r = r + 1;
    }
    let mut h: usize = 0;
    while h < ir.decay_handlers.len()
        invariant
            h <= ir.decay_handlers@.len(),
            names_distinct(names@),
            forall|c: Seq<char>| #[trigger] names_have(names@, c) <==> (blocks_ref(*ir, ir.blocks@.len() as int, c)
                || routines_ref(*ir, ir.routines@.len() as int, c) || handlers_ref(*ir, h as int, c)),
        decreases ir.decay_handlers@.len() - h,
    {
        let ghost mid = names@;
        add_instrs_channels(&mut names, &ir.decay_handlers[h].1);
        assert forall|c: Seq<char>| #[trigger] names_have(names@, c) <==> (blocks_ref(*ir, ir.blocks@.len() as int, c)
            || routines_ref(*ir, ir.routines@.len() as int, c) || handlers_ref(*ir, h + 1, c)) by {
            lemma_refs_step(*ir, h as int, c);
            assert(names_have(mid, c) <==> (blocks_ref(*ir, ir.blocks@.len() as int, c)
                || routines_ref(*ir, ir.routines@.len() as int, c) || handlers_ref(*ir, h as int, c)));
        }
        h = h + 1;
    }
    names
}


// ---------------------------------------------------------------------------
// Routines reachable from the root timeline

/// Instruction `i` calls a routine named `n`.
pub open spec fn calls_name(i: Instruction, n: Seq<char>) -> bool {
    match i {
        Instruction::Call { routine, .. } => routine@ == n,
        _ => false,
    }
}

/// Instruction `i` calls method `m` dynamically.
pub open spec fn dyn_name(i: Instruction, m: Seq<char>) -> bool {
    match i {
        Instruction::DynamicCall { method, .. } => method@ == m,
        _ => false,
    }
}

/// Some instruction of `is` calls a routine named `n`.
pub open spec fn instrs_call(is: Seq<Instruction>, n: Seq<char>) -> bool {
    exists|k: int| 0 <= k < is.len() && #[trigger] calls_name(is[k], n)
}

/// Some instruction of `is` calls method `m` dynamically.
pub open spec fn instrs_dyn(is: Seq<Instruction>, m: Seq<char>) -> bool {
    exists|k: int| 0 <= k < is.len() && #[trigger] dyn_name(is[k], m)
}

/// One of the first `b` timeline blocks calls a routine named `n`.
pub open spec fn root_calls(ir: IrProgram, b: int, n: Seq<char>) -> bool {
    exists|x: int| 0 <= x < b && instrs_call((#[trigger] ir.blocks@[x]).instructions@, n)
}

/// One of the first `b` timeline blocks calls method `m` dynamically.
pub open spec fn root_dyn(ir: IrProgram, b: int, m: Seq<char>) -> bool {
    exists|x: int| 0 <= x < b && instrs_dyn((#[trigger] ir.blocks@[x]).instructions@, m)
}

/// `name` is `m`, or ends in a dot followed by `m`.
pub open spec fn method_matches(name: Seq<char>, m: Seq<char>) -> bool {
    name == m || (name.len() > m.len() && name.subrange(name.len() - m.len() - 1, name.len() as int) == seq!['.'] + m)
}

/// Routine `i` is called from the root timeline, or its name matches a
/// method that the root timeline calls dynamically.
pub open spec fn seed(ir: IrProgram, i: int) -> bool {
    ||| root_calls(ir, ir.blocks@.len() as int, rname(ir, i))
    ||| exists|m: Seq<char>| root_dyn(ir, ir.blocks@.len() as int, m) && #[trigger] method_matches(rname(ir, i), m)
}

/// Instruction `i` leads to a routine named `n`: it calls `n`, or it calls
/// dynamically a method that `n` matches.
pub open spec fn reaches_name(i: Instruction, n: Seq<char>) -> bool {
    match i {
        Instruction::Call { routine, .. } => routine@ == n,
        Instruction::DynamicCall { method, .. } => method_matches(n, method@),
        _ => false,
    }
}

/// Routine `i` calls routine `j`, or calls dynamically a method that `j`'s
/// name matches.
pub open spec fn calls_routine(ir: IrProgram, i: int, j: int) -> bool {
    exists|k: int| 0 <= k < ir.routines@[i].1.instructions@.len() && #[trigger] reaches_name(ir.routines@[i].1.instructions@[k], rname(ir, j))
}

/// Step `k` of chain `p` is a call.
pub open spec fn chain_step(ir: IrProgram, p: Seq<int>, k: int) -> bool {
    calls_routine(ir, p[k], p[k + 1])
}

/// A chain of routines from a seed, each calling the next.
pub open spec fn call_chain(ir: IrProgram, p: Seq<int>) -> bool {
    &&& p.len() >= 1
    &&& forall|k: int| 0 <= k < p.len() ==> 0 <= #[trigger] p[k] < ir.routines@.len()
    &&& seed(ir, p[0])
    &&& forall|k: int| 0 <= k < p.len() - 1 ==> #[trigger] chain_step(ir, p, k)
}

/// Routine `i` is reached from the root timeline along calls.
pub open spec fn reachable_routine(ir: IrProgram, i: int) -> bool {
    exists|p: Seq<int>| #[trigger] call_chain(ir, p) && p.last() == i
}

/// The first `n` routines of `ir`, keeping only those that `keep` holds of,
/// in their order.
pub open spec fn routines_kept(ir: IrProgram, keep: spec_fn(int) -> bool, n: int) -> Seq<(String, IrRoutine)>
    decreases n,
{
    if n <= 0 {
        Seq::empty()
    } else {
        routines_kept(ir, keep, n - 1) + if keep(n - 1) {
            seq![ir.routines@[n - 1]]
        } else {
            Seq::empty()
        }
    }
}

/// The routines of `ir` that are reached from its root timeline.
pub open spec fn reachable_routines(ir: IrProgram) -> Seq<(String, IrRoutine)> {
    routines_kept(ir, |i: int| reachable_routine(ir, i), ir.routines@.len() as int)
}

/// `b` is `a` with other routines.
pub open spec fn same_but_routines(a: IrProgram, b: IrProgram) -> bool {
    &&& b.blocks == a.blocks
    &&& b.symbols == a.symbols
    &&& b.type_decay_limits == a.type_decay_limits
    &&& b.auto_drop_specs == a.auto_drop_specs
    &&& b.struct_extends == a.struct_extends
    &&& b.decay_handlers == a.decay_handlers
}

proof fn lemma_seed_chain(ir: IrProgram, j: int)
    requires
        0 <= j < ir.routines@.len(),
        seed(ir, j),
    ensures
        reachable_routine(ir, j),
{
    let p = seq![j];
    assert(p[0] == j);
    assert(call_chain(ir, p));
}

proof fn lemma_chain_extend(ir: IrProgram, i: int, j: int)
    requires
        0 <= j < ir.routines@.len(),
        reachable_routine(ir, i),
        calls_routine(ir, i, j),
    ensures
        reachable_routine(ir, j),
{
    let p = choose|p: Seq<int>| #[trigger] call_chain(ir, p) && p.last() == i;
    let p2 = p.push(j);
    assert forall|k: int| 0 <= k < p2.len() implies 0 <= #[trigger] p2[k] < ir.routines@.len() by {
        if k < p.len() {
            assert(p2[k] == p[k]);
        }
    }
    assert forall|k: int| 0 <= k < p2.len() - 1 implies #[trigger] chain_step(ir, p2, k) by {
        if k < p.len() - 1 {
            assert(chain_step(ir, p, k));
            assert(p2[k] == p[k] && p2[k + 1] == p[k + 1]);
        } else {
            assert(p2[k] == i && p2[k + 1] == j);
        }
    }
    assert(p2[0] == p[0]);
    assert(call_chain(ir, p2));
    assert(p2.last() == j);
}

/// Marks that hold all seeds and are closed under calls hold every
/// reachable routine.
proof fn lemma_closed_covers(ir: IrProgram, marks: Seq<bool>, p: Seq<int>)
    requires
        marks.len() == ir.routines@.len(),
        forall|j: int| 0 <= j < marks.len() && seed(ir, j) ==> #[trigger] marks[j],
        forall|i: int, j: int| 0 <= i < marks.len() && 0 <= j < marks.len() && #[trigger] marks[i] && #[trigger] calls_routine(ir, i, j) ==> marks[j],
        call_chain(ir, p),
    ensures
        marks[p.last()],
    decreases p.len(),
{
    if p.len() > 1 {
        let q = p.drop_last();
        assert forall|k: int| 0 <= k < q.len() implies 0 <= #[trigger] q[k] < ir.routines@.len() by {
            assert(q[k] == p[k]);
        }
        assert forall|k: int| 0 <= k < q.len() - 1 implies #[trigger] chain_step(ir, q, k) by {
            assert(chain_step(ir, p, k));
        }
        assert(call_chain(ir, q));
        lemma_closed_covers(ir, marks, q);
        assert(chain_step(ir, p, p.len() - 2));
        assert(q.last() == p[p.len() - 2]);
        assert(0 <= p.last() < marks.len());
    }
}

/// The position of the routine named `n`, if there is one.
fn find_routine(rs: &Vec<(String, IrRoutine)>, n: &str) -> (r: Option<usize>)
    ensures
        match r {
            Some(j) => j < rs@.len() && rs@[j as int].0@ == n@,
            None => forall|j: int| 0 <= j < rs@.len() ==> (#[trigger] rs@[j]).0@ != n@,
        },
{
    let mut j: usize = 0;
    while j < rs.len()
        invariant
            j <= rs@.len(),
            forall|q: int| 0 <= q < j ==> (#[trigger] rs@[q]).0@ != n@,
        decreases rs@.len() - j,
    {
        if str_eq(rs[j].0.as_str(), n) {
            return Some(j);
        }
        j = j + 1;
    }
    None
}

/// Whether `name` is `m` or ends in a dot followed by `m`.
fn matches_method(name: &str, m: &str) -> (r: bool)
    ensures
        r == method_matches(name@, m@),
{
    if str_eq(name, m) {
        return true;
    }
    let n = name.unicode_len();
    let k = m.unicode_len();
    if n <= k {
        return false;
    }
    if name.get_char(n - k - 1) != '.' {
        proof {
            let t = name@.subrange(n - k - 1, n as int);
            assert(t[0] == name@[n - k - 1]);
            assert((seq!['.'] + m@)[0] == '.');
        }
        return false;
    }
    let mut i: usize = 0;
    while i < k
        invariant
            n == name@.len(),
            k == m@.len(),
            n > k,
            name@[n - k - 1] == '.',
            i <= k,
            forall|q: int| 0 <= q < i ==> name@[n - k + q] == m@[q],
        decreases k - i,
    {
        if name.get_char(n - k + i) != m.get_char(i) {
            proof {
                let t = name@.subrange(n - k - 1, n as int);
                assert(t[i as int + 1] == name@[n - k + i]);
                assert((seq!['.'] + m@)[i as int + 1] == m@[i as int]);
            }
            return false;
        }
        i = i + 1;
    }
    assert(name@.subrange(n - k - 1, n as int) =~= seq!['.'] + m@);
    true
}

/// Removes the routines that cannot be reached from the root timeline,
/// following every call and dynamic call: a routine stays when a timeline
/// block calls it, or calls dynamically a method its name matches, or when
/// a routine that stays calls it or calls dynamically a method its name
/// matches. Nothing is removed from a program without timeline blocks.
pub fn prune_unreachable_routines(ir: &mut IrProgram)
    requires
        routines_distinct(*old(ir)),
    ensures
        old(ir).blocks@.len() == 0 ==> *final(ir) == *old(ir),
        old(ir).blocks@.len() > 0 ==> final(ir).routines@ == reachable_routines(*old(ir)),
        same_but_routines(*old(ir), *final(ir)),
{
    if ir.blocks.len() == 0 {
        return;
    }
    let marked = reachable_marks(ir);
    let ghost g = *ir;
    let ghost keep = |i: int| reachable_routine(g, i);
    let mut routines: Vec<(String, IrRoutine)> = Vec::new();
    std::mem::swap(&mut routines, &mut ir.routines);
    let ghost all = routines@;
    let total = routines.len();
    let mut kept: Vec<(String, IrRoutine)> = Vec::new();
    let mut idx: usize = 0;
    while routines.len() > 0
        invariant
            total == all.len(),
            idx + routines@.len() == all.len(),
            all == g.routines@,
            marked@.len() == all.len(),
            forall|q: int| 0 <= q < all.len() ==> #[trigger] marked@[q] == keep(q),
            routines@ == all.subrange(idx as int, all.len() as int),
            kept@ == routines_kept(g, keep, idx as int),
        decreases routines@.len(),
    {
        let r = routines.remove(0);
        assert(r == all[idx as int]);
        if marked[idx] {
            kept.push(r);
        }
        idx = idx + 1;
        assert(routines@ =~= all.subrange(idx as int, all.len() as int));
        assert(kept@ =~= routines_kept(g, keep, idx as int));
    }
    ir.routines = kept;
}

/// Marks, per routine, whether it is reached from the root timeline.
fn reachable_marks(ir: &IrProgram) -> (marked: Vec<bool>)
    requires
        routines_distinct(*ir),
    ensures
        marked@.len() == ir.routines@.len(),
        forall|q: int| 0 <= q < ir.routines@.len() ==> #[trigger] marked@[q] == reachable_routine(*ir, q),
{
    let n = ir.routines.len();
    let mut marked: Vec<bool> = Vec::new();
    while marked.len() < n
        invariant
            marked@.len() <= n,
            n == ir.routines@.len(),
            forall|q: int| 0 <= q < marked@.len() ==> !#[trigger] marked@[q],
        decreases n - marked@.len(),
    {
        marked.push(false);
    }
    // Calls from the root timeline.
    let mut b: usize = 0;
    while b < ir.blocks.len()
        invariant
            n == ir.routines@.len(),
            routines_distinct(*ir),
            marked@.len() == n,
            b <= ir.blocks@.len(),
            forall|q: int| 0 <= q < n && #[trigger] marked@[q] ==> reachable_routine(*ir, q),
            forall|q: int| 0 <= q < n && root_calls(*ir, b as int, #[trigger] rname(*ir, q)) ==> marked@[q],
        decreases ir.blocks@.len() - b,
    {
        let is = &ir.blocks[b].instructions;
        let mut k: usize = 0;
        while k < is.len()
            invariant
                n == ir.routines@.len(),
                routines_distinct(*ir),
                marked@.len() == n,
                b < ir.blocks@.len(),
                *is == ir.blocks@[b as int].instructions,
                k <= is@.len(),
                forall|q: int| 0 <= q < n && #[trigger] marked@[q] ==> reachable_routine(*ir, q),
                forall|q: int| 0 <= q < n && root_calls(*ir, b as int, #[trigger] rname(*ir, q)) ==> marked@[q],
                forall|q: int, x: int| 0 <= q < n && 0 <= x < k && #[trigger] calls_name(is@[x], #[trigger] rname(*ir, q)) ==> marked@[q],
            decreases is@.len() - k,
        {
            match &is[k] {
                Instruction::Call { routine, .. } => {
                    match find_routine(&ir.routines, routine.as_str()) {
                        Some(j) => {
                            proof {
                                assert(calls_name(is@[k as int], rname(*ir, j as int)));
                                assert(instrs_call(ir.blocks@[b as int].instructions@, rname(*ir, j as int)));
                                assert(root_calls(*ir, ir.blocks@.len() as int, rname(*ir, j as int)));
                                lemma_seed_chain(*ir, j as int);
                            }
                            marked.set(j, true);
                        },
                        None => {},
                    }
                },
                _ => {},
            }
            k = k + 1;
        }
        proof {
            assert forall|q: int| 0 <= q < n && root_calls(*ir, b + 1, #[trigger] rname(*ir, q)) implies marked@[q] by {
                let x = choose|x: int| 0 <= x < b + 1 && instrs_call((#[trigger] ir.blocks@[x]).instructions@, rname(*ir, q));
                if x == b {
                    let y = choose|y: int| 0 <= y < is@.len() && #[trigger] calls_name(is@[y], rname(*ir, q));
                    assert(calls_name(is@[y], rname(*ir, q)));
                } else {
                    assert(root_calls(*ir, b as int, rname(*ir, q)));
                }
            }
        }
        b = b + 1;
    }
    // Methods called dynamically from the root timeline.
    let dyn_methods = root_dyn_methods(ir);
    let mut j: usize = 0;
    while j < n
        invariant
            n == ir.routines@.len(),
            marked@.len() == n,
            j <= n,
            forall|m: Seq<char>| #[trigger] names_have(dyn_methods@, m) <==> root_dyn(*ir, ir.blocks@.len() as int, m),
            forall|q: int| 0 <= q < n && #[trigger] marked@[q] ==> reachable_routine(*ir, q),
            forall|q: int| 0 <= q < n && root_calls(*ir, ir.blocks@.len() as int, #[trigger] rname(*ir, q)) ==> marked@[q],
            forall|q: int| 0 <= q < j && seed(*ir, q) ==> #[trigger] marked@[q],
        decreases n - j,
    {
        let mut d: usize = 0;
        let mut hit = false;
        while d < dyn_methods.len()
            invariant
                j < n,
                n == ir.routines@.len(),
                d <= dyn_methods@.len(),
                hit ==> exists|m: Seq<char>| root_dyn(*ir, ir.blocks@.len() as int, m) && #[trigger] method_matches(rname(*ir, j as int), m),
                !hit ==> forall|x: int| 0 <= x < d ==> !method_matches(rname(*ir, j as int), #[trigger] dyn_methods@[x]@),
                forall|m: Seq<char>| #[trigger] names_have(dyn_methods@, m) <==> root_dyn(*ir, ir.blocks@.len() as int, m),
            decreases dyn_methods@.len() - d,
        {
            if matches_method(ir.routines[j].0.as_str(), dyn_methods[d].as_str()) {
                proof {
                    assert(names_have(dyn_methods@, dyn_methods@[d as int]@));
                    assert(root_dyn(*ir, ir.blocks@.len() as int, dyn_methods@[d as int]@));
                    assert(method_matches(rname(*ir, j as int), dyn_methods@[d as int]@));
                }
                hit = true;
            }
            d = d + 1;
        }
        if hit {
            proof {
                lemma_seed_chain(*ir, j as int);
            }
            marked.set(j, true);
        }
        proof {
            if seed(*ir, j as int) && !root_calls(*ir, ir.blocks@.len() as int, rname(*ir, j as int)) {
                let m = choose|m: Seq<char>| root_dyn(*ir, ir.blocks@.len() as int, m) && #[trigger] method_matches(rname(*ir, j as int), m);
                assert(names_have(dyn_methods@, m));
                let x = choose|x: int| 0 <= x < dyn_methods@.len() && (#[trigger] dyn_methods@[x])@ == m;
                assert(hit);
            }
        }
        j = j + 1;
    }
    // Calls from marked routines, until every marked routine is followed.
    let mut done: Vec<bool> = Vec::new();
    while done.len() < n
        invariant
            done@.len() <= n,
            n == ir.routines@.len(),
            forall|q: int| 0 <= q < done@.len() ==> !#[trigger] done@[q],
        decreases n - done@.len(),
    {
        done.push(false);
    }
    let mut pending = find_pending(&marked, &done);
    while pending.is_some()
        invariant
            n == ir.routines@.len(),
            routines_distinct(*ir),
            marked@.len() == n,
            done@.len() == n,
            forall|q: int| 0 <= q < n && #[trigger] marked@[q] ==> reachable_routine(*ir, q),
            forall|q: int| 0 <= q < n && seed(*ir, q) ==> #[trigger] marked@[q],
            forall|q: int| 0 <= q < n && #[trigger] done@[q] ==> marked@[q],
            forall|q: int, r: int| 0 <= q < n && 0 <= r < n && #[trigger] done@[q] && #[trigger] calls_routine(*ir, q, r) ==> marked@[r],
            match pending {
                Some(i) => i < n && marked@[i as int] && !done@[i as int],
                None => forall|q: int| 0 <= q < n && #[trigger] marked@[q] ==> done@[q],
            },
        decreases num_false(done@),
    {
        let i = pending.unwrap();
        let ghost d0 = done@;
        done.set(i, true);
        proof {
            assert(covers(done@, d0));
            lemma_num_false_covers(done@, d0);
        }
        let is = &ir.routines[i].1.instructions;
        let mut k: usize = 0;
        while k < is.len()
            invariant
                n == ir.routines@.len(),
                routines_distinct(*ir),
                marked@.len() == n,
                done@.len() == n,
                i < n,
                done@[i as int],
                *is == ir.routines@[i as int].1.instructions,
                reachable_routine(*ir, i as int),
                k <= is@.len(),
                forall|q: int| 0 <= q < n && #[trigger] marked@[q] ==> reachable_routine(*ir, q),
                forall|q: int| 0 <= q < n && seed(*ir, q) ==> #[trigger] marked@[q],
                forall|q: int| 0 <= q < n && #[trigger] done@[q] ==> marked@[q],
                forall|q: int, r: int| 0 <= q < n && 0 <= r < n && q != i && #[trigger] done@[q] && #[trigger] calls_routine(*ir, q, r) ==> marked@[r],
                forall|r: int, x: int| 0 <= r < n && 0 <= x < k && #[trigger] reaches_name(is@[x], #[trigger] rname(*ir, r)) ==> marked@[r],
            decreases is@.len() - k,
        {
            match &is[k] {
                Instruction::Call { routine, .. } => {
                    match find_routine(&ir.routines, routine.as_str()) {
                        Some(j) => {
                            proof {
                                assert(reaches_name(is@[k as int], rname(*ir, j as int)));
                                assert(calls_routine(*ir, i as int, j as int));
                                lemma_chain_extend(*ir, i as int, j as int);
                            }
                            marked.set(j, true);
                        },
                        None => {
                            proof {
                                assert forall|r: int| 0 <= r < n implies !reaches_name(is@[k as int], #[trigger] rname(*ir, r)) by {
                                    assert(ir.routines@[r].0@ != routine@);
                                }
                            }
                        },
                    }
                },
                Instruction::DynamicCall { method, .. } => {
                    assert(dyn_name(is@[k as int], method@));
                    let mut j: usize = 0;
                    while j < n
                        invariant
                            n == ir.routines@.len(),
                            marked@.len() == n,
                            done@.len() == n,
                            i < n,
                            k < is@.len(),
                            *is == ir.routines@[i as int].1.instructions,
                            dyn_name(is@[k as int], method@),
                            forall|r: int| 0 <= r < n ==> (reaches_name(is@[k as int], #[trigger] rname(*ir, r)) <==> method_matches(rname(*ir, r), method@)),
                            reachable_routine(*ir, i as int),
                            j <= n,
                            forall|q: int| 0 <= q < n && #[trigger] marked@[q] ==> reachable_routine(*ir, q),
                            forall|q: int| 0 <= q < n && seed(*ir, q) ==> #[trigger] marked@[q],
                            forall|q: int| 0 <= q < n && #[trigger] done@[q] ==> marked@[q],
                            forall|q: int, r: int| 0 <= q < n && 0 <= r < n && q != i && #[trigger] done@[q] && #[trigger] calls_routine(*ir, q, r) ==> marked@[r],
                            forall|r: int, x: int| 0 <= r < n && 0 <= x < k && #[trigger] reaches_name(is@[x], #[trigger] rname(*ir, r)) ==> marked@[r],
                            forall|r: int| 0 <= r < j && reaches_name(is@[k as int], #[trigger] rname(*ir, r)) ==> marked@[r],
                        decreases n - j,
                    {
                        if matches_method(ir.routines[j].0.as_str(), method.as_str()) {
                            proof {
                                assert(reaches_name(is@[k as int], rname(*ir, j as int)));
                                assert(calls_routine(*ir, i as int, j as int));
                                lemma_chain_extend(*ir, i as int, j as int);
                            }
                            marked.set(j, true);
                        }
                        j = j + 1;
                    }
                },
                _ => {},
            }
            k = k + 1;
        }
        proof {
            assert forall|r: int| 0 <= r < n && #[trigger] calls_routine(*ir, i as int, r) implies marked@[r] by {
                let x = choose|x: int| 0 <= x < is@.len() && #[trigger] reaches_name(is@[x], rname(*ir, r));
                assert(reaches_name(is@[x], rname(*ir, r)));
            }
        }
        pending = find_pending(&marked, &done);
    }
    proof {
        assert forall|q: int| 0 <= q < n implies #[trigger] marked@[q] == reachable_routine(*ir, q) by {
            if reachable_routine(*ir, q) {
                let p = choose|p: Seq<int>| #[trigger] call_chain(*ir, p) && p.last() == q;
                lemma_closed_covers(*ir, marked@, p);
            }
        }
    }
    marked
}

/// A routine that is marked and not yet followed, if there is one.
fn find_pending(marked: &Vec<bool>, done: &Vec<bool>) -> (r: Option<usize>)
    requires
        marked@.len() == done@.len(),
    ensures
        match r {
            Some(i) => i < marked@.len() && marked@[i as int] && !done@[i as int],
            None => forall|q: int| 0 <= q < marked@.len() && #[trigger] marked@[q] ==> done@[q],
        },
{
    let mut i: usize = 0;
    while i < marked.len()
        invariant
            marked@.len() == done@.len(),
            i <= marked@.len(),
            forall|q: int| 0 <= q < i && #[trigger] marked@[q] ==> done@[q],
        decreases marked@.len() - i,
    {
        if marked[i] && !done[i] {
            return Some(i);
        }
        i = i + 1;
    }
    None
}

/// The methods that the root timeline calls dynamically, each once.
fn root_dyn_methods(ir: &IrProgram) -> (names: Vec<String>)
    ensures
        forall|m: Seq<char>| #[trigger] names_have(names@, m) <==> root_dyn(*ir, ir.blocks@.len() as int, m),
{
    let mut names: Vec<String> = Vec::new();
    let mut b: usize = 0;
    while b < ir.blocks.len()
        invariant
            b <= ir.blocks@.len(),
            names_distinct(names@),
            forall|m: Seq<char>| #[trigger] names_have(names@, m) <==> root_dyn(*ir, b as int, m),
        decreases ir.blocks@.len() - b,
    {
        let is = &ir.blocks[b].instructions;
        let ghost before = names@;
        let mut k: usize = 0;
        while k < is.len()
            invariant
                b < ir.blocks@.len(),
                *is == ir.blocks@[b as int].instructions,
                k <= is@.len(),
                names_distinct(names@),
                forall|m: Seq<char>| #[trigger] names_have(names@, m) <==> (names_have(before, m) || instrs_dyn(is@.take(k as int), m)),
            decreases is@.len() - k,
        {
            let ghost mid = names@;
            match &is[k] {
                Instruction::DynamicCall { method, .. } => {
                    add_name(&mut names, method);
                },
                _ => {},
            }
            proof {
                assert forall|m: Seq<char>| #[trigger] names_have(names@, m) <==> (names_have(before, m) || instrs_dyn(is@.take(k + 1), m)) by {
                    assert(names_have(mid, m) <==> (names_have(before, m) || instrs_dyn(is@.take(k as int), m)));
                    if instrs_dyn(is@.take(k + 1), m) && !dyn_name(is@[k as int], m) {
                        let q = choose|q: int| 0 <= q < is@.take(k + 1).len() && #[trigger] dyn_name(is@.take(k + 1)[q], m);
                        assert(is@.take(k as int)[q] == is@.take(k + 1)[q]);
                    }
                    if instrs_dyn(is@.take(k as int), m) {
                        let q = choose|q: int| 0 <= q < is@.take(k as int).len() && #[trigger] dyn_name(is@.take(k as int)[q], m);
                        assert(is@.take(k as int)[q] == is@.take(k + 1)[q]);
                    }
                    if dyn_name(is@[k as int], m) {
                        assert(is@.take(k + 1)[k as int] == is@[k as int]);
                    }
                }
            }
            k = k + 1;
        }
        proof {
            assert(is@.take(is@.len() as int) =~= is@);
            assert forall|m: Seq<char>| #[trigger] names_have(names@, m) <==> root_dyn(*ir, b + 1, m) by {
                assert(names_have(before, m) <==> root_dyn(*ir, b as int, m));
                if root_dyn(*ir, b + 1, m) && !instrs_dyn(ir.blocks@[b as int].instructions@, m) {
                    let x = choose|x: int| 0 <= x < b + 1 && instrs_dyn((#[trigger] ir.blocks@[x]).instructions@, m);
                    assert(x != b);
                }
            }
        }
        b = b + 1;
    }
    names
}


// ---------------------------------------------------------------------------
// Import duplicates

/// The position of the first dot among the first `n` characters of `s`.
pub open spec fn first_dot_upto(s: Seq<char>, n: int) -> Option<int>
    decreases n,
{
    if n <= 0 {
        None
    } else {
        match first_dot_upto(s, n - 1) {
            Some(k) => Some(k),
            None => if s[n - 1] == '.' {
                Some(n - 1)
            } else {
                None
            },
        }
    }
}

/// The position of the first dot in `s`.
pub open spec fn first_dot(s: Seq<char>) -> Option<int> {
    first_dot_upto(s, s.len() as int)
}

/// What follows the first dot of routine `i`'s name, when it has one.
pub open spec fn short_name(ir: IrProgram, i: int) -> Option<Seq<char>> {
    match first_dot(rname(ir, i)) {
        Some(k) => Some(rname(ir, i).subrange(k + 1, rname(ir, i).len() as int)),
        None => None,
    }
}

/// Some routine is named `u`.
pub open spec fn has_routine(ir: IrProgram, u: Seq<char>) -> bool {
    exists|j: int| 0 <= j < ir.routines@.len() && #[trigger] rname(ir, j) == u
}

/// Some routine named `u` has no instructions: a foreign declaration.
pub open spec fn empty_routine(ir: IrProgram, u: Seq<char>) -> bool {
    exists|j: int| 0 <= j < ir.routines@.len() && #[trigger] rname(ir, j) == u && ir.routines@[j].1.instructions@.len() == 0
}

/// Routine `i` is the namespaced routine that stands for the name `u`: `u`
/// follows the first dot of its name, it has instructions, no routine named
/// `u` is a bare declaration, and either a routine is named `u` or `u` is
/// itself namespaced.
pub open spec fn stands_for(ir: IrProgram, i: int, u: Seq<char>) -> bool {
    &&& short_name(ir, i) == Some(u)
    &&& ir.routines@[i].1.instructions@.len() > 0
    &&& !empty_routine(ir, u)
    &&& (has_routine(ir, u) || u.contains('.'))
}

/// The last of the first `n` routines that stands for `u`.
pub open spec fn alias_upto(ir: IrProgram, u: Seq<char>, n: int) -> Option<int>
    decreases n,
{
    if n <= 0 {
        None
    } else if stands_for(ir, n - 1, u) {
        Some(n - 1)
    } else {
        alias_upto(ir, u, n - 1)
    }
}

/// The routine that calls to `u` are sent to instead, if any.
pub open spec fn alias_of(ir: IrProgram, u: Seq<char>) -> Option<int> {
    alias_upto(ir, u, ir.routines@.len() as int)
}

/// A call to a name that some routine stands for goes to that routine;
/// every other instruction stays.
pub open spec fn remap(ir: IrProgram, x: Instruction) -> Instruction {
    match x {
        Instruction::Call { routine, args, dest } => match alias_of(ir, routine@) {
            Some(i) => Instruction::Call { routine: ir.routines@[i].0, args, dest },
            None => x,
        },
        _ => x,
    }
}

pub open spec fn remap_all(ir: IrProgram, is: Seq<Instruction>) -> Seq<Instruction> {
    is.map_values(|x: Instruction| remap(ir, x))
}

/// Routine `i` survives: no routine stands for its name, and it has
/// instructions.
pub open spec fn import_kept(ir: IrProgram, i: int) -> bool {
    alias_of(ir, rname(ir, i)) is None && ir.routines@[i].1.instructions@.len() > 0
}

/// The positions of the surviving routines among the first `n`.
pub open spec fn kept_upto(ir: IrProgram, n: int) -> Seq<int>
    decreases n,
{
    if n <= 0 {
        Seq::empty()
    } else {
        kept_upto(ir, n - 1) + if import_kept(ir, n - 1) {
            seq![n - 1]
        } else {
            Seq::empty()
        }
    }
}

/// `b` is block `a` with its calls sent on.
pub open spec fn block_remapped(ir: IrProgram, a: IrBlock, b: IrBlock) -> bool {
    &&& b.time == a.time
    &&& b.entropy_mode == a.entropy_mode
    &&& b.spans == a.spans
    &&& b.instructions@ == remap_all(ir, a.instructions@)
}

/// `b` is routine `a` with its calls sent on.
pub open spec fn routine_remapped(ir: IrProgram, a: (String, IrRoutine), b: (String, IrRoutine)) -> bool {
    &&& b.0 == a.0
    &&& b.1.params == a.1.params
    &&& b.1.return_type == a.1.return_type
    &&& b.1.taking_ms == a.1.taking_ms
    &&& b.1.foreign_binding == a.1.foreign_binding
    &&& b.1.spans == a.1.spans
    &&& b.1.instructions@ == remap_all(ir, a.1.instructions@)
}

/// The table that sends calls on: per routine, its name, what follows the
/// first dot of the name, and whether it stands for that.
struct AliasTable {
    names: Vec<String>,
    shorts: Vec<Option<String>>,
    stands: Vec<bool>,
}

impl AliasTable {
    spec fn of(self, ir: IrProgram) -> bool {
        &&& self.names@.len() == ir.routines@.len()
        &&& self.shorts@.len() == ir.routines@.len()
        &&& self.stands@.len() == ir.routines@.len()
        &&& forall|i: int| 0 <= i < ir.routines@.len() ==> #[trigger] self.names@[i] == ir.routines@[i].0
        &&& forall|i: int| 0 <= i < ir.routines@.len() ==> match #[trigger] self.shorts@[i] {
            Some(t) => short_name(ir, i) == Some(t@),
            None => short_name(ir, i) is None,
        }
        &&& forall|i: int| 0 <= i < ir.routines@.len() ==> #[trigger] self.stands@[i] == (short_name(ir, i) is Some && stands_for(ir, i, short_name(ir, i).unwrap()))
    }

    /// The routine that calls to `u` are sent to, if any.
    fn lookup(&self, Ghost(ir): Ghost<IrProgram>, u: &str) -> (r: Option<usize>)
        requires
            self.of(ir),
        ensures
            match r {
                Some(i) => alias_of(ir, u@) == Some(i as int) && i < ir.routines@.len(),
                None => alias_of(ir, u@) is None,
            },
    {
        let mut i: usize = self.names.len();
        while i > 0
            invariant
                self.of(ir),
                i <= ir.routines@.len(),
                alias_of(ir, u@) == alias_upto(ir, u@, i as int),
            decreases i,
        {
            let j = i - 1;
            let hit = match &self.shorts[j] {
                Some(t) => self.stands[j] && str_eq(t.as_str(), u),
                None => false,
            };
            proof {
                assert(hit == stands_for(ir, j as int, u@));
            }
            if hit {
                return Some(j);
            }
            i = j;
        }
        None
    }
}

/// The position of the first dot in `s`, if any.
fn find_first_dot(s: &str) -> (r: Option<usize>)
    ensures
        match r {
            Some(k) => first_dot(s@) == Some(k as int),
            None => first_dot(s@) is None,
        },
{
    let n = s.unicode_len();
    let mut i: usize = 0;
    while i < n
        invariant
            n == s@.len(),
            i <= n,
            first_dot_upto(s@, i as int) is None,
        decreases n - i,
    {
        if s.get_char(i) == '.' {
            proof {
                assert(first_dot_upto(s@, i + 1) == Some(i as int));
                lemma_first_dot_stays(s@, i + 1, n as int);
            }
            return Some(i);
        }
        i = i + 1;
    }
    None
}

proof fn lemma_first_dot_bounds(s: Seq<char>, n: int)
    requires
        0 <= n <= s.len(),
    ensures
        match first_dot_upto(s, n) {
            Some(k) => 0 <= k < n && s[k] == '.',
            None => true,
        },
    decreases n,
{
    if n > 0 {
        lemma_first_dot_bounds(s, n - 1);
    }
}

proof fn lemma_first_dot_stays(s: Seq<char>, m: int, n: int)
    requires
        0 <= m <= n,
        first_dot_upto(s, m) is Some,
    ensures
        first_dot_upto(s, n) == first_dot_upto(s, m),
    decreases n - m,
{
    if m < n {
        lemma_first_dot_stays(s, m, n - 1);
    }
}

/// Whether some routine is named `u`, and whether some routine named `u`
/// has no instructions.
fn named_routine(ir: &IrProgram, u: &str) -> (r: (bool, bool))
    ensures
        r.0 == has_routine(*ir, u@),
        r.1 == empty_routine(*ir, u@),
{
    let mut has = false;
    let mut empty = false;
    let mut j: usize = 0;
    while j < ir.routines.len()
        invariant
            j <= ir.routines@.len(),
            has == exists|q: int| 0 <= q < j && #[trigger] rname(*ir, q) == u@,
            empty == exists|q: int| 0 <= q < j && #[trigger] rname(*ir, q) == u@ && ir.routines@[q].1.instructions@.len() == 0,
        decreases ir.routines@.len() - j,
    {
        let m = str_eq(ir.routines[j].0.as_str(), u);
        let ghost h0 = has;
        let ghost e0 = empty;
        if m {
            has = true;
            if ir.routines[j].1.instructions.len() == 0 {
                empty = true;
            }
        }
        proof {
            assert(m == (rname(*ir, j as int) == u@));
            if has {
                if !h0 {
                    assert(rname(*ir, j as int) == u@);
                }
            } else {
                assert forall|q: int| 0 <= q < j + 1 implies #[trigger] rname(*ir, q) != u@ by {
                    if q < j {
                        assert(!h0);
                    }
                }
            }
            if empty {
                if !e0 {
                    assert(rname(*ir, j as int) == u@ && ir.routines@[j as int].1.instructions@.len() == 0);
                }
            } else {
                assert forall|q: int| 0 <= q < j + 1 && #[trigger] rname(*ir, q) == u@ implies ir.routines@[q].1.instructions@.len() != 0 by {
                    if q < j {
                        assert(!e0);
                    }
                }
            }
        }
        j = j + 1;
    }
    (has, empty)
}

fn alias_table(ir: &IrProgram) -> (t: AliasTable)
    ensures
        t.of(*ir),
{
    let mut names: Vec<String> = Vec::new();
    let mut shorts: Vec<Option<String>> = Vec::new();
    let mut stands: Vec<bool> = Vec::new();
    let mut i: usize = 0;
    while i < ir.routines.len()
        invariant
            i <= ir.routines@.len(),
            names@.len() == i,
            shorts@.len() == i,
            stands@.len() == i,
            forall|q: int| 0 <= q < i ==> #[trigger] names@[q] == ir.routines@[q].0,
            forall|q: int| 0 <= q < i ==> match #[trigger] shorts@[q] {
                Some(t) => short_name(*ir, q) == Some(t@),
                None => short_name(*ir, q) is None,
            },
            forall|q: int| 0 <= q < i ==> #[trigger] stands@[q] == (short_name(*ir, q) is Some && stands_for(*ir, q, short_name(*ir, q).unwrap())),
        decreases ir.routines@.len() - i,
    {
        let name = &ir.routines[i].0;
        names.push(name.clone());
        match find_first_dot(name.as_str()) {
            Some(k) => {
                let n = name.as_str().unicode_len();
                proof {
                    lemma_first_dot_bounds(name@, name@.len() as int);
                }
                let u = name.as_str().substring_char(k + 1, n);
                let (has, empty) = named_routine(ir, u);
                let namespaced = match find_first_dot(u) {
                    Some(_) => true,
                    None => false,
                };
                proof {
                    if u@.contains('.') {
                        let c = choose|c: int| 0 <= c < u@.len() && u@[c] == '.';
                        lemma_dot_found(u@, c);
                    }
                    if namespaced {
                        lemma_dot_contains(u@);
                    }
                }
                let st = ir.routines[i].1.instructions.len() > 0 && !empty && (has || namespaced);
                shorts.push(Some(u.to_owned()));
                stands.push(st);
            },
            None => {
                shorts.push(None);
                stands.push(false);
            },
        }
        i = i + 1;
    }
    AliasTable { names, shorts, stands }
}

proof fn lemma_dot_found(s: Seq<char>, c: int)
    requires
        0 <= c < s.len(),
        s[c] == '.',
    ensures
        first_dot(s) is Some,
{
    lemma_dot_upto(s, c + 1, c);
    lemma_first_dot_stays(s, c + 1, s.len() as int);
}

proof fn lemma_dot_upto(s: Seq<char>, n: int, c: int)
    requires
        0 <= c < n <= s.len(),
        s[c] == '.',
    ensures
        first_dot_upto(s, n) is Some,
    decreases n,
{
    if n - 1 > c {
        lemma_dot_upto(s, n - 1, c);
    }
}

proof fn lemma_dot_contains(s: Seq<char>)
    requires
        first_dot(s) is Some,
    ensures
        s.contains('.'),
{
    lemma_dot_at(s, s.len() as int);
}

proof fn lemma_dot_at(s: Seq<char>, n: int)
    requires
        0 <= n <= s.len(),
        first_dot_upto(s, n) is Some,
    ensures
        s.contains('.'),
    decreases n,
{
    if n > 0 {
        match first_dot_upto(s, n - 1) {
            Some(_) => lemma_dot_at(s, n - 1),
            None => {
                assert(s[n - 1] == '.');
            },
        }
    }
}

/// `is` with its calls sent on.
fn remap_instrs(t: &AliasTable, Ghost(ir): Ghost<IrProgram>, is: Vec<Instruction>) -> (out: Vec<Instruction>)
    requires
        t.of(ir),
    ensures
        out@ == remap_all(ir, is@),
{
    let mut rest = is;
    let ghost all = rest@;
    let total = rest.len();
    let mut out: Vec<Instruction> = Vec::new();
    let mut k: usize = 0;
    while rest.len() > 0
        invariant
            t.of(ir),
            total == all.len(),
            k + rest@.len() == all.len(),
            rest@ == all.subrange(k as int, all.len() as int),
            out@ == remap_all(ir, all).take(k as int),
        decreases rest@.len(),
    {
        let x = rest.remove(0);
        assert(x == all[k as int]);
        let y = match x {
            Instruction::Call { routine, args, dest } => {
                match t.lookup(Ghost(ir), routine.as_str()) {
                    Some(i) => Instruction::Call { routine: t.names[i].clone(), args, dest },
                    None => Instruction::Call { routine, args, dest },
                }
            },
            other => other,
        };
        assert(y == remap(ir, all[k as int]));
        out.push(y);
        k = k + 1;
        assert(rest@ =~= all.subrange(k as int, all.len() as int));
        assert(out@ =~= remap_all(ir, all).take(k as int));
    }
    assert(remap_all(ir, all).take(all.len() as int) =~= remap_all(ir, all));
    out
}

/// Prepares a program for output: calls to a name that a namespaced routine
/// stands for (see `stands_for`) go to that routine instead, in the timeline
/// blocks and in the routines; the routines of such names go; and so do the
/// routines without instructions.
pub fn prune_import_duplicates(ir: &mut IrProgram)
    requires
        routines_distinct(*old(ir)),
    ensures
        final(ir).blocks@.len() == old(ir).blocks@.len(),
        forall|b: int| 0 <= b < old(ir).blocks@.len() ==> #[trigger] block_remapped(*old(ir), old(ir).blocks@[b], final(ir).blocks@[b]),
        final(ir).routines@.len() == kept_upto(*old(ir), old(ir).routines@.len() as int).len(),
        forall|q: int| 0 <= q < final(ir).routines@.len() ==> #[trigger] routine_remapped(*old(ir),
            old(ir).routines@[kept_upto(*old(ir), old(ir).routines@.len() as int)[q]], final(ir).routines@[q]),
        final(ir).symbols == old(ir).symbols,
        final(ir).type_decay_limits == old(ir).type_decay_limits,
        final(ir).auto_drop_specs == old(ir).auto_drop_specs,
        final(ir).struct_extends == old(ir).struct_extends,
        final(ir).decay_handlers == old(ir).decay_handlers,
{
    let ghost g = *ir;
    let table = alias_table(ir);
    // Timeline blocks.
    let mut blocks: Vec<IrBlock> = Vec::new();
    std::mem::swap(&mut blocks, &mut ir.blocks);
    let ghost bs = blocks@;
    let nb = blocks.len();
    let mut new_blocks: Vec<IrBlock> = Vec::new();
    let mut b: usize = 0;
    while blocks.len() > 0
        invariant
            table.of(g),
            nb == bs.len(),
            b + blocks@.len() == bs.len(),
            blocks@ == bs.subrange(b as int, bs.len() as int),
            new_blocks@.len() == b,
            forall|q: int| 0 <= q < b ==> #[trigger] block_remapped(g, bs[q], new_blocks@[q]),
        decreases blocks@.len(),
    {
        let blk = blocks.remove(0);
        assert(blk == bs[b as int]);
        let IrBlock { time, entropy_mode, instructions, spans } = blk;
        let ni = remap_instrs(&table, Ghost(g), instructions);
        new_blocks.push(IrBlock { time, entropy_mode, instructions: ni, spans });
        b = b + 1;
        assert(blocks@ =~= bs.subrange(b as int, bs.len() as int));
    }
    ir.blocks = new_blocks;
    // Routines.
    let mut routines: Vec<(String, IrRoutine)> = Vec::new();
    std::mem::swap(&mut routines, &mut ir.routines);
    let ghost rs = routines@;
    let nr = routines.len();
    let mut kept: Vec<(String, IrRoutine)> = Vec::new();
    let mut r: usize = 0;
    while routines.len() > 0
        invariant
            table.of(g),
            rs == g.routines@,
            nr == rs.len(),
            r + routines@.len() == rs.len(),
            routines@ == rs.subrange(r as int, rs.len() as int),
            kept@.len() == kept_upto(g, r as int).len(),
            forall|q: int| 0 <= q < kept@.len() ==> #[trigger] routine_remapped(g, rs[kept_upto(g, r as int)[q]], kept@[q]),
        decreases routines@.len(),
    {
        let (name, rt) = routines.remove(0);
        assert((name, rt) == rs[r as int]);
        let gone = match table.lookup(Ghost(g), name.as_str()) {
            Some(_) => true,
            None => false,
        };
        proof {
            assert(rname(g, r as int) == name@);
        }
        if !gone && rt.instructions.len() > 0 {
            let IrRoutine { params, return_type, taking_ms, foreign_binding, instructions, spans } = rt;
            let ni = remap_instrs(&table, Ghost(g), instructions);
            kept.push((name, IrRoutine { params, return_type, taking_ms, foreign_binding, instructions: ni, spans }));
        }
        proof {
            let ku = kept_upto(g, r as int);
            let ku2 = kept_upto(g, r + 1);
            assert forall|q: int| 0 <= q < ku.len() implies ku2[q] == ku[q] by {}
        }
        r = r + 1;
        assert(routines@ =~= rs.subrange(r as int, rs.len() as int));
    }
    ir.routines = kept;
}


// ---------------------------------------------------------------------------
// The whole program

/// `out` is instruction list `a` through the pipeline (with or without the
/// passes): the same list when it is empty.
pub open spec fn instrs_optimized(a: Seq<Instruction>, run_passes: bool, out: Seq<Instruction>) -> bool {
    &&& a.len() == 0 ==> out == a
    &&& a.len() > 0 ==> exists|cfg: CFG, s: SsaCFG, s2: SsaCFG, c: CFG| #[trigger] optimized_via(a, run_passes, cfg, s, s2, c, out)
}

/// `b` is routine `a` with its instructions through the pipeline, without
/// the passes.
pub open spec fn routine_optimized(a: (String, IrRoutine), b: (String, IrRoutine)) -> bool {
    &&& b.0 == a.0
    &&& b.1.params == a.1.params
    &&& b.1.return_type == a.1.return_type
    &&& b.1.taking_ms == a.1.taking_ms
    &&& b.1.foreign_binding == a.1.foreign_binding
    &&& b.1.spans == a.1.spans
    &&& instrs_optimized(a.1.instructions@, false, b.1.instructions@)
}

/// `b` is timeline block `a` with its instructions through the pipeline and
/// its passes.
pub open spec fn block_optimized(a: IrBlock, b: IrBlock) -> bool {
    &&& b.time == a.time
    &&& b.entropy_mode == a.entropy_mode
    &&& b.spans == a.spans
    &&& instrs_optimized(a.instructions@, true, b.instructions@)
}

/// `b` is decay handler `a` with its instructions through the pipeline and
/// its passes.
pub open spec fn handler_optimized(a: (String, Vec<Instruction>), b: (String, Vec<Instruction>)) -> bool {
    &&& b.0 == a.0
    &&& instrs_optimized(a.1@, true, b.1@)
}

/// The routines that `prune_unreachable_routines` leaves.
pub open spec fn pruned_routines(ir: IrProgram) -> Seq<(String, IrRoutine)> {
    if ir.blocks@.len() == 0 {
        ir.routines@
    } else {
        reachable_routines(ir)
    }
}

/// A stage of the pipeline rejects the non-empty list `a` (see
/// `pipeline_rejects`), for some passes and preserved registers when
/// `run_passes` holds; without the passes neither plays a part.
pub open spec fn list_rejected(a: Seq<Instruction>, run_passes: bool) -> bool {
    a.len() > 0 && exists|passes: Seq<Box<dyn OptimizationPass>>, preserved: Set<u32>| #[trigger] pipeline_rejects(a, passes, run_passes, preserved)
}

/// The pipeline rejects a list of the program: a routine that survives
/// pruning (without the passes), or a timeline block or decay handler (with
/// them).
pub open spec fn program_rejected(ir: IrProgram) -> bool {
    ||| exists|q: int| 0 <= q < pruned_routines(ir).len() && list_rejected(#[trigger] pruned_routines(ir)[q].1.instructions@, false)
    ||| exists|q: int| 0 <= q < ir.blocks@.len() && list_rejected(#[trigger] ir.blocks@[q].instructions@, true)
    ||| exists|q: int| 0 <= q < ir.decay_handlers@.len() && list_rejected(#[trigger] ir.decay_handlers@[q].1@, true)
}

fn optimize_list(is: &Vec<Instruction>, manager: &PassManager, run_passes: bool, preserved: &HashSet<u32>) -> (r: Option<Vec<Instruction>>)
    ensures
        match r {
            Some(out) => instrs_optimized(is@, run_passes, out@),
            None => list_rejected(is@, run_passes),
        },
{
    let r = optimize_instructions(is, manager, run_passes, preserved);
    match r {
        Some(out) => {
            proof {
                if is@.len() == 0 {
                    assert(out@ =~= is@);
                }
            }
            Some(out)
        },
        None => {
            assert(pipeline_rejects(is@, manager.passes(), run_passes, preserved@));
            None
        },
    }
}

/// Optimises a whole program. The routines that the root timeline cannot
/// reach go (see `prune_unreachable_routines`); every routine left goes
/// through the pipeline without the passes; every timeline block and decay
/// handler goes through it with the passes, which keep the registers of the
/// symbol table and the registers that some timeline block reads before it
/// defines them, and the channels that any part of the program uses. The
/// passes are, in this order: constant propagation (folding float
/// operations with `float_fold`), copy propagation, control-flow
/// simplification, entropy optimisation, channel liveness, lease
/// optimisation, concurrency analysis, block coalescing, dead-code
/// elimination and SSA verification. Where a stage of the pipeline rejects
/// a list (see `optimize_instructions`) there is no result.
pub fn optimize_program<F>(ir: IrProgram, float_fold: F) -> (r: Option<IrProgram>)
    where
        F: Fn(BinaryOperator, u64, u64) -> Option<SsaConstant> + 'static,
    requires
        routines_distinct(ir),
        forall|o: BinaryOperator, a: u64, b: u64| float_fold.requires((o, a, b)),
    ensures
        match r {
            Some(out) => {
                &&& out.routines@.len() == pruned_routines(ir).len()
                &&& forall|q: int| 0 <= q < out.routines@.len() ==> #[trigger] routine_optimized(pruned_routines(ir)[q], out.routines@[q])
                &&& out.blocks@.len() == ir.blocks@.len()
                &&& forall|q: int| 0 <= q < out.blocks@.len() ==> #[trigger] block_optimized(ir.blocks@[q], out.blocks@[q])
                &&& out.decay_handlers@.len() == ir.decay_handlers@.len()
                &&& forall|q: int| 0 <= q < out.decay_handlers@.len() ==> #[trigger] handler_optimized(ir.decay_handlers@[q], out.decay_handlers@[q])
                &&& out.symbols == ir.symbols
                &&& out.type_decay_limits == ir.type_decay_limits
                &&& out.auto_drop_specs == ir.auto_drop_specs
                &&& out.struct_extends == ir.struct_extends
            },
            None => program_rejected(ir),
        },
{
    let ghost ir0 = ir;
    let mut prog = ir;
    prune_unreachable_routines(&mut prog);
    assert(prog.routines@ == pruned_routines(ir0));
    let chans = collect_globally_referenced_channels(&prog);
    let mut manager = PassManager::new();
    manager.add_pass(Box::new(ConstantPropagationPass::new(float_fold)));
    manager.add_pass(Box::new(CopyPropagationPass));
    manager.add_pass(Box::new(CfgSimplificationPass));
    manager.add_pass(Box::new(EntropyOptimizationPass));
    manager.add_pass(Box::new(ChannelLivenessPass::new(chans)));
    manager.add_pass(Box::new(LeaseOptimizationPass));
    manager.add_pass(Box::new(ConcurrencyAnalysisPass));
    manager.add_pass(Box::new(BlockCoalescingPass));
    manager.add_pass(Box::new(DeadCodeEliminationPass));
    manager.add_pass(Box::new(VerifierPass));
    let none: HashSet<u32> = HashSet::new();

    // Routines, without the passes.
    let mut routines: Vec<(String, IrRoutine)> = Vec::new();
    std::mem::swap(&mut routines, &mut prog.routines);
    let ghost rs = routines@;
    let nr = routines.len();
    let mut new_routines: Vec<(String, IrRoutine)> = Vec::new();
    let mut i: usize = 0;
    while routines.len() > 0
        invariant
            ir0 == ir,
            nr == rs.len(),
            i + routines@.len() == rs.len(),
            routines@ == rs.subrange(i as int, rs.len() as int),
            rs == pruned_routines(ir0),
            new_routines@.len() == i,
            forall|q: int| 0 <= q < i ==> #[trigger] routine_optimized(rs[q], new_routines@[q]),
        decreases routines@.len(),
    {
        let (name, rt) = routines.remove(0);
        assert((name, rt) == rs[i as int]);
        let ni = match optimize_list(&rt.instructions, &manager, false, &none) {
            Some(x) => x,
            None => {
                assert(list_rejected(pruned_routines(ir0)[i as int].1.instructions@, false));
                assert(program_rejected(ir));
                return None;
            },
        };
        let IrRoutine { params, return_type, taking_ms, foreign_binding, instructions, spans } = rt;
        new_routines.push((name, IrRoutine { params, return_type, taking_ms, foreign_binding, instructions: ni, spans }));
        i = i + 1;
        assert(routines@ =~= rs.subrange(i as int, rs.len() as int));
    }
    prog.routines = new_routines;

    // Registers that code outside a block may hand it.
    let mut preserved: HashSet<u32> = HashSet::new();
    let mut k: usize = 0;
    while k < prog.symbols.len()
        invariant
            ir0 == ir,
            k <= prog.symbols@.len(),
            prog.blocks == ir0.blocks,
            prog.decay_handlers == ir0.decay_handlers,
        decreases prog.symbols@.len() - k,
    {
        preserved.insert(prog.symbols[k].1.0);
        k = k + 1;
    }
    let mut b: usize = 0;
    while b < prog.blocks.len()
        invariant
            ir0 == ir,
            b <= prog.blocks@.len(),
            prog.blocks == ir0.blocks,
            prog.decay_handlers == ir0.decay_handlers,
        decreases prog.blocks@.len() - b,
    {
        if prog.blocks[b].instructions.len() > 0 {
            match ssa_of_instructions(&prog.blocks[b].instructions) {
                Some(s) => note_read_before_defined(&s, &mut preserved),
                None => {
                    assert(pipeline_rejects(ir0.blocks@[b as int].instructions@, Seq::empty(), true, Set::empty()));
                    assert(list_rejected(ir0.blocks@[b as int].instructions@, true));
                assert(program_rejected(ir));
                    return None;
                },
            }
        }
        b = b + 1;
    }

    // Timeline blocks, with the passes.
    let mut blocks: Vec<IrBlock> = Vec::new();
    std::mem::swap(&mut blocks, &mut prog.blocks);
    let ghost bs = blocks@;
    let nb = blocks.len();
    let mut new_blocks: Vec<IrBlock> = Vec::new();
    let mut j: usize = 0;
    while blocks.len() > 0
        invariant
            ir0 == ir,
            nb == bs.len(),
            j + blocks@.len() == bs.len(),
            blocks@ == bs.subrange(j as int, bs.len() as int),
            bs == ir0.blocks@,
            prog.decay_handlers == ir0.decay_handlers,
            new_blocks@.len() == j,
            forall|q: int| 0 <= q < j ==> #[trigger] block_optimized(bs[q], new_blocks@[q]),
        decreases blocks@.len(),
    {
        let blk = blocks.remove(0);
        assert(blk == bs[j as int]);
        let ni = match optimize_list(&blk.instructions, &manager, true, &preserved) {
            Some(x) => x,
            None => {
                assert(list_rejected(ir0.blocks@[j as int].instructions@, true));
                assert(program_rejected(ir));
                return None;
            },
        };
        let IrBlock { time, entropy_mode, instructions, spans } = blk;
        new_blocks.push(IrBlock { time, entropy_mode, instructions: ni, spans });
        j = j + 1;
        assert(blocks@ =~= bs.subrange(j as int, bs.len() as int));
    }
    prog.blocks = new_blocks;

    // Decay handlers, with the passes.
    let mut handlers: Vec<(String, Vec<Instruction>)> = Vec::new();
    std::mem::swap(&mut handlers, &mut prog.decay_handlers);
    let ghost hs = handlers@;
    let nh = handlers.len();
    let mut new_handlers: Vec<(String, Vec<Instruction>)> = Vec::new();
    let mut h: usize = 0;
    while handlers.len() > 0
        invariant
            ir0 == ir,
            nh == hs.len(),
            h + handlers@.len() == hs.len(),
            handlers@ == hs.subrange(h as int, hs.len() as int),
            hs == ir0.decay_handlers@,
            new_handlers@.len() == h,
            forall|q: int| 0 <= q < h ==> #[trigger] handler_optimized(hs[q], new_handlers@[q]),
        decreases handlers@.len(),
    {
        let (name, is) = handlers.remove(0);
        assert((name, is) == hs[h as int]);
        let ni = match optimize_list(&is, &manager, true, &preserved) {
            Some(x) => x,
            None => {
                assert(list_rejected(ir0.decay_handlers@[h as int].1@, true));
                assert(program_rejected(ir));
                return None;
            },
        };
        new_handlers.push((name, ni));
        h = h + 1;
        assert(handlers@ =~= hs.subrange(h as int, hs.len() as int));
    }
    prog.decay_handlers = new_handlers;
    Some(prog)
}

// ---------------------------------------------------------------------------
// The program as text

/// `n` in decimal, right-aligned in a field of three characters.
pub open spec fn index_text(n: nat) -> Seq<char> {
    let d = dec_text(n);
    if d.len() >= 3 {
        d
    } else {
        Seq::new((3 - d.len()) as nat, |i: int| ' ') + d
    }
}

/// The source note of an instruction: its source range where one is known.
pub open spec fn span_note(spans: Seq<Option<Span>>, i: int) -> Seq<char> {
    if 0 <= i < spans.len() && spans[i] is Some {
        " // span: "@ + dec_text(spans[i].unwrap().start as nat) + "-"@ + dec_text(spans[i].unwrap().end as nat)
    } else {
        Seq::empty()
    }
}

/// The lines of the first `k` instructions: index, debug text, source note.
pub open spec fn instr_listing(is: Seq<Instruction>, spans: Seq<Option<Span>>, k: int) -> Seq<char>
    decreases k,
{
    if k <= 0 {
        Seq::empty()
    } else {
        instr_listing(is, spans, k - 1) + "  "@ + index_text((k - 1) as nat) + ": "@ + instruction_debug(is[k - 1])
            + span_note(spans, k - 1) + "\n"@
    }
}

/// `Some(<n>)` or `None`, as the debug text of an optional number.
pub open spec fn opt_ms_text(o: Option<u64>) -> Seq<char> {
    match o {
        Some(n) => "Some("@ + dec_text(n as nat) + ")"@,
        None => "None"@,
    }
}

pub open spec fn routine_listing(r: (String, IrRoutine)) -> Seq<char> {
    "routine "@ + r.0@ + " taking "@ + opt_ms_text(r.1.taking_ms) + "ms:\n"@
        + instr_listing(r.1.instructions@, r.1.spans@, r.1.instructions@.len() as int)
}

pub open spec fn block_listing(b: IrBlock) -> Seq<char> {
    "@"@ + b.time.text@ + ":\n"@ + instr_listing(b.instructions@, b.spans@, b.instructions@.len() as int)
}

pub open spec fn routines_listing(rs: Seq<(String, IrRoutine)>, k: int) -> Seq<char>
    decreases k,
{
    if k <= 0 {
        Seq::empty()
    } else {
        routines_listing(rs, k - 1) + routine_listing(rs[k - 1])
    }
}

pub open spec fn blocks_listing(bs: Seq<IrBlock>, k: int) -> Seq<char>
    decreases k,
{
    if k <= 0 {
        Seq::empty()
    } else {
        blocks_listing(bs, k - 1) + block_listing(bs[k - 1])
    }
}

/// The listing of a program: each routine with its instructions, then each
/// timeline block with its time and instructions.
pub open spec fn program_listing(ir: IrProgram) -> Seq<char> {
    routines_listing(ir.routines@, ir.routines@.len() as int) + blocks_listing(ir.blocks@, ir.blocks@.len() as int)
}

fn push_index(s: &mut String, n: usize)
    ensures
        final(s)@ == old(s)@ + index_text(n as nat),
{
    let mut d = String::new();
    push_decimal(&mut d, n as u64);
    let len = d.as_str().unicode_len();
    let ghost s0 = s@;
    if len < 3 {
        let mut k: usize = len;
        while k < 3
            invariant
                len <= k <= 3,
                s@ == s0 + Seq::new((k - len) as nat, |i: int| ' '),
            decreases 3 - k,
        {
            push_str(s, " ");
            proof {
                reveal_strlit(" ");
            }
            k = k + 1;
            assert(s@ =~= s0 + Seq::new((k - len) as nat, |i: int| ' '));
        }
    }
    push_str(s, d.as_str());
    assert(s@ =~= s0 + index_text(n as nat));
}

fn push_instr_listing(s: &mut String, is: &Vec<Instruction>, spans: &Vec<Option<Span>>)
    ensures
        final(s)@ == old(s)@ + instr_listing(is@, spans@, is@.len() as int),
{
    let ghost s0 = s@;
    let mut k: usize = 0;
    while k < is.len()
        invariant
            k <= is@.len(),
            s@ == s0 + instr_listing(is@, spans@, k as int),
        decreases is@.len() - k,
    {
        push_str(s, "  ");
        push_index(s, k);
        push_str(s, ": ");
        let t = instruction_debug_text(&is[k]);
        push_str(s, t.as_str());
        if k < spans.len() {
            match &spans[k] {
                Some(sp) => {
                    push_str(s, " // span: ");
                    push_decimal(s, sp.start as u64);
                    push_str(s, "-");
                    push_decimal(s, sp.end as u64);
                },
                None => {},
            }
        }
        push_str(s, "\n");
        k = k + 1;
        assert(s@ =~= s0 + instr_listing(is@, spans@, k as int));
    }
}

impl IrProgram {
    /// The listing of the program (see `program_listing`): each routine,
    /// `routine <name> taking <Some(ms) or None>ms:`, then its instructions
    /// one per line, numbered, with their source ranges where known; then
    /// each timeline block, `@<time>:`, and its instructions.
    #[verifier::spinoff_prover]
    #[verifier::rlimit(60)]
    pub fn display_text(&self) -> (t: String)
        ensures
            t@ == program_listing(*self),
    {
        let mut t = String::new();
        let mut r: usize = 0;
        while r < self.routines.len()
            invariant
                r <= self.routines@.len(),
                t@ == routines_listing(self.routines@, r as int),
            decreases self.routines@.len() - r,
        {
            let ghost t0 = t@;
            let (name, rt) = (&self.routines[r].0, &self.routines[r].1);
            push_str(&mut t, "routine ");
            push_str(&mut t, name.as_str());
            push_str(&mut t, " taking ");
            match rt.taking_ms {
                Some(ms) => {
                    push_str(&mut t, "Some(");
                    push_decimal(&mut t, ms);
                    push_str(&mut t, ")");
                },
                None => {
                    push_str(&mut t, "None");
                },
            }
            push_str(&mut t, "ms:\n");
            push_instr_listing(&mut t, &rt.instructions, &rt.spans);
            r = r + 1;
            assert(t@ =~= routines_listing(self.routines@, r as int));
        }
        let ghost head = t@;
        let mut b: usize = 0;
        while b < self.blocks.len()
            invariant
                b <= self.blocks@.len(),
                head == routines_listing(self.routines@, self.routines@.len() as int),
                t@ == head + blocks_listing(self.blocks@, b as int),
            decreases self.blocks@.len() - b,
        {
            let blk = &self.blocks[b];
            push_str(&mut t, "@");
            push_str(&mut t, blk.time.text.as_str());
            push_str(&mut t, ":\n");
            push_instr_listing(&mut t, &blk.instructions, &blk.spans);
            b = b + 1;
            assert(t@ =~= head + blocks_listing(self.blocks@, b as int));
        }
        t
    }
}

} // verus!

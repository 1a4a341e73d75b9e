//! Concurrency analysis: every branch a `Split` opens must be merged back
//! by a `Merge` into its parent, and a `Merge` must name open branches.

use vstd::prelude::*;
use std::collections::HashSet;
use crate::blockmap::BlockId;
use crate::ssa::{SsaCFG, SsaBasicBlock};
use crate::ssa::instruction::SsaInstruction;
use crate::optimize::OptimizationPass;
use crate::plugin::str_eq;

verus! {

/// A finding of the analysis.
#[derive(Debug, PartialEq, Eq)]
pub enum ConcurrencyError {
    UnmergedBranch { branch: String, parent: String },
    MismatchedMerge { branch: String, target: String },
}

/// A finding as plain values: its kind (0 for an unmerged branch, 1 for a
/// mismatched merge), the branch, and the parent or target.
pub open spec fn conc_code(err: ConcurrencyError) -> (int, Seq<char>, Seq<char>) {
    match err {
        ConcurrencyError::UnmergedBranch { branch, parent } => (0, branch@, parent@),
        ConcurrencyError::MismatchedMerge { branch, target } => (1, branch@, target@),
    }
}

/// The open branches of each parent, parents in the order they first
/// split, branches in the order they opened.
pub type OpenSplits = Seq<(Seq<char>, Seq<Seq<char>>)>;

/// `s` with each name of `xs` added at the end unless already listed.
pub open spec fn add_names(s: Seq<Seq<char>>, xs: Seq<Seq<char>>) -> Seq<Seq<char>>
    decreases xs.len(),
{
    if xs.len() == 0 {
        s
    } else {
        let t = add_names(s, xs.drop_last());
        if t.contains(xs.last()) {
            t
        } else {
            t.push(xs.last())
        }
    }
}

/// Position of parent `p`, or -1.
pub open spec fn parent_pos(st: OpenSplits, p: Seq<char>) -> int
    decreases st.len(),
{
    if st.len() == 0 {
        -1
    } else if st.last().0 == p {
        st.len() - 1
    } else {
        parent_pos(st.drop_last(), p)
    }
}

/// Position of the last occurrence of `b` in `s`, or -1.
pub open spec fn name_pos(s: Seq<Seq<char>>, b: Seq<char>) -> int
    decreases s.len(),
{
    if s.len() == 0 {
        -1
    } else if s.last() == b {
        s.len() - 1
    } else {
        name_pos(s.drop_last(), b)
    }
}

proof fn lemma_name_pos(s: Seq<Seq<char>>, b: Seq<char>)
    ensures
        s.contains(b) ==> 0 <= name_pos(s, b) < s.len() && s[name_pos(s, b)] == b,
        !s.contains(b) ==> name_pos(s, b) == -1,
    decreases s.len(),
{
    if s.len() > 0 {
        lemma_name_pos(s.drop_last(), b);
        if s.last() != b {
            if s.contains(b) {
                let j = choose|j: int| 0 <= j < s.len() && s[j] == b;
                assert(s.drop_last()[j] == b);
            }
            if s.drop_last().contains(b) {
                let j = choose|j: int| 0 <= j < s.drop_last().len() && s.drop_last()[j] == b;
                assert(s[j] == b);
            }
        }
    }
}

pub open spec fn views(v: Seq<String>) -> Seq<Seq<char>> {
    v.map_values(|s: String| s@)
}

/// After a split of `parent` into `branches`.
pub open spec fn split_step(st: OpenSplits, parent: Seq<char>, branches: Seq<Seq<char>>) -> OpenSplits {
    let p = parent_pos(st, parent);
    if p >= 0 {
        st.update(p, (parent, add_names(st[p].1, branches)))
    } else {
        st.push((parent, add_names(Seq::empty(), branches)))
    }
}

/// After merging branch `b` into `target`: the branch closes if it is open
/// under `target`; if `target` has split but `b` is not open under it, the
/// merge is mismatched.
pub open spec fn merge_step(s: (OpenSplits, Seq<(int, Seq<char>, Seq<char>)>), target: Seq<char>, b: Seq<char>) -> (OpenSplits, Seq<(int, Seq<char>, Seq<char>)>) {
    let (st, errs) = s;
    let p = parent_pos(st, target);
    if p < 0 {
        s
    } else if st[p].1.contains(b) {
        (st.update(p, (st[p].0, st[p].1.remove(name_pos(st[p].1, b)))), errs)
    } else {
        (st, errs.push((1int, b, target)))
    }
}

pub open spec fn merge_all(s: (OpenSplits, Seq<(int, Seq<char>, Seq<char>)>), target: Seq<char>, bs: Seq<Seq<char>>, k: int) -> (OpenSplits, Seq<(int, Seq<char>, Seq<char>)>)
    decreases k,
{
    if k <= 0 {
        s
    } else {
        merge_step(merge_all(s, target, bs, k - 1), target, bs[k - 1])
    }
}

pub open spec fn conc_instr(s: (OpenSplits, Seq<(int, Seq<char>, Seq<char>)>), i: SsaInstruction) -> (OpenSplits, Seq<(int, Seq<char>, Seq<char>)>) {
    match i {
        SsaInstruction::Split { parent, branches } => (split_step(s.0, parent@, views(branches@)), s.1),
        SsaInstruction::Merge { branches, target, .. } => merge_all(s, target@, views(branches@), branches@.len() as int),
        _ => s,
    }
}

pub open spec fn conc_block(s: (OpenSplits, Seq<(int, Seq<char>, Seq<char>)>), instrs: Seq<SsaInstruction>, k: int) -> (OpenSplits, Seq<(int, Seq<char>, Seq<char>)>)
    decreases k,
{
    if k <= 0 {
        s
    } else {
        conc_instr(conc_block(s, instrs, k - 1), instrs[k - 1])
    }
}

/// The open splits and findings after the first `i` blocks, in id order.
pub open spec fn conc_scan(e: Seq<(BlockId, SsaBasicBlock)>, i: int) -> (OpenSplits, Seq<(int, Seq<char>, Seq<char>)>)
    decreases i,
{
    if i <= 0 {
        (Seq::empty(), Seq::empty())
    } else {
        conc_block(conc_scan(e, i - 1), e[i - 1].1.instructions@, e[i - 1].1.instructions@.len() as int)
    }
}

/// One finding for each branch still open, parent by parent.
pub open spec fn unmerged(st: OpenSplits, i: int) -> Seq<(int, Seq<char>, Seq<char>)>
    decreases i,
{
    if i <= 0 {
        Seq::empty()
    } else {
        unmerged(st, i - 1) + st[i - 1].1.map_values(|b: Seq<char>| (0int, b, st[i - 1].0))
    }
}

/// Everything the analysis finds, in the order it reports it.
pub open spec fn conc_errors(g: SsaCFG) -> Seq<(int, Seq<char>, Seq<char>)> {
    let e = g.blocks.entries@;
    let (st, errs) = conc_scan(e, e.len() as int);
    errs + unmerged(st, st.len() as int)
}

/// The executable open splits, viewed.
pub open spec fn splits_view(v: Seq<(String, Vec<String>)>) -> OpenSplits {
    v.map_values(|x: (String, Vec<String>)| (x.0@, views(x.1@)))
}

proof fn lemma_parent_pos(st: OpenSplits, p: Seq<char>)
    ensures
        -1 <= parent_pos(st, p) < st.len(),
        parent_pos(st, p) >= 0 ==> st[parent_pos(st, p)].0 == p,
    decreases st.len(),
{
    if st.len() > 0 {
        lemma_parent_pos(st.drop_last(), p);
    }
}

fn find_parent(st: &Vec<(String, Vec<String>)>, p: &str) -> (r: Option<usize>)
    ensures
        match r {
            Some(i) => i < st@.len() && i == parent_pos(splits_view(st@), p@),
            None => parent_pos(splits_view(st@), p@) == -1,
        },
{
    let ghost sv = splits_view(st@);
    let mut i: usize = st.len();
    assert(sv.subrange(0, i as int) =~= sv);
    while i > 0
        invariant
            i <= st@.len(),
            sv == splits_view(st@),
            parent_pos(sv, p@) == parent_pos(sv.subrange(0, i as int), p@),
        decreases i,
    {
        let ghost t = sv.subrange(0, i as int);
        assert(t.drop_last() =~= sv.subrange(0, i - 1));
        if str_eq(st[i - 1].0.as_str(), p) {
            return Some(i - 1);
        }
        i = i - 1;
    }
    None
}

fn names_contain(v: &Vec<String>, x: &str) -> (r: Option<usize>)
    ensures
        match r {
            Some(i) => i < v@.len() && v@[i as int]@ == x@ && i == name_pos(views(v@), x@),
            None => !views(v@).contains(x@),
        },
{
    let ghost sv = views(v@);
    let mut i: usize = v.len();
    assert(sv.subrange(0, i as int) =~= sv);
    while i > 0
        invariant
            i <= v@.len(),
            sv == views(v@),
            name_pos(sv, x@) == name_pos(sv.subrange(0, i as int), x@),
            forall|j: int| i <= j < v@.len() ==> v@[j]@ != x@,
        decreases i,
    {
        let ghost t = sv.subrange(0, i as int);
        assert(t.drop_last() =~= sv.subrange(0, i - 1));
        if str_eq(v[i - 1].as_str(), x) {
            return Some(i - 1);
        }
        i = i - 1;
    }
    proof {
        if sv.contains(x@) {
            let j = choose|j: int| 0 <= j < sv.len() && sv[j] == x@;
            assert(v@[j]@ == x@);
        }
    }
    None
}

fn add_branches(list: &mut Vec<String>, bs: &Vec<String>)
    ensures
        views(final(list)@) == add_names(views(old(list)@), views(bs@)),
{
    let mut k: usize = 0;
    while k < bs.len()
        invariant
            k <= bs@.len(),
            views(list@) == add_names(views(old(list)@), views(bs@).subrange(0, k as int)),
        decreases bs@.len() - k,
    {
        let ghost pre = views(list@);
        assert(views(bs@).subrange(0, k + 1).drop_last() =~= views(bs@).subrange(0, k as int));
        assert(views(bs@).subrange(0, k + 1).last() == bs@[k as int]@);
        match names_contain(list, bs[k].as_str()) {
            Some(j) => {
                assert(pre[j as int] == list@[j as int]@);
                assert(pre.contains(bs@[k as int]@));
            },
            None => {
                list.push(bs[k].clone());
                assert(views(list@) =~= pre.push(bs@[k as int]@));
            },
        }
        k = k + 1;
    }
    assert(views(bs@).subrange(0, bs@.len() as int) =~= views(bs@));
}

pub open spec fn err_views(v: Seq<ConcurrencyError>) -> Seq<(int, Seq<char>, Seq<char>)> {
    v.map_values(|x: ConcurrencyError| conc_code(x))
}

/// Applies one instruction to the open splits and findings.
fn apply_instr(st: &mut Vec<(String, Vec<String>)>, errors: &mut Vec<ConcurrencyError>, s: &SsaInstruction)
    ensures
        (splits_view(final(st)@), err_views(final(errors)@))
            == conc_instr((splits_view(old(st)@), err_views(old(errors)@)), *s),
{
    match s {
        SsaInstruction::Split { parent, branches } => {
            match find_parent(st, parent.as_str()) {
                Some(p) => {
                    let ghost sv0 = splits_view(st@);
                    let ghost l0 = st@[p as int].1;
                    proof {
                        lemma_parent_pos(sv0, parent@);
                    }
                    add_branches(&mut st[p].1, branches);
                    proof {
                        assert(splits_view(st@) =~= sv0.update(p as int, (parent@, add_names(views(l0@), views(branches@)))));
                    }
                },
                None => {
                    let mut l: Vec<String> = Vec::new();
                    assert(views(l@) =~= Seq::<Seq<char>>::empty());
                    add_branches(&mut l, branches);
                    let ghost sv0 = splits_view(st@);
                    st.push((parent.clone(), l));
                    proof {
                        assert(splits_view(st@) =~= sv0.push((parent@, add_names(Seq::empty(), views(branches@)))));
                    }
                },
            }
        },
        SsaInstruction::Merge { branches, target, .. } => {
            let ghost s0 = (splits_view(st@), err_views(errors@));
            let mut k: usize = 0;
            while k < branches.len()
                invariant
                    k <= branches@.len(),
                    (splits_view(st@), err_views(errors@)) == merge_all(s0, target@, views(branches@), k as int),
                decreases branches@.len() - k,
            {
                let b = &branches[k];
                let ghost cur = (splits_view(st@), err_views(errors@));
                assert(views(branches@)[k as int] == b@);
                match find_parent(st, target.as_str()) {
                    None => {},
                    Some(p) => {
                        let ghost l = views(st@[p as int].1@);
                        proof {
                            lemma_name_pos(l, b@);
                        }
                        match names_contain(&st[p].1, b.as_str()) {
                            Some(j) => {
                                let ghost sv0 = splits_view(st@);
                                let ghost l0 = st@[p as int].1@;
                                assert(views(l0)[j as int] == b@);
                                st[p].1.remove(j);
                                proof {
                                    assert(views(st@[p as int].1@) =~= views(l0).remove(j as int));
                                    assert(splits_view(st@) =~= sv0.update(p as int, (sv0[p as int].0, sv0[p as int].1.remove(j as int))));
                                }
                            },
                            None => {
                                let ghost e0 = err_views(errors@);
                                errors.push(ConcurrencyError::MismatchedMerge { branch: b.clone(), target: target.clone() });
                                assert(err_views(errors@) =~= e0.push((1int, b@, target@)));
                            },
                        }
                    },
                }
                k = k + 1;
            }
        },
        _ => {},
    }
}

/// Checks that every branch a split opens is merged back into its parent and
/// that every merge closes open branches (see `conc_errors`): `Ok` when
/// nothing is found, else every finding in order.
pub fn analyze_concurrency(ssa_cfg: &SsaCFG) -> (r: Result<(), Vec<ConcurrencyError>>)
    ensures
        match r {
            Ok(()) => conc_errors(*ssa_cfg).len() == 0,
            Err(v) => err_views(v@) == conc_errors(*ssa_cfg) && conc_errors(*ssa_cfg).len() > 0,
        },
{
    let ghost e = ssa_cfg.blocks.entries@;
    let mut st: Vec<(String, Vec<String>)> = Vec::new();
    let mut errors: Vec<ConcurrencyError> = Vec::new();
    proof {
        assert(splits_view(st@) =~= Seq::<(Seq<char>, Seq<Seq<char>>)>::empty());
        assert(err_views(errors@) =~= Seq::<(int, Seq<char>, Seq<char>)>::empty());
    }
    let mut i: usize = 0;
    while i < ssa_cfg.blocks.entries.len()
        invariant
            e == ssa_cfg.blocks.entries@,
            i <= e.len(),
            (splits_view(st@), err_views(errors@)) == conc_scan(e, i as int),
        decreases e.len() - i,
    {
        let instrs = &ssa_cfg.blocks.entries[i].1.instructions;
        let ghost s0 = conc_scan(e, i as int);
        let mut k: usize = 0;
        while k < instrs.len()
            invariant
                k <= instrs@.len(),
                (splits_view(st@), err_views(errors@)) == conc_block(s0, instrs@, k as int),
            decreases instrs@.len() - k,
        {
            apply_instr(&mut st, &mut errors, &instrs[k]);
            k = k + 1;
        }
        i = i + 1;
    }
    let ghost fin = splits_view(st@);
    let ghost e0 = err_views(errors@);
    let mut p: usize = 0;
    while p < st.len()
        invariant
            fin == splits_view(st@),
            p <= st@.len(),
            err_views(errors@) == e0 + unmerged(fin, p as int),
        decreases st@.len() - p,
    {
        let list = &st[p].1;
        let ghost e1 = err_views(errors@);
        let mut q: usize = 0;
        while q < list.len()
            invariant
                fin == splits_view(st@),
                p < st@.len(),
                *list == st@[p as int].1,
                q <= list@.len(),
                err_views(errors@) == e1 + views(list@).subrange(0, q as int).map_values(|b: Seq<char>| (0int, b, st@[p as int].0@)),
            decreases list@.len() - q,
        {
            let ghost e2 = err_views(errors@);
            errors.push(ConcurrencyError::UnmergedBranch { branch: list[q].clone(), parent: st[p].0.clone() });
            proof {
                assert(err_views(errors@) =~= e2.push((0int, list@[q as int]@, st@[p as int].0@)));
                assert(views(list@).subrange(0, q + 1) =~= views(list@).subrange(0, q as int).push(list@[q as int]@));
            }
            q = q + 1;
            assert(err_views(errors@) =~= e1 + views(list@).subrange(0, q as int).map_values(|b: Seq<char>| (0int, b, st@[p as int].0@)));
        }
        proof {
            assert(views(list@).subrange(0, list@.len() as int) =~= views(list@));
            assert(fin[p as int].1 == views(list@));
            assert(fin[p as int].0 == st@[p as int].0@);
        }
        p = p + 1;
        assert(err_views(errors@) =~= e0 + unmerged(fin, p as int));
    }
    if errors.len() == 0 {
        Ok(())
    } else {
        Err(errors)
    }
}

/// Checks split and merge consistency (see `analyze_concurrency`); never
/// changes the graph.
pub struct ConcurrencyAnalysisPass;

impl OptimizationPass for ConcurrencyAnalysisPass {
    fn name(&self) -> (r: &'static str)
        ensures
            r@ == "concurrency-analysis"@,
    {
        "concurrency-analysis"
    }

    /// The findings of `analyze_concurrency` are for the caller to report;
    /// the pass itself leaves the graph as it is.
    open spec fn step(&self, before: SsaCFG, after: SsaCFG, globals: Set<u32>, is_routine: bool, changed: bool) -> bool {
        &&& !changed
        &&& after == before
    }

    fn run(&self, ssa_cfg: &mut SsaCFG, globally_used_regs: &HashSet<u32>, is_routine: bool) -> (changed: bool) {
        false
    }
}

} // verus!

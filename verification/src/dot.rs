//! Graphviz rendering of control-flow graphs.

use vstd::prelude::*;
use crate::blockmap::BlockId;
use crate::cfg::{CFG, BasicBlock, Terminator, SelectCase};
use crate::debug_text::{instruction_debug_text, instruction_debug, terminator_debug, terminator_debug_text};
use crate::instruction::Instruction;
use crate::text::{push_str, push_decimal, push_escaped, dec_text, escaped};

verus! {

/// The decimal numeral of a block id.
pub open spec fn id_text(b: BlockId) -> Seq<char> {
    dec_text(b as nat)
}

/// An edge line, with a label when one is given.
pub open spec fn edge_line(from: BlockId, to: BlockId, label: Option<Seq<char>>) -> Seq<char> {
    "  block_"@ + id_text(from) + " -> block_"@ + id_text(to) + match label {
        Some(l) => " [label=\""@ + l + "\"];\n"@,
        None => ";\n"@,
    }
}

pub open spec fn opt_edge(from: BlockId, to: Option<BlockId>, label: Seq<char>) -> Seq<char> {
    match to {
        Some(t) => edge_line(from, t, Some(label)),
        None => Seq::empty(),
    }
}

/// The edge lines of the first `k` select arms.
pub open spec fn case_edges(from: BlockId, cases: Seq<SelectCase>, k: int) -> Seq<char>
    decreases k,
{
    if k <= 0 {
        Seq::empty()
    } else {
        case_edges(from, cases, k - 1) + edge_line(from, cases[k - 1].target_block, Some("case "@ + cases[k - 1].chan_id@))
    }
}

/// The edge lines of a block's terminator.
pub open spec fn term_edges(id: BlockId, t: Terminator) -> Seq<char> {
    match t {
        Terminator::Jump { target } => edge_line(id, target, None),
        Terminator::Branch { then_block, else_block, .. } =>
            edge_line(id, then_block, Some("then"@)) + edge_line(id, else_block, Some("else"@)),
        Terminator::MatchEntropy { valid_block, decayed_block, pending_block, consumed_block, .. } =>
            opt_edge(id, valid_block, "valid"@) + opt_edge(id, decayed_block, "decayed"@)
            + opt_edge(id, pending_block, "pending"@) + opt_edge(id, consumed_block, "consumed"@),
        Terminator::Select { cases, timeout_block, .. } =>
            case_edges(id, cases@, cases@.len() as int) + opt_edge(id, timeout_block, "timeout"@),
        _ => Seq::empty(),
    }
}

/// The label lines of the first `k` instructions, from their debug texts.
pub open spec fn instr_lines(texts: Seq<Seq<char>>, k: int) -> Seq<char>
    decreases k,
{
    if k <= 0 {
        Seq::empty()
    } else {
        instr_lines(texts, k - 1) + "  "@ + escaped(texts[k - 1]) + "\\n"@
    }
}

/// A block's node line and edge lines, from the debug texts of its
/// instructions and its terminator.
pub open spec fn block_dot(id: BlockId, b: BasicBlock, texts: Seq<Seq<char>>, term_text: Seq<char>) -> Seq<char> {
    let label = "Block "@ + id_text(id) + "\\n"@ + instr_lines(texts, texts.len() as int)
        + "  Terminator: "@ + escaped(term_text) + "\\n"@;
    "  block_"@ + id_text(id) + " [label=\""@ + label + "\"];\n"@ + term_edges(id, b.terminator)
}

pub open spec fn blocks_dot(e: Seq<(BlockId, BasicBlock)>, texts: Seq<Seq<Seq<char>>>, term_texts: Seq<Seq<char>>, i: int) -> Seq<char>
    decreases i,
{
    if i <= 0 {
        Seq::empty()
    } else {
        blocks_dot(e, texts, term_texts, i - 1) + block_dot(e[i - 1].0, e[i - 1].1, texts[i - 1], term_texts[i - 1])
    }
}

/// The Graphviz text of the graph, blocks in id order, from the debug texts
/// of the instructions and terminators.
pub open spec fn cfg_dot(cfg: CFG, texts: Seq<Seq<Seq<char>>>, term_texts: Seq<Seq<char>>) -> Seq<char> {
    let e = cfg.blocks.entries@;
    "digraph CFG {\n"@ + "  node [shape=box, fontname=\"Courier\"];\n"@ + blocks_dot(e, texts, term_texts, e.len() as int) + "}\n"@
}

/// The debug texts of the instructions of every block.
pub open spec fn instr_debug_texts(e: Seq<(BlockId, BasicBlock)>) -> Seq<Seq<Seq<char>>> {
    e.map_values(|p: (BlockId, BasicBlock)| p.1.instructions@.map_values(|i: Instruction| instruction_debug(i)))
}

/// The debug texts of the terminators of every block.
pub open spec fn term_debug_texts(e: Seq<(BlockId, BasicBlock)>) -> Seq<Seq<char>> {
    e.map_values(|p: (BlockId, BasicBlock)| terminator_debug(p.1.terminator))
}

pub open spec fn text_views(v: Seq<String>) -> Seq<Seq<char>> {
    v.map_values(|s: String| s@)
}

pub open spec fn nested_views(v: Seq<Vec<String>>) -> Seq<Seq<Seq<char>>> {
    v.map_values(|x: Vec<String>| text_views(x@))
}

fn push_edge(s: &mut String, from: BlockId, to: BlockId, label: Option<&str>)
    ensures
        final(s)@ == old(s)@ + edge_line(from, to, match label {
            Some(l) => Some(l@),
            None => None,
        }),
{
    push_str(s, "  block_");
    push_decimal(s, from as u64);
    push_str(s, " -> block_");
    push_decimal(s, to as u64);
    match label {
        Some(l) => {
            push_str(s, " [label=\"");
            push_str(s, l);
            push_str(s, "\"];\n");
        },
        None => {
            push_str(s, ";\n");
        },
    }
    assert(s@ =~= old(s)@ + edge_line(from, to, match label {
        Some(l) => Some(l@),
        None => None,
    }));
}

fn push_opt_edge(s: &mut String, from: BlockId, to: Option<BlockId>, label: &str)
    ensures
        final(s)@ == old(s)@ + opt_edge(from, to, label@),
{
    match to {
        Some(t) => push_edge(s, from, t, Some(label)),
        None => {
            assert(s@ =~= old(s)@ + opt_edge(from, to, label@));
        },
    }
}

fn push_term_edges(s: &mut String, id: BlockId, t: &Terminator)
    ensures
        final(s)@ == old(s)@ + term_edges(id, *t),
{
    match t {
        Terminator::Jump { target } => push_edge(s, id, *target, None),
        Terminator::Branch { then_block, else_block, .. } => {
            push_edge(s, id, *then_block, Some("then"));
            push_edge(s, id, *else_block, Some("else"));
            assert(s@ =~= old(s)@ + term_edges(id, *t));
        },
        Terminator::MatchEntropy { valid_block, decayed_block, pending_block, consumed_block, .. } => {
            push_opt_edge(s, id, *valid_block, "valid");
            push_opt_edge(s, id, *decayed_block, "decayed");
            push_opt_edge(s, id, *pending_block, "pending");
            push_opt_edge(s, id, *consumed_block, "consumed");
            assert(s@ =~= old(s)@ + term_edges(id, *t));
        },
        Terminator::Select { cases, timeout_block, .. } => {
            let mut k: usize = 0;
            while k < cases.len()
                invariant
                    k <= cases@.len(),
                    s@ == old(s)@ + case_edges(id, cases@, k as int),
                decreases cases@.len() - k,
            {
                let mut label = String::new();
                push_str(&mut label, "case ");
                push_str(&mut label, cases[k].chan_id.as_str());
                push_edge(s, id, cases[k].target_block, Some(label.as_str()));
                k = k + 1;
                assert(s@ =~= old(s)@ + case_edges(id, cases@, k as int));
            }
            push_opt_edge(s, id, *timeout_block, "timeout");
            assert(s@ =~= old(s)@ + term_edges(id, *t));
        },
        _ => {
            assert(s@ =~= old(s)@ + term_edges(id, *t));
        },
    }
}

/// The Graphviz text of the graph (see `cfg_dot`), from the given debug
/// texts of its instructions and terminators.
pub fn dot_with_texts(cfg: &CFG, texts: &Vec<Vec<String>>, term_texts: &Vec<String>) -> (dot: String)
    requires
        texts@.len() == cfg.blocks.entries@.len(),
        term_texts@.len() == cfg.blocks.entries@.len(),
    ensures
        dot@ == cfg_dot(*cfg, nested_views(texts@), text_views(term_texts@)),
{
    let ghost e = cfg.blocks.entries@;
    let ghost tv = nested_views(texts@);
    let ghost ttv = text_views(term_texts@);
    let mut dot = String::new();
    push_str(&mut dot, "digraph CFG {\n");
    push_str(&mut dot, "  node [shape=box, fontname=\"Courier\"];\n");
    let ghost head = dot@;
    let mut i: usize = 0;
    while i < cfg.blocks.entries.len()
        invariant
            e == cfg.blocks.entries@,
            tv == nested_views(texts@),
            ttv == text_views(term_texts@),
            texts@.len() == e.len(),
            term_texts@.len() == e.len(),
            i <= e.len(),
            dot@ == head + blocks_dot(e, tv, ttv, i as int),
        decreases e.len() - i,
    {
        let id = cfg.blocks.entries[i].0;
        let b = &cfg.blocks.entries[i].1;
        let its = &texts[i];
        let ghost d0 = dot@;
        let mut label = String::new();
        push_str(&mut label, "Block ");
        push_decimal(&mut label, id as u64);
        push_str(&mut label, "\\n");
        let ghost l0 = label@;
        let mut k: usize = 0;
        while k < its.len()
            invariant
                k <= its@.len(),
                label@ == l0 + instr_lines(text_views(its@), k as int),
            decreases its@.len() - k,
        {
            push_str(&mut label, "  ");
            push_escaped(&mut label, its[k].as_str());
            push_str(&mut label, "\\n");
            k = k + 1;
            assert(label@ =~= l0 + instr_lines(text_views(its@), k as int));
        }
        push_str(&mut label, "  Terminator: ");
        push_escaped(&mut label, term_texts[i].as_str());
        push_str(&mut label, "\\n");
        push_str(&mut dot, "  block_");
        push_decimal(&mut dot, id as u64);
        push_str(&mut dot, " [label=\"");
        push_str(&mut dot, label.as_str());
        push_str(&mut dot, "\"];\n");
        push_term_edges(&mut dot, id, &b.terminator);
        proof {
            assert(tv[i as int] == text_views(its@));
            assert(ttv[i as int] == term_texts@[i as int]@);
        }
        i = i + 1;
        assert(dot@ =~= head + blocks_dot(e, tv, ttv, i as int));
    }
    push_str(&mut dot, "}\n");
    assert(dot@ =~= cfg_dot(*cfg, tv, ttv));
    dot
}

impl CFG {
    /// The Graphviz text of the graph: a node per block, in id order,
    /// labelled with the block's id and the debug texts of its instructions
    /// and terminator, then an edge per target of its terminator.
    pub fn to_dot(&self) -> (dot: String)
        requires
            self.blocks.wf(),
        ensures
            dot@ == cfg_dot(*self, instr_debug_texts(self.blocks.entries@), term_debug_texts(self.blocks.entries@)),
    {
        let ghost e = self.blocks.entries@;
        let mut texts: Vec<Vec<String>> = Vec::new();
        let mut term_texts: Vec<String> = Vec::new();
        let mut i: usize = 0;
        while i < self.blocks.entries.len()
            invariant
                e == self.blocks.entries@,
                i <= e.len(),
                texts@.len() == i,
                term_texts@.len() == i,
                forall|q: int| 0 <= q < i ==> #[trigger] nested_views(texts@)[q] == instr_debug_texts(e)[q],
                forall|q: int| 0 <= q < i ==> #[trigger] text_views(term_texts@)[q] == term_debug_texts(e)[q],
            decreases e.len() - i,
        {
            let b = &self.blocks.entries[i].1;
            let ghost want = b.instructions@.map_values(|x: Instruction| instruction_debug(x));
            let mut its: Vec<String> = Vec::new();
            let mut k: usize = 0;
            while k < b.instructions.len()
                invariant
                    k <= b.instructions@.len(),
                    its@.len() == k,
                    want == b.instructions@.map_values(|x: Instruction| instruction_debug(x)),
                    forall|q: int| 0 <= q < k ==> #[trigger] its@[q]@ == want[q],
                decreases b.instructions@.len() - k,
            {
                its.push(instruction_debug_text(&b.instructions[k]));
                k = k + 1;
            }
            assert(text_views(its@) =~= want);
            let ghost old_texts = texts@;
            let ghost old_terms = term_texts@;
            texts.push(its);
            term_texts.push(terminator_debug_text(&b.terminator));
            proof {
                assert forall|q: int| 0 <= q < i + 1 implies #[trigger] nested_views(texts@)[q] == instr_debug_texts(e)[q] by {
                    if q < i {
                        assert(texts@[q] == old_texts[q]);
                        assert(nested_views(old_texts)[q] == nested_views(texts@)[q]);
                    }
                }
                assert forall|q: int| 0 <= q < i + 1 implies #[trigger] text_views(term_texts@)[q] == term_debug_texts(e)[q] by {
                    if q < i {
                        assert(text_views(old_terms)[q] == text_views(term_texts@)[q]);
                    }
                }
            }
            i = i + 1;
        }
        assert(nested_views(texts@) =~= instr_debug_texts(e));
        assert(text_views(term_texts@) =~= term_debug_texts(e));
        dot_with_texts(self, &texts, &term_texts)
    }
}

} // verus!

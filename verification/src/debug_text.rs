//! The texts that the derived `Debug` of the instruction set and of the
//! terminators writes, spelled out and built by verified code.

use vstd::prelude::*;
use crate::ir::{Reg, IrSelectCase, MergeResolution};
use crate::instruction::Instruction;
use crate::blockmap::BlockId;
use crate::cfg::{Terminator, SelectCase};
use crate::ssa::{SsaReg, SsaTerminator, SsaSelectCase};
use crate::text::{push_str, push_decimal, push_int, dec_text, int_text};
use crate::ssa::display::{
    join, views, push_join, str_debug, push_str_debug, strs_debug, push_strs_debug, reg_debug, bool_text, bool_str,
    binop_name, binop_str, unop_name, unop_str, entropy_mode_name, entropy_mode_str, commit_mode_name, commit_mode_str,
    param_mode_name, param_mode_str,
};

verus! {

/// `Reg(<n>)`.
pub open spec fn flat_reg_debug(r: Reg) -> Seq<char> {
    "Reg("@ + dec_text(r.0 as nat) + ")"@
}

/// Appends the debug text of a register.
pub fn push_flat_reg(s: &mut String, r: Reg)
    ensures
        final(s)@ == old(s)@ + flat_reg_debug(r),
{
    push_str(s, "Reg(");
    push_decimal(s, r.0 as u64);
    push_str(s, ")");
    assert(s@ =~= old(s)@ + flat_reg_debug(r));
}

/// `[` and `]` round `parts`, separated by `, `.
pub open spec fn list_debug(parts: Seq<Seq<char>>) -> Seq<char> {
    "["@ + join(parts) + "]"@
}

fn push_list(s: &mut String, parts: &Vec<String>)
    ensures
        final(s)@ == old(s)@ + list_debug(views(parts@)),
{
    push_str(s, "[");
    push_join(s, parts);
    push_str(s, "]");
    assert(s@ =~= old(s)@ + list_debug(views(parts@)));
}

/// The debug text of a list of registers.
pub open spec fn flat_regs_debug(v: Seq<Reg>) -> Seq<char> {
    list_debug(v.map_values(|r: Reg| flat_reg_debug(r)))
}

fn push_flat_regs(s: &mut String, v: &Vec<Reg>)
    ensures
        final(s)@ == old(s)@ + flat_regs_debug(v@),
{
    let mut parts: Vec<String> = Vec::new();
    let mut k: usize = 0;
    while k < v.len()
        invariant
            k <= v@.len(),
            parts@.len() == k,
            forall|q: int| 0 <= q < k ==> #[trigger] parts@[q]@ == flat_reg_debug(v@[q]),
        decreases v@.len() - k,
    {
        let mut t = String::new();
        push_flat_reg(&mut t, v[k]);
        assert(t@ =~= flat_reg_debug(v@[k as int]));
        parts.push(t);
        k = k + 1;
    }
    assert(views(parts@) =~= v@.map_values(|r: Reg| flat_reg_debug(r)));
    push_list(s, &parts);
}

/// `Some(<n>)` or `None`.
pub open spec fn opt_u64_debug(o: Option<u64>) -> Seq<char> {
    match o {
        Some(x) => "Some("@ + dec_text(x as nat) + ")"@,
        None => "None"@,
    }
}

fn push_opt_u64(s: &mut String, o: Option<u64>)
    ensures
        final(s)@ == old(s)@ + opt_u64_debug(o),
{
    match o {
        Some(x) => {
            push_str(s, "Some(");
            push_decimal(s, x);
            push_str(s, ")");
        },
        None => push_str(s, "None"),
    }
    assert(s@ =~= old(s)@ + opt_u64_debug(o));
}

/// `Some(<n>)` or `None`.
pub open spec fn opt_usize_debug(o: Option<usize>) -> Seq<char> {
    match o {
        Some(x) => "Some("@ + dec_text(x as nat) + ")"@,
        None => "None"@,
    }
}

fn push_opt_usize(s: &mut String, o: Option<usize>)
    ensures
        final(s)@ == old(s)@ + opt_usize_debug(o),
{
    match o {
        Some(x) => {
            push_str(s, "Some(");
            push_decimal(s, x as u64);
            push_str(s, ")");
        },
        None => push_str(s, "None"),
    }
    assert(s@ =~= old(s)@ + opt_usize_debug(o));
}

/// `Some(<n>)` or `None`, for a block id.
pub open spec fn opt_block_debug(o: Option<BlockId>) -> Seq<char> {
    match o {
        Some(x) => "Some("@ + dec_text(x as nat) + ")"@,
        None => "None"@,
    }
}

fn push_opt_block(s: &mut String, o: Option<BlockId>)
    ensures
        final(s)@ == old(s)@ + opt_block_debug(o),
{
    match o {
        Some(x) => {
            push_str(s, "Some(");
            push_decimal(s, x as u64);
            push_str(s, ")");
        },
        None => push_str(s, "None"),
    }
    assert(s@ =~= old(s)@ + opt_block_debug(o));
}

/// `Some(Reg(<n>))` or `None`.
pub open spec fn opt_flat_reg_debug(o: Option<Reg>) -> Seq<char> {
    match o {
        Some(x) => "Some("@ + flat_reg_debug(x) + ")"@,
        None => "None"@,
    }
}

fn push_opt_flat_reg(s: &mut String, o: Option<Reg>)
    ensures
        final(s)@ == old(s)@ + opt_flat_reg_debug(o),
{
    match o {
        Some(x) => {
            push_str(s, "Some(");
            push_flat_reg(s, x);
            push_str(s, ")");
        },
        None => push_str(s, "None"),
    }
    assert(s@ =~= old(s)@ + opt_flat_reg_debug(o));
}

/// `Some(SsaReg { .. })` or `None`.
pub open spec fn opt_ssa_reg_debug(o: Option<SsaReg>) -> Seq<char> {
    match o {
        Some(x) => "Some("@ + reg_debug(x) + ")"@,
        None => "None"@,
    }
}

fn push_ssa_reg_debug(s: &mut String, r: SsaReg)
    ensures
        final(s)@ == old(s)@ + reg_debug(r),
{
    push_str(s, "SsaReg { reg: ");
    push_decimal(s, r.reg as u64);
    push_str(s, ", version: ");
    push_decimal(s, r.version as u64);
    push_str(s, " }");
    assert(s@ =~= old(s)@ + reg_debug(r));
}

fn push_opt_ssa_reg(s: &mut String, o: Option<SsaReg>)
    ensures
        final(s)@ == old(s)@ + opt_ssa_reg_debug(o),
{
    match o {
        Some(x) => {
            push_str(s, "Some(");
            push_ssa_reg_debug(s, x);
            push_str(s, ")");
        },
        None => push_str(s, "None"),
    }
    assert(s@ =~= old(s)@ + opt_ssa_reg_debug(o));
}

/// `Some("<text>")` or `None`.
pub open spec fn opt_str_debug(o: Option<String>) -> Seq<char> {
    match o {
        Some(x) => "Some("@ + str_debug(x@) + ")"@,
        None => "None"@,
    }
}

fn push_opt_str(s: &mut String, o: &Option<String>)
    ensures
        final(s)@ == old(s)@ + opt_str_debug(*o),
{
    match o {
        Some(x) => {
            push_str(s, "Some(");
            push_str_debug(s, x.as_str());
            push_str(s, ")");
        },
        None => push_str(s, "None"),
    }
    assert(s@ =~= old(s)@ + opt_str_debug(*o));
}

/// `<name> { text: "<text>" }`, a value held as its surface text.
pub open spec fn text_debug(name: Seq<char>, t: Seq<char>) -> Seq<char> {
    name + " { text: "@ + str_debug(t) + " }"@
}

fn push_text_debug(s: &mut String, name: &str, t: &str)
    ensures
        final(s)@ == old(s)@ + text_debug(name@, t@),
{
    push_str(s, name);
    push_str(s, " { text: ");
    push_str_debug(s, t);
    push_str(s, " }");
    assert(s@ =~= old(s)@ + text_debug(name@, t@));
}

/// `Some(MergeResolution { .. })` or `None`.
pub open spec fn opt_resolution_debug(o: Option<MergeResolution>) -> Seq<char> {
    match o {
        Some(x) => "Some("@ + text_debug("MergeResolution"@, x.text@) + ")"@,
        None => "None"@,
    }
}

fn push_opt_resolution(s: &mut String, o: &Option<MergeResolution>)
    ensures
        final(s)@ == old(s)@ + opt_resolution_debug(*o),
{
    match o {
        Some(x) => {
            push_str(s, "Some(");
            push_text_debug(s, "MergeResolution", x.text.as_str());
            push_str(s, ")");
        },
        None => push_str(s, "None"),
    }
    assert(s@ =~= old(s)@ + opt_resolution_debug(*o));
}

/// `("<name>", Reg(<n>))`, one named field.
pub open spec fn field_reg_debug(p: (String, Reg)) -> Seq<char> {
    "("@ + str_debug(p.0@) + ", "@ + flat_reg_debug(p.1) + ")"@
}

/// The debug text of a list of named fields.
pub open spec fn field_regs_debug(v: Seq<(String, Reg)>) -> Seq<char> {
    list_debug(v.map_values(|p: (String, Reg)| field_reg_debug(p)))
}

fn push_field_regs(s: &mut String, v: &Vec<(String, Reg)>)
    ensures
        final(s)@ == old(s)@ + field_regs_debug(v@),
{
    let mut parts: Vec<String> = Vec::new();
    let mut k: usize = 0;
    while k < v.len()
        invariant
            k <= v@.len(),
            parts@.len() == k,
            forall|q: int| 0 <= q < k ==> #[trigger] parts@[q]@ == field_reg_debug(v@[q]),
        decreases v@.len() - k,
    {
        let mut t = String::new();
        push_str(&mut t, "(");
        push_str_debug(&mut t, v[k].0.as_str());
        push_str(&mut t, ", ");
        push_flat_reg(&mut t, v[k].1);
        push_str(&mut t, ")");
        assert(t@ =~= field_reg_debug(v@[k as int]));
        parts.push(t);
        k = k + 1;
    }
    assert(views(parts@) =~= v@.map_values(|p: (String, Reg)| field_reg_debug(p)));
    push_list(s, &parts);
}

/// The debug text of a select arm of the flat form.
pub open spec fn ir_case_debug(c: IrSelectCase) -> Seq<char> {
    "IrSelectCase { chan_id: "@ + str_debug(c.chan_id@) + ", dest: "@ + flat_reg_debug(c.dest) + ", target: "@ + dec_text(c.target as nat) + " }"@
}

/// The debug text of a list of select arms of the flat form.
pub open spec fn ir_cases_debug(v: Seq<IrSelectCase>) -> Seq<char> {
    list_debug(v.map_values(|c: IrSelectCase| ir_case_debug(c)))
}

fn push_ir_cases(s: &mut String, v: &Vec<IrSelectCase>)
    ensures
        final(s)@ == old(s)@ + ir_cases_debug(v@),
{
    let mut parts: Vec<String> = Vec::new();
    let mut k: usize = 0;
    while k < v.len()
        invariant
            k <= v@.len(),
            parts@.len() == k,
            forall|q: int| 0 <= q < k ==> #[trigger] parts@[q]@ == ir_case_debug(v@[q]),
        decreases v@.len() - k,
    {
        let mut t = String::new();
        push_str(&mut t, "IrSelectCase { chan_id: ");
        push_str_debug(&mut t, v[k].chan_id.as_str());
        push_str(&mut t, ", dest: ");
        push_flat_reg(&mut t, v[k].dest);
        push_str(&mut t, ", target: ");
        push_decimal(&mut t, v[k].target as u64);
        push_str(&mut t, " }");
        assert(t@ =~= ir_case_debug(v@[k as int]));
        parts.push(t);
        k = k + 1;
    }
    assert(views(parts@) =~= v@.map_values(|c: IrSelectCase| ir_case_debug(c)));
    push_list(s, &parts);
}

/// The debug text of a select arm of a control-flow graph.
pub open spec fn select_case_debug(c: SelectCase) -> Seq<char> {
    "SelectCase { chan_id: "@ + str_debug(c.chan_id@) + ", dest: "@ + flat_reg_debug(c.dest) + ", target_block: "@ + dec_text(c.target_block as nat) + " }"@
}

/// The debug text of a list of select arms of a control-flow graph.
pub open spec fn select_cases_debug(v: Seq<SelectCase>) -> Seq<char> {
    list_debug(v.map_values(|c: SelectCase| select_case_debug(c)))
}

fn push_select_cases(s: &mut String, v: &Vec<SelectCase>)
    ensures
        final(s)@ == old(s)@ + select_cases_debug(v@),
{
    let mut parts: Vec<String> = Vec::new();
    let mut k: usize = 0;
    while k < v.len()
        invariant
            k <= v@.len(),
            parts@.len() == k,
            forall|q: int| 0 <= q < k ==> #[trigger] parts@[q]@ == select_case_debug(v@[q]),
        decreases v@.len() - k,
    {
        let mut t = String::new();
        push_str(&mut t, "SelectCase { chan_id: ");
        push_str_debug(&mut t, v[k].chan_id.as_str());
        push_str(&mut t, ", dest: ");
        push_flat_reg(&mut t, v[k].dest);
        push_str(&mut t, ", target_block: ");
        push_decimal(&mut t, v[k].target_block as u64);
        push_str(&mut t, " }");
        assert(t@ =~= select_case_debug(v@[k as int]));
        parts.push(t);
        k = k + 1;
    }
    assert(views(parts@) =~= v@.map_values(|c: SelectCase| select_case_debug(c)));
    push_list(s, &parts);
}

/// The debug text of a select arm of an SSA graph.
pub open spec fn ssa_case_debug(c: SsaSelectCase) -> Seq<char> {
    "SsaSelectCase { chan_id: "@ + str_debug(c.chan_id@) + ", dest: "@ + reg_debug(c.dest) + ", target: "@ + dec_text(c.target as nat) + " }"@
}

/// The debug text of a list of select arms of an SSA graph.
pub open spec fn ssa_cases_debug(v: Seq<SsaSelectCase>) -> Seq<char> {
    list_debug(v.map_values(|c: SsaSelectCase| ssa_case_debug(c)))
}

fn push_ssa_cases(s: &mut String, v: &Vec<SsaSelectCase>)
    ensures
        final(s)@ == old(s)@ + ssa_cases_debug(v@),
{
    let mut parts: Vec<String> = Vec::new();
    let mut k: usize = 0;
    while k < v.len()
        invariant
            k <= v@.len(),
            parts@.len() == k,
            forall|q: int| 0 <= q < k ==> #[trigger] parts@[q]@ == ssa_case_debug(v@[q]),
        decreases v@.len() - k,
    {
        let mut t = String::new();
        push_str(&mut t, "SsaSelectCase { chan_id: ");
        push_str_debug(&mut t, v[k].chan_id.as_str());
        push_str(&mut t, ", dest: ");
        push_ssa_reg_debug(&mut t, v[k].dest);
        push_str(&mut t, ", target: ");
        push_decimal(&mut t, v[k].target as u64);
        push_str(&mut t, " }");
        assert(t@ =~= ssa_case_debug(v@[k as int]));
        parts.push(t);
        k = k + 1;
    }
    assert(views(parts@) =~= v@.map_values(|c: SsaSelectCase| ssa_case_debug(c)));
    push_list(s, &parts);
}

/// The text that the derived `Debug` of a terminator writes.
#[verifier::opaque]
pub open spec fn terminator_debug(t: Terminator) -> Seq<char> {
    match t {
        Terminator::Jump { target } => "Jump { target: "@ + dec_text(target as nat) + " }"@,
        Terminator::Branch { cond, then_block, else_block } => "Branch { cond: "@ + flat_reg_debug(cond) + ", then_block: "@
            + dec_text(then_block as nat) + ", else_block: "@ + dec_text(else_block as nat) + " }"@,
        Terminator::Return { src } => "Return { src: "@ + opt_flat_reg_debug(src) + " }"@,
        Terminator::MatchEntropy { target, valid_block, decayed_block, pending_block, consumed_block } => "MatchEntropy { target: "@
            + flat_reg_debug(target) + ", valid_block: "@ + opt_block_debug(valid_block) + ", decayed_block: "@ + opt_block_debug(decayed_block)
            + ", pending_block: "@ + opt_block_debug(pending_block) + ", consumed_block: "@ + opt_block_debug(consumed_block) + " }"@,
        Terminator::Select { max_ms, cases, timeout_block } => "Select { max_ms: "@ + dec_text(max_ms as nat) + ", cases: "@
            + select_cases_debug(cases@) + ", timeout_block: "@ + opt_block_debug(timeout_block) + " }"@,
        Terminator::Unreachable => "Unreachable"@,
    }
}

/// The debug text of a terminator, as its derived `Debug` writes it.
pub fn terminator_debug_text(t: &Terminator) -> (r: String)
    ensures
        r@ == terminator_debug(*t),
{
    reveal(terminator_debug);
    let mut s = String::new();
    match t {
        Terminator::Jump { target } => {
            push_str(&mut s, "Jump { target: ");
            push_decimal(&mut s, *target as u64);
            push_str(&mut s, " }");
        },
        Terminator::Branch { cond, then_block, else_block } => {
            push_str(&mut s, "Branch { cond: ");
            push_flat_reg(&mut s, *cond);
            push_str(&mut s, ", then_block: ");
            push_decimal(&mut s, *then_block as u64);
            push_str(&mut s, ", else_block: ");
            push_decimal(&mut s, *else_block as u64);
            push_str(&mut s, " }");
        },
        Terminator::Return { src } => {
            push_str(&mut s, "Return { src: ");
            push_opt_flat_reg(&mut s, *src);
            push_str(&mut s, " }");
        },
        Terminator::MatchEntropy { target, valid_block, decayed_block, pending_block, consumed_block } => {
            push_str(&mut s, "MatchEntropy { target: ");
            push_flat_reg(&mut s, *target);
            push_str(&mut s, ", valid_block: ");
            push_opt_block(&mut s, *valid_block);
            push_str(&mut s, ", decayed_block: ");
            push_opt_block(&mut s, *decayed_block);
            push_str(&mut s, ", pending_block: ");
            push_opt_block(&mut s, *pending_block);
            push_str(&mut s, ", consumed_block: ");
            push_opt_block(&mut s, *consumed_block);
            push_str(&mut s, " }");
        },
        Terminator::Select { max_ms, cases, timeout_block } => {
            push_str(&mut s, "Select { max_ms: ");
            push_decimal(&mut s, *max_ms);
            push_str(&mut s, ", cases: ");
            push_select_cases(&mut s, cases);
            push_str(&mut s, ", timeout_block: ");
            push_opt_block(&mut s, *timeout_block);
            push_str(&mut s, " }");
        },
        Terminator::Unreachable => {
            push_str(&mut s, "Unreachable");
        },
    }
    assert(s@ =~= terminator_debug(*t));
    s
}

/// The text that the derived `Debug` of an SSA terminator writes.
#[verifier::opaque]
pub open spec fn ssa_terminator_debug(t: SsaTerminator) -> Seq<char> {
    match t {
        SsaTerminator::Jump { target } => "Jump { target: "@ + dec_text(target as nat) + " }"@,
        SsaTerminator::Branch { cond, then_block, else_block } => "Branch { cond: "@ + reg_debug(cond) + ", then_block: "@
            + dec_text(then_block as nat) + ", else_block: "@ + dec_text(else_block as nat) + " }"@,
        SsaTerminator::Return { src } => "Return { src: "@ + opt_ssa_reg_debug(src) + " }"@,
        SsaTerminator::MatchEntropy { target, valid_block, decayed_block, pending_block, consumed_block } => "MatchEntropy { target: "@
            + reg_debug(target) + ", valid_block: "@ + opt_block_debug(valid_block) + ", decayed_block: "@ + opt_block_debug(decayed_block)
            + ", pending_block: "@ + opt_block_debug(pending_block) + ", consumed_block: "@ + opt_block_debug(consumed_block) + " }"@,
        SsaTerminator::Select { max_ms, cases, timeout_block } => "Select { max_ms: "@ + dec_text(max_ms as nat) + ", cases: "@
            + ssa_cases_debug(cases@) + ", timeout_block: "@ + opt_block_debug(timeout_block) + " }"@,
        SsaTerminator::Unreachable => "Unreachable"@,
    }
}

/// The debug text of an SSA terminator, as its derived `Debug` writes it.
pub fn ssa_terminator_debug_text(t: &SsaTerminator) -> (r: String)
    ensures
        r@ == ssa_terminator_debug(*t),
{
    reveal(ssa_terminator_debug);
    let mut s = String::new();
    match t {
        SsaTerminator::Jump { target } => {
            push_str(&mut s, "Jump { target: ");
            push_decimal(&mut s, *target as u64);
            push_str(&mut s, " }");
        },
        SsaTerminator::Branch { cond, then_block, else_block } => {
            push_str(&mut s, "Branch { cond: ");
            push_ssa_reg_debug(&mut s, *cond);
            push_str(&mut s, ", then_block: ");
            push_decimal(&mut s, *then_block as u64);
            push_str(&mut s, ", else_block: ");
            push_decimal(&mut s, *else_block as u64);
            push_str(&mut s, " }");
        },
        SsaTerminator::Return { src } => {
            push_str(&mut s, "Return { src: ");
            push_opt_ssa_reg(&mut s, *src);
            push_str(&mut s, " }");
        },
        SsaTerminator::MatchEntropy { target, valid_block, decayed_block, pending_block, consumed_block } => {
            push_str(&mut s, "MatchEntropy { target: ");
            push_ssa_reg_debug(&mut s, *target);
            push_str(&mut s, ", valid_block: ");
            push_opt_block(&mut s, *valid_block);
            push_str(&mut s, ", decayed_block: ");
            push_opt_block(&mut s, *decayed_block);
            push_str(&mut s, ", pending_block: ");
            push_opt_block(&mut s, *pending_block);
            push_str(&mut s, ", consumed_block: ");
            push_opt_block(&mut s, *consumed_block);
            push_str(&mut s, " }");
        },
        SsaTerminator::Select { max_ms, cases, timeout_block } => {
            push_str(&mut s, "Select { max_ms: ");
            push_decimal(&mut s, *max_ms);
            push_str(&mut s, ", cases: ");
            push_ssa_cases(&mut s, cases);
            push_str(&mut s, ", timeout_block: ");
            push_opt_block(&mut s, *timeout_block);
            push_str(&mut s, " }");
        },
        SsaTerminator::Unreachable => {
            push_str(&mut s, "Unreachable");
        },
    }
    assert(s@ =~= ssa_terminator_debug(*t));
    s
}

/// The text that the derived `Debug` of an instruction writes.
#[verifier::opaque]
pub open spec fn instruction_debug(i: Instruction) -> Seq<char> {
    match i {
        Instruction::BinaryOp { dest: f_dest, op: f_op, left: f_left, right: f_right } => "BinaryOp { dest: "@ + flat_reg_debug(f_dest) + ", op: "@ + binop_name(f_op) + ", left: "@ + flat_reg_debug(f_left) + ", right: "@ + flat_reg_debug(f_right) + " }"@,
        Instruction::UnaryOp { dest: f_dest, op: f_op, src: f_src } => "UnaryOp { dest: "@ + flat_reg_debug(f_dest) + ", op: "@ + unop_name(f_op) + ", src: "@ + flat_reg_debug(f_src) + " }"@,
        Instruction::LoadInt { dest: f_dest, value: f_value } => "LoadInt { dest: "@ + flat_reg_debug(f_dest) + ", value: "@ + int_text(f_value as int) + " }"@,
        Instruction::LoadFloat { dest: f_dest, value: f_value } => "LoadFloat { dest: "@ + flat_reg_debug(f_dest) + ", value: "@ + dec_text(f_value as nat) + " }"@,
        Instruction::LoadBool { dest: f_dest, value: f_value } => "LoadBool { dest: "@ + flat_reg_debug(f_dest) + ", value: "@ + bool_text(f_value) + " }"@,
        Instruction::LoadString { dest: f_dest, value: f_value } => "LoadString { dest: "@ + flat_reg_debug(f_dest) + ", value: "@ + str_debug(f_value@) + " }"@,
        Instruction::LoadNull { dest: f_dest } => "LoadNull { dest: "@ + flat_reg_debug(f_dest) + " }"@,
        Instruction::ConstInt { dest: f_dest, value: f_value } => "ConstInt { dest: "@ + flat_reg_debug(f_dest) + ", value: "@ + int_text(f_value as int) + " }"@,
        Instruction::ConstFloat { dest: f_dest, value: f_value } => "ConstFloat { dest: "@ + flat_reg_debug(f_dest) + ", value: "@ + dec_text(f_value as nat) + " }"@,
        Instruction::ConstBool { dest: f_dest, value: f_value } => "ConstBool { dest: "@ + flat_reg_debug(f_dest) + ", value: "@ + bool_text(f_value) + " }"@,
        Instruction::ConstString { dest: f_dest, value: f_value } => "ConstString { dest: "@ + flat_reg_debug(f_dest) + ", value: "@ + str_debug(f_value@) + " }"@,
        Instruction::ConstNull { dest: f_dest } => "ConstNull { dest: "@ + flat_reg_debug(f_dest) + " }"@,
        Instruction::Move { dest: f_dest, src: f_src } => "Move { dest: "@ + flat_reg_debug(f_dest) + ", src: "@ + flat_reg_debug(f_src) + " }"@,
        Instruction::TupleLit { dest: f_dest, elems: f_elems } => "TupleLit { dest: "@ + flat_reg_debug(f_dest) + ", elems: "@ + flat_regs_debug(f_elems@) + " }"@,
        Instruction::TupleAccess { dest: f_dest, tuple: f_tuple, index: f_index } => "TupleAccess { dest: "@ + flat_reg_debug(f_dest) + ", tuple: "@ + flat_reg_debug(f_tuple) + ", index: "@ + dec_text(f_index as nat) + " }"@,
        Instruction::Consume { src: f_src } => "Consume { src: "@ + flat_reg_debug(f_src) + " }"@,
        Instruction::ConsumeField { src: f_src, field: f_field } => "ConsumeField { src: "@ + flat_reg_debug(f_src) + ", field: "@ + str_debug(f_field@) + " }"@,
        Instruction::ConsumeFieldDynamic { target: f_target, index: f_index } => "ConsumeFieldDynamic { target: "@ + flat_reg_debug(f_target) + ", index: "@ + flat_reg_debug(f_index) + " }"@,
        Instruction::Clone { dest: f_dest, src: f_src } => "Clone { dest: "@ + flat_reg_debug(f_dest) + ", src: "@ + flat_reg_debug(f_src) + " }"@,
        Instruction::StrBytes { dest: f_dest, src: f_src } => "StrBytes { dest: "@ + flat_reg_debug(f_dest) + ", src: "@ + flat_reg_debug(f_src) + " }"@,
        Instruction::ToStr { dest: f_dest, src: f_src } => "ToStr { dest: "@ + flat_reg_debug(f_dest) + ", src: "@ + flat_reg_debug(f_src) + " }"@,
        Instruction::ConditionalSelect { dest: f_dest, cond: f_cond, true_val: f_true_val, false_val: f_false_val } => "ConditionalSelect { dest: "@ + flat_reg_debug(f_dest) + ", cond: "@ + flat_reg_debug(f_cond) + ", true_val: "@ + flat_reg_debug(f_true_val) + ", false_val: "@ + flat_reg_debug(f_false_val) + " }"@,
        Instruction::Jump { target: f_target } => "Jump { target: "@ + dec_text(f_target as nat) + " }"@,
        Instruction::JumpIf { cond: f_cond, target: f_target } => "JumpIf { cond: "@ + flat_reg_debug(f_cond) + ", target: "@ + dec_text(f_target as nat) + " }"@,
        Instruction::JumpIfNot { cond: f_cond, target: f_target } => "JumpIfNot { cond: "@ + flat_reg_debug(f_cond) + ", target: "@ + dec_text(f_target as nat) + " }"@,
        Instruction::Call { routine: f_routine, args: f_args, dest: f_dest } => "Call { routine: "@ + str_debug(f_routine@) + ", args: "@ + flat_regs_debug(f_args@) + ", dest: "@ + flat_reg_debug(f_dest) + " }"@,
        Instruction::DynamicCall { method: f_method, args: f_args, dest: f_dest, budget: f_budget } => "DynamicCall { method: "@ + str_debug(f_method@) + ", args: "@ + flat_regs_debug(f_args@) + ", dest: "@ + flat_reg_debug(f_dest) + ", budget: "@ + opt_u64_debug(f_budget) + " }"@,
        Instruction::Return { src: f_src } => "Return { src: "@ + opt_flat_reg_debug(f_src) + " }"@,
        Instruction::Isolate { name: f_name, manifest: f_manifest } => "Isolate { name: "@ + str_debug(f_name@) + ", manifest: "@ + text_debug("Manifest"@, f_manifest.text@) + " }"@,
        Instruction::EndIsolate => "EndIsolate"@,
        Instruction::Lease { target_reg: f_target_reg, source_reg: f_source_reg, duration_ms: f_duration_ms } => "Lease { target_reg: "@ + flat_reg_debug(f_target_reg) + ", source_reg: "@ + flat_reg_debug(f_source_reg) + ", duration_ms: "@ + dec_text(f_duration_ms as nat) + " }"@,
        Instruction::EndLease { source_reg: f_source_reg, duration_ms: f_duration_ms } => "EndLease { source_reg: "@ + flat_reg_debug(f_source_reg) + ", duration_ms: "@ + dec_text(f_duration_ms as nat) + " }"@,
        Instruction::Split { parent: f_parent, branches: f_branches } => "Split { parent: "@ + str_debug(f_parent@) + ", branches: "@ + strs_debug(f_branches@) + " }"@,
        Instruction::Merge { branches: f_branches, target: f_target, resolution: f_resolution } => "Merge { branches: "@ + strs_debug(f_branches@) + ", target: "@ + str_debug(f_target@) + ", resolution: "@ + text_debug("MergeResolution"@, f_resolution.text@) + " }"@,
        Instruction::Entangle { regs: f_regs } => "Entangle { regs: "@ + flat_regs_debug(f_regs@) + " }"@,
        Instruction::SetEntropyMode { mode: f_mode } => "SetEntropyMode { mode: "@ + entropy_mode_name(f_mode) + " }"@,
        Instruction::Anchor { name: f_name } => "Anchor { name: "@ + str_debug(f_name@) + " }"@,
        Instruction::Rewind { target: f_target, anchor: f_anchor } => "Rewind { target: "@ + str_debug(f_target@) + ", anchor: "@ + str_debug(f_anchor@) + " }"@,
        Instruction::Commit { vars: f_vars } => "Commit { vars: "@ + strs_debug(f_vars@) + " }"@,
        Instruction::Watchdog { target: f_target, timeout_ms: f_timeout_ms, recovery_jump: f_recovery_jump } => "Watchdog { target: "@ + str_debug(f_target@) + ", timeout_ms: "@ + dec_text(f_timeout_ms as nat) + ", recovery_jump: "@ + opt_usize_debug(f_recovery_jump) + " }"@,
        Instruction::Speculate { max_ms: f_max_ms, fallback_target: f_fallback_target } => "Speculate { max_ms: "@ + dec_text(f_max_ms as nat) + ", fallback_target: "@ + dec_text(f_fallback_target as nat) + " }"@,
        Instruction::EndSpeculate { max_ms: f_max_ms, fallback_target: f_fallback_target } => "EndSpeculate { max_ms: "@ + dec_text(f_max_ms as nat) + ", fallback_target: "@ + dec_text(f_fallback_target as nat) + " }"@,
        Instruction::Collapse => "Collapse"@,
        Instruction::Select { max_ms: f_max_ms, cases: f_cases, timeout_target: f_timeout_target } => "Select { max_ms: "@ + dec_text(f_max_ms as nat) + ", cases: "@ + ir_cases_debug(f_cases@) + ", timeout_target: "@ + opt_usize_debug(f_timeout_target) + " }"@,
        Instruction::MatchEntropy { target: f_target, valid_target: f_valid_target, decayed_target: f_decayed_target, pending_target: f_pending_target, consumed_target: f_consumed_target } => "MatchEntropy { target: "@ + flat_reg_debug(f_target) + ", valid_target: "@ + opt_usize_debug(f_valid_target) + ", decayed_target: "@ + opt_usize_debug(f_decayed_target) + ", pending_target: "@ + opt_usize_debug(f_pending_target) + ", consumed_target: "@ + opt_usize_debug(f_consumed_target) + " }"@,
        Instruction::RelativisticBlock { target: f_target, block_pc: f_block_pc, block_len: f_block_len } => "RelativisticBlock { target: "@ + str_debug(f_target@) + ", block_pc: "@ + dec_text(f_block_pc as nat) + ", block_len: "@ + dec_text(f_block_len as nat) + " }"@,
        Instruction::PeriodicEpoch { interval_ms: f_interval_ms, block_pc: f_block_pc, block_len: f_block_len } => "PeriodicEpoch { interval_ms: "@ + dec_text(f_interval_ms as nat) + ", block_pc: "@ + dec_text(f_block_pc as nat) + ", block_len: "@ + dec_text(f_block_len as nat) + " }"@,
        Instruction::EndPeriodicEpoch { interval_ms: f_interval_ms } => "EndPeriodicEpoch { interval_ms: "@ + dec_text(f_interval_ms as nat) + " }"@,
        Instruction::FreezeBaseWatermark => "FreezeBaseWatermark"@,
        Instruction::ResetBaseWatermark => "ResetBaseWatermark"@,
        Instruction::SetSaturationPolicy { target: f_target, policy: f_policy } => "SetSaturationPolicy { target: "@ + text_debug("PolicyTarget"@, f_target.text@) + ", policy: "@ + text_debug("SaturationPolicy"@, f_policy.text@) + " }"@,
        Instruction::ArenaIntrospect { dest: f_dest, kind: f_kind } => "ArenaIntrospect { dest: "@ + flat_reg_debug(f_dest) + ", kind: "@ + text_debug("ArenaIntrospect"@, f_kind.text@) + " }"@,
        Instruction::CapabilityCheck { dest: f_dest, capability: f_capability } => "CapabilityCheck { dest: "@ + flat_reg_debug(f_dest) + ", capability: "@ + text_debug("Capability"@, f_capability.text@) + " }"@,
        Instruction::SpeculationMode { mode: f_mode } => "SpeculationMode { mode: "@ + commit_mode_name(f_mode) + " }"@,
        Instruction::OpenChan { name: f_name, capacity: f_capacity, decay_after_ms: f_decay_after_ms } => "OpenChan { name: "@ + str_debug(f_name@) + ", capacity: "@ + dec_text(f_capacity as nat) + ", decay_after_ms: "@ + opt_u64_debug(f_decay_after_ms) + " }"@,
        Instruction::ChanSend { chan_id: f_chan_id, src: f_src } => "ChanSend { chan_id: "@ + str_debug(f_chan_id@) + ", src: "@ + flat_reg_debug(f_src) + " }"@,
        Instruction::ChanRecv { dest: f_dest, chan_id: f_chan_id } => "ChanRecv { dest: "@ + flat_reg_debug(f_dest) + ", chan_id: "@ + str_debug(f_chan_id@) + " }"@,
        Instruction::AwaitChan { chan_id: f_chan_id } => "AwaitChan { chan_id: "@ + str_debug(f_chan_id@) + " }"@,
        Instruction::StructLit { dest: f_dest, fields: f_fields, type_label: f_type_label } => "StructLit { dest: "@ + flat_reg_debug(f_dest) + ", fields: "@ + field_regs_debug(f_fields@) + ", type_label: "@ + opt_str_debug(f_type_label) + " }"@,
        Instruction::TopologyLit { dest: f_dest, fields: f_fields } => "TopologyLit { dest: "@ + flat_reg_debug(f_dest) + ", fields: "@ + field_regs_debug(f_fields@) + " }"@,
        Instruction::ArrayLit { dest: f_dest, elements: f_elements } => "ArrayLit { dest: "@ + flat_reg_debug(f_dest) + ", elements: "@ + flat_regs_debug(f_elements@) + " }"@,
        Instruction::ArrayRepeat { dest: f_dest, value: f_value, count: f_count } => "ArrayRepeat { dest: "@ + flat_reg_debug(f_dest) + ", value: "@ + flat_reg_debug(f_value) + ", count: "@ + flat_reg_debug(f_count) + " }"@,
        Instruction::ArraySlice { dest: f_dest, target: f_target, start: f_start, end: f_end, inclusive: f_inclusive } => "ArraySlice { dest: "@ + flat_reg_debug(f_dest) + ", target: "@ + flat_reg_debug(f_target) + ", start: "@ + opt_flat_reg_debug(f_start) + ", end: "@ + opt_flat_reg_debug(f_end) + ", inclusive: "@ + bool_text(f_inclusive) + " }"@,
        Instruction::FieldAccess { dest: f_dest, target: f_target, field: f_field } => "FieldAccess { dest: "@ + flat_reg_debug(f_dest) + ", target: "@ + flat_reg_debug(f_target) + ", field: "@ + str_debug(f_field@) + " }"@,
        Instruction::FieldUpdate { target: f_target, field: f_field, src: f_src } => "FieldUpdate { target: "@ + flat_reg_debug(f_target) + ", field: "@ + str_debug(f_field@) + ", src: "@ + flat_reg_debug(f_src) + " }"@,
        Instruction::Syscall { dest: f_dest, target: f_target, args: f_args, duration_ms: f_duration_ms } => "Syscall { dest: "@ + flat_reg_debug(f_dest) + ", target: "@ + text_debug("SyscallTarget"@, f_target.text@) + ", args: "@ + flat_regs_debug(f_args@) + ", duration_ms: "@ + opt_u64_debug(f_duration_ms) + " }"@,
        Instruction::AutoDrop { target: f_target, spec: f_spec } => "AutoDrop { target: "@ + flat_reg_debug(f_target) + ", spec: "@ + text_debug("AutoDropSpec"@, f_spec.text@) + " }"@,
        Instruction::IndexAccess { dest: f_dest, target: f_target, index: f_index } => "IndexAccess { dest: "@ + flat_reg_debug(f_dest) + ", target: "@ + flat_reg_debug(f_target) + ", index: "@ + flat_reg_debug(f_index) + " }"@,
        Instruction::IndexFieldUpdate { target: f_target, index: f_index, field: f_field, src: f_src } => "IndexFieldUpdate { target: "@ + flat_reg_debug(f_target) + ", index: "@ + flat_reg_debug(f_index) + ", field: "@ + str_debug(f_field@) + ", src: "@ + flat_reg_debug(f_src) + " }"@,
        Instruction::TypeAssert { dest: f_dest, src: f_src, type_label: f_type_label } => "TypeAssert { dest: "@ + flat_reg_debug(f_dest) + ", src: "@ + flat_reg_debug(f_src) + ", type_label: "@ + str_debug(f_type_label@) + " }"@,
        Instruction::TypeCast { dest: f_dest, src: f_src, target_type: f_target_type } => "TypeCast { dest: "@ + flat_reg_debug(f_dest) + ", src: "@ + flat_reg_debug(f_src) + ", target_type: "@ + text_debug("TypeName"@, f_target_type.text@) + " }"@,
        Instruction::AssertState { src: f_src, state: f_state } => "AssertState { src: "@ + flat_reg_debug(f_src) + ", state: "@ + str_debug(f_state@) + " }"@,
        Instruction::TryTypeAssert { dest: f_dest, src: f_src, type_label: f_type_label, success: f_success } => "TryTypeAssert { dest: "@ + flat_reg_debug(f_dest) + ", src: "@ + flat_reg_debug(f_src) + ", type_label: "@ + str_debug(f_type_label@) + ", success: "@ + flat_reg_debug(f_success) + " }"@,
        Instruction::TryEnumVariant { dest: f_dest, src: f_src, enum_name: f_enum_name, variant_name: f_variant_name, success: f_success } => "TryEnumVariant { dest: "@ + flat_reg_debug(f_dest) + ", src: "@ + flat_reg_debug(f_src) + ", enum_name: "@ + opt_str_debug(f_enum_name) + ", variant_name: "@ + str_debug(f_variant_name@) + ", success: "@ + flat_reg_debug(f_success) + " }"@,
        Instruction::Print { src: f_src } => "Print { src: "@ + flat_reg_debug(f_src) + " }"@,
        Instruction::Debug { src: f_src } => "Debug { src: "@ + flat_reg_debug(f_src) + " }"@,
        Instruction::AssertTime { op: f_op, limit_ms: f_limit_ms } => "AssertTime { op: "@ + binop_name(f_op) + ", limit_ms: "@ + dec_text(f_limit_ms as nat) + " }"@,
        Instruction::Slice { ms: f_ms } => "Slice { ms: "@ + dec_text(f_ms as nat) + " }"@,
        Instruction::Break => "Break"@,
        Instruction::LoopTick => "LoopTick"@,
        Instruction::EndLoopTick => "EndLoopTick"@,
        Instruction::Capability { cap: f_cap } => "Capability { cap: "@ + text_debug("Capability"@, f_cap.text@) + " }"@,
        Instruction::For { dest_cond: f_dest_cond, item_reg: f_item_reg, item_name: f_item_name, mode: f_mode, source: f_source, pacing_ms: f_pacing_ms, max_ms: f_max_ms } => "For { dest_cond: "@ + flat_reg_debug(f_dest_cond) + ", item_reg: "@ + flat_reg_debug(f_item_reg) + ", item_name: "@ + str_debug(f_item_name@) + ", mode: "@ + param_mode_name(f_mode) + ", source: "@ + flat_reg_debug(f_source) + ", pacing_ms: "@ + opt_u64_debug(f_pacing_ms) + ", max_ms: "@ + opt_u64_debug(f_max_ms) + " }"@,
        Instruction::EndFor => "EndFor"@,
        Instruction::SplitMap { item_reg: f_item_reg, item_name: f_item_name, mode: f_mode, source: f_source, reconcile: f_reconcile } => "SplitMap { item_reg: "@ + flat_reg_debug(f_item_reg) + ", item_name: "@ + str_debug(f_item_name@) + ", mode: "@ + param_mode_name(f_mode) + ", source: "@ + flat_reg_debug(f_source) + ", reconcile: "@ + opt_resolution_debug(f_reconcile) + " }"@,
        Instruction::EndSplitMap => "EndSplitMap"@,
        Instruction::Defer { dest: f_dest, cap: f_cap, deadline_ms: f_deadline_ms } => "Defer { dest: "@ + flat_reg_debug(f_dest) + ", cap: "@ + text_debug("Capability"@, f_cap.text@) + ", deadline_ms: "@ + dec_text(f_deadline_ms as nat) + " }"@,
        Instruction::Await { target: f_target } => "Await { target: "@ + flat_reg_debug(f_target) + " }"@,
        Instruction::Loop { max_ms: f_max_ms } => "Loop { max_ms: "@ + dec_text(f_max_ms as nat) + " }"@,
        Instruction::EndLoop { max_ms: f_max_ms } => "EndLoop { max_ms: "@ + dec_text(f_max_ms as nat) + " }"@,
        Instruction::LoopTickOn { chan_id: f_chan_id } => "LoopTickOn { chan_id: "@ + str_debug(f_chan_id@) + " }"@,
        Instruction::While { max_ms: f_max_ms } => "While { max_ms: "@ + dec_text(f_max_ms as nat) + " }"@,
        Instruction::EndWhile { max_ms: f_max_ms } => "EndWhile { max_ms: "@ + dec_text(f_max_ms as nat) + " }"@,
        Instruction::ForStep { dest_cond: f_dest_cond, item_reg: f_item_reg, item_name: f_item_name, source: f_source, step_ms: f_step_ms } => "ForStep { dest_cond: "@ + flat_reg_debug(f_dest_cond) + ", item_reg: "@ + flat_reg_debug(f_item_reg) + ", item_name: "@ + str_debug(f_item_name@) + ", source: "@ + flat_reg_debug(f_source) + ", step_ms: "@ + opt_u64_debug(f_step_ms) + " }"@,
        Instruction::EndForStep => "EndForStep"@,
        Instruction::ArrayLen { dest: f_dest, src: f_src } => "ArrayLen { dest: "@ + flat_reg_debug(f_dest) + ", src: "@ + flat_reg_debug(f_src) + " }"@,
    }
}

/// Which of the text builders below handles an instruction.
pub open spec fn instr_debug_group(i: Instruction) -> int {
    match i {
        Instruction::BinaryOp { .. } => 0,
        Instruction::UnaryOp { .. } => 0,
        Instruction::LoadInt { .. } => 0,
        Instruction::LoadFloat { .. } => 0,
        Instruction::LoadBool { .. } => 1,
        Instruction::LoadString { .. } => 1,
        Instruction::LoadNull { .. } => 1,
        Instruction::ConstInt { .. } => 1,
        Instruction::ConstFloat { .. } => 2,
        Instruction::ConstBool { .. } => 2,
        Instruction::ConstString { .. } => 2,
        Instruction::ConstNull { .. } => 2,
        Instruction::Move { .. } => 3,
        Instruction::TupleLit { .. } => 3,
        Instruction::TupleAccess { .. } => 3,
        Instruction::Consume { .. } => 3,
        Instruction::ConsumeField { .. } => 4,
        Instruction::ConsumeFieldDynamic { .. } => 4,
        Instruction::Clone { .. } => 4,
        Instruction::StrBytes { .. } => 4,
        Instruction::ToStr { .. } => 5,
        Instruction::ConditionalSelect { .. } => 5,
        Instruction::Jump { .. } => 5,
        Instruction::JumpIf { .. } => 5,
        Instruction::JumpIfNot { .. } => 6,
        Instruction::Call { .. } => 6,
        Instruction::DynamicCall { .. } => 6,
        Instruction::Return { .. } => 6,
        Instruction::Isolate { .. } => 7,
        Instruction::EndIsolate => 7,
        Instruction::Lease { .. } => 7,
        Instruction::EndLease { .. } => 7,
        Instruction::Split { .. } => 8,
        Instruction::Merge { .. } => 8,
        Instruction::Entangle { .. } => 8,
        Instruction::SetEntropyMode { .. } => 8,
        Instruction::Anchor { .. } => 9,
        Instruction::Rewind { .. } => 9,
        Instruction::Commit { .. } => 9,
        Instruction::Watchdog { .. } => 9,
        Instruction::Speculate { .. } => 10,
        Instruction::EndSpeculate { .. } => 10,
        Instruction::Collapse => 10,
        Instruction::Select { .. } => 10,
        Instruction::MatchEntropy { .. } => 11,
        Instruction::RelativisticBlock { .. } => 11,
        Instruction::PeriodicEpoch { .. } => 11,
        Instruction::EndPeriodicEpoch { .. } => 11,
        Instruction::FreezeBaseWatermark => 12,
        Instruction::ResetBaseWatermark => 12,
        Instruction::SetSaturationPolicy { .. } => 12,
        Instruction::ArenaIntrospect { .. } => 12,
        Instruction::CapabilityCheck { .. } => 13,
        Instruction::SpeculationMode { .. } => 13,
        Instruction::OpenChan { .. } => 13,
        Instruction::ChanSend { .. } => 13,
        Instruction::ChanRecv { .. } => 14,
        Instruction::AwaitChan { .. } => 14,
        Instruction::StructLit { .. } => 14,
        Instruction::TopologyLit { .. } => 14,
        Instruction::ArrayLit { .. } => 15,
        Instruction::ArrayRepeat { .. } => 15,
        Instruction::ArraySlice { .. } => 15,
        Instruction::FieldAccess { .. } => 15,
        Instruction::FieldUpdate { .. } => 16,
        Instruction::Syscall { .. } => 16,
        Instruction::AutoDrop { .. } => 16,
        Instruction::IndexAccess { .. } => 16,
        Instruction::IndexFieldUpdate { .. } => 17,
        Instruction::TypeAssert { .. } => 17,
        Instruction::TypeCast { .. } => 17,
        Instruction::AssertState { .. } => 17,
        Instruction::TryTypeAssert { .. } => 18,
        Instruction::TryEnumVariant { .. } => 18,
        Instruction::Print { .. } => 18,
        Instruction::Debug { .. } => 18,
        Instruction::AssertTime { .. } => 19,
        Instruction::Slice { .. } => 19,
        Instruction::Break => 19,
        Instruction::LoopTick => 19,
        Instruction::EndLoopTick => 20,
        Instruction::Capability { .. } => 20,
        Instruction::For { .. } => 20,
        Instruction::EndFor => 20,
        Instruction::SplitMap { .. } => 21,
        Instruction::EndSplitMap => 21,
        Instruction::Defer { .. } => 21,
        Instruction::Await { .. } => 21,
        Instruction::Loop { .. } => 22,
        Instruction::EndLoop { .. } => 22,
        Instruction::LoopTickOn { .. } => 22,
        Instruction::While { .. } => 22,
        Instruction::EndWhile { .. } => 23,
        Instruction::ForStep { .. } => 23,
        Instruction::EndForStep => 23,
        Instruction::ArrayLen { .. } => 23,
    }
}

fn instr_debug_group_of(i: &Instruction) -> (g: u8)
    ensures
        g == instr_debug_group(*i),
{
    match i {
        Instruction::BinaryOp { .. } => 0,
        Instruction::UnaryOp { .. } => 0,
        Instruction::LoadInt { .. } => 0,
        Instruction::LoadFloat { .. } => 0,
        Instruction::LoadBool { .. } => 1,
        Instruction::LoadString { .. } => 1,
        Instruction::LoadNull { .. } => 1,
        Instruction::ConstInt { .. } => 1,
        Instruction::ConstFloat { .. } => 2,
        Instruction::ConstBool { .. } => 2,
        Instruction::ConstString { .. } => 2,
        Instruction::ConstNull { .. } => 2,
        Instruction::Move { .. } => 3,
        Instruction::TupleLit { .. } => 3,
        Instruction::TupleAccess { .. } => 3,
        Instruction::Consume { .. } => 3,
        Instruction::ConsumeField { .. } => 4,
        Instruction::ConsumeFieldDynamic { .. } => 4,
        Instruction::Clone { .. } => 4,
        Instruction::StrBytes { .. } => 4,
        Instruction::ToStr { .. } => 5,
        Instruction::ConditionalSelect { .. } => 5,
        Instruction::Jump { .. } => 5,
        Instruction::JumpIf { .. } => 5,
        Instruction::JumpIfNot { .. } => 6,
        Instruction::Call { .. } => 6,
        Instruction::DynamicCall { .. } => 6,
        Instruction::Return { .. } => 6,
        Instruction::Isolate { .. } => 7,
        Instruction::EndIsolate => 7,
        Instruction::Lease { .. } => 7,
        Instruction::EndLease { .. } => 7,
        Instruction::Split { .. } => 8,
        Instruction::Merge { .. } => 8,
        Instruction::Entangle { .. } => 8,
        Instruction::SetEntropyMode { .. } => 8,
        Instruction::Anchor { .. } => 9,
        Instruction::Rewind { .. } => 9,
        Instruction::Commit { .. } => 9,
        Instruction::Watchdog { .. } => 9,
        Instruction::Speculate { .. } => 10,
        Instruction::EndSpeculate { .. } => 10,
        Instruction::Collapse => 10,
        Instruction::Select { .. } => 10,
        Instruction::MatchEntropy { .. } => 11,
        Instruction::RelativisticBlock { .. } => 11,
        Instruction::PeriodicEpoch { .. } => 11,
        Instruction::EndPeriodicEpoch { .. } => 11,
        Instruction::FreezeBaseWatermark => 12,
        Instruction::ResetBaseWatermark => 12,
        Instruction::SetSaturationPolicy { .. } => 12,
        Instruction::ArenaIntrospect { .. } => 12,
        Instruction::CapabilityCheck { .. } => 13,
        Instruction::SpeculationMode { .. } => 13,
        Instruction::OpenChan { .. } => 13,
        Instruction::ChanSend { .. } => 13,
        Instruction::ChanRecv { .. } => 14,
        Instruction::AwaitChan { .. } => 14,
        Instruction::StructLit { .. } => 14,
        Instruction::TopologyLit { .. } => 14,
        Instruction::ArrayLit { .. } => 15,
        Instruction::ArrayRepeat { .. } => 15,
        Instruction::ArraySlice { .. } => 15,
        Instruction::FieldAccess { .. } => 15,
        Instruction::FieldUpdate { .. } => 16,
        Instruction::Syscall { .. } => 16,
        Instruction::AutoDrop { .. } => 16,
        Instruction::IndexAccess { .. } => 16,
        Instruction::IndexFieldUpdate { .. } => 17,
        Instruction::TypeAssert { .. } => 17,
        Instruction::TypeCast { .. } => 17,
        Instruction::AssertState { .. } => 17,
        Instruction::TryTypeAssert { .. } => 18,
        Instruction::TryEnumVariant { .. } => 18,
        Instruction::Print { .. } => 18,
        Instruction::Debug { .. } => 18,
        Instruction::AssertTime { .. } => 19,
        Instruction::Slice { .. } => 19,
        Instruction::Break => 19,
        Instruction::LoopTick => 19,
        Instruction::EndLoopTick => 20,
        Instruction::Capability { .. } => 20,
        Instruction::For { .. } => 20,
        Instruction::EndFor => 20,
        Instruction::SplitMap { .. } => 21,
        Instruction::EndSplitMap => 21,
        Instruction::Defer { .. } => 21,
        Instruction::Await { .. } => 21,
        Instruction::Loop { .. } => 22,
        Instruction::EndLoop { .. } => 22,
        Instruction::LoopTickOn { .. } => 22,
        Instruction::While { .. } => 22,
        Instruction::EndWhile { .. } => 23,
        Instruction::ForStep { .. } => 23,
        Instruction::EndForStep => 23,
        Instruction::ArrayLen { .. } => 23,
    }
}

#[verifier::rlimit(40)]
fn push_instr_debug_0(s: &mut String, i: &Instruction)
    requires
        instr_debug_group(*i) == 0,
    ensures
        final(s)@ == old(s)@ + instruction_debug(*i),
{
    reveal(instruction_debug);
    match i {
        Instruction::BinaryOp { dest: f_dest, op: f_op, left: f_left, right: f_right } => {
            push_str(s, "BinaryOp { dest: ");
            push_flat_reg(s, *f_dest);
            push_str(s, ", op: ");
            push_str(s, binop_str(*f_op));
            push_str(s, ", left: ");
            push_flat_reg(s, *f_left);
            push_str(s, ", right: ");
            push_flat_reg(s, *f_right);
            push_str(s, " }");
            assert(s@ =~= old(s)@ + instruction_debug(*i));
        },
        Instruction::UnaryOp { dest: f_dest, op: f_op, src: f_src } => {
            push_str(s, "UnaryOp { dest: ");
            push_flat_reg(s, *f_dest);
            push_str(s, ", op: ");
            push_str(s, unop_str(*f_op));
            push_str(s, ", src: ");
            push_flat_reg(s, *f_src);
            push_str(s, " }");
            assert(s@ =~= old(s)@ + instruction_debug(*i));
        },
        Instruction::LoadInt { dest: f_dest, value: f_value } => {
            push_str(s, "LoadInt { dest: ");
            push_flat_reg(s, *f_dest);
            push_str(s, ", value: ");
            push_int(s, *f_value);
            push_str(s, " }");
            assert(s@ =~= old(s)@ + instruction_debug(*i));
        },
        Instruction::LoadFloat { dest: f_dest, value: f_value } => {
            push_str(s, "LoadFloat { dest: ");
            push_flat_reg(s, *f_dest);
            push_str(s, ", value: ");
            push_decimal(s, *f_value);
            push_str(s, " }");
            assert(s@ =~= old(s)@ + instruction_debug(*i));
        },
        _ => {},
    }
}

#[verifier::rlimit(40)]
fn push_instr_debug_1(s: &mut String, i: &Instruction)
    requires
        instr_debug_group(*i) == 1,
    ensures
        final(s)@ == old(s)@ + instruction_debug(*i),
{
    reveal(instruction_debug);
    match i {
        Instruction::LoadBool { dest: f_dest, value: f_value } => {
            push_str(s, "LoadBool { dest: ");
            push_flat_reg(s, *f_dest);
            push_str(s, ", value: ");
            push_str(s, bool_str(*f_value));
            push_str(s, " }");
            assert(s@ =~= old(s)@ + instruction_debug(*i));
        },
        Instruction::LoadString { dest: f_dest, value: f_value } => {
            push_str(s, "LoadString { dest: ");
            push_flat_reg(s, *f_dest);
            push_str(s, ", value: ");
            push_str_debug(s, f_value.as_str());
            push_str(s, " }");
            assert(s@ =~= old(s)@ + instruction_debug(*i));
        },
        Instruction::LoadNull { dest: f_dest } => {
            push_str(s, "LoadNull { dest: ");
            push_flat_reg(s, *f_dest);
            push_str(s, " }");
            assert(s@ =~= old(s)@ + instruction_debug(*i));
        },
        Instruction::ConstInt { dest: f_dest, value: f_value } => {
            push_str(s, "ConstInt { dest: ");
            push_flat_reg(s, *f_dest);
            push_str(s, ", value: ");
            push_int(s, *f_value);
            push_str(s, " }");
            assert(s@ =~= old(s)@ + instruction_debug(*i));
        },
        _ => {},
    }
}

#[verifier::rlimit(40)]
fn push_instr_debug_2(s: &mut String, i: &Instruction)
    requires
        instr_debug_group(*i) == 2,
    ensures
        final(s)@ == old(s)@ + instruction_debug(*i),
{
    reveal(instruction_debug);
    match i {
        Instruction::ConstFloat { dest: f_dest, value: f_value } => {
            push_str(s, "ConstFloat { dest: ");
            push_flat_reg(s, *f_dest);
            push_str(s, ", value: ");
            push_decimal(s, *f_value);
            push_str(s, " }");
            assert(s@ =~= old(s)@ + instruction_debug(*i));
        },
        Instruction::ConstBool { dest: f_dest, value: f_value } => {
            push_str(s, "ConstBool { dest: ");
            push_flat_reg(s, *f_dest);
            push_str(s, ", value: ");
            push_str(s, bool_str(*f_value));
            push_str(s, " }");
            assert(s@ =~= old(s)@ + instruction_debug(*i));
        },
        Instruction::ConstString { dest: f_dest, value: f_value } => {
            push_str(s, "ConstString { dest: ");
            push_flat_reg(s, *f_dest);
            push_str(s, ", value: ");
            push_str_debug(s, f_value.as_str());
            push_str(s, " }");
            assert(s@ =~= old(s)@ + instruction_debug(*i));
        },
        Instruction::ConstNull { dest: f_dest } => {
            push_str(s, "ConstNull { dest: ");
            push_flat_reg(s, *f_dest);
            push_str(s, " }");
            assert(s@ =~= old(s)@ + instruction_debug(*i));
        },
        _ => {},
    }
}

#[verifier::rlimit(40)]
fn push_instr_debug_3(s: &mut String, i: &Instruction)
    requires
        instr_debug_group(*i) == 3,
    ensures
        final(s)@ == old(s)@ + instruction_debug(*i),
{
    reveal(instruction_debug);
    match i {
        Instruction::Move { dest: f_dest, src: f_src } => {
            push_str(s, "Move { dest: ");
            push_flat_reg(s, *f_dest);
            push_str(s, ", src: ");
            push_flat_reg(s, *f_src);
            push_str(s, " }");
            assert(s@ =~= old(s)@ + instruction_debug(*i));
        },
        Instruction::TupleLit { dest: f_dest, elems: f_elems } => {
            push_str(s, "TupleLit { dest: ");
            push_flat_reg(s, *f_dest);
            push_str(s, ", elems: ");
            push_flat_regs(s, f_elems);
            push_str(s, " }");
            assert(s@ =~= old(s)@ + instruction_debug(*i));
        },
        Instruction::TupleAccess { dest: f_dest, tuple: f_tuple, index: f_index } => {
            push_str(s, "TupleAccess { dest: ");
            push_flat_reg(s, *f_dest);
            push_str(s, ", tuple: ");
            push_flat_reg(s, *f_tuple);
            push_str(s, ", index: ");
            push_decimal(s, *f_index as u64);
            push_str(s, " }");
            assert(s@ =~= old(s)@ + instruction_debug(*i));
        },
        Instruction::Consume { src: f_src } => {
            push_str(s, "Consume { src: ");
            push_flat_reg(s, *f_src);
            push_str(s, " }");
            assert(s@ =~= old(s)@ + instruction_debug(*i));
        },
        _ => {},
    }
}

#[verifier::rlimit(40)]
fn push_instr_debug_4(s: &mut String, i: &Instruction)
    requires
        instr_debug_group(*i) == 4,
    ensures
        final(s)@ == old(s)@ + instruction_debug(*i),
{
    reveal(instruction_debug);
    match i {
        Instruction::ConsumeField { src: f_src, field: f_field } => {
            push_str(s, "ConsumeField { src: ");
            push_flat_reg(s, *f_src);
            push_str(s, ", field: ");
            push_str_debug(s, f_field.as_str());
            push_str(s, " }");
            assert(s@ =~= old(s)@ + instruction_debug(*i));
        },
        Instruction::ConsumeFieldDynamic { target: f_target, index: f_index } => {
            push_str(s, "ConsumeFieldDynamic { target: ");
            push_flat_reg(s, *f_target);
            push_str(s, ", index: ");
            push_flat_reg(s, *f_index);
            push_str(s, " }");
            assert(s@ =~= old(s)@ + instruction_debug(*i));
        },
        Instruction::Clone { dest: f_dest, src: f_src } => {
            push_str(s, "Clone { dest: ");
            push_flat_reg(s, *f_dest);
            push_str(s, ", src: ");
            push_flat_reg(s, *f_src);
            push_str(s, " }");
            assert(s@ =~= old(s)@ + instruction_debug(*i));
        },
        Instruction::StrBytes { dest: f_dest, src: f_src } => {
            push_str(s, "StrBytes { dest: ");
            push_flat_reg(s, *f_dest);
            push_str(s, ", src: ");
            push_flat_reg(s, *f_src);
            push_str(s, " }");
            assert(s@ =~= old(s)@ + instruction_debug(*i));
        },
        _ => {},
    }
}

#[verifier::rlimit(40)]
fn push_instr_debug_5(s: &mut String, i: &Instruction)
    requires
        instr_debug_group(*i) == 5,
    ensures
        final(s)@ == old(s)@ + instruction_debug(*i),
{
    reveal(instruction_debug);
    match i {
        Instruction::ToStr { dest: f_dest, src: f_src } => {
            push_str(s, "ToStr { dest: ");
            push_flat_reg(s, *f_dest);
            push_str(s, ", src: ");
            push_flat_reg(s, *f_src);
            push_str(s, " }");
            assert(s@ =~= old(s)@ + instruction_debug(*i));
        },
        Instruction::ConditionalSelect { dest: f_dest, cond: f_cond, true_val: f_true_val, false_val: f_false_val } => {
            push_str(s, "ConditionalSelect { dest: ");
            push_flat_reg(s, *f_dest);
            push_str(s, ", cond: ");
            push_flat_reg(s, *f_cond);
            push_str(s, ", true_val: ");
            push_flat_reg(s, *f_true_val);
            push_str(s, ", false_val: ");
            push_flat_reg(s, *f_false_val);
            push_str(s, " }");
            assert(s@ =~= old(s)@ + instruction_debug(*i));
        },
        Instruction::Jump { target: f_target } => {
            push_str(s, "Jump { target: ");
            push_decimal(s, *f_target as u64);
            push_str(s, " }");
            assert(s@ =~= old(s)@ + instruction_debug(*i));
        },
        Instruction::JumpIf { cond: f_cond, target: f_target } => {
            push_str(s, "JumpIf { cond: ");
            push_flat_reg(s, *f_cond);
            push_str(s, ", target: ");
            push_decimal(s, *f_target as u64);
            push_str(s, " }");
            assert(s@ =~= old(s)@ + instruction_debug(*i));
        },
        _ => {},
    }
}

#[verifier::rlimit(40)]
fn push_instr_debug_6(s: &mut String, i: &Instruction)
    requires
        instr_debug_group(*i) == 6,
    ensures
        final(s)@ == old(s)@ + instruction_debug(*i),
{
    reveal(instruction_debug);
    match i {
        Instruction::JumpIfNot { cond: f_cond, target: f_target } => {
            push_str(s, "JumpIfNot { cond: ");
            push_flat_reg(s, *f_cond);
            push_str(s, ", target: ");
            push_decimal(s, *f_target as u64);
            push_str(s, " }");
            assert(s@ =~= old(s)@ + instruction_debug(*i));
        },
        Instruction::Call { routine: f_routine, args: f_args, dest: f_dest } => {
            push_str(s, "Call { routine: ");
            push_str_debug(s, f_routine.as_str());
            push_str(s, ", args: ");
            push_flat_regs(s, f_args);
            push_str(s, ", dest: ");
            push_flat_reg(s, *f_dest);
            push_str(s, " }");
            assert(s@ =~= old(s)@ + instruction_debug(*i));
        },
        Instruction::DynamicCall { method: f_method, args: f_args, dest: f_dest, budget: f_budget } => {
            push_str(s, "DynamicCall { method: ");
            push_str_debug(s, f_method.as_str());
            push_str(s, ", args: ");
            push_flat_regs(s, f_args);
            push_str(s, ", dest: ");
            push_flat_reg(s, *f_dest);
            push_str(s, ", budget: ");
            push_opt_u64(s, *f_budget);
            push_str(s, " }");
            assert(s@ =~= old(s)@ + instruction_debug(*i));
        },
        Instruction::Return { src: f_src } => {
            push_str(s, "Return { src: ");
            push_opt_flat_reg(s, *f_src);
            push_str(s, " }");
            assert(s@ =~= old(s)@ + instruction_debug(*i));
        },
        _ => {},
    }
}

#[verifier::rlimit(40)]
fn push_instr_debug_7(s: &mut String, i: &Instruction)
    requires
        instr_debug_group(*i) == 7,
    ensures
        final(s)@ == old(s)@ + instruction_debug(*i),
{
    reveal(instruction_debug);
    match i {
        Instruction::Isolate { name: f_name, manifest: f_manifest } => {
            push_str(s, "Isolate { name: ");
            push_str_debug(s, f_name.as_str());
            push_str(s, ", manifest: ");
            push_text_debug(s, "Manifest", f_manifest.text.as_str());
            push_str(s, " }");
            assert(s@ =~= old(s)@ + instruction_debug(*i));
        },
        Instruction::EndIsolate => {
            push_str(s, "EndIsolate");
            assert(s@ =~= old(s)@ + instruction_debug(*i));
        },
        Instruction::Lease { target_reg: f_target_reg, source_reg: f_source_reg, duration_ms: f_duration_ms } => {
            push_str(s, "Lease { target_reg: ");
            push_flat_reg(s, *f_target_reg);
            push_str(s, ", source_reg: ");
            push_flat_reg(s, *f_source_reg);
            push_str(s, ", duration_ms: ");
            push_decimal(s, *f_duration_ms);
            push_str(s, " }");
            assert(s@ =~= old(s)@ + instruction_debug(*i));
        },
        Instruction::EndLease { source_reg: f_source_reg, duration_ms: f_duration_ms } => {
            push_str(s, "EndLease { source_reg: ");
            push_flat_reg(s, *f_source_reg);
            push_str(s, ", duration_ms: ");
            push_decimal(s, *f_duration_ms);
            push_str(s, " }");
            assert(s@ =~= old(s)@ + instruction_debug(*i));
        },
        _ => {},
    }
}

#[verifier::rlimit(40)]
fn push_instr_debug_8(s: &mut String, i: &Instruction)
    requires
        instr_debug_group(*i) == 8,
    ensures
        final(s)@ == old(s)@ + instruction_debug(*i),
{
    reveal(instruction_debug);
    match i {
        Instruction::Split { parent: f_parent, branches: f_branches } => {
            push_str(s, "Split { parent: ");
            push_str_debug(s, f_parent.as_str());
            push_str(s, ", branches: ");
            push_strs_debug(s, f_branches);
            push_str(s, " }");
            assert(s@ =~= old(s)@ + instruction_debug(*i));
        },
        Instruction::Merge { branches: f_branches, target: f_target, resolution: f_resolution } => {
            push_str(s, "Merge { branches: ");
            push_strs_debug(s, f_branches);
            push_str(s, ", target: ");
            push_str_debug(s, f_target.as_str());
            push_str(s, ", resolution: ");
            push_text_debug(s, "MergeResolution", f_resolution.text.as_str());
            push_str(s, " }");
            assert(s@ =~= old(s)@ + instruction_debug(*i));
        },
        Instruction::Entangle { regs: f_regs } => {
            push_str(s, "Entangle { regs: ");
            push_flat_regs(s, f_regs);
            push_str(s, " }");
            assert(s@ =~= old(s)@ + instruction_debug(*i));
        },
        Instruction::SetEntropyMode { mode: f_mode } => {
            push_str(s, "SetEntropyMode { mode: ");
            push_str(s, entropy_mode_str(*f_mode));
            push_str(s, " }");
            assert(s@ =~= old(s)@ + instruction_debug(*i));
        },
        _ => {},
    }
}

#[verifier::rlimit(40)]
fn push_instr_debug_9(s: &mut String, i: &Instruction)
    requires
        instr_debug_group(*i) == 9,
    ensures
        final(s)@ == old(s)@ + instruction_debug(*i),
{
    reveal(instruction_debug);
    match i {
        Instruction::Anchor { name: f_name } => {
            push_str(s, "Anchor { name: ");
            push_str_debug(s, f_name.as_str());
            push_str(s, " }");
            assert(s@ =~= old(s)@ + instruction_debug(*i));
        },
        Instruction::Rewind { target: f_target, anchor: f_anchor } => {
            push_str(s, "Rewind { target: ");
            push_str_debug(s, f_target.as_str());
            push_str(s, ", anchor: ");
            push_str_debug(s, f_anchor.as_str());
            push_str(s, " }");
            assert(s@ =~= old(s)@ + instruction_debug(*i));
        },
        Instruction::Commit { vars: f_vars } => {
            push_str(s, "Commit { vars: ");
            push_strs_debug(s, f_vars);
            push_str(s, " }");
            assert(s@ =~= old(s)@ + instruction_debug(*i));
        },
        Instruction::Watchdog { target: f_target, timeout_ms: f_timeout_ms, recovery_jump: f_recovery_jump } => {
            push_str(s, "Watchdog { target: ");
            push_str_debug(s, f_target.as_str());
            push_str(s, ", timeout_ms: ");
            push_decimal(s, *f_timeout_ms);
            push_str(s, ", recovery_jump: ");
            push_opt_usize(s, *f_recovery_jump);
            push_str(s, " }");
            assert(s@ =~= old(s)@ + instruction_debug(*i));
        },
        _ => {},
    }
}

#[verifier::rlimit(40)]
fn push_instr_debug_10(s: &mut String, i: &Instruction)
    requires
        instr_debug_group(*i) == 10,
    ensures
        final(s)@ == old(s)@ + instruction_debug(*i),
{
    reveal(instruction_debug);
    match i {
        Instruction::Speculate { max_ms: f_max_ms, fallback_target: f_fallback_target } => {
            push_str(s, "Speculate { max_ms: ");
            push_decimal(s, *f_max_ms);
            push_str(s, ", fallback_target: ");
            push_decimal(s, *f_fallback_target as u64);
            push_str(s, " }");
            assert(s@ =~= old(s)@ + instruction_debug(*i));
        },
        Instruction::EndSpeculate { max_ms: f_max_ms, fallback_target: f_fallback_target } => {
            push_str(s, "EndSpeculate { max_ms: ");
            push_decimal(s, *f_max_ms);
            push_str(s, ", fallback_target: ");
            push_decimal(s, *f_fallback_target as u64);
            push_str(s, " }");
            assert(s@ =~= old(s)@ + instruction_debug(*i));
        },
        Instruction::Collapse => {
            push_str(s, "Collapse");
            assert(s@ =~= old(s)@ + instruction_debug(*i));
        },
        Instruction::Select { max_ms: f_max_ms, cases: f_cases, timeout_target: f_timeout_target } => {
            push_str(s, "Select { max_ms: ");
            push_decimal(s, *f_max_ms);
            push_str(s, ", cases: ");
            push_ir_cases(s, f_cases);
            push_str(s, ", timeout_target: ");
            push_opt_usize(s, *f_timeout_target);
            push_str(s, " }");
            assert(s@ =~= old(s)@ + instruction_debug(*i));
        },
        _ => {},
    }
}

#[verifier::rlimit(40)]
fn push_instr_debug_11(s: &mut String, i: &Instruction)
    requires
        instr_debug_group(*i) == 11,
    ensures
        final(s)@ == old(s)@ + instruction_debug(*i),
{
    reveal(instruction_debug);
    match i {
        Instruction::MatchEntropy { target: f_target, valid_target: f_valid_target, decayed_target: f_decayed_target, pending_target: f_pending_target, consumed_target: f_consumed_target } => {
            push_str(s, "MatchEntropy { target: ");
            push_flat_reg(s, *f_target);
            push_str(s, ", valid_target: ");
            push_opt_usize(s, *f_valid_target);
            push_str(s, ", decayed_target: ");
            push_opt_usize(s, *f_decayed_target);
            push_str(s, ", pending_target: ");
            push_opt_usize(s, *f_pending_target);
            push_str(s, ", consumed_target: ");
            push_opt_usize(s, *f_consumed_target);
            push_str(s, " }");
            assert(s@ =~= old(s)@ + instruction_debug(*i));
        },
        Instruction::RelativisticBlock { target: f_target, block_pc: f_block_pc, block_len: f_block_len } => {
            push_str(s, "RelativisticBlock { target: ");
            push_str_debug(s, f_target.as_str());
            push_str(s, ", block_pc: ");
            push_decimal(s, *f_block_pc as u64);
            push_str(s, ", block_len: ");
            push_decimal(s, *f_block_len as u64);
            push_str(s, " }");
            assert(s@ =~= old(s)@ + instruction_debug(*i));
        },
        Instruction::PeriodicEpoch { interval_ms: f_interval_ms, block_pc: f_block_pc, block_len: f_block_len } => {
            push_str(s, "PeriodicEpoch { interval_ms: ");
            push_decimal(s, *f_interval_ms);
            push_str(s, ", block_pc: ");
            push_decimal(s, *f_block_pc as u64);
            push_str(s, ", block_len: ");
            push_decimal(s, *f_block_len as u64);
            push_str(s, " }");
            assert(s@ =~= old(s)@ + instruction_debug(*i));
        },
        Instruction::EndPeriodicEpoch { interval_ms: f_interval_ms } => {
            push_str(s, "EndPeriodicEpoch { interval_ms: ");
            push_decimal(s, *f_interval_ms);
            push_str(s, " }");
            assert(s@ =~= old(s)@ + instruction_debug(*i));
        },
        _ => {},
    }
}

#[verifier::rlimit(40)]
fn push_instr_debug_12(s: &mut String, i: &Instruction)
    requires
        instr_debug_group(*i) == 12,
    ensures
        final(s)@ == old(s)@ + instruction_debug(*i),
{
    reveal(instruction_debug);
    match i {
        Instruction::FreezeBaseWatermark => {
            push_str(s, "FreezeBaseWatermark");
            assert(s@ =~= old(s)@ + instruction_debug(*i));
        },
        Instruction::ResetBaseWatermark => {
            push_str(s, "ResetBaseWatermark");
            assert(s@ =~= old(s)@ + instruction_debug(*i));
        },
        Instruction::SetSaturationPolicy { target: f_target, policy: f_policy } => {
            push_str(s, "SetSaturationPolicy { target: ");
            push_text_debug(s, "PolicyTarget", f_target.text.as_str());
            push_str(s, ", policy: ");
            push_text_debug(s, "SaturationPolicy", f_policy.text.as_str());
            push_str(s, " }");
            assert(s@ =~= old(s)@ + instruction_debug(*i));
        },
        Instruction::ArenaIntrospect { dest: f_dest, kind: f_kind } => {
            push_str(s, "ArenaIntrospect { dest: ");
            push_flat_reg(s, *f_dest);
            push_str(s, ", kind: ");
            push_text_debug(s, "ArenaIntrospect", f_kind.text.as_str());
            push_str(s, " }");
            assert(s@ =~= old(s)@ + instruction_debug(*i));
        },
        _ => {},
    }
}

#[verifier::rlimit(40)]
fn push_instr_debug_13(s: &mut String, i: &Instruction)
    requires
        instr_debug_group(*i) == 13,
    ensures
        final(s)@ == old(s)@ + instruction_debug(*i),
{
    reveal(instruction_debug);
    match i {
        Instruction::CapabilityCheck { dest: f_dest, capability: f_capability } => {
            push_str(s, "CapabilityCheck { dest: ");
            push_flat_reg(s, *f_dest);
            push_str(s, ", capability: ");
            push_text_debug(s, "Capability", f_capability.text.as_str());
            push_str(s, " }");
            assert(s@ =~= old(s)@ + instruction_debug(*i));
        },
        Instruction::SpeculationMode { mode: f_mode } => {
            push_str(s, "SpeculationMode { mode: ");
            push_str(s, commit_mode_str(*f_mode));
            push_str(s, " }");
            assert(s@ =~= old(s)@ + instruction_debug(*i));
        },
        Instruction::OpenChan { name: f_name, capacity: f_capacity, decay_after_ms: f_decay_after_ms } => {
            push_str(s, "OpenChan { name: ");
            push_str_debug(s, f_name.as_str());
            push_str(s, ", capacity: ");
            push_decimal(s, *f_capacity as u64);
            push_str(s, ", decay_after_ms: ");
            push_opt_u64(s, *f_decay_after_ms);
            push_str(s, " }");
            assert(s@ =~= old(s)@ + instruction_debug(*i));
        },
        Instruction::ChanSend { chan_id: f_chan_id, src: f_src } => {
            push_str(s, "ChanSend { chan_id: ");
            push_str_debug(s, f_chan_id.as_str());
            push_str(s, ", src: ");
            push_flat_reg(s, *f_src);
            push_str(s, " }");
            assert(s@ =~= old(s)@ + instruction_debug(*i));
        },
        _ => {},
    }
}

#[verifier::rlimit(40)]
fn push_instr_debug_14(s: &mut String, i: &Instruction)
    requires
        instr_debug_group(*i) == 14,
    ensures
        final(s)@ == old(s)@ + instruction_debug(*i),
{
    reveal(instruction_debug);
    match i {
        Instruction::ChanRecv { dest: f_dest, chan_id: f_chan_id } => {
            push_str(s, "ChanRecv { dest: ");
            push_flat_reg(s, *f_dest);
            push_str(s, ", chan_id: ");
            push_str_debug(s, f_chan_id.as_str());
            push_str(s, " }");
            assert(s@ =~= old(s)@ + instruction_debug(*i));
        },
        Instruction::AwaitChan { chan_id: f_chan_id } => {
            push_str(s, "AwaitChan { chan_id: ");
            push_str_debug(s, f_chan_id.as_str());
            push_str(s, " }");
            assert(s@ =~= old(s)@ + instruction_debug(*i));
        },
        Instruction::StructLit { dest: f_dest, fields: f_fields, type_label: f_type_label } => {
            push_str(s, "StructLit { dest: ");
            push_flat_reg(s, *f_dest);
            push_str(s, ", fields: ");
            push_field_regs(s, f_fields);
            push_str(s, ", type_label: ");
            push_opt_str(s, f_type_label);
            push_str(s, " }");
            assert(s@ =~= old(s)@ + instruction_debug(*i));
        },
        Instruction::TopologyLit { dest: f_dest, fields: f_fields } => {
            push_str(s, "TopologyLit { dest: ");
            push_flat_reg(s, *f_dest);
            push_str(s, ", fields: ");
            push_field_regs(s, f_fields);
            push_str(s, " }");
            assert(s@ =~= old(s)@ + instruction_debug(*i));
        },
        _ => {},
    }
}

#[verifier::rlimit(40)]
fn push_instr_debug_15(s: &mut String, i: &Instruction)
    requires
        instr_debug_group(*i) == 15,
    ensures
        final(s)@ == old(s)@ + instruction_debug(*i),
{
    reveal(instruction_debug);
    match i {
        Instruction::ArrayLit { dest: f_dest, elements: f_elements } => {
            push_str(s, "ArrayLit { dest: ");
            push_flat_reg(s, *f_dest);
            push_str(s, ", elements: ");
            push_flat_regs(s, f_elements);
            push_str(s, " }");
            assert(s@ =~= old(s)@ + instruction_debug(*i));
        },
        Instruction::ArrayRepeat { dest: f_dest, value: f_value, count: f_count } => {
            push_str(s, "ArrayRepeat { dest: ");
            push_flat_reg(s, *f_dest);
            push_str(s, ", value: ");
            push_flat_reg(s, *f_value);
            push_str(s, ", count: ");
            push_flat_reg(s, *f_count);
            push_str(s, " }");
            assert(s@ =~= old(s)@ + instruction_debug(*i));
        },
        Instruction::ArraySlice { dest: f_dest, target: f_target, start: f_start, end: f_end, inclusive: f_inclusive } => {
            push_str(s, "ArraySlice { dest: ");
            push_flat_reg(s, *f_dest);
            push_str(s, ", target: ");
            push_flat_reg(s, *f_target);
            push_str(s, ", start: ");
            push_opt_flat_reg(s, *f_start);
            push_str(s, ", end: ");
            push_opt_flat_reg(s, *f_end);
            push_str(s, ", inclusive: ");
            push_str(s, bool_str(*f_inclusive));
            push_str(s, " }");
            assert(s@ =~= old(s)@ + instruction_debug(*i));
        },
        Instruction::FieldAccess { dest: f_dest, target: f_target, field: f_field } => {
            push_str(s, "FieldAccess { dest: ");
            push_flat_reg(s, *f_dest);
            push_str(s, ", target: ");
            push_flat_reg(s, *f_target);
            push_str(s, ", field: ");
            push_str_debug(s, f_field.as_str());
            push_str(s, " }");
            assert(s@ =~= old(s)@ + instruction_debug(*i));
        },
        _ => {},
    }
}

#[verifier::rlimit(40)]
fn push_instr_debug_16(s: &mut String, i: &Instruction)
    requires
        instr_debug_group(*i) == 16,
    ensures
        final(s)@ == old(s)@ + instruction_debug(*i),
{
    reveal(instruction_debug);
    match i {
        Instruction::FieldUpdate { target: f_target, field: f_field, src: f_src } => {
            push_str(s, "FieldUpdate { target: ");
            push_flat_reg(s, *f_target);
            push_str(s, ", field: ");
            push_str_debug(s, f_field.as_str());
            push_str(s, ", src: ");
            push_flat_reg(s, *f_src);
            push_str(s, " }");
            assert(s@ =~= old(s)@ + instruction_debug(*i));
        },
        Instruction::Syscall { dest: f_dest, target: f_target, args: f_args, duration_ms: f_duration_ms } => {
            push_str(s, "Syscall { dest: ");
            push_flat_reg(s, *f_dest);
            push_str(s, ", target: ");
            push_text_debug(s, "SyscallTarget", f_target.text.as_str());
            push_str(s, ", args: ");
            push_flat_regs(s, f_args);
            push_str(s, ", duration_ms: ");
            push_opt_u64(s, *f_duration_ms);
            push_str(s, " }");
            assert(s@ =~= old(s)@ + instruction_debug(*i));
        },
        Instruction::AutoDrop { target: f_target, spec: f_spec } => {
            push_str(s, "AutoDrop { target: ");
            push_flat_reg(s, *f_target);
            push_str(s, ", spec: ");
            push_text_debug(s, "AutoDropSpec", f_spec.text.as_str());
            push_str(s, " }");
            assert(s@ =~= old(s)@ + instruction_debug(*i));
        },
        Instruction::IndexAccess { dest: f_dest, target: f_target, index: f_index } => {
            push_str(s, "IndexAccess { dest: ");
            push_flat_reg(s, *f_dest);
            push_str(s, ", target: ");
            push_flat_reg(s, *f_target);
            push_str(s, ", index: ");
            push_flat_reg(s, *f_index);
            push_str(s, " }");
            assert(s@ =~= old(s)@ + instruction_debug(*i));
        },
        _ => {},
    }
}

#[verifier::rlimit(40)]
fn push_instr_debug_17(s: &mut String, i: &Instruction)
    requires
        instr_debug_group(*i) == 17,
    ensures
        final(s)@ == old(s)@ + instruction_debug(*i),
{
    reveal(instruction_debug);
    match i {
        Instruction::IndexFieldUpdate { target: f_target, index: f_index, field: f_field, src: f_src } => {
            push_str(s, "IndexFieldUpdate { target: ");
            push_flat_reg(s, *f_target);
            push_str(s, ", index: ");
            push_flat_reg(s, *f_index);
            push_str(s, ", field: ");
            push_str_debug(s, f_field.as_str());
            push_str(s, ", src: ");
            push_flat_reg(s, *f_src);
            push_str(s, " }");
            assert(s@ =~= old(s)@ + instruction_debug(*i));
        },
        Instruction::TypeAssert { dest: f_dest, src: f_src, type_label: f_type_label } => {
            push_str(s, "TypeAssert { dest: ");
            push_flat_reg(s, *f_dest);
            push_str(s, ", src: ");
            push_flat_reg(s, *f_src);
            push_str(s, ", type_label: ");
            push_str_debug(s, f_type_label.as_str());
            push_str(s, " }");
            assert(s@ =~= old(s)@ + instruction_debug(*i));
        },
        Instruction::TypeCast { dest: f_dest, src: f_src, target_type: f_target_type } => {
            push_str(s, "TypeCast { dest: ");
            push_flat_reg(s, *f_dest);
            push_str(s, ", src: ");
            push_flat_reg(s, *f_src);
            push_str(s, ", target_type: ");
            push_text_debug(s, "TypeName", f_target_type.text.as_str());
            push_str(s, " }");
            assert(s@ =~= old(s)@ + instruction_debug(*i));
        },
        Instruction::AssertState { src: f_src, state: f_state } => {
            push_str(s, "AssertState { src: ");
            push_flat_reg(s, *f_src);
            push_str(s, ", state: ");
            push_str_debug(s, f_state.as_str());
            push_str(s, " }");
            assert(s@ =~= old(s)@ + instruction_debug(*i));
        },
        _ => {},
    }
}

#[verifier::rlimit(40)]
fn push_instr_debug_18(s: &mut String, i: &Instruction)
    requires
        instr_debug_group(*i) == 18,
    ensures
        final(s)@ == old(s)@ + instruction_debug(*i),
{
    reveal(instruction_debug);
    match i {
        Instruction::TryTypeAssert { dest: f_dest, src: f_src, type_label: f_type_label, success: f_success } => {
            push_str(s, "TryTypeAssert { dest: ");
            push_flat_reg(s, *f_dest);
            push_str(s, ", src: ");
            push_flat_reg(s, *f_src);
            push_str(s, ", type_label: ");
            push_str_debug(s, f_type_label.as_str());
            push_str(s, ", success: ");
            push_flat_reg(s, *f_success);
            push_str(s, " }");
            assert(s@ =~= old(s)@ + instruction_debug(*i));
        },
        Instruction::TryEnumVariant { dest: f_dest, src: f_src, enum_name: f_enum_name, variant_name: f_variant_name, success: f_success } => {
            push_str(s, "TryEnumVariant { dest: ");
            push_flat_reg(s, *f_dest);
            push_str(s, ", src: ");
            push_flat_reg(s, *f_src);
            push_str(s, ", enum_name: ");
            push_opt_str(s, f_enum_name);
            push_str(s, ", variant_name: ");
            push_str_debug(s, f_variant_name.as_str());
            push_str(s, ", success: ");
            push_flat_reg(s, *f_success);
            push_str(s, " }");
            assert(s@ =~= old(s)@ + instruction_debug(*i));
        },
        Instruction::Print { src: f_src } => {
            push_str(s, "Print { src: ");
            push_flat_reg(s, *f_src);
            push_str(s, " }");
            assert(s@ =~= old(s)@ + instruction_debug(*i));
        },
        Instruction::Debug { src: f_src } => {
            push_str(s, "Debug { src: ");
            push_flat_reg(s, *f_src);
            push_str(s, " }");
            assert(s@ =~= old(s)@ + instruction_debug(*i));
        },
        _ => {},
    }
}

#[verifier::rlimit(40)]
fn push_instr_debug_19(s: &mut String, i: &Instruction)
    requires
        instr_debug_group(*i) == 19,
    ensures
        final(s)@ == old(s)@ + instruction_debug(*i),
{
    reveal(instruction_debug);
    match i {
        Instruction::AssertTime { op: f_op, limit_ms: f_limit_ms } => {
            push_str(s, "AssertTime { op: ");
            push_str(s, binop_str(*f_op));
            push_str(s, ", limit_ms: ");
            push_decimal(s, *f_limit_ms);
            push_str(s, " }");
            assert(s@ =~= old(s)@ + instruction_debug(*i));
        },
        Instruction::Slice { ms: f_ms } => {
            push_str(s, "Slice { ms: ");
            push_decimal(s, *f_ms);
            push_str(s, " }");
            assert(s@ =~= old(s)@ + instruction_debug(*i));
        },
        Instruction::Break => {
            push_str(s, "Break");
            assert(s@ =~= old(s)@ + instruction_debug(*i));
        },
        Instruction::LoopTick => {
            push_str(s, "LoopTick");
            assert(s@ =~= old(s)@ + instruction_debug(*i));
        },
        _ => {},
    }
}

#[verifier::rlimit(40)]
fn push_instr_debug_20(s: &mut String, i: &Instruction)
    requires
        instr_debug_group(*i) == 20,
    ensures
        final(s)@ == old(s)@ + instruction_debug(*i),
{
    reveal(instruction_debug);
    match i {
        Instruction::EndLoopTick => {
            push_str(s, "EndLoopTick");
            assert(s@ =~= old(s)@ + instruction_debug(*i));
        },
        Instruction::Capability { cap: f_cap } => {
            push_str(s, "Capability { cap: ");
            push_text_debug(s, "Capability", f_cap.text.as_str());
            push_str(s, " }");
            assert(s@ =~= old(s)@ + instruction_debug(*i));
        },
        Instruction::For { dest_cond: f_dest_cond, item_reg: f_item_reg, item_name: f_item_name, mode: f_mode, source: f_source, pacing_ms: f_pacing_ms, max_ms: f_max_ms } => {
            push_str(s, "For { dest_cond: ");
            push_flat_reg(s, *f_dest_cond);
            push_str(s, ", item_reg: ");
            push_flat_reg(s, *f_item_reg);
            push_str(s, ", item_name: ");
            push_str_debug(s, f_item_name.as_str());
            push_str(s, ", mode: ");
            push_str(s, param_mode_str(*f_mode));
            push_str(s, ", source: ");
            push_flat_reg(s, *f_source);
            push_str(s, ", pacing_ms: ");
            push_opt_u64(s, *f_pacing_ms);
            push_str(s, ", max_ms: ");
            push_opt_u64(s, *f_max_ms);
            push_str(s, " }");
            assert(s@ =~= old(s)@ + instruction_debug(*i));
        },
        Instruction::EndFor => {
            push_str(s, "EndFor");
            assert(s@ =~= old(s)@ + instruction_debug(*i));
        },
        _ => {},
    }
}

#[verifier::rlimit(40)]
fn push_instr_debug_21(s: &mut String, i: &Instruction)
    requires
        instr_debug_group(*i) == 21,
    ensures
        final(s)@ == old(s)@ + instruction_debug(*i),
{
    reveal(instruction_debug);
    match i {
        Instruction::SplitMap { item_reg: f_item_reg, item_name: f_item_name, mode: f_mode, source: f_source, reconcile: f_reconcile } => {
            push_str(s, "SplitMap { item_reg: ");
            push_flat_reg(s, *f_item_reg);
            push_str(s, ", item_name: ");
            push_str_debug(s, f_item_name.as_str());
            push_str(s, ", mode: ");
            push_str(s, param_mode_str(*f_mode));
            push_str(s, ", source: ");
            push_flat_reg(s, *f_source);
            push_str(s, ", reconcile: ");
            push_opt_resolution(s, f_reconcile);
            push_str(s, " }");
            assert(s@ =~= old(s)@ + instruction_debug(*i));
        },
        Instruction::EndSplitMap => {
            push_str(s, "EndSplitMap");
            assert(s@ =~= old(s)@ + instruction_debug(*i));
        },
        Instruction::Defer { dest: f_dest, cap: f_cap, deadline_ms: f_deadline_ms } => {
            push_str(s, "Defer { dest: ");
            push_flat_reg(s, *f_dest);
            push_str(s, ", cap: ");
            push_text_debug(s, "Capability", f_cap.text.as_str());
            push_str(s, ", deadline_ms: ");
            push_decimal(s, *f_deadline_ms);
            push_str(s, " }");
            assert(s@ =~= old(s)@ + instruction_debug(*i));
        },
        Instruction::Await { target: f_target } => {
            push_str(s, "Await { target: ");
            push_flat_reg(s, *f_target);
            push_str(s, " }");
            assert(s@ =~= old(s)@ + instruction_debug(*i));
        },
        _ => {},
    }
}

#[verifier::rlimit(40)]
fn push_instr_debug_22(s: &mut String, i: &Instruction)
    requires
        instr_debug_group(*i) == 22,
    ensures
        final(s)@ == old(s)@ + instruction_debug(*i),
{
    reveal(instruction_debug);
    match i {
        Instruction::Loop { max_ms: f_max_ms } => {
            push_str(s, "Loop { max_ms: ");
            push_decimal(s, *f_max_ms);
            push_str(s, " }");
            assert(s@ =~= old(s)@ + instruction_debug(*i));
        },
        Instruction::EndLoop { max_ms: f_max_ms } => {
            push_str(s, "EndLoop { max_ms: ");
            push_decimal(s, *f_max_ms);
            push_str(s, " }");
            assert(s@ =~= old(s)@ + instruction_debug(*i));
        },
        Instruction::LoopTickOn { chan_id: f_chan_id } => {
            push_str(s, "LoopTickOn { chan_id: ");
            push_str_debug(s, f_chan_id.as_str());
            push_str(s, " }");
            assert(s@ =~= old(s)@ + instruction_debug(*i));
        },
        Instruction::While { max_ms: f_max_ms } => {
            push_str(s, "While { max_ms: ");
            push_decimal(s, *f_max_ms);
            push_str(s, " }");
            assert(s@ =~= old(s)@ + instruction_debug(*i));
        },
        _ => {},
    }
}

#[verifier::rlimit(40)]
fn push_instr_debug_23(s: &mut String, i: &Instruction)
    requires
        instr_debug_group(*i) == 23,
    ensures
        final(s)@ == old(s)@ + instruction_debug(*i),
{
    reveal(instruction_debug);
    match i {
        Instruction::EndWhile { max_ms: f_max_ms } => {
            push_str(s, "EndWhile { max_ms: ");
            push_decimal(s, *f_max_ms);
            push_str(s, " }");
            assert(s@ =~= old(s)@ + instruction_debug(*i));
        },
        Instruction::ForStep { dest_cond: f_dest_cond, item_reg: f_item_reg, item_name: f_item_name, source: f_source, step_ms: f_step_ms } => {
            push_str(s, "ForStep { dest_cond: ");
            push_flat_reg(s, *f_dest_cond);
            push_str(s, ", item_reg: ");
            push_flat_reg(s, *f_item_reg);
            push_str(s, ", item_name: ");
            push_str_debug(s, f_item_name.as_str());
            push_str(s, ", source: ");
            push_flat_reg(s, *f_source);
            push_str(s, ", step_ms: ");
            push_opt_u64(s, *f_step_ms);
            push_str(s, " }");
            assert(s@ =~= old(s)@ + instruction_debug(*i));
        },
        Instruction::EndForStep => {
            push_str(s, "EndForStep");
            assert(s@ =~= old(s)@ + instruction_debug(*i));
        },
        Instruction::ArrayLen { dest: f_dest, src: f_src } => {
            push_str(s, "ArrayLen { dest: ");
            push_flat_reg(s, *f_dest);
            push_str(s, ", src: ");
            push_flat_reg(s, *f_src);
            push_str(s, " }");
            assert(s@ =~= old(s)@ + instruction_debug(*i));
        },
        _ => {},
    }
}

/// Appends the debug text of an instruction.
pub fn push_instruction_debug(s: &mut String, i: &Instruction)
    ensures
        final(s)@ == old(s)@ + instruction_debug(*i),
{
    let g = instr_debug_group_of(i);
    if g == 0 {
        push_instr_debug_0(s, i);
    } else if g == 1 {
        push_instr_debug_1(s, i);
    } else if g == 2 {
        push_instr_debug_2(s, i);
    } else if g == 3 {
        push_instr_debug_3(s, i);
    } else if g == 4 {
        push_instr_debug_4(s, i);
    } else if g == 5 {
        push_instr_debug_5(s, i);
    } else if g == 6 {
        push_instr_debug_6(s, i);
    } else if g == 7 {
        push_instr_debug_7(s, i);
    } else if g == 8 {
        push_instr_debug_8(s, i);
    } else if g == 9 {
        push_instr_debug_9(s, i);
    } else if g == 10 {
        push_instr_debug_10(s, i);
    } else if g == 11 {
        push_instr_debug_11(s, i);
    } else if g == 12 {
        push_instr_debug_12(s, i);
    } else if g == 13 {
        push_instr_debug_13(s, i);
    } else if g == 14 {
        push_instr_debug_14(s, i);
    } else if g == 15 {
        push_instr_debug_15(s, i);
    } else if g == 16 {
        push_instr_debug_16(s, i);
    } else if g == 17 {
        push_instr_debug_17(s, i);
    } else if g == 18 {
        push_instr_debug_18(s, i);
    } else if g == 19 {
        push_instr_debug_19(s, i);
    } else if g == 20 {
        push_instr_debug_20(s, i);
    } else if g == 21 {
        push_instr_debug_21(s, i);
    } else if g == 22 {
        push_instr_debug_22(s, i);
    } else {
        push_instr_debug_23(s, i);
    }
}

/// The debug text of an instruction, as its derived `Debug` writes it.
pub fn instruction_debug_text(instr: &Instruction) -> (t: String)
    ensures
        t@ == instruction_debug(*instr),
{
    let mut t = String::new();
    push_instruction_debug(&mut t, instr);
    assert(t@ =~= instruction_debug(*instr));
    t
}

} // verus!

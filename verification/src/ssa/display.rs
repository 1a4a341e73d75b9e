//! The textual listing of SSA graphs: registers, terminators, instructions,
//! whole graphs, and their Graphviz rendering.

use vstd::prelude::*;
use crate::blockmap::BlockId;
use crate::ir::{BinaryOperator, UnaryOperator, EntropyMode, SpeculationCommitMode, ParamMode};
use crate::ssa::{SsaReg, SsaTerminator, SsaSelectCase, SsaCFG, SsaBasicBlock, SsaPhiNode};
use crate::ssa::instruction::SsaInstruction;
use crate::text::{push_str, push_decimal, push_int, push_escaped, dec_text, int_text, escaped};

verus! {

/// `R<reg>_<version>`.
pub open spec fn reg_text(r: SsaReg) -> Seq<char> {
    "R"@ + dec_text(r.reg as nat) + "_"@ + dec_text(r.version as nat)
}

/// `parts` separated by `, `.
pub open spec fn join(parts: Seq<Seq<char>>) -> Seq<char>
    decreases parts.len(),
{
    if parts.len() == 0 {
        Seq::empty()
    } else if parts.len() == 1 {
        parts[0]
    } else {
        join(parts.drop_last()) + ", "@ + parts.last()
    }
}

/// The views of a list of strings.
pub open spec fn views(v: Seq<String>) -> Seq<Seq<char>> {
    v.map_values(|s: String| s@)
}

proof fn lemma_join_step(p: Seq<Seq<char>>, k: int)
    requires
        0 <= k < p.len(),
    ensures
        join(p.take(k + 1)) == if k == 0 { p[0] } else { join(p.take(k)) + ", "@ + p[k] },
{
    assert(p.take(k + 1).drop_last() =~= p.take(k));
    assert(p.take(k + 1).last() == p[k]);
}

/// Appends `parts` separated by `, `.
pub fn push_join(s: &mut String, parts: &Vec<String>)
    ensures
        final(s)@ == old(s)@ + join(views(parts@)),
{
    let ghost p = views(parts@);
    let ghost s0 = s@;
    let mut k: usize = 0;
    while k < parts.len()
        invariant
            p == views(parts@),
            k <= parts@.len(),
            s@ == s0 + join(p.take(k as int)),
        decreases parts@.len() - k,
    {
        proof {
            lemma_join_step(p, k as int);
        }
        if k > 0 {
            push_str(s, ", ");
        }
        push_str(s, parts[k].as_str());
        k = k + 1;
        assert(s@ =~= s0 + join(p.take(k as int)));
    }
    assert(p.take(parts@.len() as int) =~= p);
}

/// Appends the text of a register version.
pub fn push_reg(s: &mut String, r: SsaReg)
    ensures
        final(s)@ == old(s)@ + reg_text(r),
{
    push_str(s, "R");
    push_decimal(s, r.reg as u64);
    push_str(s, "_");
    push_decimal(s, r.version as u64);
    assert(s@ =~= old(s)@ + reg_text(r));
}

/// The text of a register version.
pub fn reg_string(r: SsaReg) -> (t: String)
    ensures
        t@ == reg_text(r),
{
    let mut t = String::new();
    push_reg(&mut t, r);
    assert(t@ =~= reg_text(r));
    t
}

/// The texts of a list of register versions.
pub fn reg_strings(rs: &Vec<SsaReg>) -> (v: Vec<String>)
    ensures
        views(v@) == rs@.map_values(|r: SsaReg| reg_text(r)),
{
    let mut v: Vec<String> = Vec::new();
    let mut k: usize = 0;
    while k < rs.len()
        invariant
            k <= rs@.len(),
            v@.len() == k,
            forall|q: int| 0 <= q < k ==> #[trigger] v@[q]@ == reg_text(rs@[q]),
        decreases rs@.len() - k,
    {
        v.push(reg_string(rs[k]));
        k = k + 1;
    }
    assert(views(v@) =~= rs@.map_values(|r: SsaReg| reg_text(r)));
    v
}

/// Appends the texts of a list of register versions, separated by `, `.
pub fn push_regs(s: &mut String, rs: &Vec<SsaReg>)
    ensures
        final(s)@ == old(s)@ + join(rs@.map_values(|r: SsaReg| reg_text(r))),
{
    let v = reg_strings(rs);
    push_join(s, &v);
}

/// The text that std's `Debug` writes for a string: quoted, with escapes.
pub uninterp spec fn str_debug(s: Seq<char>) -> Seq<char>;

/// The debug text of a string. Calls std's `format!` with `{:?}`, whose text
/// for a `str` is a function of the string alone and is named, not spelled
/// out, here.
#[verifier::external_body]
fn str_debug_text(t: &str) -> (r: String)
    ensures
        r@ == str_debug(t@),
{
    format!("{:?}", t)
}

/// Appends the debug text of a string.
pub fn push_str_debug(s: &mut String, t: &str)
    ensures
        final(s)@ == old(s)@ + str_debug(t@),
{
    let d = str_debug_text(t);
    push_str(s, d.as_str());
}

/// The debug text of a list of strings: `[` and `]` round the debug texts of
/// the items, separated by `, `.
pub open spec fn strs_debug(v: Seq<String>) -> Seq<char> {
    "["@ + join(v.map_values(|x: String| str_debug(x@))) + "]"@
}

/// Appends the debug text of a list of strings.
pub fn push_strs_debug(s: &mut String, v: &Vec<String>)
    ensures
        final(s)@ == old(s)@ + strs_debug(v@),
{
    let mut parts: Vec<String> = Vec::new();
    let mut k: usize = 0;
    while k < v.len()
        invariant
            k <= v@.len(),
            parts@.len() == k,
            forall|q: int| 0 <= q < k ==> #[trigger] parts@[q]@ == str_debug(v@[q]@),
        decreases v@.len() - k,
    {
        parts.push(str_debug_text(v[k].as_str()));
        k = k + 1;
    }
    assert(views(parts@) =~= v@.map_values(|x: String| str_debug(x@)));
    push_str(s, "[");
    push_join(s, &parts);
    push_str(s, "]");
    assert(s@ =~= old(s)@ + strs_debug(v@));
}

/// The derived debug text of a register version.
pub open spec fn reg_debug(r: SsaReg) -> Seq<char> {
    "SsaReg { reg: "@ + dec_text(r.reg as nat) + ", version: "@ + dec_text(r.version as nat) + " }"@
}

/// The debug text of a list of register versions.
pub open spec fn regs_debug(v: Seq<SsaReg>) -> Seq<char> {
    "["@ + join(v.map_values(|r: SsaReg| reg_debug(r))) + "]"@
}

/// Appends the debug text of a list of register versions.
pub fn push_regs_debug(s: &mut String, v: &Vec<SsaReg>)
    ensures
        final(s)@ == old(s)@ + regs_debug(v@),
{
    let mut parts: Vec<String> = Vec::new();
    let mut k: usize = 0;
    while k < v.len()
        invariant
            k <= v@.len(),
            parts@.len() == k,
            forall|q: int| 0 <= q < k ==> #[trigger] parts@[q]@ == reg_debug(v@[q]),
        decreases v@.len() - k,
    {
        let mut t = String::new();
        push_str(&mut t, "SsaReg { reg: ");
        push_decimal(&mut t, v[k].reg as u64);
        push_str(&mut t, ", version: ");
        push_decimal(&mut t, v[k].version as u64);
        push_str(&mut t, " }");
        assert(t@ =~= reg_debug(v@[k as int]));
        parts.push(t);
        k = k + 1;
    }
    assert(views(parts@) =~= v@.map_values(|r: SsaReg| reg_debug(r)));
    push_str(s, "[");
    push_join(s, &parts);
    push_str(s, "]");
    assert(s@ =~= old(s)@ + regs_debug(v@));
}

/// `<name>: <reg>`, one field of a literal.
pub open spec fn field_text(f: (String, SsaReg)) -> Seq<char> {
    f.0@ + ": "@ + reg_text(f.1)
}

/// The fields of a literal, separated by `, `.
pub open spec fn fields_text(v: Seq<(String, SsaReg)>) -> Seq<char> {
    join(v.map_values(|f: (String, SsaReg)| field_text(f)))
}

/// Appends the fields of a literal.
pub fn push_fields(s: &mut String, v: &Vec<(String, SsaReg)>)
    ensures
        final(s)@ == old(s)@ + fields_text(v@),
{
    let mut parts: Vec<String> = Vec::new();
    let mut k: usize = 0;
    while k < v.len()
        invariant
            k <= v@.len(),
            parts@.len() == k,
            forall|q: int| 0 <= q < k ==> #[trigger] parts@[q]@ == field_text(v@[q]),
        decreases v@.len() - k,
    {
        let mut t = String::new();
        push_str(&mut t, v[k].0.as_str());
        push_str(&mut t, ": ");
        push_reg(&mut t, v[k].1);
        assert(t@ =~= field_text(v@[k as int]));
        parts.push(t);
        k = k + 1;
    }
    assert(views(parts@) =~= v@.map_values(|f: (String, SsaReg)| field_text(f)));
    push_join(s, &parts);
}

/// The text of an optional register: empty when there is none.
pub open spec fn opt_reg_text(r: Option<SsaReg>) -> Seq<char> {
    match r {
        Some(x) => reg_text(x),
        None => Seq::empty(),
    }
}

fn push_opt_reg(s: &mut String, r: Option<SsaReg>)
    ensures
        final(s)@ == old(s)@ + opt_reg_text(r),
{
    match r {
        Some(x) => push_reg(s, x),
        None => {
            assert(s@ =~= old(s)@ + opt_reg_text(r));
        },
    }
}

/// `true` or `false`.
pub open spec fn bool_text(b: bool) -> Seq<char> {
    if b {
        "true"@
    } else {
        "false"@
    }
}

pub(crate) fn bool_str(b: bool) -> (r: &'static str)
    ensures
        r@ == bool_text(b),
{
    if b {
        "true"
    } else {
        "false"
    }
}

/// The name of a binary operator, as its derived `Debug` writes it.
pub open spec fn binop_name(op: BinaryOperator) -> Seq<char> {
    match op {
        BinaryOperator::Add => "Add"@,
        BinaryOperator::Sub => "Sub"@,
        BinaryOperator::Mul => "Mul"@,
        BinaryOperator::Div => "Div"@,
        BinaryOperator::Rem => "Rem"@,
        BinaryOperator::Pow => "Pow"@,
        BinaryOperator::BitwiseAnd => "BitwiseAnd"@,
        BinaryOperator::BitwiseOr => "BitwiseOr"@,
        BinaryOperator::BitwiseXor => "BitwiseXor"@,
        BinaryOperator::Shl => "Shl"@,
        BinaryOperator::Shr => "Shr"@,
        BinaryOperator::Eq => "Eq"@,
        BinaryOperator::Neq => "Neq"@,
        BinaryOperator::Lt => "Lt"@,
        BinaryOperator::Gt => "Gt"@,
        BinaryOperator::Le => "Le"@,
        BinaryOperator::Ge => "Ge"@,
        BinaryOperator::LogicalAnd => "LogicalAnd"@,
        BinaryOperator::LogicalOr => "LogicalOr"@,
    }
}

pub(crate) fn binop_str(op: BinaryOperator) -> (r: &'static str)
    ensures
        r@ == binop_name(op),
{
    match op {
        BinaryOperator::Add => "Add",
        BinaryOperator::Sub => "Sub",
        BinaryOperator::Mul => "Mul",
        BinaryOperator::Div => "Div",
        BinaryOperator::Rem => "Rem",
        BinaryOperator::Pow => "Pow",
        BinaryOperator::BitwiseAnd => "BitwiseAnd",
        BinaryOperator::BitwiseOr => "BitwiseOr",
        BinaryOperator::BitwiseXor => "BitwiseXor",
        BinaryOperator::Shl => "Shl",
        BinaryOperator::Shr => "Shr",
        BinaryOperator::Eq => "Eq",
        BinaryOperator::Neq => "Neq",
        BinaryOperator::Lt => "Lt",
        BinaryOperator::Gt => "Gt",
        BinaryOperator::Le => "Le",
        BinaryOperator::Ge => "Ge",
        BinaryOperator::LogicalAnd => "LogicalAnd",
        BinaryOperator::LogicalOr => "LogicalOr",
    }
}

/// The name of a unary operator.
pub open spec fn unop_name(op: UnaryOperator) -> Seq<char> {
    match op {
        UnaryOperator::Neg => "Neg"@,
        UnaryOperator::Not => "Not"@,
        UnaryOperator::BitwiseNot => "BitwiseNot"@,
    }
}

pub(crate) fn unop_str(op: UnaryOperator) -> (r: &'static str)
    ensures
        r@ == unop_name(op),
{
    match op {
        UnaryOperator::Neg => "Neg",
        UnaryOperator::Not => "Not",
        UnaryOperator::BitwiseNot => "BitwiseNot",
    }
}

/// The name of an entropy regime.
pub open spec fn entropy_mode_name(m: EntropyMode) -> Seq<char> {
    match m {
        EntropyMode::Deterministic => "Deterministic"@,
        EntropyMode::Chaos => "Chaos"@,
    }
}

pub(crate) fn entropy_mode_str(m: EntropyMode) -> (r: &'static str)
    ensures
        r@ == entropy_mode_name(m),
{
    match m {
        EntropyMode::Deterministic => "Deterministic",
        EntropyMode::Chaos => "Chaos",
    }
}

/// The name of a commit mode.
pub open spec fn commit_mode_name(m: SpeculationCommitMode) -> Seq<char> {
    match m {
        SpeculationCommitMode::Full => "Full"@,
        SpeculationCommitMode::Selective => "Selective"@,
    }
}

pub(crate) fn commit_mode_str(m: SpeculationCommitMode) -> (r: &'static str)
    ensures
        r@ == commit_mode_name(m),
{
    match m {
        SpeculationCommitMode::Full => "Full",
        SpeculationCommitMode::Selective => "Selective",
    }
}

/// The name of a binding mode.
pub open spec fn param_mode_name(m: ParamMode) -> Seq<char> {
    match m {
        ParamMode::Consume => "Consume"@,
        ParamMode::Peek => "Peek"@,
        ParamMode::Decay => "Decay"@,
        ParamMode::Clone => "Clone"@,
        ParamMode::Lease => "Lease"@,
    }
}

pub(crate) fn param_mode_str(m: ParamMode) -> (r: &'static str)
    ensures
        r@ == param_mode_name(m),
{
    match m {
        ParamMode::Consume => "Consume",
        ParamMode::Peek => "Peek",
        ParamMode::Decay => "Decay",
        ParamMode::Clone => "Clone",
        ParamMode::Lease => "Lease",
    }
}

/// `Block <id>`.
pub open spec fn block_text(b: BlockId) -> Seq<char> {
    "Block "@ + dec_text(b as nat)
}

/// Appends `Block <id>`.
pub fn push_block(s: &mut String, b: BlockId)
    ensures
        final(s)@ == old(s)@ + block_text(b),
{
    push_str(s, "Block ");
    push_decimal(s, b as u64);
    assert(s@ =~= old(s)@ + block_text(b));
}

/// One arm of a select: `<chan> -> <reg> to Block <target>`.
pub open spec fn case_text(c: SsaSelectCase) -> Seq<char> {
    c.chan_id@ + " -> "@ + reg_text(c.dest) + " to Block "@ + dec_text(c.target as nat)
}

/// The texts of the arms of a select, separated by `, `.
pub open spec fn cases_text(cs: Seq<SsaSelectCase>) -> Seq<char> {
    join(cs.map_values(|c: SsaSelectCase| case_text(c)))
}

fn case_string(c: &SsaSelectCase) -> (t: String)
    ensures
        t@ == case_text(*c),
{
    let mut t = String::new();
    push_str(&mut t, c.chan_id.as_str());
    push_str(&mut t, " -> ");
    push_reg(&mut t, c.dest);
    push_str(&mut t, " to Block ");
    push_decimal(&mut t, c.target as u64);
    assert(t@ =~= case_text(*c));
    t
}

/// Appends the texts of the arms of a select.
pub fn push_cases(s: &mut String, cs: &Vec<SsaSelectCase>)
    ensures
        final(s)@ == old(s)@ + cases_text(cs@),
{
    let mut v: Vec<String> = Vec::new();
    let mut k: usize = 0;
    while k < cs.len()
        invariant
            k <= cs@.len(),
            v@.len() == k,
            forall|q: int| 0 <= q < k ==> #[trigger] v@[q]@ == case_text(cs@[q]),
        decreases cs@.len() - k,
    {
        v.push(case_string(&cs[k]));
        k = k + 1;
    }
    assert(views(v@) =~= cs@.map_values(|c: SsaSelectCase| case_text(c)));
    push_join(s, &v);
}

/// `<label>: Block <b>` when the target is there.
pub open spec fn opt_label(label: Seq<char>, b: Option<BlockId>) -> Seq<Seq<char>> {
    match b {
        Some(x) => seq![label + ": "@ + block_text(x)],
        None => Seq::empty(),
    }
}

/// The text of a terminator, as the SSA listing shows it.
pub open spec fn term_text(t: SsaTerminator) -> Seq<char> {
    match t {
        SsaTerminator::Jump { target } => "Jump "@ + block_text(target),
        SsaTerminator::Branch { cond, then_block, else_block } =>
            "Branch "@ + reg_text(cond) + " -> "@ + block_text(then_block) + " else "@ + block_text(else_block),
        SsaTerminator::Return { src } => "Return "@ + match src {
            Some(r) => reg_text(r),
            None => "void"@,
        },
        SsaTerminator::MatchEntropy { target, valid_block, decayed_block, pending_block, consumed_block } =>
            "MatchEntropy "@ + reg_text(target) + " -> [ "@
            + join(opt_label("Valid"@, valid_block) + opt_label("Decayed"@, decayed_block)
                + opt_label("Pending"@, pending_block) + opt_label("Consumed"@, consumed_block))
            + " ]"@,
        SsaTerminator::Select { max_ms, cases, timeout_block } =>
            "Select (max "@ + dec_text(max_ms as nat) + "ms) [ "@ + cases_text(cases@) + " ]"@ + match timeout_block {
                Some(b) => ", Timeout: "@ + block_text(b),
                None => Seq::empty(),
            },
        SsaTerminator::Unreachable => "Unreachable"@,
    }
}

fn push_opt_label(v: &mut Vec<String>, label: &str, b: Option<BlockId>)
    ensures
        views(final(v)@) == views(old(v)@) + opt_label(label@, b),
{
    match b {
        Some(x) => {
            let mut t = String::new();
            push_str(&mut t, label);
            push_str(&mut t, ": ");
            push_block(&mut t, x);
            assert(t@ =~= label@ + ": "@ + block_text(x));
            v.push(t);
            assert(views(v@) =~= views(old(v)@) + opt_label(label@, b));
        },
        None => {
            assert(views(v@) =~= views(old(v)@) + opt_label(label@, b));
        },
    }
}

/// Appends the text of a terminator.
pub fn push_term(s: &mut String, t: &SsaTerminator)
    ensures
        final(s)@ == old(s)@ + term_text(*t),
{
    match t {
        SsaTerminator::Jump { target } => {
            push_str(s, "Jump ");
            push_block(s, *target);
        },
        SsaTerminator::Branch { cond, then_block, else_block } => {
            push_str(s, "Branch ");
            push_reg(s, *cond);
            push_str(s, " -> ");
            push_block(s, *then_block);
            push_str(s, " else ");
            push_block(s, *else_block);
        },
        SsaTerminator::Return { src } => {
            push_str(s, "Return ");
            match src {
                Some(r) => push_reg(s, *r),
                None => push_str(s, "void"),
            }
        },
        SsaTerminator::MatchEntropy { target, valid_block, decayed_block, pending_block, consumed_block } => {
            let mut v: Vec<String> = Vec::new();
            push_opt_label(&mut v, "Valid", *valid_block);
            push_opt_label(&mut v, "Decayed", *decayed_block);
            push_opt_label(&mut v, "Pending", *pending_block);
            push_opt_label(&mut v, "Consumed", *consumed_block);
            assert(views(v@) =~= opt_label("Valid"@, *valid_block) + opt_label("Decayed"@, *decayed_block)
                + opt_label("Pending"@, *pending_block) + opt_label("Consumed"@, *consumed_block));
            push_str(s, "MatchEntropy ");
            push_reg(s, *target);
            push_str(s, " -> [ ");
            push_join(s, &v);
            push_str(s, " ]");
        },
        SsaTerminator::Select { max_ms, cases, timeout_block } => {
            push_str(s, "Select (max ");
            push_decimal(s, *max_ms);
            push_str(s, "ms) [ ");
            push_cases(s, cases);
            push_str(s, " ]");
            match timeout_block {
                Some(b) => {
                    push_str(s, ", Timeout: ");
                    push_block(s, *b);
                },
                None => {},
            }
        },
        SsaTerminator::Unreachable => {
            push_str(s, "Unreachable");
        },
    }
    assert(s@ =~= old(s)@ + term_text(*t));
}

impl SsaTerminator {
    /// The text of the terminator, as the SSA listing shows it.
    pub fn display_text(&self) -> (t: String)
        ensures
            t@ == term_text(*self),
    {
        let mut t = String::new();
        push_term(&mut t, self);
        assert(t@ =~= term_text(*self));
        t
    }
}

/// The text of an instruction, as the SSA listing shows it; `ft` stands for
/// the rendering of a float constant, which the caller supplies.
pub open spec fn instr_text(i: SsaInstruction, ft: Seq<char>) -> Seq<char> {
    match i {
        SsaInstruction::BinaryOp { dest: f_dest, left: f_left, op: f_op, right: f_right, .. } => reg_text(f_dest) + " = "@ + reg_text(f_left) + " "@ + binop_name(f_op) + " "@ + reg_text(f_right),
        SsaInstruction::UnaryOp { dest: f_dest, op: f_op, src: f_src, .. } => reg_text(f_dest) + " = "@ + unop_name(f_op) + " "@ + reg_text(f_src),
        SsaInstruction::LoadInt { dest: f_dest, value: f_value, .. } => reg_text(f_dest) + " = "@ + int_text(f_value as int),
        SsaInstruction::LoadFloat { dest: f_dest, .. } => reg_text(f_dest) + " = "@ + ft,
        SsaInstruction::LoadBool { dest: f_dest, value: f_value, .. } => reg_text(f_dest) + " = "@ + bool_text(f_value),
        SsaInstruction::LoadString { dest: f_dest, value: f_value, .. } => reg_text(f_dest) + " = "@ + str_debug(f_value@),
        SsaInstruction::LoadNull { dest: f_dest, .. } => reg_text(f_dest) + " = null"@,
        SsaInstruction::ConstInt { dest: f_dest, value: f_value, .. } => reg_text(f_dest) + " = "@ + int_text(f_value as int),
        SsaInstruction::ConstFloat { dest: f_dest, .. } => reg_text(f_dest) + " = "@ + ft,
        SsaInstruction::ConstBool { dest: f_dest, value: f_value, .. } => reg_text(f_dest) + " = "@ + bool_text(f_value),
        SsaInstruction::ConstString { dest: f_dest, value: f_value, .. } => reg_text(f_dest) + " = "@ + str_debug(f_value@),
        SsaInstruction::ConstNull { dest: f_dest, .. } => reg_text(f_dest) + " = null"@,
        SsaInstruction::Move { dest: f_dest, src: f_src, .. } => reg_text(f_dest) + " = "@ + reg_text(f_src),
        SsaInstruction::Consume { src: f_src, .. } => "Consume "@ + reg_text(f_src),
        SsaInstruction::ConsumeField { field: f_field, src: f_src, .. } => "ConsumeField "@ + reg_text(f_src) + "."@ + f_field@,
        SsaInstruction::ConsumeFieldDynamic { index: f_index, target: f_target, .. } => "ConsumeFieldDynamic "@ + reg_text(f_target) + "["@ + reg_text(f_index) + "]"@,
        SsaInstruction::Clone { dest: f_dest, src: f_src, .. } => reg_text(f_dest) + " = Clone "@ + reg_text(f_src),
        SsaInstruction::StrBytes { dest: f_dest, src: f_src, .. } => reg_text(f_dest) + " = StrBytes "@ + reg_text(f_src),
        SsaInstruction::ToStr { dest: f_dest, src: f_src, .. } => reg_text(f_dest) + " = ToStr "@ + reg_text(f_src),
        SsaInstruction::ConditionalSelect { cond: f_cond, dest: f_dest, false_val: f_false_val, true_val: f_true_val, .. } => reg_text(f_dest) + " = "@ + reg_text(f_cond) + " ? "@ + reg_text(f_true_val) + " : "@ + reg_text(f_false_val),
        SsaInstruction::Call { args: f_args, dest: f_dest, routine: f_routine, .. } => reg_text(f_dest) + " = Call "@ + f_routine@ + "("@ + join(f_args@.map_values(|r: SsaReg| reg_text(r))) + ")"@,
        SsaInstruction::DynamicCall { args: f_args, budget: f_budget, dest: f_dest, method: f_method, .. } => reg_text(f_dest) + " = DynamicCall "@ + f_method@ + "("@ + join(f_args@.map_values(|r: SsaReg| reg_text(r))) + ")"@ + (match f_budget { Some(b) => " [budget: "@ + dec_text(b as nat) + "ms]"@, None => Seq::<char>::empty() }),
        SsaInstruction::TypeAssert { dest: f_dest, src: f_src, type_label: f_type_label, .. } => reg_text(f_dest) + " = "@ + reg_text(f_src) + " as "@ + f_type_label@,
        SsaInstruction::TypeCast { dest: f_dest, src: f_src, target_type: f_target_type, .. } => reg_text(f_dest) + " = "@ + reg_text(f_src) + " as "@ + f_target_type.text@,
        SsaInstruction::AssertState { src: f_src, state: f_state, .. } => "AssertState "@ + reg_text(f_src) + " is "@ + f_state@,
        SsaInstruction::TryTypeAssert { dest: f_dest, src: f_src, success: f_success, type_label: f_type_label, .. } => reg_text(f_dest) + ", "@ + reg_text(f_success) + " = TryTypeAssert "@ + reg_text(f_src) + " as "@ + f_type_label@,
        SsaInstruction::TryEnumVariant { dest: f_dest, enum_name: f_enum_name, src: f_src, success: f_success, variant_name: f_variant_name, .. } => reg_text(f_dest) + ", "@ + reg_text(f_success) + " = TryEnumVariant "@ + reg_text(f_src) + " as "@ + (match f_enum_name { Some(e) => e@ + "::"@, None => Seq::<char>::empty() }) + f_variant_name@,
        SsaInstruction::Print { src: f_src, .. } => "Print "@ + reg_text(f_src),
        SsaInstruction::Debug { src: f_src, .. } => "Debug "@ + reg_text(f_src),
        SsaInstruction::Slice { ms: f_ms, .. } => "Slice "@ + dec_text(f_ms as nat) + "ms"@,
        SsaInstruction::Isolate { manifest: f_manifest, name: f_name, .. } => "Isolate "@ + f_name@ + " "@ + f_manifest.text@,
        SsaInstruction::EndIsolate => "EndIsolate"@,
        SsaInstruction::Lease { duration_ms: f_duration_ms, source_reg: f_source_reg, target_reg: f_target_reg, .. } => reg_text(f_target_reg) + " = Lease "@ + reg_text(f_source_reg) + " for "@ + dec_text(f_duration_ms as nat) + "ms"@,
        SsaInstruction::EndLease { duration_ms: f_duration_ms, source_reg: f_source_reg, .. } => "EndLease "@ + reg_text(f_source_reg) + " for "@ + dec_text(f_duration_ms as nat) + "ms"@,
        SsaInstruction::Split { branches: f_branches, parent: f_parent, .. } => "Split "@ + f_parent@ + " into "@ + strs_debug(f_branches@),
        SsaInstruction::Merge { branches: f_branches, resolution: f_resolution, target: f_target, .. } => "Merge "@ + strs_debug(f_branches@) + " into "@ + f_target@ + " "@ + f_resolution.text@,
        SsaInstruction::Entangle { regs: f_regs, .. } => "Entangle ["@ + join(f_regs@.map_values(|r: SsaReg| reg_text(r))) + "]"@,
        SsaInstruction::SetEntropyMode { mode: f_mode, .. } => "SetEntropyMode "@ + entropy_mode_name(f_mode),
        SsaInstruction::Anchor { name: f_name, .. } => "Anchor "@ + f_name@,
        SsaInstruction::Rewind { anchor: f_anchor, target: f_target, .. } => "Rewind "@ + f_target@ + " to "@ + f_anchor@,
        SsaInstruction::Commit { vars: f_vars, .. } => "Commit "@ + strs_debug(f_vars@),
        SsaInstruction::Watchdog { target: f_target, timeout_ms: f_timeout_ms, .. } => "Watchdog "@ + f_target@ + " "@ + dec_text(f_timeout_ms as nat) + "ms"@,
        SsaInstruction::Speculate { max_ms: f_max_ms, .. } => "Speculate "@ + dec_text(f_max_ms as nat) + "ms"@,
        SsaInstruction::EndSpeculate { max_ms: f_max_ms, .. } => "EndSpeculate "@ + dec_text(f_max_ms as nat) + "ms"@,
        SsaInstruction::Collapse => "Collapse"@,
        SsaInstruction::Select { cases: f_cases, max_ms: f_max_ms, .. } => "Select (max "@ + dec_text(f_max_ms as nat) + "ms) [ "@ + cases_text(f_cases@) + " ]"@,
        SsaInstruction::MatchEntropy { target: f_target, .. } => "MatchEntropy "@ + reg_text(f_target),
        SsaInstruction::RelativisticBlock { block_len: f_block_len, block_pc: f_block_pc, target: f_target, .. } => "RelativisticBlock "@ + f_target@ + " pc: "@ + dec_text(f_block_pc as nat) + " len: "@ + dec_text(f_block_len as nat),
        SsaInstruction::SpeculationMode { mode: f_mode, .. } => "SpeculationMode "@ + commit_mode_name(f_mode),
        SsaInstruction::OpenChan { capacity: f_capacity, name: f_name, .. } => "OpenChan "@ + f_name@ + "("@ + dec_text(f_capacity as nat) + ")"@,
        SsaInstruction::ChanSend { chan_id: f_chan_id, src: f_src, .. } => "ChanSend "@ + f_chan_id@ + ", "@ + reg_text(f_src),
        SsaInstruction::ChanRecv { chan_id: f_chan_id, dest: f_dest, .. } => reg_text(f_dest) + " = ChanRecv "@ + f_chan_id@,
        SsaInstruction::AwaitChan { chan_id: f_chan_id, .. } => "AwaitChan "@ + f_chan_id@,
        SsaInstruction::StructLit { dest: f_dest, fields: f_fields, .. } => reg_text(f_dest) + " = StructLit { "@ + fields_text(f_fields@) + " }"@,
        SsaInstruction::TopologyLit { dest: f_dest, fields: f_fields, .. } => reg_text(f_dest) + " = TopologyLit { "@ + fields_text(f_fields@) + " }"@,
        SsaInstruction::ArrayLit { dest: f_dest, elements: f_elements, .. } => reg_text(f_dest) + " = [ "@ + join(f_elements@.map_values(|r: SsaReg| reg_text(r))) + " ]"@,
        SsaInstruction::ArrayRepeat { count: f_count, dest: f_dest, value: f_value, .. } => reg_text(f_dest) + " = [ "@ + reg_text(f_value) + "; "@ + reg_text(f_count) + " ]"@,
        SsaInstruction::ArraySlice { dest: f_dest, end: f_end, inclusive: f_inclusive, start: f_start, target: f_target, .. } => reg_text(f_dest) + " = "@ + reg_text(f_target) + "["@ + opt_reg_text(f_start) + (if f_inclusive { "..="@ } else { ".."@ }) + opt_reg_text(f_end) + "]"@,
        SsaInstruction::FieldAccess { dest: f_dest, field: f_field, target: f_target, .. } => reg_text(f_dest) + " = "@ + reg_text(f_target) + "."@ + f_field@,
        SsaInstruction::FieldUpdate { field: f_field, old_target: f_old_target, src: f_src, target: f_target, .. } => reg_text(f_target) + " = "@ + reg_text(f_old_target) + "."@ + f_field@ + " <- "@ + reg_text(f_src),
        SsaInstruction::IndexAccess { dest: f_dest, index: f_index, target: f_target, .. } => reg_text(f_dest) + " = "@ + reg_text(f_target) + "["@ + reg_text(f_index) + "]"@,
        SsaInstruction::IndexFieldUpdate { field: f_field, index: f_index, old_target: f_old_target, src: f_src, target: f_target, .. } => reg_text(f_target) + " = "@ + reg_text(f_old_target) + "["@ + reg_text(f_index) + "]."@ + f_field@ + " <- "@ + reg_text(f_src),
        SsaInstruction::AssertTime { limit_ms: f_limit_ms, op: f_op, .. } => "AssertTime "@ + binop_name(f_op) + " "@ + dec_text(f_limit_ms as nat) + "ms"@,
        SsaInstruction::Capability { cap: f_cap, .. } => "Capability "@ + f_cap.text@,
        SsaInstruction::For { dest_cond: f_dest_cond, item_reg: f_item_reg, mode: f_mode, source: f_source, .. } => "For "@ + reg_text(f_dest_cond) + ", "@ + reg_text(f_item_reg) + " in "@ + reg_text(f_source) + " (mode: "@ + param_mode_name(f_mode) + ")"@,
        SsaInstruction::EndFor => "EndFor"@,
        SsaInstruction::SplitMap { item_reg: f_item_reg, mode: f_mode, source: f_source, .. } => "SplitMap "@ + reg_text(f_item_reg) + " in "@ + reg_text(f_source) + " (mode: "@ + param_mode_name(f_mode) + ")"@,
        SsaInstruction::EndSplitMap => "EndSplitMap"@,
        SsaInstruction::Defer { cap: f_cap, deadline_ms: f_deadline_ms, dest: f_dest, .. } => reg_text(f_dest) + " = Defer "@ + f_cap.text@ + " deadline: "@ + dec_text(f_deadline_ms as nat) + "ms"@,
        SsaInstruction::Await { target: f_target, .. } => "Await "@ + reg_text(f_target),
        SsaInstruction::Loop { max_ms: f_max_ms, .. } => "Loop "@ + dec_text(f_max_ms as nat) + "ms"@,
        SsaInstruction::EndLoop { max_ms: f_max_ms, .. } => "EndLoop "@ + dec_text(f_max_ms as nat) + "ms"@,
        SsaInstruction::Break => "Break"@,
        SsaInstruction::LoopTick => "LoopTick"@,
        SsaInstruction::EndLoopTick => "EndLoopTick"@,
        SsaInstruction::Jump { target: f_target, .. } => "Jump Block "@ + dec_text(f_target as nat),
        SsaInstruction::JumpIf { cond: f_cond, target: f_target, .. } => "JumpIf "@ + reg_text(f_cond) + " to Block "@ + dec_text(f_target as nat),
        SsaInstruction::JumpIfNot { cond: f_cond, target: f_target, .. } => "JumpIfNot "@ + reg_text(f_cond) + " to Block "@ + dec_text(f_target as nat),
        SsaInstruction::While { max_ms: f_max_ms, .. } => "While "@ + dec_text(f_max_ms as nat) + "ms"@,
        SsaInstruction::EndWhile { max_ms: f_max_ms, .. } => "EndWhile "@ + dec_text(f_max_ms as nat) + "ms"@,
        SsaInstruction::ForStep { dest_cond: f_dest_cond, item_reg: f_item_reg, source: f_source, step_ms: f_step_ms, .. } => "ForStep "@ + reg_text(f_dest_cond) + ", "@ + reg_text(f_item_reg) + " in "@ + reg_text(f_source) + (match f_step_ms { Some(b) => " step "@ + dec_text(b as nat) + "ms"@, None => Seq::<char>::empty() }),
        SsaInstruction::EndForStep => "EndForStep"@,
        SsaInstruction::ArrayLen { dest: f_dest, src: f_src, .. } => reg_text(f_dest) + " = ArrayLen "@ + reg_text(f_src),
        SsaInstruction::LoopTickOn { chan_id: f_chan_id, .. } => "LoopTickOn "@ + f_chan_id@,
        SsaInstruction::Syscall { args: f_args, dest: f_dest, target: f_target, .. } => reg_text(f_dest) + " = syscall("@ + f_target.text@ + ", "@ + regs_debug(f_args@) + ")"@,
        SsaInstruction::AutoDrop { spec: f_spec, target: f_target, .. } => "AutoDrop "@ + reg_text(f_target) + " ("@ + f_spec.text@ + ")"@,
        SsaInstruction::SetSaturationPolicy { policy: f_policy, target: f_target, .. } => "SetSaturationPolicy "@ + f_target.text@ + " "@ + f_policy.text@,
        SsaInstruction::PeriodicEpoch { block_len: f_block_len, block_pc: f_block_pc, interval_ms: f_interval_ms, .. } => "PeriodicEpoch "@ + dec_text(f_interval_ms as nat) + "ms pc: "@ + dec_text(f_block_pc as nat) + " len: "@ + dec_text(f_block_len as nat),
        SsaInstruction::EndPeriodicEpoch { interval_ms: f_interval_ms, .. } => "EndPeriodicEpoch "@ + dec_text(f_interval_ms as nat) + "ms"@,
        SsaInstruction::FreezeBaseWatermark => "FreezeBaseWatermark"@,
        SsaInstruction::ResetBaseWatermark => "ResetBaseWatermark"@,
        SsaInstruction::ArenaIntrospect { dest: f_dest, kind: f_kind, .. } => reg_text(f_dest) + " = ArenaIntrospect "@ + f_kind.text@,
        SsaInstruction::CapabilityCheck { capability: f_capability, dest: f_dest, .. } => reg_text(f_dest) + " = CapabilityCheck "@ + f_capability.text@,
        SsaInstruction::Other(t) => t@,
    }
}

/// Which of the text builders below handles an instruction.
pub open spec fn instr_group(i: SsaInstruction) -> int {
    match i {
        SsaInstruction::BinaryOp { .. } => 0,
        SsaInstruction::UnaryOp { .. } => 0,
        SsaInstruction::LoadInt { .. } => 0,
        SsaInstruction::LoadFloat { .. } => 0,
        SsaInstruction::LoadBool { .. } => 0,
        SsaInstruction::LoadString { .. } => 1,
        SsaInstruction::LoadNull { .. } => 1,
        SsaInstruction::ConstInt { .. } => 1,
        SsaInstruction::ConstFloat { .. } => 1,
        SsaInstruction::ConstBool { .. } => 1,
        SsaInstruction::ConstString { .. } => 2,
        SsaInstruction::ConstNull { .. } => 2,
        SsaInstruction::Move { .. } => 2,
        SsaInstruction::Consume { .. } => 2,
        SsaInstruction::ConsumeField { .. } => 2,
        SsaInstruction::ConsumeFieldDynamic { .. } => 3,
        SsaInstruction::Clone { .. } => 3,
        SsaInstruction::StrBytes { .. } => 3,
        SsaInstruction::ToStr { .. } => 3,
        SsaInstruction::ConditionalSelect { .. } => 3,
        SsaInstruction::Call { .. } => 4,
        SsaInstruction::DynamicCall { .. } => 4,
        SsaInstruction::TypeAssert { .. } => 4,
        SsaInstruction::TypeCast { .. } => 4,
        SsaInstruction::AssertState { .. } => 4,
        SsaInstruction::TryTypeAssert { .. } => 5,
        SsaInstruction::TryEnumVariant { .. } => 5,
        SsaInstruction::Print { .. } => 5,
        SsaInstruction::Debug { .. } => 5,
        SsaInstruction::Slice { .. } => 5,
        SsaInstruction::Isolate { .. } => 6,
        SsaInstruction::EndIsolate => 6,
        SsaInstruction::Lease { .. } => 6,
        SsaInstruction::EndLease { .. } => 6,
        SsaInstruction::Split { .. } => 6,
        SsaInstruction::Merge { .. } => 7,
        SsaInstruction::Entangle { .. } => 7,
        SsaInstruction::SetEntropyMode { .. } => 7,
        SsaInstruction::Anchor { .. } => 7,
        SsaInstruction::Rewind { .. } => 7,
        SsaInstruction::Commit { .. } => 8,
        SsaInstruction::Watchdog { .. } => 8,
        SsaInstruction::Speculate { .. } => 8,
        SsaInstruction::EndSpeculate { .. } => 8,
        SsaInstruction::Collapse => 8,
        SsaInstruction::Select { .. } => 9,
        SsaInstruction::MatchEntropy { .. } => 9,
        SsaInstruction::RelativisticBlock { .. } => 9,
        SsaInstruction::SpeculationMode { .. } => 9,
        SsaInstruction::OpenChan { .. } => 9,
        SsaInstruction::ChanSend { .. } => 10,
        SsaInstruction::ChanRecv { .. } => 10,
        SsaInstruction::AwaitChan { .. } => 10,
        SsaInstruction::StructLit { .. } => 10,
        SsaInstruction::TopologyLit { .. } => 10,
        SsaInstruction::ArrayLit { .. } => 11,
        SsaInstruction::ArrayRepeat { .. } => 11,
        SsaInstruction::ArraySlice { .. } => 11,
        SsaInstruction::FieldAccess { .. } => 11,
        SsaInstruction::FieldUpdate { .. } => 11,
        SsaInstruction::IndexAccess { .. } => 12,
        SsaInstruction::IndexFieldUpdate { .. } => 12,
        SsaInstruction::AssertTime { .. } => 12,
        SsaInstruction::Capability { .. } => 12,
        SsaInstruction::For { .. } => 12,
        SsaInstruction::EndFor => 13,
        SsaInstruction::SplitMap { .. } => 13,
        SsaInstruction::EndSplitMap => 13,
        SsaInstruction::Defer { .. } => 13,
        SsaInstruction::Await { .. } => 13,
        SsaInstruction::Loop { .. } => 14,
        SsaInstruction::EndLoop { .. } => 14,
        SsaInstruction::Break => 14,
        SsaInstruction::LoopTick => 14,
        SsaInstruction::EndLoopTick => 14,
        SsaInstruction::Jump { .. } => 15,
        SsaInstruction::JumpIf { .. } => 15,
        SsaInstruction::JumpIfNot { .. } => 15,
        SsaInstruction::While { .. } => 15,
        SsaInstruction::EndWhile { .. } => 15,
        SsaInstruction::ForStep { .. } => 16,
        SsaInstruction::EndForStep => 16,
        SsaInstruction::ArrayLen { .. } => 16,
        SsaInstruction::LoopTickOn { .. } => 16,
        SsaInstruction::Syscall { .. } => 16,
        SsaInstruction::AutoDrop { .. } => 17,
        SsaInstruction::SetSaturationPolicy { .. } => 17,
        SsaInstruction::PeriodicEpoch { .. } => 17,
        SsaInstruction::EndPeriodicEpoch { .. } => 17,
        SsaInstruction::FreezeBaseWatermark => 17,
        SsaInstruction::ResetBaseWatermark => 18,
        SsaInstruction::ArenaIntrospect { .. } => 18,
        SsaInstruction::CapabilityCheck { .. } => 18,
        SsaInstruction::Other(_) => 19,
    }
}

#[verifier::spinoff_prover]
#[verifier::rlimit(40)]
fn push_instr_0(s: &mut String, i: &SsaInstruction, ft: &str)
    requires
        instr_group(*i) == 0,
    ensures
        final(s)@ == old(s)@ + instr_text(*i, ft@),
{
    match i {
        SsaInstruction::BinaryOp { dest: f_dest, left: f_left, op: f_op, right: f_right, .. } => {
            push_reg(s, *f_dest);
            push_str(s, " = ");
            push_reg(s, *f_left);
            push_str(s, " ");
            push_str(s, binop_str(*f_op));
            push_str(s, " ");
            push_reg(s, *f_right);
            assert(s@ =~= old(s)@ + instr_text(*i, ft@));
        },
        SsaInstruction::UnaryOp { dest: f_dest, op: f_op, src: f_src, .. } => {
            push_reg(s, *f_dest);
            push_str(s, " = ");
            push_str(s, unop_str(*f_op));
            push_str(s, " ");
            push_reg(s, *f_src);
            assert(s@ =~= old(s)@ + instr_text(*i, ft@));
        },
        SsaInstruction::LoadInt { dest: f_dest, value: f_value, .. } => {
            push_reg(s, *f_dest);
            push_str(s, " = ");
            push_int(s, *f_value);
            assert(s@ =~= old(s)@ + instr_text(*i, ft@));
        },
        SsaInstruction::LoadFloat { dest: f_dest, .. } => {
            push_reg(s, *f_dest);
            push_str(s, " = ");
            push_str(s, ft);
            assert(s@ =~= old(s)@ + instr_text(*i, ft@));
        },
        SsaInstruction::LoadBool { dest: f_dest, value: f_value, .. } => {
            push_reg(s, *f_dest);
            push_str(s, " = ");
            push_str(s, bool_str(*f_value));
            assert(s@ =~= old(s)@ + instr_text(*i, ft@));
        },
        _ => {},
    }
}

#[verifier::spinoff_prover]
#[verifier::rlimit(40)]
fn push_instr_1(s: &mut String, i: &SsaInstruction, ft: &str)
    requires
        instr_group(*i) == 1,
    ensures
        final(s)@ == old(s)@ + instr_text(*i, ft@),
{
    match i {
        SsaInstruction::LoadString { dest: f_dest, value: f_value, .. } => {
            push_reg(s, *f_dest);
            push_str(s, " = ");
            push_str_debug(s, f_value.as_str());
            assert(s@ =~= old(s)@ + instr_text(*i, ft@));
        },
        SsaInstruction::LoadNull { dest: f_dest, .. } => {
            push_reg(s, *f_dest);
            push_str(s, " = null");
            assert(s@ =~= old(s)@ + instr_text(*i, ft@));
        },
        SsaInstruction::ConstInt { dest: f_dest, value: f_value, .. } => {
            push_reg(s, *f_dest);
            push_str(s, " = ");
            push_int(s, *f_value);
            assert(s@ =~= old(s)@ + instr_text(*i, ft@));
        },
        SsaInstruction::ConstFloat { dest: f_dest, .. } => {
            push_reg(s, *f_dest);
            push_str(s, " = ");
            push_str(s, ft);
            assert(s@ =~= old(s)@ + instr_text(*i, ft@));
        },
        SsaInstruction::ConstBool { dest: f_dest, value: f_value, .. } => {
            push_reg(s, *f_dest);
            push_str(s, " = ");
            push_str(s, bool_str(*f_value));
            assert(s@ =~= old(s)@ + instr_text(*i, ft@));
        },
        _ => {},
    }
}

#[verifier::spinoff_prover]
#[verifier::rlimit(40)]
fn push_instr_2(s: &mut String, i: &SsaInstruction, ft: &str)
    requires
        instr_group(*i) == 2,
    ensures
        final(s)@ == old(s)@ + instr_text(*i, ft@),
{
    match i {
        SsaInstruction::ConstString { dest: f_dest, value: f_value, .. } => {
            push_reg(s, *f_dest);
            push_str(s, " = ");
            push_str_debug(s, f_value.as_str());
            assert(s@ =~= old(s)@ + instr_text(*i, ft@));
        },
        SsaInstruction::ConstNull { dest: f_dest, .. } => {
            push_reg(s, *f_dest);
            push_str(s, " = null");
            assert(s@ =~= old(s)@ + instr_text(*i, ft@));
        },
        SsaInstruction::Move { dest: f_dest, src: f_src, .. } => {
            push_reg(s, *f_dest);
            push_str(s, " = ");
            push_reg(s, *f_src);
            assert(s@ =~= old(s)@ + instr_text(*i, ft@));
        },
        SsaInstruction::Consume { src: f_src, .. } => {
            push_str(s, "Consume ");
            push_reg(s, *f_src);
            assert(s@ =~= old(s)@ + instr_text(*i, ft@));
        },
        SsaInstruction::ConsumeField { field: f_field, src: f_src, .. } => {
            push_str(s, "ConsumeField ");
            push_reg(s, *f_src);
            push_str(s, ".");
            push_str(s, f_field.as_str());
            assert(s@ =~= old(s)@ + instr_text(*i, ft@));
        },
        _ => {},
    }
}

#[verifier::spinoff_prover]
#[verifier::rlimit(40)]
fn push_instr_3(s: &mut String, i: &SsaInstruction, ft: &str)
    requires
        instr_group(*i) == 3,
    ensures
        final(s)@ == old(s)@ + instr_text(*i, ft@),
{
    match i {
        SsaInstruction::ConsumeFieldDynamic { index: f_index, target: f_target, .. } => {
            push_str(s, "ConsumeFieldDynamic ");
            push_reg(s, *f_target);
            push_str(s, "[");
            push_reg(s, *f_index);
            push_str(s, "]");
            assert(s@ =~= old(s)@ + instr_text(*i, ft@));
        },
        SsaInstruction::Clone { dest: f_dest, src: f_src, .. } => {
            push_reg(s, *f_dest);
            push_str(s, " = Clone ");
            push_reg(s, *f_src);
            assert(s@ =~= old(s)@ + instr_text(*i, ft@));
        },
        SsaInstruction::StrBytes { dest: f_dest, src: f_src, .. } => {
            push_reg(s, *f_dest);
            push_str(s, " = StrBytes ");
            push_reg(s, *f_src);
            assert(s@ =~= old(s)@ + instr_text(*i, ft@));
        },
        SsaInstruction::ToStr { dest: f_dest, src: f_src, .. } => {
            push_reg(s, *f_dest);
            push_str(s, " = ToStr ");
            push_reg(s, *f_src);
            assert(s@ =~= old(s)@ + instr_text(*i, ft@));
        },
        SsaInstruction::ConditionalSelect { cond: f_cond, dest: f_dest, false_val: f_false_val, true_val: f_true_val, .. } => {
            push_reg(s, *f_dest);
            push_str(s, " = ");
            push_reg(s, *f_cond);
            push_str(s, " ? ");
            push_reg(s, *f_true_val);
            push_str(s, " : ");
            push_reg(s, *f_false_val);
            assert(s@ =~= old(s)@ + instr_text(*i, ft@));
        },
        _ => {},
    }
}

#[verifier::spinoff_prover]
#[verifier::rlimit(40)]
fn push_instr_4(s: &mut String, i: &SsaInstruction, ft: &str)
    requires
        instr_group(*i) == 4,
    ensures
        final(s)@ == old(s)@ + instr_text(*i, ft@),
{
    match i {
        SsaInstruction::Call { args: f_args, dest: f_dest, routine: f_routine, .. } => {
            push_reg(s, *f_dest);
            push_str(s, " = Call ");
            push_str(s, f_routine.as_str());
            push_str(s, "(");
            push_regs(s, f_args);
            push_str(s, ")");
            assert(s@ =~= old(s)@ + instr_text(*i, ft@));
        },
        SsaInstruction::DynamicCall { args: f_args, budget: f_budget, dest: f_dest, method: f_method, .. } => {
            push_reg(s, *f_dest);
            push_str(s, " = DynamicCall ");
            push_str(s, f_method.as_str());
            push_str(s, "(");
            push_regs(s, f_args);
            push_str(s, ")");
            match f_budget { Some(b) => { push_str(s, " [budget: "); push_decimal(s, *b as u64); push_str(s, "ms]"); }, None => {} }
            assert(s@ =~= old(s)@ + instr_text(*i, ft@));
        },
        SsaInstruction::TypeAssert { dest: f_dest, src: f_src, type_label: f_type_label, .. } => {
            push_reg(s, *f_dest);
            push_str(s, " = ");
            push_reg(s, *f_src);
            push_str(s, " as ");
            push_str(s, f_type_label.as_str());
            assert(s@ =~= old(s)@ + instr_text(*i, ft@));
        },
        SsaInstruction::TypeCast { dest: f_dest, src: f_src, target_type: f_target_type, .. } => {
            push_reg(s, *f_dest);
            push_str(s, " = ");
            push_reg(s, *f_src);
            push_str(s, " as ");
            push_str(s, f_target_type.text.as_str());
            assert(s@ =~= old(s)@ + instr_text(*i, ft@));
        },
        SsaInstruction::AssertState { src: f_src, state: f_state, .. } => {
            push_str(s, "AssertState ");
            push_reg(s, *f_src);
            push_str(s, " is ");
            push_str(s, f_state.as_str());
            assert(s@ =~= old(s)@ + instr_text(*i, ft@));
        },
        _ => {},
    }
}

#[verifier::spinoff_prover]
#[verifier::rlimit(40)]
fn push_instr_5(s: &mut String, i: &SsaInstruction, ft: &str)
    requires
        instr_group(*i) == 5,
    ensures
        final(s)@ == old(s)@ + instr_text(*i, ft@),
{
    match i {
        SsaInstruction::TryTypeAssert { dest: f_dest, src: f_src, success: f_success, type_label: f_type_label, .. } => {
            push_reg(s, *f_dest);
            push_str(s, ", ");
            push_reg(s, *f_success);
            push_str(s, " = TryTypeAssert ");
            push_reg(s, *f_src);
            push_str(s, " as ");
            push_str(s, f_type_label.as_str());
            assert(s@ =~= old(s)@ + instr_text(*i, ft@));
        },
        SsaInstruction::TryEnumVariant { dest: f_dest, enum_name: f_enum_name, src: f_src, success: f_success, variant_name: f_variant_name, .. } => {
            push_reg(s, *f_dest);
            push_str(s, ", ");
            push_reg(s, *f_success);
            push_str(s, " = TryEnumVariant ");
            push_reg(s, *f_src);
            push_str(s, " as ");
            match f_enum_name { Some(e) => { push_str(s, e.as_str()); push_str(s, "::"); }, None => {} }
            push_str(s, f_variant_name.as_str());
            assert(s@ =~= old(s)@ + instr_text(*i, ft@));
        },
        SsaInstruction::Print { src: f_src, .. } => {
            push_str(s, "Print ");
            push_reg(s, *f_src);
            assert(s@ =~= old(s)@ + instr_text(*i, ft@));
        },
        SsaInstruction::Debug { src: f_src, .. } => {
            push_str(s, "Debug ");
            push_reg(s, *f_src);
            assert(s@ =~= old(s)@ + instr_text(*i, ft@));
        },
        SsaInstruction::Slice { ms: f_ms, .. } => {
            push_str(s, "Slice ");
            push_decimal(s, *f_ms as u64);
            push_str(s, "ms");
            assert(s@ =~= old(s)@ + instr_text(*i, ft@));
        },
        _ => {},
    }
}

#[verifier::spinoff_prover]
#[verifier::rlimit(40)]
fn push_instr_6(s: &mut String, i: &SsaInstruction, ft: &str)
    requires
        instr_group(*i) == 6,
    ensures
        final(s)@ == old(s)@ + instr_text(*i, ft@),
{
    match i {
        SsaInstruction::Isolate { manifest: f_manifest, name: f_name, .. } => {
            push_str(s, "Isolate ");
            push_str(s, f_name.as_str());
            push_str(s, " ");
            push_str(s, f_manifest.text.as_str());
            assert(s@ =~= old(s)@ + instr_text(*i, ft@));
        },
        SsaInstruction::EndIsolate => {
            push_str(s, "EndIsolate");
            assert(s@ =~= old(s)@ + instr_text(*i, ft@));
        },
        SsaInstruction::Lease { duration_ms: f_duration_ms, source_reg: f_source_reg, target_reg: f_target_reg, .. } => {
            push_reg(s, *f_target_reg);
            push_str(s, " = Lease ");
            push_reg(s, *f_source_reg);
            push_str(s, " for ");
            push_decimal(s, *f_duration_ms as u64);
            push_str(s, "ms");
            assert(s@ =~= old(s)@ + instr_text(*i, ft@));
        },
        SsaInstruction::EndLease { duration_ms: f_duration_ms, source_reg: f_source_reg, .. } => {
            push_str(s, "EndLease ");
            push_reg(s, *f_source_reg);
            push_str(s, " for ");
            push_decimal(s, *f_duration_ms as u64);
            push_str(s, "ms");
            assert(s@ =~= old(s)@ + instr_text(*i, ft@));
        },
        SsaInstruction::Split { branches: f_branches, parent: f_parent, .. } => {
            push_str(s, "Split ");
            push_str(s, f_parent.as_str());
            push_str(s, " into ");
            push_strs_debug(s, f_branches);
            assert(s@ =~= old(s)@ + instr_text(*i, ft@));
        },
        _ => {},
    }
}

#[verifier::spinoff_prover]
#[verifier::rlimit(40)]
fn push_instr_7(s: &mut String, i: &SsaInstruction, ft: &str)
    requires
        instr_group(*i) == 7,
    ensures
        final(s)@ == old(s)@ + instr_text(*i, ft@),
{
    match i {
        SsaInstruction::Merge { branches: f_branches, resolution: f_resolution, target: f_target, .. } => {
            push_str(s, "Merge ");
            push_strs_debug(s, f_branches);
            push_str(s, " into ");
            push_str(s, f_target.as_str());
            push_str(s, " ");
            push_str(s, f_resolution.text.as_str());
            assert(s@ =~= old(s)@ + instr_text(*i, ft@));
        },
        SsaInstruction::Entangle { regs: f_regs, .. } => {
            push_str(s, "Entangle [");
            push_regs(s, f_regs);
            push_str(s, "]");
            assert(s@ =~= old(s)@ + instr_text(*i, ft@));
        },
        SsaInstruction::SetEntropyMode { mode: f_mode, .. } => {
            push_str(s, "SetEntropyMode ");
            push_str(s, entropy_mode_str(*f_mode));
            assert(s@ =~= old(s)@ + instr_text(*i, ft@));
        },
        SsaInstruction::Anchor { name: f_name, .. } => {
            push_str(s, "Anchor ");
            push_str(s, f_name.as_str());
            assert(s@ =~= old(s)@ + instr_text(*i, ft@));
        },
        SsaInstruction::Rewind { anchor: f_anchor, target: f_target, .. } => {
            push_str(s, "Rewind ");
            push_str(s, f_target.as_str());
            push_str(s, " to ");
            push_str(s, f_anchor.as_str());
            assert(s@ =~= old(s)@ + instr_text(*i, ft@));
        },
        _ => {},
    }
}

#[verifier::spinoff_prover]
#[verifier::rlimit(40)]
fn push_instr_8(s: &mut String, i: &SsaInstruction, ft: &str)
    requires
        instr_group(*i) == 8,
    ensures
        final(s)@ == old(s)@ + instr_text(*i, ft@),
{
    match i {
        SsaInstruction::Commit { vars: f_vars, .. } => {
            push_str(s, "Commit ");
            push_strs_debug(s, f_vars);
            assert(s@ =~= old(s)@ + instr_text(*i, ft@));
        },
        SsaInstruction::Watchdog { target: f_target, timeout_ms: f_timeout_ms, .. } => {
            push_str(s, "Watchdog ");
            push_str(s, f_target.as_str());
            push_str(s, " ");
            push_decimal(s, *f_timeout_ms as u64);
            push_str(s, "ms");
            assert(s@ =~= old(s)@ + instr_text(*i, ft@));
        },
        SsaInstruction::Speculate { max_ms: f_max_ms, .. } => {
            push_str(s, "Speculate ");
            push_decimal(s, *f_max_ms as u64);
            push_str(s, "ms");
            assert(s@ =~= old(s)@ + instr_text(*i, ft@));
        },
        SsaInstruction::EndSpeculate { max_ms: f_max_ms, .. } => {
            push_str(s, "EndSpeculate ");
            push_decimal(s, *f_max_ms as u64);
            push_str(s, "ms");
            assert(s@ =~= old(s)@ + instr_text(*i, ft@));
        },
        SsaInstruction::Collapse => {
            push_str(s, "Collapse");
            assert(s@ =~= old(s)@ + instr_text(*i, ft@));
        },
        _ => {},
    }
}

#[verifier::spinoff_prover]
#[verifier::rlimit(40)]
fn push_instr_9(s: &mut String, i: &SsaInstruction, ft: &str)
    requires
        instr_group(*i) == 9,
    ensures
        final(s)@ == old(s)@ + instr_text(*i, ft@),
{
    match i {
        SsaInstruction::Select { cases: f_cases, max_ms: f_max_ms, .. } => {
            push_str(s, "Select (max ");
            push_decimal(s, *f_max_ms as u64);
            push_str(s, "ms) [ ");
            push_cases(s, f_cases);
            push_str(s, " ]");
            assert(s@ =~= old(s)@ + instr_text(*i, ft@));
        },
        SsaInstruction::MatchEntropy { target: f_target, .. } => {
            push_str(s, "MatchEntropy ");
            push_reg(s, *f_target);
            assert(s@ =~= old(s)@ + instr_text(*i, ft@));
        },
        SsaInstruction::RelativisticBlock { block_len: f_block_len, block_pc: f_block_pc, target: f_target, .. } => {
            push_str(s, "RelativisticBlock ");
            push_str(s, f_target.as_str());
            push_str(s, " pc: ");
            push_decimal(s, *f_block_pc as u64);
            push_str(s, " len: ");
            push_decimal(s, *f_block_len as u64);
            assert(s@ =~= old(s)@ + instr_text(*i, ft@));
        },
        SsaInstruction::SpeculationMode { mode: f_mode, .. } => {
            push_str(s, "SpeculationMode ");
            push_str(s, commit_mode_str(*f_mode));
            assert(s@ =~= old(s)@ + instr_text(*i, ft@));
        },
        SsaInstruction::OpenChan { capacity: f_capacity, name: f_name, .. } => {
            push_str(s, "OpenChan ");
            push_str(s, f_name.as_str());
            push_str(s, "(");
            push_decimal(s, *f_capacity as u64);
            push_str(s, ")");
            assert(s@ =~= old(s)@ + instr_text(*i, ft@));
        },
        _ => {},
    }
}

#[verifier::spinoff_prover]
#[verifier::rlimit(40)]
fn push_instr_10(s: &mut String, i: &SsaInstruction, ft: &str)
    requires
        instr_group(*i) == 10,
    ensures
        final(s)@ == old(s)@ + instr_text(*i, ft@),
{
    match i {
        SsaInstruction::ChanSend { chan_id: f_chan_id, src: f_src, .. } => {
            push_str(s, "ChanSend ");
            push_str(s, f_chan_id.as_str());
            push_str(s, ", ");
            push_reg(s, *f_src);
            assert(s@ =~= old(s)@ + instr_text(*i, ft@));
        },
        SsaInstruction::ChanRecv { chan_id: f_chan_id, dest: f_dest, .. } => {
            push_reg(s, *f_dest);
            push_str(s, " = ChanRecv ");
            push_str(s, f_chan_id.as_str());
            assert(s@ =~= old(s)@ + instr_text(*i, ft@));
        },
        SsaInstruction::AwaitChan { chan_id: f_chan_id, .. } => {
            push_str(s, "AwaitChan ");
            push_str(s, f_chan_id.as_str());
            assert(s@ =~= old(s)@ + instr_text(*i, ft@));
        },
        SsaInstruction::StructLit { dest: f_dest, fields: f_fields, .. } => {
            push_reg(s, *f_dest);
            push_str(s, " = StructLit { ");
            push_fields(s, f_fields);
            push_str(s, " }");
            assert(s@ =~= old(s)@ + instr_text(*i, ft@));
        },
        SsaInstruction::TopologyLit { dest: f_dest, fields: f_fields, .. } => {
            push_reg(s, *f_dest);
            push_str(s, " = TopologyLit { ");
            push_fields(s, f_fields);
            push_str(s, " }");
            assert(s@ =~= old(s)@ + instr_text(*i, ft@));
        },
        _ => {},
    }
}

#[verifier::spinoff_prover]
#[verifier::rlimit(40)]
fn push_instr_11(s: &mut String, i: &SsaInstruction, ft: &str)
    requires
        instr_group(*i) == 11,
    ensures
        final(s)@ == old(s)@ + instr_text(*i, ft@),
{
    match i {
        SsaInstruction::ArrayLit { dest: f_dest, elements: f_elements, .. } => {
            push_reg(s, *f_dest);
            push_str(s, " = [ ");
            push_regs(s, f_elements);
            push_str(s, " ]");
            assert(s@ =~= old(s)@ + instr_text(*i, ft@));
        },
        SsaInstruction::ArrayRepeat { count: f_count, dest: f_dest, value: f_value, .. } => {
            push_reg(s, *f_dest);
            push_str(s, " = [ ");
            push_reg(s, *f_value);
            push_str(s, "; ");
            push_reg(s, *f_count);
            push_str(s, " ]");
            assert(s@ =~= old(s)@ + instr_text(*i, ft@));
        },
        SsaInstruction::ArraySlice { dest: f_dest, end: f_end, inclusive: f_inclusive, start: f_start, target: f_target, .. } => {
            push_reg(s, *f_dest);
            push_str(s, " = ");
            push_reg(s, *f_target);
            push_str(s, "[");
            push_opt_reg(s, *f_start);
            if *f_inclusive { push_str(s, "..="); } else { push_str(s, ".."); }
            push_opt_reg(s, *f_end);
            push_str(s, "]");
            assert(s@ =~= old(s)@ + instr_text(*i, ft@));
        },
        SsaInstruction::FieldAccess { dest: f_dest, field: f_field, target: f_target, .. } => {
            push_reg(s, *f_dest);
            push_str(s, " = ");
            push_reg(s, *f_target);
            push_str(s, ".");
            push_str(s, f_field.as_str());
            assert(s@ =~= old(s)@ + instr_text(*i, ft@));
        },
        SsaInstruction::FieldUpdate { field: f_field, old_target: f_old_target, src: f_src, target: f_target, .. } => {
            push_reg(s, *f_target);
            push_str(s, " = ");
            push_reg(s, *f_old_target);
            push_str(s, ".");
            push_str(s, f_field.as_str());
            push_str(s, " <- ");
            push_reg(s, *f_src);
            assert(s@ =~= old(s)@ + instr_text(*i, ft@));
        },
        _ => {},
    }
}

#[verifier::spinoff_prover]
#[verifier::rlimit(40)]
fn push_instr_12(s: &mut String, i: &SsaInstruction, ft: &str)
    requires
        instr_group(*i) == 12,
    ensures
        final(s)@ == old(s)@ + instr_text(*i, ft@),
{
    match i {
        SsaInstruction::IndexAccess { dest: f_dest, index: f_index, target: f_target, .. } => {
            push_reg(s, *f_dest);
            push_str(s, " = ");
            push_reg(s, *f_target);
            push_str(s, "[");
            push_reg(s, *f_index);
            push_str(s, "]");
            assert(s@ =~= old(s)@ + instr_text(*i, ft@));
        },
        SsaInstruction::IndexFieldUpdate { field: f_field, index: f_index, old_target: f_old_target, src: f_src, target: f_target, .. } => {
            push_reg(s, *f_target);
            push_str(s, " = ");
            push_reg(s, *f_old_target);
            push_str(s, "[");
            push_reg(s, *f_index);
            push_str(s, "].");
            push_str(s, f_field.as_str());
            push_str(s, " <- ");
            push_reg(s, *f_src);
            assert(s@ =~= old(s)@ + instr_text(*i, ft@));
        },
        SsaInstruction::AssertTime { limit_ms: f_limit_ms, op: f_op, .. } => {
            push_str(s, "AssertTime ");
            push_str(s, binop_str(*f_op));
            push_str(s, " ");
            push_decimal(s, *f_limit_ms as u64);
            push_str(s, "ms");
            assert(s@ =~= old(s)@ + instr_text(*i, ft@));
        },
        SsaInstruction::Capability { cap: f_cap, .. } => {
            push_str(s, "Capability ");
            push_str(s, f_cap.text.as_str());
            assert(s@ =~= old(s)@ + instr_text(*i, ft@));
        },
        SsaInstruction::For { dest_cond: f_dest_cond, item_reg: f_item_reg, mode: f_mode, source: f_source, .. } => {
            push_str(s, "For ");
            push_reg(s, *f_dest_cond);
            push_str(s, ", ");
            push_reg(s, *f_item_reg);
            push_str(s, " in ");
            push_reg(s, *f_source);
            push_str(s, " (mode: ");
            push_str(s, param_mode_str(*f_mode));
            push_str(s, ")");
            assert(s@ =~= old(s)@ + instr_text(*i, ft@));
        },
        _ => {},
    }
}

#[verifier::spinoff_prover]
#[verifier::rlimit(40)]
fn push_instr_13(s: &mut String, i: &SsaInstruction, ft: &str)
    requires
        instr_group(*i) == 13,
    ensures
        final(s)@ == old(s)@ + instr_text(*i, ft@),
{
    match i {
        SsaInstruction::EndFor => {
            push_str(s, "EndFor");
            assert(s@ =~= old(s)@ + instr_text(*i, ft@));
        },
        SsaInstruction::SplitMap { item_reg: f_item_reg, mode: f_mode, source: f_source, .. } => {
            push_str(s, "SplitMap ");
            push_reg(s, *f_item_reg);
            push_str(s, " in ");
            push_reg(s, *f_source);
            push_str(s, " (mode: ");
            push_str(s, param_mode_str(*f_mode));
            push_str(s, ")");
            assert(s@ =~= old(s)@ + instr_text(*i, ft@));
        },
        SsaInstruction::EndSplitMap => {
            push_str(s, "EndSplitMap");
            assert(s@ =~= old(s)@ + instr_text(*i, ft@));
        },
        SsaInstruction::Defer { cap: f_cap, deadline_ms: f_deadline_ms, dest: f_dest, .. } => {
            push_reg(s, *f_dest);
            push_str(s, " = Defer ");
            push_str(s, f_cap.text.as_str());
            push_str(s, " deadline: ");
            push_decimal(s, *f_deadline_ms as u64);
            push_str(s, "ms");
            assert(s@ =~= old(s)@ + instr_text(*i, ft@));
        },
        SsaInstruction::Await { target: f_target, .. } => {
            push_str(s, "Await ");
            push_reg(s, *f_target);
            assert(s@ =~= old(s)@ + instr_text(*i, ft@));
        },
        _ => {},
    }
}

#[verifier::spinoff_prover]
#[verifier::rlimit(40)]
fn push_instr_14(s: &mut String, i: &SsaInstruction, ft: &str)
    requires
        instr_group(*i) == 14,
    ensures
        final(s)@ == old(s)@ + instr_text(*i, ft@),
{
    match i {
        SsaInstruction::Loop { max_ms: f_max_ms, .. } => {
            push_str(s, "Loop ");
            push_decimal(s, *f_max_ms as u64);
            push_str(s, "ms");
            assert(s@ =~= old(s)@ + instr_text(*i, ft@));
        },
        SsaInstruction::EndLoop { max_ms: f_max_ms, .. } => {
            push_str(s, "EndLoop ");
            push_decimal(s, *f_max_ms as u64);
            push_str(s, "ms");
            assert(s@ =~= old(s)@ + instr_text(*i, ft@));
        },
        SsaInstruction::Break => {
            push_str(s, "Break");
            assert(s@ =~= old(s)@ + instr_text(*i, ft@));
        },
        SsaInstruction::LoopTick => {
            push_str(s, "LoopTick");
            assert(s@ =~= old(s)@ + instr_text(*i, ft@));
        },
        SsaInstruction::EndLoopTick => {
            push_str(s, "EndLoopTick");
            assert(s@ =~= old(s)@ + instr_text(*i, ft@));
        },
        _ => {},
    }
}

#[verifier::spinoff_prover]
#[verifier::rlimit(40)]
fn push_instr_15(s: &mut String, i: &SsaInstruction, ft: &str)
    requires
        instr_group(*i) == 15,
    ensures
        final(s)@ == old(s)@ + instr_text(*i, ft@),
{
    match i {
        SsaInstruction::Jump { target: f_target, .. } => {
            push_str(s, "Jump Block ");
            push_decimal(s, *f_target as u64);
            assert(s@ =~= old(s)@ + instr_text(*i, ft@));
        },
        SsaInstruction::JumpIf { cond: f_cond, target: f_target, .. } => {
            push_str(s, "JumpIf ");
            push_reg(s, *f_cond);
            push_str(s, " to Block ");
            push_decimal(s, *f_target as u64);
            assert(s@ =~= old(s)@ + instr_text(*i, ft@));
        },
        SsaInstruction::JumpIfNot { cond: f_cond, target: f_target, .. } => {
            push_str(s, "JumpIfNot ");
            push_reg(s, *f_cond);
            push_str(s, " to Block ");
            push_decimal(s, *f_target as u64);
            assert(s@ =~= old(s)@ + instr_text(*i, ft@));
        },
        SsaInstruction::While { max_ms: f_max_ms, .. } => {
            push_str(s, "While ");
            push_decimal(s, *f_max_ms as u64);
            push_str(s, "ms");
            assert(s@ =~= old(s)@ + instr_text(*i, ft@));
        },
        SsaInstruction::EndWhile { max_ms: f_max_ms, .. } => {
            push_str(s, "EndWhile ");
            push_decimal(s, *f_max_ms as u64);
            push_str(s, "ms");
            assert(s@ =~= old(s)@ + instr_text(*i, ft@));
        },
        _ => {},
    }
}

#[verifier::spinoff_prover]
#[verifier::rlimit(40)]
fn push_instr_16(s: &mut String, i: &SsaInstruction, ft: &str)
    requires
        instr_group(*i) == 16,
    ensures
        final(s)@ == old(s)@ + instr_text(*i, ft@),
{
    match i {
        SsaInstruction::ForStep { dest_cond: f_dest_cond, item_reg: f_item_reg, source: f_source, step_ms: f_step_ms, .. } => {
            push_str(s, "ForStep ");
            push_reg(s, *f_dest_cond);
            push_str(s, ", ");
            push_reg(s, *f_item_reg);
            push_str(s, " in ");
            push_reg(s, *f_source);
            match f_step_ms { Some(b) => { push_str(s, " step "); push_decimal(s, *b as u64); push_str(s, "ms"); }, None => {} }
            assert(s@ =~= old(s)@ + instr_text(*i, ft@));
        },
        SsaInstruction::EndForStep => {
            push_str(s, "EndForStep");
            assert(s@ =~= old(s)@ + instr_text(*i, ft@));
        },
        SsaInstruction::ArrayLen { dest: f_dest, src: f_src, .. } => {
            push_reg(s, *f_dest);
            push_str(s, " = ArrayLen ");
            push_reg(s, *f_src);
            assert(s@ =~= old(s)@ + instr_text(*i, ft@));
        },
        SsaInstruction::LoopTickOn { chan_id: f_chan_id, .. } => {
            push_str(s, "LoopTickOn ");
            push_str(s, f_chan_id.as_str());
            assert(s@ =~= old(s)@ + instr_text(*i, ft@));
        },
        SsaInstruction::Syscall { args: f_args, dest: f_dest, target: f_target, .. } => {
            push_reg(s, *f_dest);
            push_str(s, " = syscall(");
            push_str(s, f_target.text.as_str());
            push_str(s, ", ");
            push_regs_debug(s, f_args);
            push_str(s, ")");
            assert(s@ =~= old(s)@ + instr_text(*i, ft@));
        },
        _ => {},
    }
}

#[verifier::spinoff_prover]
#[verifier::rlimit(40)]
fn push_instr_17(s: &mut String, i: &SsaInstruction, ft: &str)
    requires
        instr_group(*i) == 17,
    ensures
        final(s)@ == old(s)@ + instr_text(*i, ft@),
{
    match i {
        SsaInstruction::AutoDrop { spec: f_spec, target: f_target, .. } => {
            push_str(s, "AutoDrop ");
            push_reg(s, *f_target);
            push_str(s, " (");
            push_str(s, f_spec.text.as_str());
            push_str(s, ")");
            assert(s@ =~= old(s)@ + instr_text(*i, ft@));
        },
        SsaInstruction::SetSaturationPolicy { policy: f_policy, target: f_target, .. } => {
            push_str(s, "SetSaturationPolicy ");
            push_str(s, f_target.text.as_str());
            push_str(s, " ");
            push_str(s, f_policy.text.as_str());
            assert(s@ =~= old(s)@ + instr_text(*i, ft@));
        },
        SsaInstruction::PeriodicEpoch { block_len: f_block_len, block_pc: f_block_pc, interval_ms: f_interval_ms, .. } => {
            push_str(s, "PeriodicEpoch ");
            push_decimal(s, *f_interval_ms as u64);
            push_str(s, "ms pc: ");
            push_decimal(s, *f_block_pc as u64);
            push_str(s, " len: ");
            push_decimal(s, *f_block_len as u64);
            assert(s@ =~= old(s)@ + instr_text(*i, ft@));
        },
        SsaInstruction::EndPeriodicEpoch { interval_ms: f_interval_ms, .. } => {
            push_str(s, "EndPeriodicEpoch ");
            push_decimal(s, *f_interval_ms as u64);
            push_str(s, "ms");
            assert(s@ =~= old(s)@ + instr_text(*i, ft@));
        },
        SsaInstruction::FreezeBaseWatermark => {
            push_str(s, "FreezeBaseWatermark");
            assert(s@ =~= old(s)@ + instr_text(*i, ft@));
        },
        _ => {},
    }
}

#[verifier::spinoff_prover]
#[verifier::rlimit(40)]
fn push_instr_18(s: &mut String, i: &SsaInstruction, ft: &str)
    requires
        instr_group(*i) == 18,
    ensures
        final(s)@ == old(s)@ + instr_text(*i, ft@),
{
    match i {
        SsaInstruction::ResetBaseWatermark => {
            push_str(s, "ResetBaseWatermark");
            assert(s@ =~= old(s)@ + instr_text(*i, ft@));
        },
        SsaInstruction::ArenaIntrospect { dest: f_dest, kind: f_kind, .. } => {
            push_reg(s, *f_dest);
            push_str(s, " = ArenaIntrospect ");
            push_str(s, f_kind.text.as_str());
            assert(s@ =~= old(s)@ + instr_text(*i, ft@));
        },
        SsaInstruction::CapabilityCheck { capability: f_capability, dest: f_dest, .. } => {
            push_reg(s, *f_dest);
            push_str(s, " = CapabilityCheck ");
            push_str(s, f_capability.text.as_str());
            assert(s@ =~= old(s)@ + instr_text(*i, ft@));
        },
        _ => {},
    }
}

/// Appends the text of an instruction.
pub fn push_instr(s: &mut String, i: &SsaInstruction, ft: &str)
    ensures
        final(s)@ == old(s)@ + instr_text(*i, ft@),
{
    match i {
        SsaInstruction::Other(t) => {
            push_str(s, t.as_str());
        },
        _ => {
            if instr_group_of(i) == 0 {
                push_instr_0(s, i, ft);
            } else if instr_group_of(i) == 1 {
                push_instr_1(s, i, ft);
            } else if instr_group_of(i) == 2 {
                push_instr_2(s, i, ft);
            } else if instr_group_of(i) == 3 {
                push_instr_3(s, i, ft);
            } else if instr_group_of(i) == 4 {
                push_instr_4(s, i, ft);
            } else if instr_group_of(i) == 5 {
                push_instr_5(s, i, ft);
            } else if instr_group_of(i) == 6 {
                push_instr_6(s, i, ft);
            } else if instr_group_of(i) == 7 {
                push_instr_7(s, i, ft);
            } else if instr_group_of(i) == 8 {
                push_instr_8(s, i, ft);
            } else if instr_group_of(i) == 9 {
                push_instr_9(s, i, ft);
            } else if instr_group_of(i) == 10 {
                push_instr_10(s, i, ft);
            } else if instr_group_of(i) == 11 {
                push_instr_11(s, i, ft);
            } else if instr_group_of(i) == 12 {
                push_instr_12(s, i, ft);
            } else if instr_group_of(i) == 13 {
                push_instr_13(s, i, ft);
            } else if instr_group_of(i) == 14 {
                push_instr_14(s, i, ft);
            } else if instr_group_of(i) == 15 {
                push_instr_15(s, i, ft);
            } else if instr_group_of(i) == 16 {
                push_instr_16(s, i, ft);
            } else if instr_group_of(i) == 17 {
                push_instr_17(s, i, ft);
            } else if instr_group_of(i) == 18 {
                push_instr_18(s, i, ft);
            }
        },
    }
}

fn instr_group_of(i: &SsaInstruction) -> (g: u8)
    ensures
        g == instr_group(*i),
{
    match i {
        SsaInstruction::BinaryOp { .. } => 0,
        SsaInstruction::UnaryOp { .. } => 0,
        SsaInstruction::LoadInt { .. } => 0,
        SsaInstruction::LoadFloat { .. } => 0,
        SsaInstruction::LoadBool { .. } => 0,
        SsaInstruction::LoadString { .. } => 1,
        SsaInstruction::LoadNull { .. } => 1,
        SsaInstruction::ConstInt { .. } => 1,
        SsaInstruction::ConstFloat { .. } => 1,
        SsaInstruction::ConstBool { .. } => 1,
        SsaInstruction::ConstString { .. } => 2,
        SsaInstruction::ConstNull { .. } => 2,
        SsaInstruction::Move { .. } => 2,
        SsaInstruction::Consume { .. } => 2,
        SsaInstruction::ConsumeField { .. } => 2,
        SsaInstruction::ConsumeFieldDynamic { .. } => 3,
        SsaInstruction::Clone { .. } => 3,
        SsaInstruction::StrBytes { .. } => 3,
        SsaInstruction::ToStr { .. } => 3,
        SsaInstruction::ConditionalSelect { .. } => 3,
        SsaInstruction::Call { .. } => 4,
        SsaInstruction::DynamicCall { .. } => 4,
        SsaInstruction::TypeAssert { .. } => 4,
        SsaInstruction::TypeCast { .. } => 4,
        SsaInstruction::AssertState { .. } => 4,
        SsaInstruction::TryTypeAssert { .. } => 5,
        SsaInstruction::TryEnumVariant { .. } => 5,
        SsaInstruction::Print { .. } => 5,
        SsaInstruction::Debug { .. } => 5,
        SsaInstruction::Slice { .. } => 5,
        SsaInstruction::Isolate { .. } => 6,
        SsaInstruction::EndIsolate => 6,
        SsaInstruction::Lease { .. } => 6,
        SsaInstruction::EndLease { .. } => 6,
        SsaInstruction::Split { .. } => 6,
        SsaInstruction::Merge { .. } => 7,
        SsaInstruction::Entangle { .. } => 7,
        SsaInstruction::SetEntropyMode { .. } => 7,
        SsaInstruction::Anchor { .. } => 7,
        SsaInstruction::Rewind { .. } => 7,
        SsaInstruction::Commit { .. } => 8,
        SsaInstruction::Watchdog { .. } => 8,
        SsaInstruction::Speculate { .. } => 8,
        SsaInstruction::EndSpeculate { .. } => 8,
        SsaInstruction::Collapse => 8,
        SsaInstruction::Select { .. } => 9,
        SsaInstruction::MatchEntropy { .. } => 9,
        SsaInstruction::RelativisticBlock { .. } => 9,
        SsaInstruction::SpeculationMode { .. } => 9,
        SsaInstruction::OpenChan { .. } => 9,
        SsaInstruction::ChanSend { .. } => 10,
        SsaInstruction::ChanRecv { .. } => 10,
        SsaInstruction::AwaitChan { .. } => 10,
        SsaInstruction::StructLit { .. } => 10,
        SsaInstruction::TopologyLit { .. } => 10,
        SsaInstruction::ArrayLit { .. } => 11,
        SsaInstruction::ArrayRepeat { .. } => 11,
        SsaInstruction::ArraySlice { .. } => 11,
        SsaInstruction::FieldAccess { .. } => 11,
        SsaInstruction::FieldUpdate { .. } => 11,
        SsaInstruction::IndexAccess { .. } => 12,
        SsaInstruction::IndexFieldUpdate { .. } => 12,
        SsaInstruction::AssertTime { .. } => 12,
        SsaInstruction::Capability { .. } => 12,
        SsaInstruction::For { .. } => 12,
        SsaInstruction::EndFor => 13,
        SsaInstruction::SplitMap { .. } => 13,
        SsaInstruction::EndSplitMap => 13,
        SsaInstruction::Defer { .. } => 13,
        SsaInstruction::Await { .. } => 13,
        SsaInstruction::Loop { .. } => 14,
        SsaInstruction::EndLoop { .. } => 14,
        SsaInstruction::Break => 14,
        SsaInstruction::LoopTick => 14,
        SsaInstruction::EndLoopTick => 14,
        SsaInstruction::Jump { .. } => 15,
        SsaInstruction::JumpIf { .. } => 15,
        SsaInstruction::JumpIfNot { .. } => 15,
        SsaInstruction::While { .. } => 15,
        SsaInstruction::EndWhile { .. } => 15,
        SsaInstruction::ForStep { .. } => 16,
        SsaInstruction::EndForStep => 16,
        SsaInstruction::ArrayLen { .. } => 16,
        SsaInstruction::LoopTickOn { .. } => 16,
        SsaInstruction::Syscall { .. } => 16,
        SsaInstruction::AutoDrop { .. } => 17,
        SsaInstruction::SetSaturationPolicy { .. } => 17,
        SsaInstruction::PeriodicEpoch { .. } => 17,
        SsaInstruction::EndPeriodicEpoch { .. } => 17,
        SsaInstruction::FreezeBaseWatermark => 17,
        SsaInstruction::ResetBaseWatermark => 18,
        SsaInstruction::ArenaIntrospect { .. } => 18,
        SsaInstruction::CapabilityCheck { .. } => 18,
        SsaInstruction::Other(_) => 19,
    }
}

impl SsaInstruction {
    /// The text of the instruction, as the SSA listing shows it. The value of
    /// a float constant is shown as `float_text`, which the caller renders;
    /// other instructions do not use it.
    pub fn display_text(&self, float_text: &str) -> (t: String)
        ensures
            t@ == instr_text(*self, float_text@),
    {
        let mut t = String::new();
        push_instr(&mut t, self, float_text);
        assert(t@ =~= instr_text(*self, float_text@));
        t
    }
}


/// `<reg> from Block <b>`, one incoming value of a phi node.
pub open spec fn incoming_text(x: (BlockId, SsaReg)) -> Seq<char> {
    reg_text(x.1) + " from "@ + block_text(x.0)
}

/// `<dest> = phi [ <incoming>, ... ]`.
pub open spec fn phi_text(p: SsaPhiNode) -> Seq<char> {
    reg_text(p.dest) + " = phi [ "@ + join(p.incoming@.map_values(|x: (BlockId, SsaReg)| incoming_text(x))) + " ]"@
}

/// Appends the text of a phi node.
pub fn push_phi(s: &mut String, p: &SsaPhiNode)
    ensures
        final(s)@ == old(s)@ + phi_text(*p),
{
    let mut parts: Vec<String> = Vec::new();
    let mut k: usize = 0;
    while k < p.incoming.len()
        invariant
            k <= p.incoming@.len(),
            parts@.len() == k,
            forall|q: int| 0 <= q < k ==> #[trigger] parts@[q]@ == incoming_text(p.incoming@[q]),
        decreases p.incoming@.len() - k,
    {
        let mut t = String::new();
        push_reg(&mut t, p.incoming[k].1);
        push_str(&mut t, " from ");
        push_block(&mut t, p.incoming[k].0);
        assert(t@ =~= incoming_text(p.incoming@[k as int]));
        parts.push(t);
        k = k + 1;
    }
    assert(views(parts@) =~= p.incoming@.map_values(|x: (BlockId, SsaReg)| incoming_text(x)));
    push_reg(s, p.dest);
    push_str(s, " = phi [ ");
    push_join(s, &parts);
    push_str(s, " ]");
    assert(s@ =~= old(s)@ + phi_text(*p));
}

/// The lines of the first `k` phi nodes of a block, each behind `pre` and
/// before `post`.
pub open spec fn phi_lines(ps: Seq<SsaPhiNode>, k: int, pre: Seq<char>, post: Seq<char>) -> Seq<char>
    decreases k,
{
    if k <= 0 {
        Seq::empty()
    } else {
        phi_lines(ps, k - 1, pre, post) + pre + phi_text(ps[k - 1]) + post
    }
}

/// The views of a table of strings.
pub open spec fn nested(v: Seq<Vec<String>>) -> Seq<Seq<Seq<char>>> {
    v.map_values(|x: Vec<String>| views(x@))
}

/// A table of float renderings has one entry per instruction of every block.
pub open spec fn shaped(e: Seq<(BlockId, SsaBasicBlock)>, fts: Seq<Seq<Seq<char>>>) -> bool {
    &&& fts.len() == e.len()
    &&& forall|i: int| 0 <= i < e.len() ==> (#[trigger] fts[i]).len() == e[i].1.instructions@.len()
}

/// The listing lines of the first `k` instructions of a block.
pub open spec fn instr_lines(is: Seq<SsaInstruction>, fts: Seq<Seq<char>>, k: int) -> Seq<char>
    decreases k,
{
    if k <= 0 {
        Seq::empty()
    } else {
        instr_lines(is, fts, k - 1) + "    "@ + instr_text(is[k - 1], fts[k - 1]) + "\n"@
    }
}

/// The listing of a block: its id, its phi nodes, its instructions and its
/// terminator, one per line.
pub open spec fn block_listing(id: BlockId, b: SsaBasicBlock, fts: Seq<Seq<char>>) -> Seq<char> {
    "  "@ + block_text(id) + ":\n"@
    + phi_lines(b.phi_nodes@, b.phi_nodes@.len() as int, "    "@, "\n"@)
    + instr_lines(b.instructions@, fts, b.instructions@.len() as int)
    + "    Terminator: "@ + term_text(b.terminator) + "\n"@
}

pub open spec fn blocks_listing(e: Seq<(BlockId, SsaBasicBlock)>, fts: Seq<Seq<Seq<char>>>, i: int) -> Seq<char>
    decreases i,
{
    if i <= 0 {
        Seq::empty()
    } else {
        blocks_listing(e, fts, i - 1) + block_listing(e[i - 1].0, e[i - 1].1, fts[i - 1])
    }
}

/// The listing of an SSA graph, blocks in id order; `fts` holds the
/// renderings of float constants, per block and instruction.
pub open spec fn listing(cfg: SsaCFG, fts: Seq<Seq<Seq<char>>>) -> Seq<char> {
    blocks_listing(cfg.blocks.entries@, fts, cfg.blocks.entries@.len() as int)
}

fn push_phi_lines(s: &mut String, ps: &Vec<SsaPhiNode>, pre: &str, post: &str)
    ensures
        final(s)@ == old(s)@ + phi_lines(ps@, ps@.len() as int, pre@, post@),
{
    let ghost s0 = s@;
    let mut k: usize = 0;
    while k < ps.len()
        invariant
            k <= ps@.len(),
            s@ == s0 + phi_lines(ps@, k as int, pre@, post@),
        decreases ps@.len() - k,
    {
        push_str(s, pre);
        push_phi(s, &ps[k]);
        push_str(s, post);
        k = k + 1;
        assert(s@ =~= s0 + phi_lines(ps@, k as int, pre@, post@));
    }
}

fn push_block_listing(s: &mut String, id: BlockId, b: &SsaBasicBlock, fts: &Vec<String>)
    requires
        fts@.len() == b.instructions@.len(),
    ensures
        final(s)@ == old(s)@ + block_listing(id, *b, views(fts@)),
{
    let ghost s0 = s@;
    push_str(s, "  ");
    push_block(s, id);
    push_str(s, ":\n");
    push_phi_lines(s, &b.phi_nodes, "    ", "\n");
    let ghost s1 = s@;
    let mut k: usize = 0;
    while k < b.instructions.len()
        invariant
            k <= b.instructions@.len(),
            fts@.len() == b.instructions@.len(),
            s@ == s1 + instr_lines(b.instructions@, views(fts@), k as int),
        decreases b.instructions@.len() - k,
    {
        push_str(s, "    ");
        push_instr(s, &b.instructions[k], fts[k].as_str());
        push_str(s, "\n");
        k = k + 1;
        assert(s@ =~= s1 + instr_lines(b.instructions@, views(fts@), k as int));
    }
    push_str(s, "    Terminator: ");
    push_term(s, &b.terminator);
    push_str(s, "\n");
    assert(s@ =~= s0 + block_listing(id, *b, views(fts@)));
}

impl SsaCFG {
    /// The listing of the graph (see `listing`): for each block in id order,
    /// its id, phi nodes, instructions and terminator. `float_texts[i][k]`
    /// is the rendering of the value of instruction `k` of the `i`-th block
    /// where that is a float constant; other entries are not used.
    pub fn display_text(&self, float_texts: &Vec<Vec<String>>) -> (t: String)
        requires
            self.blocks.wf(),
            shaped(self.blocks.entries@, nested(float_texts@)),
        ensures
            t@ == listing(*self, nested(float_texts@)),
    {
        let ghost e = self.blocks.entries@;
        let ghost fts = nested(float_texts@);
        let mut t = String::new();
        let mut i: usize = 0;
        while i < self.blocks.entries.len()
            invariant
                e == self.blocks.entries@,
                fts == nested(float_texts@),
                shaped(e, fts),
                i <= e.len(),
                t@ == blocks_listing(e, fts, i as int),
            decreases e.len() - i,
        {
            assert(fts[i as int] == views(float_texts@[i as int]@));
            push_block_listing(&mut t, self.blocks.entries[i].0, &self.blocks.entries[i].1, &float_texts[i]);
            i = i + 1;
            assert(t@ =~= blocks_listing(e, fts, i as int));
        }
        t
    }
}

/// An edge line of the SSA rendering, with a label when one is given.
pub open spec fn ssa_edge(from: BlockId, to: nat, label: Option<Seq<char>>) -> Seq<char> {
    "  block_"@ + dec_text(from as nat) + " -> block_"@ + dec_text(to) + match label {
        Some(l) => " [label=\""@ + l + "\"];\n"@,
        None => ";\n"@,
    }
}

pub open spec fn ssa_opt_edge(from: BlockId, to: Option<BlockId>, label: Seq<char>) -> Seq<char> {
    match to {
        Some(t) => ssa_edge(from, t as nat, Some(label)),
        None => Seq::empty(),
    }
}

/// The edges to the targets of the first `k` select arms.
pub open spec fn ssa_case_edges(from: BlockId, cs: Seq<SsaSelectCase>, k: int) -> Seq<char>
    decreases k,
{
    if k <= 0 {
        Seq::empty()
    } else {
        ssa_case_edges(from, cs, k - 1) + ssa_edge(from, cs[k - 1].target as nat, None)
    }
}

/// The edge lines of an SSA terminator.
pub open spec fn ssa_term_edges(id: BlockId, t: SsaTerminator) -> Seq<char> {
    match t {
        SsaTerminator::Jump { target } => ssa_edge(id, target as nat, None),
        SsaTerminator::Branch { then_block, else_block, .. } =>
            ssa_edge(id, then_block as nat, None) + ssa_edge(id, else_block as nat, None),
        SsaTerminator::MatchEntropy { valid_block, decayed_block, pending_block, consumed_block, .. } =>
            ssa_opt_edge(id, valid_block, "Valid"@) + ssa_opt_edge(id, decayed_block, "Decayed"@)
            + ssa_opt_edge(id, pending_block, "Pending"@) + ssa_opt_edge(id, consumed_block, "Consumed"@),
        SsaTerminator::Select { cases, timeout_block, .. } =>
            ssa_case_edges(id, cases@, cases@.len() as int) + ssa_opt_edge(id, timeout_block, "Timeout"@),
        _ => Seq::empty(),
    }
}

/// The Graphviz label lines of the first `k` instructions.
pub open spec fn dot_instr_lines(is: Seq<SsaInstruction>, fts: Seq<Seq<char>>, k: int) -> Seq<char>
    decreases k,
{
    if k <= 0 {
        Seq::empty()
    } else {
        dot_instr_lines(is, fts, k - 1) + "  "@ + escaped(instr_text(is[k - 1], fts[k - 1])) + "\\n"@
    }
}

/// A block's node line and edge lines.
pub open spec fn ssa_block_dot(id: BlockId, b: SsaBasicBlock, fts: Seq<Seq<char>>) -> Seq<char> {
    let label = "Block "@ + dec_text(id as nat) + "\\n"@
        + phi_lines(b.phi_nodes@, b.phi_nodes@.len() as int, "  "@, "\\n"@)
        + dot_instr_lines(b.instructions@, fts, b.instructions@.len() as int)
        + "  Terminator: "@ + escaped(term_text(b.terminator)) + "\\n"@;
    "  block_"@ + dec_text(id as nat) + " [label=\""@ + label + "\"];\n"@ + ssa_term_edges(id, b.terminator)
}

pub open spec fn ssa_blocks_dot(e: Seq<(BlockId, SsaBasicBlock)>, fts: Seq<Seq<Seq<char>>>, i: int) -> Seq<char>
    decreases i,
{
    if i <= 0 {
        Seq::empty()
    } else {
        ssa_blocks_dot(e, fts, i - 1) + ssa_block_dot(e[i - 1].0, e[i - 1].1, fts[i - 1])
    }
}

/// The Graphviz text of an SSA graph, blocks in id order.
pub open spec fn ssa_dot(cfg: SsaCFG, fts: Seq<Seq<Seq<char>>>) -> Seq<char> {
    let e = cfg.blocks.entries@;
    "digraph SsaCFG {\n"@ + "  node [shape=box, fontname=\"Courier\"];\n"@ + ssa_blocks_dot(e, fts, e.len() as int) + "}\n"@
}

fn push_ssa_edge(s: &mut String, from: BlockId, to: u64, label: Option<&str>)
    ensures
        final(s)@ == old(s)@ + ssa_edge(from, to as nat, match label {
            Some(l) => Some(l@),
            None => None,
        }),
{
    push_str(s, "  block_");
    push_decimal(s, from as u64);
    push_str(s, " -> block_");
    push_decimal(s, to);
    match label {
        Some(l) => {
            push_str(s, " [label=\"");
            push_str(s, l);
            push_str(s, "\"];\n");
        },
        None => {
            push_str(s, ";\n");
        },
    }
    assert(s@ =~= old(s)@ + ssa_edge(from, to as nat, match label {
        Some(l) => Some(l@),
        None => None,
    }));
}

fn push_ssa_opt_edge(s: &mut String, from: BlockId, to: Option<BlockId>, label: &str)
    ensures
        final(s)@ == old(s)@ + ssa_opt_edge(from, to, label@),
{
    match to {
        Some(t) => push_ssa_edge(s, from, t as u64, Some(label)),
        None => {
            assert(s@ =~= old(s)@ + ssa_opt_edge(from, to, label@));
        },
    }
}

fn push_ssa_term_edges(s: &mut String, id: BlockId, t: &SsaTerminator)
    ensures
        final(s)@ == old(s)@ + ssa_term_edges(id, *t),
{
    match t {
        SsaTerminator::Jump { target } => {
            push_ssa_edge(s, id, *target as u64, None);
        },
        SsaTerminator::Branch { then_block, else_block, .. } => {
            push_ssa_edge(s, id, *then_block as u64, None);
            push_ssa_edge(s, id, *else_block as u64, None);
        },
        SsaTerminator::MatchEntropy { valid_block, decayed_block, pending_block, consumed_block, .. } => {
            push_ssa_opt_edge(s, id, *valid_block, "Valid");
            push_ssa_opt_edge(s, id, *decayed_block, "Decayed");
            push_ssa_opt_edge(s, id, *pending_block, "Pending");
            push_ssa_opt_edge(s, id, *consumed_block, "Consumed");
        },
        SsaTerminator::Select { cases, timeout_block, .. } => {
            let ghost s0 = s@;
            let mut k: usize = 0;
            while k < cases.len()
                invariant
                    k <= cases@.len(),
                    s@ == s0 + ssa_case_edges(id, cases@, k as int),
                decreases cases@.len() - k,
            {
                push_ssa_edge(s, id, cases[k].target as u64, None);
                k = k + 1;
                assert(s@ =~= s0 + ssa_case_edges(id, cases@, k as int));
            }
            push_ssa_opt_edge(s, id, *timeout_block, "Timeout");
        },
        _ => {},
    }
    assert(s@ =~= old(s)@ + ssa_term_edges(id, *t));
}

fn push_ssa_block_dot(s: &mut String, id: BlockId, b: &SsaBasicBlock, fts: &Vec<String>)
    requires
        fts@.len() == b.instructions@.len(),
    ensures
        final(s)@ == old(s)@ + ssa_block_dot(id, *b, views(fts@)),
{
    let mut label = String::new();
    push_str(&mut label, "Block ");
    push_decimal(&mut label, id as u64);
    push_str(&mut label, "\\n");
    push_phi_lines(&mut label, &b.phi_nodes, "  ", "\\n");
    let ghost l1 = label@;
    let mut k: usize = 0;
    while k < b.instructions.len()
        invariant
            k <= b.instructions@.len(),
            fts@.len() == b.instructions@.len(),
            label@ == l1 + dot_instr_lines(b.instructions@, views(fts@), k as int),
        decreases b.instructions@.len() - k,
    {
        let it = b.instructions[k].display_text(fts[k].as_str());
        push_str(&mut label, "  ");
        push_escaped(&mut label, it.as_str());
        push_str(&mut label, "\\n");
        k = k + 1;
        assert(label@ =~= l1 + dot_instr_lines(b.instructions@, views(fts@), k as int));
    }
    let tt = b.terminator.display_text();
    push_str(&mut label, "  Terminator: ");
    push_escaped(&mut label, tt.as_str());
    push_str(&mut label, "\\n");
    push_str(s, "  block_");
    push_decimal(s, id as u64);
    push_str(s, " [label=\"");
    push_str(s, label.as_str());
    push_str(s, "\"];\n");
    push_ssa_term_edges(s, id, &b.terminator);
    assert(s@ =~= old(s)@ + ssa_block_dot(id, *b, views(fts@)));
}

impl SsaCFG {
    /// The Graphviz text of the graph (see `ssa_dot`): a node per block, in
    /// id order, labelled with its phi nodes, instructions and terminator,
    /// then an edge per target of its terminator. `float_texts` is as for
    /// `display_text`.
    pub fn to_dot(&self, float_texts: &Vec<Vec<String>>) -> (dot: String)
        requires
            self.blocks.wf(),
            shaped(self.blocks.entries@, nested(float_texts@)),
        ensures
            dot@ == ssa_dot(*self, nested(float_texts@)),
    {
        let ghost e = self.blocks.entries@;
        let ghost fts = nested(float_texts@);
        let mut dot = String::new();
        push_str(&mut dot, "digraph SsaCFG {\n");
        push_str(&mut dot, "  node [shape=box, fontname=\"Courier\"];\n");
        let ghost head = dot@;
        let mut i: usize = 0;
        while i < self.blocks.entries.len()
            invariant
                e == self.blocks.entries@,
                fts == nested(float_texts@),
                shaped(e, fts),
                i <= e.len(),
                dot@ == head + ssa_blocks_dot(e, fts, i as int),
            decreases e.len() - i,
        {
            assert(fts[i as int] == views(float_texts@[i as int]@));
            push_ssa_block_dot(&mut dot, self.blocks.entries[i].0, &self.blocks.entries[i].1, &float_texts[i]);
            i = i + 1;
            assert(dot@ =~= head + ssa_blocks_dot(e, fts, i as int));
        }
        push_str(&mut dot, "}\n");
        assert(dot@ =~= ssa_dot(*self, fts));
        dot
    }
}

} // verus!

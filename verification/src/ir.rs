//! Core value types of the flat intermediate representation.

use vstd::prelude::*;

verus! {

/// A virtual register of the flat intermediate representation.
#[derive(Debug, Clone, Copy, PartialEq, Eq, Hash, Structural)]
pub struct Reg(pub u32);

/// Binary operators that arithmetic and comparison instructions apply.
#[derive(Debug, Clone, Copy, PartialEq, Eq, Hash, Structural)]
pub enum BinaryOperator {
    Add,
    Sub,
    Mul,
    Div,
    Rem,
    Pow,
    BitwiseAnd,
    BitwiseOr,
    BitwiseXor,
    Shl,
    Shr,
    Eq,
    Neq,
    Lt,
    Gt,
    Le,
    Ge,
    LogicalAnd,
    LogicalOr,
}

/// Unary operators.
#[derive(Debug, Clone, Copy, PartialEq, Eq, Hash, Structural)]
pub enum UnaryOperator {
    Neg,
    Not,
    BitwiseNot,
}

/// The entropy regime that a temporal block runs under.
#[derive(Debug, Clone, Copy, PartialEq, Eq, Hash, Structural)]
pub enum EntropyMode {
    Deterministic,
    Chaos,
}

/// How the results of a speculative region are committed.
#[derive(Debug, Clone, Copy, PartialEq, Eq, Hash, Structural)]
pub enum SpeculationCommitMode {
    Full,
    Selective,
}

/// How an iteration binds the items of its source.
#[derive(Debug, Clone, Copy, PartialEq, Eq, Hash, Structural)]
pub enum ParamMode {
    Consume,
    Peek,
    Decay,
    Clone,
    Lease,
}

/// Isolate manifest, carried unchanged by every pass; held as its surface text.
#[derive(Debug, Clone, PartialEq, Eq, Hash)]
pub struct Manifest {
    pub text: String,
}

/// Merge resolution strategy, carried unchanged by every pass; held as its surface text.
#[derive(Debug, Clone, PartialEq, Eq, Hash)]
pub struct MergeResolution {
    pub text: String,
}

/// Target of a saturation policy, held as its surface text.
#[derive(Debug, Clone, PartialEq, Eq, Hash)]
pub struct PolicyTarget {
    pub text: String,
}

/// Saturation policy, held as its surface text.
#[derive(Debug, Clone, PartialEq, Eq, Hash)]
pub struct SaturationPolicy {
    pub text: String,
}

/// Arena introspection query, held as its surface text.
#[derive(Debug, Clone, PartialEq, Eq, Hash)]
pub struct ArenaIntrospect {
    pub text: String,
}

/// Capability descriptor, held as its surface text.
#[derive(Debug, Clone, PartialEq, Eq, Hash)]
pub struct Capability {
    pub text: String,
}

/// Target of a system call, held as its surface text.
#[derive(Debug, Clone, PartialEq, Eq, Hash)]
pub struct SyscallTarget {
    pub text: String,
}

/// Automatic drop specification, held as its surface text.
#[derive(Debug, Clone, PartialEq, Eq, Hash)]
pub struct AutoDropSpec {
    pub text: String,
}

/// Type name of a cast target, held as its surface text.
#[derive(Debug, Clone, PartialEq, Eq, Hash)]
pub struct TypeName {
    pub text: String,
}

impl Manifest {
    pub fn duplicate(&self) -> (r: Self)
        ensures
            r == *self,
    {
        Manifest { text: self.text.clone() }
    }
}

impl MergeResolution {
    pub fn duplicate(&self) -> (r: Self)
        ensures
            r == *self,
    {
        MergeResolution { text: self.text.clone() }
    }
}

impl PolicyTarget {
    pub fn duplicate(&self) -> (r: Self)
        ensures
            r == *self,
    {
        PolicyTarget { text: self.text.clone() }
    }
}

impl SaturationPolicy {
    pub fn duplicate(&self) -> (r: Self)
        ensures
            r == *self,
    {
        SaturationPolicy { text: self.text.clone() }
    }
}

impl ArenaIntrospect {
    pub fn duplicate(&self) -> (r: Self)
        ensures
            r == *self,
    {
        ArenaIntrospect { text: self.text.clone() }
    }
}

impl Capability {
    pub fn duplicate(&self) -> (r: Self)
        ensures
            r == *self,
    {
        Capability { text: self.text.clone() }
    }
}

impl SyscallTarget {
    pub fn duplicate(&self) -> (r: Self)
        ensures
            r == *self,
    {
        SyscallTarget { text: self.text.clone() }
    }
}

impl AutoDropSpec {
    pub fn duplicate(&self) -> (r: Self)
        ensures
            r == *self,
    {
        AutoDropSpec { text: self.text.clone() }
    }
}

impl TypeName {
    pub fn duplicate(&self) -> (r: Self)
        ensures
            r == *self,
    {
        TypeName { text: self.text.clone() }
    }
}

/// One arm of a flat `Select` instruction: receive from `chan_id` into `dest`, then go to `target`.
#[derive(Debug, Clone, PartialEq, Eq)]
pub struct IrSelectCase {
    pub chan_id: String,
    pub dest: Reg,
    pub target: usize,
}

impl IrSelectCase {
    pub fn duplicate(&self) -> (r: Self)
        ensures
            r == *self,
    {
        IrSelectCase { chan_id: self.chan_id.clone(), dest: self.dest, target: self.target }
    }
}

/// Binding of a routine to a symbol of a foreign library.
#[derive(Debug, Clone, PartialEq, Eq)]
pub struct ForeignBinding {
    pub lib_name: String,
    pub abi: String,
    pub symbol: String,
}

impl ForeignBinding {
    pub fn duplicate(&self) -> (r: Self)
        ensures
            r == *self,
    {
        ForeignBinding {
            lib_name: self.lib_name.clone(),
            abi: self.abi.clone(),
            symbol: self.symbol.clone(),
        }
    }
}

pub fn copy_option_string(s: &Option<String>) -> (r: Option<String>)
    ensures
        r == *s,
{
    match s {
        Some(t) => Some(t.clone()),
        None => None,
    }
}

pub fn copy_option_resolution(s: &Option<MergeResolution>) -> (r: Option<MergeResolution>)
    ensures
        r == *s,
{
    match s {
        Some(t) => Some(t.duplicate()),
        None => None,
    }
}

pub fn copy_regs(v: &Vec<Reg>) -> (r: Vec<Reg>)
    ensures
        r@ == v@,
{
    let mut out: Vec<Reg> = Vec::new();
    let mut i: usize = 0;
    while i < v.len()
        invariant
            i <= v.len(),
            out@ == v@.subrange(0, i as int),
        decreases v.len() - i,
    {
        out.push(v[i]);
        i = i + 1;
    }
    assert(v@.subrange(0, v@.len() as int) =~= v@);
    out
}

pub fn copy_strings(v: &Vec<String>) -> (r: Vec<String>)
    ensures
        r@ == v@,
{
    let mut out: Vec<String> = Vec::new();
    let mut i: usize = 0;
    while i < v.len()
        invariant
            i <= v.len(),
            out@ == v@.subrange(0, i as int),
        decreases v.len() - i,
    {
        out.push(v[i].clone());
        i = i + 1;
    }
    assert(v@.subrange(0, v@.len() as int) =~= v@);
    out
}

pub fn copy_reg_fields(v: &Vec<(String, Reg)>) -> (r: Vec<(String, Reg)>)
    ensures
        r@ == v@,
{
    let mut out: Vec<(String, Reg)> = Vec::new();
    let mut i: usize = 0;
    while i < v.len()
        invariant
            i <= v.len(),
            out@ == v@.subrange(0, i as int),
        decreases v.len() - i,
    {
        out.push((v[i].0.clone(), v[i].1));
        i = i + 1;
    }
    assert(v@.subrange(0, v@.len() as int) =~= v@);
    out
}

pub fn copy_select_cases(v: &Vec<IrSelectCase>) -> (r: Vec<IrSelectCase>)
    ensures
        r@ == v@,
{
    let mut out: Vec<IrSelectCase> = Vec::new();
    let mut i: usize = 0;
    while i < v.len()
        invariant
            i <= v.len(),
            out@ == v@.subrange(0, i as int),
        decreases v.len() - i,
    {
        out.push(v[i].duplicate());
        i = i + 1;
    }
    assert(v@.subrange(0, v@.len() as int) =~= v@);
    out
}

} // verus!

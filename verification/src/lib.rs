//! Intermediate representation, control-flow graphs, SSA construction and the
//! optimisation passes of the Causm toolchain.

pub mod ir;
pub mod instruction;
pub mod properties;
pub mod blockmap;
pub mod cfg;
pub mod ssa;
pub mod plugin;
pub mod program;
pub mod text;
pub mod debug_text;
pub mod duration;
pub mod dot;
pub mod jit;
pub mod optimize;

//! The cache of compiled routines, keyed by the hash of their SSA form.

use vstd::prelude::*;
use std::hash::{DefaultHasher, Hasher};
use vstd::std_specs::hash::DefaultHasherAdditionalSpecFns;
use vstd::utf8::encode_utf8;
use crate::blockmap::BlockId;
use crate::ssa::{SsaCFG, SsaBasicBlock, SsaTerminator};
use crate::debug_text::{ssa_terminator_debug, ssa_terminator_debug_text};
use std::collections::HashMap;

verus! {

broadcast use vstd::std_specs::hash::group_hash_axioms;

/// A compiled routine: the address of its code and its number of
/// parameters.
#[derive(Clone, Copy, Debug, PartialEq, Eq, Structural)]
pub struct CompiledRoutine {
    pub code_addr: usize,
    pub param_count: usize,
}

/// Compiled routines by hash.
pub struct RoutineCache {
    pub routines: HashMap<u64, CompiledRoutine>,
}

pub open spec fn lookup_spec(m: Map<u64, CompiledRoutine>, hash: u64) -> Option<CompiledRoutine> {
    if m.contains_key(hash) {
        Some(m[hash])
    } else {
        None
    }
}

impl RoutineCache {
    pub fn new() -> (c: Self)
        ensures
            c.routines@ == Map::<u64, CompiledRoutine>::empty(),
    {
        RoutineCache { routines: HashMap::new() }
    }
}

/// The routine cached under `hash`, if any.
pub fn lookup_compiled_routine(cache: &RoutineCache, hash: u64) -> (r: Option<CompiledRoutine>)
    ensures
        r == lookup_spec(cache.routines@, hash),
{
    match cache.routines.get(&hash) {
        Some(r) => Some(*r),
        None => None,
    }
}

/// Caches `routine` under `hash`, replacing what was there.
pub fn store_compiled_routine(cache: &mut RoutineCache, hash: u64, routine: CompiledRoutine)
    ensures
        final(cache).routines@ == old(cache).routines@.insert(hash, routine),
{
    cache.routines.insert(hash, routine);
}

/// Empties the cache.
pub fn clear_routine_cache(cache: &mut RoutineCache)
    ensures
        final(cache).routines@ == Map::<u64, CompiledRoutine>::empty(),
{
    cache.routines.clear();
}

/// A lookup finds the routine last stored under its hash, and storing under
/// one hash leaves every other hash as it was.
pub proof fn law_lookup_after_store(m: Map<u64, CompiledRoutine>, hash: u64, routine: CompiledRoutine, other: u64)
    ensures
        lookup_spec(m.insert(hash, routine), hash) == Some(routine),
        other != hash ==> lookup_spec(m.insert(hash, routine), other) == lookup_spec(m, other),
{
}

/// After clearing, no lookup finds anything.
pub proof fn law_lookup_after_clear(hash: u64)
    ensures
        lookup_spec(Map::<u64, CompiledRoutine>::empty(), hash) is None,
{
}

/// One call on the cache: a store of a routine under a hash, or a clear.
pub enum CacheOp {
    Store(u64, CompiledRoutine),
    Clear,
}

/// The cache's contents after the calls `ops`, made in order from `m`.
pub open spec fn cache_after(m: Map<u64, CompiledRoutine>, ops: Seq<CacheOp>) -> Map<u64, CompiledRoutine>
    decreases ops.len(),
{
    if ops.len() == 0 {
        m
    } else {
        match ops.last() {
            CacheOp::Store(h, r) => cache_after(m, ops.drop_last()).insert(h, r),
            CacheOp::Clear => Map::empty(),
        }
    }
}

/// The routine most recently stored under `h` in `ops` with no clear after
/// it, if any.
pub open spec fn latest_store(ops: Seq<CacheOp>, h: u64) -> Option<CompiledRoutine>
    decreases ops.len(),
{
    if ops.len() == 0 {
        None
    } else {
        match ops.last() {
            CacheOp::Store(h2, r) => if h2 == h { Some(r) } else { latest_store(ops.drop_last(), h) },
            CacheOp::Clear => None,
        }
    }
}

/// Over any run of stores and clears on an empty cache, a lookup finds the
/// routine most recently stored under its hash since the last clear, and
/// nothing for a hash not stored since then.
pub proof fn law_lookup_after_calls(ops: Seq<CacheOp>, h: u64)
    ensures
        lookup_spec(cache_after(Map::empty(), ops), h) == latest_store(ops, h),
    decreases ops.len(),
{
    if ops.len() > 0 {
        law_lookup_after_calls(ops.drop_last(), h);
    }
}

/// The four bytes of `x`, least significant first.
pub open spec fn u32_bytes(x: u32) -> Seq<u8> {
    seq![(x % 256) as u8, ((x / 256) % 256) as u8, ((x / 65536) % 256) as u8, (x / 16777216) as u8]
}

/// The eight bytes of `x`, least significant first.
pub open spec fn u64_bytes(x: u64) -> Seq<u8> {
    seq![
        (x % 256) as u8,
        ((x / 0x100) % 256) as u8,
        ((x / 0x1_0000) % 256) as u8,
        ((x / 0x100_0000) % 256) as u8,
        ((x / 0x1_0000_0000) % 256) as u8,
        ((x / 0x100_0000_0000) % 256) as u8,
        ((x / 0x1_0000_0000_0000) % 256) as u8,
        (x / 0x100_0000_0000_0000) as u8,
    ]
}

/// Writes a `u32` as its four bytes, least significant first.
fn write_u32(h: &mut DefaultHasher, x: u32)
    ensures
        final(h)@ == old(h)@.push(u32_bytes(x)),
{
    let v: Vec<u8> = vec![(x % 256) as u8, ((x / 256) % 256) as u8, ((x / 65536) % 256) as u8, (x / 16777216) as u8];
    assert(v@ =~= u32_bytes(x));
    h.write(v.as_slice());
}

/// Writes a `u64` as its eight bytes, least significant first.
fn write_u64(h: &mut DefaultHasher, x: u64)
    ensures
        final(h)@ == old(h)@.push(u64_bytes(x)),
{
    let v: Vec<u8> = vec![
        (x % 256) as u8,
        ((x / 0x100) % 256) as u8,
        ((x / 0x1_0000) % 256) as u8,
        ((x / 0x100_0000) % 256) as u8,
        ((x / 0x1_0000_0000) % 256) as u8,
        ((x / 0x100_0000_0000) % 256) as u8,
        ((x / 0x1_0000_0000_0000) % 256) as u8,
        (x / 0x100_0000_0000_0000) as u8,
    ];
    assert(v@ =~= u64_bytes(x));
    h.write(v.as_slice());
}

/// Writes a text: its UTF-8 bytes, then the byte `0xff`, so that two texts
/// in a row cannot run together.
fn write_text(h: &mut DefaultHasher, t: &str)
    ensures
        final(h)@ == old(h)@.push(encode_utf8(t@)).push(seq![0xffu8]),
{
    h.write(t.as_bytes());
    let end: Vec<u8> = vec![0xffu8];
    assert(end@ =~= seq![0xffu8]);
    h.write(end.as_slice());
}

/// The writes of a text (see `write_text`).
pub open spec fn text_writes(t: Seq<u8>) -> Seq<Seq<u8>> {
    seq![t, seq![0xffu8]]
}

/// The writes for a block: its id, its number of phi nodes, the register
/// and version of each, its number of instructions and the debug text of its
/// terminator.
pub open spec fn block_writes(id: BlockId, b: SsaBasicBlock) -> Seq<Seq<u8>> {
    seq![u32_bytes(id), u64_bytes(b.phi_nodes@.len() as u64)]
        + phi_writes(b, b.phi_nodes@.len() as int)
        + seq![u64_bytes(b.instructions@.len() as u64)]
        + text_writes(encode_utf8(ssa_terminator_debug(b.terminator)))
}

pub open spec fn phi_writes(b: SsaBasicBlock, k: int) -> Seq<Seq<u8>>
    decreases k,
{
    if k <= 0 {
        Seq::empty()
    } else {
        phi_writes(b, k - 1) + seq![u32_bytes(b.phi_nodes@[k - 1].dest.reg), u32_bytes(b.phi_nodes@[k - 1].dest.version)]
    }
}

/// What the first `k` blocks write.
pub open spec fn blocks_writes(e: Seq<(BlockId, SsaBasicBlock)>, k: int) -> Seq<Seq<u8>>
    decreases k,
{
    if k <= 0 {
        Seq::empty()
    } else {
        blocks_writes(e, k - 1) + block_writes(e[k - 1].0, e[k - 1].1)
    }
}

/// What is written for a routine's SSA graph: the routine's name, the
/// entry block, then each block in id order (see `block_writes`).
pub open spec fn graph_writes(name: Seq<char>, g: SsaCFG) -> Seq<Seq<u8>> {
    text_writes(encode_utf8(name)) + seq![u32_bytes(g.entry_block)] + blocks_writes(g.blocks.entries@, g.blocks.entries@.len() as int)
}

/// A hasher that has been written the routine's name and its SSA graph's
/// shape, block by block in id order (see `graph_writes`).
pub fn graph_hasher(routine_name: &str, ssa_cfg: &SsaCFG) -> (h: DefaultHasher)
    requires
        ssa_cfg.blocks.wf(),
    ensures
        h@ == graph_writes(routine_name@, *ssa_cfg),
{
    let mut h = DefaultHasher::new();
    write_text(&mut h, routine_name);
    write_u32(&mut h, ssa_cfg.entry_block);
    let ghost head = h@;
    let ghost e = ssa_cfg.blocks.entries@;
    assert(head =~= text_writes(encode_utf8(routine_name@)) + seq![u32_bytes(ssa_cfg.entry_block)]);
    assert(h@ =~= head + blocks_writes(e, 0));
    let mut i: usize = 0;
    while i < ssa_cfg.blocks.entries.len()
        invariant
            e == ssa_cfg.blocks.entries@,
            i <= e.len(),
            h@ == head + blocks_writes(e, i as int),
        decreases e.len() - i,
    {
        let id = ssa_cfg.blocks.entries[i].0;
        let b = &ssa_cfg.blocks.entries[i].1;
        let ghost f0 = h@;
        write_u32(&mut h, id);
        write_u64(&mut h, b.phi_nodes.len() as u64);
        let ghost f1 = h@;
        let mut j: usize = 0;
        assert(h@ =~= f1 + phi_writes(*b, 0));
        while j < b.phi_nodes.len()
            invariant
                j <= b.phi_nodes@.len(),
                h@ == f1 + phi_writes(*b, j as int),
            decreases b.phi_nodes@.len() - j,
        {
            write_u32(&mut h, b.phi_nodes[j].dest.reg);
            write_u32(&mut h, b.phi_nodes[j].dest.version);
            j = j + 1;
            assert(h@ =~= f1 + phi_writes(*b, j as int));
        }
        write_u64(&mut h, b.instructions.len() as u64);
        let t = ssa_terminator_debug_text(&b.terminator);
        write_text(&mut h, t.as_str());
        proof {
            assert(h@ =~= f0 + block_writes(id, *b));
            assert(h@ =~= head + blocks_writes(e, i + 1));
        }
        i = i + 1;
    }
    h
}

/// A 64-bit hash of a routine's SSA graph: what std's `DefaultHasher`
/// finishes on after the writes of `graph_writes`, so the same name and
/// graph shape give the same hash.
pub fn hash_ssa_cfg(routine_name: &str, ssa_cfg: &SsaCFG) -> (r: u64)
    requires
        ssa_cfg.blocks.wf(),
    ensures
        r == DefaultHasher::spec_finish(graph_writes(routine_name@, *ssa_cfg)),
{
    let h = graph_hasher(routine_name, ssa_cfg);
    h.finish()
}

} // verus!

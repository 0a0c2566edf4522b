use vstd::prelude::*;

use crate::arena::Arena;
use crate::context::Context;
use crate::handles::{Block, BlockEdge, Inst, InstKind};

verus! {

/// Registering both arms of a two-way branch `c` on a block with no
/// successors leaves exactly two edges, told apart by the arm flag, even
/// when both arms target the same block.
pub proof fn lemma_two_arms(
    c0: Context,
    c1: Context,
    c2: Context,
    b: Block,
    t: Block,
    f: Block,
    c: Inst,
)
    requires
        c0.insts().contains_key(c),
        c0.insts()[c].kind is CondBr,
        b.succ_set(c0).is_empty(),
        b.added_successor(c0, c1, t, c, true),
        b.added_successor(c1, c2, f, c, false),
    ensures
        b.succ_set(c2) == set![BlockEdge(t, c, true), BlockEdge(f, c, false)],
        b.succ_set(c2).len() == 2,
{
    assert(b.succ_set(c0) =~= Set::<BlockEdge>::empty());
    assert(c1.insts() == c0.insts());
    assert(BlockEdge(t, c, true) != BlockEdge(f, c, false));
    assert(b.succ_set(c2) =~= set![BlockEdge(t, c, true), BlockEdge(f, c, false)]);
    assert(set![BlockEdge(t, c, true)].len() == 1);
}

/// Removing one arm of a two-way branch `c` whose two edges are the
/// block's only successors leaves one edge: its terminator is a new
/// instruction, not `c`, its target is the other arm's target, and `c` is
/// gone from the block's instruction list.
pub proof fn lemma_remove_one_arm(
    c0: Context,
    c1: Context,
    b: Block,
    t: Block,
    f: Block,
    c: Inst,
    arm: bool,
)
    requires
        c0.insts().contains_key(c),
        c0.insts()[c].kind == InstKind::CondBr(t, f),
        b.succ_set(c0) == set![BlockEdge(t, c, true), BlockEdge(f, c, false)],
        b.removed_successor(c0, c1, if arm { t } else { f }, c, arm),
    ensures
        b.succ_set(c1).len() == 1,
        exists|e: BlockEdge|
            {
                &&& b.succ_set(c1) == set![e]
                &&& e.terminator() != c
                &&& e.target() == if arm { f } else { t }
                &&& !e.arm()
            },
        !c1.blocks()[b].insts.contains(c),
{
    let keep = if arm { f } else { t };
    let n = Inst { index: c0.inst_slots() as usize };
    let e = BlockEdge(keep, n, false);
    assert(n != c);
    assert(b.succ_set(c1) =~= set![e]);
    assert(set![e].len() == 1);
    assert(b.succ_set(c1) == set![e] && e.terminator() != c && e.target() == keep && !e.arm());
}

/// Deallocating an absent handle reports it absent and leaves the arena as
/// it was, so every later call on it does the same.
pub proof fn lemma_dealloc_absent<T>(a0: Arena<T>, a1: Arena<T>, i: usize, r: Option<T>)
    requires
        !a0.live(i),
        a0.deallocated(a1, i, r),
    ensures
        r is None,
        a1@ == a0@,
        !a1.live(i),
{
}

} // verus!

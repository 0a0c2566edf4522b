use vstd::prelude::*;

use crate::context::{BlockView, Context, InstData};
use crate::context::insert_unique_edge;
use crate::inst::operands_live;
use crate::handles::{operand_of, Block, BlockEdge, Func, Inst, InstKind, IrError, User};

verus! {

/// The view of a freshly allocated block: no instructions, no edges, no
/// users, and not attached to any function.
pub open spec fn empty_block() -> BlockView {
    BlockView {
        users: Seq::empty(),
        successors: Seq::empty(),
        insts: Seq::empty(),
        head: None,
        tail: None,
        next: None,
        prev: None,
        container: None,
    }
}

/// The edge that `add_successor` records for a terminator of kind `k`: an
/// unconditional branch always records the false arm.
pub open spec fn edge_for(k: InstKind, to: Block, inst: Inst, true_br: bool) -> BlockEdge {
    match k {
        InstKind::Br(_) => BlockEdge(to, inst, false),
        _ => BlockEdge(to, inst, true_br),
    }
}

/// Whether an instruction of kind `k` can make control-flow edges.
pub open spec fn is_branch(k: InstKind) -> bool {
    k is Br || k is CondBr
}

impl Block {
    /// Allocates an empty, unattached block.
    pub fn new(ctx: &mut Context) -> (b: Block)
        requires
            old(ctx).wf(),
            old(ctx).block_slots() < usize::MAX,
        ensures
            final(ctx).wf(),
            !old(ctx).blocks().contains_key(b),
            final(ctx).blocks() == old(ctx).blocks().insert(b, empty_block()),
            final(ctx).insts() == old(ctx).insts(),
            final(ctx).funcs() == old(ctx).funcs(),
            b.id() == old(ctx).block_slots(),
            final(ctx).block_slots() == old(ctx).block_slots() + 1,
            final(ctx).inst_slots() == old(ctx).inst_slots(),
            final(ctx).func_slots() == old(ctx).func_slots(),
            b.succ_set(*final(ctx)) == Set::<BlockEdge>::empty(),
            final(ctx).blocks()[b].users.to_set() == Set::<User>::empty(),
    {
        let b = ctx.alloc_block();
        assert(b.succ_set(*ctx) =~= Set::<BlockEdge>::empty());
        assert(ctx.blocks()[b].users.to_set() =~= Set::<User>::empty());
        assert(ctx.lists_wf()) by {
            assert forall|x: Block| #[trigger] ctx.blocks().contains_key(x) implies ctx.inst_list_wf(x) by {
                if x != b {
                    assert(old(ctx).inst_list_wf(x));
                    let s = ctx.blocks()[x].insts;
                    assert forall|k: int| 0 <= k < s.len() implies #[trigger] ctx.inst_linked(x, s, k) by {
                        assert(old(ctx).inst_linked(x, s, k));
                    }
                }
            }
        }
        assert(ctx.funcs_wf()) by {
            assert forall|f: Func| #[trigger] ctx.funcs().contains_key(f) implies ctx.block_list_wf(f) by {
                assert(old(ctx).block_list_wf(f));
                let s = ctx.funcs()[f].blocks;
                assert forall|k: int| 0 <= k < s.len() implies #[trigger] ctx.block_linked(f, s, k) by {
                    assert(old(ctx).block_linked(f, s, k));
                }
            }
        }
        b
    }

    /// Links an unlinked instruction at the end of this block's list.
    /// Fails with `InvalidPointer` when the block or the instruction is
    /// absent, and with `StructuralPrecondition` when the instruction is
    /// already in a list.
    pub fn append_inst(self, ctx: &mut Context, inst: Inst) -> (r: Result<(), IrError>)
        requires
            old(ctx).wf(),
        ensures
            final(ctx).wf(),
            r is Err ==> *final(ctx) == *old(ctx),
            r is Err ==> r == Err::<(), IrError>(IrError::InvalidPointer) || r == Err::<(), IrError>(
                IrError::StructuralPrecondition,
            ),
            r == Err::<(), IrError>(IrError::InvalidPointer) <==> !old(ctx).blocks().contains_key(self)
                || !old(ctx).insts().contains_key(inst),
            r == Err::<(), IrError>(IrError::StructuralPrecondition) <==> old(ctx).blocks().contains_key(
                self,
            ) && old(ctx).insts().contains_key(inst) && old(ctx).insts()[inst].container is Some,
            r is Ok ==> {
                &&& old(ctx).same_nodes(*final(ctx))
                &&& final(ctx).blocks()[self].insts == old(ctx).blocks()[self].insts.push(inst)
                &&& final(ctx).insts()[inst].container == Some(self)
                &&& forall|x: Block| #[trigger]
                    old(ctx).blocks().contains_key(x) && x != self ==> final(ctx).blocks()[x].insts
                        == old(ctx).blocks()[x].insts
            },
    {
        if !ctx.is_valid_block(self) || !ctx.is_valid_inst(inst) {
            return Err(IrError::InvalidPointer);
        }
        let d = ctx.inst_data(inst);
        if d.container.is_some() {
            return Err(IrError::StructuralPrecondition);
        }
        let ghost c0 = *ctx;
        let ghost s0 = c0.blocks()[self].insts;
        let ghost s1 = s0.push(inst);
        proof {
            assert(c0.inst_list_wf(self));
            assert forall|x: Block| #[trigger] c0.blocks().contains_key(x) implies !c0.blocks()[x].insts.contains(inst) by {
                assert(c0.inst_list_wf(x));
                if c0.blocks()[x].insts.contains(inst) {
                    let k = choose|k: int| 0 <= k < c0.blocks()[x].insts.len() && c0.blocks()[x].insts[k] == inst;
                    assert(c0.inst_linked(x, c0.blocks()[x].insts, k));
                }
            }
        }
        let tail = ctx.block_ref(self).tail();
        ctx.set_inst(inst, InstData { kind: d.kind, next: None, prev: tail, container: Some(self) });
        match tail {
            Some(t) => {
                proof {
                    assert(c0.inst_linked(self, s0, s0.len() - 1));
                }
                let td = ctx.inst_data(t);
                ctx.set_inst(t, InstData { kind: td.kind, next: Some(inst), prev: td.prev, container: td.container });
            },
            None => {
                ctx.set_head(self, Some(inst));
            },
        }
        ctx.set_tail(self, Some(inst));
        ctx.set_inst_list(self, Ghost(s1));
        proof {
            assert(ctx.blocks().dom() =~= c0.blocks().dom());
            assert(ctx.insts().dom() =~= c0.insts().dom());
            assert(s1.no_duplicates()) by {
                assert(!s0.contains(inst));
            }
            assert(ctx.inst_list_wf(self)) by {
                assert forall|k: int| 0 <= k < s1.len() implies #[trigger] ctx.inst_linked(self, s1, k) by {
                    if k < s0.len() {
                        assert(c0.inst_linked(self, s0, k));
                        assert(s0[k] != inst);
                    }
                }
            }
            assert forall|x: Block| #[trigger] ctx.blocks().contains_key(x) && x != self implies ctx.inst_list_wf(x) by {
                assert(c0.inst_list_wf(x));
                let s = c0.blocks()[x].insts;
                assert forall|k: int| 0 <= k < s.len() implies #[trigger] ctx.inst_linked(x, s, k) by {
                    assert(c0.inst_linked(x, s, k));
                    assert(s[k] != inst);
                    if tail is Some {
                        let t = tail.unwrap();
                        assert(c0.inst_linked(self, s0, s0.len() - 1));
                        assert(s[k] != t);
                    }
                }
            }
            assert(ctx.lists_wf()) by {
                assert forall|i: Inst| #[trigger] ctx.insts().contains_key(i) && ctx.insts()[i].container is Some implies {
                    let b = ctx.insts()[i].container.unwrap();
                    ctx.blocks().contains_key(b) && ctx.blocks()[b].insts.contains(i)
                } by {
                    if i == inst {
                        assert(s1[s0.len() as int] == inst);
                    } else {
                        let b = c0.insts()[i].container.unwrap();
                        if b == self {
                            let k = choose|k: int| 0 <= k < s0.len() && s0[k] == i;
                            assert(s1[k] == i);
                        }
                    }
                }
            }
            assert(ctx.def_use_wf()) by {
                assert forall|j: Inst, slot: usize|
                    #[trigger] ctx.insts().contains_key(j) && #[trigger] operand_of(ctx.insts()[j].kind, slot) is Some
                    implies {
                    let b = operand_of(ctx.insts()[j].kind, slot).unwrap();
                    ctx.blocks().contains_key(b) && ctx.blocks()[b].users.contains(User { inst: j, slot })
                } by {
                    assert(c0.insts().contains_key(j));
                }
            }
            assert(ctx.funcs_wf()) by {
                assert forall|f: Func| #[trigger] ctx.funcs().contains_key(f) implies ctx.block_list_wf(f) by {
                    assert(c0.block_list_wf(f));
                    let s = ctx.funcs()[f].blocks;
                    assert forall|k: int| 0 <= k < s.len() implies #[trigger] ctx.block_linked(f, s, k) by {
                        assert(c0.block_linked(f, s, k));
                    }
                }
            }
        }
        Ok(())
    }

    /// Links an unlinked instruction at the start of this block's list.
    /// Fails with `InvalidPointer` when the block or the instruction is
    /// absent, and with `StructuralPrecondition` when the instruction is
    /// already in a list.
    pub fn prepend_inst(self, ctx: &mut Context, inst: Inst) -> (r: Result<(), IrError>)
        requires
            old(ctx).wf(),
        ensures
            final(ctx).wf(),
            r is Err ==> *final(ctx) == *old(ctx),
            r is Err ==> r == Err::<(), IrError>(IrError::InvalidPointer) || r == Err::<(), IrError>(
                IrError::StructuralPrecondition,
            ),
            r == Err::<(), IrError>(IrError::InvalidPointer) <==> !old(ctx).blocks().contains_key(self)
                || !old(ctx).insts().contains_key(inst),
            r == Err::<(), IrError>(IrError::StructuralPrecondition) <==> old(ctx).blocks().contains_key(
                self,
            ) && old(ctx).insts().contains_key(inst) && old(ctx).insts()[inst].container is Some,
            r is Ok ==> {
                &&& old(ctx).same_nodes(*final(ctx))
                &&& final(ctx).blocks()[self].insts == seq![inst] + old(ctx).blocks()[self].insts
                &&& final(ctx).insts()[inst].container == Some(self)
                &&& forall|x: Block| #[trigger]
                    old(ctx).blocks().contains_key(x) && x != self ==> final(ctx).blocks()[x].insts
                        == old(ctx).blocks()[x].insts
            },
    {
        if !ctx.is_valid_block(self) || !ctx.is_valid_inst(inst) {
            return Err(IrError::InvalidPointer);
        }
        if ctx.inst_data(inst).container.is_some() {
            return Err(IrError::StructuralPrecondition);
        }
        let ghost c0 = *ctx;
        let ghost s0 = c0.blocks()[self].insts;
        proof {
            assert(c0.inst_list_wf(self));
        }
        match ctx.block_ref(self).head() {
            Some(h) => {
                proof {
                    assert(c0.inst_linked(self, s0, 0));
                    assert(s0.contains(h));
                    let j = s0.index_of(h);
                    assert(0 <= j < s0.len() && s0[j] == h);
                    assert(j == 0);
                    assert(s0.insert(0, inst) =~= seq![inst] + s0);
                }
                h.insert_before(ctx, inst)
            },
            None => {
                proof {
                    assert(s0.push(inst) =~= seq![inst] + s0);
                }
                self.append_inst(ctx, inst)
            },
        }
    }

    /// Takes `inst`, which is in this block's list, out of the list: the
    /// neighbours are linked to each other, head and tail follow, and the
    /// instruction is left with no links and no container.
    pub(crate) fn unlink_inst(self, ctx: &mut Context, inst: Inst)
        requires
            old(ctx).wf(),
            old(ctx).blocks().contains_key(self),
            old(ctx).insts().contains_key(inst),
            old(ctx).insts()[inst].container == Some(self),
        ensures
            final(ctx).wf(),
            old(ctx).same_nodes(*final(ctx)),
            final(ctx).insts()[inst].container is None,
            final(ctx).blocks()[self].insts == old(ctx).blocks()[self].insts.remove(
                old(ctx).blocks()[self].insts.index_of(inst),
            ),
            forall|x: Block| #[trigger]
                old(ctx).blocks().contains_key(x) && x != self ==> final(ctx).blocks()[x].insts
                    == old(ctx).blocks()[x].insts,
    {
        let ghost c0 = *ctx;
        let ghost s0 = c0.blocks()[self].insts;
        proof {
            assert(c0.inst_list_wf(self));
            assert(s0.contains(inst));
        }
        let ghost k = s0.index_of(inst);
        let ghost s1 = s0.remove(k);
        proof {
            assert(0 <= k < s0.len() && s0[k] == inst);
            assert(c0.inst_linked(self, s0, k));
            if k > 0 {
                assert(c0.inst_linked(self, s0, k - 1));
            }
            if k + 1 < s0.len() {
                assert(c0.inst_linked(self, s0, k + 1));
            }
        }
        let d = ctx.inst_data(inst);
        let prev = d.prev;
        let next = d.next;
        let bd = ctx.block_ref(self);
        if bd.head() == Some(inst) {
            ctx.set_head(self, next);
        }
        let bd = ctx.block_ref(self);
        if bd.tail() == Some(inst) {
            ctx.set_tail(self, prev);
        }
        match prev {
            Some(p) => {
                let pd = ctx.inst_data(p);
                ctx.set_inst(p, InstData { kind: pd.kind, next, prev: pd.prev, container: pd.container });
            },
            None => {},
        }
        match next {
            Some(n) => {
                let nd = ctx.inst_data(n);
                ctx.set_inst(n, InstData { kind: nd.kind, next: nd.next, prev, container: nd.container });
            },
            None => {},
        }
        ctx.set_inst(inst, InstData { kind: d.kind, next: None, prev: None, container: None });
        ctx.set_inst_list(self, Ghost(s1));
        proof {
            assert(ctx.blocks().dom() =~= c0.blocks().dom());
            assert(ctx.insts().dom() =~= c0.insts().dom());
            assert(s1.no_duplicates()) by {
                assert forall|p: int, q: int| 0 <= p < q < s1.len() implies s1[p] != s1[q] by {
                    let pp = if p < k { p } else { p + 1 };
                    let qq = if q < k { q } else { q + 1 };
                    assert(s1[p] == s0[pp]);
                    assert(s1[q] == s0[qq]);
                }
            }
            assert(ctx.inst_list_wf(self)) by {
                if s1.len() > 0 {
                    if k == 0 {
                        assert(s1[0] == s0[1]);
                    } else {
                        assert(s1[0] == s0[0]);
                    }
                    if k == s0.len() - 1 {
                        assert(s1.last() == s0[k - 1]);
                    } else {
                        assert(s1.last() == s0.last());
                    }
                }
                assert forall|j: int| 0 <= j < s1.len() implies #[trigger] ctx.inst_linked(self, s1, j) by {
                    let jj = if j < k { j } else { j + 1 };
                    assert(s1[j] == s0[jj]);
                    assert(c0.inst_linked(self, s0, jj));
                    assert(s0[jj] != inst);
                    if j > 0 {
                        let pj = if j - 1 < k { j - 1 } else { j };
                        assert(s1[j - 1] == s0[pj]);
                    }
                    if j + 1 < s1.len() {
                        let nj = if j + 1 < k { j + 1 } else { j + 2 };
                        assert(s1[j + 1] == s0[nj]);
                    }
                }
            }
            assert forall|x: Block| #[trigger] ctx.blocks().contains_key(x) && x != self implies ctx.inst_list_wf(x) by {
                assert(c0.inst_list_wf(x));
                let s = c0.blocks()[x].insts;
                assert forall|j: int| 0 <= j < s.len() implies #[trigger] ctx.inst_linked(x, s, j) by {
                    assert(c0.inst_linked(x, s, j));
                    assert(s[j] != inst);
                    if k > 0 {
                        assert(s[j] != s0[k - 1]);
                    }
                    if k + 1 < s0.len() {
                        assert(s[j] != s0[k + 1]);
                    }
                }
            }
            assert(ctx.lists_wf()) by {
                assert forall|i: Inst| #[trigger] ctx.insts().contains_key(i) && ctx.insts()[i].container is Some implies {
                    let b = ctx.insts()[i].container.unwrap();
                    ctx.blocks().contains_key(b) && ctx.blocks()[b].insts.contains(i)
                } by {
                    let b = c0.insts()[i].container.unwrap();
                    if b == self {
                        let j = choose|j: int| 0 <= j < s0.len() && s0[j] == i;
                        assert(j != k);
                        if j < k {
                            assert(s1[j] == i);
                        } else {
                            assert(s1[j - 1] == i);
                        }
                    }
                }
            }
            assert(ctx.def_use_wf()) by {
                assert forall|j: Inst, slot: usize|
                    #[trigger] ctx.insts().contains_key(j) && #[trigger] operand_of(ctx.insts()[j].kind, slot) is Some
                    implies {
                    let b = operand_of(ctx.insts()[j].kind, slot).unwrap();
                    ctx.blocks().contains_key(b) && ctx.blocks()[b].users.contains(User { inst: j, slot })
                } by {
                    assert(c0.insts().contains_key(j));
                }
            }
            assert(ctx.funcs_wf()) by {
                assert forall|f: Func| #[trigger] ctx.funcs().contains_key(f) implies ctx.block_list_wf(f) by {
                    assert(c0.block_list_wf(f));
                    let s = ctx.funcs()[f].blocks;
                    assert forall|j: int| 0 <= j < s.len() implies #[trigger] ctx.block_linked(f, s, j) by {
                        assert(c0.block_linked(f, s, j));
                    }
                }
            }
        }
    }

    /// Takes `inst` out of this block's list and deallocates it; its block
    /// operands stop being users of their blocks. Fails with
    /// `InvalidPointer` when the block or the instruction is absent, and
    /// with `StructuralPrecondition` when the instruction is not in this
    /// block.
    pub fn remove_inst(self, ctx: &mut Context, inst: Inst) -> (r: Result<(), IrError>)
        requires
            old(ctx).wf(),
        ensures
            final(ctx).wf(),
            r is Err ==> *final(ctx) == *old(ctx),
            r is Err ==> r == Err::<(), IrError>(IrError::InvalidPointer) || r == Err::<(), IrError>(
                IrError::StructuralPrecondition,
            ),
            r == Err::<(), IrError>(IrError::InvalidPointer) <==> !old(ctx).blocks().contains_key(self)
                || !old(ctx).insts().contains_key(inst),
            r == Err::<(), IrError>(IrError::StructuralPrecondition) <==> old(ctx).blocks().contains_key(
                self,
            ) && old(ctx).insts().contains_key(inst) && old(ctx).insts()[inst].container != Some(self),
            r is Ok ==> {
                &&& old(ctx).same_slots(*final(ctx))
                &&& final(ctx).insts().dom() == old(ctx).insts().dom().remove(inst)
                &&& forall|i: Inst| #[trigger]
                    final(ctx).insts().contains_key(i) ==> final(ctx).insts()[i].kind == old(ctx).insts()[i].kind
                &&& final(ctx).funcs() == old(ctx).funcs()
                &&& final(ctx).blocks().dom() == old(ctx).blocks().dom()
                &&& final(ctx).blocks()[self].insts == old(ctx).blocks()[self].insts.remove(
                    old(ctx).blocks()[self].insts.index_of(inst),
                )
                &&& !final(ctx).blocks()[self].insts.contains(inst)
                &&& forall|b: Block| #[trigger] final(ctx).blocks().contains_key(b) ==> {
                    let o = old(ctx).blocks()[b];
                    let n = final(ctx).blocks()[b];
                    &&& b != self ==> n.insts == o.insts
                    &&& n.next == o.next
                    &&& n.prev == o.prev
                    &&& n.container == o.container
                    &&& n.successors == o.successors
                    &&& forall|u: User| #[trigger] n.users.contains(u) <==> o.users.contains(u) && u.inst != inst
                }
            },
    {
        if !ctx.is_valid_block(self) || !ctx.is_valid_inst(inst) {
            return Err(IrError::InvalidPointer);
        }
        if ctx.inst_data(inst).container != Some(self) {
            return Err(IrError::StructuralPrecondition);
        }
        let ghost c0 = *ctx;
        self.unlink_inst(ctx, inst);
        let ghost c1 = *ctx;
        inst.release(ctx);
        proof {
            assert(ctx.insts().dom() =~= c0.insts().dom().remove(inst));
            assert(c1.inst_list_wf(self));
            let s1 = c1.blocks()[self].insts;
            if s1.contains(inst) {
                let j = choose|j: int| 0 <= j < s1.len() && s1[j] == inst;
                assert(c1.inst_linked(self, s1, j));
            }
            assert forall|b: Block| #[trigger] ctx.blocks().contains_key(b) implies
                forall|u: User| #[trigger] ctx.blocks()[b].users.contains(u) <==> c0.blocks()[b].users.contains(u) && u.inst != inst by {
                assert forall|u: User| #[trigger] ctx.blocks()[b].users.contains(u) <==> c0.blocks()[b].users.contains(u) && u.inst != inst by {
                    assert(c1.blocks()[b].users.contains(u) == c0.blocks()[b].users.contains(u));
                }
            }
        }
        Ok(())
    }

    /// The set of outgoing edges of a live block.
    pub open spec fn succ_set(self, ctx: Context) -> Set<BlockEdge> {
        ctx.blocks()[self].successors.to_set()
    }

    /// What a successful `add_successor` leaves: the successor set gains
    /// the edge, and nothing else changes.
    pub open spec fn added_successor(
        self,
        c0: Context,
        c1: Context,
        successor: Block,
        inst: Inst,
        true_br: bool,
    ) -> bool {
        &&& c0.block_updated(
            c1,
            self,
            BlockView { successors: c1.blocks()[self].successors, ..c0.blocks()[self] },
        )
        &&& self.succ_set(c1) == self.succ_set(c0).insert(
            edge_for(c0.insts()[inst].kind, successor, inst, true_br),
        )
    }

    /// What a successful `remove_successor` leaves.
    pub open spec fn removed_successor(
        self,
        c0: Context,
        c1: Context,
        successor: Block,
        inst: Inst,
        true_br: bool,
    ) -> bool {
        let s0 = c0.blocks()[self].insts;
        let k = s0.index_of(inst);
        &&& c1.funcs() == c0.funcs()
        &&& c1.blocks().dom() == c0.blocks().dom()
        &&& c1.block_slots() == c0.block_slots()
        &&& c1.func_slots() == c0.func_slots()
        &&& !c1.insts().contains_key(inst)
        &&& !c1.blocks()[self].insts.contains(inst)
        &&& (c0.insts()[inst].kind is Br) ==> {
            &&& self.succ_set(c1) == self.succ_set(c0).remove(
                BlockEdge(successor, inst, false),
            )
            &&& c1.blocks()[self].insts == s0.remove(k)
            &&& c1.insts().dom() == c0.insts().dom().remove(inst)
            &&& c1.inst_slots() == c0.inst_slots()
        }
        &&& (c0.insts()[inst].kind is CondBr) ==> {
            let keep = operand_of(c0.insts()[inst].kind, if true_br { 1 } else { 0 }).unwrap();
            let n = Inst { index: c0.inst_slots() as usize };
            &&& !c0.insts().contains_key(n)
            &&& self.succ_set(c1) == self.succ_set(c0).remove(
                BlockEdge(successor, inst, true_br),
            ).remove(BlockEdge(keep, inst, !true_br)).insert(BlockEdge(keep, n, false))
            &&& c1.blocks()[self].insts == s0.update(k, n)
            &&& c1.insts().dom() == c0.insts().dom().remove(inst).insert(n)
            &&& c1.insts()[n].kind == InstKind::Br(keep)
            &&& c1.inst_slots() == c0.inst_slots() + 1
        }
    }

    /// Records the control-flow edge that terminator `inst` makes to
    /// `successor`. Fails with `InvalidPointer` when the block or the
    /// instruction is absent, and with `StructuralPrecondition` when the
    /// instruction is no branch.
    pub fn add_successor(self, ctx: &mut Context, successor: Block, inst: Inst, true_br: bool) -> (r: Result<(), IrError>)
        requires
            old(ctx).wf(),
        ensures
            final(ctx).wf(),
            r is Err ==> *final(ctx) == *old(ctx),
            r is Err ==> r == Err::<(), IrError>(IrError::InvalidPointer) || r == Err::<(), IrError>(
                IrError::StructuralPrecondition,
            ),
            r == Err::<(), IrError>(IrError::InvalidPointer) <==> !old(ctx).blocks().contains_key(self)
                || !old(ctx).insts().contains_key(inst),
            r == Err::<(), IrError>(IrError::StructuralPrecondition) <==> old(ctx).blocks().contains_key(
                self,
            ) && old(ctx).insts().contains_key(inst) && !is_branch(old(ctx).insts()[inst].kind),
            r is Ok ==> self.added_successor(*old(ctx), *final(ctx), successor, inst, true_br),
            r is Ok && old(ctx).insts()[inst].kind is Br && self.succ_set(*old(ctx)).is_empty() ==> self.succ_set(
                *final(ctx),
            ) == set![BlockEdge(successor, inst, false)],
    {
        if !ctx.is_valid_block(self) || !ctx.is_valid_inst(inst) {
            return Err(IrError::InvalidPointer);
        }
        let ghost c0 = *ctx;
        let edge = match ctx.inst_data(inst).kind {
            InstKind::Br(_) => BlockEdge(successor, inst, false),
            InstKind::CondBr(_, _) => BlockEdge(successor, inst, true_br),
            InstKind::Other => {
                return Err(IrError::StructuralPrecondition);
            },
        };
        self.insert_edge_wf(ctx, edge);
        assert(self.succ_set(c0).is_empty() ==> self.succ_set(c0) =~= Set::<BlockEdge>::empty());
        Ok(())
    }

    /// Adds an edge to this block's successors, keeping the invariant.
    fn insert_edge_wf(self, ctx: &mut Context, edge: BlockEdge)
        requires
            old(ctx).wf(),
            old(ctx).blocks().contains_key(self),
        ensures
            final(ctx).wf(),
            old(ctx).block_updated(
                *final(ctx),
                self,
                BlockView { successors: final(ctx).blocks()[self].successors, ..old(ctx).blocks()[self] },
            ),
            self.succ_set(*final(ctx)) == self.succ_set(*old(ctx)).insert(edge),
    {
        let ghost c0 = *ctx;
        ctx.insert_edge(self, edge);
        proof {
            assert(self.succ_set(*ctx) =~= self.succ_set(c0).insert(edge));
            lemma_successors_frame(c0, *ctx, self);
        }
    }

    /// Drops an edge from this block's successors, keeping the invariant.
    fn remove_edge_wf(self, ctx: &mut Context, edge: BlockEdge)
        requires
            old(ctx).wf(),
            old(ctx).blocks().contains_key(self),
        ensures
            final(ctx).wf(),
            old(ctx).block_updated(
                *final(ctx),
                self,
                BlockView { successors: final(ctx).blocks()[self].successors, ..old(ctx).blocks()[self] },
            ),
            self.succ_set(*final(ctx)) == self.succ_set(*old(ctx)).remove(edge),
    {
        let ghost c0 = *ctx;
        ctx.remove_edge(self, edge);
        proof {
            assert(self.succ_set(*ctx) =~= self.succ_set(c0).remove(edge));
            lemma_successors_frame(c0, *ctx, self);
        }
    }

    /// Empties the successor set.
    pub fn clear_successors(self, ctx: &mut Context)
        requires
            old(ctx).wf(),
            old(ctx).blocks().contains_key(self),
        ensures
            final(ctx).wf(),
            old(ctx).block_updated(
                *final(ctx),
                self,
                BlockView { successors: Seq::empty(), ..old(ctx).blocks()[self] },
            ),
            self.succ_set(*final(ctx)) == Set::<BlockEdge>::empty(),
    {
        let ghost c0 = *ctx;
        ctx.set_successors(self, Vec::new());
        proof {
            assert(self.succ_set(*ctx) =~= Set::<BlockEdge>::empty());
            lemma_successors_frame(c0, *ctx, self);
        }
    }

    /// Replaces the successor set by the edges of `successors`.
    pub fn copy_successors(self, ctx: &mut Context, successors: Vec<BlockEdge>)
        requires
            old(ctx).wf(),
            old(ctx).blocks().contains_key(self),
        ensures
            final(ctx).wf(),
            old(ctx).block_updated(
                *final(ctx),
                self,
                BlockView { successors: final(ctx).blocks()[self].successors, ..old(ctx).blocks()[self] },
            ),
            self.succ_set(*final(ctx)) == successors@.to_set(),
    {
        let ghost c0 = *ctx;
        let mut set: Vec<BlockEdge> = Vec::new();
        let mut i: usize = 0;
        while i < successors.len()
            invariant
                i <= successors@.len(),
                set@.no_duplicates(),
                forall|e: BlockEdge| #[trigger] set@.contains(e) <==> successors@.subrange(0, i as int).contains(e),
            decreases successors@.len() - i,
        {
            let ghost before = set@;
            insert_unique_edge(&mut set, successors[i]);
            proof {
                let pre = successors@.subrange(0, i as int);
                let post = successors@.subrange(0, i + 1);
                assert forall|e: BlockEdge| #[trigger] set@.contains(e) <==> post.contains(e) by {
                    if post.contains(e) {
                        let j = choose|j: int| 0 <= j < post.len() && post[j] == e;
                        if j < i {
                            assert(pre[j] == e);
                        }
                    }
                    if pre.contains(e) {
                        let j = choose|j: int| 0 <= j < pre.len() && pre[j] == e;
                        assert(post[j] == e);
                    }
                    if e == successors@[i as int] {
                        assert(post[i as int] == e);
                    }
                }
            }
            i = i + 1;
        }
        ctx.set_successors(self, set);
        proof {
            assert(successors@.subrange(0, successors@.len() as int) =~= successors@);
            assert(self.succ_set(*ctx) =~= successors@.to_set());
            lemma_successors_frame(c0, *ctx, self);
        }
    }


    /// Removes the edge that terminator `inst` makes to `successor`.
    ///
    /// For an unconditional branch the edge goes and the terminator is
    /// removed from the block, which is then left without one. For a
    /// two-way branch both of its edges go and the branch is replaced, at
    /// its place in the list, by a new unconditional branch to the arm that
    /// stays, with that branch's single edge. The new branch is allocated
    /// at the next instruction slot.
    ///
    /// Fails with `InvalidPointer` when the block or the instruction is
    /// absent, and with `StructuralPrecondition` when the instruction is no
    /// branch or is not in this block.
    pub fn remove_successor(self, ctx: &mut Context, successor: Block, inst: Inst, true_br: bool) -> (r: Result<(), IrError>)
        requires
            old(ctx).wf(),
            old(ctx).inst_slots() < usize::MAX,
        ensures
            final(ctx).wf(),
            r is Err ==> *final(ctx) == *old(ctx),
            r is Err ==> r == Err::<(), IrError>(IrError::InvalidPointer) || r == Err::<(), IrError>(
                IrError::StructuralPrecondition,
            ),
            r == Err::<(), IrError>(IrError::InvalidPointer) <==> !old(ctx).blocks().contains_key(self)
                || !old(ctx).insts().contains_key(inst),
            r == Err::<(), IrError>(IrError::StructuralPrecondition) <==> old(ctx).blocks().contains_key(
                self,
            ) && old(ctx).insts().contains_key(inst) && (!is_branch(old(ctx).insts()[inst].kind)
                || old(ctx).insts()[inst].container != Some(self)),
            r is Ok ==> self.removed_successor(*old(ctx), *final(ctx), successor, inst, true_br),
    {
        if !ctx.is_valid_block(self) || !ctx.is_valid_inst(inst) {
            return Err(IrError::InvalidPointer);
        }
        let d = ctx.inst_data(inst);
        if d.container != Some(self) {
            return Err(IrError::StructuralPrecondition);
        }
        let ghost c0 = *ctx;
        let ghost s0 = c0.blocks()[self].insts;
        proof {
            assert(c0.inst_list_wf(self));
            assert(s0.contains(inst));
            assert(0 <= s0.index_of(inst) < s0.len() && s0[s0.index_of(inst)] == inst);
        }
        match d.kind {
            InstKind::Br(_) => {
                self.remove_edge_wf(ctx, BlockEdge(successor, inst, false));
                let ghost c1 = *ctx;
                let rr = self.remove_inst(ctx, inst);
                proof {
                    assert(rr is Ok);
                    assert(c1.blocks()[self].insts == s0);
                    assert(c1.blocks().dom() =~= c0.blocks().dom());
                    assert(ctx.blocks().dom() =~= c0.blocks().dom());
                    assert(ctx.insts().dom() =~= c0.insts().dom().remove(inst));
                    assert(self.succ_set(*ctx) =~= self.succ_set(c1));
                }
                Ok(())
            },
            InstKind::CondBr(t, f) => {
                let keep = if true_br { f } else { t };
                proof {
                    assert(c0.def_use_wf());
                    assert(operand_of(d.kind, 0usize) is Some);
                    assert(operand_of(d.kind, 1usize) is Some);
                    assert(keep == operand_of(d.kind, if true_br { 1 } else { 0 }).unwrap());
                }
                self.remove_edge_wf(ctx, BlockEdge(successor, inst, true_br));
                self.remove_edge_wf(ctx, BlockEdge(keep, inst, !true_br));
                let ghost c2 = *ctx;
                let ghost set2 = self.succ_set(c2);
                let new_inst = match Inst::new(ctx, InstKind::Br(keep)) {
                    Ok(n) => n,
                    Err(e) => {
                        proof {
                            assert(operands_live(c2, InstKind::Br(keep)));
                        }
                        return Err(e);
                    },
                };
                let ghost c3 = *ctx;
                proof {
                    assert(self.succ_set(c3) =~= set2);
                    assert(c3.blocks()[self].insts == s0);
                }
                let r1 = inst.insert_after(ctx, new_inst);
                let ghost c4 = *ctx;
                let ghost s4 = c4.blocks()[self].insts;
                let ghost k = s0.index_of(inst);
                proof {
                    assert(r1 is Ok);
                    assert(s4 == s0.insert(k + 1, new_inst));
                    assert(self.succ_set(c4) =~= set2);
                    assert(c4.inst_list_wf(self));
                    assert(s4[k] == inst);
                    assert(c4.inst_linked(self, s4, k));
                    assert(s4.index_of(inst) == k) by {
                        let j = s4.index_of(inst);
                        assert(s4.contains(inst));
                        assert(0 <= j < s4.len() && s4[j] == inst);
                    }
                }
                let r2 = self.remove_inst(ctx, inst);
                let ghost c5 = *ctx;
                proof {
                    assert(r2 is Ok);
                    assert(c5.blocks()[self].insts =~= s0.update(k, new_inst));
                    assert(self.succ_set(c5) =~= set2);
                }
                self.insert_edge_wf(ctx, BlockEdge(keep, new_inst, false));
                proof {
                    assert(ctx.insts().dom() =~= c0.insts().dom().remove(inst).insert(new_inst));
                    assert(ctx.blocks().dom() =~= c0.blocks().dom());
                    let n = Inst { index: c0.inst_slots() as usize };
                    assert(n == new_inst);
                }
                Ok(())
            },
            InstKind::Other => Err(IrError::StructuralPrecondition),
        }
    }

    /// Asks the owning function to detach and deallocate this block (see
    /// `Func::remove_block`). Fails with `InvalidPointer` when the block is
    /// absent, with `StructuralPrecondition` when it is in no function, and
    /// with `InvariantViolation` when it still holds instructions or still
    /// has users.
    pub fn remove(self, ctx: &mut Context) -> (r: Result<(), IrError>)
        requires
            old(ctx).wf(),
        ensures
            final(ctx).wf(),
            r is Err ==> *final(ctx) == *old(ctx),
            r == Err::<(), IrError>(IrError::InvalidPointer) <==> !old(ctx).blocks().contains_key(self),
            r == Err::<(), IrError>(IrError::StructuralPrecondition) <==> old(ctx).blocks().contains_key(
                self,
            ) && old(ctx).blocks()[self].container is None,
            r == Err::<(), IrError>(IrError::InvariantViolation) <==> old(ctx).blocks().contains_key(self)
                && old(ctx).blocks()[self].container is Some && (old(ctx).blocks()[self].users.len() > 0
                || old(ctx).blocks()[self].insts.len() > 0),
            r is Ok ==> {
                let f = old(ctx).blocks()[self].container.unwrap();
                let s = old(ctx).funcs()[f].blocks;
                &&& old(ctx).same_slots(*final(ctx))
                &&& final(ctx).blocks().dom() == old(ctx).blocks().dom().remove(self)
                &&& final(ctx).insts() == old(ctx).insts()
                &&& final(ctx).funcs().dom() == old(ctx).funcs().dom()
                &&& final(ctx).funcs()[f].blocks == s.remove(s.index_of(self))
            },
    {
        if !ctx.is_valid_block(self) {
            return Err(IrError::InvalidPointer);
        }
        match ctx.block_ref(self).container() {
            None => Err(IrError::StructuralPrecondition),
            Some(f) => {
                proof {
                    assert(ctx.funcs_wf());
                }
                f.remove_block(ctx, self)
            },
        }
    }

    pub fn head(self, ctx: &Context) -> (r: Option<Inst>)
        requires
            ctx.blocks().contains_key(self),
        ensures
            r == ctx.blocks()[self].head,
    {
        ctx.block_ref(self).head()
    }

    pub fn tail(self, ctx: &Context) -> (r: Option<Inst>)
        requires
            ctx.blocks().contains_key(self),
        ensures
            r == ctx.blocks()[self].tail,
    {
        ctx.block_ref(self).tail()
    }

    pub fn next(self, ctx: &Context) -> (r: Option<Block>)
        requires
            ctx.blocks().contains_key(self),
        ensures
            r == ctx.blocks()[self].next,
    {
        ctx.block_ref(self).next()
    }

    pub fn prev(self, ctx: &Context) -> (r: Option<Block>)
        requires
            ctx.blocks().contains_key(self),
        ensures
            r == ctx.blocks()[self].prev,
    {
        ctx.block_ref(self).prev()
    }

    pub fn container(self, ctx: &Context) -> (r: Option<Func>)
        requires
            ctx.blocks().contains_key(self),
        ensures
            r == ctx.blocks()[self].container,
    {
        ctx.block_ref(self).container()
    }

    /// The operand positions that refer to a live block.
    pub fn users(self, ctx: &Context) -> (r: &Vec<User>)
        requires
            ctx.blocks().contains_key(self),
        ensures
            r@ == ctx.blocks()[self].users,
    {
        ctx.block_ref(self).users()
    }

    /// The outgoing edges of a live block.
    pub fn successors(self, ctx: &Context) -> (r: &Vec<BlockEdge>)
        requires
            ctx.blocks().contains_key(self),
        ensures
            r@ == ctx.blocks()[self].successors,
    {
        ctx.block_ref(self).successors()
    }
}

/// Changing the successor list of one block, without duplicates, keeps
/// the invariant.
proof fn lemma_successors_frame(c0: Context, c1: Context, b: Block)
    requires
        c0.wf(),
        c0.blocks().contains_key(b),
        c0.block_updated(c1, b, BlockView { successors: c1.blocks()[b].successors, ..c0.blocks()[b] }),
        c1.blocks()[b].successors.no_duplicates(),
    ensures
        c1.wf(),
{
    assert forall|x: Block| #[trigger] c1.blocks().contains_key(x) implies c1.inst_list_wf(x) by {
        assert(c0.inst_list_wf(x));
        let s = c1.blocks()[x].insts;
        assert forall|k: int| 0 <= k < s.len() implies #[trigger] c1.inst_linked(x, s, k) by {
            assert(c0.inst_linked(x, s, k));
        }
    }
    assert forall|f: Func| #[trigger] c1.funcs().contains_key(f) implies c1.block_list_wf(f) by {
        assert(c0.block_list_wf(f));
        let s = c1.funcs()[f].blocks;
        assert forall|k: int| 0 <= k < s.len() implies #[trigger] c1.block_linked(f, s, k) by {
            assert(c0.block_linked(f, s, k));
        }
    }
    assert(c1.def_use_wf()) by {
        assert forall|j: Inst, slot: usize|
            #[trigger] c1.insts().contains_key(j) && #[trigger] operand_of(c1.insts()[j].kind, slot) is Some
            implies {
            let x = operand_of(c1.insts()[j].kind, slot).unwrap();
            c1.blocks().contains_key(x) && c1.blocks()[x].users.contains(User { inst: j, slot })
        } by {
            assert(c0.insts().contains_key(j));
        }
    }
}

} // verus!

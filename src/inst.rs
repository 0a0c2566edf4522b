use vstd::prelude::*;

use crate::context::{Context, InstData};
use crate::handles::{operand_of, Block, Func, Inst, InstKind, IrError, User};

verus! {

/// Every block that an instruction of kind `k` names is live in `ctx`.
pub open spec fn operands_live(ctx: Context, k: InstKind) -> bool {
    forall|slot: usize| #[trigger] operand_of(k, slot) is Some ==> ctx.blocks().contains_key(
        operand_of(k, slot).unwrap(),
    )
}

impl Inst {
    /// Creates an unlinked instruction and registers each of its block
    /// operands as a user of that block. Fails with `InvalidPointer` when
    /// an operand names an absent block.
    pub fn new(ctx: &mut Context, kind: InstKind) -> (r: Result<Inst, IrError>)
        requires
            old(ctx).wf(),
            old(ctx).inst_slots() < usize::MAX,
        ensures
            final(ctx).wf(),
            r is Err <==> !operands_live(*old(ctx), kind),
            r is Err ==> r == Err::<Inst, IrError>(IrError::InvalidPointer) && *final(ctx) == *old(ctx),
            r is Ok ==> {
                let i = r.unwrap();
                &&& i.id() == old(ctx).inst_slots()
                &&& final(ctx).inst_slots() == old(ctx).inst_slots() + 1
                &&& final(ctx).block_slots() == old(ctx).block_slots()
                &&& final(ctx).func_slots() == old(ctx).func_slots()
                &&& !old(ctx).insts().contains_key(i)
                &&& final(ctx).insts() == old(ctx).insts().insert(
                    i,
                    InstData { kind, next: None, prev: None, container: None },
                )
                &&& final(ctx).blocks().dom() == old(ctx).blocks().dom()
                &&& final(ctx).funcs() == old(ctx).funcs()
                &&& forall|b: Block| #[trigger] final(ctx).blocks().contains_key(b) ==> {
                    let o = old(ctx).blocks()[b];
                    let n = final(ctx).blocks()[b];
                    &&& n.insts == o.insts
                    &&& n.head == o.head
                    &&& n.tail == o.tail
                    &&& n.next == o.next
                    &&& n.prev == o.prev
                    &&& n.container == o.container
                    &&& n.successors == o.successors
                    &&& forall|u: User| #[trigger] n.users.contains(u) <==> o.users.contains(u) || (
                    u.inst == i && operand_of(kind, u.slot) == Some(b))
                }
            },
    {
        match kind {
            InstKind::Br(t) => {
                if !ctx.is_valid_block(t) {
                    assert(operand_of(kind, 0usize) == Some(t));
                    return Err(IrError::InvalidPointer);
                }
            },
            InstKind::CondBr(t, f) => {
                if !ctx.is_valid_block(t) || !ctx.is_valid_block(f) {
                    assert(operand_of(kind, 0usize) == Some(t));
                    assert(operand_of(kind, 1usize) == Some(f));
                    return Err(IrError::InvalidPointer);
                }
            },
            InstKind::Other => {},
        }
        let ghost c0 = *ctx;
        let i = ctx.alloc_inst(kind);
        let ghost c1 = *ctx;
        match kind {
            InstKind::Br(t) => {
                ctx.insert_user(t, User { inst: i, slot: 0 });
            },
            InstKind::CondBr(t, f) => {
                ctx.insert_user(t, User { inst: i, slot: 0 });
                let ghost c2 = *ctx;
                assert(c2.blocks()[f].users.no_duplicates());
                ctx.insert_user(f, User { inst: i, slot: 1 });
            },
            InstKind::Other => {},
        }
        assert(ctx.lists_wf()) by {
            assert forall|x: Block| #[trigger] ctx.blocks().contains_key(x) implies ctx.inst_list_wf(x) by {
                assert(c0.inst_list_wf(x));
                let s = ctx.blocks()[x].insts;
                assert forall|k: int| 0 <= k < s.len() implies #[trigger] ctx.inst_linked(x, s, k) by {
                    assert(c0.inst_linked(x, s, k));
                }
            }
        }
        assert(ctx.funcs_wf()) by {
            assert forall|f: Func| #[trigger] ctx.funcs().contains_key(f) implies ctx.block_list_wf(f) by {
                assert(c0.block_list_wf(f));
                let s = ctx.funcs()[f].blocks;
                assert forall|k: int| 0 <= k < s.len() implies #[trigger] ctx.block_linked(f, s, k) by {
                    assert(c0.block_linked(f, s, k));
                }
            }
        }
        assert(ctx.def_use_wf()) by {
            assert forall|j: Inst, slot: usize|
                #[trigger] ctx.insts().contains_key(j) && #[trigger] operand_of(ctx.insts()[j].kind, slot) is Some
                implies {
                let b = operand_of(ctx.insts()[j].kind, slot).unwrap();
                ctx.blocks().contains_key(b) && ctx.blocks()[b].users.contains(User { inst: j, slot })
            } by {
                if j != i {
                    assert(c0.insts().contains_key(j));
                }
            }
        }
        Ok(i)
    }

    /// The data of a live instruction.
    pub fn data(self, ctx: &Context) -> (r: InstData)
        requires
            ctx.insts().contains_key(self),
        ensures
            r == ctx.insts()[self],
    {
        ctx.inst_data(self)
    }

    pub fn kind(self, ctx: &Context) -> (r: InstKind)
        requires
            ctx.insts().contains_key(self),
        ensures
            r == ctx.insts()[self].kind,
    {
        ctx.inst_data(self).kind
    }

    pub fn next(self, ctx: &Context) -> (r: Option<Inst>)
        requires
            ctx.insts().contains_key(self),
        ensures
            r == ctx.insts()[self].next,
    {
        ctx.inst_data(self).next
    }

    pub fn prev(self, ctx: &Context) -> (r: Option<Inst>)
        requires
            ctx.insts().contains_key(self),
        ensures
            r == ctx.insts()[self].prev,
    {
        ctx.inst_data(self).prev
    }

    pub fn container(self, ctx: &Context) -> (r: Option<Block>)
        requires
            ctx.insts().contains_key(self),
        ensures
            r == ctx.insts()[self].container,
    {
        ctx.inst_data(self).container
    }

    /// Block operand `slot` of a live instruction, where there is one.
    pub fn successor(self, ctx: &Context, slot: usize) -> (r: Option<Block>)
        requires
            ctx.insts().contains_key(self),
        ensures
            r == operand_of(ctx.insts()[self].kind, slot),
    {
        match ctx.inst_data(self).kind {
            InstKind::Br(t) => if slot == 0 {
                Some(t)
            } else {
                None
            },
            InstKind::CondBr(t, f) => if slot == 0 {
                Some(t)
            } else if slot == 1 {
                Some(f)
            } else {
                None
            },
            InstKind::Other => None,
        }
    }

    /// Releases an instruction that is in no list: its block operands stop
    /// being users of their blocks, and its slot is emptied.
    pub(crate) fn release(self, ctx: &mut Context)
        requires
            old(ctx).wf(),
            old(ctx).insts().contains_key(self),
            old(ctx).insts()[self].container is None,
        ensures
            final(ctx).wf(),
            final(ctx).insts() == old(ctx).insts().remove(self),
            final(ctx).funcs() == old(ctx).funcs(),
            old(ctx).same_slots(*final(ctx)),
            final(ctx).blocks().dom() == old(ctx).blocks().dom(),
            forall|b: Block| #[trigger] final(ctx).blocks().contains_key(b) ==> {
                let o = old(ctx).blocks()[b];
                let n = final(ctx).blocks()[b];
                &&& n.insts == o.insts
                &&& n.head == o.head
                &&& n.tail == o.tail
                &&& n.next == o.next
                &&& n.prev == o.prev
                &&& n.container == o.container
                &&& n.successors == o.successors
                &&& forall|u: User| #[trigger] n.users.contains(u) <==> o.users.contains(u) && u.inst != self
            },
    {
        let ghost c0 = *ctx;
        let d = ctx.inst_data(self);
        proof {
            assert(c0.def_use_wf());
        }
        match d.kind {
            InstKind::Br(t) => {
                assert(operand_of(d.kind, 0usize) is Some);
                ctx.remove_user(t, User { inst: self, slot: 0 });
            },
            InstKind::CondBr(t, f) => {
                assert(operand_of(d.kind, 0usize) is Some);
                assert(operand_of(d.kind, 1usize) is Some);
                ctx.remove_user(t, User { inst: self, slot: 0 });
                let ghost c2 = *ctx;
                assert(c2.blocks()[f].users.no_duplicates());
                ctx.remove_user(f, User { inst: self, slot: 1 });
            },
            InstKind::Other => {},
        }
        let _ = ctx.try_dealloc_inst(self);
        proof {
            assert(ctx.blocks().dom() =~= c0.blocks().dom());
            assert forall|b: Block| #[trigger] ctx.blocks().contains_key(b) implies
                forall|u: User| #[trigger] ctx.blocks()[b].users.contains(u) <==> c0.blocks()[b].users.contains(u) && u.inst != self by {
                assert forall|u: User| #[trigger] ctx.blocks()[b].users.contains(u) <==> c0.blocks()[b].users.contains(u) && u.inst != self by {
                    if c0.blocks()[b].users.contains(u) && u.inst == self {
                        assert(operand_of(d.kind, u.slot) == Some(b));
                    }
                }
            }
            assert(ctx.lists_wf()) by {
                assert forall|x: Block| #[trigger] ctx.blocks().contains_key(x) implies ctx.inst_list_wf(x) by {
                    assert(c0.inst_list_wf(x));
                    let s = ctx.blocks()[x].insts;
                    assert forall|k: int| 0 <= k < s.len() implies #[trigger] ctx.inst_linked(x, s, k) by {
                        assert(c0.inst_linked(x, s, k));
                    }
                }
            }
            assert(ctx.funcs_wf()) by {
                assert forall|f: Func| #[trigger] ctx.funcs().contains_key(f) implies ctx.block_list_wf(f) by {
                    assert(c0.block_list_wf(f));
                    let s = ctx.funcs()[f].blocks;
                    assert forall|k: int| 0 <= k < s.len() implies #[trigger] ctx.block_linked(f, s, k) by {
                        assert(c0.block_linked(f, s, k));
                    }
                }
            }
            assert(ctx.def_use_wf()) by {
                assert forall|j: Inst, slot: usize|
                    #[trigger] ctx.insts().contains_key(j) && #[trigger] operand_of(ctx.insts()[j].kind, slot) is Some
                    implies {
                    let b = operand_of(ctx.insts()[j].kind, slot).unwrap();
                    ctx.blocks().contains_key(b) && ctx.blocks()[b].users.contains(User { inst: j, slot })
                } by {
                    assert(c0.insts().contains_key(j));
                }
            }
        }
    }

    /// Links the unlinked instruction `new` right after this one, in this
    /// one's block. Fails with `InvalidPointer` when either is absent, and
    /// with `StructuralPrecondition` when this instruction is in no block
    /// or `new` is already in one.
    pub fn insert_after(self, ctx: &mut Context, new: Inst) -> (r: Result<(), IrError>)
        requires
            old(ctx).wf(),
        ensures
            final(ctx).wf(),
            r is Err ==> *final(ctx) == *old(ctx),
            r is Err ==> r == Err::<(), IrError>(IrError::InvalidPointer) || r == Err::<(), IrError>(
                IrError::StructuralPrecondition,
            ),
            r == Err::<(), IrError>(IrError::InvalidPointer) <==> !old(ctx).insts().contains_key(self)
                || !old(ctx).insts().contains_key(new),
            r == Err::<(), IrError>(IrError::StructuralPrecondition) <==> old(ctx).insts().contains_key(
                self,
            ) && old(ctx).insts().contains_key(new) && (old(ctx).insts()[self].container is None
                || old(ctx).insts()[new].container is Some),
            r is Ok ==> {
                let b = old(ctx).insts()[self].container.unwrap();
                let s = old(ctx).blocks()[b].insts;
                &&& old(ctx).same_nodes(*final(ctx))
                &&& final(ctx).insts()[new].container == Some(b)
                &&& final(ctx).blocks()[b].insts == s.insert(s.index_of(self) + 1, new)
                &&& forall|x: Block| #[trigger]
                    old(ctx).blocks().contains_key(x) && x != b ==> final(ctx).blocks()[x].insts
                        == old(ctx).blocks()[x].insts
            },
    {
        if !ctx.is_valid_inst(self) || !ctx.is_valid_inst(new) {
            return Err(IrError::InvalidPointer);
        }
        let d = ctx.inst_data(self);
        let nd = ctx.inst_data(new);
        if d.container.is_none() || nd.container.is_some() {
            return Err(IrError::StructuralPrecondition);
        }
        let b = d.container.unwrap();
        let ghost c0 = *ctx;
        let ghost s0 = c0.blocks()[b].insts;
        proof {
            assert(c0.inst_list_wf(b));
            assert(s0.contains(self));
        }
        let ghost k = s0.index_of(self);
        let ghost s1 = s0.insert(k + 1, new);
        proof {
            assert(0 <= k < s0.len() && s0[k] == self);
            assert(c0.inst_linked(b, s0, k));
            if k + 1 < s0.len() {
                assert(c0.inst_linked(b, s0, k + 1));
            }
            assert(!s0.contains(new)) by {
                if s0.contains(new) {
                    let j = choose|j: int| 0 <= j < s0.len() && s0[j] == new;
                    assert(c0.inst_linked(b, s0, j));
                }
            }
            assert forall|x: Block| #[trigger] c0.blocks().contains_key(x) implies !c0.blocks()[x].insts.contains(new) by {
                assert(c0.inst_list_wf(x));
                if c0.blocks()[x].insts.contains(new) {
                    let j = choose|j: int| 0 <= j < c0.blocks()[x].insts.len() && c0.blocks()[x].insts[j] == new;
                    assert(c0.inst_linked(x, c0.blocks()[x].insts, j));
                }
            }
        }
        let next = d.next;
        ctx.set_inst(new, InstData { kind: nd.kind, next, prev: Some(self), container: Some(b) });
        ctx.set_inst(self, InstData { kind: d.kind, next: Some(new), prev: d.prev, container: d.container });
        match next {
            Some(n) => {
                let xd = ctx.inst_data(n);
                ctx.set_inst(n, InstData { kind: xd.kind, next: xd.next, prev: Some(new), container: xd.container });
            },
            None => {
                ctx.set_tail(b, Some(new));
            },
        }
        ctx.set_inst_list(b, Ghost(s1));
        proof {
            assert(ctx.blocks().dom() =~= c0.blocks().dom());
            assert(ctx.insts().dom() =~= c0.insts().dom());
            assert(s1.no_duplicates()) by {
                assert forall|p: int, q: int| 0 <= p < q < s1.len() implies s1[p] != s1[q] by {
                    if p != k + 1 && q != k + 1 {
                        let pp = if p <= k { p } else { p - 1 };
                        let qq = if q <= k { q } else { q - 1 };
                        assert(s1[p] == s0[pp]);
                        assert(s1[q] == s0[qq]);
                    } else if p == k + 1 {
                        assert(s1[q] == s0[q - 1]);
                    } else {
                        assert(s1[p] == s0[p]);
                    }
                }
            }
            assert(ctx.inst_list_wf(b)) by {
                assert(s1[0] == s0[0]);
                if k + 1 == s0.len() {
                    assert(s1.last() == new);
                } else {
                    assert(s1.last() == s0.last());
                }
                assert forall|j: int| 0 <= j < s1.len() implies #[trigger] ctx.inst_linked(b, s1, j) by {
                    if j != k + 1 {
                        let jj = if j <= k { j } else { j - 1 };
                        assert(s1[j] == s0[jj]);
                        assert(c0.inst_linked(b, s0, jj));
                        if j > 0 && j - 1 != k + 1 {
                            let pj = if j - 1 <= k { j - 1 } else { j - 2 };
                            assert(s1[j - 1] == s0[pj]);
                        }
                        if j + 1 < s1.len() && j + 1 != k + 1 {
                            let nj = if j + 1 <= k { j + 1 } else { j };
                            assert(s1[j + 1] == s0[nj]);
                        }
                    } else {
                        if j + 1 < s1.len() {
                            assert(s1[j + 1] == s0[k + 1]);
                        }
                    }
                }
            }
            assert forall|x: Block| #[trigger] ctx.blocks().contains_key(x) && x != b implies ctx.inst_list_wf(x) by {
                assert(c0.inst_list_wf(x));
                let s = c0.blocks()[x].insts;
                assert forall|j: int| 0 <= j < s.len() implies #[trigger] ctx.inst_linked(x, s, j) by {
                    assert(c0.inst_linked(x, s, j));
                    assert(s[j] != new);
                    assert(s[j] != self);
                    if k + 1 < s0.len() {
                        assert(c0.inst_linked(b, s0, k + 1));
                        assert(s[j] != s0[k + 1]);
                    }
                }
            }
            assert(ctx.lists_wf()) by {
                assert forall|i: Inst| #[trigger] ctx.insts().contains_key(i) && ctx.insts()[i].container is Some implies {
                    let c = ctx.insts()[i].container.unwrap();
                    ctx.blocks().contains_key(c) && ctx.blocks()[c].insts.contains(i)
                } by {
                    if i == new {
                        assert(s1[k + 1] == new);
                    } else {
                        let c = c0.insts()[i].container.unwrap();
                        if c == b {
                            let j = choose|j: int| 0 <= j < s0.len() && s0[j] == i;
                            if j <= k {
                                assert(s1[j] == i);
                            } else {
                                assert(s1[j + 1] == i);
                            }
                        }
                    }
                }
            }
            assert(ctx.def_use_wf()) by {
                assert forall|j: Inst, slot: usize|
                    #[trigger] ctx.insts().contains_key(j) && #[trigger] operand_of(ctx.insts()[j].kind, slot) is Some
                    implies {
                    let x = operand_of(ctx.insts()[j].kind, slot).unwrap();
                    ctx.blocks().contains_key(x) && ctx.blocks()[x].users.contains(User { inst: j, slot })
                } by {
                    assert(c0.insts().contains_key(j));
                }
            }
            assert(ctx.funcs_wf()) by {
                assert forall|f: Func| #[trigger] ctx.funcs().contains_key(f) implies ctx.block_list_wf(f) by {
                    assert(c0.block_list_wf(f));
                    let s = ctx.funcs()[f].blocks;
                    assert forall|j: int| 0 <= j < s.len() implies #[trigger] ctx.block_linked(f, s, j) by {
                        assert(c0.block_linked(f, s, j));
                    }
                }
            }
        }
        Ok(())
    }

    /// Links the unlinked instruction `new` right before this one, in this
    /// one's block. Fails with `InvalidPointer` when either is absent, and
    /// with `StructuralPrecondition` when this instruction is in no block
    /// or `new` is already in one.
    pub fn insert_before(self, ctx: &mut Context, new: Inst) -> (r: Result<(), IrError>)
        requires
            old(ctx).wf(),
        ensures
            final(ctx).wf(),
            r is Err ==> *final(ctx) == *old(ctx),
            r is Err ==> r == Err::<(), IrError>(IrError::InvalidPointer) || r == Err::<(), IrError>(
                IrError::StructuralPrecondition,
            ),
            r == Err::<(), IrError>(IrError::InvalidPointer) <==> !old(ctx).insts().contains_key(self)
                || !old(ctx).insts().contains_key(new),
            r == Err::<(), IrError>(IrError::StructuralPrecondition) <==> old(ctx).insts().contains_key(
                self,
            ) && old(ctx).insts().contains_key(new) && (old(ctx).insts()[self].container is None
                || old(ctx).insts()[new].container is Some),
            r is Ok ==> {
                let b = old(ctx).insts()[self].container.unwrap();
                let s = old(ctx).blocks()[b].insts;
                &&& old(ctx).same_nodes(*final(ctx))
                &&& final(ctx).insts()[new].container == Some(b)
                &&& final(ctx).blocks()[b].insts == s.insert(s.index_of(self), new)
                &&& forall|x: Block| #[trigger]
                    old(ctx).blocks().contains_key(x) && x != b ==> final(ctx).blocks()[x].insts
                        == old(ctx).blocks()[x].insts
            },
    {
        if !ctx.is_valid_inst(self) || !ctx.is_valid_inst(new) {
            return Err(IrError::InvalidPointer);
        }
        let d = ctx.inst_data(self);
        let nd = ctx.inst_data(new);
        if d.container.is_none() || nd.container.is_some() {
            return Err(IrError::StructuralPrecondition);
        }
        let b = d.container.unwrap();
        let ghost c0 = *ctx;
        let ghost s0 = c0.blocks()[b].insts;
        proof {
            assert(c0.inst_list_wf(b));
            assert(s0.contains(self));
        }
        let ghost k = s0.index_of(self);
        let ghost s1 = s0.insert(k, new);
        proof {
            assert(0 <= k < s0.len() && s0[k] == self);
            assert(c0.inst_linked(b, s0, k));
            if k > 0 {
                assert(c0.inst_linked(b, s0, k - 1));
            }
            assert(!s0.contains(new)) by {
                if s0.contains(new) {
                    let j = choose|j: int| 0 <= j < s0.len() && s0[j] == new;
                    assert(c0.inst_linked(b, s0, j));
                }
            }
            assert forall|x: Block| #[trigger] c0.blocks().contains_key(x) implies !c0.blocks()[x].insts.contains(new) by {
                assert(c0.inst_list_wf(x));
                if c0.blocks()[x].insts.contains(new) {
                    let j = choose|j: int| 0 <= j < c0.blocks()[x].insts.len() && c0.blocks()[x].insts[j] == new;
                    assert(c0.inst_linked(x, c0.blocks()[x].insts, j));
                }
            }
        }
        let prev = d.prev;
        ctx.set_inst(new, InstData { kind: nd.kind, next: Some(self), prev, container: Some(b) });
        ctx.set_inst(self, InstData { kind: d.kind, next: d.next, prev: Some(new), container: d.container });
        match prev {
            Some(p) => {
                let xd = ctx.inst_data(p);
                ctx.set_inst(p, InstData { kind: xd.kind, next: Some(new), prev: xd.prev, container: xd.container });
            },
            None => {
                ctx.set_head(b, Some(new));
            },
        }
        ctx.set_inst_list(b, Ghost(s1));
        proof {
            assert(ctx.blocks().dom() =~= c0.blocks().dom());
            assert(ctx.insts().dom() =~= c0.insts().dom());
            assert(s1.no_duplicates()) by {
                assert forall|p: int, q: int| 0 <= p < q < s1.len() implies s1[p] != s1[q] by {
                    if p != k && q != k {
                        let pp = if p < k { p } else { p - 1 };
                        let qq = if q < k { q } else { q - 1 };
                        assert(s1[p] == s0[pp]);
                        assert(s1[q] == s0[qq]);
                    } else if p == k {
                        assert(s1[q] == s0[q - 1]);
                    } else {
                        assert(s1[p] == s0[p]);
                    }
                }
            }
            assert(ctx.inst_list_wf(b)) by {
                if k == 0 {
                    assert(s1[0] == new);
                } else {
                    assert(s1[0] == s0[0]);
                }
                assert(s1.last() == s0.last());
                assert forall|j: int| 0 <= j < s1.len() implies #[trigger] ctx.inst_linked(b, s1, j) by {
                    if j != k {
                        let jj = if j < k { j } else { j - 1 };
                        assert(s1[j] == s0[jj]);
                        assert(c0.inst_linked(b, s0, jj));
                        if j > 0 && j - 1 != k {
                            let pj = if j - 1 < k { j - 1 } else { j - 2 };
                            assert(s1[j - 1] == s0[pj]);
                        }
                        if j + 1 < s1.len() && j + 1 != k {
                            let nj = if j + 1 < k { j + 1 } else { j };
                            assert(s1[j + 1] == s0[nj]);
                        }
                    } else {
                        assert(s1[j + 1] == s0[k]);
                        if j > 0 {
                            assert(s1[j - 1] == s0[k - 1]);
                        }
                    }
                }
            }
            assert forall|x: Block| #[trigger] ctx.blocks().contains_key(x) && x != b implies ctx.inst_list_wf(x) by {
                assert(c0.inst_list_wf(x));
                let s = c0.blocks()[x].insts;
                assert forall|j: int| 0 <= j < s.len() implies #[trigger] ctx.inst_linked(x, s, j) by {
                    assert(c0.inst_linked(x, s, j));
                    assert(s[j] != new);
                    assert(s[j] != self);
                    if k > 0 {
                        assert(c0.inst_linked(b, s0, k - 1));
                        assert(s[j] != s0[k - 1]);
                    }
                }
            }
            assert(ctx.lists_wf()) by {
                assert forall|i: Inst| #[trigger] ctx.insts().contains_key(i) && ctx.insts()[i].container is Some implies {
                    let c = ctx.insts()[i].container.unwrap();
                    ctx.blocks().contains_key(c) && ctx.blocks()[c].insts.contains(i)
                } by {
                    if i == new {
                        assert(s1[k] == new);
                    } else {
                        let c = c0.insts()[i].container.unwrap();
                        if c == b {
                            let j = choose|j: int| 0 <= j < s0.len() && s0[j] == i;
                            if j < k {
                                assert(s1[j] == i);
                            } else {
                                assert(s1[j + 1] == i);
                            }
                        }
                    }
                }
            }
            assert(ctx.def_use_wf()) by {
                assert forall|j: Inst, slot: usize|
                    #[trigger] ctx.insts().contains_key(j) && #[trigger] operand_of(ctx.insts()[j].kind, slot) is Some
                    implies {
                    let x = operand_of(ctx.insts()[j].kind, slot).unwrap();
                    ctx.blocks().contains_key(x) && ctx.blocks()[x].users.contains(User { inst: j, slot })
                } by {
                    assert(c0.insts().contains_key(j));
                }
            }
            assert(ctx.funcs_wf()) by {
                assert forall|f: Func| #[trigger] ctx.funcs().contains_key(f) implies ctx.block_list_wf(f) by {
                    assert(c0.block_list_wf(f));
                    let s = ctx.funcs()[f].blocks;
                    assert forall|j: int| 0 <= j < s.len() implies #[trigger] ctx.block_linked(f, s, j) by {
                        assert(c0.block_linked(f, s, j));
                    }
                }
            }
        }
        Ok(())
    }

    /// Takes this instruction out of the block list that holds it, without
    /// deallocating it. Fails with `InvalidPointer` when it is absent and
    /// with `StructuralPrecondition` when it is in no block.
    pub fn unlink(self, ctx: &mut Context) -> (r: Result<(), IrError>)
        requires
            old(ctx).wf(),
        ensures
            final(ctx).wf(),
            r is Err ==> *final(ctx) == *old(ctx),
            r == Err::<(), IrError>(IrError::InvalidPointer) <==> !old(ctx).insts().contains_key(self),
            r == Err::<(), IrError>(IrError::StructuralPrecondition) <==> old(ctx).insts().contains_key(self)
                && old(ctx).insts()[self].container is None,
            r is Ok ==> {
                let b = old(ctx).insts()[self].container.unwrap();
                let s = old(ctx).blocks()[b].insts;
                &&& old(ctx).same_nodes(*final(ctx))
                &&& final(ctx).insts()[self].container is None
                &&& final(ctx).blocks()[b].insts == s.remove(s.index_of(self))
                &&& forall|x: Block| #[trigger]
                    old(ctx).blocks().contains_key(x) && x != b ==> final(ctx).blocks()[x].insts
                        == old(ctx).blocks()[x].insts
            },
    {
        if !ctx.is_valid_inst(self) {
            return Err(IrError::InvalidPointer);
        }
        match ctx.inst_data(self).container {
            None => Err(IrError::StructuralPrecondition),
            Some(b) => {
                proof {
                    assert(ctx.lists_wf());
                }
                b.unlink_inst(ctx, self);
                Ok(())
            },
        }
    }
}

} // verus!

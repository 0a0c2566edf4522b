use vstd::prelude::*;

use crate::context::{BlockView, Context, FuncView};
use crate::handles::{operand_of, Block, Func, Inst, IrError, User};

verus! {

/// Changing the block-list links of blocks and the list of one function
/// leaves every instruction list and the def-use records as they were.
proof fn lemma_block_links_frame(c0: Context, c1: Context)
    requires
        c0.wf(),
        c1.blocks().dom() == c0.blocks().dom(),
        c1.insts() == c0.insts(),
        forall|b: Block| #[trigger] c0.blocks().contains_key(b) ==> {
            let o = c0.blocks()[b];
            let n = c1.blocks()[b];
            &&& n.users == o.users
            &&& n.successors == o.successors
            &&& n.insts == o.insts
            &&& n.head == o.head
            &&& n.tail == o.tail
        },
    ensures
        c1.lists_wf(),
        c1.def_use_wf(),
        c1.edges_wf(),
{
    assert forall|x: Block| #[trigger] c1.blocks().contains_key(x) implies c1.inst_list_wf(x) by {
        assert(c0.inst_list_wf(x));
        let s = c1.blocks()[x].insts;
        assert forall|k: int| 0 <= k < s.len() implies #[trigger] c1.inst_linked(x, s, k) by {
            assert(c0.inst_linked(x, s, k));
        }
    }
    assert(c1.def_use_wf()) by {
        assert forall|j: Inst, slot: usize|
            #[trigger] c1.insts().contains_key(j) && #[trigger] operand_of(c1.insts()[j].kind, slot) is Some
            implies {
            let x = operand_of(c1.insts()[j].kind, slot).unwrap();
            c1.blocks().contains_key(x) && c1.blocks()[x].users.contains(User { inst: j, slot })
        } by {
            assert(c0.insts().contains_key(j));
        }
    }
}

impl Func {
    /// Allocates a function with an empty block list.
    pub fn new(ctx: &mut Context) -> (f: Func)
        requires
            old(ctx).wf(),
            old(ctx).func_slots() < usize::MAX,
        ensures
            final(ctx).wf(),
            !old(ctx).funcs().contains_key(f),
            final(ctx).funcs() == old(ctx).funcs().insert(
                f,
                FuncView { blocks: Seq::empty(), head: None, tail: None },
            ),
            final(ctx).blocks() == old(ctx).blocks(),
            final(ctx).insts() == old(ctx).insts(),
            f.id() == old(ctx).func_slots(),
            final(ctx).func_slots() == old(ctx).func_slots() + 1,
            final(ctx).block_slots() == old(ctx).block_slots(),
            final(ctx).inst_slots() == old(ctx).inst_slots(),
    {
        let ghost c0 = *ctx;
        let f = ctx.alloc_func();
        proof {
            lemma_block_links_frame(c0, *ctx);
            assert forall|g: Func| #[trigger] ctx.funcs().contains_key(g) implies ctx.block_list_wf(g) by {
                if g != f {
                    assert(c0.block_list_wf(g));
                    let s = ctx.funcs()[g].blocks;
                    assert forall|k: int| 0 <= k < s.len() implies #[trigger] ctx.block_linked(g, s, k) by {
                        assert(c0.block_linked(g, s, k));
                    }
                }
            }
        }
        f
    }

    /// Attaches an unattached block at the end of this function's list.
    /// Fails with `InvalidPointer` when the function or the block is
    /// absent, and with `StructuralPrecondition` when the block is already
    /// attached.
    pub fn append_block(self, ctx: &mut Context, block: Block) -> (r: Result<(), IrError>)
        requires
            old(ctx).wf(),
        ensures
            final(ctx).wf(),
            r is Err ==> *final(ctx) == *old(ctx),
            r is Err ==> r == Err::<(), IrError>(IrError::InvalidPointer) || r == Err::<(), IrError>(
                IrError::StructuralPrecondition,
            ),
            r == Err::<(), IrError>(IrError::InvalidPointer) <==> !old(ctx).funcs().contains_key(self)
                || !old(ctx).blocks().contains_key(block),
            r == Err::<(), IrError>(IrError::StructuralPrecondition) <==> old(ctx).funcs().contains_key(
                self,
            ) && old(ctx).blocks().contains_key(block) && old(ctx).blocks()[block].container is Some,
            r is Ok ==> {
                &&& old(ctx).same_slots(*final(ctx))
                &&& final(ctx).funcs().dom() == old(ctx).funcs().dom()
                &&& final(ctx).funcs()[self].blocks == old(ctx).funcs()[self].blocks.push(block)
                &&& forall|g: Func| #[trigger]
                    old(ctx).funcs().contains_key(g) && g != self ==> final(ctx).funcs()[g]
                        == old(ctx).funcs()[g]
                &&& final(ctx).insts() == old(ctx).insts()
                &&& final(ctx).blocks().dom() == old(ctx).blocks().dom()
                &&& final(ctx).blocks()[block].container == Some(self)
            },
    {
        if !ctx.is_valid_func(self) || !ctx.is_valid_block(block) {
            return Err(IrError::InvalidPointer);
        }
        if ctx.block_ref(block).container().is_some() {
            return Err(IrError::StructuralPrecondition);
        }
        let ghost c0 = *ctx;
        let ghost s0 = c0.funcs()[self].blocks;
        let ghost s1 = s0.push(block);
        proof {
            assert(c0.block_list_wf(self));
            assert forall|g: Func| #[trigger] c0.funcs().contains_key(g) implies !c0.funcs()[g].blocks.contains(block) by {
                assert(c0.block_list_wf(g));
                if c0.funcs()[g].blocks.contains(block) {
                    let k = choose|k: int| 0 <= k < c0.funcs()[g].blocks.len() && c0.funcs()[g].blocks[k] == block;
                    assert(c0.block_linked(g, c0.funcs()[g].blocks, k));
                }
            }
        }
        let fd = ctx.func_ref(self);
        let tail = fd.tail();
        let head = fd.head();
        ctx.set_prev(block, tail);
        ctx.set_next(block, None);
        ctx.set_container(block, Some(self));
        let new_head = match tail {
            Some(t) => {
                proof {
                    assert(c0.block_linked(self, s0, s0.len() - 1));
                }
                ctx.set_next(t, Some(block));
                head
            },
            None => Some(block),
        };
        ctx.set_func_list(self, new_head, Some(block), Ghost(s1));
        proof {
            assert(ctx.blocks().dom() =~= c0.blocks().dom());
            assert(ctx.funcs().dom() =~= c0.funcs().dom());
            lemma_block_links_frame(c0, *ctx);
            assert(s1.no_duplicates()) by {
                assert(!s0.contains(block));
            }
            assert(ctx.block_list_wf(self)) by {
                assert forall|k: int| 0 <= k < s1.len() implies #[trigger] ctx.block_linked(self, s1, k) by {
                    if k < s0.len() {
                        assert(c0.block_linked(self, s0, k));
                        assert(s0[k] != block);
                    }
                }
            }
            assert forall|g: Func| #[trigger] ctx.funcs().contains_key(g) && g != self implies ctx.block_list_wf(g) by {
                assert(c0.block_list_wf(g));
                let s = c0.funcs()[g].blocks;
                assert forall|k: int| 0 <= k < s.len() implies #[trigger] ctx.block_linked(g, s, k) by {
                    assert(c0.block_linked(g, s, k));
                    assert(s[k] != block);
                    if tail is Some {
                        assert(c0.block_linked(self, s0, s0.len() - 1));
                        assert(s[k] != tail.unwrap());
                    }
                }
            }
            assert(ctx.funcs_wf()) by {
                assert forall|b: Block| #[trigger] ctx.blocks().contains_key(b) && ctx.blocks()[b].container is Some implies {
                    let f = ctx.blocks()[b].container.unwrap();
                    ctx.funcs().contains_key(f) && ctx.funcs()[f].blocks.contains(b)
                } by {
                    if b == block {
                        assert(s1[s0.len() as int] == block);
                    } else {
                        let f = c0.blocks()[b].container.unwrap();
                        if f == self {
                            let k = choose|k: int| 0 <= k < s0.len() && s0[k] == b;
                            assert(s1[k] == b);
                        }
                    }
                }
            }
        }
        Ok(())
    }

    /// Takes `block`, which is in this function's list, out of the list:
    /// its neighbours are linked to each other, head and tail follow, and
    /// the block is left with no links and no container.
    fn unlink_block(self, ctx: &mut Context, block: Block)
        requires
            old(ctx).wf(),
            old(ctx).funcs().contains_key(self),
            old(ctx).blocks().contains_key(block),
            old(ctx).blocks()[block].container == Some(self),
        ensures
            final(ctx).wf(),
            final(ctx).insts() == old(ctx).insts(),
            old(ctx).same_slots(*final(ctx)),
            final(ctx).blocks().dom() == old(ctx).blocks().dom(),
            final(ctx).funcs().dom() == old(ctx).funcs().dom(),
            final(ctx).blocks()[block].container is None,
            final(ctx).blocks()[block].users == old(ctx).blocks()[block].users,
            final(ctx).blocks()[block].insts == old(ctx).blocks()[block].insts,
            final(ctx).funcs()[self].blocks == old(ctx).funcs()[self].blocks.remove(
                old(ctx).funcs()[self].blocks.index_of(block),
            ),
            forall|g: Func| #[trigger]
                old(ctx).funcs().contains_key(g) && g != self ==> final(ctx).funcs()[g] == old(ctx).funcs()[g],
    {
        let ghost c0 = *ctx;
        let ghost s0 = c0.funcs()[self].blocks;
        proof {
            assert(c0.block_list_wf(self));
            assert(s0.contains(block));
        }
        let ghost k = s0.index_of(block);
        let ghost s1 = s0.remove(k);
        proof {
            assert(0 <= k < s0.len() && s0[k] == block);
            assert(c0.block_linked(self, s0, k));
            if k > 0 {
                assert(c0.block_linked(self, s0, k - 1));
            }
            if k + 1 < s0.len() {
                assert(c0.block_linked(self, s0, k + 1));
            }
        }
        let bd = ctx.block_ref(block);
        let prev = bd.prev();
        let next = bd.next();
        let fd = ctx.func_ref(self);
        let head = if fd.head() == Some(block) { next } else { fd.head() };
        let tail = if fd.tail() == Some(block) { prev } else { fd.tail() };
        match prev {
            Some(p) => {
                ctx.set_next(p, next);
            },
            None => {},
        }
        match next {
            Some(n) => {
                ctx.set_prev(n, prev);
            },
            None => {},
        }
        ctx.set_next(block, None);
        ctx.set_prev(block, None);
        ctx.set_container(block, None);
        ctx.set_func_list(self, head, tail, Ghost(s1));
        proof {
            assert(ctx.blocks().dom() =~= c0.blocks().dom());
            assert(ctx.funcs().dom() =~= c0.funcs().dom());
            lemma_block_links_frame(c0, *ctx);
            assert(s1.no_duplicates()) by {
                assert forall|p: int, q: int| 0 <= p < q < s1.len() implies s1[p] != s1[q] by {
                    let pp = if p < k { p } else { p + 1 };
                    let qq = if q < k { q } else { q + 1 };
                    assert(s1[p] == s0[pp]);
                    assert(s1[q] == s0[qq]);
                }
            }
            assert(ctx.block_list_wf(self)) by {
                if s1.len() > 0 {
                    if k == 0 {
                        assert(s1[0] == s0[1]);
                    } else {
                        assert(s1[0] == s0[0]);
                    }
                    if k == s0.len() - 1 {
                        assert(s1.last() == s0[k - 1]);
                    } else {
                        assert(s1.last() == s0.last());
                    }
                }
                assert forall|j: int| 0 <= j < s1.len() implies #[trigger] ctx.block_linked(self, s1, j) by {
                    let jj = if j < k { j } else { j + 1 };
                    assert(s1[j] == s0[jj]);
                    assert(c0.block_linked(self, s0, jj));
                    assert(s0[jj] != block);
                    if j > 0 {
                        let pj = if j - 1 < k { j - 1 } else { j };
                        assert(s1[j - 1] == s0[pj]);
                    }
                    if j + 1 < s1.len() {
                        let nj = if j + 1 < k { j + 1 } else { j + 2 };
                        assert(s1[j + 1] == s0[nj]);
                    }
                }
            }
            assert forall|g: Func| #[trigger] ctx.funcs().contains_key(g) && g != self implies ctx.block_list_wf(g) by {
                assert(c0.block_list_wf(g));
                let s = c0.funcs()[g].blocks;
                assert forall|j: int| 0 <= j < s.len() implies #[trigger] ctx.block_linked(g, s, j) by {
                    assert(c0.block_linked(g, s, j));
                    assert(s[j] != block);
                    if k > 0 {
                        assert(s[j] != s0[k - 1]);
                    }
                    if k + 1 < s0.len() {
                        assert(s[j] != s0[k + 1]);
                    }
                }
            }
            assert(ctx.funcs_wf()) by {
                assert forall|b: Block| #[trigger] ctx.blocks().contains_key(b) && ctx.blocks()[b].container is Some implies {
                    let f = ctx.blocks()[b].container.unwrap();
                    ctx.funcs().contains_key(f) && ctx.funcs()[f].blocks.contains(b)
                } by {
                    let f = c0.blocks()[b].container.unwrap();
                    if f == self {
                        let j = choose|j: int| 0 <= j < s0.len() && s0[j] == b;
                        assert(j != k);
                        if j < k {
                            assert(s1[j] == b);
                        } else {
                            assert(s1[j - 1] == b);
                        }
                    }
                }
            }
        }
    }

    /// Detaches `block` from this function's list and deallocates it. The
    /// caller must first take out its instructions and every reference to
    /// it (the branches that target it), so that nothing is left dangling.
    /// Fails with `InvalidPointer` when the function or the block is
    /// absent, with `StructuralPrecondition` when the block is not in this
    /// function, and with `InvariantViolation` when the block still holds
    /// instructions or still has users.
    pub fn remove_block(self, ctx: &mut Context, block: Block) -> (r: Result<(), IrError>)
        requires
            old(ctx).wf(),
        ensures
            final(ctx).wf(),
            r is Err ==> *final(ctx) == *old(ctx),
            r == Err::<(), IrError>(IrError::InvalidPointer) <==> !old(ctx).funcs().contains_key(self)
                || !old(ctx).blocks().contains_key(block),
            r == Err::<(), IrError>(IrError::StructuralPrecondition) <==> old(ctx).funcs().contains_key(
                self,
            ) && old(ctx).blocks().contains_key(block) && old(ctx).blocks()[block].container != Some(self),
            r == Err::<(), IrError>(IrError::InvariantViolation) <==> old(ctx).funcs().contains_key(self)
                && old(ctx).blocks().contains_key(block) && old(ctx).blocks()[block].container == Some(self)
                && (old(ctx).blocks()[block].users.len() > 0 || old(ctx).blocks()[block].insts.len() > 0),
            r is Ok ==> {
                let s = old(ctx).funcs()[self].blocks;
                &&& old(ctx).same_slots(*final(ctx))
                &&& final(ctx).blocks().dom() == old(ctx).blocks().dom().remove(block)
                &&& final(ctx).insts() == old(ctx).insts()
                &&& final(ctx).funcs().dom() == old(ctx).funcs().dom()
                &&& final(ctx).funcs()[self].blocks == s.remove(s.index_of(block))
            },
    {
        if !ctx.is_valid_func(self) || !ctx.is_valid_block(block) {
            return Err(IrError::InvalidPointer);
        }
        let bd = ctx.block_ref(block);
        if bd.container() != Some(self) {
            return Err(IrError::StructuralPrecondition);
        }
        if bd.users().len() > 0 || bd.head().is_some() {
            proof {
                assert(ctx.inst_list_wf(block));
            }
            return Err(IrError::InvariantViolation);
        }
        proof {
            assert(ctx.inst_list_wf(block));
        }
        let ghost c0 = *ctx;
        self.unlink_block(ctx, block);
        let ghost c1 = *ctx;
        let _ = ctx.try_dealloc_block(block);
        proof {
            assert(ctx.blocks().dom() =~= c0.blocks().dom().remove(block));
            assert(c1.wf());
            assert(ctx.lists_wf()) by {
                assert forall|x: Block| #[trigger] ctx.blocks().contains_key(x) implies ctx.inst_list_wf(x) by {
                    assert(c1.inst_list_wf(x));
                    let s = ctx.blocks()[x].insts;
                    assert forall|k: int| 0 <= k < s.len() implies #[trigger] ctx.inst_linked(x, s, k) by {
                        assert(c1.inst_linked(x, s, k));
                    }
                }
                assert forall|i: Inst| #[trigger] ctx.insts().contains_key(i) && ctx.insts()[i].container is Some implies {
                    let b = ctx.insts()[i].container.unwrap();
                    ctx.blocks().contains_key(b) && ctx.blocks()[b].insts.contains(i)
                } by {
                    let b = c1.insts()[i].container.unwrap();
                    assert(c1.blocks()[b].insts.contains(i));
                }
            }
            assert(ctx.def_use_wf()) by {
                assert forall|j: Inst, slot: usize|
                    #[trigger] ctx.insts().contains_key(j) && #[trigger] operand_of(ctx.insts()[j].kind, slot) is Some
                    implies {
                    let x = operand_of(ctx.insts()[j].kind, slot).unwrap();
                    ctx.blocks().contains_key(x) && ctx.blocks()[x].users.contains(User { inst: j, slot })
                } by {
                    let x = operand_of(c1.insts()[j].kind, slot).unwrap();
                    assert(c1.blocks()[x].users.contains(User { inst: j, slot }));
                    if x == block {
                        assert(c1.blocks()[block].users.len() == 0);
                    }
                }
            }
            assert(ctx.funcs_wf()) by {
                assert forall|f: Func| #[trigger] ctx.funcs().contains_key(f) implies ctx.block_list_wf(f) by {
                    assert(c1.block_list_wf(f));
                    let s = ctx.funcs()[f].blocks;
                    assert forall|k: int| 0 <= k < s.len() implies #[trigger] ctx.block_linked(f, s, k) by {
                        assert(c1.block_linked(f, s, k));
                        assert(c1.blocks()[s[k]].container == Some(f));
                    }
                }
            }
        }
        Ok(())
    }
}

} // verus!

use vstd::prelude::*;

use crate::context::Context;
use crate::handles::{Block, Inst};

verus! {

/// The instructions met by following `next` links from `cur`, for at most
/// `fuel` steps.
pub open spec fn forward_from(ctx: Context, cur: Option<Inst>, fuel: nat) -> Seq<Inst>
    decreases fuel,
{
    if fuel == 0 || cur is None || !ctx.insts().contains_key(cur.unwrap()) {
        Seq::empty()
    } else {
        seq![cur.unwrap()] + forward_from(ctx, ctx.insts()[cur.unwrap()].next, (fuel - 1) as nat)
    }
}

/// The instructions met by following `prev` links from `cur`, for at most
/// `fuel` steps.
pub open spec fn backward_from(ctx: Context, cur: Option<Inst>, fuel: nat) -> Seq<Inst>
    decreases fuel,
{
    if fuel == 0 || cur is None || !ctx.insts().contains_key(cur.unwrap()) {
        Seq::empty()
    } else {
        seq![cur.unwrap()] + backward_from(ctx, ctx.insts()[cur.unwrap()].prev, (fuel - 1) as nat)
    }
}

proof fn lemma_forward_suffix(ctx: Context, b: Block, k: int)
    requires
        ctx.wf(),
        ctx.blocks().contains_key(b),
        0 <= k <= ctx.blocks()[b].insts.len(),
    ensures
        ({
            let s = ctx.blocks()[b].insts;
            let cur = if k < s.len() {
                Some(s[k])
            } else {
                None
            };
            forward_from(ctx, cur, (s.len() - k) as nat) == s.subrange(k, s.len() as int)
        }),
    decreases ctx.blocks()[b].insts.len() - k,
{
    let s = ctx.blocks()[b].insts;
    assert(ctx.inst_list_wf(b));
    if k < s.len() {
        assert(ctx.inst_linked(b, s, k));
        lemma_forward_suffix(ctx, b, k + 1);
        assert(s.subrange(k, s.len() as int) =~= seq![s[k]] + s.subrange(k + 1, s.len() as int));
    } else {
        assert(s.subrange(k, s.len() as int) =~= Seq::<Inst>::empty());
    }
}

proof fn lemma_backward_prefix(ctx: Context, b: Block, k: int)
    requires
        ctx.wf(),
        ctx.blocks().contains_key(b),
        0 <= k <= ctx.blocks()[b].insts.len(),
    ensures
        ({
            let s = ctx.blocks()[b].insts;
            let cur = if k > 0 {
                Some(s[k - 1])
            } else {
                None
            };
            backward_from(ctx, cur, k as nat) == s.subrange(0, k).reverse()
        }),
    decreases k,
{
    let s = ctx.blocks()[b].insts;
    assert(ctx.inst_list_wf(b));
    if k > 0 {
        assert(ctx.inst_linked(b, s, k - 1));
        lemma_backward_prefix(ctx, b, k - 1);
        assert(s.subrange(0, k).reverse() =~= seq![s[k - 1]] + s.subrange(0, k - 1).reverse());
    } else {
        assert(s.subrange(0, k).reverse() =~= Seq::<Inst>::empty());
    }
}

/// Under the invariant, which every operation on the context keeps,
/// walking a block's instruction list from head to tail by `next` links
/// and from tail to head by `prev` links meet the same instructions in
/// exactly reverse orders, none twice, each one naming the block as its
/// container.
pub proof fn lemma_walks_agree(ctx: Context, b: Block)
    requires
        ctx.wf(),
        ctx.blocks().contains_key(b),
    ensures
        ({
            let v = ctx.blocks()[b];
            let n = v.insts.len();
            let fwd = forward_from(ctx, v.head, n);
            let bwd = backward_from(ctx, v.tail, n);
            &&& fwd == v.insts
            &&& bwd == fwd.reverse()
            &&& fwd.no_duplicates()
            &&& forall|k: int| 0 <= k < n ==> #[trigger] ctx.insts()[fwd[k]].container == Some(b)
        }),
{
    let s = ctx.blocks()[b].insts;
    assert(ctx.inst_list_wf(b));
    lemma_forward_suffix(ctx, b, 0);
    lemma_backward_prefix(ctx, b, s.len() as int);
    assert(s.subrange(0, s.len() as int) =~= s);
    assert forall|k: int| 0 <= k < s.len() implies #[trigger] ctx.insts()[s[k]].container == Some(b) by {
        assert(ctx.inst_linked(b, s, k));
    }
}

impl Block {
    /// The instructions of a live block, head to tail, by `next` links.
    pub fn insts(self, ctx: &Context) -> (r: Vec<Inst>)
        requires
            ctx.wf(),
            ctx.blocks().contains_key(self),
        ensures
            r@ == ctx.blocks()[self].insts,
    {
        let ghost s = ctx.blocks()[self].insts;
        proof {
            assert(ctx.inst_list_wf(self));
        }
        let mut out: Vec<Inst> = Vec::new();
        let mut cur = ctx.block_ref(self).head();
        while cur.is_some()
            invariant
                ctx.wf(),
                ctx.blocks().contains_key(self),
                s == ctx.blocks()[self].insts,
                out@.len() <= s.len(),
                out@ == s.subrange(0, out@.len() as int),
                cur == if out@.len() < s.len() {
                    Some(s[out@.len() as int])
                } else {
                    None::<Inst>
                },
            decreases s.len() - out@.len(),
        {
            let i = cur.unwrap();
            proof {
                assert(ctx.inst_list_wf(self));
                assert(ctx.inst_linked(self, s, out@.len() as int));
            }
            out.push(i);
            cur = ctx.inst_data(i).next;
            proof {
                assert(out@ =~= s.subrange(0, out@.len() as int));
            }
        }
        proof {
            assert(s.subrange(0, s.len() as int) =~= s);
        }
        out
    }

    /// The instructions of a live block, tail to head, by `prev` links.
    pub fn insts_rev(self, ctx: &Context) -> (r: Vec<Inst>)
        requires
            ctx.wf(),
            ctx.blocks().contains_key(self),
        ensures
            r@ == ctx.blocks()[self].insts.reverse(),
    {
        let ghost s = ctx.blocks()[self].insts;
        proof {
            assert(ctx.inst_list_wf(self));
        }
        let mut out: Vec<Inst> = Vec::new();
        let mut cur = ctx.block_ref(self).tail();
        while cur.is_some()
            invariant
                ctx.wf(),
                ctx.blocks().contains_key(self),
                s == ctx.blocks()[self].insts,
                out@.len() <= s.len(),
                forall|j: int| 0 <= j < out@.len() ==> out@[j] == s[s.len() - 1 - j],
                cur == if out@.len() < s.len() {
                    Some(s[s.len() - 1 - out@.len()])
                } else {
                    None::<Inst>
                },
            decreases s.len() - out@.len(),
        {
            let i = cur.unwrap();
            proof {
                assert(ctx.inst_list_wf(self));
                assert(ctx.inst_linked(self, s, s.len() - 1 - out@.len()));
            }
            out.push(i);
            cur = ctx.inst_data(i).prev;
        }
        proof {
            assert(out@ =~= s.reverse());
        }
        out
    }
}

} // verus!

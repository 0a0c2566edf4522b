use vstd::prelude::*;
use vstd::string::StringExecFns;

use crate::context::Context;
use crate::handles::{Block, Inst, InstKind};

verus! {

/// The decimal digits of `n`, most significant first.
pub open spec fn decimal(n: nat) -> Seq<char>
    decreases n,
{
    let digits = seq!['0', '1', '2', '3', '4', '5', '6', '7', '8', '9'];
    if n < 10 {
        seq![digits[n as int]]
    } else {
        decimal(n / 10) + seq![digits[(n % 10) as int]]
    }
}

/// Relies on `usize::to_string`, whose `Display` writes an unsigned
/// integer in decimal with no sign and no padding.
#[verifier::external_body]
fn decimal_string(n: usize) -> (r: String)
    ensures
        r@ == decimal(n as nat),
{
    n.to_string()
}

/// The label of a block in operands: `%bb_` and its slot index.
pub open spec fn block_name(b: Block) -> Seq<char> {
    "%bb_"@ + decimal(b.id() as nat)
}

/// The text of one instruction.
pub open spec fn inst_text(k: InstKind) -> Seq<char> {
    match k {
        InstKind::Br(t) => "br "@ + block_name(t),
        InstKind::CondBr(t, f) => "br "@ + block_name(t) + ", "@ + block_name(f),
        InstKind::Other => "inst"@,
    }
}

/// One tab-indented line per instruction of `s`, each after a newline.
pub open spec fn lines_text(ctx: Context, s: Seq<Inst>) -> Seq<char>
    decreases s.len(),
{
    if s.len() == 0 {
        Seq::empty()
    } else {
        lines_text(ctx, s.drop_last()) + "\n\t"@ + inst_text(ctx.insts()[s.last()].kind)
    }
}

/// The debug dump of a block: a `bb_<index>:` header and its instructions.
pub open spec fn block_text(ctx: Context, b: Block) -> Seq<char> {
    "bb_"@ + decimal(b.id() as nat) + ":"@ + lines_text(ctx, ctx.blocks()[b].insts)
}

/// A block paired with the context it lives in, for its debug dump.
pub struct DisplayBlock<'ctx> {
    pub ctx: &'ctx Context,
    pub block: Block,
}

impl Block {
    /// A debug label from the slot index; not stable across renumbering.
    pub fn name(self, _ctx: &Context) -> (r: String)
        ensures
            r@ == block_name(self),
    {
        let mut s = String::from_str("%bb_");
        let d = decimal_string(self.index);
        s.append(d.as_str());
        proof {
            reveal_strlit("%bb_");
        }
        s
    }

    pub fn display(self, ctx: &Context) -> (r: DisplayBlock<'_>)
        ensures
            r.block == self,
            *r.ctx == *ctx,
    {
        DisplayBlock { ctx, block: self }
    }
}

impl Inst {
    /// The text of a live instruction.
    pub fn text(self, ctx: &Context) -> (r: String)
        requires
            ctx.insts().contains_key(self),
        ensures
            r@ == inst_text(ctx.insts()[self].kind),
    {
        proof {
            reveal_strlit("br ");
            reveal_strlit(", ");
            reveal_strlit("inst");
        }
        match ctx.inst_data(self).kind {
            InstKind::Br(t) => {
                let mut s = String::from_str("br ");
                let n = t.name(ctx);
                s.append(n.as_str());
                s
            },
            InstKind::CondBr(t, f) => {
                let mut s = String::from_str("br ");
                let n = t.name(ctx);
                s.append(n.as_str());
                s.append(", ");
                let m = f.name(ctx);
                s.append(m.as_str());
                s
            },
            InstKind::Other => String::from_str("inst"),
        }
    }
}

impl<'ctx> DisplayBlock<'ctx> {
    /// The debug dump: a `bb_<index>:` line, then one tab-indented line
    /// per instruction in list order.
    pub fn to_string(&self) -> (r: String)
        requires
            self.ctx.wf(),
            self.ctx.blocks().contains_key(self.block),
        ensures
            r@ == block_text(*self.ctx, self.block),
    {
        let ctx = self.ctx;
        let insts = self.block.insts(ctx);
        let mut s = String::from_str("bb_");
        let d = decimal_string(self.block.index);
        s.append(d.as_str());
        s.append(":");
        proof {
            reveal_strlit("bb_");
            reveal_strlit(":");
            reveal_strlit("\n\t");
            assert(insts@.subrange(0, 0) =~= Seq::<Inst>::empty());
        }
        let mut i: usize = 0;
        while i < insts.len()
            invariant
                ctx.wf(),
                i <= insts@.len(),
                insts@ == ctx.blocks()[self.block].insts,
                ctx.blocks().contains_key(self.block),
                s@ == "bb_"@ + decimal(self.block.id() as nat) + ":"@ + lines_text(
                    *ctx,
                    insts@.subrange(0, i as int),
                ),
            decreases insts@.len() - i,
        {
            let inst = insts[i];
            proof {
                assert(ctx.inst_list_wf(self.block));
                assert(ctx.inst_linked(self.block, insts@, i as int));
            }
            let t = inst.text(ctx);
            s.append("\n\t");
            s.append(t.as_str());
            proof {
                let pre = insts@.subrange(0, i + 1);
                assert(pre.drop_last() =~= insts@.subrange(0, i as int));
                assert(pre.last() == inst);
            }
            i = i + 1;
        }
        proof {
            assert(insts@.subrange(0, insts@.len() as int) =~= insts@);
        }
        s
    }
}

} // verus!

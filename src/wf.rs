use vstd::prelude::*;

use crate::context::{Context, InstData};
use crate::handles::{operand_of, Block, Func, Inst, User};

verus! {

impl Context {
    /// Instruction `s[k]` of a list `s` held by block `b` is linked to its
    /// neighbours in `s` and names `b` as its container.
    pub open spec fn inst_linked(self, b: Block, s: Seq<Inst>, k: int) -> bool {
        &&& self.insts().contains_key(s[k])
        &&& self.insts()[s[k]].container == Some(b)
        &&& self.insts()[s[k]].prev == (if k == 0 {
            None
        } else {
            Some(s[k - 1])
        })
        &&& self.insts()[s[k]].next == (if k + 1 == s.len() {
            None
        } else {
            Some(s[k + 1])
        })
    }

    /// The instruction list of block `b` is a well-formed doubly linked
    /// list whose order is the ghost sequence `insts`.
    pub open spec fn inst_list_wf(self, b: Block) -> bool {
        let v = self.blocks()[b];
        &&& v.insts.no_duplicates()
        &&& v.head == (if v.insts.len() == 0 {
            None
        } else {
            Some(v.insts[0])
        })
        &&& v.tail == (if v.insts.len() == 0 {
            None
        } else {
            Some(v.insts.last())
        })
        &&& forall|k: int| 0 <= k < v.insts.len() ==> #[trigger] self.inst_linked(b, v.insts, k)
    }

    /// Every block's instruction list is well formed, and an instruction
    /// that names a container is in that block's list.
    pub open spec fn lists_wf(self) -> bool {
        &&& forall|b: Block| #[trigger] self.blocks().contains_key(b) ==> self.inst_list_wf(b)
        &&& forall|i: Inst|
            #[trigger] self.insts().contains_key(i) && self.insts()[i].container is Some ==> {
                let b = self.insts()[i].container.unwrap();
                self.blocks().contains_key(b) && self.blocks()[b].insts.contains(i)
            }
    }

    /// A block's user set is exactly the set of operand positions of live
    /// instructions that name it, and every operand names a live block.
    pub open spec fn def_use_wf(self) -> bool {
        &&& forall|b: Block| #[trigger]
            self.blocks().contains_key(b) ==> self.blocks()[b].users.no_duplicates()
        &&& forall|b: Block, u: User|
            #[trigger] self.blocks().contains_key(b) && #[trigger] self.blocks()[b].users.contains(u)
                ==> self.insts().contains_key(u.inst) && operand_of(self.insts()[u.inst].kind, u.slot)
                == Some(b)
        &&& forall|i: Inst, slot: usize|
            #[trigger] self.insts().contains_key(i) && #[trigger] operand_of(self.insts()[i].kind, slot)
                is Some ==> {
                let b = operand_of(self.insts()[i].kind, slot).unwrap();
                self.blocks().contains_key(b) && self.blocks()[b].users.contains(
                    User { inst: i, slot },
                )
            }
    }

    /// Every block's successor list holds no edge twice.
    pub open spec fn edges_wf(self) -> bool {
        forall|b: Block| #[trigger]
            self.blocks().contains_key(b) ==> self.blocks()[b].successors.no_duplicates()
    }

    /// Block `s[k]` of a list `s` held by function `f` is linked to its
    /// neighbours in `s` and names `f` as its container.
    pub open spec fn block_linked(self, f: Func, s: Seq<Block>, k: int) -> bool {
        &&& self.blocks().contains_key(s[k])
        &&& self.blocks()[s[k]].container == Some(f)
        &&& self.blocks()[s[k]].prev == (if k == 0 {
            None
        } else {
            Some(s[k - 1])
        })
        &&& self.blocks()[s[k]].next == (if k + 1 == s.len() {
            None
        } else {
            Some(s[k + 1])
        })
    }

    /// The block list of function `f` is a well-formed doubly linked list.
    pub open spec fn block_list_wf(self, f: Func) -> bool {
        let v = self.funcs()[f];
        &&& v.blocks.no_duplicates()
        &&& v.head == (if v.blocks.len() == 0 {
            None
        } else {
            Some(v.blocks[0])
        })
        &&& v.tail == (if v.blocks.len() == 0 {
            None
        } else {
            Some(v.blocks.last())
        })
        &&& forall|k: int| 0 <= k < v.blocks.len() ==> #[trigger] self.block_linked(f, v.blocks, k)
    }

    /// Every function's block list is well formed, and a block that names
    /// a container is in that function's list.
    pub open spec fn funcs_wf(self) -> bool {
        &&& forall|f: Func| #[trigger] self.funcs().contains_key(f) ==> self.block_list_wf(f)
        &&& forall|b: Block|
            #[trigger] self.blocks().contains_key(b) && self.blocks()[b].container is Some ==> {
                let f = self.blocks()[b].container.unwrap();
                self.funcs().contains_key(f) && self.funcs()[f].blocks.contains(b)
            }
    }

    /// `after` has handed out the same numbers of slots as `self`.
    pub open spec fn same_slots(self, after: Context) -> bool {
        &&& after.block_slots() == self.block_slots()
        &&& after.inst_slots() == self.inst_slots()
        &&& after.func_slots() == self.func_slots()
    }

    /// `after` has the same live nodes as `self`, with the same kinds,
    /// users, edges and block-list links; only instruction lists may differ.
    pub open spec fn same_nodes(self, after: Context) -> bool {
        &&& self.same_slots(after)
        &&& after.blocks().dom() == self.blocks().dom()
        &&& after.insts().dom() == self.insts().dom()
        &&& after.funcs() == self.funcs()
        &&& forall|i: Inst| #[trigger]
            self.insts().contains_key(i) ==> after.insts()[i].kind == self.insts()[i].kind
        &&& forall|b: Block| #[trigger]
            self.blocks().contains_key(b) ==> {
                let o = self.blocks()[b];
                let n = after.blocks()[b];
                &&& n.users == o.users
                &&& n.successors == o.successors
                &&& n.next == o.next
                &&& n.prev == o.prev
                &&& n.container == o.container
            }
    }

    /// The invariant that every operation keeps.
    pub open spec fn wf(self) -> bool {
        &&& self.lists_wf()
        &&& self.def_use_wf()
        &&& self.edges_wf()
        &&& self.funcs_wf()
    }
}

} // verus!

use vstd::prelude::*;

use crate::arena::Arena;
use crate::handles::{Block, BlockEdge, Func, Inst, InstKind, User};

verus! {

/// What a block holds, as the contracts see it.
pub struct BlockView {
    /// The operand positions that refer to this block.
    pub users: Seq<User>,
    /// The outgoing control-flow edges.
    pub successors: Seq<BlockEdge>,
    /// The instruction list, head to tail.
    pub insts: Seq<Inst>,
    pub head: Option<Inst>,
    pub tail: Option<Inst>,
    /// Neighbours in the owning function's block list.
    pub next: Option<Block>,
    pub prev: Option<Block>,
    /// The function whose block list holds this block.
    pub container: Option<Func>,
}

/// The stored data of a block.
pub struct BlockData {
    users: Vec<User>,
    next: Option<Block>,
    prev: Option<Block>,
    successors: Vec<BlockEdge>,
    head: Option<Inst>,
    tail: Option<Inst>,
    container: Option<Func>,
    insts: Ghost<Seq<Inst>>,
}

impl View for BlockData {
    type V = BlockView;

    closed spec fn view(&self) -> BlockView {
        BlockView {
            users: self.users@,
            successors: self.successors@,
            insts: self.insts@,
            head: self.head,
            tail: self.tail,
            next: self.next,
            prev: self.prev,
            container: self.container,
        }
    }
}

impl BlockData {
    pub fn head(&self) -> (r: Option<Inst>)
        ensures
            r == self@.head,
    {
        self.head
    }

    pub fn tail(&self) -> (r: Option<Inst>)
        ensures
            r == self@.tail,
    {
        self.tail
    }

    pub fn next(&self) -> (r: Option<Block>)
        ensures
            r == self@.next,
    {
        self.next
    }

    pub fn prev(&self) -> (r: Option<Block>)
        ensures
            r == self@.prev,
    {
        self.prev
    }

    pub fn container(&self) -> (r: Option<Func>)
        ensures
            r == self@.container,
    {
        self.container
    }

    pub fn users(&self) -> (r: &Vec<User>)
        ensures
            r@ == self@.users,
    {
        &self.users
    }

    pub fn successors(&self) -> (r: &Vec<BlockEdge>)
        ensures
            r@ == self@.successors,
    {
        &self.successors
    }
}

/// The stored data of an instruction.
#[derive(Clone, Copy)]
pub struct InstData {
    pub kind: InstKind,
    pub next: Option<Inst>,
    pub prev: Option<Inst>,
    /// The block whose instruction list holds this instruction.
    pub container: Option<Block>,
}

/// What a function holds, as the contracts see it.
pub struct FuncView {
    /// The block list, head to tail.
    pub blocks: Seq<Block>,
    pub head: Option<Block>,
    pub tail: Option<Block>,
}

/// The stored data of a function.
pub struct FuncData {
    head: Option<Block>,
    tail: Option<Block>,
    blocks: Ghost<Seq<Block>>,
}

impl View for FuncData {
    type V = FuncView;

    closed spec fn view(&self) -> FuncView {
        FuncView { blocks: self.blocks@, head: self.head, tail: self.tail }
    }
}

/// Position of `x` in `v`, if it is there.
fn find_user(v: &Vec<User>, x: User) -> (r: Option<usize>)
    ensures
        r is None <==> !v@.contains(x),
        r is Some ==> r.unwrap() < v@.len() && v@[r.unwrap() as int] == x,
{
    let mut i: usize = 0;
    while i < v.len()
        invariant
            i <= v@.len(),
            forall|j: int| 0 <= j < i ==> v@[j] != x,
        decreases v@.len() - i,
    {
        if v[i] == x {
            return Some(i);
        }
        i = i + 1;
    }
    None
}

/// Adds `x` to a duplicate-free list unless it is there already.
fn insert_unique_user(v: &mut Vec<User>, x: User)
    requires
        old(v)@.no_duplicates(),
    ensures
        final(v)@.no_duplicates(),
        forall|y: User| final(v)@.contains(y) <==> old(v)@.contains(y) || y == x,
{
    if find_user(v, x).is_none() {
        v.push(x);
        assert forall|y: User| v@.contains(y) <==> old(v)@.contains(y) || y == x by {
            if v@.contains(y) {
                let k = choose|k: int| 0 <= k < v@.len() && v@[k] == y;
                if k < old(v)@.len() {
                    assert(old(v)@[k] == y);
                }
            }
            if y == x {
                assert(v@[old(v)@.len() as int] == x);
            }
            if old(v)@.contains(y) {
                let k = choose|k: int| 0 <= k < old(v)@.len() && old(v)@[k] == y;
                assert(v@[k] == y);
            }
        }
    }
}

/// Takes `x` out of a duplicate-free list.
fn remove_user_from(v: &mut Vec<User>, x: User)
    requires
        old(v)@.no_duplicates(),
    ensures
        final(v)@.no_duplicates(),
        forall|y: User| final(v)@.contains(y) <==> old(v)@.contains(y) && y != x,
{
    match find_user(v, x) {
        None => {},
        Some(i) => {
            v.remove(i);
            assert forall|y: User| v@.contains(y) <==> old(v)@.contains(y) && y != x by {
                if v@.contains(y) {
                    let k = choose|k: int| 0 <= k < v@.len() && v@[k] == y;
                    if k < i {
                        assert(old(v)@[k] == y);
                    } else {
                        assert(old(v)@[k + 1] == y);
                    }
                }
                if old(v)@.contains(y) && y != x {
                    let k = choose|k: int| 0 <= k < old(v)@.len() && old(v)@[k] == y;
                    if k < i {
                        assert(v@[k] == y);
                    } else {
                        assert(v@[k - 1] == y);
                    }
                }
            }
            assert forall|p: int, q: int| 0 <= p < q < v@.len() implies v@[p] != v@[q] by {
                let pp = if p < i { p } else { p + 1 };
                let qq = if q < i { q } else { q + 1 };
                assert(v@[p] == old(v)@[pp]);
                assert(v@[q] == old(v)@[qq]);
            }
        },
    }
}

/// Position of `x` in `v`, if it is there.
fn find_edge(v: &Vec<BlockEdge>, x: BlockEdge) -> (r: Option<usize>)
    ensures
        r is None <==> !v@.contains(x),
        r is Some ==> r.unwrap() < v@.len() && v@[r.unwrap() as int] == x,
{
    let mut i: usize = 0;
    while i < v.len()
        invariant
            i <= v@.len(),
            forall|j: int| 0 <= j < i ==> v@[j] != x,
        decreases v@.len() - i,
    {
        if v[i] == x {
            return Some(i);
        }
        i = i + 1;
    }
    None
}

/// Adds `x` to a duplicate-free list unless it is there already.
pub(crate) fn insert_unique_edge(v: &mut Vec<BlockEdge>, x: BlockEdge)
    requires
        old(v)@.no_duplicates(),
    ensures
        final(v)@.no_duplicates(),
        forall|y: BlockEdge| final(v)@.contains(y) <==> old(v)@.contains(y) || y == x,
{
    if find_edge(v, x).is_none() {
        v.push(x);
        assert forall|y: BlockEdge| v@.contains(y) <==> old(v)@.contains(y) || y == x by {
            if v@.contains(y) {
                let k = choose|k: int| 0 <= k < v@.len() && v@[k] == y;
                if k < old(v)@.len() {
                    assert(old(v)@[k] == y);
                }
            }
            if y == x {
                assert(v@[old(v)@.len() as int] == x);
            }
            if old(v)@.contains(y) {
                let k = choose|k: int| 0 <= k < old(v)@.len() && old(v)@[k] == y;
                assert(v@[k] == y);
            }
        }
    }
}

/// Takes `x` out of a duplicate-free list.
fn remove_edge_from(v: &mut Vec<BlockEdge>, x: BlockEdge)
    requires
        old(v)@.no_duplicates(),
    ensures
        final(v)@.no_duplicates(),
        forall|y: BlockEdge| final(v)@.contains(y) <==> old(v)@.contains(y) && y != x,
{
    match find_edge(v, x) {
        None => {},
        Some(i) => {
            v.remove(i);
            assert forall|y: BlockEdge| v@.contains(y) <==> old(v)@.contains(y) && y != x by {
                if v@.contains(y) {
                    let k = choose|k: int| 0 <= k < v@.len() && v@[k] == y;
                    if k < i {
                        assert(old(v)@[k] == y);
                    } else {
                        assert(old(v)@[k + 1] == y);
                    }
                }
                if old(v)@.contains(y) && y != x {
                    let k = choose|k: int| 0 <= k < old(v)@.len() && old(v)@[k] == y;
                    if k < i {
                        assert(v@[k] == y);
                    } else {
                        assert(v@[k - 1] == y);
                    }
                }
            }
            assert forall|p: int, q: int| 0 <= p < q < v@.len() implies v@[p] != v@[q] by {
                let pp = if p < i { p } else { p + 1 };
                let qq = if q < i { q } else { q + 1 };
                assert(v@[p] == old(v)@[pp]);
                assert(v@[q] == old(v)@[qq]);
            }
        },
    }
}

impl FuncData {
    pub fn head(&self) -> (r: Option<Block>)
        ensures
            r == self@.head,
    {
        self.head
    }

    pub fn tail(&self) -> (r: Option<Block>)
        ensures
            r == self@.tail,
    {
        self.tail
    }
}

/// The owner of every IR node. Each operation takes it by reference.
pub struct Context {
    blocks: Arena<BlockData>,
    insts: Arena<InstData>,
    funcs: Arena<FuncData>,
}

impl Context {
    /// The live blocks and what each holds.
    pub closed spec fn blocks(&self) -> Map<Block, BlockView> {
        Map::new(|b: Block| self.blocks.live(b.index), |b: Block| self.blocks.at(b.index)@)
    }

    /// The live instructions and their data.
    pub closed spec fn insts(&self) -> Map<Inst, InstData> {
        Map::new(|i: Inst| self.insts.live(i.index), |i: Inst| self.insts.at(i.index))
    }

    /// The live functions and what each holds.
    pub closed spec fn funcs(&self) -> Map<Func, FuncView> {
        Map::new(|f: Func| self.funcs.live(f.index), |f: Func| self.funcs.at(f.index)@)
    }

    /// Number of block slots ever handed out.
    pub closed spec fn block_slots(&self) -> nat {
        self.blocks@.len()
    }

    pub closed spec fn inst_slots(&self) -> nat {
        self.insts@.len()
    }

    pub closed spec fn func_slots(&self) -> nat {
        self.funcs@.len()
    }

    pub fn new() -> (r: Context)
        ensures
            r.blocks() == Map::<Block, BlockView>::empty(),
            r.insts() == Map::<Inst, InstData>::empty(),
            r.funcs() == Map::<Func, FuncView>::empty(),
            r.block_slots() == 0,
            r.inst_slots() == 0,
            r.func_slots() == 0,
            r.wf(),
    {
        let r = Context { blocks: Arena::new(), insts: Arena::new(), funcs: Arena::new() };
        assert(r.blocks() =~= Map::<Block, BlockView>::empty());
        assert(r.insts() =~= Map::<Inst, InstData>::empty());
        assert(r.funcs() =~= Map::<Func, FuncView>::empty());
        r
    }

    /// Allocates an empty, unattached block.
    pub(crate) fn alloc_block(&mut self) -> (b: Block)
        requires
            old(self).block_slots() < usize::MAX,
        ensures
            b.id() == old(self).block_slots(),
            final(self).block_slots() == old(self).block_slots() + 1,
            !old(self).blocks().contains_key(b),
            final(self).blocks() == old(self).blocks().insert(
                b,
                BlockView {
                    users: Seq::empty(),
                    successors: Seq::empty(),
                    insts: Seq::empty(),
                    head: None,
                    tail: None,
                    next: None,
                    prev: None,
                    container: None,
                },
            ),
            final(self).insts() == old(self).insts(),
            final(self).funcs() == old(self).funcs(),
            final(self).inst_slots() == old(self).inst_slots(),
            final(self).func_slots() == old(self).func_slots(),
    {
        let data = BlockData {
            users: Vec::new(),
            next: None,
            prev: None,
            successors: Vec::new(),
            head: None,
            tail: None,
            container: None,
            insts: Ghost(Seq::empty()),
        };
        let i = self.blocks.allocate(data);
        let b = Block { index: i };
        assert(self.blocks() =~= old(self).blocks().insert(b, data@));
        assert(self.insts() =~= old(self).insts());
        assert(self.funcs() =~= old(self).funcs());
        b
    }

    /// `after` differs from `self` in the data of block `b` alone, which is `v`.
    pub open spec fn block_updated(self, after: Context, b: Block, v: BlockView) -> bool {
        &&& after.blocks() == self.blocks().insert(b, v)
        &&& after.insts() == self.insts()
        &&& after.funcs() == self.funcs()
        &&& after.block_slots() == self.block_slots()
        &&& after.inst_slots() == self.inst_slots()
        &&& after.func_slots() == self.func_slots()
    }

    /// `after` differs from `self` in the data of instruction `i` alone.
    pub open spec fn inst_updated(self, after: Context, i: Inst, d: InstData) -> bool {
        &&& after.blocks() == self.blocks()
        &&& after.insts() == self.insts().insert(i, d)
        &&& after.funcs() == self.funcs()
        &&& after.block_slots() == self.block_slots()
        &&& after.inst_slots() == self.inst_slots()
        &&& after.func_slots() == self.func_slots()
    }

    /// `after` differs from `self` in the data of function `f` alone.
    pub open spec fn func_updated(self, after: Context, f: Func, v: FuncView) -> bool {
        &&& after.blocks() == self.blocks()
        &&& after.insts() == self.insts()
        &&& after.funcs() == self.funcs().insert(f, v)
        &&& after.block_slots() == self.block_slots()
        &&& after.inst_slots() == self.inst_slots()
        &&& after.func_slots() == self.func_slots()
    }

    /// Reads a block; `None` when the handle is absent.
    pub fn try_deref_block(&self, b: Block) -> (r: Option<&BlockData>)
        ensures
            r is Some <==> self.blocks().contains_key(b),
            r is Some ==> r.unwrap()@ == self.blocks()[b],
    {
        self.blocks.try_deref(b.index)
    }

    pub(crate) fn block_ref(&self, b: Block) -> (r: &BlockData)
        requires
            self.blocks().contains_key(b),
        ensures
            r@ == self.blocks()[b],
    {
        self.blocks.try_deref(b.index).unwrap()
    }

    pub fn is_valid_block(&self, b: Block) -> (r: bool)
        ensures
            r == self.blocks().contains_key(b),
    {
        self.blocks.is_valid(b.index)
    }

    pub fn is_valid_inst(&self, i: Inst) -> (r: bool)
        ensures
            r == self.insts().contains_key(i),
    {
        self.insts.is_valid(i.index)
    }

    pub fn is_valid_func(&self, f: Func) -> (r: bool)
        ensures
            r == self.funcs().contains_key(f),
    {
        self.funcs.is_valid(f.index)
    }

    pub(crate) fn set_head(&mut self, b: Block, head: Option<Inst>)
        requires
            old(self).blocks().contains_key(b),
        ensures
            old(self).block_updated(*final(self), b, BlockView { head, ..old(self).blocks()[b] }),
    {
        let d = self.blocks.try_deref_mut(b.index).unwrap();
        d.head = head;
        assert(self.blocks() =~= old(self).blocks().insert(b, BlockView { head, ..old(self).blocks()[b] }));
        assert(self.insts() =~= old(self).insts());
        assert(self.funcs() =~= old(self).funcs());
    }

    pub(crate) fn set_tail(&mut self, b: Block, tail: Option<Inst>)
        requires
            old(self).blocks().contains_key(b),
        ensures
            old(self).block_updated(*final(self), b, BlockView { tail: tail, ..old(self).blocks()[b] }),
    {
        let d = self.blocks.try_deref_mut(b.index).unwrap();
        d.tail = tail;
        assert(self.blocks() =~= old(self).blocks().insert(b, BlockView { tail: tail, ..old(self).blocks()[b] }));
        assert(self.insts() =~= old(self).insts());
        assert(self.funcs() =~= old(self).funcs());
    }

    pub(crate) fn set_next(&mut self, b: Block, next: Option<Block>)
        requires
            old(self).blocks().contains_key(b),
        ensures
            old(self).block_updated(*final(self), b, BlockView { next: next, ..old(self).blocks()[b] }),
    {
        let d = self.blocks.try_deref_mut(b.index).unwrap();
        d.next = next;
        assert(self.blocks() =~= old(self).blocks().insert(b, BlockView { next: next, ..old(self).blocks()[b] }));
        assert(self.insts() =~= old(self).insts());
        assert(self.funcs() =~= old(self).funcs());
    }

    pub(crate) fn set_prev(&mut self, b: Block, prev: Option<Block>)
        requires
            old(self).blocks().contains_key(b),
        ensures
            old(self).block_updated(*final(self), b, BlockView { prev: prev, ..old(self).blocks()[b] }),
    {
        let d = self.blocks.try_deref_mut(b.index).unwrap();
        d.prev = prev;
        assert(self.blocks() =~= old(self).blocks().insert(b, BlockView { prev: prev, ..old(self).blocks()[b] }));
        assert(self.insts() =~= old(self).insts());
        assert(self.funcs() =~= old(self).funcs());
    }

    pub(crate) fn set_container(&mut self, b: Block, container: Option<Func>)
        requires
            old(self).blocks().contains_key(b),
        ensures
            old(self).block_updated(*final(self), b, BlockView { container: container, ..old(self).blocks()[b] }),
    {
        let d = self.blocks.try_deref_mut(b.index).unwrap();
        d.container = container;
        assert(self.blocks() =~= old(self).blocks().insert(b, BlockView { container: container, ..old(self).blocks()[b] }));
        assert(self.insts() =~= old(self).insts());
        assert(self.funcs() =~= old(self).funcs());
    }

    /// Records the ghost model of the block's instruction list.
    pub(crate) fn set_inst_list(&mut self, b: Block, insts: Ghost<Seq<Inst>>)
        requires
            old(self).blocks().contains_key(b),
        ensures
            old(self).block_updated(*final(self), b, BlockView { insts: insts@, ..old(self).blocks()[b] }),
    {
        let d = self.blocks.try_deref_mut(b.index).unwrap();
        d.insts = insts;
        assert(self.blocks() =~= old(self).blocks().insert(b, BlockView { insts: insts@, ..old(self).blocks()[b] }));
        assert(self.insts() =~= old(self).insts());
        assert(self.funcs() =~= old(self).funcs());
    }

    pub(crate) fn set_successors(&mut self, b: Block, successors: Vec<BlockEdge>)
        requires
            old(self).blocks().contains_key(b),
        ensures
            old(self).block_updated(*final(self), b, BlockView { successors: successors@, ..old(self).blocks()[b] }),
    {
        let d = self.blocks.try_deref_mut(b.index).unwrap();
        d.successors = successors;
        assert(self.blocks() =~= old(self).blocks().insert(b, BlockView { successors: successors@, ..old(self).blocks()[b] }));
        assert(self.insts() =~= old(self).insts());
        assert(self.funcs() =~= old(self).funcs());
    }

    /// Registers an operand position that refers to block `b`.
    pub(crate) fn insert_user(&mut self, b: Block, x: User)
        requires
            old(self).blocks().contains_key(b),
            old(self).blocks()[b].users.no_duplicates(),
        ensures
            old(self).block_updated(
                *final(self),
                b,
                BlockView { users: final(self).blocks()[b].users, ..old(self).blocks()[b] },
            ),
            final(self).blocks()[b].users.no_duplicates(),
            forall|y: User|
                #[trigger] final(self).blocks()[b].users.contains(y) <==> old(self).blocks()[b].users.contains(y) || y == x,
    {
        let d = self.blocks.try_deref_mut(b.index).unwrap();
        insert_unique_user(&mut d.users, x);
        assert(self.blocks() =~= old(self).blocks().insert(
            b,
            BlockView { users: self.blocks()[b].users, ..old(self).blocks()[b] },
        ));
        assert(self.insts() =~= old(self).insts());
        assert(self.funcs() =~= old(self).funcs());
    }

    /// Drops an operand position from the users of block `b`.
    pub(crate) fn remove_user(&mut self, b: Block, x: User)
        requires
            old(self).blocks().contains_key(b),
            old(self).blocks()[b].users.no_duplicates(),
        ensures
            old(self).block_updated(
                *final(self),
                b,
                BlockView { users: final(self).blocks()[b].users, ..old(self).blocks()[b] },
            ),
            final(self).blocks()[b].users.no_duplicates(),
            forall|y: User|
                #[trigger] final(self).blocks()[b].users.contains(y) <==> old(self).blocks()[b].users.contains(y) && y != x,
    {
        let d = self.blocks.try_deref_mut(b.index).unwrap();
        remove_user_from(&mut d.users, x);
        assert(self.blocks() =~= old(self).blocks().insert(
            b,
            BlockView { users: self.blocks()[b].users, ..old(self).blocks()[b] },
        ));
        assert(self.insts() =~= old(self).insts());
        assert(self.funcs() =~= old(self).funcs());
    }

    /// Adds an outgoing edge of block `b`.
    pub(crate) fn insert_edge(&mut self, b: Block, x: BlockEdge)
        requires
            old(self).blocks().contains_key(b),
            old(self).blocks()[b].successors.no_duplicates(),
        ensures
            old(self).block_updated(
                *final(self),
                b,
                BlockView { successors: final(self).blocks()[b].successors, ..old(self).blocks()[b] },
            ),
            final(self).blocks()[b].successors.no_duplicates(),
            forall|y: BlockEdge|
                #[trigger] final(self).blocks()[b].successors.contains(y) <==> old(self).blocks()[b].successors.contains(y) || y == x,
    {
        let d = self.blocks.try_deref_mut(b.index).unwrap();
        insert_unique_edge(&mut d.successors, x);
        assert(self.blocks() =~= old(self).blocks().insert(
            b,
            BlockView { successors: self.blocks()[b].successors, ..old(self).blocks()[b] },
        ));
        assert(self.insts() =~= old(self).insts());
        assert(self.funcs() =~= old(self).funcs());
    }

    /// Drops an outgoing edge of block `b`.
    pub(crate) fn remove_edge(&mut self, b: Block, x: BlockEdge)
        requires
            old(self).blocks().contains_key(b),
            old(self).blocks()[b].successors.no_duplicates(),
        ensures
            old(self).block_updated(
                *final(self),
                b,
                BlockView { successors: final(self).blocks()[b].successors, ..old(self).blocks()[b] },
            ),
            final(self).blocks()[b].successors.no_duplicates(),
            forall|y: BlockEdge|
                #[trigger] final(self).blocks()[b].successors.contains(y) <==> old(self).blocks()[b].successors.contains(y) && y != x,
    {
        let d = self.blocks.try_deref_mut(b.index).unwrap();
        remove_edge_from(&mut d.successors, x);
        assert(self.blocks() =~= old(self).blocks().insert(
            b,
            BlockView { successors: self.blocks()[b].successors, ..old(self).blocks()[b] },
        ));
        assert(self.insts() =~= old(self).insts());
        assert(self.funcs() =~= old(self).funcs());
    }

    /// Empties a block slot and returns what it held.
    pub(crate) fn try_dealloc_block(&mut self, b: Block) -> (r: Option<BlockData>)
        ensures
            r is Some <==> old(self).blocks().contains_key(b),
            r is Some ==> r.unwrap()@ == old(self).blocks()[b],
            final(self).blocks() == old(self).blocks().remove(b),
            final(self).insts() == old(self).insts(),
            final(self).funcs() == old(self).funcs(),
            final(self).block_slots() == old(self).block_slots(),
            final(self).inst_slots() == old(self).inst_slots(),
            final(self).func_slots() == old(self).func_slots(),
    {
        let r = self.blocks.try_dealloc(b.index);
        assert(self.blocks() =~= old(self).blocks().remove(b));
        assert(self.insts() =~= old(self).insts());
        assert(self.funcs() =~= old(self).funcs());
        r
    }

    /// Allocates an unlinked instruction of the given kind.
    pub(crate) fn alloc_inst(&mut self, kind: InstKind) -> (i: Inst)
        requires
            old(self).inst_slots() < usize::MAX,
        ensures
            i.id() == old(self).inst_slots(),
            !old(self).insts().contains_key(i),
            final(self).insts() == old(self).insts().insert(
                i,
                InstData { kind, next: None, prev: None, container: None },
            ),
            final(self).blocks() == old(self).blocks(),
            final(self).funcs() == old(self).funcs(),
            final(self).block_slots() == old(self).block_slots(),
            final(self).inst_slots() == old(self).inst_slots() + 1,
            final(self).func_slots() == old(self).func_slots(),
    {
        let data = InstData { kind, next: None, prev: None, container: None };
        let idx = self.insts.allocate(data);
        let i = Inst { index: idx };
        assert(self.insts() =~= old(self).insts().insert(i, data));
        assert(self.blocks() =~= old(self).blocks());
        assert(self.funcs() =~= old(self).funcs());
        i
    }

    /// Reads an instruction; `None` when the handle is absent.
    pub fn try_deref_inst(&self, i: Inst) -> (r: Option<InstData>)
        ensures
            r is Some <==> self.insts().contains_key(i),
            r is Some ==> r.unwrap() == self.insts()[i],
    {
        match self.insts.try_deref(i.index) {
            Some(d) => Some(*d),
            None => None,
        }
    }

    pub(crate) fn inst_data(&self, i: Inst) -> (r: InstData)
        requires
            self.insts().contains_key(i),
        ensures
            r == self.insts()[i],
    {
        *self.insts.try_deref(i.index).unwrap()
    }

    pub(crate) fn set_inst(&mut self, i: Inst, d: InstData)
        requires
            old(self).insts().contains_key(i),
        ensures
            old(self).inst_updated(*final(self), i, d),
    {
        self.insts.put(i.index, d);
        assert(self.insts() =~= old(self).insts().insert(i, d));
        assert(self.blocks() =~= old(self).blocks());
        assert(self.funcs() =~= old(self).funcs());
    }

    /// Empties an instruction slot and returns what it held.
    pub(crate) fn try_dealloc_inst(&mut self, i: Inst) -> (r: Option<InstData>)
        ensures
            r is Some <==> old(self).insts().contains_key(i),
            r is Some ==> r.unwrap() == old(self).insts()[i],
            final(self).insts() == old(self).insts().remove(i),
            final(self).blocks() == old(self).blocks(),
            final(self).funcs() == old(self).funcs(),
            final(self).block_slots() == old(self).block_slots(),
            final(self).inst_slots() == old(self).inst_slots(),
            final(self).func_slots() == old(self).func_slots(),
    {
        let r = self.insts.try_dealloc(i.index);
        assert(self.insts() =~= old(self).insts().remove(i));
        assert(self.blocks() =~= old(self).blocks());
        assert(self.funcs() =~= old(self).funcs());
        r
    }

    /// Allocates a function with an empty block list.
    pub(crate) fn alloc_func(&mut self) -> (f: Func)
        requires
            old(self).func_slots() < usize::MAX,
        ensures
            f.id() == old(self).func_slots(),
            !old(self).funcs().contains_key(f),
            final(self).funcs() == old(self).funcs().insert(
                f,
                FuncView { blocks: Seq::empty(), head: None, tail: None },
            ),
            final(self).blocks() == old(self).blocks(),
            final(self).insts() == old(self).insts(),
            final(self).block_slots() == old(self).block_slots(),
            final(self).inst_slots() == old(self).inst_slots(),
            final(self).func_slots() == old(self).func_slots() + 1,
    {
        let data = FuncData { head: None, tail: None, blocks: Ghost(Seq::empty()) };
        let idx = self.funcs.allocate(data);
        let f = Func { index: idx };
        assert(self.funcs() =~= old(self).funcs().insert(f, data@));
        assert(self.blocks() =~= old(self).blocks());
        assert(self.insts() =~= old(self).insts());
        f
    }

    pub(crate) fn func_ref(&self, f: Func) -> (r: &FuncData)
        requires
            self.funcs().contains_key(f),
        ensures
            r@ == self.funcs()[f],
    {
        self.funcs.try_deref(f.index).unwrap()
    }

    /// Overwrites the list fields of a function.
    pub(crate) fn set_func_list(
        &mut self,
        f: Func,
        head: Option<Block>,
        tail: Option<Block>,
        blocks: Ghost<Seq<Block>>,
    )
        requires
            old(self).funcs().contains_key(f),
        ensures
            old(self).func_updated(*final(self), f, FuncView { blocks: blocks@, head, tail }),
    {
        let data = FuncData { head, tail, blocks };
        self.funcs.put(f.index, data);
        assert(self.funcs() =~= old(self).funcs().insert(f, data@));
        assert(self.blocks() =~= old(self).blocks());
        assert(self.insts() =~= old(self).insts());
    }
}


} // verus!

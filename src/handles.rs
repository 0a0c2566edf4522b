use vstd::prelude::*;

verus! {

/// Handle of a basic block: the index of its slot in the context.
#[derive(Debug, Clone, Copy, PartialEq, Eq, Structural, PartialOrd, Ord, Hash)]
pub struct Block {
    pub index: usize,
}

/// Handle of an instruction.
#[derive(Debug, Clone, Copy, PartialEq, Eq, Structural, PartialOrd, Ord, Hash)]
pub struct Inst {
    pub index: usize,
}

/// Handle of a function, the container of a list of blocks.
#[derive(Debug, Clone, Copy, PartialEq, Eq, Structural, PartialOrd, Ord, Hash)]
pub struct Func {
    pub index: usize,
}

impl Block {
    pub open spec fn id(self) -> usize {
        self.index
    }

    /// The slot index behind the handle.
    pub fn index(self) -> (r: usize)
        ensures
            r == self.id(),
    {
        self.index
    }
}

impl Inst {
    pub open spec fn id(self) -> usize {
        self.index
    }

    pub fn index(self) -> (r: usize)
        ensures
            r == self.id(),
    {
        self.index
    }
}

impl Func {
    pub open spec fn id(self) -> usize {
        self.index
    }

    pub fn index(self) -> (r: usize)
        ensures
            r == self.id(),
    {
        self.index
    }
}

/// One operand position that refers to a block: operand `slot` of
/// instruction `inst`.
#[derive(Debug, Clone, Copy, PartialEq, Eq, Structural, Hash)]
pub struct User {
    pub inst: Inst,
    pub slot: usize,
}

/// What an instruction does, as far as control flow is concerned. The
/// blocks named here are the instruction's operands, in order.
#[derive(Debug, Clone, Copy, PartialEq, Eq, Structural)]
pub enum InstKind {
    /// Unconditional jump to a block.
    Br(Block),
    /// Two-way conditional jump: operand 0 is taken when the condition
    /// holds, operand 1 otherwise.
    CondBr(Block, Block),
    /// Any instruction that makes no control transfer.
    Other,
}

/// Operand `slot` of an instruction of kind `k`, where it names a block.
pub open spec fn operand_of(k: InstKind, slot: usize) -> Option<Block> {
    match k {
        InstKind::Br(t) => if slot == 0 {
            Some(t)
        } else {
            None
        },
        InstKind::CondBr(t, f) => if slot == 0 {
            Some(t)
        } else if slot == 1 {
            Some(f)
        } else {
            None
        },
        InstKind::Other => None,
    }
}

/// A control-flow edge: the target block, the terminator that makes the
/// transfer, and whether it is the true arm of a two-way branch.
#[derive(Debug, Clone, Copy, PartialEq, Eq, Structural, Hash)]
pub struct BlockEdge(pub Block, pub Inst, pub bool);

impl BlockEdge {
    pub open spec fn target(self) -> Block {
        self.0
    }

    pub open spec fn terminator(self) -> Inst {
        self.1
    }

    pub open spec fn arm(self) -> bool {
        self.2
    }

    pub fn new(to: Block, inst: Inst, true_br: bool) -> (r: BlockEdge)
        ensures
            r == BlockEdge(to, inst, true_br),
    {
        BlockEdge(to, inst, true_br)
    }

    pub fn to(&self) -> (r: Block)
        ensures
            r == self.target(),
    {
        self.0
    }

    pub fn inst(&self) -> (r: Inst)
        ensures
            r == self.terminator(),
    {
        self.1
    }

    pub fn is_true_branch(&self) -> (r: bool)
        ensures
            r == self.arm(),
    {
        self.2
    }
}

/// The compiler-internal errors of this layer.
#[derive(Debug, Clone, Copy, PartialEq, Eq, Structural)]
pub enum IrError {
    /// A handle names a slot that is absent.
    InvalidPointer,
    /// A structural precondition fails: an instruction that is not in the
    /// block, or a control edge from an instruction that is no branch.
    StructuralPrecondition,
    /// Releasing a node that is still linked or still referenced.
    InvariantViolation,
}

} // verus!

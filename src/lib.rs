//! The basic-block and control-flow-graph layer of a compiler IR: an
//! arena of IR nodes addressed by stable handles, an intrusive doubly
//! linked instruction list per block, def-use bookkeeping on blocks, and
//! the successor-edge algebra of the control-flow graph.

pub mod arena;
pub mod handles;
pub mod context;
pub mod wf;
pub mod block;
pub mod inst;
pub mod walk;
pub mod text;
pub mod func;
pub mod laws;

pub use arena::Arena;
pub use context::{BlockData, Context, InstData};
pub use handles::{Block, BlockEdge, Func, Inst, InstKind, IrError, User};
pub use text::DisplayBlock;

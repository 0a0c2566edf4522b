use cfg_ir::{Arena, Block, BlockEdge, Context, Func, Inst, InstKind, IrError, User};

fn edge_set(b: Block, ctx: &Context) -> Vec<BlockEdge> {
    let mut v = b.successors(ctx).clone();
    v.sort_by_key(|e| (e.to().index(), e.inst().index(), e.is_true_branch()));
    v
}

#[test]
fn fresh_block_has_no_successors_or_users() {
    let mut ctx = Context::new();
    let b = Block::new(&mut ctx);
    assert!(b.successors(&ctx).is_empty());
    assert!(b.users(&ctx).is_empty());
    assert_eq!(b.head(&ctx), None);
    assert_eq!(b.tail(&ctx), None);
    assert_eq!(b.next(&ctx), None);
    assert_eq!(b.prev(&ctx), None);
    assert_eq!(b.container(&ctx), None);
}

#[test]
fn unconditional_branch_records_false_arm() {
    let mut ctx = Context::new();
    let b = Block::new(&mut ctx);
    let t = Block::new(&mut ctx);
    let br = Inst::new(&mut ctx, InstKind::Br(t)).unwrap();
    b.append_inst(&mut ctx, br).unwrap();
    b.add_successor(&mut ctx, t, br, true).unwrap();
    assert_eq!(edge_set(b, &ctx), vec![BlockEdge::new(t, br, false)]);
}

#[test]
fn two_arms_stay_distinct_on_same_target() {
    let mut ctx = Context::new();
    let b = Block::new(&mut ctx);
    let t = Block::new(&mut ctx);
    let c = Inst::new(&mut ctx, InstKind::CondBr(t, t)).unwrap();
    b.append_inst(&mut ctx, c).unwrap();
    b.add_successor(&mut ctx, t, c, true).unwrap();
    b.add_successor(&mut ctx, t, c, false).unwrap();
    let edges = edge_set(b, &ctx);
    assert_eq!(edges.len(), 2);
    assert_eq!(edges, vec![BlockEdge::new(t, c, false), BlockEdge::new(t, c, true)]);
    assert_eq!(t.users(&ctx).len(), 2);
}

#[test]
fn adding_the_same_edge_twice_keeps_one() {
    let mut ctx = Context::new();
    let b = Block::new(&mut ctx);
    let t = Block::new(&mut ctx);
    let br = Inst::new(&mut ctx, InstKind::Br(t)).unwrap();
    b.append_inst(&mut ctx, br).unwrap();
    b.add_successor(&mut ctx, t, br, false).unwrap();
    b.add_successor(&mut ctx, t, br, false).unwrap();
    assert_eq!(b.successors(&ctx).len(), 1);
}

#[test]
fn remove_one_arm_degrades_to_unconditional_branch() {
    let mut ctx = Context::new();
    let b = Block::new(&mut ctx);
    let t = Block::new(&mut ctx);
    let f = Block::new(&mut ctx);
    let c = Inst::new(&mut ctx, InstKind::CondBr(t, f)).unwrap();
    b.append_inst(&mut ctx, c).unwrap();
    b.add_successor(&mut ctx, t, c, true).unwrap();
    b.add_successor(&mut ctx, f, c, false).unwrap();
    b.remove_successor(&mut ctx, f, c, false).unwrap();
    let edges = edge_set(b, &ctx);
    assert_eq!(edges.len(), 1);
    assert_ne!(edges[0].inst(), c);
    assert_eq!(edges[0].to(), t);
    assert!(!edges[0].is_true_branch());
    assert!(!b.insts(&ctx).contains(&c));
    assert_eq!(edges[0].inst().kind(&ctx), InstKind::Br(t));
    assert!(!ctx.is_valid_inst(c));
    // the retired branch no longer refers to either block
    assert_eq!(t.users(&ctx), &vec![User { inst: edges[0].inst(), slot: 0 }]);
    assert!(f.users(&ctx).is_empty());
}

#[test]
fn remove_unconditional_successor_drops_terminator() {
    let mut ctx = Context::new();
    let b = Block::new(&mut ctx);
    let t = Block::new(&mut ctx);
    let br = Inst::new(&mut ctx, InstKind::Br(t)).unwrap();
    b.append_inst(&mut ctx, br).unwrap();
    b.add_successor(&mut ctx, t, br, false).unwrap();
    b.remove_successor(&mut ctx, t, br, false).unwrap();
    assert!(b.successors(&ctx).is_empty());
    assert!(b.insts(&ctx).is_empty());
    assert_eq!(b.head(&ctx), None);
    assert!(t.users(&ctx).is_empty());
}

#[test]
fn cond_branch_scenario() {
    let mut ctx = Context::new();
    let b0 = Block::new(&mut ctx);
    let b1 = Block::new(&mut ctx);
    let b2 = Block::new(&mut ctx);
    let c = Inst::new(&mut ctx, InstKind::CondBr(b1, b2)).unwrap();
    b0.append_inst(&mut ctx, c).unwrap();
    b0.add_successor(&mut ctx, b1, c, true).unwrap();
    b0.add_successor(&mut ctx, b2, c, false).unwrap();
    assert_eq!(
        edge_set(b0, &ctx),
        vec![BlockEdge::new(b1, c, true), BlockEdge::new(b2, c, false)]
    );
    b0.remove_successor(&mut ctx, b1, c, true).unwrap();
    let edges = edge_set(b0, &ctx);
    assert_eq!(edges.len(), 1);
    let c2 = edges[0].inst();
    assert_ne!(c2, c);
    assert_eq!(edges[0], BlockEdge::new(b2, c2, false));
    assert_eq!(c2.kind(&ctx), InstKind::Br(b2));
    assert_eq!(b0.insts(&ctx), vec![c2]);
}

#[test]
fn degrade_keeps_position_in_list() {
    let mut ctx = Context::new();
    let b = Block::new(&mut ctx);
    let t = Block::new(&mut ctx);
    let f = Block::new(&mut ctx);
    let a = Inst::new(&mut ctx, InstKind::Other).unwrap();
    let c = Inst::new(&mut ctx, InstKind::CondBr(t, f)).unwrap();
    let z = Inst::new(&mut ctx, InstKind::Other).unwrap();
    b.append_inst(&mut ctx, a).unwrap();
    b.append_inst(&mut ctx, c).unwrap();
    b.append_inst(&mut ctx, z).unwrap();
    b.add_successor(&mut ctx, t, c, true).unwrap();
    b.add_successor(&mut ctx, f, c, false).unwrap();
    b.remove_successor(&mut ctx, t, c, true).unwrap();
    let list = b.insts(&ctx);
    assert_eq!(list.len(), 3);
    assert_eq!(list[0], a);
    assert_eq!(list[2], z);
    assert_eq!(list[1].kind(&ctx), InstKind::Br(f));
}

#[test]
fn dealloc_absent_handle_is_absent_every_time() {
    let mut arena: Arena<u32> = Arena::new();
    let i = arena.allocate(7);
    assert_eq!(arena.try_dealloc(i), Some(7));
    assert_eq!(arena.try_dealloc(i), None);
    assert_eq!(arena.try_dealloc(i), None);
    assert_eq!(arena.try_dealloc(99), None);
    assert!(!arena.is_valid(i));
    assert_eq!(arena.try_deref(i), None);
    let j = arena.allocate(8);
    assert_ne!(i, j);
    assert_eq!(arena.try_deref(i), None);
    assert_eq!(arena.try_deref(j), Some(&8));
}

#[test]
fn walks_agree_after_edits() {
    let mut ctx = Context::new();
    let b = Block::new(&mut ctx);
    let mut made = Vec::new();
    for _ in 0..5 {
        let i = Inst::new(&mut ctx, InstKind::Other).unwrap();
        b.append_inst(&mut ctx, i).unwrap();
        made.push(i);
    }
    b.remove_inst(&mut ctx, made[0]).unwrap();
    b.remove_inst(&mut ctx, made[4]).unwrap();
    b.remove_inst(&mut ctx, made[2]).unwrap();
    let x = Inst::new(&mut ctx, InstKind::Other).unwrap();
    made[1].insert_after(&mut ctx, x).unwrap();
    let y = Inst::new(&mut ctx, InstKind::Other).unwrap();
    made[3].insert_after(&mut ctx, y).unwrap();
    let fwd = b.insts(&ctx);
    let mut bwd = b.insts_rev(&ctx);
    assert_eq!(fwd, vec![made[1], x, made[3], y]);
    bwd.reverse();
    assert_eq!(fwd, bwd);
    for i in &fwd {
        assert_eq!(i.container(&ctx), Some(b));
    }
    assert_eq!(b.head(&ctx), Some(made[1]));
    assert_eq!(b.tail(&ctx), Some(y));
}

#[test]
fn errors_are_reported() {
    let mut ctx = Context::new();
    let b = Block::new(&mut ctx);
    let other = Block::new(&mut ctx);
    let op = Inst::new(&mut ctx, InstKind::Other).unwrap();
    b.append_inst(&mut ctx, op).unwrap();
    assert_eq!(
        b.add_successor(&mut ctx, other, op, false),
        Err(IrError::StructuralPrecondition)
    );
    assert_eq!(
        b.remove_successor(&mut ctx, other, op, false),
        Err(IrError::StructuralPrecondition)
    );
    assert_eq!(b.append_inst(&mut ctx, op), Err(IrError::StructuralPrecondition));
    assert_eq!(other.remove_inst(&mut ctx, op), Err(IrError::StructuralPrecondition));
    let ghost_block = Block { index: 40 };
    assert_eq!(
        ghost_block.add_successor(&mut ctx, other, op, false),
        Err(IrError::InvalidPointer)
    );
    assert_eq!(
        Inst::new(&mut ctx, InstKind::Br(ghost_block)),
        Err(IrError::InvalidPointer)
    );
    assert_eq!(b.remove(&mut ctx), Err(IrError::StructuralPrecondition));
    b.remove_inst(&mut ctx, op).unwrap();
    assert_eq!(b.remove_inst(&mut ctx, op), Err(IrError::InvalidPointer));
}

#[test]
fn block_removal_needs_no_users() {
    let mut ctx = Context::new();
    let f = Func::new(&mut ctx);
    let b0 = Block::new(&mut ctx);
    let b1 = Block::new(&mut ctx);
    let b2 = Block::new(&mut ctx);
    f.append_block(&mut ctx, b0).unwrap();
    f.append_block(&mut ctx, b1).unwrap();
    f.append_block(&mut ctx, b2).unwrap();
    assert_eq!(f.append_block(&mut ctx, b1), Err(IrError::StructuralPrecondition));
    assert_eq!(b0.next(&ctx), Some(b1));
    assert_eq!(b2.prev(&ctx), Some(b1));
    assert_eq!(b1.container(&ctx), Some(f));
    let br = Inst::new(&mut ctx, InstKind::Br(b1)).unwrap();
    b0.append_inst(&mut ctx, br).unwrap();
    assert_eq!(b1.remove(&mut ctx), Err(IrError::InvariantViolation));
    b0.remove_inst(&mut ctx, br).unwrap();
    b1.remove(&mut ctx).unwrap();
    assert!(!ctx.is_valid_block(b1));
    assert_eq!(b0.next(&ctx), Some(b2));
    assert_eq!(b2.prev(&ctx), Some(b0));
    assert_eq!(b1.remove(&mut ctx), Err(IrError::InvalidPointer));
}

#[test]
fn clear_and_copy_successors() {
    let mut ctx = Context::new();
    let a = Block::new(&mut ctx);
    let b = Block::new(&mut ctx);
    let t = Block::new(&mut ctx);
    let f = Block::new(&mut ctx);
    let c = Inst::new(&mut ctx, InstKind::CondBr(t, f)).unwrap();
    a.append_inst(&mut ctx, c).unwrap();
    a.add_successor(&mut ctx, t, c, true).unwrap();
    a.add_successor(&mut ctx, f, c, false).unwrap();
    let mut moved = a.successors(&ctx).clone();
    moved.push(moved[0]);
    b.copy_successors(&mut ctx, moved);
    assert_eq!(edge_set(b, &ctx), edge_set(a, &ctx));
    a.clear_successors(&mut ctx);
    assert!(a.successors(&ctx).is_empty());
    assert_eq!(b.successors(&ctx).len(), 2);
}

#[test]
fn names_and_dump() {
    let mut ctx = Context::new();
    let mut blocks = Vec::new();
    for _ in 0..13 {
        blocks.push(Block::new(&mut ctx));
    }
    let b0 = blocks[0];
    assert_eq!(b0.name(&ctx), "%bb_0");
    assert_eq!(blocks[12].name(&ctx), "%bb_12");
    assert_eq!(b0.display(&ctx).to_string(), "bb_0:");
    let op = Inst::new(&mut ctx, InstKind::Other).unwrap();
    let c = Inst::new(&mut ctx, InstKind::CondBr(blocks[1], blocks[12])).unwrap();
    b0.append_inst(&mut ctx, op).unwrap();
    b0.append_inst(&mut ctx, c).unwrap();
    assert_eq!(
        b0.display(&ctx).to_string(),
        "bb_0:\n\tinst\n\tbr %bb_1, %bb_12"
    );
    assert_eq!(c.text(&ctx), "br %bb_1, %bb_12");
}

#[test]
fn edge_accessors() {
    let e = BlockEdge::new(Block { index: 3 }, Inst { index: 4 }, true);
    assert_eq!(e.to(), Block { index: 3 });
    assert_eq!(e.inst(), Inst { index: 4 });
    assert!(e.is_true_branch());
    assert_ne!(e, BlockEdge::new(Block { index: 3 }, Inst { index: 4 }, false));
}

#[test]
fn prepend_insert_before_and_unlink() {
    let mut ctx = Context::new();
    let b = Block::new(&mut ctx);
    let a = Inst::new(&mut ctx, InstKind::Other).unwrap();
    let c = Inst::new(&mut ctx, InstKind::Other).unwrap();
    let d = Inst::new(&mut ctx, InstKind::Other).unwrap();
    b.prepend_inst(&mut ctx, c).unwrap();
    b.prepend_inst(&mut ctx, a).unwrap();
    c.insert_before(&mut ctx, d).unwrap();
    assert_eq!(b.insts(&ctx), vec![a, d, c]);
    assert_eq!(d.prev(&ctx), Some(a));
    assert_eq!(d.next(&ctx), Some(c));
    assert_eq!(a.insert_before(&mut ctx, d), Err(IrError::StructuralPrecondition));
    d.unlink(&mut ctx).unwrap();
    assert_eq!(b.insts(&ctx), vec![a, c]);
    assert_eq!(d.container(&ctx), None);
    assert_eq!(d.unlink(&mut ctx), Err(IrError::StructuralPrecondition));
    assert!(ctx.is_valid_inst(d));
    c.insert_after(&mut ctx, d).unwrap();
    assert_eq!(b.insts(&ctx), vec![a, c, d]);
    let mut back = b.insts_rev(&ctx);
    back.reverse();
    assert_eq!(back, vec![a, c, d]);
}

#[test]
fn context_lookups() {
    let mut ctx = Context::new();
    let b = Block::new(&mut ctx);
    let i = Inst::new(&mut ctx, InstKind::Br(b)).unwrap();
    assert!(ctx.try_deref_block(b).is_some());
    assert!(ctx.try_deref_block(Block { index: 9 }).is_none());
    assert_eq!(ctx.try_deref_inst(i).map(|d| d.kind), Some(InstKind::Br(b)));
    assert_eq!(i.successor(&ctx, 0), Some(b));
    assert_eq!(i.successor(&ctx, 1), None);
    assert_eq!(b.users(&ctx), &vec![User { inst: i, slot: 0 }]);
    assert_eq!(b.index(), 0);
    assert_eq!(i.index(), 0);
}

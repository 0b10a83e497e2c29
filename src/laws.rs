use crate::board::{
    mark_post, safe_cells, shown_safe_cells, BlockStatus, ClickResult, MinePlayground,
};
use crate::counting::lemma_rows_le;
use crate::play::{only_safe_revealed, reveal_post};
use vstd::prelude::*;

verus! {

/// Revealing a hidden mine loses the game and shows every cell; after that a
/// left click anywhere changes nothing and reports nothing.
pub proof fn lemma_loss_then_reveal(
    b0: MinePlayground,
    b1: MinePlayground,
    b2: MinePlayground,
    x: int,
    y: int,
    a: int,
    c: int,
    r1: ClickResult,
    r2: ClickResult,
)
    requires
        b0.wf(),
        b0.in_bounds(x, y),
        b0.in_bounds(a, c),
        b0.block(x, y).bstatus is Hidden,
        b0.block(x, y).btype is Mine,
        reveal_post(b0, b1, x, y, r1),
        reveal_post(b1, b2, a, c, r2),
    ensures
        r1 == ClickResult::Wasted,
        b1.all_shown(),
        r2 == ClickResult::NothingHappened,
        b1.same_state(&b2),
{
    assert(b1.block(a, c).bstatus is Shown);
}

/// Once a mine has been revealed, a right click anywhere changes nothing.
pub proof fn lemma_loss_then_mark(
    b0: MinePlayground,
    b1: MinePlayground,
    b2: MinePlayground,
    x: int,
    y: int,
    a: int,
    c: int,
    r1: ClickResult,
)
    requires
        b0.wf(),
        b0.in_bounds(x, y),
        b0.in_bounds(a, c),
        b0.block(x, y).bstatus is Hidden,
        b0.block(x, y).btype is Mine,
        reveal_post(b0, b1, x, y, r1),
        mark_post(b1, b2, a, c),
    ensures
        r1 == ClickResult::Wasted,
        b1.same_state(&b2),
{
    assert(b1.block(a, c).bstatus is Shown);
}

/// Revealing a hidden safe cell when it is the only safe cell left hidden wins.
pub proof fn lemma_last_safe_cell_wins(
    b0: MinePlayground,
    b1: MinePlayground,
    x: int,
    y: int,
    r: ClickResult,
)
    requires
        b0.wf(),
        b1.wf(),
        b0.in_bounds(x, y),
        b0.block(x, y).bstatus is Hidden,
        !(b0.block(x, y).btype is Mine),
        b0.shown_count + 1 == b0.safety_block_count,
        reveal_post(b0, b1, x, y, r),
    ensures
        r == ClickResult::Win,
{
    reveal(only_safe_revealed);
    assert forall|i: int, j: int|
        0 <= i < b1.grid().len() && 0 <= j < b1.grid()[i].len() && shown_safe_cells()(
            #[trigger] b1.grid()[i][j],
        ) implies safe_cells()(b1.grid()[i][j]) by {}
    lemma_rows_le(b1.grid(), shown_safe_cells(), safe_cells());
}

/// Three right clicks on a hidden cell pass it through flagged and
/// question-marked back to hidden, leaving the board as it was.
pub proof fn lemma_mark_cycle(
    b0: MinePlayground,
    b1: MinePlayground,
    b2: MinePlayground,
    b3: MinePlayground,
    x: int,
    y: int,
)
    requires
        b0.in_bounds(x, y),
        b0.block(x, y).bstatus is Hidden,
        mark_post(b0, b1, x, y),
        mark_post(b1, b2, x, y),
        mark_post(b2, b3, x, y),
    ensures
        b1.block(x, y).bstatus == BlockStatus::Flaged,
        b2.block(x, y).bstatus == BlockStatus::QuestionMarked,
        b3.block(x, y).bstatus == BlockStatus::Hidden,
        b0.same_state(&b3),
{
    assert forall|a: int, c: int| b0.in_bounds(a, c) implies {
        &&& (#[trigger] b3.block(a, c)).btype == b0.block(a, c).btype
        &&& b3.block(a, c).pos == b0.block(a, c).pos
        &&& b3.block(a, c).bstatus == b0.block(a, c).bstatus
    } by {
        assert(b1.block(a, c).btype == b0.block(a, c).btype);
        assert(b2.block(a, c).btype == b1.block(a, c).btype);
    }
}

/// A second left click on a safe cell reports nothing and changes nothing.
pub proof fn lemma_reveal_twice(
    b0: MinePlayground,
    b1: MinePlayground,
    b2: MinePlayground,
    x: int,
    y: int,
    r1: ClickResult,
    r2: ClickResult,
)
    requires
        b0.wf(),
        b0.in_bounds(x, y),
        !(b0.block(x, y).btype is Mine),
        reveal_post(b0, b1, x, y, r1),
        reveal_post(b1, b2, x, y, r2),
    ensures
        r2 == ClickResult::NothingHappened,
        b1.same_state(&b2),
{
    assert(!(b1.block(x, y).bstatus is Hidden));
}

} // verus!

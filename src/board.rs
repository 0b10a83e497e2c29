use crate::counting::{count_in_rows, lemma_count_update, lemma_rows_update};
use crate::neighbors::is_neighbor;
use vstd::prelude::*;

verus! {

/// What a cell holds; fixed once the board is built.
#[derive(Debug, PartialEq, Eq, Clone, Copy, Structural)]
pub enum BlockType {
    Mine,
    /// A safe cell with no mine around it.
    Space,
    /// A safe cell with this many mines around it.
    Tip(usize),
}

/// What the player sees of a cell.
#[derive(Debug, PartialEq, Eq, Clone, Copy, Structural)]
pub enum BlockStatus {
    Shown,
    Hidden,
    QuestionMarked,
    Flaged,
}

/// Column `x` and row `y` of a cell.
#[derive(Debug, Clone, Copy, PartialEq, Eq, Structural)]
pub struct Position {
    pub x: usize,
    pub y: usize,
}

/// One cell of the board.
#[derive(Debug)]
pub struct MineBlock {
    pub btype: BlockType,
    pub bstatus: BlockStatus,
    pub pos: Position,
}

/// The board: `map[y][x]` is the cell at column `x`, row `y`.
pub struct MinePlayground {
    /// Safe cells shown so far.
    pub shown_count: usize,
    /// Safe cells on the board; the game is won when all are shown.
    pub safety_block_count: usize,
    pub width: usize,
    pub height: usize,
    pub map: Vec<Vec<MineBlock>>,
}

/// What a left click led to.
#[derive(Debug, PartialEq, Eq, Clone, Copy, Structural)]
pub enum ClickResult {
    /// A mine was revealed: the game is lost.
    Wasted,
    NothingHappened,
    /// The last safe cell was revealed.
    Win,
}

/// Why a board could not be built.
#[derive(Debug, PartialEq, Eq, Clone, Copy, Structural)]
pub enum ConfigError {
    OutOfRange,
}

/// The cells of a vector of rows.
pub open spec fn rows_view(m: Seq<Vec<MineBlock>>) -> Seq<Seq<MineBlock>> {
    m.map_values(|row: Vec<MineBlock>| row@)
}

/// The safe-cell kind for a cell with `n` mines around it.
pub open spec fn hint_kind(n: int) -> BlockType {
    if n <= 0 {
        BlockType::Space
    } else {
        BlockType::Tip(n as usize)
    }
}

/// One more mine around a cell: a space becomes a one, a tip goes up by one,
/// a mine stays a mine.
pub open spec fn bumped(t: BlockType) -> BlockType {
    match t {
        BlockType::Tip(n) => BlockType::Tip((n + 1) as usize),
        BlockType::Space => BlockType::Tip(1),
        BlockType::Mine => BlockType::Mine,
    }
}

pub open spec fn is_mine(b: MineBlock) -> bool {
    b.btype is Mine
}

pub open spec fn mine_cells() -> spec_fn(MineBlock) -> bool {
    |b: MineBlock| is_mine(b)
}

pub open spec fn safe_cells() -> spec_fn(MineBlock) -> bool {
    |b: MineBlock| !is_mine(b)
}

pub open spec fn shown_safe_cells() -> spec_fn(MineBlock) -> bool {
    |b: MineBlock| !is_mine(b) && b.bstatus is Shown
}

impl BlockType {
    fn increase(&mut self)
        requires
            !(*old(self) matches BlockType::Tip(n) && n == usize::MAX),
        ensures
            *final(self) == bumped(*old(self)),
    {
        *self = match *self {
            Self::Tip(val) => Self::Tip(val + 1),
            Self::Space => Self::Tip(1),
            Self::Mine => Self::Mine,
        }
    }
}

impl MineBlock {
    /// Counts one more mine around this cell.
    pub fn add_tip(&mut self)
        requires
            !(old(self).btype matches BlockType::Tip(n) && n == usize::MAX),
        ensures
            final(self).btype == bumped(old(self).btype),
            final(self).bstatus == old(self).bstatus,
            final(self).pos == old(self).pos,
    {
        self.btype.increase();
    }
}

impl Default for MineBlock {
    /// A hidden space at the origin.
    fn default() -> (r: MineBlock)
        ensures
            r.btype == BlockType::Space,
            r.bstatus == BlockStatus::Hidden,
            r.pos == (Position { x: 0, y: 0 }),
    {
        MineBlock { bstatus: BlockStatus::Hidden, btype: BlockType::Space, pos: Position { x: 0, y: 0 } }
    }
}

impl MinePlayground {
    /// The cells, row by row.
    pub open spec fn grid(&self) -> Seq<Seq<MineBlock>> {
        rows_view(self.map@)
    }

    pub open spec fn in_bounds(&self, x: int, y: int) -> bool {
        0 <= x < self.width && 0 <= y < self.height
    }

    /// The cell at column `x`, row `y`.
    pub open spec fn block(&self, x: int, y: int) -> MineBlock {
        self.map@[y]@[x]
    }

    /// 1 where `(x, y)` is on the board and holds a mine, else 0.
    pub open spec fn mine_at(&self, x: int, y: int) -> int {
        if self.in_bounds(x, y) && self.block(x, y).btype is Mine {
            1
        } else {
            0
        }
    }

    /// The number of mines among the in-bounds cells around `(x, y)`.
    pub open spec fn adjacent_mines(&self, x: int, y: int) -> int {
        self.mine_at(x - 1, y - 1) + self.mine_at(x, y - 1) + self.mine_at(x + 1, y - 1)
            + self.mine_at(x - 1, y) + self.mine_at(x + 1, y) + self.mine_at(x - 1, y + 1)
            + self.mine_at(x, y + 1) + self.mine_at(x + 1, y + 1)
    }

    /// The number of mines on the board.
    pub open spec fn mine_total(&self) -> nat {
        count_in_rows(self.grid(), mine_cells())
    }

    /// Some mine has been revealed.
    pub open spec fn lost(&self) -> bool {
        exists|x: int, y: int|
            self.in_bounds(x, y) && (#[trigger] self.block(x, y)).btype is Mine && self.block(
                x,
                y,
            ).bstatus is Shown
    }

    /// Every cell is revealed.
    pub open spec fn all_shown(&self) -> bool {
        forall|x: int, y: int|
            self.in_bounds(x, y) ==> (#[trigger] self.block(x, y)).bstatus is Shown
    }

    /// `height` rows of `width` cells each.
    pub open spec fn shape_ok(&self) -> bool {
        &&& 0 < self.width
        &&& 0 < self.height
        &&& self.map@.len() == self.height
        &&& forall|y: int| 0 <= y < self.height ==> (#[trigger] self.map@[y])@.len() == self.width
    }

    /// Each safe cell's kind is its count of mines around it.
    pub open spec fn hints_ok(&self) -> bool {
        forall|x: int, y: int|
            self.in_bounds(x, y) && !(self.block(x, y).btype is Mine) ==> self.block(x, y).btype
                == hint_kind(#[trigger] self.adjacent_mines(x, y))
    }

    /// The board's invariant: each cell knows its position, each safe cell's kind
    /// is its count of mines around it, the two counters count what they name,
    /// and once a mine is revealed every cell is.
    pub open spec fn wf(&self) -> bool {
        &&& self.shape_ok()
        &&& forall|x: int, y: int|
            self.in_bounds(x, y) ==> (#[trigger] self.block(x, y)).pos == (Position {
                x: x as usize,
                y: y as usize,
            })
        &&& self.hints_ok()
        &&& self.safety_block_count == count_in_rows(self.grid(), safe_cells())
        &&& self.shown_count == count_in_rows(self.grid(), shown_safe_cells())
        &&& self.lost() ==> self.all_shown()
    }

    /// Same dimensions and the same cell kinds and positions.
    pub open spec fn same_layout(&self, other: &MinePlayground) -> bool {
        &&& self.width == other.width
        &&& self.height == other.height
        &&& self.safety_block_count == other.safety_block_count
        &&& forall|x: int, y: int|
            self.in_bounds(x, y) ==> {
                &&& (#[trigger] other.block(x, y)).btype == self.block(x, y).btype
                &&& other.block(x, y).pos == self.block(x, y).pos
            }
    }

    /// Same layout and every cell with the same status.
    pub open spec fn same_state(&self, other: &MinePlayground) -> bool {
        &&& self.same_layout(other)
        &&& self.shown_count == other.shown_count
        &&& forall|x: int, y: int|
            self.in_bounds(x, y) ==> (#[trigger] other.block(x, y)).bstatus == self.block(
                x,
                y,
            ).bstatus
    }

    /// The cell at `(x, y)`, or `None` off the board.
    pub fn get(&self, x: isize, y: isize) -> (r: Option<&MineBlock>)
        requires
            self.shape_ok(),
        ensures
            r is Some <==> self.in_bounds(x as int, y as int),
            r matches Some(b) ==> *b == self.block(x as int, y as int),
    {
        if x < 0 || y < 0 || x as usize >= self.width || y as usize >= self.height {
            return None;
        }
        Some(&self.map[y as usize][x as usize])
    }
}


/// The status that one right click gives: hidden, flagged, question-marked
/// and back to hidden; a shown cell stays shown.
pub open spec fn next_mark(s: BlockStatus) -> BlockStatus {
    match s {
        BlockStatus::Hidden => BlockStatus::Flaged,
        BlockStatus::Flaged => BlockStatus::QuestionMarked,
        BlockStatus::QuestionMarked => BlockStatus::Hidden,
        BlockStatus::Shown => BlockStatus::Shown,
    }
}

/// `post` is `pre` after a right click on `(x, y)`.
pub open spec fn mark_post(pre: MinePlayground, post: MinePlayground, x: int, y: int) -> bool {
    &&& pre.same_layout(&post)
    &&& post.shown_count == pre.shown_count
    &&& post.block(x, y).bstatus == next_mark(pre.block(x, y).bstatus)
    &&& forall|a: int, b: int|
        pre.in_bounds(a, b) && (a != x || b != y) ==> (#[trigger] post.block(a, b)).bstatus
            == pre.block(a, b).bstatus
}

pub open spec fn one_if(c: bool) -> int {
    if c {
        1
    } else {
        0
    }
}

impl MinePlayground {
    /// Sets the status of one cell and leaves everything else as it was.
    pub(crate) fn set_status(&mut self, x: usize, y: usize, s: BlockStatus)
        requires
            old(self).shape_ok(),
            old(self).in_bounds(x as int, y as int),
        ensures
            final(self).shape_ok(),
            final(self).width == old(self).width,
            final(self).height == old(self).height,
            final(self).shown_count == old(self).shown_count,
            final(self).safety_block_count == old(self).safety_block_count,
            final(self).block(x as int, y as int) == (MineBlock {
                bstatus: s,
                ..old(self).block(x as int, y as int)
            }),
            forall|a: int, b: int|
                old(self).in_bounds(a, b) && (a != x || b != y) ==> #[trigger] final(self).block(a, b)
                    == old(self).block(a, b),
            count_in_rows(final(self).grid(), safe_cells()) == count_in_rows(
                old(self).grid(),
                safe_cells(),
            ),
            count_in_rows(final(self).grid(), mine_cells()) == count_in_rows(
                old(self).grid(),
                mine_cells(),
            ),
            count_in_rows(final(self).grid(), shown_safe_cells()) + one_if(
                shown_safe_cells()(old(self).block(x as int, y as int)),
            ) == count_in_rows(old(self).grid(), shown_safe_cells()) + one_if(
                shown_safe_cells()(final(self).block(x as int, y as int)),
            ),
    {
        let ghost pre = *self;
        self.map[y][x].bstatus = s;
        proof {
            let (xi, yi) = (x as int, y as int);
            let row = pre.grid()[yi].update(xi, self.block(xi, yi));
            assert(self.grid() =~= pre.grid().update(yi, row));
            assert(self.map@[yi]@ =~= pre.map@[yi]@.update(xi, self.block(xi, yi)));
            lemma_rows_update(pre.grid(), yi, row, safe_cells());
            lemma_rows_update(pre.grid(), yi, row, mine_cells());
            lemma_rows_update(pre.grid(), yi, row, shown_safe_cells());
            lemma_count_update(pre.grid()[yi], xi, self.block(xi, yi), safe_cells());
            lemma_count_update(pre.grid()[yi], xi, self.block(xi, yi), mine_cells());
            lemma_count_update(pre.grid()[yi], xi, self.block(xi, yi), shown_safe_cells());
            assert forall|a: int, b: int|
                pre.in_bounds(a, b) && (a != x || b != y) implies #[trigger] self.block(a, b)
                == pre.block(a, b) by {
                if b != yi {
                    assert(self.map@[b] == pre.map@[b]);
                }
            }
        }
    }

    /// Right click: moves a cell that is not shown one step along
    /// hidden, flagged, question-marked, hidden; a shown cell is left alone.
    pub fn right_click(&mut self, x: &usize, y: &usize)
        requires
            old(self).wf(),
            old(self).in_bounds(*x as int, *y as int),
        ensures
            final(self).wf(),
            mark_post(*old(self), *final(self), *x as int, *y as int),
    {
        let ghost pre = *self;
        let next = match self.map[*y][*x].bstatus {
            BlockStatus::Shown => {
                return ;
            },
            BlockStatus::Hidden => BlockStatus::Flaged,
            BlockStatus::Flaged => BlockStatus::QuestionMarked,
            BlockStatus::QuestionMarked => BlockStatus::Hidden,
        };
        self.set_status(*x, *y, next);
        proof {
            assert(!pre.lost()) by {
                assert(!pre.all_shown()) by {
                    assert(!(pre.block(*x as int, *y as int).bstatus is Shown));
                }
            }
            assert(!self.lost()) by {
                if self.lost() {
                    let (a, b) = choose|a: int, b: int|
                        self.in_bounds(a, b) && (#[trigger] self.block(a, b)).btype is Mine && self.block(
                            a,
                            b,
                        ).bstatus is Shown;
                    assert(pre.in_bounds(a, b));
                }
            }
            lemma_hints_kept(pre, *self);
        }
    }
}
/// Changing statuses alone leaves every hint right.
pub proof fn lemma_hints_kept(pre: MinePlayground, post: MinePlayground)
    requires
        pre.hints_ok(),
        pre.same_layout(&post),
    ensures
        post.hints_ok(),
{
    assert forall|a: int, b: int| #[trigger] post.mine_at(a, b) == pre.mine_at(a, b) by {
        if pre.in_bounds(a, b) {
            assert(post.block(a, b).btype == pre.block(a, b).btype);
        }
    }
    assert forall|x: int, y: int|
        post.in_bounds(x, y) && !(post.block(x, y).btype is Mine) implies post.block(x, y).btype
        == hint_kind(#[trigger] post.adjacent_mines(x, y)) by {
        assert(pre.block(x, y).btype == post.block(x, y).btype);
        assert(pre.adjacent_mines(x, y) == post.adjacent_mines(x, y));
    }
}

/// A space has no mine around it.
pub proof fn lemma_space_has_no_mine_neighbor(b: MinePlayground, x: int, y: int, a: int, c: int)
    requires
        b.wf(),
        b.in_bounds(x, y),
        b.in_bounds(a, c),
        b.block(x, y).btype is Space,
        is_neighbor(x, y, a, c),
    ensures
        !(b.block(a, c).btype is Mine),
{
    assert(b.block(x, y).btype == hint_kind(b.adjacent_mines(x, y)));
    assert(b.mine_at(a, c) == 0);
}

} // verus!

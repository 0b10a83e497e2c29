use crate::board::{
    hint_kind, mine_cells, shown_safe_cells, rows_view, safe_cells, BlockStatus, BlockType, MineBlock,
    ConfigError, MinePlayground, Position,
};
use crate::counting::{
    count_in_rows, count_true, count_where, lemma_count_concat, lemma_count_push,
    lemma_count_same, lemma_count_split, lemma_rows_push, lemma_count_bound, lemma_rows_same,
    lemma_rows_zero, lemma_count_true_multiset,
};
use rand::seq::SliceRandom;
use vstd::prelude::*;

verus! {

/// 1 where `(x, y)` lies on a `w` by `h` grid and the row-major layout `seeds`
/// puts a mine there, else 0.
pub open spec fn seed_mine(seeds: Seq<bool>, w: int, h: int, x: int, y: int) -> int {
    if 0 <= x < w && 0 <= y < h && seeds[y * w + x] {
        1
    } else {
        0
    }
}

/// The number of mines that `seeds` puts around `(x, y)`.
pub open spec fn seed_neighbors(seeds: Seq<bool>, w: int, h: int, x: int, y: int) -> int {
    seed_mine(seeds, w, h, x - 1, y - 1) + seed_mine(seeds, w, h, x, y - 1) + seed_mine(
        seeds,
        w,
        h,
        x + 1,
        y - 1,
    ) + seed_mine(seeds, w, h, x - 1, y) + seed_mine(seeds, w, h, x + 1, y) + seed_mine(
        seeds,
        w,
        h,
        x - 1,
        y + 1,
    ) + seed_mine(seeds, w, h, x, y + 1) + seed_mine(seeds, w, h, x + 1, y + 1)
}

/// The hidden cell that `seeds` gives at `(x, y)`.
pub open spec fn seeded_block(seeds: Seq<bool>, w: int, h: int, x: int, y: int) -> MineBlock {
    MineBlock {
        btype: if seeds[y * w + x] {
            BlockType::Mine
        } else {
            hint_kind(seed_neighbors(seeds, w, h, x, y))
        },
        bstatus: BlockStatus::Hidden,
        pos: Position { x: x as usize, y: y as usize },
    }
}

/// Whether the layout puts a mine at `(x, y)`; `false` off the grid.
fn seed_at(seeds: &Vec<bool>, width: usize, height: usize, x: isize, y: isize) -> (r: bool)
    requires
        width < 200,
        height < 200,
        seeds@.len() == width * height,
    ensures
        r == (seed_mine(seeds@, width as int, height as int, x as int, y as int) == 1),
{
    if x < 0 || y < 0 || x as usize >= width || y as usize >= height {
        return false;
    }
    let xu = x as usize;
    let yu = y as usize;
    let n = seeds.len();
    assert(yu * width + xu < n) by (nonlinear_arith)
        requires
            yu < height,
            xu < width,
            n == width * height,
    ;
    seeds[yu * width + xu]
}

/// The cell at `(x, y)`: a mine where the layout says so, else a space or a tip
/// counting the mines around it.
fn new_block(seeds: &Vec<bool>, width: usize, height: usize, x: usize, y: usize) -> (r: MineBlock)
    requires
        width < 200,
        height < 200,
        x < width,
        y < height,
        seeds@.len() == width * height,
    ensures
        r == seeded_block(seeds@, width as int, height as int, x as int, y as int),
{
    let n = seeds.len();
    assert(y * width + x < n) by (nonlinear_arith)
        requires
            y < height,
            x < width,
            n == width * height,
    ;
    if seeds[y * width + x] {
        return MineBlock { btype: BlockType::Mine, bstatus: BlockStatus::Hidden, pos: Position { x, y } };
    }
    let mut block = MineBlock::default();
    block.pos = Position { x, y };
    let xi = x as isize;
    let yi = y as isize;
    if seed_at(seeds, width, height, xi - 1, yi - 1) {
        block.add_tip();
    }
    if seed_at(seeds, width, height, xi, yi - 1) {
        block.add_tip();
    }
    if seed_at(seeds, width, height, xi + 1, yi - 1) {
        block.add_tip();
    }
    if seed_at(seeds, width, height, xi - 1, yi) {
        block.add_tip();
    }
    if seed_at(seeds, width, height, xi + 1, yi) {
        block.add_tip();
    }
    if seed_at(seeds, width, height, xi - 1, yi + 1) {
        block.add_tip();
    }
    if seed_at(seeds, width, height, xi, yi + 1) {
        block.add_tip();
    }
    if seed_at(seeds, width, height, xi + 1, yi + 1) {
        block.add_tip();
    }
    block
}

impl MinePlayground {
    /// Builds the board that the row-major layout `seeds` describes (`true` for a
    /// mine): every cell hidden, every safe cell's kind its count of mines around it.
    pub fn from_seeds(width: usize, height: usize, seeds: &Vec<bool>) -> (r: MinePlayground)
        requires
            0 < width < 200,
            0 < height < 200,
            seeds@.len() == width * height,
        ensures
            r.wf(),
            r.width == width,
            r.height == height,
            r.shown_count == 0,
            forall|x: int, y: int|
                r.in_bounds(x, y) ==> #[trigger] r.block(x, y) == seeded_block(
                    seeds@,
                    width as int,
                    height as int,
                    x,
                    y,
                ),
            r.mine_total() == count_true(seeds@),
            r.safety_block_count + count_true(seeds@) == width * height,
    {
        let ghost w = width as int;
        let ghost h = height as int;
        let mut map: Vec<Vec<MineBlock>> = Vec::new();
        let mut safe: usize = 0;
        let mut y: usize = 0;
        while y < height
            invariant
                0 < width < 200,
                0 < height < 200,
                w == width,
                h == height,
                seeds@.len() == width * height,
                y <= height,
                map@.len() == y,
                forall|yy: int| 0 <= yy < y ==> (#[trigger] map@[yy])@.len() == width,
                forall|xx: int, yy: int|
                    0 <= xx < width && 0 <= yy < y ==> #[trigger] map@[yy]@[xx] == seeded_block(
                        seeds@,
                        w,
                        h,
                        xx,
                        yy,
                    ),
                safe == count_in_rows(rows_view(map@), safe_cells()),
                count_in_rows(rows_view(map@), mine_cells()) == count_true(seeds@.take(y * w)),
                safe + count_true(seeds@.take(y * w)) == y * w,
            decreases height - y,
        {
            let mut row: Vec<MineBlock> = Vec::new();
            let mut x: usize = 0;
            while x < width
                invariant
                    0 < width < 200,
                    0 < height < 200,
                    w == width,
                    h == height,
                    seeds@.len() == width * height,
                    y < height,
                    x <= width,
                    row@.len() == x,
                    forall|xx: int|
                        0 <= xx < x ==> #[trigger] row@[xx] == seeded_block(seeds@, w, h, xx, y as int),
                    safe == count_in_rows(rows_view(map@), safe_cells()) + count_where(
                        row@,
                        safe_cells(),
                    ),
                    safe + count_true(seeds@.take(y * w)) <= y * w + x,
                decreases width - x,
            {
                let b = new_block(seeds, width, height, x, y);
                proof {
                    lemma_count_push(row@, b, safe_cells());
                    lemma_count_bound(row@, safe_cells());
                    lemma_count_bound(seeds@.take(y * w), |v: bool| v);
                }
                assert(y * w + x < 40000) by (nonlinear_arith)
                    requires
                        y < h,
                        x < w,
                        w < 200,
                        h < 200,
                ;
                if !matches!(b.btype, BlockType::Mine) {
                    safe = safe + 1;
                }
                row.push(b);
                x = x + 1;
            }
            proof {
                let lo = y * w;
                let part = seeds@.subrange(lo, lo + w);
                assert(lo + w <= w * h) by (nonlinear_arith)
                    requires
                        lo == y * w,
                        y + 1 <= h,
                        w > 0,
                {
                    assert((y + 1) * w <= h * w);
                }
                assert forall|i: int| 0 <= i < row@.len() implies mine_cells()(row@[i]) == (|v: bool| v)(part[i]) by {
                    assert(row@[i] == seeded_block(seeds@, w, h, i, y as int));
                    assert(y * w + i == lo + i);
                }
                lemma_count_same(row@, part, mine_cells(), |v: bool| v);
                assert forall|i: int| 0 <= i < row@.len() implies mine_cells()(row@[i]) != safe_cells()(row@[i]) by {}
                lemma_count_split(row@, mine_cells(), safe_cells());
                assert(seeds@.take(lo + w) =~= seeds@.take(lo) + part);
                lemma_count_concat(seeds@.take(lo), part, |v: bool| v);
                assert(rows_view(map@.push(row)) =~= rows_view(map@).push(row@));
                lemma_rows_push(rows_view(map@), row@, safe_cells());
                lemma_rows_push(rows_view(map@), row@, mine_cells());
                assert((y + 1) * w == lo + w) by (nonlinear_arith)
                    requires
                        lo == y * w,
                ;
            }
            map.push(row);
            y = y + 1;
        }
        let r = MinePlayground { shown_count: 0, safety_block_count: safe, width, height, map };
        proof {
            assert(h * w == w * h) by (nonlinear_arith);
            assert(seeds@.take(h * w) =~= seeds@);
            assert forall|x: int, y: int| r.in_bounds(x, y) implies #[trigger] r.block(x, y) == seeded_block(seeds@, w, h, x, y) by {
                assert(r.map@[y]@[x] == seeded_block(seeds@, w, h, x, y));
            }
            assert forall|a: int, b: int| #[trigger] r.mine_at(a, b) == seed_mine(seeds@, w, h, a, b) by {
                if r.in_bounds(a, b) {
                    assert(r.block(a, b) == seeded_block(seeds@, w, h, a, b));
                }
            }
            assert forall|x: int, y: int|
                r.in_bounds(x, y) && !(r.block(x, y).btype is Mine) implies r.block(x, y).btype
                == hint_kind(#[trigger] r.adjacent_mines(x, y)) by {
                assert(r.adjacent_mines(x, y) == seed_neighbors(seeds@, w, h, x, y));
            }
            lemma_rows_same(r.grid(), r.grid(), shown_safe_cells(), |b: MineBlock| false);
            lemma_rows_zero(r.grid());
        }
        r
    }
}

/// Relies on rand's `SliceRandom::shuffle` driven by `rand::thread_rng()`: it
/// reorders the items in place by swaps, so the same items come back in some
/// order that chance decides.
#[verifier::external_body]
fn shuffle(v: &mut Vec<bool>)
    ensures
        final(v)@.len() == old(v)@.len(),
        final(v)@.to_multiset() == old(v)@.to_multiset(),
{
    let mut rng = rand::thread_rng();
    v.as_mut_slice().shuffle(&mut rng);
}

/// The sizes a board may be built with: both sides in `[5, 200)`, between 1
/// and 99 mines, and at least one safe cell.
pub open spec fn valid_config(width: int, height: int, mine_count: int) -> bool {
    &&& 5 <= width < 200
    &&& 5 <= height < 200
    &&& 1 <= mine_count < 100
    &&& mine_count < width * height
}

impl MinePlayground {
    /// A new board of `width` by `height` hidden cells with `mine_count` mines
    /// placed at random, or `OutOfRange` when the sizes are not valid.
    pub fn init(width: &usize, height: &usize, mine_count: &usize) -> (r: Result<
        MinePlayground,
        ConfigError,
    >)
        ensures
            r is Ok <==> valid_config(*width as int, *height as int, *mine_count as int),
            r matches Err(e) ==> e == ConfigError::OutOfRange,
            r matches Ok(b) ==> {
                &&& b.wf()
                &&& b.width == *width
                &&& b.height == *height
                &&& b.mine_total() == *mine_count
                &&& b.safety_block_count == *width * *height - *mine_count
                &&& b.shown_count == 0
                &&& forall|x: int, y: int|
                    b.in_bounds(x, y) ==> (#[trigger] b.block(x, y)).bstatus is Hidden
            },
    {
        let width = *width;
        let height = *height;
        let mine_count = *mine_count;
        if width < 5 || width >= 200 || height < 5 || height >= 200 || mine_count < 1 || mine_count
            >= 100 {
            return Err(ConfigError::OutOfRange);
        }
        assert(width * height < 40000) by (nonlinear_arith)
            requires
                width < 200,
                height < 200,
        ;
        let seeds_length = width * height;
        if mine_count >= seeds_length {
            return Err(ConfigError::OutOfRange);
        }
        let mut mine_seeds: Vec<bool> = Vec::with_capacity(seeds_length);
        let mut i: usize = 0;
        while i < seeds_length
            invariant
                i <= seeds_length,
                mine_count < seeds_length,
                mine_seeds@.len() == i,
                count_true(mine_seeds@) == if i < mine_count {
                    i as int
                } else {
                    mine_count as int
                },
            decreases seeds_length - i,
        {
            proof {
                lemma_count_push(mine_seeds@, i < mine_count, |v: bool| v);
            }
            mine_seeds.push(i < mine_count);
            i = i + 1;
        }
        proof {
            lemma_count_true_multiset(mine_seeds@);
        }
        shuffle(&mut mine_seeds);
        proof {
            lemma_count_true_multiset(mine_seeds@);
        }
        let board = MinePlayground::from_seeds(width, height, &mine_seeds);
        Ok(board)
    }
}

} // verus!

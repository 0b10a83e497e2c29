use crate::board::{
    lemma_hints_kept, lemma_space_has_no_mine_neighbor, safe_cells, shown_safe_cells, BlockStatus,
    BlockType, ClickResult, MinePlayground, Position,
};
use crate::counting::{count_in_rows, lemma_rows_le, lemma_rows_same};
use crate::neighbors::{get_surroundings, is_neighbor};
use vstd::prelude::*;

verus! {

/// Cell `(a, b)` was hidden in `pre` and is shown in `post`.
pub open spec fn newly_shown(pre: MinePlayground, post: MinePlayground, a: int, b: int) -> bool {
    &&& pre.in_bounds(a, b)
    &&& pre.block(a, b).bstatus is Hidden
    &&& post.block(a, b).bstatus is Shown
}

/// The cells that were hidden in `pre` and are shown in `post`.
pub open spec fn revealed_cells(pre: MinePlayground, post: MinePlayground) -> Set<(int, int)> {
    Set::new(|p: (int, int)| newly_shown(pre, post, p.0, p.1))
}

/// `depth` and `parent` witness that every cell revealed between `pre` and `post`
/// was reached from `(x, y)`: each one but `(x, y)` lies next to a revealed space
/// of smaller depth.
#[verifier::opaque]
pub open spec fn flood_tree(
    pre: MinePlayground,
    post: MinePlayground,
    x: int,
    y: int,
    parent: Map<(int, int), (int, int)>,
    depth: Map<(int, int), nat>,
) -> bool {
    forall|a: int, b: int| #[trigger]
        newly_shown(pre, post, a, b) ==> {
            &&& depth.contains_key((a, b))
            &&& (a != x || b != y) ==> {
                &&& parent.contains_key((a, b))
                &&& newly_shown(pre, post, parent[(a, b)].0, parent[(a, b)].1)
                &&& post.block(parent[(a, b)].0, parent[(a, b)].1).btype is Space
                &&& is_neighbor(parent[(a, b)].0, parent[(a, b)].1, a, b)
                &&& depth.contains_key(parent[(a, b)])
                &&& depth[parent[(a, b)]] < depth[(a, b)]
            }
        }
}

/// Only hidden safe cells were revealed between `pre` and `post`; nothing else changed.
#[verifier::opaque]
pub open spec fn only_safe_revealed(pre: MinePlayground, post: MinePlayground) -> bool {
    &&& pre.same_layout(&post)
    &&& forall|a: int, b: int|
        pre.in_bounds(a, b) && (#[trigger] post.block(a, b)).bstatus != pre.block(a, b).bstatus
            ==> newly_shown(pre, post, a, b) && !(pre.block(a, b).btype is Mine)
}

/// Around every space revealed between `pre` and `post`, no cell is left hidden.
#[verifier::opaque]
pub open spec fn spaces_closed(pre: MinePlayground, post: MinePlayground) -> bool {
    forall|a: int, b: int, c: int, d: int|
        #![trigger newly_shown(pre, post, a, b), post.block(c, d)]
        newly_shown(pre, post, a, b) && post.block(a, b).btype is Space && post.in_bounds(c, d)
            && is_neighbor(a, b, c, d) ==> !(post.block(c, d).bstatus is Hidden)
}

/// `post` is `pre` after revealing the hidden safe cell `(x, y)`: the cell is
/// shown, and so is the whole region of spaces joined to it with the cells
/// bordering that region, and nothing more; the shown count rises by the
/// number of cells revealed, each counted once.
pub open spec fn flood_post(pre: MinePlayground, post: MinePlayground, x: int, y: int) -> bool {
    &&& post.block(x, y).bstatus is Shown
    &&& post.shown_count > pre.shown_count
    &&& revealed_cells(pre, post).finite()
    &&& post.shown_count == pre.shown_count + revealed_cells(pre, post).len()
    &&& only_safe_revealed(pre, post)
    &&& spaces_closed(pre, post)
    &&& exists|parent: Map<(int, int), (int, int)>, depth: Map<(int, int), nat>|
        flood_tree(pre, post, x, y, parent, depth)
}

/// `post` and `r` are what a left click on `(x, y)` makes of `pre`.
pub open spec fn reveal_post(
    pre: MinePlayground,
    post: MinePlayground,
    x: int,
    y: int,
    r: ClickResult,
) -> bool {
    let target = pre.block(x, y);
    if !(target.bstatus is Hidden) {
        r == ClickResult::NothingHappened && pre.same_state(&post)
    } else if target.btype is Mine {
        r == ClickResult::Wasted && pre.same_layout(&post) && post.all_shown()
    } else {
        &&& flood_post(pre, post, x, y)
        &&& r == if post.shown_count == post.safety_block_count {
            ClickResult::Win
        } else {
            ClickResult::NothingHappened
        }
    }
}

/// Every entry of `stack` is a space revealed between `pre` and `post`.
#[verifier::opaque]
spec fn stack_ok(pre: MinePlayground, post: MinePlayground, stack: Seq<(usize, usize)>) -> bool {
    forall|k: int|
        0 <= k < stack.len() ==> {
            &&& newly_shown(pre, post, (#[trigger] stack[k]).0 as int, stack[k].1 as int)
            &&& post.block(stack[k].0 as int, stack[k].1 as int).btype is Space
        }
}

/// Around every revealed space that is neither on `stack` nor `(ex, ey)`, no
/// cell is hidden. An off-board `(ex, ey)` such as `(-1, -1)` exempts nothing.
#[verifier::opaque]
spec fn closed_except(
    pre: MinePlayground,
    post: MinePlayground,
    stack: Seq<(usize, usize)>,
    ex: int,
    ey: int,
) -> bool {
    forall|a: int, b: int, c: int, d: int|
        #![trigger newly_shown(pre, post, a, b), post.block(c, d)]
        newly_shown(pre, post, a, b) && post.block(a, b).btype is Space && !(a == ex && b == ey)
            && !stack.contains((a as usize, b as usize)) && post.in_bounds(c, d) && is_neighbor(
            a,
            b,
            c,
            d,
        ) ==> !(post.block(c, d).bstatus is Hidden)
}

/// Cells revealed between `pre` and `after` are those revealed by `before`, and
/// `(n, m)`.
spec fn newly_one_more(
    pre: MinePlayground,
    before: MinePlayground,
    after: MinePlayground,
    n: int,
    m: int,
) -> bool {
    forall|a: int, b: int| #[trigger]
        newly_shown(pre, after, a, b) == (newly_shown(pre, before, a, b) || (a == n && b == m))
}

/// `after` is `before` with the hidden safe cell `(n, m)` shown.
spec fn shows_one(before: MinePlayground, after: MinePlayground, n: int, m: int) -> bool {
    &&& before.in_bounds(n, m)
    &&& before.block(n, m).bstatus is Hidden
    &&& !(before.block(n, m).btype is Mine)
    &&& before.same_layout(&after)
    &&& after.block(n, m).bstatus is Shown
    &&& forall|a: int, b: int|
        before.in_bounds(a, b) && (a != n || b != m) ==> (#[trigger] after.block(a, b)).bstatus
            == before.block(a, b).bstatus
}

proof fn lemma_step_newly(
    pre: MinePlayground,
    before: MinePlayground,
    after: MinePlayground,
    n: int,
    m: int,
)
    requires
        only_safe_revealed(pre, before),
        shows_one(before, after, n, m),
    ensures
        only_safe_revealed(pre, after),
        newly_one_more(pre, before, after, n, m),
{
    reveal(only_safe_revealed);
    assert(pre.block(n, m).bstatus is Hidden) by {
        if pre.block(n, m).bstatus != before.block(n, m).bstatus {
            assert(newly_shown(pre, before, n, m));
        }
    }
    assert forall|a: int, b: int| #[trigger]
        newly_shown(pre, after, a, b) == (newly_shown(pre, before, a, b) || (a == n && b == m)) by {
        if pre.in_bounds(a, b) && (a != n || b != m) {
            assert(after.block(a, b).bstatus == before.block(a, b).bstatus);
        }
    }
    assert forall|a: int, b: int| pre.in_bounds(a, b) implies {
        &&& (#[trigger] after.block(a, b)).btype == pre.block(a, b).btype
        &&& after.block(a, b).pos == pre.block(a, b).pos
    } by {
        assert(before.block(a, b).btype == pre.block(a, b).btype);
        assert(after.block(a, b).btype == before.block(a, b).btype);
    }
    assert forall|a: int, b: int|
        pre.in_bounds(a, b) && (#[trigger] after.block(a, b)).bstatus != pre.block(a, b).bstatus
        implies newly_shown(pre, after, a, b) && !(pre.block(a, b).btype is Mine) by {
        if a != n || b != m {
            assert(before.block(a, b).bstatus != pre.block(a, b).bstatus);
        }
    }
}

proof fn lemma_step_stack(
    pre: MinePlayground,
    before: MinePlayground,
    after: MinePlayground,
    stack_before: Seq<(usize, usize)>,
    stack_after: Seq<(usize, usize)>,
    n: int,
    m: int,
)
    requires
        stack_ok(pre, before, stack_before),
        pre.same_layout(&before),
        shows_one(before, after, n, m),
        newly_one_more(pre, before, after, n, m),
        stack_after == if after.block(n, m).btype is Space {
            stack_before.push((n as usize, m as usize))
        } else {
            stack_before
        },
    ensures
        stack_ok(pre, after, stack_after),
{
    reveal(stack_ok);
    assert forall|k: int| 0 <= k < stack_after.len() implies {
        &&& newly_shown(pre, after, (#[trigger] stack_after[k]).0 as int, stack_after[k].1 as int)
        &&& after.block(stack_after[k].0 as int, stack_after[k].1 as int).btype is Space
    } by {
        if k < stack_before.len() {
            assert(stack_after[k] == stack_before[k]);
            let (a, b) = (stack_before[k].0 as int, stack_before[k].1 as int);
            assert(newly_shown(pre, before, a, b));
            assert(after.block(a, b).btype == before.block(a, b).btype);
        }
    }
}

proof fn lemma_step_closed(
    pre: MinePlayground,
    before: MinePlayground,
    after: MinePlayground,
    stack_before: Seq<(usize, usize)>,
    stack_after: Seq<(usize, usize)>,
    c: int,
    d: int,
    n: int,
    m: int,
)
    requires
        closed_except(pre, before, stack_before, c, d),
        pre.same_layout(&before),
        shows_one(before, after, n, m),
        newly_one_more(pre, before, after, n, m),
        stack_after == if after.block(n, m).btype is Space {
            stack_before.push((n as usize, m as usize))
        } else {
            stack_before
        },
    ensures
        closed_except(pre, after, stack_after, c, d),
{
    reveal(closed_except);
    assert forall|a: int, b: int, e: int, f: int|
        #![trigger newly_shown(pre, after, a, b), after.block(e, f)]
        newly_shown(pre, after, a, b) && after.block(a, b).btype is Space && !(a == c && b == d)
            && !stack_after.contains((a as usize, b as usize)) && after.in_bounds(e, f)
            && is_neighbor(a, b, e, f) implies !(after.block(e, f).bstatus is Hidden) by {
        if a == n && b == m {
            assert(stack_after[stack_after.len() - 1] == (n as usize, m as usize));
        } else {
            assert(newly_shown(pre, before, a, b));
            assert(after.block(a, b).btype == before.block(a, b).btype);
            assert(!stack_before.contains((a as usize, b as usize))) by {
                if stack_before.contains((a as usize, b as usize)) {
                    let k = choose|k: int|
                        0 <= k < stack_before.len() && stack_before[k] == (a as usize, b as usize);
                    assert(stack_after[k] == stack_before[k]);
                }
            }
            assert(!(before.block(e, f).bstatus is Hidden));
            if e != n || f != m {
                assert(after.block(e, f).bstatus == before.block(e, f).bstatus);
            }
        }
    }
}

proof fn lemma_step_tree(
    pre: MinePlayground,
    before: MinePlayground,
    after: MinePlayground,
    parent: Map<(int, int), (int, int)>,
    depth: Map<(int, int), nat>,
    x: int,
    y: int,
    c: int,
    d: int,
    n: int,
    m: int,
)
    requires
        flood_tree(pre, before, x, y, parent, depth),
        pre.same_layout(&before),
        shows_one(before, after, n, m),
        newly_one_more(pre, before, after, n, m),
        newly_shown(pre, before, c, d),
        before.block(c, d).btype is Space,
        is_neighbor(c, d, n, m),
        before.block(x, y).bstatus is Shown,
    ensures
        flood_tree(
            pre,
            after,
            x,
            y,
            parent.insert((n, m), (c, d)),
            depth.insert((n, m), depth[(c, d)] + 1),
        ),
{
    reveal(flood_tree);
    let parent2 = parent.insert((n, m), (c, d));
    let depth2 = depth.insert((n, m), depth[(c, d)] + 1);
    assert(depth.contains_key((c, d)));
    assert(!newly_shown(pre, before, n, m));
    assert(newly_shown(pre, after, c, d));
    assert(after.block(c, d).btype == before.block(c, d).btype);
    assert forall|a: int, b: int| #[trigger] newly_shown(pre, after, a, b) implies {
        &&& depth2.contains_key((a, b))
        &&& (a != x || b != y) ==> {
            &&& parent2.contains_key((a, b))
            &&& newly_shown(pre, after, parent2[(a, b)].0, parent2[(a, b)].1)
            &&& after.block(parent2[(a, b)].0, parent2[(a, b)].1).btype is Space
            &&& is_neighbor(parent2[(a, b)].0, parent2[(a, b)].1, a, b)
            &&& depth2.contains_key(parent2[(a, b)])
            &&& depth2[parent2[(a, b)]] < depth2[(a, b)]
        }
    } by {
        if a != n || b != m {
            assert(newly_shown(pre, before, a, b));
            if a != x || b != y {
                let (p, q) = parent[(a, b)];
                assert(newly_shown(pre, before, p, q));
                assert(newly_shown(pre, after, p, q));
                assert(after.block(p, q).btype == before.block(p, q).btype);
            }
        }
    }
}

proof fn lemma_flood_start(pre: MinePlayground, post: MinePlayground, x: int, y: int, stack: Seq<(usize, usize)>)
    requires
        shows_one(pre, post, x, y),
        stack == if post.block(x, y).btype is Space {
            seq![(x as usize, y as usize)]
        } else {
            Seq::<(usize, usize)>::empty()
        },
    ensures
        only_safe_revealed(pre, post),
        stack_ok(pre, post, stack),
        closed_except(pre, post, stack, -1, -1),
        flood_tree(pre, post, x, y, Map::empty(), Map::empty().insert((x, y), 0nat)),
        revealed_cells(pre, post) == set![(x, y)],
{
    reveal(only_safe_revealed);
    reveal(stack_ok);
    reveal(closed_except);
    reveal(flood_tree);
    assert forall|a: int, b: int| #[trigger] newly_shown(pre, post, a, b) implies a == x && b == y by {
        if a != x || b != y {
            assert(post.block(a, b).bstatus == pre.block(a, b).bstatus);
        }
    }
    if stack.len() > 0 {
        assert(stack[0] == (x as usize, y as usize));
    }
    assert(revealed_cells(pre, post) =~= set![(x, y)]);
    assert forall|a: int, b: int, e: int, f: int|
        #![trigger newly_shown(pre, post, a, b), post.block(e, f)]
        newly_shown(pre, post, a, b) && post.block(a, b).btype is Space && !(a == -1 && b == -1)
            && !stack.contains((a as usize, b as usize)) && post.in_bounds(e, f)
            && is_neighbor(a, b, e, f) implies !(post.block(e, f).bstatus is Hidden) by {
        assert(stack[0] == (x as usize, y as usize));
    }
}

/// Taking the top entry off the stack: it is a revealed space, and the rest
/// of the stack keeps the invariants, with the popped cell exempt from closure.
proof fn lemma_pop(pre: MinePlayground, post: MinePlayground, stack: Seq<(usize, usize)>)
    requires
        stack.len() > 0,
        stack_ok(pre, post, stack),
        closed_except(pre, post, stack, -1, -1),
    ensures
        newly_shown(pre, post, stack.last().0 as int, stack.last().1 as int),
        post.block(stack.last().0 as int, stack.last().1 as int).btype is Space,
        stack_ok(pre, post, stack.drop_last()),
        closed_except(pre, post, stack.drop_last(), stack.last().0 as int, stack.last().1 as int),
{
    reveal(stack_ok);
    reveal(closed_except);
    let rest = stack.drop_last();
    let (c, d) = (stack.last().0 as int, stack.last().1 as int);
    assert(stack[stack.len() - 1] == stack.last());
    assert forall|k: int| 0 <= k < rest.len() implies {
        &&& newly_shown(pre, post, (#[trigger] rest[k]).0 as int, rest[k].1 as int)
        &&& post.block(rest[k].0 as int, rest[k].1 as int).btype is Space
    } by {
        assert(rest[k] == stack[k]);
    }
    assert forall|a: int, b: int, e: int, f: int|
        #![trigger newly_shown(pre, post, a, b), post.block(e, f)]
        newly_shown(pre, post, a, b) && post.block(a, b).btype is Space && !(a == c && b == d)
            && !rest.contains((a as usize, b as usize)) && post.in_bounds(e, f)
            && is_neighbor(a, b, e, f) implies !(post.block(e, f).bstatus is Hidden) by {
        assert(!stack.contains((a as usize, b as usize))) by {
            if stack.contains((a as usize, b as usize)) {
                let k = choose|k: int| 0 <= k < stack.len() && stack[k] == (a as usize, b as usize);
                if k < rest.len() {
                    assert(rest[k] == stack[k]);
                }
            }
        }
    }
}

/// Once nothing around the popped space `(c, d)` is hidden, it needs no exemption.
proof fn lemma_close(pre: MinePlayground, post: MinePlayground, stack: Seq<(usize, usize)>, c: int, d: int)
    requires
        closed_except(pre, post, stack, c, d),
        forall|e: int, f: int|
            post.in_bounds(e, f) && is_neighbor(c, d, e, f) ==> !(#[trigger] post.block(
                e,
                f,
            ).bstatus is Hidden),
    ensures
        closed_except(pre, post, stack, -1, -1),
{
    reveal(closed_except);
}

proof fn lemma_flood_end(
    pre: MinePlayground,
    post: MinePlayground,
    x: int,
    y: int,
    parent: Map<(int, int), (int, int)>,
    depth: Map<(int, int), nat>,
)
    requires
        closed_except(pre, post, Seq::empty(), -1, -1),
        flood_tree(pre, post, x, y, parent, depth),
        only_safe_revealed(pre, post),
        post.block(x, y).bstatus is Shown,
        post.shown_count > pre.shown_count,
        revealed_cells(pre, post).finite(),
        post.shown_count == pre.shown_count + revealed_cells(pre, post).len(),
    ensures
        flood_post(pre, post, x, y),
{
    reveal(closed_except);
    reveal(spaces_closed);
    assert forall|a: int, b: int, e: int, f: int|
        #![trigger newly_shown(pre, post, a, b), post.block(e, f)]
        newly_shown(pre, post, a, b) && post.block(a, b).btype is Space && post.in_bounds(e, f)
            && is_neighbor(a, b, e, f) implies !(post.block(e, f).bstatus is Hidden) by {
        assert(!Seq::<(usize, usize)>::empty().contains((a as usize, b as usize)));
    }
}

impl MinePlayground {
    /// Shows the hidden safe cell `(x, y)` and counts it.
    fn show_safe(&mut self, x: usize, y: usize)
        requires
            old(self).wf(),
            !old(self).lost(),
            old(self).in_bounds(x as int, y as int),
            old(self).block(x as int, y as int).bstatus is Hidden,
            !(old(self).block(x as int, y as int).btype is Mine),
        ensures
            final(self).wf(),
            !final(self).lost(),
            old(self).same_layout(final(self)),
            final(self).shown_count == old(self).shown_count + 1,
            final(self).shown_count <= final(self).safety_block_count,
            final(self).block(x as int, y as int).bstatus is Shown,
            forall|a: int, b: int|
                old(self).in_bounds(a, b) && (a != x || b != y) ==> (#[trigger] final(self).block(a, b)).bstatus == old(self).block(a, b).bstatus,
    {
        let ghost pre = *self;
        self.set_status(x, y, BlockStatus::Shown);
        proof {
            let xi = x as int;
            let yi = y as int;
            assert(shown_safe_cells()(self.block(xi, yi)));
            assert(!shown_safe_cells()(pre.block(xi, yi)));
            assert forall|i: int, j: int|
                0 <= i < self.grid().len() && 0 <= j < self.grid()[i].len() && shown_safe_cells()(
                    #[trigger] self.grid()[i][j],
                ) implies safe_cells()(self.grid()[i][j]) by {}
            lemma_rows_le(self.grid(), shown_safe_cells(), safe_cells());
        }
        let ghost mid = *self;
        self.shown_count = self.shown_count + 1;
        proof {
            let xi = x as int;
            let yi = y as int;
            assert(self.grid() == mid.grid());
            assert forall|a: int, b: int| pre.in_bounds(a, b) implies {
                &&& (#[trigger] self.block(a, b)).btype == pre.block(a, b).btype
                &&& self.block(a, b).pos == pre.block(a, b).pos
                &&& (a != xi || b != yi) ==> self.block(a, b).bstatus == pre.block(a, b).bstatus
            } by {
                assert(self.block(a, b) == mid.block(a, b));
                if a != xi || b != yi {
                    assert(mid.block(a, b) == pre.block(a, b));
                }
            }
            assert(pre.same_layout(self));
            lemma_hints_kept(pre, *self);
            assert(!self.lost()) by {
                if self.lost() {
                    let (a, b) = choose|a: int, b: int|
                        self.in_bounds(a, b) && (#[trigger] self.block(a, b)).btype is Mine
                            && self.block(a, b).bstatus is Shown;
                    assert(pre.in_bounds(a, b));
                }
            }
        }
    }

    /// Shows every cell: the board after a mine is revealed.
    fn show_all(&mut self)
        requires
            old(self).wf(),
        ensures
            final(self).wf(),
            old(self).same_layout(final(self)),
            final(self).all_shown(),
    {
        let ghost pre = *self;
        let mut y: usize = 0;
        while y < self.height
            invariant
                self.shape_ok(),
                pre.same_layout(self),
                y <= self.height,
                count_in_rows(self.grid(), safe_cells()) == self.safety_block_count,
                forall|a: int, b: int|
                    self.in_bounds(a, b) && b < y ==> (#[trigger] self.block(a, b)).bstatus is Shown,
            decreases self.height - y,
        {
            let mut x: usize = 0;
            while x < self.width
                invariant
                    self.shape_ok(),
                    pre.same_layout(self),
                    y < self.height,
                    x <= self.width,
                    count_in_rows(self.grid(), safe_cells()) == self.safety_block_count,
                    forall|a: int, b: int|
                        self.in_bounds(a, b) && (b < y || (b == y && a < x)) ==> (#[trigger] self.block(
                            a,
                            b,
                        )).bstatus is Shown,
                decreases self.width - x,
            {
                self.set_status(x, y, BlockStatus::Shown);
                x = x + 1;
            }
            y = y + 1;
        }
        let ghost mid = *self;
        self.shown_count = self.safety_block_count;
        proof {
            assert(self.grid() == mid.grid());
            assert forall|a: int, b: int| #[trigger] self.block(a, b) == mid.block(a, b) by {}
            assert forall|i: int, j: int|
                0 <= i < self.grid().len() && 0 <= j < self.grid()[i].len() implies shown_safe_cells()(
                #[trigger] self.grid()[i][j],
            ) == safe_cells()(self.grid()[i][j]) by {
                assert(self.grid()[i][j] == self.block(j, i));
            }
            lemma_rows_same(self.grid(), self.grid(), shown_safe_cells(), safe_cells());
            lemma_hints_kept(pre, *self);
        }
    }

    /// Reveals the hidden safe cell `(x, y)` and, where it is a space, the
    /// region of spaces joined to it together with the cells bordering it.
    fn flood_reveal(&mut self, x: usize, y: usize)
        requires
            old(self).wf(),
            old(self).in_bounds(x as int, y as int),
            old(self).block(x as int, y as int).bstatus is Hidden,
            !(old(self).block(x as int, y as int).btype is Mine),
        ensures
            final(self).wf(),
            old(self).same_layout(final(self)),
            flood_post(*old(self), *final(self), x as int, y as int),
    {
        let ghost pre = *self;
        let ghost xi = x as int;
        let ghost yi = y as int;
        proof {
            assert(!pre.all_shown()) by {
                assert(!(pre.block(xi, yi).bstatus is Shown));
            }
        }
        self.show_safe(x, y);
        let ghost mut parent: Map<(int, int), (int, int)> = Map::empty();
        let ghost mut depth: Map<(int, int), nat> = Map::empty().insert((xi, yi), 0nat);
        let mut stack: Vec<(usize, usize)> = Vec::new();
        if matches!(self.map[y][x].btype, BlockType::Space) {
            stack.push((x, y));
        }
        proof {
            assert(stack@ =~= if self.block(xi, yi).btype is Space {
                seq![(x, y)]
            } else {
                Seq::<(usize, usize)>::empty()
            });
            lemma_flood_start(pre, *self, xi, yi, stack@);
        }
        while stack.len() > 0
            invariant
                self.wf(),
                !self.lost(),
                pre.same_layout(self),
                pre.in_bounds(xi, yi),
                self.block(xi, yi).bstatus is Shown,
                self.shown_count > pre.shown_count,
                revealed_cells(pre, *self).finite(),
                self.shown_count == pre.shown_count + revealed_cells(pre, *self).len(),
                only_safe_revealed(pre, *self),
                self.shown_count <= self.safety_block_count,
                stack_ok(pre, *self, stack@),
                closed_except(pre, *self, stack@, -1, -1),
                flood_tree(pre, *self, xi, yi, parent, depth),
            decreases self.safety_block_count - self.shown_count, stack.len(),
        {
            proof {
                lemma_pop(pre, *self, stack@);
            }
            let (cx, cy) = stack.pop().unwrap();
            let ghost ci = cx as int;
            let ghost cj = cy as int;
            let ghost mid = *self;
            let ghost stack_mid = stack@;
            let around = get_surroundings(&cx, &cy, &self.width, &self.height);
            let mut i: usize = 0;
            while i < around.len()
                invariant
                    self.wf(),
                    !self.lost(),
                    pre.same_layout(self),
                    pre.in_bounds(xi, yi),
                    self.block(xi, yi).bstatus is Shown,
                    self.shown_count > pre.shown_count,
                    revealed_cells(pre, *self).finite(),
                    self.shown_count == pre.shown_count + revealed_cells(pre, *self).len(),
                    only_safe_revealed(pre, *self),
                    self.shown_count <= self.safety_block_count,
                    stack_ok(pre, *self, stack@),
                    closed_except(pre, *self, stack@, ci, cj),
                    flood_tree(pre, *self, xi, yi, parent, depth),
                    i <= around@.len(),
                    self.width == mid.width,
                    self.height == mid.height,
                    newly_shown(pre, *self, ci, cj),
                    self.block(ci, cj).btype is Space,
                    forall|j: int|
                        0 <= j < around@.len() ==> {
                            &&& is_neighbor(ci, cj, #[trigger] around@[j].0 as int, around@[j].1 as int)
                            &&& around@[j].0 < self.width
                            &&& around@[j].1 < self.height
                        },
                    forall|a: int, b: int|
                        0 <= a < self.width && 0 <= b < self.height && #[trigger] is_neighbor(
                            ci,
                            cj,
                            a,
                            b,
                        ) ==> around@.contains((a as usize, b as usize)),
                    forall|j: int|
                        0 <= j < i ==> !(self.block(
                            #[trigger] around@[j].0 as int,
                            around@[j].1 as int,
                        ).bstatus is Hidden),
                    forall|a: int, b: int|
                        mid.in_bounds(a, b) && !(mid.block(a, b).bstatus is Hidden) ==> (
                        #[trigger] self.block(a, b)).bstatus == mid.block(a, b).bstatus,
                    self.shown_count >= mid.shown_count,
                    stack@.len() <= stack_mid.len() + self.shown_count - mid.shown_count,
                    stack@.len() >= stack_mid.len(),
                    forall|k: int| 0 <= k < stack_mid.len() ==> #[trigger] stack@[k] == stack_mid[k],
                decreases around@.len() - i,
            {
                let (nx, ny) = around[i];
                if matches!(self.map[ny][nx].bstatus, BlockStatus::Hidden) {
                    let ghost before = *self;
                    let ghost stack_before = stack@;
                    proof {
                        lemma_space_has_no_mine_neighbor(*self, ci, cj, nx as int, ny as int);
                    }
                    self.show_safe(nx, ny);
                    if matches!(self.map[ny][nx].btype, BlockType::Space) {
                        stack.push((nx, ny));
                    }
                    proof {
                        let (n, m) = (nx as int, ny as int);
                        assert(shows_one(before, *self, n, m));
                        lemma_step_newly(pre, before, *self, n, m);
                        lemma_step_stack(pre, before, *self, stack_before, stack@, n, m);
                        lemma_step_closed(pre, before, *self, stack_before, stack@, ci, cj, n, m);
                        lemma_step_tree(pre, before, *self, parent, depth, xi, yi, ci, cj, n, m);
                        assert(!revealed_cells(pre, before).contains((n, m)));
                        assert(revealed_cells(pre, *self) =~= revealed_cells(pre, before).insert(
                            (n, m),
                        ));
                        parent = parent.insert((n, m), (ci, cj));
                        depth = depth.insert((n, m), depth[(ci, cj)] + 1);
                        assert(pre.same_layout(self)) by {
                            assert forall|a: int, b: int| pre.in_bounds(a, b) implies {
                                &&& (#[trigger] self.block(a, b)).btype == pre.block(a, b).btype
                                &&& self.block(a, b).pos == pre.block(a, b).pos
                            } by {
                                assert(before.block(a, b).btype == pre.block(a, b).btype);
                            }
                        }
                        assert(self.block(ci, cj).btype == before.block(ci, cj).btype);
                        assert forall|a: int, b: int|
                            mid.in_bounds(a, b) && !(mid.block(a, b).bstatus is Hidden) implies (
                            #[trigger] self.block(a, b)).bstatus == mid.block(a, b).bstatus by {
                            assert(before.block(a, b).bstatus == mid.block(a, b).bstatus);
                        }
                        assert forall|j: int| 0 <= j < i + 1 implies !(self.block(
                            #[trigger] around@[j].0 as int,
                            around@[j].1 as int,
                        ).bstatus is Hidden) by {
                            let (a, b) = (around@[j].0 as int, around@[j].1 as int);
                            assert(before.in_bounds(a, b));
                        }
                        assert forall|k: int| 0 <= k < stack_mid.len() implies #[trigger] stack@[k]
                            == stack_mid[k] by {
                            assert(stack_before[k] == stack_mid[k]);
                        }
                    }
                }
                i = i + 1;
            }
            proof {
                assert forall|e: int, f: int|
                    self.in_bounds(e, f) && is_neighbor(ci, cj, e, f) implies !(#[trigger] self.block(
                    e,
                    f,
                ).bstatus is Hidden) by {
                    assert(around@.contains((e as usize, f as usize)));
                    let j = choose|j: int| 0 <= j < around@.len() && around@[j] == (e as usize, f as usize);
                    assert(!(self.block(around@[j].0 as int, around@[j].1 as int).bstatus is Hidden));
                }
                lemma_close(pre, *self, stack@, ci, cj);
            }
        }
        proof {
            assert(stack@ =~= Seq::<(usize, usize)>::empty());
            lemma_flood_end(pre, *self, xi, yi, parent, depth);
        }
    }

    /// Left click on `(x, y)`. A cell that is not hidden is left alone. A hidden
    /// mine loses the game: every cell is shown. A hidden safe cell is shown; if
    /// it is a space, so is the region of spaces joined to it and the cells
    /// bordering that region. `Win` comes when that leaves no safe cell hidden.
    pub fn click(&mut self, x: &usize, y: &usize) -> (r: ClickResult)
        requires
            old(self).wf(),
            old(self).in_bounds(*x as int, *y as int),
        ensures
            final(self).wf(),
            old(self).same_layout(final(self)),
            reveal_post(*old(self), *final(self), *x as int, *y as int, r),
    {
        let x = *x;
        let y = *y;
        if !matches!(self.map[y][x].bstatus, BlockStatus::Hidden) {
            return ClickResult::NothingHappened;
        }
        if matches!(self.map[y][x].btype, BlockType::Mine) {
            self.show_all();
            return ClickResult::Wasted;
        }
        self.flood_reveal(x, y);
        if self.shown_count == self.safety_block_count {
            ClickResult::Win
        } else {
            ClickResult::NothingHappened
        }
    }
}

} // verus!

use vstd::prelude::*;

verus! {

/// `(a, b)` is one of the eight cells around `(x, y)`: diagonals included,
/// `(x, y)` itself excluded.
pub open spec fn is_neighbor(x: int, y: int, a: int, b: int) -> bool {
    &&& (a != x || b != y)
    &&& x - 1 <= a <= x + 1
    &&& y - 1 <= b <= y + 1
}

/// `p` alone where `keep` holds, else nothing.
pub open spec fn kept(keep: bool, p: (int, int)) -> Seq<(int, int)> {
    if keep {
        seq![p]
    } else {
        Seq::empty()
    }
}

/// The cells around `(x, y)` on a `w` by `h` grid, in this order: left, right;
/// above, above-left, above-right; below, below-left, below-right. A cell to the
/// left is kept where `x > 0`, one to the right where `x < w - 1`, one above
/// where `y > 0` and one below where `y < h - 1`.
pub open spec fn surroundings(x: int, y: int, w: int, h: int) -> Seq<(int, int)> {
    kept(x > 0, (x - 1, y)) + kept(x < w - 1, (x + 1, y)) + kept(y > 0, (x, y - 1)) + kept(
        y > 0 && x > 0,
        (x - 1, y - 1),
    ) + kept(y > 0 && x < w - 1, (x + 1, y - 1)) + kept(y < h - 1, (x, y + 1)) + kept(
        y < h - 1 && x > 0,
        (x - 1, y + 1),
    ) + kept(y < h - 1 && x < w - 1, (x + 1, y + 1))
}

/// A list of grid coordinates as integer pairs.
pub open spec fn as_int_pairs(s: Seq<(usize, usize)>) -> Seq<(int, int)> {
    s.map_values(|p: (usize, usize)| (p.0 as int, p.1 as int))
}

/// The cells around `(x, y)`, each listed once, in the order `surroundings`
/// gives; for a cell on the grid these are exactly its in-bounds neighbours.
pub fn get_surroundings(x: &usize, y: &usize, max_width: &usize, max_height: &usize) -> (r: Vec<
    (usize, usize),
>)
    requires
        *max_width >= 1,
        *max_height >= 1,
    ensures
        as_int_pairs(r@) == surroundings(
            *x as int,
            *y as int,
            *max_width as int,
            *max_height as int,
        ),
        forall|i: int|
            0 <= i < r@.len() ==> is_neighbor(
                *x as int,
                *y as int,
                #[trigger] r@[i].0 as int,
                r@[i].1 as int,
            ),
        *x < *max_width && *y < *max_height ==> forall|i: int|
            0 <= i < r@.len() ==> {
                &&& #[trigger] r@[i].0 < *max_width
                &&& r@[i].1 < *max_height
            },
        *x < *max_width && *y < *max_height ==> forall|a: int, b: int|
            0 <= a < *max_width && 0 <= b < *max_height && #[trigger] is_neighbor(
                *x as int,
                *y as int,
                a,
                b,
            ) ==> r@.contains((a as usize, b as usize)),
        r@.no_duplicates(),
        r@.len() <= 8,
{
    let x = *x;
    let y = *y;
    let max_x = *max_width - 1;
    let max_y = *max_height - 1;
    let ghost (xi, yi, w, h) = (x as int, y as int, *max_width as int, *max_height as int);
    let mut r: Vec<(usize, usize)> = Vec::new();
    // where each neighbor that exists was put
    let ghost mut at: Map<(int, int), int> = Map::empty();
    // what the list holds so far
    let ghost mut listed: Seq<(int, int)> = Seq::empty();
    if x > 0 {
        proof { at = at.insert((-1, 0), r@.len() as int); }
        r.push((x - 1, y));
    }
    proof {
        listed = listed + kept(xi > 0, (xi - 1, yi));
        assert(as_int_pairs(r@) =~= listed);
    }
    if x < max_x {
        proof { at = at.insert((1, 0), r@.len() as int); }
        r.push((x + 1, y));
    }
    proof {
        listed = listed + kept(xi < w - 1, (xi + 1, yi));
        assert(as_int_pairs(r@) =~= listed);
    }
    if y > 0 {
        proof { at = at.insert((0, -1), r@.len() as int); }
        r.push((x, y - 1));
    }
    proof {
        listed = listed + kept(yi > 0, (xi, yi - 1));
        assert(as_int_pairs(r@) =~= listed);
    }
    if y > 0 && x > 0 {
        proof { at = at.insert((-1, -1), r@.len() as int); }
        r.push((x - 1, y - 1));
    }
    proof {
        listed = listed + kept(yi > 0 && xi > 0, (xi - 1, yi - 1));
        assert(as_int_pairs(r@) =~= listed);
    }
    if y > 0 && x < max_x {
        proof { at = at.insert((1, -1), r@.len() as int); }
        r.push((x + 1, y - 1));
    }
    proof {
        listed = listed + kept(yi > 0 && xi < w - 1, (xi + 1, yi - 1));
        assert(as_int_pairs(r@) =~= listed);
    }
    if y < max_y {
        proof { at = at.insert((0, 1), r@.len() as int); }
        r.push((x, y + 1));
    }
    proof {
        listed = listed + kept(yi < h - 1, (xi, yi + 1));
        assert(as_int_pairs(r@) =~= listed);
    }
    if y < max_y && x > 0 {
        proof { at = at.insert((-1, 1), r@.len() as int); }
        r.push((x - 1, y + 1));
    }
    proof {
        listed = listed + kept(yi < h - 1 && xi > 0, (xi - 1, yi + 1));
        assert(as_int_pairs(r@) =~= listed);
    }
    if y < max_y && x < max_x {
        proof { at = at.insert((1, 1), r@.len() as int); }
        r.push((x + 1, y + 1));
    }
    proof {
        listed = listed + kept(yi < h - 1 && xi < w - 1, (xi + 1, yi + 1));
        assert(as_int_pairs(r@) =~= listed);
    }
    assert forall|a: int, b: int|
        x < *max_width && y < *max_height && 0 <= a < *max_width && 0 <= b < *max_height
            && #[trigger] is_neighbor(
            x as int,
            y as int,
            a,
            b,
        ) implies r@.contains((a as usize, b as usize)) by {
        let k = at[(a - x, b - y)];
        assert(at.contains_key((a - x, b - y)));
        assert(r@[k] == (a as usize, b as usize));
    }
    r
}

} // verus!

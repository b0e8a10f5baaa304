//! Connectivity over the tile grid: paths of walkable cells, preservation
//! under carving (which only ever makes more cells walkable), and the
//! segment lemmas the generator uses to justify that every level's stair
//! is reachable from the first room's center.

use vstd::prelude::*;
use crate::level::{Tile, MAP_W, MAP_H};

verus! {

/// The cell (x, y) lies on the fixed-size grid.
pub open spec fn in_grid(x: int, y: int) -> bool {
    0 <= x < MAP_W && 0 <= y < MAP_H
}

/// The grid has exactly MAP_H rows of exactly MAP_W cells.
pub open spec fn grid_dims<T>(g: Seq<Vec<T>>) -> bool {
    g.len() == MAP_H && (forall|y: int| 0 <= y < MAP_H ==> (#[trigger] g[y])@.len() == MAP_W)
}

/// The cell (x, y) is on the grid and holds a walkable tile.
pub open spec fn walk_at(t: Seq<Vec<Tile>>, x: int, y: int) -> bool {
    in_grid(x, y) && t[y]@[x].spec_walkable()
}

/// One orthogonal step separates the two cells.
pub open spec fn adjacent(a: (int, int), b: (int, int)) -> bool {
    (a.0 == b.0 && (a.1 == b.1 + 1 || a.1 == b.1 - 1)) || (a.1 == b.1 && (a.0 == b.0 + 1
        || a.0 == b.0 - 1))
}

/// p is a walk from a to b: nonempty, every cell walkable, consecutive
/// cells orthogonally adjacent.
pub open spec fn is_path(t: Seq<Vec<Tile>>, p: Seq<(int, int)>, a: (int, int), b: (int, int)) -> bool {
    &&& p.len() >= 1
    &&& p[0] == a
    &&& p[p.len() - 1] == b
    &&& forall|i: int| 0 <= i < p.len() ==> walk_at(t, (#[trigger] p[i]).0, p[i].1)
    &&& forall|i: int| 0 <= i < p.len() - 1 ==> adjacent(#[trigger] p[i], p[i + 1])
}

/// b can be reached from a over walkable tiles.
pub open spec fn reachable(t: Seq<Vec<Tile>>, a: (int, int), b: (int, int)) -> bool {
    exists|p: Seq<(int, int)>| is_path(t, p, a, b)
}

/// Every cell walkable under t1 is walkable under t2 (carving never
/// removes walkability).
pub open spec fn walk_mono(t1: Seq<Vec<Tile>>, t2: Seq<Vec<Tile>>) -> bool {
    forall|x: int, y: int| #[trigger] walk_at(t1, x, y) ==> walk_at(t2, x, y)
}

pub proof fn lemma_mono_trans(t1: Seq<Vec<Tile>>, t2: Seq<Vec<Tile>>, t3: Seq<Vec<Tile>>)
    requires
        walk_mono(t1, t2),
        walk_mono(t2, t3),
    ensures
        walk_mono(t1, t3),
{
    assert forall|x: int, y: int| #[trigger] walk_at(t1, x, y) implies walk_at(t3, x, y) by {
        assert(walk_at(t2, x, y));
    }
}

/// A walkable cell reaches itself.
pub proof fn lemma_reach_self(t: Seq<Vec<Tile>>, a: (int, int))
    requires
        walk_at(t, a.0, a.1),
    ensures
        reachable(t, a, a),
{
    let p = seq![a];
    assert(is_path(t, p, a, a));
}

/// Reachability composes.
pub proof fn lemma_reach_trans(t: Seq<Vec<Tile>>, a: (int, int), b: (int, int), c: (int, int))
    requires
        reachable(t, a, b),
        reachable(t, b, c),
    ensures
        reachable(t, a, c),
{
    let p1 = choose|p: Seq<(int, int)>| is_path(t, p, a, b);
    let p2 = choose|p: Seq<(int, int)>| is_path(t, p, b, c);
    if p2.len() == 1 {
        assert(is_path(t, p1, a, c));
    } else {
        let p = p1 + p2.subrange(1, p2.len() as int);
        assert(p.len() == p1.len() + p2.len() - 1);
        assert(p[0] == a);
        assert(p[p.len() - 1] == p2[p2.len() - 1]);
        assert forall|i: int| 0 <= i < p.len() implies walk_at(t, (#[trigger] p[i]).0, p[i].1) by {
            if i < p1.len() {
                assert(p[i] == p1[i]);
            } else {
                assert(p[i] == p2[i - p1.len() + 1]);
            }
        }
        assert forall|i: int| 0 <= i < p.len() - 1 implies adjacent(#[trigger] p[i], p[i + 1]) by {
            if i + 1 < p1.len() {
                assert(p[i] == p1[i]);
                assert(p[i + 1] == p1[i + 1]);
            } else if i + 1 == p1.len() {
                assert(p[i] == p1[i]);
                assert(p1[i] == b);
                assert(p[i + 1] == p2[1]);
                assert(adjacent(p2[0], p2[1]));
            } else {
                assert(p[i] == p2[i - p1.len() + 1]);
                assert(p[i + 1] == p2[i - p1.len() + 2]);
                assert(adjacent(p2[i - p1.len() + 1], p2[i - p1.len() + 2]));
            }
        }
        assert(is_path(t, p, a, c));
    }
}

/// A path stays a path when carving only adds walkable cells.
pub proof fn lemma_mono_reach(
    t1: Seq<Vec<Tile>>,
    t2: Seq<Vec<Tile>>,
    a: (int, int),
    b: (int, int),
)
    requires
        walk_mono(t1, t2),
        reachable(t1, a, b),
    ensures
        reachable(t2, a, b),
{
    let p = choose|p: Seq<(int, int)>| is_path(t1, p, a, b);
    assert forall|i: int| 0 <= i < p.len() implies walk_at(t2, (#[trigger] p[i]).0, p[i].1) by {
        assert(walk_at(t1, p[i].0, p[i].1));
    }
    assert(is_path(t2, p, a, b));
}

/// A fully walkable horizontal segment connects its two ends.
pub proof fn lemma_reach_h(t: Seq<Vec<Tile>>, xa: int, xb: int, y: int)
    requires
        forall|x: int| #![trigger walk_at(t, x, y)] (if xa <= xb {
            xa <= x <= xb
        } else {
            xb <= x <= xa
        }) ==> walk_at(t, x, y),
    ensures
        reachable(t, (xa, y), (xb, y)),
    decreases (if xa <= xb {
        xb - xa
    } else {
        xa - xb
    }),
{
    if xa == xb {
        lemma_reach_self(t, (xa, y));
    } else if xa < xb {
        let p = seq![(xa, y), (xa + 1, y)];
        assert(is_path(t, p, (xa, y), (xa + 1, y)));
        lemma_reach_h(t, xa + 1, xb, y);
        lemma_reach_trans(t, (xa, y), (xa + 1, y), (xb, y));
    } else {
        let p = seq![(xa, y), (xa - 1, y)];
        assert(is_path(t, p, (xa, y), (xa - 1, y)));
        lemma_reach_h(t, xa - 1, xb, y);
        lemma_reach_trans(t, (xa, y), (xa - 1, y), (xb, y));
    }
}

/// A fully walkable vertical segment connects its two ends.
pub proof fn lemma_reach_v(t: Seq<Vec<Tile>>, ya: int, yb: int, x: int)
    requires
        forall|y: int| #![trigger walk_at(t, x, y)] (if ya <= yb {
            ya <= y <= yb
        } else {
            yb <= y <= ya
        }) ==> walk_at(t, x, y),
    ensures
        reachable(t, (x, ya), (x, yb)),
    decreases (if ya <= yb {
        yb - ya
    } else {
        ya - yb
    }),
{
    if ya == yb {
        lemma_reach_self(t, (x, ya));
    } else if ya < yb {
        let p = seq![(x, ya), (x, ya + 1)];
        assert(is_path(t, p, (x, ya), (x, ya + 1)));
        lemma_reach_v(t, ya + 1, yb, x);
        lemma_reach_trans(t, (x, ya), (x, ya + 1), (x, yb));
    } else {
        let p = seq![(x, ya), (x, ya - 1)];
        assert(is_path(t, p, (x, ya), (x, ya - 1)));
        lemma_reach_v(t, ya - 1, yb, x);
        lemma_reach_trans(t, (x, ya), (x, ya - 1), (x, yb));
    }
}

} // verus!

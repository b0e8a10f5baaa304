//! Tiles, rooms, and the dungeon level: a fixed-size grid carved by
//! rejection-sampled rooms joined with L-shaped corridors. Every accepted
//! room is corridor-connected to its predecessor, so the stair placed in
//! the last room is provably reachable from the first room's center.

use vstd::prelude::*;
use crate::reach::{
    grid_dims, in_grid, lemma_mono_reach, lemma_mono_trans, lemma_reach_h, lemma_reach_self,
    lemma_reach_trans, lemma_reach_v, reachable, walk_at, walk_mono,
};
use crate::rng::GameRng;

verus! {

pub const MAP_W: usize = 80;
pub const MAP_H: usize = 45;

/// The closed catalog of tiles.
#[derive(Clone, Copy, PartialEq, Eq, Structural, Debug)]
pub enum Tile {
    Wall,
    /// Plain ground.
    Floor,
    /// The way down to the next depth.
    Stair,
    /// Decorative flower tile; behaves like floor.
    Asphodel,
}

impl Tile {
    /// Wall is neither walkable nor transparent; every other tile is both.
    pub open spec fn spec_walkable(self) -> bool {
        self != Tile::Wall
    }

    pub open spec fn spec_transparent(self) -> bool {
        self != Tile::Wall
    }

    pub fn walkable(self) -> (r: bool)
        ensures
            r == self.spec_walkable(),
    {
        match self {
            Tile::Wall => false,
            Tile::Floor => true,
            Tile::Stair => true,
            Tile::Asphodel => true,
        }
    }

    pub fn transparent(self) -> (r: bool)
        ensures
            r == self.spec_transparent(),
    {
        match self {
            Tile::Wall => false,
            Tile::Floor => true,
            Tile::Stair => true,
            Tile::Asphodel => true,
        }
    }

    pub open spec fn spec_glyph(self) -> char {
        match self {
            Tile::Wall => '#',
            Tile::Floor => '.',
            Tile::Stair => '>',
            Tile::Asphodel => '*',
        }
    }

    pub fn glyph(self) -> (r: char)
        ensures
            r == self.spec_glyph(),
    {
        match self {
            Tile::Wall => '#',
            Tile::Floor => '.',
            Tile::Stair => '>',
            Tile::Asphodel => '*',
        }
    }
}

/// An axis-aligned rectangle; the carved area is the half-open box
/// [x1, x2) x [y1, y2).
#[derive(Clone, Copy, PartialEq, Eq, Structural, Debug)]
pub struct Rect {
    pub x1: usize,
    pub y1: usize,
    pub x2: usize,
    pub y2: usize,
}

impl Rect {
    pub fn new(x: usize, y: usize, w: usize, h: usize) -> (r: Rect)
        requires
            x + w <= usize::MAX,
            y + h <= usize::MAX,
        ensures
            r.x1 == x,
            r.y1 == y,
            r.x2 == x + w,
            r.y2 == y + h,
    {
        Rect { x1: x, y1: y, x2: x + w, y2: y + h }
    }

    pub open spec fn spec_center(self) -> (int, int) {
        (((self.x1 + self.x2) / 2) as int, ((self.y1 + self.y2) / 2) as int)
    }

    pub fn center(&self) -> (c: (usize, usize))
        requires
            self.x1 + self.x2 <= usize::MAX,
            self.y1 + self.y2 <= usize::MAX,
        ensures
            c.0 == self.spec_center().0,
            c.1 == self.spec_center().1,
    {
        ((self.x1 + self.x2) / 2, (self.y1 + self.y2) / 2)
    }

    pub open spec fn spec_intersects(self, other: Rect) -> bool {
        self.x1 <= other.x2 && self.x2 >= other.x1 && self.y1 <= other.y2 && self.y2 >= other.y1
    }

    pub fn intersects(&self, other: &Rect) -> (r: bool)
        ensures
            r == self.spec_intersects(*other),
    {
        self.x1 <= other.x2 && self.x2 >= other.x1 && self.y1 <= other.y2 && self.y2 >= other.y1
    }

    /// Lies strictly inside the grid, one cell of wall margin on every side,
    /// and nonempty in both axes.
    pub open spec fn in_map(self) -> bool {
        1 <= self.x1 < self.x2 <= MAP_W - 1 && 1 <= self.y1 < self.y2 <= MAP_H - 1
    }

    /// The cell (x, y) lies in the carved area of the room.
    pub open spec fn contains(self, x: int, y: int) -> bool {
        self.x1 <= x < self.x2 && self.y1 <= y < self.y2
    }

    /// The center of a room that lies in the map lies in its carved area.
    pub proof fn lemma_center_inside(self)
        requires
            self.in_map(),
        ensures
            self.contains(self.spec_center().0, self.spec_center().1),
            in_grid(self.spec_center().0, self.spec_center().1),
    {
    }
}

/// One dungeon level: the tile grid, the two field-of-view overlays, the
/// accepted rooms in generation order, and the depth it was generated for.
pub struct Level {
    pub tiles: Vec<Vec<Tile>>,
    pub revealed: Vec<Vec<bool>>,
    pub visible: Vec<Vec<bool>>,
    pub rooms: Vec<Rect>,
    pub depth: u32,
}

/// The flag at (x, y) of a boolean overlay.
pub open spec fn flag_at(g: Seq<Vec<bool>>, x: int, y: int) -> bool {
    g[y]@[x]
}

/// The cell (x, y) lies on the one-cell border ring of the grid.
pub open spec fn on_border(x: int, y: int) -> bool {
    in_grid(x, y) && (x == 0 || x == MAP_W - 1 || y == 0 || y == MAP_H - 1)
}

impl Level {
    pub open spec fn wf(self) -> bool {
        &&& grid_dims(self.tiles@)
        &&& grid_dims(self.revealed@)
        &&& grid_dims(self.visible@)
        &&& forall|i: int| 0 <= i < self.rooms@.len() ==> (#[trigger] self.rooms@[i]).in_map()
        &&& forall|x: int, y: int|
            in_grid(x, y) && #[trigger] flag_at(self.visible@, x, y) ==> flag_at(
                self.revealed@,
                x,
                y,
            )
    }

    /// In every well-formed level — the state every operation of this
    /// crate preserves — a visible cell is always a revealed cell.
    pub proof fn lemma_visible_implies_revealed(self)
        requires
            self.wf(),
        ensures
            forall|x: int, y: int|
                in_grid(x, y) && #[trigger] flag_at(self.visible@, x, y) ==> flag_at(
                    self.revealed@,
                    x,
                    y,
                ),
    {
    }

    /// The stair cell: the center of the last accepted room.
    pub open spec fn spec_stair(self) -> (int, int) {
        self.rooms@[self.rooms@.len() - 1].spec_center()
    }

    pub open spec fn spec_first_center(self) -> (int, int) {
        self.rooms@[0].spec_center()
    }

    /// Generate a level for the given depth: between 1 and 15 pairwise
    /// non-intersecting rooms are carved (the target count may not be
    /// reached; one room always is), the border ring stays solid wall,
    /// the stair sits at the last room's center, and the stair is
    /// reachable from the first room's center over walkable tiles alone.
    /// Both overlays start fully dark.
    pub fn new(depth: u32, rng: &mut GameRng) -> (m: Level)
        ensures
            m.wf(),
            m.depth == depth,
            1 <= m.rooms@.len() <= 15,
            forall|i: int, j: int|
                0 <= i < j < m.rooms@.len() ==> !(#[trigger] m.rooms@[i].spec_intersects(
                    m.rooms@[j],
                )),
            forall|x: int, y: int| on_border(x, y) ==> m.tiles@[y]@[x] == Tile::Wall,
            forall|x: int, y: int| in_grid(x, y) ==> !#[trigger] flag_at(m.visible@, x, y),
            forall|x: int, y: int| in_grid(x, y) ==> !#[trigger] flag_at(m.revealed@, x, y),
            m.tiles@[m.spec_stair().1]@[m.spec_stair().0] == Tile::Stair,
            walk_at(m.tiles@, m.spec_first_center().0, m.spec_first_center().1),
            walk_at(m.tiles@, m.spec_stair().0, m.spec_stair().1),
            reachable(m.tiles@, m.spec_first_center(), m.spec_stair()),
    {
        let mut map = Level {
            tiles: wall_grid(),
            revealed: false_grid(),
            visible: false_grid(),
            rooms: Vec::new(),
            depth,
        };
        map.generate(rng);
        map
    }

    fn set_tile(&mut self, x: usize, y: usize, t: Tile)
        requires
            grid_dims(old(self).tiles@),
            x < MAP_W,
            y < MAP_H,
        ensures
            grid_dims(final(self).tiles@),
            final(self).tiles@[y as int]@ == old(self).tiles@[y as int]@.update(x as int, t),
            forall|j: int|
                0 <= j < MAP_H && j != y ==> final(self).tiles@[j] == old(self).tiles@[j],
            final(self).revealed == old(self).revealed,
            final(self).visible == old(self).visible,
            final(self).rooms == old(self).rooms,
            final(self).depth == old(self).depth,
    {
        self.tiles[y][x] = t;
    }

    /// Carve the room's area: each cell becomes Asphodel with probability
    /// 1/12, else Floor. Only cells inside the room change.
    fn carve_room(&mut self, room: &Rect, rng: &mut GameRng)
        requires
            grid_dims(old(self).tiles@),
            room.in_map(),
        ensures
            grid_dims(final(self).tiles@),
            walk_mono(old(self).tiles@, final(self).tiles@),
            forall|x: int, y: int|
                room.contains(x, y) ==> #[trigger] walk_at(final(self).tiles@, x, y),
            forall|x: int, y: int|
                in_grid(x, y) && !room.contains(x, y) ==> final(self).tiles@[y]@[x] == old(
                    self,
                ).tiles@[y]@[x],
            final(self).revealed == old(self).revealed,
            final(self).visible == old(self).visible,
            final(self).rooms == old(self).rooms,
            final(self).depth == old(self).depth,
    {
        let mut y = room.y1;
        while y < room.y2
            invariant
                room.in_map(),
                room.y1 <= y <= room.y2,
                grid_dims(self.tiles@),
                walk_mono(old(self).tiles@, self.tiles@),
                forall|xx: int, yy: int|
                    room.contains(xx, yy) && yy < y ==> #[trigger] walk_at(self.tiles@, xx, yy),
                forall|xx: int, yy: int|
                    in_grid(xx, yy) && !(room.contains(xx, yy) && yy < y) ==> self.tiles@[yy]@[xx]
                        == old(self).tiles@[yy]@[xx],
                self.revealed == old(self).revealed,
                self.visible == old(self).visible,
                self.rooms == old(self).rooms,
                self.depth == old(self).depth,
            decreases room.y2 - y,
        {
            let mut x = room.x1;
            while x < room.x2
                invariant
                    room.in_map(),
                    room.y1 <= y < room.y2,
                    room.x1 <= x <= room.x2,
                    grid_dims(self.tiles@),
                    walk_mono(old(self).tiles@, self.tiles@),
                    forall|xx: int, yy: int|
                        room.contains(xx, yy) && (yy < y || (yy == y && xx < x)) ==> #[trigger]
                            walk_at(self.tiles@, xx, yy),
                    forall|xx: int, yy: int|
                        in_grid(xx, yy) && !(room.contains(xx, yy) && (yy < y || (yy == y && xx
                            < x))) ==> self.tiles@[yy]@[xx] == old(self).tiles@[yy]@[xx],
                    self.revealed == old(self).revealed,
                    self.visible == old(self).visible,
                    self.rooms == old(self).rooms,
                    self.depth == old(self).depth,
                decreases room.x2 - x,
            {
                let ghost pre = self.tiles@;
                let t = if rng.ratio(1, 12) {
                    Tile::Asphodel
                } else {
                    Tile::Floor
                };
                self.set_tile(x, y, t);
                proof {
                    assert forall|xx: int, yy: int| #[trigger]
                        walk_at(pre, xx, yy) implies walk_at(self.tiles@, xx, yy) by {
                        if !(xx == x && yy == y) {
                            assert(self.tiles@[yy]@[xx] == pre[yy]@[xx]);
                        }
                    }
                    lemma_mono_trans(old(self).tiles@, pre, self.tiles@);
                    assert(self.tiles@[y as int]@[x as int] == t);
                    assert forall|xx: int, yy: int|
                        room.contains(xx, yy) && (yy < y || (yy == y && xx < x + 1)) implies
                        #[trigger] walk_at(self.tiles@, xx, yy) by {
                        if xx == x && yy == y {
                            assert(walk_at(self.tiles@, xx, yy));
                        } else {
                            assert(walk_at(pre, xx, yy));
                        }
                    }
                }
                x = x + 1;
            }
            y = y + 1;
        }
    }

    /// Carve a horizontal corridor along row y between the two columns:
    /// every Wall cell on the segment becomes Floor, other cells keep
    /// their tile, so the whole segment ends walkable. Cells off the
    /// segment are untouched.
    fn carve_h_tunnel(&mut self, xa: usize, xb: usize, y: usize)
        requires
            grid_dims(old(self).tiles@),
            xa < MAP_W,
            xb < MAP_W,
            y < MAP_H,
        ensures
            grid_dims(final(self).tiles@),
            walk_mono(old(self).tiles@, final(self).tiles@),
            forall|x: int| #![trigger walk_at(final(self).tiles@, x, y as int)]
                (if xa <= xb {
                    xa <= x <= xb
                } else {
                    xb <= x <= xa
                }) ==> walk_at(final(self).tiles@, x, y as int),
            forall|x: int, yy: int|
                in_grid(x, yy) && !(yy == y && (if xa <= xb {
                    xa <= x <= xb
                } else {
                    xb <= x <= xa
                })) ==> final(self).tiles@[yy]@[x] == old(self).tiles@[yy]@[x],
            final(self).revealed == old(self).revealed,
            final(self).visible == old(self).visible,
            final(self).rooms == old(self).rooms,
            final(self).depth == old(self).depth,
    {
        let start = if xa < xb {
            xa
        } else {
            xb
        };
        let end = if xa < xb {
            xb
        } else {
            xa
        };
        let mut x = start;
        while x <= end
            invariant
                start <= x <= end + 1,
                end < MAP_W,
                y < MAP_H,
                grid_dims(self.tiles@),
                walk_mono(old(self).tiles@, self.tiles@),
                forall|xx: int| #![trigger walk_at(self.tiles@, xx, y as int)]
                    start <= xx < x ==> walk_at(self.tiles@, xx, y as int),
                forall|xx: int, yy: int|
                    in_grid(xx, yy) && !(yy == y && start <= xx < x) ==> self.tiles@[yy]@[xx]
                        == old(self).tiles@[yy]@[xx],
                self.revealed == old(self).revealed,
                self.visible == old(self).visible,
                self.rooms == old(self).rooms,
                self.depth == old(self).depth,
            decreases end + 1 - x,
        {
            let ghost pre = self.tiles@;
            if self.tiles[y][x] == Tile::Wall {
                self.set_tile(x, y, Tile::Floor);
                proof {
                    assert forall|xx: int, yy: int| #[trigger]
                        walk_at(pre, xx, yy) implies walk_at(self.tiles@, xx, yy) by {
                        if !(xx == x && yy == y) {
                            assert(self.tiles@[yy]@[xx] == pre[yy]@[xx]);
                        }
                    }
                    lemma_mono_trans(old(self).tiles@, pre, self.tiles@);
                    assert forall|xx: int| start <= xx < x + 1 implies walk_at(
                        self.tiles@,
                        xx,
                        y as int,
                    ) by {
                        if xx < x {
                            assert(walk_at(pre, xx, y as int));
                        }
                    }
                }
            } else {
                proof {
                    assert(walk_at(self.tiles@, x as int, y as int));
                }
            }
            x = x + 1;
        }
    }

    /// Carve a vertical corridor along column x between the two rows, in
    /// the same way as the horizontal one.
    fn carve_v_tunnel(&mut self, ya: usize, yb: usize, x: usize)
        requires
            grid_dims(old(self).tiles@),
            ya < MAP_H,
            yb < MAP_H,
            x < MAP_W,
        ensures
            grid_dims(final(self).tiles@),
            walk_mono(old(self).tiles@, final(self).tiles@),
            forall|y: int| #![trigger walk_at(final(self).tiles@, x as int, y)]
                (if ya <= yb {
                    ya <= y <= yb
                } else {
                    yb <= y <= ya
                }) ==> walk_at(final(self).tiles@, x as int, y),
            forall|xx: int, yy: int|
                in_grid(xx, yy) && !(xx == x && (if ya <= yb {
                    ya <= yy <= yb
                } else {
                    yb <= yy <= ya
                })) ==> final(self).tiles@[yy]@[xx] == old(self).tiles@[yy]@[xx],
            final(self).revealed == old(self).revealed,
            final(self).visible == old(self).visible,
            final(self).rooms == old(self).rooms,
            final(self).depth == old(self).depth,
    {
        let start = if ya < yb {
            ya
        } else {
            yb
        };
        let end = if ya < yb {
            yb
        } else {
            ya
        };
        let mut y = start;
        while y <= end
            invariant
                start <= y <= end + 1,
                end < MAP_H,
                x < MAP_W,
                grid_dims(self.tiles@),
                walk_mono(old(self).tiles@, self.tiles@),
                forall|yy: int| #![trigger walk_at(self.tiles@, x as int, yy)]
                    start <= yy < y ==> walk_at(self.tiles@, x as int, yy),
                forall|xx: int, yy: int|
                    in_grid(xx, yy) && !(xx == x && start <= yy < y) ==> self.tiles@[yy]@[xx]
                        == old(self).tiles@[yy]@[xx],
                self.revealed == old(self).revealed,
                self.visible == old(self).visible,
                self.rooms == old(self).rooms,
                self.depth == old(self).depth,
            decreases end + 1 - y,
        {
            let ghost pre = self.tiles@;
            if self.tiles[y][x] == Tile::Wall {
                self.set_tile(x, y, Tile::Floor);
                proof {
                    assert forall|xx: int, yy: int| #[trigger]
                        walk_at(pre, xx, yy) implies walk_at(self.tiles@, xx, yy) by {
                        if !(xx == x && yy == y) {
                            assert(self.tiles@[yy]@[xx] == pre[yy]@[xx]);
                        }
                    }
                    lemma_mono_trans(old(self).tiles@, pre, self.tiles@);
                    assert forall|yy: int| start <= yy < y + 1 implies walk_at(
                        self.tiles@,
                        x as int,
                        yy,
                    ) by {
                        if yy < y {
                            assert(walk_at(pre, x as int, yy));
                        }
                    }
                }
            } else {
                proof {
                    assert(walk_at(self.tiles@, x as int, y as int));
                }
            }
            y = y + 1;
        }
    }

    /// Rejection-sample rooms (bounded attempts), carve each accepted room,
    /// join it to its predecessor with an L-corridor, and place the stair
    /// at the last room's center.
    fn generate(&mut self, rng: &mut GameRng)
        requires
            grid_dims(old(self).tiles@),
            old(self).rooms@.len() == 0,
        ensures
            grid_dims(final(self).tiles@),
            1 <= final(self).rooms@.len() <= 15,
            forall|i: int|
                0 <= i < final(self).rooms@.len() ==> (#[trigger] final(self).rooms@[i]).in_map(),
            forall|i: int, j: int|
                0 <= i < j < final(self).rooms@.len() ==> !(#[trigger] final(self).rooms@[i].spec_intersects(final(self).rooms@[j])),
            forall|x: int, y: int|
                on_border(x, y) ==> final(self).tiles@[y]@[x] == old(self).tiles@[y]@[x],
            final(self).tiles@[final(self).spec_stair().1]@[final(self).spec_stair().0]
                == Tile::Stair,
            walk_at(
                final(self).tiles@,
                final(self).spec_first_center().0,
                final(self).spec_first_center().1,
            ),
            walk_at(final(self).tiles@, final(self).spec_stair().0, final(self).spec_stair().1),
            reachable(
                final(self).tiles@,
                final(self).spec_first_center(),
                final(self).spec_stair(),
            ),
            final(self).revealed == old(self).revealed,
            final(self).visible == old(self).visible,
            final(self).depth == old(self).depth,
    {
        let room_count = rng.range_u32(8, 16) as usize;
        let mut attempts: usize = 0;
        while attempts < 200 && self.rooms.len() < room_count
            invariant
                8 <= room_count < 16,
                attempts <= 200,
                grid_dims(self.tiles@),
                attempts >= 1 ==> self.rooms@.len() >= 1,
                self.rooms@.len() <= room_count,
                forall|i: int|
                    0 <= i < self.rooms@.len() ==> (#[trigger] self.rooms@[i]).in_map(),
                forall|i: int, j: int|
                    0 <= i < j < self.rooms@.len() ==> !(#[trigger] self.rooms@[i].spec_intersects(
                        self.rooms@[j],
                    )),
                forall|x: int, y: int|
                    on_border(x, y) ==> self.tiles@[y]@[x] == old(self).tiles@[y]@[x],
                self.rooms@.len() >= 1 ==> walk_at(
                    self.tiles@,
                    self.spec_first_center().0,
                    self.spec_first_center().1,
                ),
                self.rooms@.len() >= 1 ==> walk_at(
                    self.tiles@,
                    self.rooms@[self.rooms@.len() - 1].spec_center().0,
                    self.rooms@[self.rooms@.len() - 1].spec_center().1,
                ),
                self.rooms@.len() >= 1 ==> reachable(
                    self.tiles@,
                    self.spec_first_center(),
                    self.rooms@[self.rooms@.len() - 1].spec_center(),
                ),
                self.revealed == old(self).revealed,
                self.visible == old(self).visible,
                self.depth == old(self).depth,
            decreases 200 - attempts,
        {
            attempts = attempts + 1;
            let w = rng.range_u32(4, 12) as usize;
            let h = rng.range_u32(4, 10) as usize;
            let x = rng.range_u32(1, (MAP_W - w - 1) as u32) as usize;
            let y = rng.range_u32(1, (MAP_H - h - 1) as u32) as usize;
            let room = Rect::new(x, y, w, h);
            assert(room.in_map());

            let mut hit = false;
            let mut i: usize = 0;
            while i < self.rooms.len()
                invariant
                    i <= self.rooms@.len(),
                    hit == exists|k: int|
                        0 <= k < i && (#[trigger] self.rooms@[k]).spec_intersects(room),
                decreases self.rooms@.len() - i,
            {
                if self.rooms[i].intersects(&room) {
                    hit = true;
                }
                i = i + 1;
            }
            if hit {
                continue ;
            }

            let ghost t0 = self.tiles@;
            self.carve_room(&room, rng);
            let ghost t1 = self.tiles@;
            proof {
                room.lemma_center_inside();
            }

            if self.rooms.len() > 0 {
                let prev = self.rooms[self.rooms.len() - 1];
                let (cx, cy) = room.center();
                let (px, py) = prev.center();
                let ghost prev_c = prev.spec_center();
                let ghost new_c = room.spec_center();
                if rng.ratio(1, 2) {
                    self.carve_h_tunnel(px, cx, py);
                    let ghost t2 = self.tiles@;
                    self.carve_v_tunnel(py, cy, cx);
                    proof {
                        lemma_mono_trans(t1, t2, self.tiles@);
                        lemma_mono_trans(t0, t1, self.tiles@);
                        // the horizontal segment carved first is still walkable
                        assert forall|xx: int| (if px <= cx {
                            px <= xx <= cx
                        } else {
                            cx <= xx <= px
                        }) implies walk_at(self.tiles@, xx, py as int) by {
                            assert(walk_at(t2, xx, py as int));
                        }
                        lemma_reach_h(self.tiles@, px as int, cx as int, py as int);
                        lemma_reach_v(self.tiles@, py as int, cy as int, cx as int);
                        lemma_reach_trans(
                            self.tiles@,
                            (px as int, py as int),
                            (cx as int, py as int),
                            (cx as int, cy as int),
                        );
                        assert(reachable(self.tiles@, prev_c, new_c));
                    }
                } else {
                    self.carve_v_tunnel(py, cy, px);
                    let ghost t2 = self.tiles@;
                    self.carve_h_tunnel(px, cx, cy);
                    proof {
                        lemma_mono_trans(t1, t2, self.tiles@);
                        lemma_mono_trans(t0, t1, self.tiles@);
                        // the vertical segment carved first is still walkable
                        assert forall|yy: int| (if py <= cy {
                            py <= yy <= cy
                        } else {
                            cy <= yy <= py
                        }) implies walk_at(self.tiles@, px as int, yy) by {
                            assert(walk_at(t2, px as int, yy));
                        }
                        lemma_reach_v(self.tiles@, py as int, cy as int, px as int);
                        lemma_reach_h(self.tiles@, px as int, cx as int, cy as int);
                        lemma_reach_trans(
                            self.tiles@,
                            (px as int, py as int),
                            (px as int, cy as int),
                            (cx as int, cy as int),
                        );
                        assert(reachable(self.tiles@, prev_c, new_c));
                    }
                }
                proof {
                    // the old chain of rooms is still connected, and the new
                    // room extends it
                    lemma_mono_reach(t0, self.tiles@, self.spec_first_center(), prev_c);
                    lemma_reach_trans(self.tiles@, self.spec_first_center(), prev_c, new_c);
                    assert(walk_at(t1, new_c.0, new_c.1));
                    assert(walk_at(self.tiles@, new_c.0, new_c.1));
                    assert(walk_at(t0, self.spec_first_center().0, self.spec_first_center().1));
                    assert(walk_at(
                        self.tiles@,
                        self.spec_first_center().0,
                        self.spec_first_center().1,
                    ));
                }
            } else {
                proof {
                    assert(walk_at(self.tiles@, room.spec_center().0, room.spec_center().1));
                }
            }
            self.rooms.push(room);
            proof {
                if self.rooms@.len() == 1 {
                    lemma_reach_self(self.tiles@, room.spec_center());
                }
            }
        }

        // place the stair at the center of the last accepted room
        let last = self.rooms[self.rooms.len() - 1];
        let (sx, sy) = last.center();
        let ghost tpre = self.tiles@;
        self.set_tile(sx, sy, Tile::Stair);
        proof {
            assert forall|xx: int, yy: int| #[trigger]
                walk_at(tpre, xx, yy) implies walk_at(self.tiles@, xx, yy) by {
                if !(xx == sx && yy == sy) {
                    assert(self.tiles@[yy]@[xx] == tpre[yy]@[xx]);
                }
            }
            lemma_mono_reach(tpre, self.tiles@, self.spec_first_center(), self.spec_stair());
        }
    }

    /// Mark one cell both visible and revealed; no other cell changes.
    pub fn set_seen(&mut self, x: usize, y: usize)
        requires
            old(self).wf(),
            x < MAP_W,
            y < MAP_H,
        ensures
            final(self).wf(),
            flag_at(final(self).visible@, x as int, y as int),
            flag_at(final(self).revealed@, x as int, y as int),
            forall|xx: int, yy: int|
                in_grid(xx, yy) && !(xx == x && yy == y) ==> flag_at(final(self).visible@, xx, yy)
                    == flag_at(old(self).visible@, xx, yy) && flag_at(final(self).revealed@, xx, yy)
                    == flag_at(old(self).revealed@, xx, yy),
            final(self).tiles == old(self).tiles,
            final(self).rooms == old(self).rooms,
            final(self).depth == old(self).depth,
    {
        self.visible[y][x] = true;
        self.revealed[y][x] = true;
        proof {
            assert forall|xx: int, yy: int|
                in_grid(xx, yy) && #[trigger] flag_at(self.visible@, xx, yy) implies flag_at(
                self.revealed@,
                xx,
                yy,
            ) by {
                if !(xx == x && yy == y) {
                    assert(flag_at(self.visible@, xx, yy) == flag_at(old(self).visible@, xx, yy));
                    assert(flag_at(self.revealed@, xx, yy) == flag_at(old(self).revealed@, xx, yy));
                }
            }
        }
    }

    pub fn in_bounds(&self, x: i32, y: i32) -> (r: bool)
        ensures
            r == in_grid(x as int, y as int),
    {
        x >= 0 && y >= 0 && (x as usize) < MAP_W && (y as usize) < MAP_H
    }

    /// Darken the whole visible overlay; everything else is untouched.
    pub fn clear_visible(&mut self)
        ensures
            grid_dims(final(self).visible@),
            forall|x: int, y: int| in_grid(x, y) ==> !#[trigger] flag_at(final(self).visible@, x, y),
            final(self).tiles == old(self).tiles,
            final(self).revealed == old(self).revealed,
            final(self).rooms == old(self).rooms,
            final(self).depth == old(self).depth,
    {
        self.visible = false_grid();
    }
}

/// A full grid of Wall tiles.
fn wall_grid() -> (g: Vec<Vec<Tile>>)
    ensures
        grid_dims(g@),
        forall|x: int, y: int| in_grid(x, y) ==> g@[y]@[x] == Tile::Wall,
{
    let mut g: Vec<Vec<Tile>> = Vec::new();
    let mut y: usize = 0;
    while y < MAP_H
        invariant
            y <= MAP_H,
            g@.len() == y,
            forall|j: int| 0 <= j < y ==> (#[trigger] g@[j])@.len() == MAP_W,
            forall|j: int, x: int| 0 <= j < y && 0 <= x < MAP_W ==> g@[j]@[x] == Tile::Wall,
        decreases MAP_H - y,
    {
        let mut row: Vec<Tile> = Vec::new();
        let mut x: usize = 0;
        while x < MAP_W
            invariant
                x <= MAP_W,
                row@.len() == x,
                forall|k: int| 0 <= k < x ==> row@[k] == Tile::Wall,
            decreases MAP_W - x,
        {
            row.push(Tile::Wall);
            x = x + 1;
        }
        g.push(row);
        y = y + 1;
    }
    g
}

/// A full grid of false flags.
fn false_grid() -> (g: Vec<Vec<bool>>)
    ensures
        grid_dims(g@),
        forall|x: int, y: int| in_grid(x, y) ==> !#[trigger] flag_at(g@, x, y),
{
    let mut g: Vec<Vec<bool>> = Vec::new();
    let mut y: usize = 0;
    while y < MAP_H
        invariant
            y <= MAP_H,
            g@.len() == y,
            forall|j: int| 0 <= j < y ==> (#[trigger] g@[j])@.len() == MAP_W,
            forall|j: int, x: int| 0 <= j < y && 0 <= x < MAP_W ==> !g@[j]@[x],
        decreases MAP_H - y,
    {
        let mut row: Vec<bool> = Vec::new();
        let mut x: usize = 0;
        while x < MAP_W
            invariant
                x <= MAP_W,
                row@.len() == x,
                forall|k: int| 0 <= k < x ==> !row@[k],
            decreases MAP_W - x,
        {
            row.push(false);
            x = x + 1;
        }
        g.push(row);
        y = y + 1;
    }
    g
}

} // verus!

//! Raycast field of view: rays are stepped from the viewpoint toward every
//! cell on the perimeter of the radius square, marking cells visible and
//! revealed until the radius, the grid edge, or a non-transparent tile
//! stops them. The blocking tile itself is marked; nothing behind it is.

use vstd::prelude::*;
use crate::level::{Level, Tile, MAP_W, MAP_H};
use crate::reach::{grid_dims, in_grid};
use crate::level::flag_at;

verus! {

/// Squared Euclidean distance between two cells.
pub open spec fn dist2(x1: int, y1: int, x2: int, y2: int) -> int {
    (x1 - x2) * (x1 - x2) + (y1 - y2) * (y1 - y2)
}

/// Absolute offset along one axis after k unit steps of a ray whose
/// per-step advance along this axis is a/d (rounded to nearest).
pub open spec fn ray_off(a: int, d: int, k: int) -> int {
    (2 * a * k + d) / (2 * d)
}

/// The cell a ray from (px, py) occupies after k steps. The ray heads for
/// the target offset (sx*ax, sy*ay), with d = max(ax, ay) its step count.
pub open spec fn ray_cell(
    px: int,
    py: int,
    sx: int,
    sy: int,
    ax: int,
    ay: int,
    d: int,
    k: int,
) -> (int, int) {
    (px + sx * ray_off(ax, d, k), py + sy * ray_off(ay, d, k))
}

/// The cell (x, y) lies within the first n steps of the given ray.
pub open spec fn on_ray_prefix(
    px: int,
    py: int,
    sx: int,
    sy: int,
    ax: int,
    ay: int,
    d: int,
    n: int,
    x: int,
    y: int,
) -> bool {
    exists|k: int| 0 <= k < n && #[trigger] ray_cell(px, py, sx, sy, ax, ay, d, k) == (x, y)
}

/// Step k of the given ray lands on (x, y), and every earlier step of
/// the same ray crossed a transparent in-grid cell.
pub open spec fn ray_reaches(
    t: Seq<Vec<Tile>>,
    px: int,
    py: int,
    sx: int,
    sy: int,
    ax: int,
    ay: int,
    d: int,
    k: int,
    x: int,
    y: int,
) -> bool {
    &&& 0 <= k <= d
    &&& ray_cell(px, py, sx, sy, ax, ay, d, k) == (x, y)
    &&& forall|j: int|
        0 <= j < k ==> {
            let c = #[trigger] ray_cell(px, py, sx, sy, ax, ay, d, j);
            in_grid(c.0, c.1) && t[c.1]@[c.0].spec_transparent()
        }
}

/// Some ray of the radius-d fan from (px, py) reaches (x, y) crossing
/// transparent cells only: no cell becomes visible from behind a blocker.
pub open spec fn has_clear_ray(
    t: Seq<Vec<Tile>>,
    px: int,
    py: int,
    x: int,
    y: int,
    d: int,
) -> bool {
    exists|sx: int, sy: int, ax: int, ay: int, k: int|
        (sx == 1 || sx == -1) && (sy == 1 || sy == -1) && 0 <= ax <= d && 0 <= ay <= d && (ax == d
            || ay == d) && #[trigger] ray_reaches(t, px, py, sx, sy, ax, ay, d, k, x, y)
}

/// A cell on the marked prefix of a ray is reached by that ray over
/// transparent cells only.
proof fn lemma_prefix_has_clear_ray(
    t: Seq<Vec<Tile>>,
    px: int,
    py: int,
    sx: int,
    sy: int,
    ax: int,
    ay: int,
    d: int,
    n: int,
    x: int,
    y: int,
)
    requires
        0 <= n <= d + 1,
        forall|k: int|
            0 <= k < n ==> {
                let c = #[trigger] ray_cell(px, py, sx, sy, ax, ay, d, k);
                in_grid(c.0, c.1)
            },
        forall|k: int|
            0 <= k < n - 1 ==> {
                let c = #[trigger] ray_cell(px, py, sx, sy, ax, ay, d, k);
                t[c.1]@[c.0].spec_transparent()
            },
        on_ray_prefix(px, py, sx, sy, ax, ay, d, n, x, y),
        sx == 1 || sx == -1,
        sy == 1 || sy == -1,
        0 <= ax <= d,
        0 <= ay <= d,
        ax == d || ay == d,
    ensures
        has_clear_ray(t, px, py, x, y, d),
{
    let k = choose|k: int|
        0 <= k < n && #[trigger] ray_cell(px, py, sx, sy, ax, ay, d, k) == (x, y);
    assert(ray_reaches(t, px, py, sx, sy, ax, ay, d, k, x, y)) by {
        assert forall|j: int| 0 <= j < k implies {
            let c = #[trigger] ray_cell(px, py, sx, sy, ax, ay, d, j);
            in_grid(c.0, c.1) && t[c.1]@[c.0].spec_transparent()
        } by {
            let c = ray_cell(px, py, sx, sy, ax, ay, d, j);
            assert(in_grid(c.0, c.1));
            assert(t[c.1]@[c.0].spec_transparent());
        }
    }
}

/// The first k steps of the given ray all land on transparent in-grid
/// cells within the squared radius — nothing stops the ray before step k.
pub open spec fn unobstructed_prefix(
    t: Seq<Vec<Tile>>,
    px: int,
    py: int,
    sx: int,
    sy: int,
    ax: int,
    ay: int,
    d: int,
    k: int,
) -> bool {
    forall|j: int|
        0 <= j < k ==> {
            let c = #[trigger] ray_cell(px, py, sx, sy, ax, ay, d, j);
            in_grid(c.0, c.1) && dist2(c.0, c.1, px, py) <= d * d && t[c.1]@[c.0].spec_transparent()
        }
}

/// Completeness of one ray's marking: every cell the ray reaches without
/// being stopped — in grid, within the squared radius, with nothing but
/// transparent in-range cells before it — is visible in the overlay.
pub open spec fn ray_marks_complete(
    vis: Seq<Vec<bool>>,
    t: Seq<Vec<Tile>>,
    px: int,
    py: int,
    sx: int,
    sy: int,
    ax: int,
    ay: int,
    d: int,
) -> bool {
    forall|k: int|
        #![trigger ray_cell(px, py, sx, sy, ax, ay, d, k)]
        0 <= k <= d && unobstructed_prefix(t, px, py, sx, sy, ax, ay, d, k) && ({
            let c = ray_cell(px, py, sx, sy, ax, ay, d, k);
            in_grid(c.0, c.1) && dist2(c.0, c.1, px, py) <= d * d
        }) ==> flag_at(
            vis,
            ray_cell(px, py, sx, sy, ax, ay, d, k).0,
            ray_cell(px, py, sx, sy, ax, ay, d, k).1,
        )
}

/// A ray that marked its prefix and stopped for one of the three stated
/// reasons marked every cell it could reach.
proof fn lemma_stop_implies_complete(
    vis: Seq<Vec<bool>>,
    t: Seq<Vec<Tile>>,
    px: int,
    py: int,
    sx: int,
    sy: int,
    ax: int,
    ay: int,
    d: int,
    n: int,
)
    requires
        1 <= n <= d + 1,
        forall|k: int|
            0 <= k < n ==> {
                let c = #[trigger] ray_cell(px, py, sx, sy, ax, ay, d, k);
                in_grid(c.0, c.1) && dist2(c.0, c.1, px, py) <= d * d && flag_at(vis, c.0, c.1)
            },
        n <= d ==> ({
            let c = ray_cell(px, py, sx, sy, ax, ay, d, n);
            let cp = ray_cell(px, py, sx, sy, ax, ay, d, n - 1);
            !in_grid(c.0, c.1) || dist2(c.0, c.1, px, py) > d * d
                || !t[cp.1]@[cp.0].spec_transparent()
        }),
    ensures
        ray_marks_complete(vis, t, px, py, sx, sy, ax, ay, d),
{
    assert forall|k: int|
        0 <= k <= d && unobstructed_prefix(t, px, py, sx, sy, ax, ay, d, k) && ({
            let c = ray_cell(px, py, sx, sy, ax, ay, d, k);
            in_grid(c.0, c.1) && dist2(c.0, c.1, px, py) <= d * d
        }) implies flag_at(
        vis,
        #[trigger] ray_cell(px, py, sx, sy, ax, ay, d, k).0,
        ray_cell(px, py, sx, sy, ax, ay, d, k).1,
    ) by {
        if k >= n {
            // the ray would have had no reason to stop at step n
            assert(n <= d);
            let c = ray_cell(px, py, sx, sy, ax, ay, d, n);
            let cp = ray_cell(px, py, sx, sy, ax, ay, d, n - 1);
            if n < k {
                assert(in_grid(c.0, c.1) && dist2(c.0, c.1, px, py) <= d * d
                    && t[c.1]@[c.0].spec_transparent());
                assert(t[cp.1]@[cp.0].spec_transparent());
            } else {
                assert(in_grid(c.0, c.1) && dist2(c.0, c.1, px, py) <= d * d);
                assert(t[cp.1]@[cp.0].spec_transparent());
            }
            assert(false);
        }
    }
}

/// Completeness of one ray is kept when the visible overlay only grows.
proof fn lemma_complete_monotone(
    vis1: Seq<Vec<bool>>,
    vis2: Seq<Vec<bool>>,
    t: Seq<Vec<Tile>>,
    px: int,
    py: int,
    sx: int,
    sy: int,
    ax: int,
    ay: int,
    d: int,
)
    requires
        ray_marks_complete(vis1, t, px, py, sx, sy, ax, ay, d),
        forall|x: int, y: int|
            in_grid(x, y) && #[trigger] flag_at(vis1, x, y) ==> flag_at(vis2, x, y),
    ensures
        ray_marks_complete(vis2, t, px, py, sx, sy, ax, ay, d),
{
    assert forall|k: int|
        0 <= k <= d && unobstructed_prefix(t, px, py, sx, sy, ax, ay, d, k) && ({
            let c = ray_cell(px, py, sx, sy, ax, ay, d, k);
            in_grid(c.0, c.1) && dist2(c.0, c.1, px, py) <= d * d
        }) implies flag_at(
        vis2,
        #[trigger] ray_cell(px, py, sx, sy, ax, ay, d, k).0,
        ray_cell(px, py, sx, sy, ax, ay, d, k).1,
    ) by {
        let c = ray_cell(px, py, sx, sy, ax, ay, d, k);
        assert(flag_at(vis1, c.0, c.1));
    }
}

/// The iteration counter of compute_fov's perimeter walk that casts this
/// ray lies below i, so the ray has already been cast.
pub open spec fn ray_cast_before(sx: int, sy: int, ax: int, ay: int, d: int, i: int) -> bool {
    ||| (ay == d && d + sx * ax < i && !(sx == -1 && ax == 0))
    ||| (ax == d && d + sy * ay < i && !(sy == -1 && ay == 0))
}

/// A unit sign times a bounded magnitude is the magnitude or its negation.
proof fn lemma_sign_mul_bounds(s: int, a: int, d: int)
    requires
        s == 1 || s == -1,
        0 <= a <= d,
    ensures
        s * a == a || s * a == -a,
        -d <= s * a <= d,
{
    assert((s * a == a || s * a == -a) && -d <= s * a <= d) by (nonlinear_arith)
        requires
            s == 1 || s == -1,
            0 <= a <= d,
    ;
}

/// A ray with a zero x-magnitude never leaves the viewpoint's column, so
/// its two sign variants mark the same cells.
proof fn lemma_complete_zero_ax(
    vis: Seq<Vec<bool>>,
    t: Seq<Vec<Tile>>,
    px: int,
    py: int,
    sy: int,
    d: int,
)
    requires
        1 <= d,
        ray_marks_complete(vis, t, px, py, 1, sy, 0, d, d),
    ensures
        ray_marks_complete(vis, t, px, py, -1, sy, 0, d, d),
{
    vstd::arithmetic::div_mod::lemma_basic_div(d, 2 * d);
    assert forall|j: int| #![trigger ray_cell(px, py, -1, sy, 0, d, d, j)] true implies ray_cell(
        px,
        py,
        -1,
        sy,
        0,
        d,
        d,
        j,
    ) == ray_cell(px, py, 1, sy, 0, d, d, j) by {
        assert(2 * 0 * j == 0) by (nonlinear_arith);
        assert(ray_off(0, d, j) == 0);
    }
    assert forall|k: int|
        0 <= k <= d && unobstructed_prefix(t, px, py, -1, sy, 0, d, d, k) && ({
            let c = ray_cell(px, py, -1, sy, 0, d, d, k);
            in_grid(c.0, c.1) && dist2(c.0, c.1, px, py) <= d * d
        }) implies flag_at(
        vis,
        #[trigger] ray_cell(px, py, -1, sy, 0, d, d, k).0,
        ray_cell(px, py, -1, sy, 0, d, d, k).1,
    ) by {
        assert(unobstructed_prefix(t, px, py, 1, sy, 0, d, d, k)) by {
            assert forall|j: int| 0 <= j < k implies {
                let c = #[trigger] ray_cell(px, py, 1, sy, 0, d, d, j);
                in_grid(c.0, c.1) && dist2(c.0, c.1, px, py) <= d * d
                    && t[c.1]@[c.0].spec_transparent()
            } by {
                let cm = ray_cell(px, py, -1, sy, 0, d, d, j);
                assert(cm == ray_cell(px, py, 1, sy, 0, d, d, j));
                assert(in_grid(cm.0, cm.1) && dist2(cm.0, cm.1, px, py) <= d * d
                    && t[cm.1]@[cm.0].spec_transparent());
            }
        }
        let c1 = ray_cell(px, py, 1, sy, 0, d, d, k);
        assert(ray_cell(px, py, -1, sy, 0, d, d, k) == c1);
        assert(flag_at(vis, c1.0, c1.1));
    }
}

/// The mirror of `lemma_complete_zero_ax` for a zero y-magnitude.
proof fn lemma_complete_zero_ay(
    vis: Seq<Vec<bool>>,
    t: Seq<Vec<Tile>>,
    px: int,
    py: int,
    sx: int,
    d: int,
)
    requires
        1 <= d,
        ray_marks_complete(vis, t, px, py, sx, 1, d, 0, d),
    ensures
        ray_marks_complete(vis, t, px, py, sx, -1, d, 0, d),
{
    vstd::arithmetic::div_mod::lemma_basic_div(d, 2 * d);
    assert forall|j: int| #![trigger ray_cell(px, py, sx, -1, d, 0, d, j)] true implies ray_cell(
        px,
        py,
        sx,
        -1,
        d,
        0,
        d,
        j,
    ) == ray_cell(px, py, sx, 1, d, 0, d, j) by {
        assert(2 * 0 * j == 0) by (nonlinear_arith);
        assert(ray_off(0, d, j) == 0);
    }
    assert forall|k: int|
        0 <= k <= d && unobstructed_prefix(t, px, py, sx, -1, d, 0, d, k) && ({
            let c = ray_cell(px, py, sx, -1, d, 0, d, k);
            in_grid(c.0, c.1) && dist2(c.0, c.1, px, py) <= d * d
        }) implies flag_at(
        vis,
        #[trigger] ray_cell(px, py, sx, -1, d, 0, d, k).0,
        ray_cell(px, py, sx, -1, d, 0, d, k).1,
    ) by {
        assert(unobstructed_prefix(t, px, py, sx, 1, d, 0, d, k)) by {
            assert forall|j: int| 0 <= j < k implies {
                let c = #[trigger] ray_cell(px, py, sx, 1, d, 0, d, j);
                in_grid(c.0, c.1) && dist2(c.0, c.1, px, py) <= d * d
                    && t[c.1]@[c.0].spec_transparent()
            } by {
                let cm = ray_cell(px, py, sx, -1, d, 0, d, j);
                assert(cm == ray_cell(px, py, sx, 1, d, 0, d, j));
                assert(in_grid(cm.0, cm.1) && dist2(cm.0, cm.1, px, py) <= d * d
                    && t[cm.1]@[cm.0].spec_transparent());
            }
        }
        let c1 = ray_cell(px, py, sx, 1, d, 0, d, k);
        assert(ray_cell(px, py, sx, -1, d, 0, d, k) == c1);
        assert(flag_at(vis, c1.0, c1.1));
    }
}

/// March one ray from the viewpoint: cells are marked visible and revealed
/// in step order; the march stops at the grid edge, beyond the squared
/// radius, or right after the first non-transparent cell. Returns the
/// number of cells marked; every marked cell except possibly the last is
/// transparent, so nothing past a blocker on this ray is marked.
pub fn cast_ray(
    lv: &mut Level,
    px: i32,
    py: i32,
    sx: i32,
    sy: i32,
    ax: i32,
    ay: i32,
    radius: i32,
) -> (n: usize)
    requires
        old(lv).wf(),
        in_grid(px as int, py as int),
        1 <= radius <= 64,
        0 <= ax <= radius,
        0 <= ay <= radius,
        ax == radius || ay == radius,
        sx == 1 || sx == -1,
        sy == 1 || sy == -1,
    ensures
        final(lv).wf(),
        final(lv).tiles == old(lv).tiles,
        final(lv).rooms == old(lv).rooms,
        final(lv).depth == old(lv).depth,
        1 <= n <= radius + 1,
        forall|k: int|
            0 <= k < n ==> {
                let c = #[trigger] ray_cell(
                    px as int,
                    py as int,
                    sx as int,
                    sy as int,
                    ax as int,
                    ay as int,
                    radius as int,
                    k,
                );
                in_grid(c.0, c.1) && dist2(c.0, c.1, px as int, py as int) <= radius * radius
                    && flag_at(final(lv).visible@, c.0, c.1) && flag_at(
                    final(lv).revealed@,
                    c.0,
                    c.1,
                )
            },
        forall|k: int|
            0 <= k < n - 1 ==> {
                let c = #[trigger] ray_cell(
                    px as int,
                    py as int,
                    sx as int,
                    sy as int,
                    ax as int,
                    ay as int,
                    radius as int,
                    k,
                );
                old(lv).tiles@[c.1]@[c.0].spec_transparent()
            },
        forall|x: int, y: int|
            in_grid(x, y) && !on_ray_prefix(
                px as int,
                py as int,
                sx as int,
                sy as int,
                ax as int,
                ay as int,
                radius as int,
                n as int,
                x,
                y,
            ) ==> flag_at(final(lv).visible@, x, y) == flag_at(old(lv).visible@, x, y) && flag_at(
                final(lv).revealed@,
                x,
                y,
            ) == flag_at(old(lv).revealed@, x, y),
        forall|x: int, y: int|
            in_grid(x, y) && flag_at(old(lv).visible@, x, y) ==> flag_at(
                final(lv).visible@,
                x,
                y,
            ),
        forall|x: int, y: int|
            in_grid(x, y) && flag_at(old(lv).revealed@, x, y) ==> flag_at(
                final(lv).revealed@,
                x,
                y,
            ),
        n as int <= radius ==> ({
            let c = ray_cell(
                px as int,
                py as int,
                sx as int,
                sy as int,
                ax as int,
                ay as int,
                radius as int,
                n as int,
            );
            let cp = ray_cell(
                px as int,
                py as int,
                sx as int,
                sy as int,
                ax as int,
                ay as int,
                radius as int,
                n as int - 1,
            );
            !in_grid(c.0, c.1) || dist2(c.0, c.1, px as int, py as int) > radius * radius || !old(
                lv,
            ).tiles@[cp.1]@[cp.0].spec_transparent()
        }),
{
    let ghost gpx = px as int;
    let ghost gpy = py as int;
    let ghost gsx = sx as int;
    let ghost gsy = sy as int;
    let ghost gax = ax as int;
    let ghost gay = ay as int;
    let ghost gd = radius as int;
    proof {
        assert(1 <= radius * radius <= 4096) by (nonlinear_arith)
            requires
                1 <= radius <= 64,
        ;
    }
    let r2: i32 = radius * radius;
    let mut k: i32 = 0;
    while k <= radius
        invariant
            lv.wf(),
            lv.tiles == old(lv).tiles,
            lv.rooms == old(lv).rooms,
            lv.depth == old(lv).depth,
            0 <= k <= radius + 1,
            in_grid(gpx, gpy),
            1 <= radius <= 64,
            0 <= gax <= gd,
            0 <= gay <= gd,
            gd == radius as int,
            r2 == radius * radius,
            1 <= r2 <= 4096,
            gsx == 1 || gsx == -1,
            gsy == 1 || gsy == -1,
            gsx == sx as int && gsy == sy as int && gax == ax as int && gay == ay as int,
            gpx == px as int && gpy == py as int,
            forall|j: int|
                0 <= j < k ==> {
                    let c = #[trigger] ray_cell(gpx, gpy, gsx, gsy, gax, gay, gd, j);
                    in_grid(c.0, c.1) && dist2(c.0, c.1, gpx, gpy) <= radius * radius && flag_at(
                        lv.visible@,
                        c.0,
                        c.1,
                    ) && flag_at(lv.revealed@, c.0, c.1)
                },
            forall|j: int|
                0 <= j < k ==> {
                    let c = #[trigger] ray_cell(gpx, gpy, gsx, gsy, gax, gay, gd, j);
                    old(lv).tiles@[c.1]@[c.0].spec_transparent()
                },
            forall|x: int, y: int|
                in_grid(x, y) && !on_ray_prefix(gpx, gpy, gsx, gsy, gax, gay, gd, k as int, x, y)
                    ==> flag_at(lv.visible@, x, y) == flag_at(old(lv).visible@, x, y) && flag_at(
                    lv.revealed@,
                    x,
                    y,
                ) == flag_at(old(lv).revealed@, x, y),
            forall|x: int, y: int|
                in_grid(x, y) && flag_at(old(lv).visible@, x, y) ==> flag_at(lv.visible@, x, y),
            forall|x: int, y: int|
                in_grid(x, y) && flag_at(old(lv).revealed@, x, y) ==> flag_at(lv.revealed@, x, y),
        decreases radius + 1 - k,
    {
        proof {
            assert((2 * gax) * k <= 2 * 64 * 65 && (2 * gay) * k <= 2 * 64 * 65) by (nonlinear_arith)
                requires
                    0 <= gax <= 64,
                    0 <= gay <= 64,
                    0 <= k <= 65,
            ;
        }
        let numx: u32 = 2 * (ax as u32) * (k as u32) + radius as u32;
        let numy: u32 = 2 * (ay as u32) * (k as u32) + radius as u32;
        let den: u32 = 2 * (radius as u32);
        let offx: u32 = numx / den;
        let offy: u32 = numy / den;
        proof {
            vstd::arithmetic::div_mod::lemma_div_nonincreasing(numx as int, den as int);
            vstd::arithmetic::div_mod::lemma_div_nonincreasing(numy as int, den as int);
            assert(offx <= numx && offy <= numy);
        }
        let offxi: i32 = offx as i32;
        let offyi: i32 = offy as i32;
        proof {
            assert(numx as int == 2 * gax * (k as int) + gd);
            assert(numx <= 8448);
            assert(offx <= 8448 && offy <= 8448);
        }
        let sox: i32 = if sx == 1 {
            offxi
        } else {
            0 - offxi
        };
        let soy: i32 = if sy == 1 {
            offyi
        } else {
            0 - offyi
        };
        let cx: i32 = px + sox;
        let cy: i32 = py + soy;
        let ghost cell = ray_cell(gpx, gpy, gsx, gsy, gax, gay, gd, k as int);
        proof {
            assert(offx as int == ray_off(gax, gd, k as int));
            assert(offy as int == ray_off(gay, gd, k as int));
            let rx = ray_off(gax, gd, k as int);
            let ry = ray_off(gay, gd, k as int);
            assert(gsx * rx == (if gsx == 1 {
                rx
            } else {
                -rx
            })) by (nonlinear_arith)
                requires
                    gsx == 1 || gsx == -1,
            ;
            assert(gsy * ry == (if gsy == 1 {
                ry
            } else {
                -ry
            })) by (nonlinear_arith)
                requires
                    gsy == 1 || gsy == -1,
            ;
            assert(cell == (cx as int, cy as int));
            if k == 0 {
                vstd::arithmetic::div_mod::lemma_basic_div(gd, 2 * gd);
                assert(ray_off(gax, gd, 0) == 0 && ray_off(gay, gd, 0) == 0);
                assert(cell == (gpx, gpy));
                assert(cx == px && cy == py);
            }
        }

        if !(cx >= 0 && cy >= 0 && (cx as usize) < MAP_W && (cy as usize) < MAP_H) {
            return k as usize;
        }
        let dx: i32 = cx - px;
        let dy: i32 = cy - py;
        proof {
            assert(dx * dx <= 8456 * 8456 && dy * dy <= 8456 * 8456 && dx * dx >= 0 && dy * dy
                >= 0) by (nonlinear_arith)
                requires
                    -8456 <= dx <= 8456,
                    -8456 <= dy <= 8456,
            ;
            if k == 0 {
                assert(dx == 0 && dy == 0);
                assert(dx * dx == 0 && dy * dy == 0) by (nonlinear_arith)
                    requires
                        dx == 0,
                        dy == 0,
                ;
            }
        }
        if dx * dx + dy * dy > r2 {
            return k as usize;
        }
        lv.set_seen(cx as usize, cy as usize);
        proof {
            assert forall|x: int, y: int|
                in_grid(x, y) && !on_ray_prefix(gpx, gpy, gsx, gsy, gax, gay, gd, k + 1, x, y)
                    implies flag_at(lv.visible@, x, y) == flag_at(old(lv).visible@, x, y)
                && flag_at(lv.revealed@, x, y) == flag_at(old(lv).revealed@, x, y) by {
                assert(!(x == cx as int && y == cy as int)) by {
                    if x == cx as int && y == cy as int {
                        assert(ray_cell(gpx, gpy, gsx, gsy, gax, gay, gd, k as int) == (x, y));
                        assert(on_ray_prefix(gpx, gpy, gsx, gsy, gax, gay, gd, k + 1, x, y));
                    }
                }
                assert(!on_ray_prefix(gpx, gpy, gsx, gsy, gax, gay, gd, k as int, x, y)) by {
                    if on_ray_prefix(gpx, gpy, gsx, gsy, gax, gay, gd, k as int, x, y) {
                        let j = choose|j: int|
                            0 <= j < k && #[trigger] ray_cell(gpx, gpy, gsx, gsy, gax, gay, gd, j)
                                == (x, y);
                        assert(on_ray_prefix(gpx, gpy, gsx, gsy, gax, gay, gd, k + 1, x, y));
                    }
                }
            }
        }
        let t = lv.tiles[cy as usize][cx as usize];
        if !t.transparent() {
            proof {
                assert forall|j: int| 0 <= j < k + 1 implies {
                    let c = #[trigger] ray_cell(gpx, gpy, gsx, gsy, gax, gay, gd, j);
                    in_grid(c.0, c.1) && dist2(c.0, c.1, gpx, gpy) <= radius * radius && flag_at(
                        lv.visible@,
                        c.0,
                        c.1,
                    ) && flag_at(lv.revealed@, c.0, c.1)
                } by {
                    if j < k {
                        let c = ray_cell(gpx, gpy, gsx, gsy, gax, gay, gd, j);
                        if !(c.0 == cx as int && c.1 == cy as int) {
                            assert(flag_at(lv.visible@, c.0, c.1));
                        }
                    }
                }
            }
            return (k + 1) as usize;
        }
        proof {
            assert forall|j: int| 0 <= j < k + 1 implies {
                let c = #[trigger] ray_cell(gpx, gpy, gsx, gsy, gax, gay, gd, j);
                in_grid(c.0, c.1) && dist2(c.0, c.1, gpx, gpy) <= radius * radius && flag_at(
                    lv.visible@,
                    c.0,
                    c.1,
                ) && flag_at(lv.revealed@, c.0, c.1)
            } by {
                if j < k {
                    let c = ray_cell(gpx, gpy, gsx, gsy, gax, gay, gd, j);
                    if !(c.0 == cx as int && c.1 == cy as int) {
                        assert(flag_at(lv.visible@, c.0, c.1));
                    }
                }
            }
        }
        k = k + 1;
    }
    k as usize
}

/// What one visibility recomputation guarantees of the overlays: the
/// visible set is bounded by the squared radius, contained in the
/// revealed set, and between the two completeness bounds — every visible
/// cell has a clear ray, and every cell a fan ray reaches unobstructed is
/// visible; the revealed set is exactly its old value plus the newly
/// visible cells, and the viewpoint itself is visible.
pub open spec fn fov_post(pre: Level, post: Level, px: int, py: int, radius: int) -> bool {
    &&& forall|x: int, y: int|
        in_grid(x, y) && #[trigger] flag_at(post.visible@, x, y) ==> dist2(x, y, px, py) <= radius
            * radius
    &&& forall|x: int, y: int|
        in_grid(x, y) && #[trigger] flag_at(post.visible@, x, y) ==> flag_at(post.revealed@, x, y)
    &&& forall|x: int, y: int|
        in_grid(x, y) ==> (#[trigger] flag_at(post.revealed@, x, y) <==> flag_at(
            pre.revealed@,
            x,
            y,
        ) || flag_at(post.visible@, x, y))
    &&& flag_at(post.visible@, px, py)
    &&& forall|x: int, y: int|
        in_grid(x, y) && #[trigger] flag_at(post.visible@, x, y) ==> has_clear_ray(
            pre.tiles@,
            px,
            py,
            x,
            y,
            radius,
        )
    &&& forall|sx: int, sy: int, ax: int, ay: int|
        (sx == 1 || sx == -1) && (sy == 1 || sy == -1) && 0 <= ax <= radius && 0 <= ay <= radius
            && (ax == radius || ay == radius) ==> #[trigger] ray_marks_complete(
            post.visible@,
            pre.tiles@,
            px,
            py,
            sx,
            sy,
            ax,
            ay,
            radius,
        )
}

/// Recompute both overlays from the viewpoint: the visible set is rebuilt
/// from scratch by rays to every perimeter cell of the radius square, and
/// the revealed set becomes exactly its old value plus the newly visible
/// cells. No visible cell lies beyond the squared radius, every visible
/// cell is revealed, and the viewpoint itself is visible.
pub fn compute_fov(lv: &mut Level, px: i32, py: i32, radius: i32)
    requires
        old(lv).wf(),
        in_grid(px as int, py as int),
        1 <= radius <= 64,
    ensures
        final(lv).wf(),
        final(lv).tiles == old(lv).tiles,
        final(lv).rooms == old(lv).rooms,
        final(lv).depth == old(lv).depth,
        fov_post(*old(lv), *final(lv), px as int, py as int, radius as int),
{
    lv.clear_visible();
    proof {
        assert forall|sx: int, ax: int|
            #![trigger sx * ax]
            (sx == 1 || sx == -1) && 0 <= ax <= radius implies -(radius as int) <= sx * ax
            <= radius as int by {
            lemma_sign_mul_bounds(sx, ax, radius as int);
        }
    }
    let mut i: i32 = 0;
    while i <= 2 * radius
        invariant
            lv.wf(),
            lv.tiles == old(lv).tiles,
            lv.rooms == old(lv).rooms,
            lv.depth == old(lv).depth,
            in_grid(px as int, py as int),
            1 <= radius <= 64,
            0 <= i <= 2 * radius + 1,
            forall|x: int, y: int|
                in_grid(x, y) && #[trigger] flag_at(lv.visible@, x, y) ==> dist2(
                    x,
                    y,
                    px as int,
                    py as int,
                ) <= radius * radius,
            forall|x: int, y: int|
                in_grid(x, y) && #[trigger] flag_at(lv.visible@, x, y) ==> flag_at(
                    lv.revealed@,
                    x,
                    y,
                ),
            forall|x: int, y: int|
                in_grid(x, y) ==> (#[trigger] flag_at(lv.revealed@, x, y) <==> flag_at(
                    old(lv).revealed@,
                    x,
                    y,
                ) || flag_at(lv.visible@, x, y)),
            i > 0 ==> flag_at(lv.visible@, px as int, py as int),
            forall|x: int, y: int|
                in_grid(x, y) && #[trigger] flag_at(lv.visible@, x, y) ==> has_clear_ray(
                    old(lv).tiles@,
                    px as int,
                    py as int,
                    x,
                    y,
                    radius as int,
                ),
            forall|sx: int, sy: int, ax: int, ay: int|
                (sx == 1 || sx == -1) && (sy == 1 || sy == -1) && 0 <= ax <= radius && 0 <= ay
                    <= radius && (ax == radius || ay == radius) && ray_cast_before(
                    sx,
                    sy,
                    ax,
                    ay,
                    radius as int,
                    i as int,
                ) ==> #[trigger] ray_marks_complete(
                    lv.visible@,
                    old(lv).tiles@,
                    px as int,
                    py as int,
                    sx,
                    sy,
                    ax,
                    ay,
                    radius as int,
                ),
        decreases 2 * radius + 1 - i,
    {
        let t: i32 = i - radius;
        let (s, a) = if t >= 0 {
            (1i32, t)
        } else {
            (-1i32, -t)
        };
        let ghost g0 = *lv;
        let n1 = cast_ray(lv, px, py, s, -1, a, radius, radius);
        let ghost g1 = *lv;
        let n2 = cast_ray(lv, px, py, s, 1, a, radius, radius);
        let ghost g2 = *lv;
        let n3 = cast_ray(lv, px, py, -1, s, radius, a, radius);
        let ghost g3 = *lv;
        let n4 = cast_ray(lv, px, py, 1, s, radius, a, radius);
        proof {
            let gpx = px as int;
            let gpy = py as int;
            let gs = s as int;
            let ga = a as int;
            let rad = radius as int;
            assert forall|x: int, y: int|
                in_grid(x, y) && #[trigger] flag_at(lv.visible@, x, y) implies has_clear_ray(
                old(lv).tiles@,
                gpx,
                gpy,
                x,
                y,
                rad,
            ) by {
                if flag_at(g0.visible@, x, y) {
                } else if flag_at(g1.visible@, x, y) {
                    assert(on_ray_prefix(gpx, gpy, gs, -1, ga, rad, rad, n1 as int, x, y));
                    lemma_prefix_has_clear_ray(
                        old(lv).tiles@, gpx, gpy, gs, -1, ga, rad, rad, n1 as int, x, y,
                    );
                } else if flag_at(g2.visible@, x, y) {
                    assert(on_ray_prefix(gpx, gpy, gs, 1, ga, rad, rad, n2 as int, x, y));
                    lemma_prefix_has_clear_ray(
                        old(lv).tiles@, gpx, gpy, gs, 1, ga, rad, rad, n2 as int, x, y,
                    );
                } else if flag_at(g3.visible@, x, y) {
                    assert(on_ray_prefix(gpx, gpy, -1, gs, rad, ga, rad, n3 as int, x, y));
                    lemma_prefix_has_clear_ray(
                        old(lv).tiles@, gpx, gpy, -1, gs, rad, ga, rad, n3 as int, x, y,
                    );
                } else {
                    assert(on_ray_prefix(gpx, gpy, 1, gs, rad, ga, rad, n4 as int, x, y));
                    lemma_prefix_has_clear_ray(
                        old(lv).tiles@, gpx, gpy, 1, gs, rad, ga, rad, n4 as int, x, y,
                    );
                }
            }
        }
        proof {
            vstd::arithmetic::div_mod::lemma_basic_div(radius as int, 2 * (radius as int));
            assert(2 * (radius as int) * 0 + radius as int == radius as int) by (nonlinear_arith);
            assert(2 * (a as int) * 0 + radius as int == radius as int) by (nonlinear_arith);
            assert(ray_off(radius as int, radius as int, 0) == 0 && ray_off(
                a as int,
                radius as int,
                0,
            ) == 0);
            let r0 = ray_off(a as int, radius as int, 0);
            assert(s as int * r0 == 0) by (nonlinear_arith)
                requires
                    r0 == 0,
            ;
            let c0 = ray_cell(
                px as int,
                py as int,
                1,
                s as int,
                radius as int,
                a as int,
                radius as int,
                0,
            );
            assert(c0 == (px as int, py as int));
            assert(flag_at(lv.visible@, px as int, py as int));
        }
        proof {
            let gpx = px as int;
            let gpy = py as int;
            let gs = s as int;
            let ga = a as int;
            let rad = radius as int;
            let gt = old(lv).tiles@;
            assert forall|x: int, y: int|
                in_grid(x, y) && #[trigger] flag_at(g0.visible@, x, y) implies flag_at(
                lv.visible@,
                x,
                y,
            ) by {
                assert(flag_at(g1.visible@, x, y));
                assert(flag_at(g2.visible@, x, y));
                assert(flag_at(g3.visible@, x, y));
            }
            assert forall|x: int, y: int|
                in_grid(x, y) && #[trigger] flag_at(g1.visible@, x, y) implies flag_at(
                lv.visible@,
                x,
                y,
            ) by {
                assert(flag_at(g2.visible@, x, y));
                assert(flag_at(g3.visible@, x, y));
            }
            assert forall|x: int, y: int|
                in_grid(x, y) && #[trigger] flag_at(g2.visible@, x, y) implies flag_at(
                lv.visible@,
                x,
                y,
            ) by {
                assert(flag_at(g3.visible@, x, y));
            }
            lemma_stop_implies_complete(g1.visible@, gt, gpx, gpy, gs, -1, ga, rad, rad, n1 as int);
            lemma_complete_monotone(g1.visible@, lv.visible@, gt, gpx, gpy, gs, -1, ga, rad, rad);
            lemma_stop_implies_complete(g2.visible@, gt, gpx, gpy, gs, 1, ga, rad, rad, n2 as int);
            lemma_complete_monotone(g2.visible@, lv.visible@, gt, gpx, gpy, gs, 1, ga, rad, rad);
            lemma_stop_implies_complete(g3.visible@, gt, gpx, gpy, -1, gs, rad, ga, rad, n3 as int);
            lemma_complete_monotone(g3.visible@, lv.visible@, gt, gpx, gpy, -1, gs, rad, ga, rad);
            lemma_stop_implies_complete(lv.visible@, gt, gpx, gpy, 1, gs, rad, ga, rad, n4 as int);
            assert forall|sx: int, sy: int, ax: int, ay: int|
                (sx == 1 || sx == -1) && (sy == 1 || sy == -1) && 0 <= ax <= rad && 0 <= ay <= rad
                    && (ax == rad || ay == rad) && ray_cast_before(sx, sy, ax, ay, rad, i + 1)
                    implies #[trigger] ray_marks_complete(
                lv.visible@,
                gt,
                gpx,
                gpy,
                sx,
                sy,
                ax,
                ay,
                rad,
            ) by {
                lemma_sign_mul_bounds(sx, ax, rad);
                lemma_sign_mul_bounds(sy, ay, rad);
                if ray_cast_before(sx, sy, ax, ay, rad, i as int) {
                    assert(ray_marks_complete(g0.visible@, gt, gpx, gpy, sx, sy, ax, ay, rad));
                    lemma_complete_monotone(
                        g0.visible@, lv.visible@, gt, gpx, gpy, sx, sy, ax, ay, rad,
                    );
                } else if ay == rad && rad + sx * ax == i && !(sx == -1 && ax == 0) {
                    // one of this iteration's two vertical-fan rays
                    assert(sx == gs && ax == ga) by {
                        if t >= 0 {
                            if sx == -1 {
                                assert(sx * ax == -ax) by (nonlinear_arith)
                                    requires
                                        sx == -1,
                                ;
                                assert(ax == 0);
                            }
                        } else {
                            if sx == 1 {
                                assert(sx * ax == ax) by (nonlinear_arith)
                                    requires
                                        sx == 1,
                                ;
                            }
                        }
                    }
                } else {
                    // one of this iteration's two horizontal-fan rays
                    assert(ax == rad && rad + sy * ay == i && !(sy == -1 && ay == 0));
                    assert(sy == gs && ay == ga) by {
                        if t >= 0 {
                            if sy == -1 {
                                assert(sy * ay == -ay) by (nonlinear_arith)
                                    requires
                                        sy == -1,
                                ;
                                assert(ay == 0);
                            }
                        } else {
                            if sy == 1 {
                                assert(sy * ay == ay) by (nonlinear_arith)
                                    requires
                                        sy == 1,
                                ;
                            }
                        }
                    }
                }
            }
        }
        i = i + 1;
    }
    proof {
        let gpx = px as int;
        let gpy = py as int;
        let rad = radius as int;
        let gt = old(lv).tiles@;
        assert forall|sx: int, sy: int, ax: int, ay: int|
            (sx == 1 || sx == -1) && (sy == 1 || sy == -1) && 0 <= ax <= rad && 0 <= ay <= rad && (
            ax == rad || ay == rad) implies #[trigger] ray_marks_complete(
            lv.visible@,
            gt,
            gpx,
            gpy,
            sx,
            sy,
            ax,
            ay,
            rad,
        ) by {
            lemma_sign_mul_bounds(sx, ax, rad);
            lemma_sign_mul_bounds(sy, ay, rad);
            if ray_cast_before(sx, sy, ax, ay, rad, i as int) {
            } else if ay == rad && sx == -1 && ax == 0 {
                assert(ray_cast_before(1, sy, 0, rad, rad, i as int));
                assert(ray_marks_complete(lv.visible@, gt, gpx, gpy, 1, sy, 0, rad, rad));
                lemma_complete_zero_ax(lv.visible@, gt, gpx, gpy, sy, rad);
            } else {
                assert(ax == rad && sy == -1 && ay == 0);
                assert(ray_cast_before(sx, 1, rad, 0, rad, i as int));
                assert(ray_marks_complete(lv.visible@, gt, gpx, gpy, sx, 1, rad, 0, rad));
                lemma_complete_zero_ay(lv.visible@, gt, gpx, gpy, sx, rad);
            }
        }
    }
}

} // verus!

use asphodel_core::entity::{Entity, EntityKind};
use asphodel_core::flavor::depth_message;
use asphodel_core::fov::compute_fov;
use asphodel_core::level::{Level, Rect, Tile, MAP_H, MAP_W};
use asphodel_core::rng::GameRng;
use asphodel_core::spawn::{pick_enemy, pick_item};
use asphodel_core::text::push_dec;
use std::collections::VecDeque;

fn walkable_at(lv: &Level, x: usize, y: usize) -> bool {
    lv.tiles[y][x].walkable()
}

/// Breadth-first search over walkable cells, orthogonal steps.
fn reachable_cells(lv: &Level, sx: usize, sy: usize) -> Vec<Vec<bool>> {
    let mut seen = vec![vec![false; MAP_W]; MAP_H];
    let mut queue = VecDeque::new();
    if walkable_at(lv, sx, sy) {
        seen[sy][sx] = true;
        queue.push_back((sx, sy));
    }
    while let Some((x, y)) = queue.pop_front() {
        let neighbors = [
            (x.wrapping_sub(1), y),
            (x + 1, y),
            (x, y.wrapping_sub(1)),
            (x, y + 1),
        ];
        for (nx, ny) in neighbors {
            if nx < MAP_W && ny < MAP_H && !seen[ny][nx] && walkable_at(lv, nx, ny) {
                seen[ny][nx] = true;
                queue.push_back((nx, ny));
            }
        }
    }
    seen
}

#[test]
fn generated_level_has_reachable_stair() {
    for seed in 0..25u64 {
        for depth in [1u32, 3, 7] {
            let mut rng = GameRng::seeded(seed * 31 + depth as u64);
            let lv = Level::new(depth, &mut rng);
            assert!(lv.rooms.len() >= 1);
            assert_eq!(lv.depth, depth);

            let first = lv.rooms[0];
            let (fx, fy) = ((first.x1 + first.x2) / 2, (first.y1 + first.y2) / 2);
            let last = lv.rooms[lv.rooms.len() - 1];
            let (sx, sy) = ((last.x1 + last.x2) / 2, (last.y1 + last.y2) / 2);

            assert_eq!(lv.tiles[sy][sx], Tile::Stair);
            let seen = reachable_cells(&lv, fx, fy);
            assert!(seen[sy][sx], "stair not reachable from first room center");
        }
    }
}

#[test]
fn generated_rooms_stay_inside_the_grid() {
    let mut rng = GameRng::seeded(7);
    let lv = Level::new(2, &mut rng);
    for r in &lv.rooms {
        assert!(r.x1 >= 1 && r.x1 < r.x2 && r.x2 <= MAP_W - 1);
        assert!(r.y1 >= 1 && r.y1 < r.y2 && r.y2 <= MAP_H - 1);
    }
    for y in 0..MAP_H {
        for x in 0..MAP_W {
            assert!(!lv.visible[y][x]);
            assert!(!lv.revealed[y][x]);
        }
    }
}

#[test]
fn generated_rooms_are_pairwise_disjoint_and_bounded() {
    for seed in 0..10u64 {
        let mut rng = GameRng::seeded(seed + 100);
        let lv = Level::new(3, &mut rng);
        assert!(lv.rooms.len() <= 15);
        for i in 0..lv.rooms.len() {
            for j in (i + 1)..lv.rooms.len() {
                assert!(!lv.rooms[i].intersects(&lv.rooms[j]));
            }
        }
    }
}

#[test]
fn the_border_ring_stays_solid_wall() {
    let mut rng = GameRng::seeded(23);
    let lv = Level::new(5, &mut rng);
    for x in 0..MAP_W {
        assert_eq!(lv.tiles[0][x], Tile::Wall);
        assert_eq!(lv.tiles[MAP_H - 1][x], Tile::Wall);
    }
    for y in 0..MAP_H {
        assert_eq!(lv.tiles[y][0], Tile::Wall);
        assert_eq!(lv.tiles[y][MAP_W - 1], Tile::Wall);
    }
}

#[test]
fn same_seed_generates_the_same_level() {
    let mut a = GameRng::seeded(99);
    let mut b = GameRng::seeded(99);
    let la = Level::new(4, &mut a);
    let lb = Level::new(4, &mut b);
    assert_eq!(la.rooms.len(), lb.rooms.len());
    for y in 0..MAP_H {
        for x in 0..MAP_W {
            assert_eq!(la.tiles[y][x], lb.tiles[y][x]);
        }
    }
}

#[test]
fn tile_predicates() {
    assert!(!Tile::Wall.walkable());
    assert!(!Tile::Wall.transparent());
    for t in [Tile::Floor, Tile::Stair, Tile::Asphodel] {
        assert!(t.walkable());
        assert!(t.transparent());
    }
    assert_eq!(Tile::Wall.glyph(), '#');
    assert_eq!(Tile::Stair.glyph(), '>');
}

#[test]
fn rect_center_and_intersection() {
    let r = Rect::new(2, 3, 6, 4);
    assert_eq!(r.x2, 8);
    assert_eq!(r.y2, 7);
    assert_eq!(r.center(), (5, 5));
    let far = Rect::new(20, 20, 4, 4);
    assert!(!r.intersects(&far));
    let touching = Rect::new(8, 7, 2, 2);
    assert!(r.intersects(&touching));
}

fn open_level() -> Level {
    let mut tiles = vec![vec![Tile::Floor; MAP_W]; MAP_H];
    for x in 0..MAP_W {
        tiles[0][x] = Tile::Wall;
        tiles[MAP_H - 1][x] = Tile::Wall;
    }
    for y in 0..MAP_H {
        tiles[y][0] = Tile::Wall;
        tiles[y][MAP_W - 1] = Tile::Wall;
    }
    Level {
        tiles,
        revealed: vec![vec![false; MAP_W]; MAP_H],
        visible: vec![vec![false; MAP_W]; MAP_H],
        rooms: vec![Rect { x1: 1, y1: 1, x2: 11, y2: 11 }],
        depth: 1,
    }
}

#[test]
fn visible_cells_are_revealed_and_within_radius() {
    let mut lv = open_level();
    compute_fov(&mut lv, 40, 20, 5);
    for y in 0..MAP_H {
        for x in 0..MAP_W {
            if lv.visible[y][x] {
                assert!(lv.revealed[y][x]);
                let dx = x as i32 - 40;
                let dy = y as i32 - 20;
                assert!(dx * dx + dy * dy <= 25);
            }
        }
    }
    assert!(lv.visible[20][40]);
    assert!(lv.visible[20][42]);
    assert!(!lv.visible[20][46]);
}

#[test]
fn revealed_accumulates_while_visible_is_recomputed() {
    let mut lv = open_level();
    compute_fov(&mut lv, 10, 10, 4);
    assert!(lv.visible[10][12]);
    compute_fov(&mut lv, 60, 30, 4);
    assert!(!lv.visible[10][12]);
    assert!(lv.revealed[10][12]);
    assert!(lv.visible[30][60]);
}

#[test]
fn nothing_behind_a_blocking_tile_is_visible() {
    // A lone open cell in solid rock: every neighbor wall is itself
    // visible, but nothing past the first blocker is.
    let mut lv = open_level();
    for y in 0..MAP_H {
        for x in 0..MAP_W {
            lv.tiles[y][x] = Tile::Wall;
        }
    }
    lv.tiles[20][40] = Tile::Floor;
    compute_fov(&mut lv, 40, 20, 6);
    assert!(lv.visible[20][40]);
    assert!(lv.visible[20][41]);
    assert!(lv.visible[20][39]);
    assert!(lv.visible[19][40]);
    assert!(lv.visible[21][40]);
    for y in 0..MAP_H {
        for x in 0..MAP_W {
            let dx = (x as i32 - 40).abs();
            let dy = (y as i32 - 20).abs();
            if dx > 1 || dy > 1 {
                assert!(!lv.visible[y][x], "cell behind a wall marked visible");
            }
        }
    }
}

#[test]
fn clear_visible_darkens_everything_but_keeps_revealed() {
    let mut lv = open_level();
    compute_fov(&mut lv, 10, 10, 5);
    assert!(lv.visible[10][10]);
    lv.clear_visible();
    for y in 0..MAP_H {
        for x in 0..MAP_W {
            assert!(!lv.visible[y][x]);
        }
    }
    assert!(lv.revealed[10][10]);
}

#[test]
fn in_bounds_matches_the_grid() {
    let lv = open_level();
    assert!(lv.in_bounds(0, 0));
    assert!(lv.in_bounds(MAP_W as i32 - 1, MAP_H as i32 - 1));
    assert!(!lv.in_bounds(-1, 5));
    assert!(!lv.in_bounds(5, -1));
    assert!(!lv.in_bounds(MAP_W as i32, 0));
    assert!(!lv.in_bounds(0, MAP_H as i32));
}

#[test]
fn enemy_stats_scale_with_depth() {
    let shade = Entity::enemy(5, 5, EntityKind::LostShade, 3);
    assert_eq!(shade.hp, 10); // 8 * 26 / 20
    assert_eq!(shade.max_hp, 10);
    assert_eq!(shade.attack, 2); // 2 * 26 / 20
    assert_eq!(shade.defense, 0); // zero base stays zero
    assert!(shade.alive);

    let empusa = Entity::enemy(5, 5, EntityKind::Empusa, 5);
    assert_eq!(empusa.hp, 40); // 25 * 32 / 20
    assert_eq!(empusa.attack, 12); // 8 * 32 / 20
    assert_eq!(empusa.defense, 4); // 3 * 32 / 20

    let depth1 = Entity::enemy(5, 5, EntityKind::Eurynomos, 1);
    assert_eq!(depth1.hp, 20);
    assert_eq!(depth1.attack, 6);
    assert_eq!(depth1.defense, 2);
}

#[test]
fn item_entities_carry_sentinel_stats() {
    let item = Entity::item(3, 4, EntityKind::Nectar);
    assert_eq!(item.hp, 0);
    assert_eq!(item.max_hp, 0);
    assert_eq!(item.attack, 0);
    assert_eq!(item.defense, 0);
    assert!(item.alive);
}

#[test]
fn player_starts_with_base_stats() {
    let p = Entity::player(7, 8);
    assert_eq!((p.hp, p.max_hp, p.attack, p.defense), (40, 40, 5, 3));
    assert_eq!(p.kind, EntityKind::Player);
    assert_eq!(p.strength_turns, 0);
}

#[test]
fn effective_attack_reflects_the_strength_buff() {
    let mut p = Entity::player(7, 8);
    assert_eq!(p.effective_attack(), 5);
    p.strength_turns = 3;
    assert_eq!(p.effective_attack(), 9);
}

#[test]
fn enemy_bands_shift_with_depth() {
    assert_eq!(pick_enemy(1, 69), EntityKind::LostShade);
    assert_eq!(pick_enemy(1, 70), EntityKind::Lampad);
    assert_eq!(pick_enemy(2, 99), EntityKind::Lampad);
    assert_eq!(pick_enemy(3, 39), EntityKind::LostShade);
    assert_eq!(pick_enemy(3, 74), EntityKind::Lampad);
    assert_eq!(pick_enemy(4, 75), EntityKind::Eurynomos);
    assert_eq!(pick_enemy(5, 14), EntityKind::LostShade);
    assert_eq!(pick_enemy(5, 39), EntityKind::Lampad);
    assert_eq!(pick_enemy(5, 69), EntityKind::Eurynomos);
    assert_eq!(pick_enemy(7, 70), EntityKind::Empusa);
}

#[test]
fn strongest_item_needs_depth_three() {
    assert_eq!(pick_item(1, 5), EntityKind::Nectar);
    assert_eq!(pick_item(3, 9), EntityKind::StygianBlade);
    assert_eq!(pick_item(2, 9), EntityKind::Nectar);
    assert_eq!(pick_item(1, 40), EntityKind::Obol);
    assert_eq!(pick_item(1, 69), EntityKind::Obol);
    assert_eq!(pick_item(1, 70), EntityKind::Moly);
    assert_eq!(pick_item(1, 99), EntityKind::Moly);
}

#[test]
fn depth_messages_are_fixed_lines() {
    assert_eq!(depth_message(1), "The Asphodel Meadows. First terrace.");
    assert_eq!(
        depth_message(7),
        "The final terrace. Beyond this: Elysium, or oblivion."
    );
    assert_eq!(depth_message(12), "Deeper still.");
}

#[test]
fn decimal_rendering_appends_digits() {
    let mut s = String::from("n = ");
    push_dec(&mut s, 12045);
    assert_eq!(s, "n = 12045");
    let mut z = String::new();
    push_dec(&mut z, 0);
    assert_eq!(z, "0");
}

#[test]
fn rng_ranges_hold_their_bounds() {
    let mut rng = GameRng::seeded(5);
    // a one-value range must return that value, so the wrapper cannot
    // hand an argument back unchanged by accident
    assert_eq!(rng.range_u32(5, 6), 5);
    assert_eq!(rng.range_i32(-3, -3), -3);
    assert!(rng.ratio(1, 1));
    assert!(!rng.ratio(0, 7));
    for _ in 0..100 {
        let v = rng.range_u32(10, 20);
        assert!((10..20).contains(&v));
        let w = rng.range_i32(-1, 2);
        assert!((-1..=2).contains(&w));
    }
}

#[test]
fn entity_kind_catalog() {
    assert!(EntityKind::Empusa.is_enemy());
    assert!(!EntityKind::Empusa.is_item());
    assert!(EntityKind::Moly.is_item());
    assert!(!EntityKind::Player.is_enemy());
    assert_eq!(EntityKind::Lampad.name(), "Lampad");
    assert_eq!(EntityKind::Player.glyph(), '@');
    assert_eq!(EntityKind::Obol.glyph(), '$');
}

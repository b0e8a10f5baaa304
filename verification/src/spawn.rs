//! The spawn table: fills a room with enemies and at most one item,
//! sampling positions with skip-on-collision and choosing kinds by a
//! depth-banded weighted roll.

use vstd::prelude::*;
use crate::entity::{
    Entity, EntityKind, spec_enemy_attack, spec_enemy_defense, spec_enemy_hp,
};
use crate::level::{Level, Rect};
use crate::reach::{in_grid, walk_at};
use crate::rng::GameRng;

verus! {

/// The enemy kind for a weighted roll in 0..100 at a depth: the bands at
/// depths 1-2, 3-4 and 5+ shift weight toward stronger kinds.
pub open spec fn spec_pick_enemy(depth: int, roll: int) -> EntityKind {
    if depth <= 2 {
        if roll < 70 {
            EntityKind::LostShade
        } else {
            EntityKind::Lampad
        }
    } else if depth <= 4 {
        if roll < 40 {
            EntityKind::LostShade
        } else if roll < 75 {
            EntityKind::Lampad
        } else {
            EntityKind::Eurynomos
        }
    } else {
        if roll < 15 {
            EntityKind::LostShade
        } else if roll < 40 {
            EntityKind::Lampad
        } else if roll < 70 {
            EntityKind::Eurynomos
        } else {
            EntityKind::Empusa
        }
    }
}

/// The item kind for a weighted roll in 0..100 at a depth: the strongest
/// upgrade is only eligible from depth 3 on.
pub open spec fn spec_pick_item(depth: int, roll: int) -> EntityKind {
    if depth >= 3 && roll < 10 {
        EntityKind::StygianBlade
    } else if roll < 40 {
        EntityKind::Nectar
    } else if roll < 70 {
        EntityKind::Obol
    } else {
        EntityKind::Moly
    }
}

/// Which enemy kinds a depth can spawn at all.
pub open spec fn enemy_allowed(kind: EntityKind, depth: int) -> bool {
    match kind {
        EntityKind::LostShade => true,
        EntityKind::Lampad => true,
        EntityKind::Eurynomos => depth >= 3,
        EntityKind::Empusa => depth >= 5,
        _ => false,
    }
}

/// Which item kinds a depth can spawn at all.
pub open spec fn item_allowed(kind: EntityKind, depth: int) -> bool {
    match kind {
        EntityKind::Nectar => true,
        EntityKind::Obol => true,
        EntityKind::Moly => true,
        EntityKind::StygianBlade => depth >= 3,
        _ => false,
    }
}

pub fn pick_enemy(depth: u32, roll: u32) -> (k: EntityKind)
    requires
        roll < 100,
    ensures
        k == spec_pick_enemy(depth as int, roll as int),
        k.spec_is_enemy(),
        enemy_allowed(k, depth as int),
{
    if depth <= 2 {
        if roll < 70 {
            EntityKind::LostShade
        } else {
            EntityKind::Lampad
        }
    } else if depth <= 4 {
        if roll < 40 {
            EntityKind::LostShade
        } else if roll < 75 {
            EntityKind::Lampad
        } else {
            EntityKind::Eurynomos
        }
    } else {
        if roll < 15 {
            EntityKind::LostShade
        } else if roll < 40 {
            EntityKind::Lampad
        } else if roll < 70 {
            EntityKind::Eurynomos
        } else {
            EntityKind::Empusa
        }
    }
}

pub fn pick_item(depth: u32, roll: u32) -> (k: EntityKind)
    requires
        roll < 100,
    ensures
        k == spec_pick_item(depth as int, roll as int),
        k.spec_is_item(),
        item_allowed(k, depth as int),
{
    if depth >= 3 && roll < 10 {
        EntityKind::StygianBlade
    } else if roll < 40 {
        EntityKind::Nectar
    } else if roll < 70 {
        EntityKind::Obol
    } else {
        EntityKind::Moly
    }
}

/// One freshly spawned entity is consistent with its room and depth: it
/// stands alive on a walkable cell of the room, and is either an enemy of
/// an allowed kind with exactly the depth-scaled stats, or an allowed item
/// with sentinel zero stats.
pub open spec fn spawned_ok(e: Entity, room: Rect, depth: int, tiles: Seq<Vec<crate::level::Tile>>) -> bool {
    &&& in_grid(e.x as int, e.y as int)
    &&& room.contains(e.x as int, e.y as int)
    &&& walk_at(tiles, e.x as int, e.y as int)
    &&& e.alive
    &&& e.strength_turns == 0
    &&& (e.kind.spec_is_enemy() || e.kind.spec_is_item())
    &&& (e.kind.spec_is_enemy() ==> enemy_allowed(e.kind, depth) && e.hp == spec_enemy_hp(
        e.kind,
        depth,
    ) && e.max_hp == e.hp && e.attack == spec_enemy_attack(e.kind, depth) && e.defense
        == spec_enemy_defense(e.kind, depth))
    &&& (e.kind.spec_is_item() ==> item_allowed(e.kind, depth) && e.hp == 0 && e.max_hp == 0
        && e.attack == 0 && e.defense == 0)
}

/// Whether some entity already stands at (x, y).
fn occupied(entities: &Vec<Entity>, x: i32, y: i32) -> (r: bool)
    ensures
        r == exists|i: int|
            0 <= i < entities@.len() && (#[trigger] entities@[i]).x == x && entities@[i].y == y,
{
    let mut i: usize = 0;
    while i < entities.len()
        invariant
            i <= entities@.len(),
            forall|j: int|
                0 <= j < i ==> !((#[trigger] entities@[j]).x == x && entities@[j].y == y),
        decreases entities@.len() - i,
    {
        if entities[i].x == x && entities[i].y == y {
            return true;
        }
        i = i + 1;
    }
    false
}

/// Sample enemies (0 to min(depth/2 + 2, 4)) and, with probability 1/3,
/// one item into the room. A slot whose sampled cell is occupied or not
/// walkable is skipped without retry. Existing entities are untouched;
/// every appended entity satisfies `spawned_ok`.
pub fn populate_room(
    room: &Rect,
    depth: u32,
    entities: &mut Vec<Entity>,
    lv: &Level,
    rng: &mut GameRng,
)
    requires
        room.in_map(),
        lv.wf(),
        depth >= 1,
    ensures
        final(entities)@.len() >= old(entities)@.len(),
        final(entities)@.len() <= old(entities)@.len() + (if depth / 2 + 2 < 4 {
            depth / 2 + 2
        } else {
            4int
        }) + 1,
        forall|i: int|
            0 <= i < old(entities)@.len() ==> final(entities)@[i] == old(entities)@[i],
        forall|i: int|
            old(entities)@.len() <= i < final(entities)@.len() ==> spawned_ok(
                #[trigger] final(entities)@[i],
                *room,
                depth as int,
                lv.tiles@,
            ),
        forall|j1: int, j2: int|
            #![trigger final(entities)@[j1], final(entities)@[j2]]
            0 <= j1 < j2 < final(entities)@.len() && old(entities)@.len() <= j2 ==> !(final(entities)@[j1].x == final(entities)@[j2].x && final(entities)@[j1].y == final(entities)@[j2].y),
{
    let max_enemies_raw: u32 = depth / 2 + 2;
    let max_enemies: u32 = if max_enemies_raw > 4 {
        4
    } else {
        max_enemies_raw
    };
    let num_enemies: u32 = rng.range_u32(0, max_enemies + 1);

    let mut slot: u32 = 0;
    while slot < num_enemies
        invariant
            room.in_map(),
            lv.wf(),
            depth >= 1,
            num_enemies <= max_enemies,
            max_enemies == (if depth / 2 + 2 < 4 {
                depth / 2 + 2
            } else {
                4int
            }),
            slot <= num_enemies,
            entities@.len() <= old(entities)@.len() + slot,
            entities@.len() >= old(entities)@.len(),
            forall|i: int|
                0 <= i < old(entities)@.len() ==> entities@[i] == old(entities)@[i],
            forall|i: int|
                old(entities)@.len() <= i < entities@.len() ==> spawned_ok(
                    #[trigger] entities@[i],
                    *room,
                    depth as int,
                    lv.tiles@,
                ),
            forall|j1: int, j2: int|
                #![trigger entities@[j1], entities@[j2]]
                0 <= j1 < j2 < entities@.len() && old(entities)@.len() <= j2 ==> !(entities@[j1].x
                    == entities@[j2].x && entities@[j1].y == entities@[j2].y),
        decreases num_enemies - slot,
    {
        slot = slot + 1;
        let x: i32 = rng.range_u32(room.x1 as u32, room.x2 as u32) as i32;
        let y: i32 = rng.range_u32(room.y1 as u32, room.y2 as u32) as i32;

        if occupied(entities, x, y) {
            continue ;
        }
        if !lv.tiles[y as usize][x as usize].walkable() {
            continue ;
        }

        let kind = pick_enemy(depth, rng.range_u32(0, 100));
        entities.push(Entity::enemy(x, y, kind, depth));
    }

    if rng.ratio(1, 3) {
        let x: i32 = rng.range_u32(room.x1 as u32, room.x2 as u32) as i32;
        let y: i32 = rng.range_u32(room.y1 as u32, room.y2 as u32) as i32;

        if !occupied(entities, x, y) && lv.tiles[y as usize][x as usize].walkable() {
            let kind = pick_item(depth, rng.range_u32(0, 100));
            entities.push(Entity::item(x, y, kind));
        }
    }
}

} // verus!

//! The closed catalog of entity kinds — the player, enemies, items — and
//! their stat records, with depth scaling for enemies.

use vstd::prelude::*;
use crate::reach::in_grid;

verus! {

#[derive(Clone, Copy, PartialEq, Eq, Structural, Debug)]
pub enum EntityKind {
    Player,
    /// Weak, confused enemy.
    LostShade,
    /// Underworld nymph, moderate enemy; can blind.
    Lampad,
    /// Flesh-eating daemon; can strip defense.
    Eurynomos,
    /// Shapeshifter, dangerous; drains life.
    Empusa,
    /// Heals on pickup.
    Nectar,
    /// Currency.
    Obol,
    /// Temporary strength boost.
    Moly,
    /// Permanent weapon upgrade.
    StygianBlade,
}

impl EntityKind {
    pub open spec fn spec_glyph(self) -> char {
        match self {
            EntityKind::Player => '@',
            EntityKind::LostShade => 's',
            EntityKind::Lampad => 'l',
            EntityKind::Eurynomos => 'E',
            EntityKind::Empusa => 'M',
            EntityKind::Nectar => '!',
            EntityKind::Obol => '$',
            EntityKind::Moly => '?',
            EntityKind::StygianBlade => '/',
        }
    }

    pub fn glyph(self) -> (r: char)
        ensures
            r == self.spec_glyph(),
    {
        match self {
            EntityKind::Player => '@',
            EntityKind::LostShade => 's',
            EntityKind::Lampad => 'l',
            EntityKind::Eurynomos => 'E',
            EntityKind::Empusa => 'M',
            EntityKind::Nectar => '!',
            EntityKind::Obol => '$',
            EntityKind::Moly => '?',
            EntityKind::StygianBlade => '/',
        }
    }

    /// The display name of a kind, as a character sequence.
    pub open spec fn spec_name(self) -> Seq<char> {
        match self {
            EntityKind::Player => "You"@,
            EntityKind::LostShade => "Lost Shade"@,
            EntityKind::Lampad => "Lampad"@,
            EntityKind::Eurynomos => "Eurynomos"@,
            EntityKind::Empusa => "Empusa"@,
            EntityKind::Nectar => "Nectar"@,
            EntityKind::Obol => "Obol"@,
            EntityKind::Moly => "Moly"@,
            EntityKind::StygianBlade => "Stygian Blade"@,
        }
    }

    pub fn name(self) -> (r: &'static str)
        ensures
            r@ == self.spec_name(),
    {
        match self {
            EntityKind::Player => "You",
            EntityKind::LostShade => "Lost Shade",
            EntityKind::Lampad => "Lampad",
            EntityKind::Eurynomos => "Eurynomos",
            EntityKind::Empusa => "Empusa",
            EntityKind::Nectar => "Nectar",
            EntityKind::Obol => "Obol",
            EntityKind::Moly => "Moly",
            EntityKind::StygianBlade => "Stygian Blade",
        }
    }

    pub open spec fn spec_is_enemy(self) -> bool {
        self == EntityKind::LostShade || self == EntityKind::Lampad || self
            == EntityKind::Eurynomos || self == EntityKind::Empusa
    }

    pub fn is_enemy(self) -> (r: bool)
        ensures
            r == self.spec_is_enemy(),
    {
        match self {
            EntityKind::LostShade => true,
            EntityKind::Lampad => true,
            EntityKind::Eurynomos => true,
            EntityKind::Empusa => true,
            _ => false,
        }
    }

    pub open spec fn spec_is_item(self) -> bool {
        self == EntityKind::Nectar || self == EntityKind::Obol || self == EntityKind::Moly || self
            == EntityKind::StygianBlade
    }

    pub fn is_item(self) -> (r: bool)
        ensures
            r == self.spec_is_item(),
    {
        match self {
            EntityKind::Nectar => true,
            EntityKind::Obol => true,
            EntityKind::Moly => true,
            EntityKind::StygianBlade => true,
            _ => false,
        }
    }
}

/// A base stat scaled for depth: the real value base * (1 + (depth-1) * 0.15)
/// truncated to an integer, i.e. base * (17 + 3*depth) / 20, clamped to i32.
pub open spec fn spec_scaled(base: int, depth: int) -> int {
    let v = base * (17 + 3 * depth) / 20;
    if v > i32::MAX {
        i32::MAX as int
    } else {
        v
    }
}

/// For the depths a game can reach, a scaled stat stays between its base
/// value and a small constant, so every spawned stat is positive and far
/// from any machine limit.
pub proof fn lemma_scaled_bounds(base: int, depth: int)
    requires
        1 <= base <= 25,
        1 <= depth <= 7,
    ensures
        base <= spec_scaled(base, depth) <= 50,
{
    let f = 17 + 3 * depth;
    assert(20 * base <= base * f <= 950) by (nonlinear_arith)
        requires
            1 <= base <= 25,
            20 <= f <= 38,
    ;
    vstd::arithmetic::div_mod::lemma_div_is_ordered(20 * base, base * f, 20);
    vstd::arithmetic::div_mod::lemma_div_is_ordered(base * f, 950, 20);
    vstd::arithmetic::div_mod::lemma_div_by_multiple(base, 20);
}

fn scaled(base: u32, depth: u32) -> (r: i32)
    requires
        base <= 100,
        depth >= 1,
    ensures
        r == spec_scaled(base as int, depth as int),
{
    let f: u64 = 17 + 3 * (depth as u64);
    proof {
        assert((base as u64) * f <= 100 * (17 + 3 * 0xffff_ffffu64)) by (nonlinear_arith)
            requires
                base as u64 <= 100,
                0 <= f <= 17 + 3 * 0xffff_ffffu64,
        ;
    }
    let num: u64 = (base as u64) * f;
    let q: u64 = num / 20;
    if q > i32::MAX as u64 {
        i32::MAX
    } else {
        q as i32
    }
}

/// An entity: the player, an enemy, or an item lying on the ground.
/// Items carry all-zero combat stats; dead entities are kept, tombstoned
/// with `alive == false`.
#[derive(Clone, Copy, PartialEq, Eq, Structural, Debug)]
pub struct Entity {
    pub x: i32,
    pub y: i32,
    pub kind: EntityKind,
    pub hp: i32,
    pub max_hp: i32,
    pub attack: i32,
    pub defense: i32,
    pub alive: bool,
    /// Remaining turns of the moly strength buff.
    pub strength_turns: i32,
}

/// The hp (== max hp) an enemy kind spawns with at the given depth.
pub open spec fn spec_enemy_hp(kind: EntityKind, depth: int) -> int {
    match kind {
        EntityKind::LostShade => spec_scaled(8, depth),
        EntityKind::Lampad => spec_scaled(14, depth),
        EntityKind::Eurynomos => spec_scaled(20, depth),
        EntityKind::Empusa => spec_scaled(25, depth),
        _ => 1,
    }
}

/// The attack an enemy kind spawns with at the given depth.
pub open spec fn spec_enemy_attack(kind: EntityKind, depth: int) -> int {
    match kind {
        EntityKind::LostShade => spec_scaled(2, depth),
        EntityKind::Lampad => spec_scaled(4, depth),
        EntityKind::Eurynomos => spec_scaled(6, depth),
        EntityKind::Empusa => spec_scaled(8, depth),
        _ => 0,
    }
}

/// The defense an enemy kind spawns with at the given depth. A kind with
/// zero base defense stays at zero whatever the depth.
pub open spec fn spec_enemy_defense(kind: EntityKind, depth: int) -> int {
    match kind {
        EntityKind::Lampad => spec_scaled(1, depth),
        EntityKind::Eurynomos => spec_scaled(2, depth),
        EntityKind::Empusa => spec_scaled(3, depth),
        _ => 0,
    }
}

impl Entity {
    /// A fresh player: 40/40 hp, attack 5, defense 3, no buffs.
    pub fn player(x: i32, y: i32) -> (e: Entity)
        requires
            in_grid(x as int, y as int),
        ensures
            e.x == x,
            e.y == y,
            e.kind == EntityKind::Player,
            e.hp == 40,
            e.max_hp == 40,
            e.attack == 5,
            e.defense == 3,
            e.alive,
            e.strength_turns == 0,
    {
        Entity {
            x,
            y,
            kind: EntityKind::Player,
            hp: 40,
            max_hp: 40,
            attack: 5,
            defense: 3,
            alive: true,
            strength_turns: 0,
        }
    }

    /// An enemy of the given kind, with each base stat independently
    /// scaled by depth and truncated.
    pub fn enemy(x: i32, y: i32, kind: EntityKind, depth: u32) -> (e: Entity)
        requires
            in_grid(x as int, y as int),
            depth >= 1,
        ensures
            e.x == x,
            e.y == y,
            e.kind == kind,
            e.hp == spec_enemy_hp(kind, depth as int),
            e.max_hp == e.hp,
            e.attack == spec_enemy_attack(kind, depth as int),
            e.defense == spec_enemy_defense(kind, depth as int),
            e.alive,
            e.strength_turns == 0,
    {
        let (hp, atk, def) = match kind {
            EntityKind::LostShade => (scaled(8, depth), scaled(2, depth), 0),
            EntityKind::Lampad => (scaled(14, depth), scaled(4, depth), scaled(1, depth)),
            EntityKind::Eurynomos => (scaled(20, depth), scaled(6, depth), scaled(2, depth)),
            EntityKind::Empusa => (scaled(25, depth), scaled(8, depth), scaled(3, depth)),
            _ => (1, 0, 0),
        };
        Entity { x, y, kind, hp, max_hp: hp, attack: atk, defense: def, alive: true, strength_turns: 0 }
    }

    /// An item on the ground: no combat role, sentinel zero stats.
    pub fn item(x: i32, y: i32, kind: EntityKind) -> (e: Entity)
        requires
            in_grid(x as int, y as int),
        ensures
            e.x == x,
            e.y == y,
            e.kind == kind,
            e.hp == 0,
            e.max_hp == 0,
            e.attack == 0,
            e.defense == 0,
            e.alive,
            e.strength_turns == 0,
    {
        Entity { x, y, kind, hp: 0, max_hp: 0, attack: 0, defense: 0, alive: true, strength_turns: 0 }
    }

    /// Attack with the strength buff applied while it lasts.
    pub open spec fn spec_effective_attack(self) -> int {
        if self.strength_turns > 0 {
            self.attack + 4
        } else {
            self.attack as int
        }
    }

    pub fn effective_attack(&self) -> (r: i32)
        requires
            self.attack <= i32::MAX - 4,
        ensures
            r == self.spec_effective_attack(),
    {
        if self.strength_turns > 0 {
            self.attack + 4
        } else {
            self.attack
        }
    }
}

} // verus!

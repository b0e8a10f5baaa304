//! The turn engine: the state machine that owns the level, the player,
//! the entity collection, abilities, shrines and the bounded event log,
//! and resolves one action per call in a fixed order.

use vstd::prelude::*;
use vstd::string::StringExecFns;
use crate::ability::{Ability, AbilityState};
use crate::entity::{Entity, EntityKind, lemma_scaled_bounds};
use crate::fov::{compute_fov, dist2, fov_post};
use crate::level::{flag_at, Level, Rect, Tile};
use crate::reach::{in_grid, walk_at};
use crate::rng::GameRng;
use crate::shrine::{Boon, Shrine};
use crate::spawn::{populate_room, spawned_ok};
use crate::text::{dec_seq, push_dec};

verus! {

/// The event log keeps at most this many lines; the oldest is evicted.
pub const LOG_SIZE: usize = 8;

/// Descending from this depth ends the game in victory.
pub const MAX_DEPTH: u32 = 7;

/// Upper bound kept on every combat stat; far above anything reachable,
/// it exists so arithmetic on stats can be proved free of overflow.
pub const STAT_CAP: i32 = 9000;

/// Upper bound kept on the field-of-view radius.
pub const FOV_CAP: i32 = 64;

/// The coarse phases of a session. Only Playing advances; the others are
/// terminal or restart into a fresh Playing.
#[derive(Clone, Copy, PartialEq, Eq, Structural, Debug)]
pub enum GameState {
    Title,
    Playing,
    Dead,
    Victory,
}

/// One player intent, consumed by `player_action`.
#[derive(Clone, Copy, PartialEq, Eq, Structural, Debug)]
pub enum Action {
    /// Step or melee in a direction; dx, dy in -1..=1, not both zero.
    Move(i32, i32),
    Wait,
    Pickup,
    Descend,
    Interact,
    /// Index into the fixed three-ability set.
    UseAbility(usize),
}

/// An enemy or item entity as the turn engine keeps it: on the grid, with
/// consistent stats, items with sentinel zeros, and dead enemies
/// tombstoned exactly when their hp has reached 0.
pub open spec fn entity_ok(e: Entity) -> bool {
    &&& in_grid(e.x as int, e.y as int)
    &&& (e.kind.spec_is_enemy() || e.kind.spec_is_item())
    &&& e.hp <= e.max_hp
    &&& 0 <= e.max_hp <= STAT_CAP
    &&& -STAT_CAP - 6 <= e.hp
    &&& 0 <= e.attack <= STAT_CAP
    &&& 0 <= e.defense <= STAT_CAP
    &&& e.strength_turns == 0
    &&& (e.kind.spec_is_enemy() ==> (e.alive <==> e.hp > 0))
    &&& (e.kind.spec_is_item() ==> e.hp == 0 && e.max_hp == 0 && e.attack == 0 && e.defense == 0)
}

/// The player entity as the turn engine keeps it.
pub open spec fn player_ok(p: Entity) -> bool {
    &&& p.kind == EntityKind::Player
    &&& in_grid(p.x as int, p.y as int)
    &&& p.hp <= p.max_hp
    &&& 1 <= p.max_hp <= STAT_CAP
    &&& -STAT_CAP - 6 <= p.hp
    &&& 0 <= p.attack <= STAT_CAP
    &&& 0 <= p.defense <= STAT_CAP
    &&& 0 <= p.strength_turns
    &&& (p.alive <==> p.hp > 0)
}

/// The log after appending one message: the new line sits at the end, and
/// when the log was full the oldest line was evicted first.
pub open spec fn post_log1(pre: Seq<String>, m: Seq<char>, post: Seq<String>) -> bool {
    &&& post.len() == (if pre.len() < LOG_SIZE {
        pre.len() + 1int
    } else {
        LOG_SIZE as int
    })
    &&& post[post.len() - 1]@ == m
    &&& forall|i: int|
        0 <= i < post.len() - 1 ==> post[i] == pre[i + (pre.len() - (post.len() - 1))]
}

/// The log after appending two messages in order.
pub open spec fn post_log2(pre: Seq<String>, m1: Seq<char>, m2: Seq<char>, post: Seq<String>) -> bool {
    &&& post.len() == (if pre.len() + 2 <= LOG_SIZE {
        pre.len() + 2int
    } else {
        LOG_SIZE as int
    })
    &&& post[post.len() - 1]@ == m2
    &&& post[post.len() - 2]@ == m1
    &&& forall|i: int|
        0 <= i < post.len() - 2 ==> post[i] == pre[i + (pre.len() - (post.len() - 2))]
}

/// The log after appending three messages in order.
pub open spec fn post_log3(
    pre: Seq<String>,
    m1: Seq<char>,
    m2: Seq<char>,
    m3: Seq<char>,
    post: Seq<String>,
) -> bool {
    &&& post.len() == (if pre.len() + 3 <= LOG_SIZE {
        pre.len() + 3int
    } else {
        LOG_SIZE as int
    })
    &&& post[post.len() - 1]@ == m3
    &&& post[post.len() - 2]@ == m2
    &&& post[post.len() - 3]@ == m1
    &&& forall|i: int|
        0 <= i < post.len() - 3 ==> post[i] == pre[i + (pre.len() - (post.len() - 3))]
}

/// Melee damage: attack minus defense plus the variance roll, floored at 0.
pub open spec fn spec_damage(atk: int, def: int, roll: int) -> int {
    if atk - def + roll > 0 {
        atk - def + roll
    } else {
        0
    }
}

/// Combat damage is never negative.
pub proof fn lemma_damage_nonneg(atk: int, def: int, roll: int)
    ensures
        spec_damage(atk, def, roll) >= 0,
{
}

/// The line logged for a melee hit by the player.
pub open spec fn spec_strike_msg(name: Seq<char>, dmg: int) -> Seq<char> {
    if dmg > 0 {
        "You strike the "@ + name + " for "@ + dec_seq(dmg) + " damage."@
    } else {
        "You strike the "@ + name + " but deal no damage."@
    }
}

/// The line logged when an enemy dissolves.
pub open spec fn spec_dissolve_msg(name: Seq<char>) -> Seq<char> {
    "The "@ + name + " dissolves into mist."@
}

/// The whole game state for one session.
pub struct Game {
    pub level: Level,
    pub player: Entity,
    pub entities: Vec<Entity>,
    pub shrines: Vec<Shrine>,
    pub log: Vec<String>,
    pub depth: u32,
    pub obols: u32,
    pub turns: u32,
    pub game_over: bool,
    pub victory: bool,
    pub killed_by: String,
    pub abilities: Vec<AbilityState>,
    pub fov_radius: i32,
    /// While a shrine prompt is pending: the index of the shrine offering.
    pub shrine_prompt: Option<usize>,
    /// Remaining turns of the Lampad blind.
    pub blind_turns: i32,
}

impl Game {
    pub open spec fn wf(self) -> bool {
        &&& self.level.wf()
        &&& self.level.rooms@.len() >= 1
        &&& self.level.depth == self.depth
        &&& player_ok(self.player)
        &&& forall|i: int|
            0 <= i < self.entities@.len() ==> entity_ok(#[trigger] self.entities@[i])
        &&& self.abilities@.len() == 3
        &&& self.abilities@[0].ability == Ability::Dash
        &&& self.abilities@[1].ability == Ability::SpectralScream
        &&& self.abilities@[2].ability == Ability::LethesTouch
        &&& forall|i: int| 0 <= i < 3 ==> (#[trigger] self.abilities@[i]).wf()
        &&& self.log@.len() <= LOG_SIZE
        &&& 1 <= self.depth <= MAX_DEPTH
        &&& 1 <= self.fov_radius <= FOV_CAP
        &&& 0 <= self.blind_turns
        &&& forall|i: int| 0 <= i < self.shrines@.len() ==> (#[trigger] self.shrines@[i]).wf()
        &&& match self.shrine_prompt {
            Some(i) => i < self.shrines@.len() && !self.shrines@[i as int].used,
            None => true,
        }
        &&& (self.victory ==> self.game_over)
        &&& (self.player.hp <= 0 ==> self.game_over)
    }

    /// Append a line to the log, evicting the oldest line when full. Only
    /// the log changes.
    pub fn log(&mut self, msg: &str)
        requires
            old(self).log@.len() <= LOG_SIZE,
        ensures
            post_log1(old(self).log@, msg@, final(self).log@),
            final(self).log@.len() <= LOG_SIZE,
            final(self).level == old(self).level,
            final(self).player == old(self).player,
            final(self).entities == old(self).entities,
            final(self).shrines == old(self).shrines,
            final(self).depth == old(self).depth,
            final(self).obols == old(self).obols,
            final(self).turns == old(self).turns,
            final(self).game_over == old(self).game_over,
            final(self).victory == old(self).victory,
            final(self).killed_by == old(self).killed_by,
            final(self).abilities == old(self).abilities,
            final(self).fov_radius == old(self).fov_radius,
            final(self).shrine_prompt == old(self).shrine_prompt,
            final(self).blind_turns == old(self).blind_turns,
    {
        self.log_string(msg.to_owned());
    }

    /// As `log`, for an already-built line.
    pub fn log_string(&mut self, msg: String)
        requires
            old(self).log@.len() <= LOG_SIZE,
        ensures
            post_log1(old(self).log@, msg@, final(self).log@),
            final(self).log@.len() <= LOG_SIZE,
            final(self).level == old(self).level,
            final(self).player == old(self).player,
            final(self).entities == old(self).entities,
            final(self).shrines == old(self).shrines,
            final(self).depth == old(self).depth,
            final(self).obols == old(self).obols,
            final(self).turns == old(self).turns,
            final(self).game_over == old(self).game_over,
            final(self).victory == old(self).victory,
            final(self).killed_by == old(self).killed_by,
            final(self).abilities == old(self).abilities,
            final(self).fov_radius == old(self).fov_radius,
            final(self).shrine_prompt == old(self).shrine_prompt,
            final(self).blind_turns == old(self).blind_turns,
    {
        self.log.push(msg);
        if self.log.len() > LOG_SIZE {
            self.log.remove(0);
        }
    }

    pub fn is_over(&self) -> (r: bool)
        ensures
            r == self.game_over,
    {
        self.game_over
    }

    /// The radius visibility is computed with: a fixed small radius while
    /// blinded, the full one otherwise.
    pub open spec fn spec_effective_fov(self) -> int {
        if self.blind_turns > 0 {
            3
        } else {
            self.fov_radius as int
        }
    }

    pub fn effective_fov(&self) -> (r: i32)
        ensures
            r == self.spec_effective_fov(),
    {
        if self.blind_turns > 0 {
            3
        } else {
            self.fov_radius
        }
    }
}

/// Build "{prefix}{n}{suffix}".
fn msg_num(prefix: &str, n: u32, suffix: &str) -> (m: String)
    ensures
        m@ == prefix@ + dec_seq(n as int) + suffix@,
{
    let mut m = prefix.to_owned();
    push_dec(&mut m, n);
    m.append(suffix);
    proof {
        assert(m@ =~= prefix@ + dec_seq(n as int) + suffix@);
    }
    m
}

/// Build "{a}{name}{b}".
fn msg_name(a: &str, name: &str, b: &str) -> (m: String)
    ensures
        m@ == a@ + name@ + b@,
{
    let mut m = a.to_owned();
    m.append(name);
    m.append(b);
    proof {
        assert(m@ =~= a@ + name@ + b@);
    }
    m
}

/// Appending one line then another gives a two-line append.
proof fn lemma_log2(pre: Seq<String>, m1: Seq<char>, m2: Seq<char>, mid: Seq<String>, post: Seq<String>)
    requires
        pre.len() <= LOG_SIZE,
        post_log1(pre, m1, mid),
        post_log1(mid, m2, post),
    ensures
        post_log2(pre, m1, m2, post),
{
    assert(post[post.len() - 2] == mid[mid.len() - 1]);
    assert forall|i: int| 0 <= i < post.len() - 2 implies post[i] == pre[i + (pre.len() - (
    post.len() - 2))] by {
        assert(post[i] == mid[i + (mid.len() - (post.len() - 1))]);
    }
}

/// Appending two lines then a third gives a three-line append.
proof fn lemma_log3(
    pre: Seq<String>,
    m1: Seq<char>,
    m2: Seq<char>,
    m3: Seq<char>,
    mid: Seq<String>,
    post: Seq<String>,
)
    requires
        pre.len() <= LOG_SIZE,
        post_log2(pre, m1, m2, mid),
        post_log1(mid, m3, post),
    ensures
        post_log3(pre, m1, m2, m3, post),
{
    assert(post[post.len() - 2] == mid[mid.len() - 1]);
    assert(post[post.len() - 3] == mid[mid.len() - 2]);
    assert forall|i: int| 0 <= i < post.len() - 3 implies post[i] == pre[i + (pre.len() - (
    post.len() - 3))] by {
        assert(post[i] == mid[i + (mid.len() - (post.len() - 1))]);
    }
}

/// A living enemy stands at (x, y).
pub open spec fn enemy_at(e: Entity, x: int, y: int) -> bool {
    e.x == x && e.y == y && e.alive && e.kind.spec_is_enemy()
}

/// i is the lowest index of a living enemy at (x, y).
pub open spec fn is_first_enemy_at(s: Seq<Entity>, x: int, y: int, i: int) -> bool {
    &&& 0 <= i < s.len()
    &&& enemy_at(s[i], x, y)
    &&& forall|j: int| 0 <= j < i ==> !enemy_at(#[trigger] s[j], x, y)
}

/// A present (not yet consumed) item lies at (x, y).
pub open spec fn item_at(e: Entity, x: int, y: int) -> bool {
    e.x == x && e.y == y && e.alive && e.kind.spec_is_item()
}

/// i is the lowest index of a present item at (x, y).
pub open spec fn is_first_item_at(s: Seq<Entity>, x: int, y: int, i: int) -> bool {
    &&& 0 <= i < s.len()
    &&& item_at(s[i], x, y)
    &&& forall|j: int| 0 <= j < i ==> !item_at(#[trigger] s[j], x, y)
}

/// The player's melee attack on the enemy at index idx, with the variance
/// roll given: the enemy loses exactly the computed damage, dies exactly
/// when its hp reaches 0, a strike line (and on a kill a dissolve line)
/// is logged, and nothing else changes.
pub open spec fn attack_transition(pre: Game, idx: int, roll: int, post: Game) -> bool {
    let e0 = pre.entities@[idx];
    let dmg = spec_damage(pre.player.spec_effective_attack(), e0.defense as int, roll);
    let name = e0.kind.spec_name();
    &&& post == (Game { entities: post.entities, log: post.log, ..pre })
    &&& post.entities@.len() == pre.entities@.len()
    &&& (forall|j: int|
        0 <= j < pre.entities@.len() && j != idx ==> post.entities@[j] == pre.entities@[j])
    &&& post.entities@[idx] == (Entity {
        hp: (e0.hp - dmg) as i32,
        alive: e0.hp - dmg > 0,
        ..e0
    })
    &&& (if e0.hp - dmg <= 0 {
        post_log2(pre.log@, spec_strike_msg(name, dmg), spec_dissolve_msg(name), post.log@)
    } else {
        post_log1(pre.log@, spec_strike_msg(name, dmg), post.log@)
    })
}

impl Game {
    /// Resolve the player's melee attack against the living enemy at idx,
    /// with the damage variance roll supplied by the caller.
    pub fn attack_entity(&mut self, idx: usize, roll: i32)
        requires
            old(self).wf(),
            idx < old(self).entities@.len(),
            old(self).entities@[idx as int].alive,
            old(self).entities@[idx as int].kind.spec_is_enemy(),
            -1 <= roll <= 2,
        ensures
            final(self).wf(),
            attack_transition(*old(self), idx as int, roll as int, *final(self)),
    {
        let atk = self.player.effective_attack();
        let def = self.entities[idx].defense;
        let diff = atk - def + roll;
        let damage = if diff > 0 {
            diff
        } else {
            0
        };
        let hp0 = self.entities[idx].hp;
        self.entities[idx].hp = hp0 - damage;
        let name = self.entities[idx].kind.name();

        if damage > 0 {
            let m = msg_name_num("You strike the ", name, " for ", damage as u32, " damage.");
            self.log_string(m);
        } else {
            let m = msg_name("You strike the ", name, " but deal no damage.");
            self.log_string(m);
        }

        if self.entities[idx].hp <= 0 {
            self.entities[idx].alive = false;
            let ghost mid = self.log@;
            let m2 = msg_name("The ", name, " dissolves into mist.");
            self.log_string(m2);
            proof {
                let e0 = old(self).entities@[idx as int];
                let dmg = spec_damage(
                    old(self).player.spec_effective_attack(),
                    e0.defense as int,
                    roll as int,
                );
                lemma_log2(
                    old(self).log@,
                    spec_strike_msg(e0.kind.spec_name(), dmg),
                    spec_dissolve_msg(e0.kind.spec_name()),
                    mid,
                    self.log@,
                );
            }
        }
    }

    /// Move the player one step, or melee the first living enemy at the
    /// target cell (with a fresh variance roll), or do nothing at all if
    /// the target is out of bounds or not walkable.
    pub fn try_move(&mut self, dx: i32, dy: i32, rng: &mut GameRng)
        requires
            old(self).wf(),
            -1 <= dx <= 1,
            -1 <= dy <= 1,
        ensures
            final(self).wf(),
            move_rel(*old(self), dx as int, dy as int, *final(self)),
    {
        let nx = self.player.x + dx;
        let ny = self.player.y + dy;

        if !self.level.in_bounds(nx, ny) {
            return ;
        }
        if !self.level.tiles[ny as usize][nx as usize].walkable() {
            return ;
        }

        let n = self.entities.len();
        let mut i: usize = 0;
        while i < n
            invariant
                old(self).wf(),
                *self == *old(self),
                -1 <= dx <= 1,
                -1 <= dy <= 1,
                nx == old(self).player.x + dx,
                ny == old(self).player.y + dy,
                in_grid(nx as int, ny as int),
                walk_at(old(self).level.tiles@, nx as int, ny as int),
                n == self.entities@.len(),
                i <= n,
                forall|j: int| 0 <= j < i ==> !enemy_at(#[trigger] self.entities@[j], nx as int, ny as int),
            decreases n - i,
        {
            let e = &self.entities[i];
            if e.x == nx && e.y == ny && e.alive && e.kind.is_enemy() {
                let ghost witness = i as int;
                let roll = rng.range_i32(-1, 2);
                self.attack_entity(i, roll);
                proof {
                    assert(is_first_enemy_at(old(self).entities@, nx as int, ny as int, witness));
                    assert(attack_transition(
                        *old(self),
                        witness,
                        roll as int,
                        *self,
                    ));
                }
                return ;
            }
            i = i + 1;
        }

        self.player.x = nx;
        self.player.y = ny;
    }
}

/// Consuming the item at index idx: the item is tombstoned and its effect
/// lands on the player (heal capped at max hp; currency; timed strength
/// buff; permanent attack increase), with the matching log line.
pub open spec fn pickup_transition(pre: Game, idx: int, post: Game) -> bool {
    let e0 = pre.entities@[idx];
    &&& post == (Game {
        player: post.player,
        entities: post.entities,
        obols: post.obols,
        log: post.log,
        ..pre
    })
    &&& post.entities@.len() == pre.entities@.len()
    &&& (forall|j: int|
        0 <= j < pre.entities@.len() && j != idx ==> post.entities@[j] == pre.entities@[j])
    &&& post.entities@[idx] == (Entity { alive: false, ..e0 })
    &&& (e0.kind == EntityKind::Nectar ==> {
        let heal = if pre.player.max_hp - pre.player.hp < 10 {
            pre.player.max_hp - pre.player.hp
        } else {
            10int
        };
        &&& post.player == (Entity { hp: (pre.player.hp + heal) as i32, ..pre.player })
        &&& post.obols == pre.obols
        &&& post_log1(
            pre.log@,
            "You drink the nectar. +"@ + dec_seq(heal) + " HP."@,
            post.log@,
        )
    })
    &&& (e0.kind == EntityKind::Obol ==> {
        &&& post.player == pre.player
        &&& post.obols == (if pre.obols < u32::MAX {
            (pre.obols + 1) as u32
        } else {
            pre.obols
        })
        &&& post_log1(pre.log@, "You pick up an obol. Payment for the ferryman."@, post.log@)
    })
    &&& (e0.kind == EntityKind::Moly ==> {
        &&& post.player == (Entity { strength_turns: 15, ..pre.player })
        &&& post.obols == pre.obols
        &&& post_log1(pre.log@, "You eat the moly. Power surges through you."@, post.log@)
    })
    &&& (e0.kind == EntityKind::StygianBlade ==> {
        &&& post.player == (Entity {
            attack: (if pre.player.attack + 2 <= STAT_CAP {
                pre.player.attack + 2
            } else {
                pre.player.attack as int
            }) as i32,
            ..pre.player
        })
        &&& post.obols == pre.obols
        &&& post_log1(pre.log@, "You take up the Stygian Blade. +2 attack."@, post.log@)
    })
}

/// The effect of one boon on the player, the abilities and the view
/// radius, with its log line. Shrine bookkeeping is left to the caller.
pub open spec fn boon_transition(pre: Game, boon: Boon, post: Game) -> bool {
    &&& post == (Game {
        player: post.player,
        abilities: post.abilities,
        fov_radius: post.fov_radius,
        shrines: post.shrines,
        shrine_prompt: post.shrine_prompt,
        log: post.log,
        ..pre
    })
    &&& match boon {
        Boon::VitalityOfErebus => {
            let mh = if pre.player.max_hp + 10 <= STAT_CAP {
                pre.player.max_hp + 10
            } else {
                pre.player.max_hp as int
            };
            &&& post.player == (Entity { hp: mh as i32, max_hp: mh as i32, ..pre.player })
            &&& post.abilities == pre.abilities
            &&& post.fov_radius == pre.fov_radius
            &&& post_log1(
                pre.log@,
                "Erebus grants vitality. +10 max HP, healed to full."@,
                post.log@,
            )
        },
        Boon::WrathOfAres => {
            &&& post.player == (Entity {
                attack: (if pre.player.attack + 3 <= STAT_CAP {
                    pre.player.attack + 3
                } else {
                    pre.player.attack as int
                }) as i32,
                ..pre.player
            })
            &&& post.abilities == pre.abilities
            &&& post.fov_radius == pre.fov_radius
            &&& post_log1(pre.log@, "Ares grants fury. +3 attack."@, post.log@)
        },
        Boon::AegisOfAthena => {
            &&& post.player == (Entity {
                defense: (if pre.player.defense + 2 <= STAT_CAP {
                    pre.player.defense + 2
                } else {
                    pre.player.defense as int
                }) as i32,
                ..pre.player
            })
            &&& post.abilities == pre.abilities
            &&& post.fov_radius == pre.fov_radius
            &&& post_log1(pre.log@, "Athena grants protection. +2 defense."@, post.log@)
        },
        Boon::SwiftnessOfHermes => {
            &&& post.player == pre.player
            &&& post.fov_radius == pre.fov_radius
            &&& post.abilities@.len() == pre.abilities@.len()
            &&& (forall|i: int|
                0 <= i < pre.abilities@.len() ==> post.abilities@[i] == (AbilityState {
                    cooldown: (if (#[trigger] pre.abilities@[i]).cooldown >= 3 {
                        pre.abilities@[i].cooldown - 3
                    } else {
                        0int
                    }) as i32,
                    ..pre.abilities@[i]
                }))
            &&& post_log1(pre.log@, "Hermes grants swiftness. All cooldowns reduced."@, post.log@)
        },
        Boon::GraceOfPersephone => {
            let heal = if pre.player.max_hp - pre.player.hp < 15 {
                pre.player.max_hp - pre.player.hp
            } else {
                15int
            };
            &&& post.player == (Entity { hp: (pre.player.hp + heal) as i32, ..pre.player })
            &&& post.abilities == pre.abilities
            &&& post.fov_radius == pre.fov_radius
            &&& post_log1(
                pre.log@,
                "Persephone grants grace. +"@ + dec_seq(heal) + " HP."@,
                post.log@,
            )
        },
        Boon::EyesOfNyx => {
            &&& post.player == pre.player
            &&& post.abilities == pre.abilities
            &&& post.fov_radius == (if pre.fov_radius + 3 <= FOV_CAP {
                pre.fov_radius + 3
            } else {
                pre.fov_radius as int
            })
            &&& post_log1(
                pre.log@,
                "Nyx grants sight. You see further into the dark."@,
                post.log@,
            )
        },
    }
}

/// An unused shrine stands at (x, y).
pub open spec fn shrine_here(s: Shrine, x: int, y: int) -> bool {
    s.x == x && s.y == y && !s.used
}

/// i is the lowest index of an unused shrine at (x, y).
pub open spec fn is_first_shrine_at(s: Seq<Shrine>, x: int, y: int, i: int) -> bool {
    &&& 0 <= i < s.len()
    &&& shrine_here(s[i], x, y)
    &&& forall|j: int| 0 <= j < i ==> !shrine_here(#[trigger] s[j], x, y)
}

impl Game {
    /// Consume the first present item on the player's cell, applying its
    /// effect; with no item there, only a log line is added.
    pub fn try_pickup(&mut self)
        requires
            old(self).wf(),
            old(self).player.alive,
        ensures
            final(self).wf(),
            pickup_rel(*old(self), *final(self)),
    {
        let px = self.player.x;
        let py = self.player.y;

        let n = self.entities.len();
        let mut i: usize = 0;
        while i < n
            invariant
                old(self).wf(),
                old(self).player.alive,
                *self == *old(self),
                px == old(self).player.x,
                py == old(self).player.y,
                n == self.entities@.len(),
                i <= n,
                forall|j: int|
                    0 <= j < i ==> !item_at(#[trigger] self.entities@[j], px as int, py as int),
            decreases n - i,
        {
            let e = &self.entities[i];
            if e.x == px && e.y == py && e.alive && e.kind.is_item() {
                let ghost witness = i as int;
                let kind = self.entities[i].kind;
                self.entities[i].alive = false;

                match kind {
                    EntityKind::Nectar => {
                        let gap = self.player.max_hp - self.player.hp;
                        let heal = if gap < 10 {
                            gap
                        } else {
                            10
                        };
                        self.player.hp = self.player.hp + heal;
                        self.log_string(msg_num("You drink the nectar. +", heal as u32, " HP."));
                    },
                    EntityKind::Obol => {
                        if self.obols < u32::MAX {
                            self.obols = self.obols + 1;
                        }
                        self.log("You pick up an obol. Payment for the ferryman.");
                    },
                    EntityKind::Moly => {
                        self.player.strength_turns = 15;
                        self.log("You eat the moly. Power surges through you.");
                    },
                    EntityKind::StygianBlade => {
                        if self.player.attack + 2 <= STAT_CAP {
                            self.player.attack = self.player.attack + 2;
                        }
                        self.log("You take up the Stygian Blade. +2 attack.");
                    },
                    _ => {
                        proof {
                            assert(false);
                        }
                    },
                }
                proof {
                    assert(is_first_item_at(old(self).entities@, px as int, py as int, witness));
                    assert(pickup_transition(*old(self), witness, *self));
                }
                return ;
            }
            i = i + 1;
        }

        self.log("Nothing to pick up here.");
    }

    /// Apply one boon's fixed effect; shrine state is untouched here.
    fn apply_boon(&mut self, boon: Boon)
        requires
            old(self).wf(),
            old(self).player.alive,
        ensures
            final(self).wf(),
            boon_transition(*old(self), boon, *final(self)),
            final(self).shrines == old(self).shrines,
            final(self).shrine_prompt == old(self).shrine_prompt,
    {
        match boon {
            Boon::VitalityOfErebus => {
                if self.player.max_hp + 10 <= STAT_CAP {
                    self.player.max_hp = self.player.max_hp + 10;
                }
                self.player.hp = self.player.max_hp;
                self.log("Erebus grants vitality. +10 max HP, healed to full.");
            },
            Boon::WrathOfAres => {
                if self.player.attack + 3 <= STAT_CAP {
                    self.player.attack = self.player.attack + 3;
                }
                self.log("Ares grants fury. +3 attack.");
            },
            Boon::AegisOfAthena => {
                if self.player.defense + 2 <= STAT_CAP {
                    self.player.defense = self.player.defense + 2;
                }
                self.log("Athena grants protection. +2 defense.");
            },
            Boon::SwiftnessOfHermes => {
                let m = self.abilities.len();
                let mut i: usize = 0;
                while i < m
                    invariant
                        old(self).wf(),
                        m == 3,
                        i <= m,
                        self.abilities@.len() == 3,
                        *self == (Game { abilities: self.abilities, ..*old(self) }),
                        forall|j: int|
                            i <= j < 3 ==> self.abilities@[j] == old(self).abilities@[j],
                        forall|j: int|
                            0 <= j < i ==> self.abilities@[j] == (AbilityState {
                                cooldown: (if (#[trigger] old(self).abilities@[j]).cooldown >= 3 {
                                    old(self).abilities@[j].cooldown - 3
                                } else {
                                    0int
                                }) as i32,
                                ..old(self).abilities@[j]
                            }),
                    decreases m - i,
                {
                    if self.abilities[i].cooldown >= 3 {
                        self.abilities[i].cooldown = self.abilities[i].cooldown - 3;
                    } else {
                        self.abilities[i].cooldown = 0;
                    }
                    i = i + 1;
                }
                self.log("Hermes grants swiftness. All cooldowns reduced.");
            },
            Boon::GraceOfPersephone => {
                let gap = self.player.max_hp - self.player.hp;
                let heal = if gap < 15 {
                    gap
                } else {
                    15
                };
                self.player.hp = self.player.hp + heal;
                self.log_string(msg_num("Persephone grants grace. +", heal as u32, " HP."));
            },
            Boon::EyesOfNyx => {
                if self.fov_radius + 3 <= FOV_CAP {
                    self.fov_radius = self.fov_radius + 3;
                }
                self.log("Nyx grants sight. You see further into the dark.");
            },
        }
    }

    /// Resolve a pending shrine prompt: confirm one of the two offered
    /// boons. The shrine is marked used permanently and the prompt is
    /// cleared; with no prompt pending nothing happens at all.
    pub fn choose_shrine_boon(&mut self, choose_a: bool)
        requires
            old(self).wf(),
            !old(self).game_over,
        ensures
            final(self).wf(),
            match old(self).shrine_prompt {
                None => *final(self) == *old(self),
                Some(idx) => {
                    let s0 = old(self).shrines@[idx as int];
                    let boon = if choose_a {
                        s0.boon_a
                    } else {
                        s0.boon_b
                    };
                    &&& final(self).shrines@ == old(self).shrines@.update(
                        idx as int,
                        (Shrine { used: true, ..s0 }),
                    )
                    &&& final(self).shrine_prompt is None
                    &&& boon_transition(*old(self), boon, *final(self))
                },
            },
    {
        if let Some(idx) = self.shrine_prompt {
            let boon = if choose_a {
                self.shrines[idx].boon_a
            } else {
                self.shrines[idx].boon_b
            };
            self.shrines[idx].used = true;
            self.shrine_prompt = None;
            self.apply_boon(boon);
        }
    }

    /// Open the shrine prompt when standing on an unused shrine: its two
    /// boons are presented in the log and ordinary actions defer until
    /// the prompt is resolved. Anywhere else, only a log line is added.
    pub fn try_interact(&mut self)
        requires
            old(self).wf(),
        ensures
            final(self).wf(),
            interact_rel(*old(self), *final(self)),
    {
        let px = self.player.x;
        let py = self.player.y;

        let n = self.shrines.len();
        let mut i: usize = 0;
        while i < n
            invariant
                old(self).wf(),
                *self == *old(self),
                px == old(self).player.x,
                py == old(self).player.y,
                n == self.shrines@.len(),
                i <= n,
                forall|j: int|
                    0 <= j < i ==> !shrine_here(#[trigger] self.shrines@[j], px as int, py as int),
            decreases n - i,
        {
            let s = &self.shrines[i];
            if s.x == px && s.y == py && !s.used {
                let ghost witness = i as int;
                let a_name = self.shrines[i].boon_a.name();
                let a_desc = self.shrines[i].boon_a.description();
                let b_name = self.shrines[i].boon_b.name();
                let b_desc = self.shrines[i].boon_b.description();
                self.log("A shrine of grey stone. Choose your blessing:");
                let ghost l1 = self.log@;
                self.log_string(msg4("[A] ", a_name, " - ", a_desc));
                let ghost l2 = self.log@;
                self.log_string(msg4("[B] ", b_name, " - ", b_desc));
                self.shrine_prompt = Some(i);
                proof {
                    let s0 = old(self).shrines@[witness];
                    lemma_log2(
                        old(self).log@,
                        "A shrine of grey stone. Choose your blessing:"@,
                        "[A] "@ + s0.boon_a.spec_name() + " - "@ + s0.boon_a.spec_description(),
                        l1,
                        l2,
                    );
                    lemma_log3(
                        old(self).log@,
                        "A shrine of grey stone. Choose your blessing:"@,
                        "[A] "@ + s0.boon_a.spec_name() + " - "@ + s0.boon_a.spec_description(),
                        "[B] "@ + s0.boon_b.spec_name() + " - "@ + s0.boon_b.spec_description(),
                        l2,
                        self.log@,
                    );
                    assert(is_first_shrine_at(old(self).shrines@, px as int, py as int, witness));
                }
                return ;
            }
            i = i + 1;
        }

        self.log("Nothing to interact with here.");
    }
}

/// The sign of a difference, as a unit step.
pub open spec fn sgn(v: int) -> int {
    if v > 0 {
        1
    } else if v < 0 {
        -1
    } else {
        0
    }
}

/// Entity i is a living enemy standing on a currently visible cell.
pub open spec fn visible_enemy(g: Game, i: int) -> bool {
    &&& 0 <= i < g.entities@.len()
    &&& ({
        let e = g.entities@[i];
        e.alive && e.kind.spec_is_enemy() && flag_at(g.level.visible@, e.x as int, e.y as int)
    })
}

/// Squared distance from entity i to the player.
pub open spec fn enemy_d2(g: Game, i: int) -> int {
    dist2(
        g.entities@[i].x as int,
        g.entities@[i].y as int,
        g.player.x as int,
        g.player.y as int,
    )
}

/// i is the first visible enemy attaining the minimum distance to the
/// player; such an index is unique.
pub open spec fn is_nearest_visible_enemy(g: Game, i: int) -> bool {
    &&& visible_enemy(g, i)
    &&& forall|j: int| #[trigger] visible_enemy(g, j) ==> enemy_d2(g, j) >= enemy_d2(g, i)
    &&& forall|j: int|
        0 <= j < i && #[trigger] visible_enemy(g, j) ==> enemy_d2(g, j) > enemy_d2(g, i)
}

/// The dash direction away from entity i (or a fixed default when the
/// signs cancel).
pub open spec fn away_dir(g: Game, i: int) -> (int, int) {
    let dx = sgn(g.player.x - g.entities@[i].x);
    let dy = sgn(g.player.y - g.entities@[i].y);
    if dx == 0 && dy == 0 {
        (1, 0)
    } else {
        (dx, dy)
    }
}

/// Where a dash along (dx, dy) ends: up to two steps, stopping before the
/// first non-walkable cell.
pub open spec fn dash_dest(g: Game, dx: int, dy: int) -> (int, int) {
    let px = g.player.x as int;
    let py = g.player.y as int;
    let x1 = px + dx;
    let y1 = py + dy;
    let x2 = px + 2 * dx;
    let y2 = py + 2 * dy;
    if !(in_grid(x1, y1) && walk_at(g.level.tiles@, x1, y1)) {
        (px, py)
    } else if !(in_grid(x2, y2) && walk_at(g.level.tiles@, x2, y2)) {
        (x1, y1)
    } else {
        (x2, y2)
    }
}

/// A dash along dir: the player ends at the dash destination and the
/// cooldown is spent, unless no ground was gained, in which case the
/// cooldown is refunded and only a failure line is logged.
pub open spec fn dash_transition(pre: Game, dir: (int, int), post: Game) -> bool {
    let dest = dash_dest(pre, dir.0, dir.1);
    if dest == (pre.player.x as int, pre.player.y as int) {
        &&& post == (Game { log: post.log, ..pre })
        &&& post_log1(pre.log@, "Nowhere to dash."@, post.log@)
    } else {
        &&& post == (Game { player: post.player, abilities: post.abilities, log: post.log, ..pre })
        &&& post.player == (Entity { x: dest.0 as i32, y: dest.1 as i32, ..pre.player })
        &&& post.abilities@ == pre.abilities@.update(
            0,
            (AbilityState { cooldown: 8, ..pre.abilities@[0int] }),
        )
        &&& post_log1(pre.log@, "You dash through the grey air."@, post.log@)
    }
}

/// The scream reaches entity i: a living enemy within squared distance 9
/// on a visible cell.
pub open spec fn scream_hits(g: Game, i: int) -> bool {
    &&& 0 <= i < g.entities@.len()
    &&& ({
        let e = g.entities@[i];
        e.alive && e.kind.spec_is_enemy() && dist2(
            e.x as int,
            e.y as int,
            g.player.x as int,
            g.player.y as int,
        ) <= 9 && flag_at(g.level.visible@, e.x as int, e.y as int)
    })
}

/// How many of the first `upto` entities the scream reaches.
pub open spec fn scream_hit_count(g: Game, upto: int) -> int
    decreases upto,
{
    if upto <= 0 {
        0
    } else {
        scream_hit_count(g, upto - 1) + (if scream_hits(g, upto - 1) {
            1int
        } else {
            0int
        })
    }
}

/// The scream: every reached enemy loses 6 hp and dies exactly when its
/// hp reaches 0; the cooldown is spent; one line reporting the number of
/// enemies hit (or the empty echo) is logged.
pub open spec fn scream_transition(pre: Game, post: Game) -> bool {
    &&& post == (Game { entities: post.entities, abilities: post.abilities, log: post.log, ..pre })
    &&& post.abilities@ == pre.abilities@.update(
        1,
        (AbilityState { cooldown: 12, ..pre.abilities@[1int] }),
    )
    &&& post.entities@.len() == pre.entities@.len()
    &&& forall|i: int|
        0 <= i < pre.entities@.len() ==> #[trigger] post.entities@[i] == (if scream_hits(pre, i) {
            let e = pre.entities@[i];
            Entity { hp: (e.hp - 6) as i32, alive: e.hp - 6 > 0, ..e }
        } else {
            pre.entities@[i]
        })
    &&& ({
        let hits = scream_hit_count(pre, pre.entities@.len() as int);
        if hits > 0 && pre.entities@.len() <= u32::MAX {
            post_log1(
                pre.log@,
                "You scream into the void. "@ + dec_seq(hits) + " enemies shattered."@,
                post.log@,
            )
        } else if hits == 0 {
            post_log1(pre.log@, "Your scream echoes through empty halls."@, post.log@)
        } else {
            post.log@.len() == (if pre.log@.len() < LOG_SIZE {
                pre.log@.len() + 1int
            } else {
                LOG_SIZE as int
            })
        }
    })
}

/// The heal: 15 hp restored, capped at max hp; the cooldown is spent.
pub open spec fn lethe_transition(pre: Game, post: Game) -> bool {
    let heal = if pre.player.max_hp - pre.player.hp < 15 {
        pre.player.max_hp - pre.player.hp
    } else {
        15int
    };
    &&& post == (Game { player: post.player, abilities: post.abilities, log: post.log, ..pre })
    &&& post.player == (Entity { hp: (pre.player.hp + heal) as i32, ..pre.player })
    &&& post.abilities@ == pre.abilities@.update(
        2,
        (AbilityState { cooldown: 25, ..pre.abilities@[2int] }),
    )
    &&& post_log1(
        pre.log@,
        "You touch the waters of Lethe. You forget your pain. +"@ + dec_seq(heal) + " HP."@,
        post.log@,
    )
}

/// Squared distance between two grid cells.
fn d2_cells(ax: i32, ay: i32, bx: i32, by: i32) -> (r: i32)
    requires
        in_grid(ax as int, ay as int),
        in_grid(bx as int, by as int),
    ensures
        r == dist2(ax as int, ay as int, bx as int, by as int),
        0 <= r <= 12800,
{
    let dx = ax - bx;
    let dy = ay - by;
    proof {
        assert(0 <= dx * dx <= 6400 && 0 <= dy * dy <= 6400) by (nonlinear_arith)
            requires
                -80 <= dx <= 80,
                -80 <= dy <= 80,
        ;
    }
    dx * dx + dy * dy
}

impl Game {
    /// The direction the dash takes: directly away from the nearest
    /// visible enemy, or a fixed default when none is visible.
    fn find_dash_direction(&self) -> (r: (i32, i32))
        requires
            self.wf(),
        ensures
            (!exists|i: int| visible_enemy(*self, i)) ==> r == (1i32, 0i32),
            (exists|i: int| visible_enemy(*self, i)) ==> exists|i: int|
                is_nearest_visible_enemy(*self, i),
            forall|i: int|
                is_nearest_visible_enemy(*self, i) ==> (r.0 as int, r.1 as int) == away_dir(
                    *self,
                    i,
                ),
    {
        let n = self.entities.len();
        let mut found = false;
        let mut bi: usize = 0;
        let mut bd: i32 = 0;
        let mut i: usize = 0;
        while i < n
            invariant
                self.wf(),
                n == self.entities@.len(),
                i <= n,
                !found ==> forall|j: int| 0 <= j < i ==> !visible_enemy(*self, j),
                found ==> {
                    &&& bi < i
                    &&& visible_enemy(*self, bi as int)
                    &&& bd == enemy_d2(*self, bi as int)
                    &&& forall|j: int|
                        0 <= j < i && #[trigger] visible_enemy(*self, j) ==> enemy_d2(*self, j)
                            >= bd
                    &&& forall|j: int|
                        0 <= j < bi && #[trigger] visible_enemy(*self, j) ==> enemy_d2(*self, j)
                            > bd
                },
            decreases n - i,
        {
            let e = &self.entities[i];
            if e.alive && e.kind.is_enemy() && self.level.visible[e.y as usize][e.x as usize] {
                let d = d2_cells(e.x, e.y, self.player.x, self.player.y);
                if !found || d < bd {
                    found = true;
                    bi = i;
                    bd = d;
                }
            }
            i = i + 1;
        }

        if found {
            proof {
                assert(is_nearest_visible_enemy(*self, bi as int));
            }
            let ex = self.entities[bi].x;
            let ey = self.entities[bi].y;
            let dx: i32 = if self.player.x > ex {
                1
            } else if self.player.x < ex {
                -1
            } else {
                0
            };
            let dy: i32 = if self.player.y > ey {
                1
            } else if self.player.y < ey {
                -1
            } else {
                0
            };
            proof {
                assert forall|k: int| is_nearest_visible_enemy(*self, k) implies k == bi as int by {
                    if k < bi as int {
                        assert(visible_enemy(*self, k));
                    } else if k > bi as int {
                        assert(visible_enemy(*self, bi as int));
                    }
                }
            }
            if dx == 0 && dy == 0 {
                (1, 0)
            } else {
                (dx, dy)
            }
        } else {
            (1, 0)
        }
    }
}

impl Game {
    /// The Dash effect, once chosen and ready.
    fn do_dash(&mut self)
        requires
            old(self).wf(),
            old(self).player.alive,
            old(self).abilities@[0int].cooldown == 0,
        ensures
            final(self).wf(),
            (!exists|i: int| visible_enemy(*old(self), i)) ==> dash_transition(
                *old(self),
                (1int, 0int),
                *final(self),
            ),
            (exists|i: int| visible_enemy(*old(self), i)) ==> exists|i: int|
                is_nearest_visible_enemy(*old(self), i),
            forall|i: int|
                is_nearest_visible_enemy(*old(self), i) ==> dash_transition(
                    *old(self),
                    away_dir(*old(self), i),
                    *final(self),
                ),
    {
        let (dx, dy) = self.find_dash_direction();
        let px = self.player.x;
        let py = self.player.y;
        let x1 = px + dx;
        let y1 = py + dy;
        let x2 = px + 2 * dx;
        let y2 = py + 2 * dy;

        let step1_ok = self.level.in_bounds(x1, y1) && self.level.tiles[y1 as usize][x1
            as usize].walkable();
        let step2_ok = step1_ok && self.level.in_bounds(x2, y2) && self.level.tiles[y2 as usize][x2
            as usize].walkable();

        if step2_ok {
            self.player.x = x2;
            self.player.y = y2;
            self.abilities[0].cooldown = 8;
            self.log("You dash through the grey air.");
        } else if step1_ok {
            self.player.x = x1;
            self.player.y = y1;
            self.abilities[0].cooldown = 8;
            self.log("You dash through the grey air.");
        } else {
            self.log("Nowhere to dash.");
        }
        proof {
            assert(final(self).abilities@ =~= if dash_dest(
                *old(self),
                dx as int,
                dy as int,
            ) == (old(self).player.x as int, old(self).player.y as int) {
                old(self).abilities@
            } else {
                old(self).abilities@.update(
                    0,
                    (AbilityState { cooldown: 8, ..old(self).abilities@[0int] }),
                )
            });
        }
    }

    /// The Spectral Scream effect, once chosen and ready.
    fn do_scream(&mut self)
        requires
            old(self).wf(),
            old(self).player.alive,
            old(self).abilities@[1int].cooldown == 0,
        ensures
            final(self).wf(),
            scream_transition(*old(self), *final(self)),
    {
        self.abilities[1].cooldown = 12;
        let px = self.player.x;
        let py = self.player.y;
        let n = self.entities.len();
        let mut hit: usize = 0;
        let mut i: usize = 0;
        while i < n
            invariant
                old(self).wf(),
                px == old(self).player.x,
                py == old(self).player.y,
                n == self.entities@.len(),
                i <= n,
                hit <= i,
                hit as int == scream_hit_count(*old(self), i as int),
                *self == (Game { entities: self.entities, abilities: self.abilities, ..*old(self) }),
                self.abilities@ == old(self).abilities@.update(
                    1,
                    (AbilityState { cooldown: 12, ..old(self).abilities@[1int] }),
                ),
                self.entities@.len() == old(self).entities@.len(),
                forall|j: int|
                    0 <= j < i ==> #[trigger] self.entities@[j] == (if scream_hits(
                        *old(self),
                        j,
                    ) {
                        let e = old(self).entities@[j];
                        Entity { hp: (e.hp - 6) as i32, alive: e.hp - 6 > 0, ..e }
                    } else {
                        old(self).entities@[j]
                    }),
                forall|j: int| i <= j < n ==> self.entities@[j] == old(self).entities@[j],
            decreases n - i,
        {
            let e = &self.entities[i];
            if e.alive && e.kind.is_enemy() {
                let d = d2_cells(e.x, e.y, px, py);
                if d <= 9 && self.level.visible[e.y as usize][e.x as usize] {
                    let hp0 = self.entities[i].hp;
                    self.entities[i].hp = hp0 - 6;
                    hit = hit + 1;
                    if self.entities[i].hp <= 0 {
                        self.entities[i].alive = false;
                    }
                }
            }
            i = i + 1;
        }

        if hit > 0 {
            let m = msg_num("You scream into the void. ", #[verifier::truncate] (hit as u32), " enemies shattered.");
            self.log_string(m);
            proof {
                if old(self).entities@.len() <= u32::MAX {
                    assert((hit as u32) as int == hit as int);
                }
            }
        } else {
            self.log("Your scream echoes through empty halls.");
        }
    }

    /// The Lethe's Touch effect, once chosen and ready.
    fn do_lethe(&mut self)
        requires
            old(self).wf(),
            old(self).player.alive,
            old(self).abilities@[2int].cooldown == 0,
        ensures
            final(self).wf(),
            lethe_transition(*old(self), *final(self)),
    {
        self.abilities[2].cooldown = 25;
        let gap = self.player.max_hp - self.player.hp;
        let heal = if gap < 15 {
            gap
        } else {
            15
        };
        self.player.hp = self.player.hp + heal;
        let m = msg_num(
            "You touch the waters of Lethe. You forget your pain. +",
            heal as u32,
            " HP.",
        );
        self.log_string(m);
        proof {
            assert(final(self).abilities@ =~= old(self).abilities@.update(
                2,
                (AbilityState { cooldown: 25, ..old(self).abilities@[2int] }),
            ));
        }
    }

    /// Use the ability at the given slot. A slot beyond the set is a
    /// silent no-op; an ability still cooling down only logs the wait;
    /// a ready one takes effect and starts its full cooldown.
    pub fn try_ability(&mut self, idx: usize)
        requires
            old(self).wf(),
            old(self).player.alive,
        ensures
            final(self).wf(),
            ability_rel(*old(self), idx as int, *final(self)),
    {
        if idx >= self.abilities.len() {
            return ;
        }
        if !self.abilities[idx].ready() {
            let cd = self.abilities[idx].cooldown;
            let name = self.abilities[idx].ability.name();
            let m = msg_name_num("", name, " is on cooldown (", cd as u32, " turns).");
            proof {
                reveal_strlit("");
                assert(m@ =~= old(self).abilities@[idx as int].ability.spec_name()
                    + " is on cooldown ("@ + dec_seq(
                    old(self).abilities@[idx as int].cooldown as int,
                ) + " turns)."@);
            }
            self.log_string(m);
            return ;
        }

        let ability = self.abilities[idx].ability;
        match ability {
            Ability::Dash => {
                proof {
                    assert(idx == 0);
                }
                self.do_dash();
            },
            Ability::SpectralScream => {
                proof {
                    assert(idx == 1);
                }
                self.do_scream();
            },
            Ability::LethesTouch => {
                proof {
                    assert(idx == 2);
                }
                self.do_lethe();
            },
        }
    }
}

/// The line logged when an enemy hits the player.
pub open spec fn spec_enemy_strike_msg(name: Seq<char>, dmg: int) -> Seq<char> {
    if dmg > 0 {
        "The "@ + name + " strikes you for "@ + dec_seq(dmg) + " damage!"@
    } else {
        "The "@ + name + " attacks but you shrug it off."@
    }
}

/// One enemy's melee attack on the player, with the variance roll and the
/// special-effect chance roll supplied: the player loses the computed
/// damage and dies exactly when hp reaches 0 (ending the game and
/// recording the killer's name); the attacker's per-kind special effect
/// applies afterward — Lampad may blind, Empusa heals half the damage
/// dealt (at least 1, capped at its max hp), Eurynomos may strip a point
/// of defense.
pub open spec fn enemy_attack_transition(
    pre: Game,
    idx: int,
    roll: int,
    proc: bool,
    post: Game,
) -> bool {
    let e0 = pre.entities@[idx];
    let dmg = spec_damage(e0.attack as int, pre.player.defense as int, roll);
    let name = e0.kind.spec_name();
    let hp1 = pre.player.hp - dmg;
    let blinds = e0.kind == EntityKind::Lampad && proc && pre.blind_turns == 0;
    let drains = e0.kind == EntityKind::Empusa && dmg > 0;
    let strips = e0.kind == EntityKind::Eurynomos && proc && pre.player.defense > 0;
    let drain = if dmg / 2 > 1 {
        dmg / 2
    } else {
        1int
    };
    &&& post == (Game {
        player: post.player,
        entities: post.entities,
        game_over: post.game_over,
        killed_by: post.killed_by,
        blind_turns: post.blind_turns,
        log: post.log,
        ..pre
    })
    &&& post.player == (Entity {
        hp: hp1 as i32,
        alive: hp1 > 0,
        defense: (if strips {
            pre.player.defense - 1
        } else {
            pre.player.defense as int
        }) as i32,
        ..pre.player
    })
    &&& post.blind_turns == (if blinds {
        5int
    } else {
        pre.blind_turns as int
    })
    &&& post.entities@.len() == pre.entities@.len()
    &&& (forall|j: int|
        0 <= j < pre.entities@.len() && j != idx ==> post.entities@[j] == pre.entities@[j])
    &&& post.entities@[idx] == (if drains {
        Entity {
            hp: (if e0.hp + drain <= e0.max_hp {
                e0.hp + drain
            } else {
                e0.max_hp as int
            }) as i32,
            ..e0
        }
    } else {
        e0
    })
    &&& post.game_over == (pre.game_over || hp1 <= 0)
    &&& (hp1 <= 0 ==> post.killed_by@ == name)
    &&& (hp1 > 0 ==> post.killed_by == pre.killed_by)
    &&& (if blinds {
        post_log2(
            pre.log@,
            spec_enemy_strike_msg(name, dmg),
            "The Lampad's torch flares! You are blinded!"@,
            post.log@,
        )
    } else if drains {
        post_log2(
            pre.log@,
            spec_enemy_strike_msg(name, dmg),
            "The Empusa drains your essence! It heals "@ + dec_seq(drain) + "."@,
            post.log@,
        )
    } else if strips {
        post_log2(
            pre.log@,
            spec_enemy_strike_msg(name, dmg),
            "The Eurynomos strips your protection! -1 defense."@,
            post.log@,
        )
    } else {
        post_log1(pre.log@, spec_enemy_strike_msg(name, dmg), post.log@)
    })
}

/// The candidate step (mdx, mdy) is open for the chasing enemy at index
/// i: a real step to a walkable in-bounds cell not taken by another
/// living enemy and not the player's cell.
pub open spec fn chase_cand_ok(g: Game, i: int, mdx: int, mdy: int) -> bool {
    let e = g.entities@[i];
    let nx = e.x + mdx;
    let ny = e.y + mdy;
    &&& !(mdx == 0 && mdy == 0)
    &&& in_grid(nx, ny)
    &&& walk_at(g.level.tiles@, nx, ny)
    &&& !(exists|j: int|
        0 <= j < g.entities@.len() && j != i && enemy_at(#[trigger] g.entities@[j], nx, ny))
    &&& !(nx == g.player.x && ny == g.player.y)
}

/// Where a chasing enemy ends up: the first open candidate among axis
/// steps and the diagonal, in an order decided by the tie-break flag, or
/// its own cell when all three are blocked.
pub open spec fn chase_dest(g: Game, i: int, flip: bool) -> (int, int) {
    let e = g.entities@[i];
    let dx = sgn(g.player.x - e.x);
    let dy = sgn(g.player.y - e.y);
    let c1 = if flip {
        (dx, 0int)
    } else {
        (0int, dy)
    };
    let c2 = if flip {
        (0int, dy)
    } else {
        (dx, 0int)
    };
    if chase_cand_ok(g, i, c1.0, c1.1) {
        (e.x + c1.0, e.y + c1.1)
    } else if chase_cand_ok(g, i, c2.0, c2.1) {
        (e.x + c2.0, e.y + c2.1)
    } else if chase_cand_ok(g, i, dx, dy) {
        (e.x + dx, e.y + dy)
    } else {
        (e.x as int, e.y as int)
    }
}

/// One chase move: entity i steps to its chase destination (possibly its
/// own cell); nothing else changes.
pub open spec fn chase_transition(pre: Game, i: int, flip: bool, post: Game) -> bool {
    &&& post == (Game { entities: post.entities, ..pre })
    &&& post.entities@.len() == pre.entities@.len()
    &&& (forall|j: int|
        0 <= j < pre.entities@.len() && j != i ==> post.entities@[j] == pre.entities@[j])
    &&& post.entities@[i] == (Entity {
        x: chase_dest(pre, i, flip).0 as i32,
        y: chase_dest(pre, i, flip).1 as i32,
        ..pre.entities@[i]
    })
}

/// Manhattan distance between two cells.
pub open spec fn manhattan(ax: int, ay: int, bx: int, by: int) -> int {
    (if ax >= bx {
        ax - bx
    } else {
        bx - ax
    }) + (if ay >= by {
        ay - by
    } else {
        by - ay
    })
}

/// What one slot of the enemy phase does. Once the game has ended, or for
/// a slot holding anything but a living enemy on a currently visible
/// cell, the state is unchanged. A visible living enemy attacks when
/// orthogonally adjacent (for some variance and special-effect rolls),
/// takes one greedy chase step when within the aggro radius (for some
/// tie-break flag), and does nothing from further away.
pub open spec fn enemy_step(pre: Game, i: int, post: Game) -> bool {
    let e = pre.entities@[i];
    let dist = manhattan(e.x as int, e.y as int, pre.player.x as int, pre.player.y as int);
    if pre.game_over {
        post == pre
    } else if !(e.alive && e.kind.spec_is_enemy() && flag_at(
        pre.level.visible@,
        e.x as int,
        e.y as int,
    )) {
        post == pre
    } else if dist <= 1 {
        exists|roll: int, proc: bool|
            -1 <= roll <= 2 && #[trigger] enemy_attack_transition(pre, i, roll, proc, post)
    } else if dist < 8 {
        exists|flip: bool| #[trigger] chase_transition(pre, i, flip, post)
    } else {
        post == pre
    }
}

/// The enemy phase as a fold of per-slot steps: states[i] is the state
/// before slot i acts, and each slot performs exactly its `enemy_step`.
pub open spec fn enemy_phase_rel(pre: Game, post: Game, states: Seq<Game>) -> bool {
    &&& states.len() == pre.entities@.len() + 1
    &&& states[0] == pre
    &&& states[states.len() - 1] == post
    &&& forall|i: int|
        0 <= i < pre.entities@.len() ==> enemy_step(#[trigger] states[i], i, states[i + 1])
}

impl Game {
    /// Whether a living enemy other than entity i stands at (nx, ny).
    fn enemy_blocked(&self, i: usize, nx: i32, ny: i32) -> (r: bool)
        ensures
            r == exists|j: int|
                0 <= j < self.entities@.len() && j != i && enemy_at(
                    #[trigger] self.entities@[j],
                    nx as int,
                    ny as int,
                ),
    {
        let n = self.entities.len();
        let mut j: usize = 0;
        while j < n
            invariant
                n == self.entities@.len(),
                j <= n,
                forall|k: int|
                    0 <= k < j && k != i ==> !enemy_at(
                        #[trigger] self.entities@[k],
                        nx as int,
                        ny as int,
                    ),
            decreases n - j,
        {
            if j != i {
                let e = &self.entities[j];
                if e.x == nx && e.y == ny && e.alive && e.kind.is_enemy() {
                    return true;
                }
            }
            j = j + 1;
        }
        false
    }

    /// Whether the candidate step is open for the enemy at index i.
    fn cand_ok(&self, i: usize, mdx: i32, mdy: i32) -> (r: bool)
        requires
            self.wf(),
            i < self.entities@.len(),
            -1 <= mdx <= 1,
            -1 <= mdy <= 1,
        ensures
            r == chase_cand_ok(*self, i as int, mdx as int, mdy as int),
    {
        if mdx == 0 && mdy == 0 {
            return false;
        }
        let nx = self.entities[i].x + mdx;
        let ny = self.entities[i].y + mdy;
        if !self.level.in_bounds(nx, ny) {
            return false;
        }
        if !self.level.tiles[ny as usize][nx as usize].walkable() {
            return false;
        }
        if self.enemy_blocked(i, nx, ny) {
            return false;
        }
        if nx == self.player.x && ny == self.player.y {
            return false;
        }
        true
    }

    /// Advance the chasing enemy at index i one greedy step toward the
    /// player, if any candidate step is open; nothing else changes.
    pub fn enemy_chase(&mut self, i: usize, flip: bool)
        requires
            old(self).wf(),
            i < old(self).entities@.len(),
            old(self).entities@[i as int].alive,
            old(self).entities@[i as int].kind.spec_is_enemy(),
        ensures
            final(self).wf(),
            chase_transition(*old(self), i as int, flip, *final(self)),
    {
        let ex = self.entities[i].x;
        let ey = self.entities[i].y;
        let px = self.player.x;
        let py = self.player.y;
        let dx: i32 = if px > ex {
            1
        } else if px < ex {
            -1
        } else {
            0
        };
        let dy: i32 = if py > ey {
            1
        } else if py < ey {
            -1
        } else {
            0
        };
        let (c1x, c1y) = if flip {
            (dx, 0)
        } else {
            (0, dy)
        };
        let (c2x, c2y) = if flip {
            (0, dy)
        } else {
            (dx, 0)
        };

        if self.cand_ok(i, c1x, c1y) {
            self.entities[i].x = ex + c1x;
            self.entities[i].y = ey + c1y;
        } else if self.cand_ok(i, c2x, c2y) {
            self.entities[i].x = ex + c2x;
            self.entities[i].y = ey + c2y;
        } else if self.cand_ok(i, dx, dy) {
            self.entities[i].x = ex + dx;
            self.entities[i].y = ey + dy;
        }
    }

    /// Resolve the adjacent enemy's attack on the player, with both rolls
    /// supplied by the caller.
    pub fn enemy_attack(&mut self, idx: usize, roll: i32, proc: bool)
        requires
            old(self).wf(),
            idx < old(self).entities@.len(),
            old(self).entities@[idx as int].alive,
            old(self).entities@[idx as int].kind.spec_is_enemy(),
            old(self).player.alive,
            !old(self).game_over,
            -1 <= roll <= 2,
        ensures
            final(self).wf(),
            enemy_attack_transition(*old(self), idx as int, roll as int, proc, *final(self)),
    {
        let e0 = self.entities[idx];
        let atk = e0.attack;
        let def = self.player.defense;
        let diff = atk - def + roll;
        let damage = if diff > 0 {
            diff
        } else {
            0
        };
        let name = e0.kind.name();

        if damage > 0 {
            self.player.hp = self.player.hp - damage;
            let m = msg_name_num("The ", name, " strikes you for ", damage as u32, " damage!");
            self.log_string(m);
        } else {
            let m = msg_name("The ", name, " attacks but you shrug it off.");
            self.log_string(m);
        }
        let ghost l1 = self.log@;
        let ghost main_msg = spec_enemy_strike_msg(e0.kind.spec_name(), damage as int);

        match e0.kind {
            EntityKind::Lampad => {
                if proc && self.blind_turns == 0 {
                    self.blind_turns = 5;
                    self.log("The Lampad's torch flares! You are blinded!");
                    proof {
                        lemma_log2(
                            old(self).log@,
                            main_msg,
                            "The Lampad's torch flares! You are blinded!"@,
                            l1,
                            self.log@,
                        );
                    }
                }
            },
            EntityKind::Empusa => {
                if damage > 0 {
                    let half: u32 = (damage as u32) / 2;
                    let drain: i32 = if half < 1 {
                        1
                    } else {
                        half as i32
                    };
                    let nh = self.entities[idx].hp + drain;
                    let capped = if nh <= self.entities[idx].max_hp {
                        nh
                    } else {
                        self.entities[idx].max_hp
                    };
                    self.entities[idx].hp = capped;
                    let m = msg_num("The Empusa drains your essence! It heals ", drain as u32, ".");
                    self.log_string(m);
                    proof {
                        lemma_log2(
                            old(self).log@,
                            main_msg,
                            "The Empusa drains your essence! It heals "@ + dec_seq(drain as int)
                                + "."@,
                            l1,
                            self.log@,
                        );
                    }
                }
            },
            EntityKind::Eurynomos => {
                if proc && self.player.defense > 0 {
                    self.player.defense = self.player.defense - 1;
                    self.log("The Eurynomos strips your protection! -1 defense.");
                    proof {
                        lemma_log2(
                            old(self).log@,
                            main_msg,
                            "The Eurynomos strips your protection! -1 defense."@,
                            l1,
                            self.log@,
                        );
                    }
                }
            },
            _ => {},
        }

        if self.player.hp <= 0 {
            self.player.alive = false;
            self.game_over = true;
            self.killed_by = name.to_owned();
        }
    }

    /// The enemy phase: every living enemy standing on a currently
    /// visible cell acts — attacking when adjacent (Manhattan distance at
    /// most 1), chasing when within the aggro radius — until the phase
    /// ends or the player falls.
    pub fn enemy_turns(&mut self, rng: &mut GameRng)
        requires
            old(self).wf(),
            old(self).player.alive,
            !old(self).game_over,
        ensures
            final(self).wf(),
            *final(self) == (Game {
                player: final(self).player,
                entities: final(self).entities,
                game_over: final(self).game_over,
                killed_by: final(self).killed_by,
                blind_turns: final(self).blind_turns,
                log: final(self).log,
                ..*old(self)
            }),
            final(self).player.x == old(self).player.x,
            final(self).player.y == old(self).player.y,
            final(self).player.hp <= old(self).player.hp,
            final(self).player.defense <= old(self).player.defense,
            final(self).player.max_hp == old(self).player.max_hp,
            final(self).player.attack == old(self).player.attack,
            final(self).player.strength_turns == old(self).player.strength_turns,
            final(self).blind_turns == old(self).blind_turns || (old(self).blind_turns == 0
                && final(self).blind_turns == 5),
            final(self).entities@.len() == old(self).entities@.len(),
            forall|j: int|
                0 <= j < old(self).entities@.len() && (#[trigger] old(
                    self,
                ).entities@[j]).kind.spec_is_item() ==> final(self).entities@[j] == old(
                    self,
                ).entities@[j],
            forall|j: int|
                0 <= j < old(self).entities@.len() && !(#[trigger] old(self).entities@[j]).alive
                    ==> !final(self).entities@[j].alive,
            final(self).game_over == (final(self).player.hp <= 0),
            exists|states: Seq<Game>| enemy_phase_rel(*old(self), *final(self), states),
            forall|j: int|
                0 <= j < old(self).entities@.len() && (#[trigger] old(self).entities@[j]).alive
                    && old(self).entities@[j].kind.spec_is_enemy() && !flag_at(
                    old(self).level.visible@,
                    old(self).entities@[j].x as int,
                    old(self).entities@[j].y as int,
                ) ==> final(self).entities@[j] == old(self).entities@[j],
    {
        let px = self.player.x;
        let py = self.player.y;
        let n = self.entities.len();
        let ghost mut sts: Seq<Game> = seq![*old(self)];
        let mut i: usize = 0;
        while i < n
            invariant
                old(self).wf(),
                old(self).player.alive,
                !old(self).game_over,
                self.wf(),
                px == old(self).player.x,
                py == old(self).player.y,
                n == self.entities@.len(),
                i <= n,
                *self == (Game {
                    player: self.player,
                    entities: self.entities,
                    game_over: self.game_over,
                    killed_by: self.killed_by,
                    blind_turns: self.blind_turns,
                    log: self.log,
                    ..*old(self)
                }),
                self.player.x == old(self).player.x,
                self.player.y == old(self).player.y,
                self.player.hp <= old(self).player.hp,
                self.player.defense <= old(self).player.defense,
                self.player.max_hp == old(self).player.max_hp,
                self.player.attack == old(self).player.attack,
                self.player.strength_turns == old(self).player.strength_turns,
                self.blind_turns == old(self).blind_turns || (old(self).blind_turns == 0
                    && self.blind_turns == 5),
                self.entities@.len() == old(self).entities@.len(),
                forall|j: int|
                    0 <= j < old(self).entities@.len() && (#[trigger] old(
                        self,
                    ).entities@[j]).kind.spec_is_item() ==> self.entities@[j] == old(
                        self,
                    ).entities@[j],
                forall|j: int|
                    0 <= j < old(self).entities@.len() && !(#[trigger] old(self).entities@[j]).alive
                        ==> !self.entities@[j].alive,
                self.game_over == (self.player.hp <= 0),
                sts.len() == i + 1,
                sts[0] == *old(self),
                sts[i as int] == *self,
                forall|j: int| 0 <= j < i ==> enemy_step(#[trigger] sts[j], j, sts[j + 1]),
                forall|j: int|
                    0 <= j < old(self).entities@.len() && (#[trigger] old(
                        self,
                    ).entities@[j]).alive && old(self).entities@[j].kind.spec_is_enemy()
                        && !flag_at(
                        old(self).level.visible@,
                        old(self).entities@[j].x as int,
                        old(self).entities@[j].y as int,
                    ) ==> self.entities@[j] == old(self).entities@[j],
            decreases n - i,
        {
            let ghost pre_step = *self;
            if !self.game_over {
                let e = &self.entities[i];
                if e.alive && e.kind.is_enemy() && self.level.visible[e.y as usize][e.x as usize] {
                    let adx = if e.x > px {
                        e.x - px
                    } else {
                        px - e.x
                    };
                    let ady = if e.y > py {
                        e.y - py
                    } else {
                        py - e.y
                    };
                    let dist = adx + ady;
                    if dist <= 1 {
                        let roll = rng.range_i32(-1, 2);
                        let kind = self.entities[i].kind;
                        let proc = match kind {
                            EntityKind::Lampad => rng.ratio(1, 4),
                            EntityKind::Eurynomos => rng.ratio(1, 5),
                            _ => false,
                        };
                        self.enemy_attack(i, roll, proc);
                        proof {
                            assert(enemy_attack_transition(
                                pre_step,
                                i as int,
                                roll as int,
                                proc,
                                *self,
                            ));
                        }
                    } else if dist < 8 {
                        let flip = rng.ratio(1, 2);
                        self.enemy_chase(i, flip);
                        proof {
                            assert(chase_transition(pre_step, i as int, flip, *self));
                        }
                    }
                }
            }
            proof {
                assert(enemy_step(pre_step, i as int, *self));
                sts = sts.push(*self);
            }
            i = i + 1;
        }
        proof {
            assert(enemy_phase_rel(*old(self), *self, sts));
        }
    }
}

/// A freshly spawned entity satisfies the engine's entity invariant for
/// any reachable depth.
proof fn lemma_spawned_entity_ok(e: Entity, room: Rect, depth: int, tiles: Seq<Vec<Tile>>)
    requires
        spawned_ok(e, room, depth, tiles),
        1 <= depth <= MAX_DEPTH,
    ensures
        entity_ok(e),
        e.alive,
{
    if e.kind.spec_is_enemy() {
        lemma_scaled_bounds(8, depth);
        lemma_scaled_bounds(14, depth);
        lemma_scaled_bounds(20, depth);
        lemma_scaled_bounds(25, depth);
        lemma_scaled_bounds(2, depth);
        lemma_scaled_bounds(4, depth);
        lemma_scaled_bounds(6, depth);
        lemma_scaled_bounds(1, depth);
        lemma_scaled_bounds(3, depth);
    }
}

/// The entity was produced by the spawn table for this level: it sits in
/// one of the rooms after the first, consistent with that room and the
/// depth.
pub open spec fn from_spawn_table(e: Entity, lv: Level, depth: int) -> bool {
    exists|r: int|
        1 <= r < lv.rooms@.len() && spawned_ok(e, #[trigger] lv.rooms@[r], depth, lv.tiles@)
}

/// A fresh level with its population: every entity spawned consistent,
/// and a shrine placed in the middle room when asked for and the level
/// has more than three rooms.
fn spawn_level(depth: u32, place_shrine: bool, rng: &mut GameRng) -> (r: (
    Level,
    Vec<Entity>,
    Vec<Shrine>,
))
    requires
        1 <= depth <= MAX_DEPTH,
    ensures
        ({
            let (lv, ents, shr) = r;
            &&& lv.wf()
            &&& lv.depth == depth
            &&& lv.rooms@.len() >= 1
            &&& forall|x: int, y: int| in_grid(x, y) ==> !#[trigger] flag_at(lv.visible@, x, y)
            &&& forall|x: int, y: int| in_grid(x, y) ==> !#[trigger] flag_at(lv.revealed@, x, y)
            &&& forall|j: int|
                0 <= j < ents@.len() ==> entity_ok(#[trigger] ents@[j]) && ents@[j].alive
            &&& forall|j: int|
                0 <= j < ents@.len() ==> from_spawn_table(#[trigger] ents@[j], lv, depth as int)
            &&& (if place_shrine && lv.rooms@.len() > 3 {
                &&& shr@.len() == 1
                &&& shr@[0].wf()
                &&& !shr@[0].used
                &&& (shr@[0].x as int, shr@[0].y as int) == lv.rooms@[lv.rooms@.len() as int
                    / 2].spec_center()
            } else {
                shr@.len() == 0
            })
        }),
{
    let lv = Level::new(depth, rng);
    let mut ents: Vec<Entity> = Vec::new();
    let nrooms = lv.rooms.len();
    let mut k: usize = 1;
    while k < nrooms
        invariant
            1 <= depth <= MAX_DEPTH,
            lv.wf(),
            nrooms == lv.rooms@.len(),
            1 <= k,
            forall|j: int| 0 <= j < ents@.len() ==> entity_ok(#[trigger] ents@[j]) && ents@[j].alive,
            forall|j: int|
                0 <= j < ents@.len() ==> from_spawn_table(#[trigger] ents@[j], lv, depth as int),
        decreases nrooms - k,
    {
        let room = lv.rooms[k];
        let ghost pre = ents@;
        populate_room(&room, depth, &mut ents, &lv, rng);
        proof {
            assert forall|j: int| 0 <= j < ents@.len() implies entity_ok(#[trigger] ents@[j])
                && ents@[j].alive && from_spawn_table(ents@[j], lv, depth as int) by {
                if j >= pre.len() {
                    lemma_spawned_entity_ok(ents@[j], room, depth as int, lv.tiles@);
                    assert(spawned_ok(ents@[j], lv.rooms@[k as int], depth as int, lv.tiles@));
                }
            }
        }
        k = k + 1;
    }

    let mut shr: Vec<Shrine> = Vec::new();
    if place_shrine && nrooms > 3 {
        let mid = nrooms / 2;
        let room = lv.rooms[mid];
        proof {
            room.lemma_center_inside();
        }
        let (sx, sy) = room.center();
        shr.push(Shrine::new(sx as i32, sy as i32, rng));
    }
    (lv, ents, shr)
}


/// The Move dispatch: a blocked step changes nothing; a living enemy on
/// the target cell is attacked with some variance roll; otherwise the
/// player steps onto the cell.
pub open spec fn move_rel(pre: Game, dx: int, dy: int, post: Game) -> bool {
    let nx = pre.player.x + dx;
    let ny = pre.player.y + dy;
    if !in_grid(nx, ny) || !walk_at(pre.level.tiles@, nx, ny) {
        post == pre
    } else if exists|i: int| is_first_enemy_at(pre.entities@, nx, ny, i) {
        exists|i: int, roll: int|
            is_first_enemy_at(pre.entities@, nx, ny, i) && -1 <= roll <= 2 && attack_transition(
                pre,
                i,
                roll,
                post,
            )
    } else {
        post == (Game { player: (Entity { x: nx as i32, y: ny as i32, ..pre.player }), ..pre })
    }
}

/// The Pickup dispatch: the first present item underfoot is consumed, or
/// only a line is logged.
pub open spec fn pickup_rel(pre: Game, post: Game) -> bool {
    let px = pre.player.x as int;
    let py = pre.player.y as int;
    if exists|i: int| is_first_item_at(pre.entities@, px, py, i) {
        exists|i: int| is_first_item_at(pre.entities@, px, py, i) && pickup_transition(pre, i, post)
    } else {
        &&& post == (Game { log: post.log, ..pre })
        &&& post_log1(pre.log@, "Nothing to pick up here."@, post.log@)
    }
}

/// The Interact dispatch: an unused shrine underfoot opens the prompt
/// with its two boons presented, or only a line is logged.
pub open spec fn interact_rel(pre: Game, post: Game) -> bool {
    let px = pre.player.x as int;
    let py = pre.player.y as int;
    if exists|i: int| is_first_shrine_at(pre.shrines@, px, py, i) {
        exists|i: int|
            is_first_shrine_at(pre.shrines@, px, py, i) && ({
                let s = pre.shrines@[i];
                &&& post == (Game { shrine_prompt: Some(i as usize), log: post.log, ..pre })
                &&& post_log3(
                    pre.log@,
                    "A shrine of grey stone. Choose your blessing:"@,
                    "[A] "@ + s.boon_a.spec_name() + " - "@ + s.boon_a.spec_description(),
                    "[B] "@ + s.boon_b.spec_name() + " - "@ + s.boon_b.spec_description(),
                    post.log@,
                )
            })
    } else {
        &&& post == (Game { log: post.log, ..pre })
        &&& post_log1(pre.log@, "Nothing to interact with here."@, post.log@)
    }
}

/// The Descend dispatch: no stairs is a logged no-op; at the maximum
/// depth the game ends in victory with nothing else changed; otherwise
/// the depth advances, a capped heal applies, and the world below the
/// player is rebuilt with visibility recomputed at the new position.
pub open spec fn descend_rel(pre: Game, post: Game) -> bool {
    let px = pre.player.x as int;
    let py = pre.player.y as int;
    let heal = if pre.player.max_hp - pre.player.hp < 5 {
        pre.player.max_hp - pre.player.hp
    } else {
        5int
    };
    if pre.level.tiles@[py]@[px] != Tile::Stair {
        &&& post == (Game { log: post.log, ..pre })
        &&& post_log1(pre.log@, "There are no stairs here."@, post.log@)
    } else if pre.depth >= MAX_DEPTH {
        post == (Game { game_over: true, victory: true, ..pre })
    } else {
        &&& post == (Game {
            level: post.level,
            player: post.player,
            entities: post.entities,
            shrines: post.shrines,
            depth: post.depth,
            log: post.log,
            ..pre
        })
        &&& post.depth == pre.depth + 1
        &&& post.level.wf()
        &&& post.level.depth == post.depth
        &&& post.player == (Entity {
            x: post.player.x,
            y: post.player.y,
            hp: (pre.player.hp + heal) as i32,
            ..pre.player
        })
        &&& (post.player.x as int, post.player.y as int) == post.level.spec_first_center()
        &&& (forall|j: int| 0 <= j < post.entities@.len() ==> (#[trigger] post.entities@[j]).alive)
        &&& (forall|j: int|
            0 <= j < post.entities@.len() ==> from_spawn_table(
                #[trigger] post.entities@[j],
                post.level,
                post.depth as int,
            ))
        &&& flag_at(post.level.visible@, post.player.x as int, post.player.y as int)
        &&& (forall|x: int, y: int|
            in_grid(x, y) && #[trigger] flag_at(post.level.visible@, x, y) ==> dist2(
                x,
                y,
                post.player.x as int,
                post.player.y as int,
            ) <= post.spec_effective_fov() * post.spec_effective_fov())
        &&& (if post.depth % 2 == 0 && post.level.rooms@.len() > 3 {
            post.shrines@.len() == 1 && !post.shrines@[0].used
        } else {
            post.shrines@.len() == 0
        })
        &&& (if heal > 0 {
            post_log2(
                pre.log@,
                "The descent restores you slightly. +"@ + dec_seq(heal) + " HP."@,
                "You descend deeper into the meadows. Depth "@ + dec_seq(pre.depth + 1) + "."@,
                post.log@,
            )
        } else {
            post_log1(
                pre.log@,
                "You descend deeper into the meadows. Depth "@ + dec_seq(pre.depth + 1) + "."@,
                post.log@,
            )
        })
    }
}

/// The UseAbility dispatch: a slot beyond the set is a silent no-op; a
/// cooling ability only logs the wait; a ready one takes its effect.
pub open spec fn ability_rel(pre: Game, idx: int, post: Game) -> bool {
    if idx < 0 || idx >= 3 {
        post == pre
    } else if pre.abilities@[idx].cooldown > 0 {
        &&& post == (Game { log: post.log, ..pre })
        &&& post_log1(
            pre.log@,
            pre.abilities@[idx].ability.spec_name() + " is on cooldown ("@ + dec_seq(
                pre.abilities@[idx].cooldown as int,
            ) + " turns)."@,
            post.log@,
        )
    } else if idx == 0 {
        &&& ((!exists|i: int| visible_enemy(pre, i)) ==> dash_transition(pre, (1int, 0int), post))
        &&& ((exists|i: int| visible_enemy(pre, i)) ==> exists|i: int|
            is_nearest_visible_enemy(pre, i))
        &&& (forall|i: int|
            is_nearest_visible_enemy(pre, i) ==> dash_transition(pre, away_dir(pre, i), post))
    } else if idx == 1 {
        scream_transition(pre, post)
    } else {
        lethe_transition(pre, post)
    }
}

/// Step 1 of a turn: the dispatched action.
pub open spec fn dispatch_rel(pre: Game, action: Action, post: Game) -> bool {
    match action {
        Action::Move(dx, dy) => move_rel(pre, dx as int, dy as int, post),
        Action::Wait => {
            &&& post == (Game { log: post.log, ..pre })
            &&& post_log1(pre.log@, "You wait. The meadows don't care."@, post.log@)
        },
        Action::Pickup => pickup_rel(pre, post),
        Action::Descend => descend_rel(pre, post),
        Action::Interact => interact_rel(pre, post),
        Action::UseAbility(idx) => ability_rel(pre, idx as int, post),
    }
}

/// Step 2 of a turn: both timed counters drop toward 0, with the expiry
/// line logged exactly on a transition from 1 to 0.
pub open spec fn buff_tick_rel(pre: Game, post: Game) -> bool {
    let st = if pre.player.strength_turns > 0 {
        pre.player.strength_turns - 1
    } else {
        0int
    };
    let bt = if pre.blind_turns > 0 {
        pre.blind_turns - 1
    } else {
        0int
    };
    &&& post == (Game { player: post.player, blind_turns: post.blind_turns, log: post.log, ..pre })
    &&& post.player == (Entity { strength_turns: st as i32, ..pre.player })
    &&& post.blind_turns == bt
    &&& (if pre.player.strength_turns == 1 && pre.blind_turns == 1 {
        post_log2(pre.log@, "The moly's power fades."@, "Your vision clears."@, post.log@)
    } else if pre.player.strength_turns == 1 {
        post_log1(pre.log@, "The moly's power fades."@, post.log@)
    } else if pre.blind_turns == 1 {
        post_log1(pre.log@, "Your vision clears."@, post.log@)
    } else {
        post.log == pre.log
    })
}

/// Step 3 of a turn: every tracked cooldown drops once, never below 0.
pub open spec fn cooldown_tick_rel(pre: Game, post: Game) -> bool {
    &&& post == (Game { abilities: post.abilities, ..pre })
    &&& post.abilities@.len() == pre.abilities@.len()
    &&& forall|i: int|
        0 <= i < pre.abilities@.len() ==> post.abilities@[i] == (AbilityState {
            cooldown: (if (#[trigger] pre.abilities@[i]).cooldown > 0 {
                pre.abilities@[i].cooldown - 1
            } else {
                0int
            }) as i32,
            ..pre.abilities@[i]
        })
}

/// Step 4 of a turn: the enemy phase, skipped once the game has ended.
pub open spec fn phase_rel(pre: Game, post: Game) -> bool {
    if pre.game_over {
        post == pre
    } else {
        exists|states: Seq<Game>| enemy_phase_rel(pre, post, states)
    }
}

/// Step 5 of a turn: the turn counter advances (held at the type limit).
pub open spec fn turn_count_rel(pre: Game, post: Game) -> bool {
    post == (Game {
        turns: (if pre.turns < u32::MAX {
            pre.turns + 1
        } else {
            pre.turns as int
        }) as u32,
        ..pre
    })
}

/// Step 6 of a turn: visibility is recomputed at the player's position
/// with the effective radius; only the level's overlays change.
pub open spec fn fov_refresh_rel(pre: Game, post: Game) -> bool {
    &&& post == (Game { level: post.level, ..pre })
    &&& post.level.tiles == pre.level.tiles
    &&& post.level.rooms == pre.level.rooms
    &&& post.level.depth == pre.level.depth
    &&& fov_post(
        pre.level,
        post.level,
        pre.player.x as int,
        pre.player.y as int,
        pre.spec_effective_fov(),
    )
}

impl Game {
    /// A fresh session at depth 1: a generated level, the player at the
    /// first room's center with base stats, the level populated, possibly
    /// one shrine, the full ability set ready, and visibility computed.
    pub fn new(rng: &mut GameRng) -> (g: Game)
        ensures
            g.wf(),
            g.depth == 1,
            g.turns == 0,
            g.obols == 0,
            !g.game_over,
            !g.victory,
            g.log@.len() == 0,
            g.fov_radius == 8,
            g.blind_turns == 0,
            g.shrine_prompt is None,
            g.player.hp == 40 && g.player.max_hp == 40 && g.player.attack == 5
                && g.player.defense == 3 && g.player.alive && g.player.strength_turns == 0,
            (g.player.x as int, g.player.y as int) == g.level.spec_first_center(),
            g.killed_by@ == ""@,
            g.abilities@.len() == 3 && (forall|i: int|
                0 <= i < 3 ==> (#[trigger] g.abilities@[i]).cooldown == 0),
            forall|j: int| 0 <= j < g.entities@.len() ==> (#[trigger] g.entities@[j]).alive,
            forall|j: int|
                0 <= j < g.entities@.len() ==> from_spawn_table(
                    #[trigger] g.entities@[j],
                    g.level,
                    1,
                ),
            flag_at(g.level.visible@, g.player.x as int, g.player.y as int),
    {
        let (lv, ents, shr) = spawn_level(1, true, rng);
        proof {
            lv.rooms@[0].lemma_center_inside();
        }
        let (px, py) = lv.rooms[0].center();
        let player = Entity::player(px as i32, py as i32);

        let mut abilities: Vec<AbilityState> = Vec::new();
        abilities.push(AbilityState::new(Ability::Dash));
        abilities.push(AbilityState::new(Ability::SpectralScream));
        abilities.push(AbilityState::new(Ability::LethesTouch));

        let mut g = Game {
            level: lv,
            player,
            entities: ents,
            shrines: shr,
            log: Vec::new(),
            depth: 1,
            obols: 0,
            turns: 0,
            game_over: false,
            victory: false,
            killed_by: "".to_owned(),
            abilities,
            fov_radius: 8,
            shrine_prompt: None,
            blind_turns: 0,
        };
        compute_fov(&mut g.level, g.player.x, g.player.y, g.fov_radius);
        g
    }

    /// Descend the stairs under the player: from the maximum depth this
    /// is victory and nothing else changes; otherwise the depth advances,
    /// a small capped heal applies, and the whole world below the player
    /// is rebuilt. Without stairs underfoot, only a log line is added.
    pub fn try_descend(&mut self, rng: &mut GameRng)
        requires
            old(self).wf(),
            old(self).player.alive,
            !old(self).game_over,
            old(self).shrine_prompt is None,
        ensures
            final(self).wf(),
            descend_rel(*old(self), *final(self)),
    {
        let px = self.player.x as usize;
        let py = self.player.y as usize;

        if !(self.level.tiles[py][px] == Tile::Stair) {
            self.log("There are no stairs here.");
            return ;
        }

        if self.depth >= MAX_DEPTH {
            self.game_over = true;
            self.victory = true;
            return ;
        }

        self.depth = self.depth + 1;
        let gap = self.player.max_hp - self.player.hp;
        let heal = if gap < 5 {
            gap
        } else {
            5
        };
        if heal > 0 {
            self.player.hp = self.player.hp + heal;
            let m = msg_num("The descent restores you slightly. +", heal as u32, " HP.");
            self.log_string(m);
        }
        let ghost l1 = self.log@;
        let m2 = msg_num("You descend deeper into the meadows. Depth ", self.depth, ".");
        self.log_string(m2);
        proof {
            if heal > 0 {
                lemma_log2(
                    old(self).log@,
                    "The descent restores you slightly. +"@ + dec_seq(heal as int) + " HP."@,
                    "You descend deeper into the meadows. Depth "@ + dec_seq(old(self).depth + 1)
                        + "."@,
                    l1,
                    self.log@,
                );
            }
        }

        let (lv, ents, shr) = spawn_level(self.depth, self.depth % 2 == 0, rng);
        self.level = lv;
        self.entities = ents;
        self.shrines = shr;
        proof {
            self.level.rooms@[0].lemma_center_inside();
        }
        let (cx, cy) = self.level.rooms[0].center();
        self.player.x = cx as i32;
        self.player.y = cy as i32;

        let fov = self.effective_fov();
        compute_fov(&mut self.level, self.player.x, self.player.y, fov);
    }

    /// Resolve one full turn for the given action, in the fixed order:
    /// dispatch, buff ticks (with expiry lines exactly on the transition
    /// to 0), cooldown ticks, the enemy phase (skipped once the game has
    /// ended), the turn counter, and a fresh visibility computation at
    /// the player's position with the effective radius. A finished game,
    /// or a pending shrine prompt, defers the action entirely.
    #[verifier::rlimit(60)]
    pub fn player_action(&mut self, action: Action, rng: &mut GameRng)
        requires
            old(self).wf(),
            action matches Action::Move(dx, dy) ==> -1 <= dx <= 1 && -1 <= dy <= 1,
        ensures
            final(self).wf(),
            old(self).game_over ==> *final(self) == *old(self),
            old(self).shrine_prompt is Some ==> *final(self) == *old(self),
            !old(self).game_over && old(self).shrine_prompt is None ==> {
                &&& (exists|s1: Game, s2: Game, s3: Game, s4: Game, s5: Game|
                    #![trigger dispatch_rel(*old(self), action, s1), buff_tick_rel(s1, s2), cooldown_tick_rel(s2, s3), phase_rel(s3, s4), turn_count_rel(s4, s5)]
                    dispatch_rel(*old(self), action, s1) && buff_tick_rel(s1, s2)
                        && cooldown_tick_rel(s2, s3) && phase_rel(s3, s4) && turn_count_rel(s4, s5)
                        && fov_refresh_rel(s5, *final(self)))
                &&& (old(self).turns < u32::MAX ==> final(self).turns == old(self).turns + 1)
                &&& (forall|x: int, y: int|
                    in_grid(x, y) && #[trigger] flag_at(final(self).level.visible@, x, y)
                        ==> dist2(x, y, final(self).player.x as int, final(self).player.y as int)
                        <= final(self).spec_effective_fov() * final(self).spec_effective_fov())
                &&& flag_at(
                    final(self).level.visible@,
                    final(self).player.x as int,
                    final(self).player.y as int,
                )
                &&& (action != Action::Descend ==> {
                    &&& final(self).victory == old(self).victory
                    &&& final(self).entities@.len() == old(self).entities@.len()
                    &&& (forall|j: int|
                        0 <= j < old(self).entities@.len() && !(#[trigger] old(
                            self,
                        ).entities@[j]).alive ==> !final(self).entities@[j].alive)
                    &&& (forall|x: int, y: int|
                        in_grid(x, y) && #[trigger] flag_at(old(self).level.revealed@, x, y)
                            ==> flag_at(final(self).level.revealed@, x, y))
                })
                &&& (action == Action::Wait ==> {
                    &&& final(self).player.x == old(self).player.x
                    &&& final(self).player.y == old(self).player.y
                    &&& final(self).player.strength_turns == (if old(
                        self,
                    ).player.strength_turns > 0 {
                        old(self).player.strength_turns - 1
                    } else {
                        0int
                    })
                    &&& final(self).depth == old(self).depth
                    &&& final(self).obols == old(self).obols
                    &&& ({
                        let ticked = if old(self).blind_turns > 0 {
                            old(self).blind_turns - 1
                        } else {
                            0int
                        };
                        final(self).blind_turns == ticked || (ticked == 0 && final(self).blind_turns == 5)
                    })
                })
            },
    {
        if self.game_over {
            return ;
        }
        if self.shrine_prompt.is_some() {
            return ;
        }

        match action {
            Action::Move(dx, dy) => self.try_move(dx, dy, rng),
            Action::Wait => self.log("You wait. The meadows don't care."),
            Action::Pickup => self.try_pickup(),
            Action::Descend => self.try_descend(rng),
            Action::Interact => self.try_interact(),
            Action::UseAbility(idx) => self.try_ability(idx),
        }
        let ghost g1 = *self;
        proof {
            assert(dispatch_rel(*old(self), action, g1));
        }

        if self.player.strength_turns > 0 {
            self.player.strength_turns = self.player.strength_turns - 1;
            if self.player.strength_turns == 0 {
                self.log("The moly's power fades.");
            }
        }
        let ghost lmid = self.log@;
        if self.blind_turns > 0 {
            self.blind_turns = self.blind_turns - 1;
            if self.blind_turns == 0 {
                self.log("Your vision clears.");
            }
        }
        let ghost g2 = *self;
        proof {
            if g1.player.strength_turns == 1 && g1.blind_turns == 1 {
                lemma_log2(
                    g1.log@,
                    "The moly's power fades."@,
                    "Your vision clears."@,
                    lmid,
                    self.log@,
                );
            }
            assert(buff_tick_rel(g1, g2));
        }

        let ghost mid = *self;
        let m = self.abilities.len();
        let mut i: usize = 0;
        while i < m
            invariant
                mid.wf(),
                m == 3,
                i <= m,
                self.wf(),
                *self == (Game { abilities: self.abilities, ..mid }),
                self.abilities@.len() == 3,
                forall|j: int| i <= j < 3 ==> self.abilities@[j] == mid.abilities@[j],
                forall|j: int|
                    0 <= j < i ==> self.abilities@[j] == (AbilityState {
                        cooldown: (if (#[trigger] mid.abilities@[j]).cooldown > 0 {
                            mid.abilities@[j].cooldown - 1
                        } else {
                            0int
                        }) as i32,
                        ..mid.abilities@[j]
                    }),
            decreases m - i,
        {
            let mut a = self.abilities[i];
            a.tick();
            self.abilities[i] = a;
            i = i + 1;
        }
        let ghost g3 = *self;
        proof {
            assert(cooldown_tick_rel(g2, g3));
        }

        if !self.game_over {
            self.enemy_turns(rng);
        }
        let ghost g4 = *self;
        proof {
            assert(phase_rel(g3, g4));
        }

        if self.turns < u32::MAX {
            self.turns = self.turns + 1;
        }
        let ghost g5 = *self;
        proof {
            assert(turn_count_rel(g4, g5));
        }

        let fov = self.effective_fov();
        compute_fov(&mut self.level, self.player.x, self.player.y, fov);
        proof {
            assert(fov_refresh_rel(g5, *self));
            assert(dispatch_rel(*old(self), action, g1) && buff_tick_rel(g1, g2)
                && cooldown_tick_rel(g2, g3) && phase_rel(g3, g4) && turn_count_rel(g4, g5)
                && fov_refresh_rel(g5, *self));
        }
    }
}

/// Build "{a}{b}{c}{d}".
fn msg4(a: &str, b: &str, c: &str, d: &str) -> (m: String)
    ensures
        m@ == a@ + b@ + c@ + d@,
{
    let mut m = a.to_owned();
    m.append(b);
    m.append(c);
    m.append(d);
    proof {
        assert(m@ =~= a@ + b@ + c@ + d@);
    }
    m
}

/// Build "{a}{name}{b}{n}{c}".
fn msg_name_num(a: &str, name: &str, b: &str, n: u32, c: &str) -> (m: String)
    ensures
        m@ == a@ + name@ + b@ + dec_seq(n as int) + c@,
{
    let mut m = a.to_owned();
    m.append(name);
    m.append(b);
    push_dec(&mut m, n);
    m.append(c);
    proof {
        assert(m@ =~= a@ + name@ + b@ + dec_seq(n as int) + c@);
    }
    m
}

} // verus!

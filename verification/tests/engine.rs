use asphodel_core::ability::{Ability, AbilityState};
use asphodel_core::entity::{Entity, EntityKind};
use asphodel_core::game::{Action, Game};
use asphodel_core::level::{Level, Rect, Tile, MAP_H, MAP_W};
use asphodel_core::rng::GameRng;

/// An open test arena: floor everywhere inside a wall border, one room.
fn arena() -> Level {
    let mut tiles = vec![vec![Tile::Floor; MAP_W]; MAP_H];
    for x in 0..MAP_W {
        tiles[0][x] = Tile::Wall;
        tiles[MAP_H - 1][x] = Tile::Wall;
    }
    for y in 0..MAP_H {
        tiles[y][0] = Tile::Wall;
        tiles[y][MAP_W - 1] = Tile::Wall;
    }
    Level {
        tiles,
        revealed: vec![vec![false; MAP_W]; MAP_H],
        visible: vec![vec![false; MAP_W]; MAP_H],
        rooms: vec![Rect { x1: 1, y1: 1, x2: 11, y2: 11 }],
        depth: 1,
    }
}

fn base_game() -> Game {
    Game {
        level: arena(),
        player: Entity::player(5, 5),
        entities: Vec::new(),
        shrines: Vec::new(),
        log: Vec::new(),
        depth: 1,
        obols: 0,
        turns: 0,
        game_over: false,
        victory: false,
        killed_by: String::new(),
        abilities: vec![
            AbilityState::new(Ability::Dash),
            AbilityState::new(Ability::SpectralScream),
            AbilityState::new(Ability::LethesTouch),
        ],
        fov_radius: 8,
        shrine_prompt: None,
        blind_turns: 0,
    }
}

#[test]
fn fresh_player_minimum_roll_deals_four_damage() {
    let mut g = base_game();
    let mut shade = Entity::enemy(6, 5, EntityKind::LostShade, 1);
    shade.defense = 0;
    let hp0 = shade.hp;
    g.entities.push(shade);

    g.attack_entity(0, -1);

    assert_eq!(g.entities[0].hp, hp0 - 4); // max(0, 5 - 0 - 1)
    assert_eq!(
        g.log.last().map(String::as_str),
        Some("You strike the Lost Shade for 4 damage.")
    );
}

#[test]
fn zero_damage_hits_are_logged_separately() {
    let mut g = base_game();
    let mut tank = Entity::enemy(6, 5, EntityKind::Empusa, 1);
    tank.defense = 50;
    let hp0 = tank.hp;
    g.entities.push(tank);

    g.attack_entity(0, 2);

    assert_eq!(g.entities[0].hp, hp0);
    assert!(g.entities[0].alive);
    assert_eq!(
        g.log.last().map(String::as_str),
        Some("You strike the Empusa but deal no damage.")
    );
}

#[test]
fn enemy_dies_at_zero_hp_and_stays_dead() {
    let mut g = base_game();
    let mut shade = Entity::enemy(6, 5, EntityKind::LostShade, 1);
    shade.hp = 3;
    g.entities.push(shade);

    g.attack_entity(0, 0); // damage 5 - 0 + 0 = 5 >= 3
    assert!(!g.entities[0].alive);
    assert!(g.entities[0].hp <= 0);
    assert_eq!(
        g.log.last().map(String::as_str),
        Some("The Lost Shade dissolves into mist.")
    );

    // the tombstone survives a full turn
    let mut rng = GameRng::seeded(1);
    g.player_action(Action::Wait, &mut rng);
    assert!(!g.entities[0].alive);
}

#[test]
fn wait_with_strength_buff_ticks_down_without_expiry_line() {
    let mut g = base_game();
    g.player.strength_turns = 15;
    let log_before = g.log.len();
    let mut rng = GameRng::seeded(2);

    g.player_action(Action::Wait, &mut rng);

    assert_eq!(g.player.strength_turns, 14);
    assert_eq!(g.log.len(), log_before + 1);
    assert_eq!(
        g.log.last().map(String::as_str),
        Some("You wait. The meadows don't care.")
    );
    assert!(g.log.iter().all(|l| l != "The moly's power fades."));
    assert_eq!(g.turns, 1);
}

#[test]
fn strength_buff_expiry_is_logged_exactly_at_zero() {
    let mut g = base_game();
    g.player.strength_turns = 1;
    let mut rng = GameRng::seeded(3);
    g.player_action(Action::Wait, &mut rng);
    assert_eq!(g.player.strength_turns, 0);
    assert!(g.log.iter().any(|l| l == "The moly's power fades."));
}

#[test]
fn descend_at_max_depth_is_victory_with_no_new_level() {
    let mut g = base_game();
    g.depth = 7;
    g.level.depth = 7;
    g.level.tiles[5][5] = Tile::Stair;
    let rooms_before = g.level.rooms.len();
    let mut rng = GameRng::seeded(4);

    g.player_action(Action::Descend, &mut rng);

    assert!(g.victory);
    assert!(g.game_over);
    assert_eq!(g.depth, 7);
    assert_eq!(g.level.rooms.len(), rooms_before);
    assert_eq!(g.level.tiles[5][5], Tile::Stair);
}

#[test]
fn victory_descend_changes_exactly_the_terminal_flags() {
    let mut g = base_game();
    g.depth = 7;
    g.level.depth = 7;
    g.level.tiles[5][5] = Tile::Stair;
    g.log("a line");
    let log_before = g.log.clone();
    let mut rng = GameRng::seeded(40);

    g.try_descend(&mut rng);

    assert!(g.game_over && g.victory);
    assert_eq!(g.log, log_before);
    assert_eq!(g.turns, 0);
    assert_eq!((g.player.x, g.player.y), (5, 5));
    assert_eq!(g.player.hp, 40);
}

#[test]
fn descend_advances_depth_and_rebuilds_the_world() {
    let mut g = base_game();
    g.player.hp = 30;
    g.level.tiles[5][5] = Tile::Stair;
    let mut rng = GameRng::seeded(5);

    g.player_action(Action::Descend, &mut rng);

    assert_eq!(g.depth, 2);
    assert_eq!(g.level.depth, 2);
    assert!(!g.game_over);
    // capped heal of 5 applies before the rebuild
    assert_eq!(g.player.hp, 35);
    // player stands at the new first room's center
    let first = g.level.rooms[0];
    assert_eq!(g.player.x as usize, (first.x1 + first.x2) / 2);
    assert_eq!(g.player.y as usize, (first.y1 + first.y2) / 2);
    assert!(g
        .log
        .iter()
        .any(|l| l == "You descend deeper into the meadows. Depth 2."));
}

#[test]
fn descend_without_stairs_only_logs() {
    let mut g = base_game();
    let mut rng = GameRng::seeded(6);
    g.player_action(Action::Descend, &mut rng);
    assert_eq!(g.depth, 1);
    assert!(!g.game_over);
    assert!(g.log.iter().any(|l| l == "There are no stairs here."));
}

#[test]
fn empusa_drains_half_the_damage_dealt() {
    let mut g = base_game();
    let mut empusa = Entity::enemy(6, 5, EntityKind::Empusa, 1);
    empusa.hp = 20;
    empusa.max_hp = 25;
    empusa.attack = 7; // 7 - 3 defense + 0 roll = 4 damage
    g.entities.push(empusa);

    g.enemy_attack(0, 0, false);

    assert_eq!(g.player.hp, 36); // 40 - 4
    assert_eq!(g.entities[0].hp, 22); // 20 + max(4/2, 1)
    assert!(g
        .log
        .iter()
        .any(|l| l == "The Empusa drains your essence! It heals 2."));
}

#[test]
fn empusa_drain_never_exceeds_its_max_hp() {
    let mut g = base_game();
    let mut empusa = Entity::enemy(6, 5, EntityKind::Empusa, 1);
    empusa.hp = 25;
    empusa.max_hp = 25;
    empusa.attack = 13; // damage 10
    g.entities.push(empusa);

    g.enemy_attack(0, 0, false);
    assert_eq!(g.entities[0].hp, 25);
}

#[test]
fn lampad_blind_applies_only_when_not_blinded() {
    let mut g = base_game();
    let lampad = Entity::enemy(6, 5, EntityKind::Lampad, 1);
    g.entities.push(lampad);

    g.enemy_attack(0, 0, true);
    assert_eq!(g.blind_turns, 5);

    // a second proc while already blinded changes nothing
    g.enemy_attack(0, 0, true);
    assert_eq!(g.blind_turns, 5);
}

#[test]
fn eurynomos_strips_defense_down_to_zero_at_most() {
    let mut g = base_game();
    g.player.defense = 1;
    let daemon = Entity::enemy(6, 5, EntityKind::Eurynomos, 1);
    g.entities.push(daemon);

    g.enemy_attack(0, 0, true);
    assert_eq!(g.player.defense, 0);
    g.enemy_attack(0, 0, true);
    assert_eq!(g.player.defense, 0);
}

#[test]
fn player_death_ends_the_game_and_names_the_killer() {
    let mut g = base_game();
    g.player.hp = 2;
    let mut brute = Entity::enemy(6, 5, EntityKind::Eurynomos, 1);
    brute.attack = 10;
    g.entities.push(brute);

    g.enemy_attack(0, 0, false); // damage 10 - 3 + 0 = 7 >= 2

    assert!(g.game_over);
    assert!(!g.victory);
    assert!(!g.player.alive);
    assert_eq!(g.killed_by, "Eurynomos");
}

#[test]
fn enemy_damage_is_never_negative() {
    let mut g = base_game();
    g.player.defense = 100;
    let shade = Entity::enemy(6, 5, EntityKind::LostShade, 1);
    g.entities.push(shade);
    let hp0 = g.player.hp;
    g.enemy_attack(0, 2, false);
    assert_eq!(g.player.hp, hp0);
}

#[test]
fn moving_into_an_enemy_attacks_instead_of_moving() {
    let mut g = base_game();
    let shade = Entity::enemy(6, 5, EntityKind::LostShade, 1);
    let hp0 = shade.hp;
    g.entities.push(shade);
    let mut rng = GameRng::seeded(8);

    g.player_action(Action::Move(1, 0), &mut rng);

    assert_eq!(g.player.x, 5, "player must not move onto the enemy");
    assert!(g.entities[0].hp < hp0 || g.log.iter().any(|l| l.contains("no damage")));
}

#[test]
fn moving_into_a_wall_is_a_silent_no_op() {
    let mut g = base_game();
    g.player.x = 1;
    g.player.y = 1;
    let mut rng = GameRng::seeded(9);
    g.player_action(Action::Move(-1, 0), &mut rng);
    assert_eq!((g.player.x, g.player.y), (1, 1));
    // only the turn advanced; nothing was logged by the blocked move
    assert_eq!(g.turns, 1);
}

#[test]
fn open_moves_change_position() {
    let mut g = base_game();
    let mut rng = GameRng::seeded(10);
    g.player_action(Action::Move(1, 1), &mut rng);
    assert_eq!((g.player.x, g.player.y), (6, 6));
}

#[test]
fn pickup_nectar_heals_capped_at_max_hp() {
    let mut g = base_game();
    g.player.hp = 34;
    g.entities.push(Entity::item(5, 5, EntityKind::Nectar));
    let mut rng = GameRng::seeded(11);

    g.player_action(Action::Pickup, &mut rng);

    assert_eq!(g.player.hp, 40); // heal capped at 6, not 10
    assert!(!g.entities[0].alive);
    assert!(g.log.iter().any(|l| l == "You drink the nectar. +6 HP."));
}

#[test]
fn pickup_obol_and_blade_and_moly() {
    let mut g = base_game();
    g.entities.push(Entity::item(5, 5, EntityKind::Obol));
    let mut rng = GameRng::seeded(12);
    g.player_action(Action::Pickup, &mut rng);
    assert_eq!(g.obols, 1);
    assert!(!g.entities[0].alive);

    g.entities.push(Entity::item(g.player.x, g.player.y, EntityKind::StygianBlade));
    g.player_action(Action::Pickup, &mut rng);
    assert_eq!(g.player.attack, 7);

    g.entities.push(Entity::item(g.player.x, g.player.y, EntityKind::Moly));
    g.player_action(Action::Pickup, &mut rng);
    // set to 15 on pickup, then the same turn's tick brings it to 14
    assert_eq!(g.player.strength_turns, 14);
}

#[test]
fn pickup_with_nothing_underfoot_logs_a_no_op() {
    let mut g = base_game();
    let mut rng = GameRng::seeded(13);
    g.player_action(Action::Pickup, &mut rng);
    assert!(g.log.iter().any(|l| l == "Nothing to pick up here."));
    assert_eq!(g.player.hp, 40);
}

#[test]
fn log_is_bounded_and_evicts_the_oldest_line() {
    let mut g = base_game();
    for i in 0..12u32 {
        g.log(&format!("line {}", i));
    }
    assert_eq!(g.log.len(), 8);
    assert_eq!(g.log[0], "line 4");
    assert_eq!(g.log[7], "line 11");
}

#[test]
fn finished_game_ignores_actions() {
    let mut g = base_game();
    g.game_over = true;
    let mut rng = GameRng::seeded(14);
    g.player_action(Action::Move(1, 0), &mut rng);
    assert_eq!((g.player.x, g.player.y), (5, 5));
    assert_eq!(g.turns, 0);
}

#[test]
fn visible_adjacent_enemy_attacks_during_the_enemy_phase() {
    let mut g = base_game();
    let mut shade = Entity::enemy(6, 5, EntityKind::LostShade, 1);
    shade.attack = 10;
    g.entities.push(shade);
    asphodel_core::fov::compute_fov(&mut g.level, 5, 5, 8);
    let mut rng = GameRng::seeded(15);

    g.player_action(Action::Wait, &mut rng);

    // damage is at least 10 - 3 - 1 = 6
    assert!(g.player.hp <= 34);
}

#[test]
fn enemy_on_a_dark_cell_does_not_act() {
    let mut g = base_game();
    // far out of the radius-8 field of view
    let shade = Entity::enemy(60, 30, EntityKind::LostShade, 1);
    g.entities.push(shade);
    let mut rng = GameRng::seeded(16);

    g.player_action(Action::Wait, &mut rng);

    assert_eq!(g.player.hp, 40);
    assert_eq!((g.entities[0].x, g.entities[0].y), (60, 30));
}

#[test]
fn chasing_enemy_steps_toward_the_player() {
    let mut g = base_game();
    let shade = Entity::enemy(8, 5, EntityKind::LostShade, 1);
    g.entities.push(shade);

    g.enemy_chase(0, true); // axis-first order: x step toward the player
    assert_eq!((g.entities[0].x, g.entities[0].y), (7, 5));
}

#[test]
fn chasing_enemy_never_steps_onto_the_player() {
    let mut g = base_game();
    let shade = Entity::enemy(7, 5, EntityKind::LostShade, 1);
    g.entities.push(shade);

    g.enemy_chase(0, true);
    // the x-step onto (6,5) is fine; stepping onto (5,5) is not
    let pos = (g.entities[0].x, g.entities[0].y);
    assert_ne!(pos, (5, 5));
    assert_eq!(pos, (6, 5));
}

#[test]
fn game_new_builds_a_consistent_session() {
    let mut rng = GameRng::seeded(17);
    let g = Game::new(&mut rng);
    assert_eq!(g.depth, 1);
    assert_eq!(g.turns, 0);
    assert_eq!(g.obols, 0);
    assert!(!g.game_over);
    assert!(!g.victory);
    assert_eq!(g.abilities.len(), 3);
    assert!(g.abilities.iter().all(|a| a.cooldown == 0));
    let first = g.level.rooms[0];
    assert_eq!(g.player.x as usize, (first.x1 + first.x2) / 2);
    assert_eq!(g.player.y as usize, (first.y1 + first.y2) / 2);
    assert!(g.level.visible[g.player.y as usize][g.player.x as usize]);
    for e in &g.entities {
        assert!(e.kind.is_enemy() || e.kind.is_item());
        assert!(e.alive);
    }
}

#[test]
fn spawned_entities_never_share_a_cell() {
    for seed in 0..10u64 {
        let mut rng = GameRng::seeded(seed + 200);
        let g = Game::new(&mut rng);
        for i in 0..g.entities.len() {
            for j in (i + 1)..g.entities.len() {
                let a = &g.entities[i];
                let b = &g.entities[j];
                assert!((a.x, a.y) != (b.x, b.y));
            }
        }
    }
}

#[test]
fn total_hp_never_exceeds_max_after_heals() {
    let mut g = base_game();
    g.player.hp = 39;
    g.entities.push(Entity::item(5, 5, EntityKind::Nectar));
    let mut rng = GameRng::seeded(18);
    g.player_action(Action::Pickup, &mut rng);
    assert!(g.player.hp <= g.player.max_hp);
    assert_eq!(g.player.hp, 40);
}

use asphodel_core::ability::{Ability, AbilityState};
use asphodel_core::entity::{Entity, EntityKind};
use asphodel_core::fov::compute_fov;
use asphodel_core::game::{Action, Game};
use asphodel_core::level::{Level, Rect, Tile, MAP_H, MAP_W};
use asphodel_core::rng::GameRng;
use asphodel_core::shrine::{Boon, Shrine};

fn arena() -> Level {
    let mut tiles = vec![vec![Tile::Floor; MAP_W]; MAP_H];
    for x in 0..MAP_W {
        tiles[0][x] = Tile::Wall;
        tiles[MAP_H - 1][x] = Tile::Wall;
    }
    for y in 0..MAP_H {
        tiles[y][0] = Tile::Wall;
        tiles[y][MAP_W - 1] = Tile::Wall;
    }
    Level {
        tiles,
        revealed: vec![vec![false; MAP_W]; MAP_H],
        visible: vec![vec![false; MAP_W]; MAP_H],
        rooms: vec![Rect { x1: 1, y1: 1, x2: 11, y2: 11 }],
        depth: 1,
    }
}

fn base_game() -> Game {
    Game {
        level: arena(),
        player: Entity::player(5, 5),
        entities: Vec::new(),
        shrines: Vec::new(),
        log: Vec::new(),
        depth: 1,
        obols: 0,
        turns: 0,
        game_over: false,
        victory: false,
        killed_by: String::new(),
        abilities: vec![
            AbilityState::new(Ability::Dash),
            AbilityState::new(Ability::SpectralScream),
            AbilityState::new(Ability::LethesTouch),
        ],
        fov_radius: 8,
        shrine_prompt: None,
        blind_turns: 0,
    }
}

fn shrine_with(a: Boon, b: Boon, x: i32, y: i32) -> Shrine {
    Shrine { x, y, boon_a: a, boon_b: b, used: false }
}

#[test]
fn trigger_sets_cooldown_to_the_exact_maximum() {
    for kind in [Ability::Dash, Ability::SpectralScream, Ability::LethesTouch] {
        let mut st = AbilityState::new(kind);
        assert!(st.ready());
        st.trigger();
        assert_eq!(st.cooldown, kind.max_cooldown());
        assert!(!st.ready());
    }
    assert_eq!(Ability::Dash.max_cooldown(), 8);
    assert_eq!(Ability::SpectralScream.max_cooldown(), 12);
    assert_eq!(Ability::LethesTouch.max_cooldown(), 25);
}

#[test]
fn tick_never_drives_cooldown_below_zero() {
    let mut st = AbilityState::new(Ability::Dash);
    st.cooldown = 1;
    st.tick();
    assert_eq!(st.cooldown, 0);
    st.tick();
    assert_eq!(st.cooldown, 0);
}

#[test]
fn ability_on_cooldown_changes_nothing_but_the_log() {
    let mut g = base_game();
    g.abilities[2].cooldown = 10;
    let hp = g.player.hp;
    let pos = (g.player.x, g.player.y);
    let cds: Vec<i32> = g.abilities.iter().map(|a| a.cooldown).collect();
    let mut rng = GameRng::seeded(20);

    g.player_action(Action::UseAbility(2), &mut rng);

    assert_eq!(g.player.hp, hp);
    assert_eq!((g.player.x, g.player.y), pos);
    // the per-turn tick still ran on every slot, nothing else moved them
    let after: Vec<i32> = g.abilities.iter().map(|a| a.cooldown).collect();
    assert_eq!(after, vec![cds[0], cds[1], cds[2] - 1]);
    assert!(g
        .log
        .iter()
        .any(|l| l == "Lethe's Touch is on cooldown (10 turns)."));
}

#[test]
fn ability_slot_out_of_range_is_ignored() {
    let mut g = base_game();
    let mut rng = GameRng::seeded(21);
    g.player_action(Action::UseAbility(7), &mut rng);
    assert!(g.log.is_empty() || g.log.iter().all(|l| !l.contains("cooldown")));
    assert_eq!(g.turns, 1);
}

#[test]
fn lethe_heals_fifteen_capped_and_starts_its_cooldown() {
    let mut g = base_game();
    g.player.hp = 20;
    let mut rng = GameRng::seeded(22);

    g.player_action(Action::UseAbility(2), &mut rng);

    assert_eq!(g.player.hp, 35);
    // set to 25, then the same turn's tick brings it to 24
    assert_eq!(g.abilities[2].cooldown, 24);
    assert!(g
        .log
        .iter()
        .any(|l| l == "You touch the waters of Lethe. You forget your pain. +15 HP."));
}

#[test]
fn scream_hits_every_visible_enemy_in_radius() {
    let mut g = base_game();
    let near1 = Entity::enemy(7, 5, EntityKind::LostShade, 1);
    let near2 = Entity::enemy(5, 7, EntityKind::Lampad, 1);
    let far = Entity::enemy(20, 20, EntityKind::LostShade, 1);
    let (h1, h2, h3) = (near1.hp, near2.hp, far.hp);
    g.entities.push(near1);
    g.entities.push(near2);
    g.entities.push(far);
    compute_fov(&mut g.level, 5, 5, 8);
    let mut rng = GameRng::seeded(23);

    g.player_action(Action::UseAbility(1), &mut rng);

    assert_eq!(g.entities[0].hp, h1 - 6);
    assert_eq!(g.entities[1].hp, h2 - 6);
    assert_eq!(g.entities[2].hp, h3);
    assert!(g
        .log
        .iter()
        .any(|l| l == "You scream into the void. 2 enemies shattered."));
}

#[test]
fn scream_with_no_target_still_spends_the_cooldown() {
    let mut g = base_game();
    let mut rng = GameRng::seeded(24);
    g.player_action(Action::UseAbility(1), &mut rng);
    assert_eq!(g.abilities[1].cooldown, 11); // 12, ticked once
    assert!(g
        .log
        .iter()
        .any(|l| l == "Your scream echoes through empty halls."));
}

#[test]
fn dash_moves_two_tiles_away_from_the_nearest_visible_enemy() {
    let mut g = base_game();
    let shade = Entity::enemy(3, 5, EntityKind::LostShade, 1);
    g.entities.push(shade);
    compute_fov(&mut g.level, 5, 5, 8);
    let mut rng = GameRng::seeded(25);

    g.player_action(Action::UseAbility(0), &mut rng);

    // away from the enemy on the left: two tiles right
    assert_eq!(g.player.x, 7);
    assert_eq!(g.abilities[0].cooldown, 7); // 8, ticked once
    assert!(g.log.iter().any(|l| l == "You dash through the grey air."));
}

#[test]
fn dash_with_no_visible_enemy_defaults_right() {
    let mut g = base_game();
    let mut rng = GameRng::seeded(26);
    g.player_action(Action::UseAbility(0), &mut rng);
    assert_eq!((g.player.x, g.player.y), (7, 5));
}

#[test]
fn blocked_dash_refunds_the_cooldown() {
    let mut g = base_game();
    g.player.x = 1;
    g.player.y = 5;
    // an enemy to the right pushes the dash into the left wall
    let shade = Entity::enemy(3, 5, EntityKind::LostShade, 1);
    g.entities.push(shade);
    compute_fov(&mut g.level, 1, 5, 8);
    let mut rng = GameRng::seeded(27);

    g.player_action(Action::UseAbility(0), &mut rng);

    assert_eq!((g.player.x, g.player.y), (1, 5));
    assert_eq!(g.abilities[0].cooldown, 0);
    assert!(g.log.iter().any(|l| l == "Nowhere to dash."));
}

#[test]
fn not_ready_ability_mutates_only_the_log() {
    let mut g = base_game();
    g.abilities[0].cooldown = 4;
    let player_before = g.player;
    let cds_before: Vec<i32> = g.abilities.iter().map(|a| a.cooldown).collect();
    let turns_before = g.turns;
    let log_before = g.log.len();

    g.try_ability(0);

    assert_eq!(g.player, player_before);
    let cds_after: Vec<i32> = g.abilities.iter().map(|a| a.cooldown).collect();
    assert_eq!(cds_after, cds_before);
    assert_eq!(g.turns, turns_before);
    assert_eq!(g.log.len(), log_before + 1);
    assert_eq!(
        g.log.last().map(String::as_str),
        Some("Dash is on cooldown (4 turns).")
    );
}

#[test]
fn dash_phases_through_an_entity_on_the_way() {
    let mut g = base_game();
    // the adjacent Lampad is the nearest visible enemy, so the dash heads
    // left — ignoring the Lost Shade standing on the landing cell
    g.entities.push(Entity::enemy(3, 5, EntityKind::LostShade, 1));
    g.entities.push(Entity::enemy(6, 5, EntityKind::Lampad, 1));
    compute_fov(&mut g.level, 5, 5, 8);

    g.try_ability(0);

    assert_eq!((g.player.x, g.player.y), (3, 5));
}

#[test]
fn blind_expiry_is_logged_exactly_at_zero() {
    let mut g = base_game();
    g.blind_turns = 1;
    let mut rng = GameRng::seeded(35);
    g.player_action(Action::Wait, &mut rng);
    assert_eq!(g.blind_turns, 0);
    assert!(g.log.iter().any(|l| l == "Your vision clears."));

    let before = g.log.len();
    g.player_action(Action::Wait, &mut rng);
    assert_eq!(g.blind_turns, 0);
    // no second expiry line
    assert_eq!(
        g.log.iter().filter(|l| *l == "Your vision clears.").count(),
        1
    );
    assert!(g.log.len() >= before);
}

#[test]
fn offered_boons_are_always_distinct() {
    for a in 0..6u32 {
        for b in 0..5u32 {
            let (x, y) = Boon::pair_from_rolls(a, b);
            assert_ne!(x, y);
        }
    }
    for seed in 0..50u64 {
        let mut rng = GameRng::seeded(seed);
        let s = Shrine::new(4, 4, &mut rng);
        assert_ne!(s.boon_a, s.boon_b);
        assert!(!s.used);
    }
}

#[test]
fn choosing_vitality_raises_max_hp_and_heals_to_full() {
    let mut g = base_game();
    g.player.hp = 10;
    g.shrines.push(shrine_with(Boon::VitalityOfErebus, Boon::WrathOfAres, 5, 5));
    g.shrine_prompt = Some(0);

    g.choose_shrine_boon(true);

    assert_eq!(g.player.max_hp, 50);
    assert_eq!(g.player.hp, 50);
    assert!(g.shrines[0].used);
    assert!(g.shrine_prompt.is_none());
}

#[test]
fn choosing_the_second_boon_applies_it() {
    let mut g = base_game();
    g.shrines.push(shrine_with(Boon::VitalityOfErebus, Boon::WrathOfAres, 5, 5));
    g.shrine_prompt = Some(0);

    g.choose_shrine_boon(false);

    assert_eq!(g.player.attack, 8); // 5 + 3
    assert_eq!(g.player.max_hp, 40);
    assert!(g.shrines[0].used);
}

#[test]
fn hermes_reduces_all_cooldowns_clamped_at_zero() {
    let mut g = base_game();
    g.abilities[0].cooldown = 2;
    g.abilities[1].cooldown = 7;
    g.abilities[2].cooldown = 0;
    g.shrines.push(shrine_with(Boon::SwiftnessOfHermes, Boon::EyesOfNyx, 5, 5));
    g.shrine_prompt = Some(0);

    g.choose_shrine_boon(true);

    let cds: Vec<i32> = g.abilities.iter().map(|a| a.cooldown).collect();
    assert_eq!(cds, vec![0, 4, 0]);
}

#[test]
fn nyx_extends_the_view_radius() {
    let mut g = base_game();
    g.shrines.push(shrine_with(Boon::EyesOfNyx, Boon::WrathOfAres, 5, 5));
    g.shrine_prompt = Some(0);
    g.choose_shrine_boon(true);
    assert_eq!(g.fov_radius, 11);
}

#[test]
fn interacting_on_a_shrine_opens_the_prompt() {
    let mut g = base_game();
    g.shrines.push(shrine_with(Boon::GraceOfPersephone, Boon::AegisOfAthena, 5, 5));
    let mut rng = GameRng::seeded(30);

    g.player_action(Action::Interact, &mut rng);

    assert_eq!(g.shrine_prompt, Some(0));
    assert!(g
        .log
        .iter()
        .any(|l| l == "A shrine of grey stone. Choose your blessing:"));
    assert!(g
        .log
        .iter()
        .any(|l| l == "[A] Grace of Persephone - Heal 15 HP"));
    assert!(g
        .log
        .iter()
        .any(|l| l == "[B] Aegis of Athena - +2 defense"));
}

#[test]
fn a_used_shrine_rejects_further_interaction() {
    let mut g = base_game();
    let mut s = shrine_with(Boon::GraceOfPersephone, Boon::AegisOfAthena, 5, 5);
    s.used = true;
    g.shrines.push(s);
    let mut rng = GameRng::seeded(31);

    g.player_action(Action::Interact, &mut rng);

    assert!(g.shrine_prompt.is_none());
    assert!(g.log.iter().any(|l| l == "Nothing to interact with here."));
}

#[test]
fn applying_a_boon_marks_the_shrine_used_exactly_once() {
    let mut g = base_game();
    g.shrines.push(shrine_with(Boon::WrathOfAres, Boon::AegisOfAthena, 5, 5));
    let mut rng = GameRng::seeded(32);

    g.player_action(Action::Interact, &mut rng);
    assert_eq!(g.shrine_prompt, Some(0));
    g.choose_shrine_boon(true);
    assert!(g.shrines[0].used);
    assert_eq!(g.player.attack, 8);

    // interacting again finds nothing to use
    g.player_action(Action::Interact, &mut rng);
    assert!(g.shrine_prompt.is_none());
    assert_eq!(g.player.attack, 8);
}

#[test]
fn cancelling_leaves_the_shrine_interactable() {
    let mut g = base_game();
    g.shrines.push(shrine_with(Boon::WrathOfAres, Boon::AegisOfAthena, 5, 5));
    let mut rng = GameRng::seeded(33);

    g.player_action(Action::Interact, &mut rng);
    assert_eq!(g.shrine_prompt, Some(0));
    // the front end cancels a pending offer by clearing the prompt field
    g.shrine_prompt = None;
    assert!(!g.shrines[0].used);

    g.player_action(Action::Interact, &mut rng);
    assert_eq!(g.shrine_prompt, Some(0));
}

#[test]
fn actions_are_deferred_while_the_prompt_is_pending() {
    let mut g = base_game();
    g.shrines.push(shrine_with(Boon::WrathOfAres, Boon::AegisOfAthena, 5, 5));
    g.shrine_prompt = Some(0);
    let mut rng = GameRng::seeded(34);

    g.player_action(Action::Move(1, 0), &mut rng);

    assert_eq!((g.player.x, g.player.y), (5, 5));
    assert_eq!(g.turns, 0);
}

#[test]
fn choosing_without_a_prompt_does_nothing() {
    let mut g = base_game();
    g.shrines.push(shrine_with(Boon::WrathOfAres, Boon::AegisOfAthena, 5, 5));
    g.choose_shrine_boon(true);
    assert_eq!(g.player.attack, 5);
    assert!(!g.shrines[0].used);
}

#[test]
fn boon_names_and_descriptions() {
    assert_eq!(Boon::VitalityOfErebus.name(), "Vitality of Erebus");
    assert_eq!(Boon::VitalityOfErebus.description(), "+10 max HP, heal to full");
    assert_eq!(Boon::EyesOfNyx.name(), "Eyes of Nyx");
    assert_eq!(Boon::SwiftnessOfHermes.description(), "All cooldowns reduced by 3");
}

#[test]
fn ability_names_keys_and_descriptions() {
    assert_eq!(Ability::Dash.name(), "Dash");
    assert_eq!(Ability::Dash.key(), '1');
    assert_eq!(Ability::LethesTouch.key(), '3');
    assert_eq!(
        Ability::SpectralScream.description(),
        "Damage all nearby visible enemies"
    );
}

#[test]
fn persephone_heal_is_capped() {
    let mut g = base_game();
    g.player.hp = 30;
    g.shrines.push(shrine_with(Boon::GraceOfPersephone, Boon::WrathOfAres, 5, 5));
    g.shrine_prompt = Some(0);
    g.choose_shrine_boon(true);
    assert_eq!(g.player.hp, 40);
    assert!(g.log.iter().any(|l| l == "Persephone grants grace. +10 HP."));
}

#[test]
fn blind_shrinks_the_effective_view_radius() {
    let mut g = base_game();
    assert_eq!(g.effective_fov(), 8);
    g.blind_turns = 3;
    assert_eq!(g.effective_fov(), 3);
}

use rand::rngs::StdRng;
use rand::SeedableRng;
use tui_rogue::combat::{monster_attack, player_attack, resolve_monster_attack, resolve_player_attack, roll_d6};
use tui_rogue::entity::{Monster, MonsterKind, Player};

/// Damage one attack from `kind` deals to a fresh player at `level`, or 0 if
/// it missed. The seed fixes the roll sequence so runs are comparable across levels.
fn damage_at(kind: MonsterKind, level: u8, seed: u64, multiplayer: bool) -> i32 {
    let monster = Monster::new(0, 0, kind);
    let mut player = Player::new(0, 0);
    let mut rng = StdRng::seed_from_u64(seed);
    resolve_monster_attack(&monster, &mut player, &mut rng, multiplayer, level);
    player.max_hp - player.hp
}

#[test]
fn levels_7_and_deeper_add_two_to_every_landed_hit() {
    for seed in 0..100 {
        let shallow = damage_at(MonsterKind::Goblin, 6, seed, false);
        for level in [7u8, 8, 9, 10] {
            let deep = damage_at(MonsterKind::Goblin, level, seed, false);
            if shallow == 0 {
                assert_eq!(deep, 0, "a miss must stay a miss (level {level}, seed {seed})");
            } else {
                assert_eq!(deep, shallow + 2, "level {level}, seed {seed}");
            }
        }
    }
}

#[test]
fn the_lich_keeps_its_original_damage_at_every_depth() {
    for seed in 0..100 {
        let baseline = damage_at(MonsterKind::Lich, 6, seed, false);
        for level in [7u8, 8, 9, 10] {
            assert_eq!(
                damage_at(MonsterKind::Lich, level, seed, false),
                baseline,
                "the Lich must not gain the deep-level bonus (level {level}, seed {seed})"
            );
        }
    }
}

#[test]
fn levels_below_7_are_unaffected() {
    for seed in 0..100 {
        let baseline = damage_at(MonsterKind::Goblin, 1, seed, false);
        for level in 2u8..=6 {
            let dmg = damage_at(MonsterKind::Goblin, level, seed, false);
            assert_eq!(dmg, baseline, "level {level}, seed {seed}");
        }
    }
}

#[test]
fn the_bonus_applies_in_multiplayer_too() {
    for seed in 0..100 {
        let shallow = damage_at(MonsterKind::Goblin, 6, seed, true);
        let deep = damage_at(MonsterKind::Goblin, 7, seed, true);
        if shallow == 0 {
            assert_eq!(deep, 0, "seed {seed}");
        } else {
            assert_eq!(deep, shallow + 2, "seed {seed}");
        }
    }
}

#[test]
fn a_deep_level_hit_is_never_below_the_boosted_minimum() {
    // Solo, non-Lich: either a miss (0) or 1d6 + 2, so 3 through 8.
    for seed in 0..300 {
        let dmg = damage_at(MonsterKind::Goblin, 10, seed, false);
        assert!(dmg == 0 || (3..=8).contains(&dmg), "damage {dmg} (seed {seed})");
    }
}

#[test]
fn a_deep_lich_hit_stays_in_its_unboosted_2d6_band() {
    // Either a miss (0) or a plain 2d6, so 2 through 12 -- never 14.
    for seed in 0..300 {
        let dmg = damage_at(MonsterKind::Lich, 10, seed, false);
        assert!(dmg == 0 || (2..=12).contains(&dmg), "damage {dmg} (seed {seed})");
    }
}

#[test]
fn a_die_shows_one_to_six_and_every_face_comes_up() {
    let mut rng = StdRng::seed_from_u64(7);
    let mut seen = [false; 7];
    for _ in 0..600 {
        let r = roll_d6(&mut rng);
        assert!((1..=6).contains(&r));
        seen[r as usize] = true;
    }
    assert!(seen[1..].iter().all(|s| *s));
}

#[test]
fn a_low_hit_roll_misses_the_monster() {
    let mut player = Player::new(0, 0);
    let mut monster = Monster::new(0, 0, MonsterKind::Rat);
    let msg = player_attack(&mut player, &mut monster, 3, 6);
    assert_eq!(msg, "You missed the Rat!");
    assert_eq!(monster.hp, 5);
    assert_eq!(player.hp, 20);
}

#[test]
fn a_hit_reports_damage_and_remaining_hp() {
    let mut player = Player::new(0, 0);
    let mut monster = Monster::new(0, 0, MonsterKind::Mage);
    let msg = player_attack(&mut player, &mut monster, 4, 5);
    assert_eq!(msg, "You hit the Mage for 5 damage! (7/12 HP)");
    assert_eq!(monster.hp, 7);
    assert!(monster.alive);
}

#[test]
fn slaying_raises_max_hp_and_heals_one() {
    let mut player = Player::new(0, 0);
    player.hp = 10;
    let mut monster = Monster::new(0, 0, MonsterKind::Rat);
    let msg = player_attack(&mut player, &mut monster, 6, 6);
    assert_eq!(msg, "You slew the Rat! +1 max HP (now 11/21)");
    assert!(!monster.alive);
    assert_eq!(monster.hp, -1);
    assert_eq!((player.hp, player.max_hp), (11, 21));
}

#[test]
fn slaying_at_full_health_stays_at_the_new_maximum() {
    let mut player = Player::new(0, 0);
    let mut monster = Monster::new(0, 0, MonsterKind::Rat);
    player_attack(&mut player, &mut monster, 5, 5);
    assert_eq!((player.hp, player.max_hp), (21, 21));
}

#[test]
fn a_dead_monster_is_not_attacked_again() {
    let mut player = Player::new(0, 0);
    let mut monster = Monster::new(0, 0, MonsterKind::Goblin);
    monster.alive = false;
    let mut rng = StdRng::seed_from_u64(1);
    let before = rng.clone();
    let msg = resolve_player_attack(&mut player, &mut monster, &mut rng);
    assert_eq!(msg, "The Goblin is already dead.");
    assert_eq!(monster.hp, 8);
    assert!(rng == before);
}

#[test]
fn monster_hits_report_damage_and_deaths() {
    let monster = Monster::new(0, 0, MonsterKind::Goblin);
    let mut player = Player::new(0, 0);
    player.hp = 4;
    let (msg, died) = monster_attack(&monster, &mut player, 5, 6, 1, false, 1);
    assert_eq!(msg, "The Goblin hits you for 6 damage! (0/20 HP)");
    assert!(died);
    assert_eq!(player.hp, -2);
    let (msg, died) = monster_attack(&monster, &mut player, 2, 6, 6, false, 1);
    assert_eq!(msg, "The Goblin missed you!");
    assert!(!died);
}

#[test]
fn multiplayer_monsters_hit_with_advantage_and_the_lich_rolls_two_dice() {
    let goblin = Monster::new(0, 0, MonsterKind::Goblin);
    let lich = Monster::new(0, 0, MonsterKind::Lich);
    let mut player = Player::new(0, 0);
    monster_attack(&goblin, &mut player, 4, 2, 5, true, 1);
    assert_eq!(player.hp, 15);
    monster_attack(&goblin, &mut player, 4, 2, 5, false, 8);
    assert_eq!(player.hp, 11);
    monster_attack(&lich, &mut player, 4, 6, 6, false, 10);
    assert_eq!(player.hp, -1);
}

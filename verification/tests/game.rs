use rand::rngs::StdRng;
use rand::SeedableRng;
use tui_rogue::control::{after_session, client_key_message, menu_choice, terminal_size_ok, AfterSession, Key, MenuChoice};
use tui_rogue::dungeon::{DungeonMap, Room, Tile, MAP_HEIGHT, MAP_WIDTH};
use tui_rogue::entity::{Monster, MonsterKind, Player};
use tui_rogue::game::{Game, GameState};
use tui_rogue::protocol::ClientMsg;
use tui_rogue::view::{hp_is_low, snapshot_overlay, Glyph};

/// A hand-built game on one open room from (1, 1) to (20, 10).
fn small_game(multiplayer: bool) -> Game {
    let mut map = DungeonMap::new();
    for y in 1..11 {
        for x in 1..21 {
            map.set(x, y, Tile::Floor);
        }
    }
    map.rooms.push(Room::new(1, 1, 20, 10));
    Game {
        state: GameState::Playing,
        map,
        player: Player::new(5, 5),
        player2: if multiplayer { Some(Player::new(6, 5)) } else { None },
        monsters: Vec::new(),
        level: 1,
        status_msg: String::new(),
        status_msg2: String::new(),
        multiplayer,
        rng: StdRng::seed_from_u64(3),
    }
}

#[test]
fn a_new_game_starts_in_the_first_room() {
    for mp in [false, true] {
        let g = Game::new(mp);
        assert!(g.state == GameState::Playing);
        assert_eq!(g.level, 1);
        assert_eq!(g.status_msg, "Welcome to Dagger Deep!");
        assert_eq!(g.status_msg2, "Welcome to Dagger Deep!");
        let (cx, cy) = g.map.rooms[0].center();
        assert_eq!((g.player.x, g.player.y, g.player.hp), (cx, cy, 20));
        match &g.player2 {
            Some(p) => assert!(mp && (p.x, p.y) == (cx + 1, cy)),
            None => assert!(!mp),
        }
        assert_eq!(g.monsters.len(), 3);
        let kinds: Vec<MonsterKind> = g.monsters.iter().map(|m| m.kind).collect();
        assert_eq!(kinds, vec![MonsterKind::Goblin, MonsterKind::Mage, MonsterKind::Rat]);
        for m in &g.monsters {
            let expected = m.kind.starting_hp();
            let expected = if mp { (expected * 3 + 1) / 2 } else { expected };
            assert_eq!((m.hp, m.max_hp), (expected, expected));
        }
    }
}

#[test]
fn walls_and_the_map_edge_stop_a_step() {
    let mut g = small_game(false);
    g.player.x = 1;
    g.player.y = 1;
    g.move_player(-1, 0);
    g.move_player(0, -1);
    assert_eq!((g.player.x, g.player.y), (1, 1));
    g.move_player(1, 0);
    assert_eq!((g.player.x, g.player.y), (2, 1));
}

#[test]
fn a_potion_heals_fully_and_is_used_up() {
    let mut g = small_game(false);
    g.player.hp = 10;
    g.map.set(6, 5, Tile::Potion);
    g.move_player(1, 0);
    assert_eq!((g.player.x, g.player.hp), (6, 20));
    assert_eq!(g.map.get(6, 5), Tile::Floor);
    assert_eq!(g.status_msg, "You drank a potion and feel restored! (20 HP)");
}

#[test]
fn the_lich_chest_heals_everyone() {
    let mut g = small_game(true);
    g.player.hp = 3;
    g.player2.as_mut().unwrap().hp = 4;
    g.map.set(5, 6, Tile::LichChest);
    g.move_player(0, 1);
    assert_eq!(g.player.hp, 20);
    assert_eq!(g.player2.as_ref().unwrap().hp, 20);
    assert_eq!(g.map.get(5, 6), Tile::Floor);
    let msg = "The Lich's essence becomes a healing light! All players are fully restored!";
    assert_eq!(g.status_msg, msg);
    assert_eq!(g.status_msg2, msg);
}

#[test]
fn a_chest_is_food_a_trap_or_empty_and_then_floor() {
    for seed in 0..60 {
        let mut g = small_game(false);
        g.rng = StdRng::seed_from_u64(seed);
        g.player.hp = 10;
        g.map.set(5, 6, Tile::Chest);
        g.move_player(0, 1);
        assert_eq!(g.map.get(5, 6), Tile::Floor);
        let msg = g.status_msg.clone();
        if msg.starts_with("The chest contains food!") {
            assert_eq!(msg, "The chest contains food! You are fully healed! (20 HP)");
            assert_eq!(g.player.hp, 20);
        } else if msg.starts_with("The chest was a trap!") {
            let dmg = 10 - g.player.hp;
            assert!((1..=6).contains(&dmg));
            assert_eq!(msg, format!("The chest was a trap! You take {} damage! ({} HP left)", dmg, g.player.hp));
        } else {
            assert_eq!(msg, "The chest was empty.");
            assert_eq!(g.player.hp, 10);
        }
    }
}

#[test]
fn the_stairs_appear_once_the_last_monster_falls() {
    let mut g = small_game(false);
    let mut m = Monster::new(6, 5, MonsterKind::Rat);
    m.hp = 1;
    g.monsters.push(m);
    for _ in 0..100 {
        if !g.monsters[0].is_alive() {
            break;
        }
        g.player.hp = 100;
        g.move_player(1, 0);
    }
    assert!(!g.monsters[0].is_alive());
    assert_eq!((g.player.x, g.player.y), (5, 5));
    let stairs: Vec<(usize, usize)> = (0..MAP_HEIGHT)
        .flat_map(|y| (0..MAP_WIDTH).map(move |x| (x, y)))
        .filter(|&(x, y)| g.map.get(x, y) == Tile::Stair)
        .collect();
    assert_eq!(stairs.len(), 1);
    assert_ne!(stairs[0], (5, 5));
    assert_eq!(g.status_msg, "The way down is revealed...");
}

#[test]
fn stairs_lead_down_and_level_ten_stairs_win() {
    let mut g = small_game(true);
    g.map.set(5, 6, Tile::Stair);
    g.player.hp = 42;
    g.move_player(0, 1);
    assert_eq!(g.level, 2);
    assert_eq!(g.status_msg, "Level 2. Deeper into Dagger Deep...");
    assert_eq!(g.status_msg2, "Level 2. Deeper into Dagger Deep...");
    let (cx, cy) = g.map.rooms[0].center();
    assert_eq!((g.player.x, g.player.y, g.player.hp), (cx, cy, 42));
    let p2 = g.player2.unwrap();
    assert_eq!((p2.x, p2.y), (cx + 1, cy));

    let mut g = small_game(false);
    g.level = 10;
    g.map.set(5, 6, Tile::Stair);
    g.move_player(0, 1);
    assert!(g.state == GameState::Victory);
    assert_eq!(g.level, 10);
}

#[test]
fn a_lone_player_brought_down_by_a_monster_loses() {
    for seed in 0..200 {
        let mut g = small_game(false);
        g.rng = StdRng::seed_from_u64(seed);
        g.player.hp = 1;
        g.monsters.push(Monster::new(6, 5, MonsterKind::Goblin));
        g.move_monsters();
        if g.player.hp <= 0 {
            assert!(g.state == GameState::GameOver);
            return;
        }
        assert_eq!((g.monsters[0].x, g.monsters[0].y), (6, 5));
        assert_eq!(g.status_msg, "The Goblin missed you!");
    }
    panic!("no seed let the goblin land a hit");
}

#[test]
fn monsters_step_towards_the_nearer_player_and_respawn_the_fallen() {
    let mut g = small_game(true);
    g.player2.as_mut().unwrap().x = 15;
    g.monsters.push(Monster::new(15, 8, MonsterKind::Rat));
    g.move_monsters();
    assert_eq!((g.monsters[0].x, g.monsters[0].y), (15, 7));
    // ties between the axes go horizontal
    let mut g = small_game(false);
    g.monsters.push(Monster::new(8, 8, MonsterKind::Rat));
    g.move_monsters();
    assert_eq!((g.monsters[0].x, g.monsters[0].y), (7, 8));
    // in multiplayer a fallen first player comes back at half health
    for seed in 0..200 {
        let mut g = small_game(true);
        g.rng = StdRng::seed_from_u64(seed);
        g.player.x = 10;
        g.player.hp = 1;
        g.monsters.push(Monster::new(11, 5, MonsterKind::Goblin));
        g.move_monsters();
        if g.status_msg == "You were defeated and respawned!" {
            assert!(g.state == GameState::Playing);
            assert_eq!((g.player.x, g.player.y, g.player.hp), (11, 6, 10));
            return;
        }
    }
    panic!("no seed let the goblin land a hit");
}

#[test]
fn snapshots_carry_the_game_and_the_client_continues_alone() {
    let mut g = small_game(true);
    g.monsters.push(Monster::new(9, 9, MonsterKind::Lich));
    g.map.set(3, 3, Tile::Chest);
    g.level = 9;
    g.state = GameState::ConfirmQuit;
    let n = g.to_net_state();
    assert_eq!(n.map_tiles.len(), MAP_HEIGHT);
    assert_eq!(n.map_tiles[3][3], 5);
    assert_eq!(n.map_tiles[0][0], 0);
    assert_eq!(n.state, 3);
    assert_eq!(n.monsters[0].kind, 3);
    let solo = Game::from_net_state_solo(&n).unwrap();
    assert!(solo.state == GameState::Playing);
    assert_eq!((solo.player.x, solo.player.y), (6, 5));
    assert!(solo.player2.is_none() && !solo.multiplayer);
    assert_eq!(solo.level, 9);
    assert_eq!(solo.map.tiles, g.map.tiles);
    assert!(solo.map.rooms.is_empty());
    assert_eq!(solo.monsters[0].kind, MonsterKind::Lich);
    assert_eq!(solo.status_msg, "Host disconnected. Continuing solo!");
    assert_eq!(solo.status_msg2, "");
    let single = small_game(false).to_net_state();
    assert!(Game::from_net_state_solo(&single).is_none());
}

#[test]
fn keys_drive_the_single_player_loop() {
    let mut g = small_game(false);
    assert!(g.solo_key(Key::Esc));
    assert!(g.state == GameState::ConfirmQuit);
    assert!(g.solo_key(Key::Char('n', false)));
    assert!(g.state == GameState::Playing);
    assert!(g.solo_key(Key::Right));
    assert_eq!(g.player.x, 6);
    assert!(g.solo_key(Key::Char('+', false)));
    assert_eq!(g.level, 2);
    g.state = GameState::ConfirmQuit;
    assert!(g.solo_key(Key::Char('c', false)));
    assert!(!g.solo_key(Key::Char('c', true)));
    assert!(!g.solo_key(Key::Enter));
    g.state = GameState::GameOver;
    assert!(!g.solo_key(Key::Up));
}

#[test]
fn the_host_hands_client_moves_to_the_second_player() {
    let mut g = small_game(true);
    assert_eq!(g.host_client_msg(ClientMsg::Move(0, 1)), (true, true));
    assert_eq!(g.player2.unwrap().y, 6);
    assert_eq!(g.host_key(Key::Left), (true, true));
    assert_eq!(g.player.x, 4);
    assert_eq!(g.host_client_msg(ClientMsg::Quit), (false, false));
    assert!(g.player2.is_none());
    assert_eq!(g.status_msg, "P2 quit. Continuing solo.");
    g.lose_player2();
    assert_eq!(g.status_msg, "P2 disconnected. Continuing solo.");
}

#[test]
fn client_keys_menu_keys_and_screen_rules() {
    assert_eq!(client_key_message(Key::Up), Some(ClientMsg::Move(0, -1)));
    assert_eq!(client_key_message(Key::Right), Some(ClientMsg::Move(1, 0)));
    assert_eq!(client_key_message(Key::Esc), Some(ClientMsg::Quit));
    assert_eq!(client_key_message(Key::Enter), None);
    assert_eq!(menu_choice(Key::Char('S', false)), Some(MenuChoice::SinglePlayer));
    assert_eq!(menu_choice(Key::Char('h', false)), Some(MenuChoice::Host));
    assert_eq!(menu_choice(Key::Char('j', false)), Some(MenuChoice::Join));
    assert_eq!(menu_choice(Key::Esc), Some(MenuChoice::Quit));
    assert_eq!(menu_choice(Key::Char('x', false)), None);
    assert!(!hp_is_low(50, 100) && hp_is_low(49, 100) && hp_is_low(50, 101));
    assert!(!hp_is_low(10, 20) && hp_is_low(9, 20) && hp_is_low(-3, 20));
    assert_eq!(snapshot_overlay(1), Some(GameState::GameOver));
    assert_eq!(snapshot_overlay(3), None);

    let mut g = small_game(true);
    g.monsters.push(Monster::new(5, 5, MonsterKind::Rat));
    g.monsters.push(Monster::new(7, 5, MonsterKind::Mage));
    assert_eq!(g.glyph_at(5, 5), Glyph::Player1);
    assert_eq!(g.glyph_at(6, 5), Glyph::Player2);
    assert_eq!(g.glyph_at(7, 5), Glyph::Monster(MonsterKind::Mage));
    assert_eq!(g.glyph_at(8, 5), Glyph::Tile(Tile::Floor));
    assert_eq!(g.glyph_at(0, 0), Glyph::Tile(Tile::Wall));
    let n = g.to_net_state();
    assert_eq!(n.glyph_at(7, 5), Glyph::Monster(MonsterKind::Mage));
    assert_eq!(n.glyph_at(200, 200), Glyph::Tile(Tile::Wall));
}

#[test]
fn a_terminal_under_100_by_30_is_refused() {
    assert_eq!(terminal_size_ok(100, 30), Ok(()));
    assert_eq!(terminal_size_ok(250, 80), Ok(()));
    assert_eq!(
        terminal_size_ok(99, 40),
        Err(String::from("Terminal too small: 99×40. Minimum required: 100×30."))
    );
    assert_eq!(
        terminal_size_ok(120, 29),
        Err(String::from("Terminal too small: 120×29. Minimum required: 100×30."))
    );
}

#[test]
fn the_range_checks_guard_the_moves() {
    let mut g = small_game(true);
    assert!(g.numbers_fit());
    g.monsters.push(Monster::new(7, 5, MonsterKind::Rat));
    assert!(g.numbers_fit());
    g.monsters[0].hp = 1_000_000_001;
    assert!(!g.numbers_fit());
    let mut g = small_game(true);
    g.player2.as_mut().unwrap().x = 1_000_001;
    assert!(!g.numbers_fit());
    let g = small_game(true);
    assert!(g.client_msg_fits(ClientMsg::Move(1, -1)));
    assert!(g.client_msg_fits(ClientMsg::Quit));
    assert!(!g.client_msg_fits(ClientMsg::Move(i32::MAX, 0)));
    assert!(g.client_msg_fits(ClientMsg::Move(i32::MIN + 10, 0)));
    assert!(small_game(false).client_msg_fits(ClientMsg::Move(i32::MAX, i32::MAX)));
}

#[test]
fn a_round_ends_with_the_monsters_turn_only_after_an_action() {
    let mut g = small_game(false);
    g.monsters.push(Monster::new(8, 8, MonsterKind::Rat));
    g.end_round(false);
    assert_eq!((g.monsters[0].x, g.monsters[0].y), (8, 8));
    g.end_round(true);
    assert_eq!((g.monsters[0].x, g.monsters[0].y), (7, 8));
    g.state = GameState::ConfirmQuit;
    g.end_round(true);
    assert_eq!((g.monsters[0].x, g.monsters[0].y), (7, 8));
}

#[test]
fn a_fallen_second_player_respawns_and_the_first_player_is_told() {
    for seed in 0..200 {
        let mut g = small_game(true);
        g.rng = StdRng::seed_from_u64(seed);
        g.player.x = 15;
        g.player2.as_mut().unwrap().hp = 1;
        g.monsters.push(Monster::new(7, 5, MonsterKind::Goblin));
        g.move_monsters();
        if g.status_msg2 == "You were defeated and respawned!" {
            assert_eq!(g.status_msg, "P2 was defeated and respawned!");
            let p2 = g.player2.unwrap();
            assert_eq!((p2.x, p2.y, p2.hp), (12, 6, 10));
            assert!(g.state == GameState::Playing);
            return;
        }
    }
    panic!("no seed let the goblin land a hit");
}

#[test]
fn a_blocked_step_draws_nothing() {
    let mut g = small_game(true);
    g.player.x = 1;
    g.player.y = 1;
    let before = g.rng.clone();
    g.move_player(-1, 0);
    g.move_player(0, -1);
    g.move_player2(0, 10);
    assert_eq!((g.player.x, g.player.y), (1, 1));
    assert!(g.rng == before);
    g.monsters.push(Monster::new(9, 9, MonsterKind::Rat));
    g.try_spawn_stair();
    assert!(g.rng == before);
}

#[test]
fn fresh_levels_keep_potions_off_the_players_and_rooms_off_the_edges() {
    for _ in 0..30 {
        for mp in [false, true] {
            let g = Game::new(mp);
            assert!(g.map.get(g.player.x, g.player.y) != Tile::Potion);
            if let Some(p) = &g.player2 {
                assert!(g.map.get(p.x, p.y) != Tile::Potion);
            }
            for r in &g.map.rooms {
                assert!(r.x >= 1 && r.y >= 1);
                assert!(r.x + r.w <= MAP_WIDTH - 2 && r.y + r.h <= MAP_HEIGHT - 2);
            }
        }
    }
}

#[test]
fn the_end_of_a_client_session_shows_the_end_screen_or_connection_lost() {
    assert_eq!(after_session(&None), AfterSession::Lost);
    let running = small_game(true).to_net_state();
    assert_eq!(after_session(&Some(running)), AfterSession::Lost);
    let mut over = small_game(true);
    over.state = GameState::Victory;
    assert_eq!(after_session(&Some(over.to_net_state())), AfterSession::EndScreen);
    over.state = GameState::GameOver;
    assert_eq!(after_session(&Some(over.to_net_state())), AfterSession::EndScreen);
}

#[test]
fn keys_in_an_ended_game_or_at_the_quit_question_draw_nothing() {
    let mut g = small_game(false);
    g.monsters.push(Monster::new(8, 8, MonsterKind::Rat));
    let before = g.rng.clone();
    assert!(g.solo_key(Key::Esc));
    assert!(g.solo_key(Key::Char('x', false)));
    assert!(g.solo_key(Key::Esc));
    assert!(g.rng == before);
    g.state = GameState::GameOver;
    assert!(!g.solo_key(Key::Up));
    assert!(g.rng == before);
    assert_eq!((g.monsters[0].x, g.monsters[0].y), (8, 8));
}

#[test]
fn with_four_rooms_each_regular_monster_gets_its_own_room() {
    for _ in 0..30 {
        let g = Game::new(false);
        if g.map.rooms.len() >= 4 {
            for i in 0..3 {
                let m = &g.monsters[i];
                let r = &g.map.rooms[i + 1];
                assert!(r.x <= m.x && m.x < r.x + r.w && r.y <= m.y && m.y < r.y + r.h);
            }
        }
    }
}

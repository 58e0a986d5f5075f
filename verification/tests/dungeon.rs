use rand::rngs::StdRng;
use rand::SeedableRng;
use tui_rogue::dungeon::{generate, DungeonMap, Room, Tile, MAP_HEIGHT, MAP_WIDTH};
use tui_rogue::entity::{Monster, MonsterKind, Player};

#[test]
fn a_new_map_is_all_wall_and_has_no_rooms() {
    let map = DungeonMap::new();
    assert_eq!(map.tiles.len(), MAP_HEIGHT);
    assert!(map.tiles.iter().all(|row| row.len() == MAP_WIDTH && row.iter().all(|t| *t == Tile::Wall)));
    assert!(map.rooms.is_empty());
}

#[test]
fn get_reads_what_set_wrote_and_off_the_map_is_wall() {
    let mut map = DungeonMap::new();
    map.set(3, 4, Tile::Potion);
    assert_eq!(map.get(3, 4), Tile::Potion);
    assert_eq!(map.get(4, 3), Tile::Wall);
    map.set(MAP_WIDTH, 0, Tile::Floor);
    map.set(0, MAP_HEIGHT, Tile::Floor);
    assert_eq!(map.get(MAP_WIDTH, 0), Tile::Wall);
    assert_eq!(map.get(0, MAP_HEIGHT), Tile::Wall);
    assert!(map.tiles.iter().flatten().filter(|t| **t != Tile::Wall).count() == 1);
}

#[test]
fn every_tile_but_a_wall_is_walkable() {
    let mut map = DungeonMap::new();
    let all = [Tile::Floor, Tile::Corridor, Tile::Stair, Tile::Potion, Tile::Chest, Tile::LichChest];
    for (i, t) in all.iter().enumerate() {
        map.set(i + 1, 1, *t);
        assert!(map.is_walkable(i + 1, 1));
    }
    assert!(!map.is_walkable(0, 0));
    assert!(!map.is_walkable(MAP_WIDTH, 1));
    assert!(!map.is_walkable(1, MAP_HEIGHT));
}

#[test]
fn tile_bytes_round_trip_and_unknown_bytes_are_walls() {
    let all = [Tile::Wall, Tile::Floor, Tile::Corridor, Tile::Stair, Tile::Potion, Tile::Chest, Tile::LichChest];
    for (i, t) in all.iter().enumerate() {
        assert_eq!(t.to_byte(), i as u8);
        assert_eq!(Tile::from(i as u8), *t);
    }
    assert_eq!(Tile::from(7u8), Tile::Wall);
    assert_eq!(Tile::from(255u8), Tile::Wall);
}

#[test]
fn room_center_and_overlap() {
    let a = Room::new(1, 1, 4, 4);
    assert_eq!(a.center(), (3, 3));
    let b = Room::new(5, 1, 4, 4);
    let c = Room::new(6, 1, 4, 4);
    // touching rooms count as overlapping; one free column keeps them apart
    assert!(a.overlaps(&b) && b.overlaps(&a));
    assert!(!a.overlaps(&c) && !c.overlaps(&a));
    assert!(a.overlaps(&a));
    let far = Room::new(usize::MAX - 2, usize::MAX - 2, 4, 4);
    assert!(!a.overlaps(&far));
}

#[test]
fn generated_maps_hold_apart_rooms_joined_by_corridors() {
    for seed in 0..40 {
        let mut rng = StdRng::seed_from_u64(seed);
        let map = generate(&mut rng);
        assert_eq!(map.tiles.len(), MAP_HEIGHT);
        assert!(!map.rooms.is_empty() && map.rooms.len() <= 10);
        for (i, r) in map.rooms.iter().enumerate() {
            assert!((4..=10).contains(&r.w) && (4..=8).contains(&r.h));
            assert!(r.x >= 1 && r.y >= 1 && r.x + r.w < MAP_WIDTH && r.y + r.h < MAP_HEIGHT);
            for y in r.y..r.y + r.h {
                for x in r.x..r.x + r.w {
                    assert_eq!(map.get(x, y), Tile::Floor);
                }
            }
            for other in &map.rooms[..i] {
                assert!(!other.overlaps(r));
            }
        }
        assert!(map.tiles.iter().flatten().all(|t| matches!(t, Tile::Wall | Tile::Floor | Tile::Corridor)));
        for w in map.rooms.windows(2) {
            let (px, py) = w[0].center();
            let (cx, cy) = w[1].center();
            for x in px.min(cx)..=px.max(cx) {
                assert!(map.is_walkable(x, py));
            }
            for y in py.min(cy)..=py.max(cy) {
                assert!(map.is_walkable(cx, y));
            }
        }
    }
}

#[test]
fn monster_kinds_have_their_glyphs_names_and_hit_points() {
    let kinds = [MonsterKind::Goblin, MonsterKind::Mage, MonsterKind::Rat, MonsterKind::Lich];
    let chars = ['G', 'M', 'R', 'L'];
    let names = ["Goblin", "Mage", "Rat", "Lich"];
    let hps = [8, 12, 5, 40];
    for i in 0..4 {
        assert_eq!(kinds[i].char(), chars[i]);
        assert_eq!(kinds[i].name(), names[i]);
        assert_eq!(kinds[i].starting_hp(), hps[i]);
        assert_eq!(kinds[i].to_byte(), i as u8);
        assert_eq!(MonsterKind::from(i as u8), kinds[i]);
    }
    assert_eq!(MonsterKind::from(9u8), MonsterKind::Goblin);
}

#[test]
fn fresh_entities() {
    let p = Player::new(2, 3);
    assert_eq!((p.x, p.y, p.hp, p.max_hp), (2, 3, 20, 20));
    let mut m = Monster::new(4, 5, MonsterKind::Mage);
    assert_eq!((m.x, m.y, m.hp, m.max_hp, m.alive, m.teleported), (4, 5, 12, 12, true, false));
    assert!(m.is_alive());
    m.hp = 0;
    assert!(!m.is_alive());
    m.hp = 3;
    m.alive = false;
    assert!(!m.is_alive());
}

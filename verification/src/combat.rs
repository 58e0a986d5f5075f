//! Dice and attack resolution.

use rand::rngs::StdRng;
use vstd::prelude::*;

use crate::dice::draw;
use crate::entity::{Monster, MonsterKind, Player};
use crate::text::{i32_string, int_text};

verus! {

/// A die roll: one to six.
pub open spec fn d6(r: int) -> bool {
    1 <= r <= 6
}

/// Integer division rounding towards zero, as Rust's `/` does on `i32`.
pub open spec fn trunc_div(a: int, d: int) -> int {
    if a >= 0 { a / d } else { -((-a) / d) }
}

pub open spec fn larger(a: int, b: int) -> int {
    if a >= b { a } else { b }
}

pub open spec fn smaller(a: int, b: int) -> int {
    if a <= b { a } else { b }
}

/// The message of an attack on a monster that is already dead.
pub open spec fn already_dead_text(k: MonsterKind) -> Seq<char> {
    "The "@ + k.name_text() + " is already dead."@
}

pub open spec fn player_miss_text(k: MonsterKind) -> Seq<char> {
    "You missed the "@ + k.name_text() + "!"@
}

pub open spec fn slew_text(k: MonsterKind, hp: int, max_hp: int) -> Seq<char> {
    "You slew the "@ + k.name_text() + "! +1 max HP (now "@ + int_text(hp) + "/"@ + int_text(max_hp) + ")"@
}

pub open spec fn player_hit_text(k: MonsterKind, damage: int, hp: int, max_hp: int) -> Seq<char> {
    "You hit the "@ + k.name_text() + " for "@ + int_text(damage) + " damage! ("@
        + int_text(larger(hp, 0)) + "/"@ + int_text(max_hp) + " HP)"@
}

pub open spec fn monster_miss_text(k: MonsterKind) -> Seq<char> {
    "The "@ + k.name_text() + " missed you!"@
}

pub open spec fn monster_hit_text(k: MonsterKind, damage: int, hp: int, max_hp: int) -> Seq<char> {
    "The "@ + k.name_text() + " hits you for "@ + int_text(damage) + " damage! ("@
        + int_text(larger(hp, 0)) + "/"@ + int_text(max_hp) + " HP)"@
}

/// A player's attack on a monster, given the hit roll and the damage roll.
/// A dead monster is not attacked; a hit roll below 4 misses; otherwise the
/// damage roll comes off the monster's hit points, and a monster brought to
/// zero or below dies, raising the player's maximum by one and healing one
/// point (never above the new maximum). The result is the player, the monster
/// and the message.
pub open spec fn player_attack_result(p: Player, m: Monster, hit: int, dmg: int) -> (Player, Monster, Seq<char>) {
    if !m.alive {
        (p, m, already_dead_text(m.kind))
    } else if hit < 4 {
        (p, m, player_miss_text(m.kind))
    } else {
        let hp = m.hp - dmg;
        if hp <= 0 {
            let max_hp = p.max_hp + 1;
            let php = smaller(p.hp + 1, max_hp);
            (
                Player { hp: php as i32, max_hp: max_hp as i32, ..p },
                Monster { hp: hp as i32, alive: false, ..m },
                slew_text(m.kind, php, max_hp),
            )
        } else {
            (p, Monster { hp: hp as i32, ..m }, player_hit_text(m.kind, dmg, hp, m.max_hp as int))
        }
    }
}

/// The damage of a monster's landed hit, given its damage rolls: a Lich deals
/// both dice added; another monster deals the first die, or the larger of the
/// two in multiplayer. From level 7 down every landed hit of a monster other
/// than the Lich deals 2 more.
pub open spec fn monster_damage(k: MonsterKind, d1: int, d2: int, multiplayer: bool, level: int) -> int {
    let base = if k == MonsterKind::Lich {
        d1 + d2
    } else if multiplayer {
        larger(d1, d2)
    } else {
        d1
    };
    if level >= 7 && k != MonsterKind::Lich { base + 2 } else { base }
}

/// A monster's attack on a player, given the hit roll and two damage dice:
/// below 4 it misses; otherwise the damage comes off the player's hit points.
/// The result is the player, the message, and whether the player is down to
/// zero hit points or below.
pub open spec fn monster_attack_result(
    m: Monster,
    p: Player,
    hit: int,
    d1: int,
    d2: int,
    multiplayer: bool,
    level: int,
) -> (Player, Seq<char>, bool) {
    if hit < 4 {
        (p, monster_miss_text(m.kind), false)
    } else {
        let damage = monster_damage(m.kind, d1, d2, multiplayer, level);
        let hp = p.hp - damage;
        (Player { hp: hp as i32, ..p }, monster_hit_text(m.kind, damage, hp, p.max_hp as int), hp <= 0)
    }
}

/// Hit points stay far from the ends of `i32`, so that no attack overflows:
/// a blow takes at most 14 points (two dice and the deep-level bonus) and a
/// kill adds one, and `i32` reaches past 2.14e9 on either side.
pub open spec fn hp_in_range(hp: int) -> bool {
    -2_000_000_000 <= hp <= 2_000_000_000
}

/// Rolls a six-sided die.
pub fn roll_d6(rng: &mut StdRng) -> (r: i32)
    ensures
        d6(r as int),
{
    let r = draw(rng, 1, 7);
    r as i32
}

/// The player attacks the monster with the given hit roll and damage roll;
/// returns the message. Exactly `player_attack_result`.
pub fn player_attack(player: &mut Player, monster: &mut Monster, hit_roll: i32, damage_roll: i32) -> (msg: String)
    requires
        d6(hit_roll as int),
        d6(damage_roll as int),
        hp_in_range(old(player).hp as int),
        hp_in_range(old(player).max_hp as int),
        hp_in_range(old(monster).hp as int),
    ensures
        (*final(player), *final(monster), msg@) == player_attack_result(*old(player), *old(monster), hit_roll as int, damage_roll as int),
{
    let name = monster.kind.name();
    if !monster.alive {
        let mut s = String::from_str("The ");
        s.append(name);
        s.append(" is already dead.");
        return s;
    }
    if hit_roll < 4 {
        let mut s = String::from_str("You missed the ");
        s.append(name);
        s.append("!");
        return s;
    }
    monster.hp = monster.hp - damage_roll;
    if monster.hp <= 0 {
        monster.alive = false;
        player.max_hp = player.max_hp + 1;
        player.hp = if player.hp + 1 <= player.max_hp { player.hp + 1 } else { player.max_hp };
        let mut s = String::from_str("You slew the ");
        s.append(name);
        s.append("! +1 max HP (now ");
        s.append(i32_string(player.hp).as_str());
        s.append("/");
        s.append(i32_string(player.max_hp).as_str());
        s.append(")");
        return s;
    }
    let shown = if monster.hp >= 0 { monster.hp } else { 0 };
    let mut s = String::from_str("You hit the ");
    s.append(name);
    s.append(" for ");
    s.append(i32_string(damage_roll).as_str());
    s.append(" damage! (");
    s.append(i32_string(shown).as_str());
    s.append("/");
    s.append(i32_string(monster.max_hp).as_str());
    s.append(" HP)");
    s
}

/// The player attacks the monster: a hit roll and, when that hits a living
/// monster, a damage roll. Whatever the dice show, the outcome is
/// `player_attack_result` for some two rolls of a die. Nothing is drawn for
/// a monster that is already dead.
pub fn resolve_player_attack(player: &mut Player, monster: &mut Monster, rng: &mut StdRng) -> (msg: String)
    requires
        hp_in_range(old(player).hp as int),
        hp_in_range(old(player).max_hp as int),
        hp_in_range(old(monster).hp as int),
    ensures
        exists|hit: int, dmg: int| d6(hit) && d6(dmg)
            && (*final(player), *final(monster), msg@) == player_attack_result(*old(player), *old(monster), hit, dmg),
        !old(monster).alive ==> *final(rng) == *old(rng),
{
    if !monster.alive {
        let msg = player_attack(player, monster, 1, 1);
        assert(d6(1));
        return msg;
    }
    let hit_roll = roll_d6(rng);
    let damage_roll = if hit_roll < 4 { 1 } else { roll_d6(rng) };
    player_attack(player, monster, hit_roll, damage_roll)
}

/// The monster attacks the player with the given hit roll and damage dice;
/// returns the message and whether the player is down. Exactly
/// `monster_attack_result`.
pub fn monster_attack(
    monster: &Monster,
    player: &mut Player,
    hit_roll: i32,
    die1: i32,
    die2: i32,
    multiplayer: bool,
    level: u8,
) -> (res: (String, bool))
    requires
        d6(hit_roll as int),
        d6(die1 as int),
        d6(die2 as int),
        hp_in_range(old(player).hp as int),
    ensures
        (*final(player), res.0@, res.1) == monster_attack_result(*monster, *old(player), hit_roll as int, die1 as int, die2 as int, multiplayer, level as int),
{
    let name = monster.kind.name();
    if hit_roll < 4 {
        let mut s = String::from_str("The ");
        s.append(name);
        s.append(" missed you!");
        return (s, false);
    }
    let mut damage = if monster.kind == MonsterKind::Lich {
        die1 + die2
    } else if multiplayer {
        if die1 >= die2 { die1 } else { die2 }
    } else {
        die1
    };
    if level >= 7 && monster.kind != MonsterKind::Lich {
        damage = damage + 2;
    }
    player.hp = player.hp - damage;
    let died = player.hp <= 0;
    let shown = if player.hp >= 0 { player.hp } else { 0 };
    let mut s = String::from_str("The ");
    s.append(name);
    s.append(" hits you for ");
    s.append(i32_string(damage).as_str());
    s.append(" damage! (");
    s.append(i32_string(shown).as_str());
    s.append("/");
    s.append(i32_string(player.max_hp).as_str());
    s.append(" HP)");
    (s, died)
}

/// The monster attacks the player: a hit roll and, on a hit, the damage dice
/// (two for a Lich or in multiplayer, else one). Whatever the dice show, the
/// outcome is `monster_attack_result` for some rolls of a die.
pub fn resolve_monster_attack(
    monster: &Monster,
    player: &mut Player,
    rng: &mut StdRng,
    multiplayer: bool,
    level: u8,
) -> (res: (String, bool))
    requires
        hp_in_range(old(player).hp as int),
    ensures
        exists|hit: int, d1: int, d2: int| d6(hit) && d6(d1) && d6(d2)
            && (*final(player), res.0@, res.1) == monster_attack_result(*monster, *old(player), hit, d1, d2, multiplayer, level as int),
{
    let hit_roll = roll_d6(rng);
    if hit_roll < 4 {
        return monster_attack(monster, player, hit_roll, 1, 1, multiplayer, level);
    }
    let die1 = roll_d6(rng);
    let die2 = if monster.kind == MonsterKind::Lich || multiplayer { roll_d6(rng) } else { 1 };
    monster_attack(monster, player, hit_roll, die1, die2, multiplayer, level)
}

/// From level 7 down, every landed hit of a monster other than the Lich deals
/// exactly 2 more than the same dice deal above level 7, alone or in
/// multiplayer.
pub proof fn lemma_deep_levels_add_two(k: MonsterKind, d1: int, d2: int, multiplayer: bool, deep: int, shallow: int)
    requires
        k != MonsterKind::Lich,
        deep >= 7,
        shallow < 7,
    ensures
        monster_damage(k, d1, d2, multiplayer, deep) == monster_damage(k, d1, d2, multiplayer, shallow) + 2,
{
}

/// The Lich deals the same damage at every depth.
pub proof fn lemma_lich_damage_ignores_depth(d1: int, d2: int, multiplayer: bool, l1: int, l2: int)
    ensures
        monster_damage(MonsterKind::Lich, d1, d2, multiplayer, l1) == monster_damage(MonsterKind::Lich, d1, d2, multiplayer, l2),
{
}

/// Above level 7 the depth does not change a monster's damage.
pub proof fn lemma_shallow_levels_alike(k: MonsterKind, d1: int, d2: int, multiplayer: bool, l1: int, l2: int)
    requires
        l1 < 7,
        l2 < 7,
    ensures
        monster_damage(k, d1, d2, multiplayer, l1) == monster_damage(k, d1, d2, multiplayer, l2),
{
}

/// The bands of damage: a Lich deals 2 to 12; another monster deals 1 to 6,
/// or 3 to 8 from level 7 down.
pub proof fn lemma_damage_bands(k: MonsterKind, d1: int, d2: int, multiplayer: bool, level: int)
    requires
        d6(d1),
        d6(d2),
    ensures
        k == MonsterKind::Lich ==> 2 <= monster_damage(k, d1, d2, multiplayer, level) <= 12,
        k != MonsterKind::Lich && level < 7 ==> 1 <= monster_damage(k, d1, d2, multiplayer, level) <= 6,
        k != MonsterKind::Lich && level >= 7 ==> 3 <= monster_damage(k, d1, d2, multiplayer, level) <= 8,
{
}

/// A landed blow takes exactly its damage roll off a living monster's hit
/// points, so different rolls leave different hit points; and a landed hit of
/// a monster takes off the player's hit points its first die alone (for a
/// monster other than the Lich, alone, above level 7), the larger die in
/// multiplayer, and both dice for a Lich.
pub proof fn lemma_hits_take_the_rolls(p: Player, m: Monster, hit: int, d1: int, d2: int, multiplayer: bool, level: int)
    requires
        hit >= 4,
        d6(d1),
        d6(d2),
        hp_in_range(p.hp as int),
        hp_in_range(m.hp as int),
        hp_in_range(p.max_hp as int),
    ensures
        m.alive ==> player_attack_result(p, m, hit, d1).1.hp == m.hp - d1,
        m.alive && d1 != d2 ==> player_attack_result(p, m, hit, d1).1.hp != player_attack_result(p, m, hit, d2).1.hp,
        m.kind != MonsterKind::Lich && !multiplayer && level < 7
            ==> monster_attack_result(m, p, hit, d1, d2, multiplayer, level).0.hp == p.hp - d1,
        m.kind != MonsterKind::Lich && multiplayer && level < 7
            ==> monster_attack_result(m, p, hit, d1, d2, multiplayer, level).0.hp == p.hp - larger(d1, d2),
        m.kind == MonsterKind::Lich ==> monster_attack_result(m, p, hit, d1, d2, multiplayer, level).0.hp == p.hp - (d1 + d2),
{
}

/// A miss changes nothing but the message, for either side.
pub proof fn lemma_misses_change_nothing(p: Player, m: Monster, hit: int, d1: int, d2: int, multiplayer: bool, level: int)
    requires
        hit < 4,
    ensures
        player_attack_result(p, m, hit, d1).0 == p,
        player_attack_result(p, m, hit, d1).1 == m,
        monster_attack_result(m, p, hit, d1, d2, multiplayer, level).0 == p,
        !monster_attack_result(m, p, hit, d1, d2, multiplayer, level).2,
{
}

/// Slaying a monster raises the player's maximum hit points by one and heals
/// one point, never above the new maximum; the monster is then dead.
pub proof fn lemma_slaying_rewards(p: Player, m: Monster, hit: int, dmg: int)
    requires
        m.alive,
        hit >= 4,
        m.hp - dmg <= 0,
        hp_in_range(p.hp as int),
        hp_in_range(p.max_hp as int),
        hp_in_range(m.hp as int),
        d6(dmg),
    ensures
        player_attack_result(p, m, hit, dmg).0.max_hp == p.max_hp + 1,
        player_attack_result(p, m, hit, dmg).0.hp == smaller(p.hp + 1, p.max_hp + 1),
        !player_attack_result(p, m, hit, dmg).1.living(),
{
}

/// With the same dice, a landed hit of a monster other than the Lich costs
/// the player exactly 2 more hit points from level 7 down than above it; a
/// miss stays a miss at every depth.
pub proof fn lemma_deep_hits_cost_two_more(m: Monster, p: Player, hit: int, d1: int, d2: int, multiplayer: bool, deep: int, shallow: int)
    requires
        m.kind != MonsterKind::Lich,
        deep >= 7,
        shallow < 7,
        d6(d1),
        d6(d2),
        hp_in_range(p.hp as int),
    ensures
        hit >= 4 ==> monster_attack_result(m, p, hit, d1, d2, multiplayer, deep).0.hp
            == monster_attack_result(m, p, hit, d1, d2, multiplayer, shallow).0.hp - 2,
        hit < 4 ==> monster_attack_result(m, p, hit, d1, d2, multiplayer, deep).0
            == monster_attack_result(m, p, hit, d1, d2, multiplayer, shallow).0,
{
}

} // verus!

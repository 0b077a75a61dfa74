use dminion::dice::DiceExpr;
use dminion::game::common::{cr_string, modifer, xp, Stats};
use dminion::game::conditions::{Condition, BLOODIED, DEAD, INCAPACITATED, PRONE, RESTRAINED};
use dminion::game::damage::{Damage, Healing};
use dminion::game::duration::Duration as Lasting;
use dminion::game::expiry::Expiry;
use dminion::game::lair::Lair;
use dminion::game::monster::Monster;
use dminion::game::participant::{Action, Participant};
use dminion::game::player::{Player, PlayerDef};
use dminion::game::common::Class;
use dminion::game::time::{Duration, Time};
use std::cmp::Ordering;

fn stats() -> Stats {
    Stats { str: 8, dex: 15, con: 10, int: 10, wis: 8, cha: 8 }
}

fn goblin() -> Monster {
    Monster {
        name: "Gobbo".into(),
        subtype: "Small Humanoid (Goblin)".into(),
        stats: stats(),
        cr: 1,
        ac: 14,
        initiative_bonus: 0,
        small_portrait: None,
        full_portrait: None,
        hit_dice: DiceExpr::parse("3d6").unwrap(),
        initiative: 12,
        action: false,
        hp: 16,
        temp_hp: 0,
        max_hp: 16,
        reaction: false,
        bonus_action: false,
        legendary_actions: vec![false, false],
        legendary_action_count: 2,
        notes: String::new(),
        tiebreaker: -456,
        conditions: vec![],
        is_hostile: true,
    }
}

fn hero() -> Player {
    Player {
        name: "Heroic Joe".into(),
        classes: vec![Class { name: "Fighter".into(), level: 5 }],
        stats: stats(),
        ac: 18,
        initiative_bonus: 0,
        small_portrait: None,
        full_portrait: None,
        initiative: 15,
        action: false,
        reaction: false,
        bonus_action: false,
        notes: String::new(),
        tiebreaker: 123,
        conditions: vec![],
    }
}

fn lair() -> Lair {
    Lair { name: "Lair".into(), notes: String::new(), action: false, small_portrait: None, full_portrait: None }
}

#[test]
fn time_in_minutes_and_seconds() {
    let t = Time::new(25, 3);
    assert_eq!(t.total_secs(), 150);
    assert_eq!(t.mins(), 2);
    assert_eq!(t.secs(), 30);
    let d = Duration::from_secs(65);
    assert_eq!(d, Duration::_from_rounds(10));
    assert_eq!(d.total_secs(), 60);
    assert_eq!(d.mins(), 1);
    assert_eq!(d.secs(), 0);
    let back = Duration::from_secs(-65);
    assert_eq!(back, Duration::_from_rounds(-10));
    let odd = Duration::_from_rounds(-11);
    assert_eq!(odd.total_secs(), -66);
    assert_eq!(odd.mins(), -1);
    assert_eq!(odd.secs(), 6);
    assert_eq!(t.plus(d), Time::new(35, 3));
    assert_eq!(Time::new(35, 0).since(t), Duration::_from_rounds(10));
    assert_eq!(t.minus(d), Time::new(0, 3));
    assert_eq!(Time::new(2, 1).minus(Duration::_from_rounds(3)), Time::new(u32::MAX, 1));
    assert!(Time::new(2, 5).has_reached(&Time::new(2, 5)));
    assert!(Time::new(3, 0).has_reached(&Time::new(2, 5)));
    assert!(!Time::new(2, 4).has_reached(&Time::new(2, 5)));
}

#[test]
fn conditions_by_name() {
    let t = Time::new(1, 10);
    let c = Condition::blinded(t);
    assert_eq!(c.name, "blinded");
    assert_eq!(c.start_time, t);
    assert_eq!(c.expiry, Expiry::Never);
    assert_eq!(c.instigator, None);
    assert_eq!(Condition::bloodied(t).name, BLOODIED);
    assert_eq!(Condition::charmed(t).name, "charmed");
    assert_eq!(Condition::concentrating(t).name, "concentrating");
    assert_eq!(Condition::dead(t).name, DEAD);
    assert_eq!(Condition::deafened(t).name, "deafened");
    assert_eq!(Condition::frightened(t).name, "frightened");
    assert_eq!(Condition::grappled(t).name, "grappled");
    assert_eq!(Condition::incapacitated(t).name, "incapacitated");
    assert_eq!(Condition::invisible(t).name, "invisible");
    assert_eq!(Condition::marked(t).name, "marked");
    assert_eq!(Condition::paralyzed(t).name, "paralyzed");
    assert_eq!(Condition::petrified(t).name, "petrified");
    assert_eq!(Condition::poisoned(t).name, "poisoned");
    assert_eq!(Condition::prone(t).name, "prone");
    assert_eq!(Condition::restrained(t).name, "restrained");
    assert_eq!(Condition::stunned(t).name, "stunned");
    assert_eq!(Condition::surprised(t).name, "surprised");
    assert_eq!(Condition::unconscious(t).name, "unconscious");
    let c = Condition::new("hexed".into(), t)
        .with_expiry(Expiry::NextTurnEnd)
        .with_instigator(7);
    assert_eq!(c.expiry, Expiry::NextTurnEnd);
    assert_eq!(c.instigator, Some(7));
    assert_eq!(c.to_string(), "hexed");
    assert_eq!(c.clone(), c);
}

#[test]
fn condition_expiry_and_implications() {
    let t = Time::new(4, 10);
    assert!(!Condition::prone(t).expired_on_turn_start(Time::new(100, 0)));
    assert!(Condition::prone(t).with_expiry(Expiry::NextTurnStart).expired_on_turn_start(t));
    assert!(!Condition::prone(t).with_expiry(Expiry::NextTurnEnd).expired_on_turn_start(t));
    let timed = Condition::poisoned(t).with_expiry(Expiry::from_duration(Duration::from_secs(60)));
    assert!(!timed.expired_on_turn_start(Time::new(13, 20)));
    assert!(!timed.expired_on_turn_start(Time::new(14, 9)));
    assert!(timed.expired_on_turn_start(Time::new(14, 10)));
    assert!(timed.expired_on_turn_start(Time::new(15, 0)));
    let names = |c: Condition| -> Vec<String> {
        c.implications().into_iter().map(|i| i.name).collect()
    };
    assert_eq!(names(Condition::grappled(t)), vec![RESTRAINED]);
    assert_eq!(names(Condition::paralyzed(t)), vec![INCAPACITATED]);
    assert_eq!(names(Condition::petrified(t)), vec![INCAPACITATED, "unconscious"]);
    assert_eq!(names(Condition::stunned(t)), vec![INCAPACITATED]);
    assert_eq!(names(Condition::unconscious(t)), vec![INCAPACITATED, PRONE]);
    assert!(names(Condition::prone(t)).is_empty());
    assert!(Condition::unconscious(t).implications().iter().all(|c| c.start_time == t));
}

#[test]
fn expiries_and_durations_in_order() {
    let short = Expiry::Duration(Duration::_from_rounds(1));
    let long = Expiry::Duration(Duration::_from_rounds(2));
    assert_eq!(Expiry::Never.compare(&Expiry::Never), Ordering::Equal);
    assert_eq!(Expiry::Never.compare(&long), Ordering::Greater);
    assert_eq!(short.compare(&long), Ordering::Less);
    assert_eq!(long.compare(&short), Ordering::Greater);
    assert_eq!(short.compare(&Expiry::NextTurnStart), Ordering::Greater);
    assert_eq!(Expiry::NextTurnStart.compare(&Expiry::NextTurnEnd), Ordering::Greater);
    assert_eq!(Expiry::NextTurnEnd.compare(&Expiry::NextTurnStart), Ordering::Less);
    assert_eq!(Expiry::NextTurnEnd.compare(&Expiry::Never), Ordering::Less);
    assert_eq!(long.seconds(), Some(12));
    assert_eq!(Expiry::Never.seconds(), None);
    assert_eq!(Lasting::Indefinite.compare(&Lasting::Seconds(u32::MAX)), Ordering::Greater);
    assert_eq!(Lasting::Seconds(5).compare(&Lasting::Seconds(6)), Ordering::Less);
    assert_eq!(Lasting::Seconds(0).compare(&Lasting::StartOfTurn), Ordering::Greater);
    assert_eq!(Lasting::StartOfTurn.compare(&Lasting::EndOfTurn), Ordering::Greater);
    assert_eq!(Lasting::EndOfTurn.compare(&Lasting::EndOfTurn), Ordering::Equal);
    assert_eq!(Lasting::EndOfTurn.seconds(), Some(6));
    assert_eq!(Lasting::Seconds(90).seconds(), Some(90));
    assert_eq!(Lasting::Indefinite.seconds(), None);
}

#[test]
fn ability_modifiers_and_challenge_ratings() {
    assert_eq!(modifer(10), 0);
    assert_eq!(modifer(11), 0);
    assert_eq!(modifer(12), 1);
    assert_eq!(modifer(20), 5);
    assert_eq!(modifer(9), -1);
    assert_eq!(modifer(8), -1);
    assert_eq!(modifer(7), -2);
    assert_eq!(modifer(1), -5);
    assert_eq!(modifer(0), -5);
    assert_eq!(xp(0), 155000);
    assert_eq!(xp(33), 155000);
    assert_eq!(cr_string(0), "0");
    assert_eq!(cr_string(1), "\u{215b}");
    assert_eq!(cr_string(2), "\u{bc}");
    assert_eq!(cr_string(3), "\u{bd}");
    assert_eq!(cr_string(4), "1");
    assert_eq!(cr_string(33), "30");
}

#[test]
fn monster_takes_damage() {
    let t = Time::new(2, 12);
    let mut m = goblin();
    m.temp_hp = 3;
    m.damage(t, Damage::Damage { amount: 5 });
    assert_eq!((m.hp, m.temp_hp), (14, 0));
    assert!(m.conditions.is_empty());
    m.damage(t, Damage::HalfDamage { amount: 13 });
    assert_eq!(m.hp, 8);
    assert!(m.has_condition(BLOODIED));
    assert!(!m.has_condition(DEAD));
    m.damage(t, Damage::DoubleDamage { amount: 4 });
    assert_eq!(m.hp, 0);
    assert_eq!(m.conditions.len(), 2);
    assert_eq!(m.conditions[0].name, BLOODIED);
    assert_eq!(m.conditions[1].name, DEAD);
    assert_eq!(m.conditions[1].start_time, t);
    m.damage(t, Damage::Damage { amount: 1 });
    assert_eq!(m.hp, -1);
    assert_eq!(m.conditions.len(), 2);
    let mut k = goblin();
    k.temp_hp = 5;
    k.damage(t, Damage::Kill);
    assert_eq!((k.hp, k.temp_hp), (0, 0));
    assert!(k.has_condition(BLOODIED) && k.has_condition(DEAD));
    let mut shielded = goblin();
    shielded.temp_hp = 10;
    shielded.damage(t, Damage::Damage { amount: 4 });
    assert_eq!((shielded.hp, shielded.temp_hp), (16, 6));
    shielded.hp = i32::MIN + 1;
    shielded.temp_hp = 0;
    shielded.damage(t, Damage::Damage { amount: 5 });
    assert_eq!(shielded.hp, i32::MIN);
}

#[test]
fn monster_heals() {
    let t = Time::new(2, 12);
    let mut m = goblin();
    m.damage(t, Damage::Kill);
    m.conditions.push(Condition::prone(t));
    m.heal(Healing::Heal { amount: 5 });
    assert_eq!(m.hp, 5);
    assert!(!m.has_condition(DEAD));
    assert!(m.has_condition(BLOODIED));
    m.heal(Healing::Heal { amount: 100 });
    assert_eq!(m.hp, 16);
    assert_eq!(m.conditions.len(), 1);
    assert_eq!(m.conditions[0].name, PRONE);
    m.heal(Healing::SetTempHp { amount: 7 });
    assert_eq!((m.hp, m.temp_hp), (16, 7));
    m.heal(Healing::SetHp { amount: 3 });
    assert_eq!(m.hp, 3);
    m.hp = -4;
    m.heal(Healing::Heal { amount: 2 });
    assert_eq!(m.hp, 2);
}

#[test]
fn turns_and_actions() {
    let mut m = goblin();
    m.begin_turn();
    assert!(m.action && m.reaction && m.bonus_action);
    assert_eq!(m.legendary_actions, vec![true, true]);
    assert_eq!(m.set_action(Action::Legendary { index: 1 }, false), Ok(()));
    assert_eq!(m.legendary_actions, vec![true, false]);
    assert_eq!(m.set_action(Action::Standard, false), Ok(()));
    assert_eq!(m.set_action(Action::Bonus, false), Ok(()));
    assert_eq!(m.set_action(Action::Reaction, false), Ok(()));
    assert!(!m.action && !m.bonus_action && !m.reaction);
    m.end_turn();
    assert!(!m.action);
    let mut p = hero();
    p.begin_turn();
    assert!(p.action && p.reaction && p.bonus_action);
    assert_eq!(p.set_action(Action::Legendary { index: 0 }, false), Err(()));
    assert_eq!(p.set_action(Action::Bonus, false), Ok(()));
    assert!(p.action && p.reaction && !p.bonus_action);
    p.end_turn();
    let mut l = lair();
    assert_eq!(l.set_action(Action::Standard, true), Ok(()));
    assert!(l.action);
    assert_eq!(l.set_action(Action::Reaction, false), Err(()));
    assert_eq!(l.set_action(Action::Bonus, false), Err(()));
    assert_eq!(l.set_action(Action::Legendary { index: 0 }, false), Err(()));
    assert!(l.action);
}

#[test]
fn participants() {
    let mut m = Participant::Monster(goblin());
    let p = Participant::Player(hero());
    let l = Participant::Lair(lair());
    assert_eq!(m.name(), "Gobbo");
    assert_eq!(p.name(), "Heroic Joe");
    assert_eq!(l.name(), "Lair");
    assert_eq!((m.initiative(), p.initiative(), l.initiative()), (12, 15, 20));
    assert_eq!((m.tiebreaker(), p.tiebreaker(), l.tiebreaker()), (-456, 123, i32::MIN));
    assert_eq!(m.compare(&p), Ordering::Less);
    assert_eq!(l.compare(&p), Ordering::Greater);
    assert_eq!(p.compare(&p), Ordering::Equal);
    assert!(p.same_place(&p));
    assert!(!p.same_place(&m));
    let mut tied = hero();
    tied.initiative = 12;
    assert_eq!(m.compare(&Participant::Player(tied)), Ordering::Less);
    m.begin_turn();
    match &m {
        Participant::Monster(monster) => assert!(monster.action && monster.reaction),
        _ => unreachable!(),
    }
    m.end_turn();
}

#[test]
fn total_level() {
    let def = PlayerDef {
        name: "Multi".into(),
        classes: vec![
            Class { name: "Fighter".into(), level: 5 },
            Class { name: "Wizard".into(), level: 3 },
        ],
        stats: stats(),
        ac: 10,
        initiative_bonus: 0,
        small_portrait: None,
        full_portrait: None,
        notes: String::new(),
    };
    assert_eq!(def.total_level(), 8);
}

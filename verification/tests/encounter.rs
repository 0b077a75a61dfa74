use dminion::dice::DiceExpr;
use dminion::game::common::{Class, Stats};
use dminion::game::game::Game;
use dminion::game::lair::Lair;
use dminion::game::monster::Monster;
use dminion::game::participant::{Action, Participant};
use dminion::game::player::Player;
use dminion::game::time::Time;
use dminion::services::savepoint::SavepointService;
use dminion::state::GameState;
use rand::rngs::StdRng;
use rand::SeedableRng;

fn scores() -> Stats {
    Stats { str: 10, dex: 10, con: 10, int: 10, wis: 10, cha: 10 }
}

fn monster(name: &str, initiative: u32, tiebreaker: i32) -> Participant {
    Participant::Monster(Monster {
        name: name.into(),
        subtype: String::new(),
        stats: scores(),
        cr: 1,
        ac: 12,
        initiative_bonus: 0,
        small_portrait: None,
        full_portrait: None,
        hit_dice: DiceExpr::parse("2d8+2").unwrap(),
        initiative,
        action: false,
        hp: 10,
        temp_hp: 0,
        max_hp: 10,
        reaction: false,
        bonus_action: false,
        legendary_actions: vec![false],
        legendary_action_count: 1,
        notes: String::new(),
        tiebreaker,
        conditions: vec![],
        is_hostile: true,
    })
}

fn player(name: &str, initiative: u32, tiebreaker: i32) -> Participant {
    Participant::Player(Player {
        name: name.into(),
        classes: vec![Class { name: "Fighter".into(), level: 1 }],
        stats: scores(),
        ac: 16,
        initiative_bonus: 0,
        small_portrait: None,
        full_portrait: None,
        initiative,
        action: false,
        reaction: false,
        bonus_action: false,
        notes: String::new(),
        tiebreaker,
        conditions: vec![],
    })
}

fn lair() -> Participant {
    Participant::Lair(Lair {
        name: "Lair".into(),
        notes: String::new(),
        action: true,
        small_portrait: None,
        full_portrait: None,
    })
}

fn game() -> Game {
    Game::new(1_000, StdRng::seed_from_u64(1))
}

#[test]
fn spawning_keeps_the_order_of_initiative() {
    let mut g = game();
    assert_eq!(g.spawn(player("Joe", 15, 123)), 1);
    assert_eq!(g.spawn(monster("Gobbo", 12, -456)), 2);
    assert_eq!(g.spawn(monster("Froggo", 19, -456)), 3);
    assert_eq!(g.spawn(lair()), 4);
    assert_eq!(g.order, vec![2, 1, 3, 4]);
    assert_eq!(g.spawn(monster("Twin", 15, 123)), 5);
    assert_eq!(g.order, vec![2, 1, 5, 3, 4]);
    assert_eq!(g.spawn(monster("Low", 15, -1)), 6);
    assert_eq!(g.order, vec![2, 6, 1, 5, 3, 4]);
    assert_eq!(g.participants.len(), 6);
    assert_eq!(g.counts(), (6, 0, 0));
}

#[test]
fn despawning_takes_the_number_out() {
    let mut g = game();
    let a = g.spawn(player("A", 5, 0));
    let b = g.spawn(player("B", 10, 0));
    let c = g.spawn(player("C", 15, 0));
    g.turn = 2;
    g.despawn(b);
    assert_eq!(g.order, vec![a, c]);
    assert_eq!(g.turn, 1);
    assert!(!g.participants.contains_key(&b));
    g.despawn(99);
    assert_eq!(g.order, vec![a, c]);
    g.despawn(a);
    g.despawn(c);
    assert!(g.order.is_empty());
    assert_eq!(g.turn, 0);
}

#[test]
fn turns_and_rounds() {
    let mut g = game();
    g.next_turn(5);
    assert_eq!((g.round, g.turn), (0, 0));
    let m = g.spawn(monster("Gobbo", 12, 0));
    let p = g.spawn(player("Joe", 15, 0));
    g.begin_play(2_000);
    assert_eq!((g.round, g.turn), (1, 0));
    assert_eq!((g.game_started, g.turn_started), (2_000, 2_000));
    assert_eq!(g.time(), Time::new(1, 12));
    g.next_turn(3_000);
    assert_eq!((g.round, g.turn), (1, 1));
    assert_eq!(g.turn_started, 3_000);
    assert_eq!(g.time(), Time::new(1, 15));
    match &g.participants[&p] {
        Participant::Player(joe) => assert!(!joe.action),
        _ => unreachable!(),
    }
    g.next_turn(4_000);
    assert_eq!((g.round, g.turn), (2, 0));
    match &g.participants[&m] {
        Participant::Monster(gobbo) => {
            assert!(gobbo.action && gobbo.reaction && gobbo.bonus_action);
            assert_eq!(gobbo.legendary_actions, vec![true]);
        }
        _ => unreachable!(),
    }
    assert_eq!(g.order, vec![m, p]);
}

#[test]
fn participant_actions() {
    let mut m = monster("Gobbo", 12, 0);
    assert_eq!(m.set_action(Action::Legendary { index: 0 }, true), Ok(()));
    assert_eq!(m.set_action(Action::Standard, true), Ok(()));
    match &m {
        Participant::Monster(gobbo) => {
            assert!(gobbo.action);
            assert_eq!(gobbo.legendary_actions, vec![true]);
        }
        _ => unreachable!(),
    }
    let mut p = player("Joe", 15, 0);
    assert_eq!(p.set_action(Action::Reaction, true), Ok(()));
    assert_eq!(p.set_action(Action::Legendary { index: 0 }, true), Err(()));
    let mut l = lair();
    assert_eq!(l.set_action(Action::Standard, false), Ok(()));
    assert_eq!(l.set_action(Action::Bonus, false), Err(()));
    match &l {
        Participant::Lair(lair) => assert!(!lair.action),
        _ => unreachable!(),
    }
}

#[test]
fn ability_scores_are_three_to_eighteen() {
    let mut rng = StdRng::seed_from_u64(9);
    for _ in 0..200 {
        let s = Stats::roll(&mut rng);
        for score in [s.str, s.dex, s.con, s.int, s.wis, s.cha] {
            assert!(3 <= score && score <= 18);
        }
    }
}

#[test]
fn undo_and_redo() {
    let mut state = GameState::default();
    assert!(state.current().is_none());
    assert_eq!(state.mutate(game()), Err(String::from("No game found")));
    assert_eq!(state.undo(), Err(String::from("Undo stack is empty")));
    assert_eq!(state.redo(), Err(String::from("Redo stack is empty")));
    state.reset(game());
    assert_eq!(state.undo(), Err(String::from("Undo stack is empty")));
    let mut next = state.current().unwrap().clone();
    next.begin_play(7);
    assert_eq!(state.mutate(next), Ok(()));
    assert_eq!(state.current().unwrap().round, 1);
    assert_eq!(state.undo(), Ok(()));
    assert_eq!(state.current().unwrap().round, 0);
    assert_eq!(state.redo_stack.len(), 1);
    assert_eq!(state.redo(), Ok(()));
    assert_eq!(state.current().unwrap().round, 1);
    assert_eq!(state.undo(), Ok(()));
    let mut other = state.current().unwrap().clone();
    other.round = 5;
    assert_eq!(state.mutate(other), Ok(()));
    assert!(state.redo_stack.is_empty());
    assert_eq!(state.undo_stack.len(), 2);
}

#[test]
fn savepoint_names() {
    assert_eq!(SavepointService::file_name(0), "turn-00000.toml");
    assert_eq!(SavepointService::file_name(42), "turn-00042.toml");
    assert_eq!(SavepointService::file_name(99999), "turn-99999.toml");
    assert_eq!(SavepointService::file_name(123456), "turn-123456.toml");
    let service = SavepointService::new("/camp", 3);
    assert_eq!(service.saves_dir(), "/camp/saves");
    assert_eq!(service.path_for(7), "/camp/saves/turn-00007.toml");
    assert!(SavepointService::is_savepoint("turn-00007.toml"));
    assert!(SavepointService::is_savepoint("turn-.toml"));
    assert!(!SavepointService::is_savepoint("turn-00007.txt"));
    assert!(!SavepointService::is_savepoint("Turn-00007.toml"));
    assert!(!SavepointService::is_savepoint("turn.toml"));
    assert!(!SavepointService::is_savepoint(""));
    assert_eq!(service.excess(5), 2);
    assert_eq!(service.excess(3), 0);
    assert_eq!(service.excess(0), 0);
}

#[test]
fn savepoint_turn_numbers() {
    let service = SavepointService::new("/camp", 50);
    let mut g = game();
    assert_eq!(service.calculate_turn_number(&g), 0);
    g.round = 3;
    g.turn = 1;
    assert_eq!(service.calculate_turn_number(&g), 0);
    g.spawn(player("A", 1, 0));
    g.spawn(player("B", 2, 0));
    assert_eq!(service.calculate_turn_number(&g), 7);
}

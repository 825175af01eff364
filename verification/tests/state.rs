use std::cell::RefCell;
use std::rc::Rc;

use wolf3d_rs::combat::apply_hit;
use wolf3d_rs::data::EnemyKind;
use wolf3d_rs::ecs::World;
use wolf3d_rs::enemy::{after_sighting, initial_state, starting_hp, EnemyState};
use wolf3d_rs::events::{event_text, Event, EventBus, HudEventLog, Observer};
use wolf3d_rs::fsm::{pause_toggle, GameState, StateMachine};
use wolf3d_rs::pool::ObjectPool;

#[test]
fn state_machine_starts_in_boot_and_reports_transitions() {
    let mut machine = StateMachine::new();
    assert_eq!(machine.state(), GameState::Boot);
    assert_eq!(machine.transition(GameState::Running), (GameState::Boot, GameState::Running));
    assert_eq!(machine.state(), GameState::Running);
    assert_eq!(machine.transition(GameState::Quit), (GameState::Running, GameState::Quit));
    assert_eq!(machine.state(), GameState::Quit);
}

#[test]
fn pause_key_swaps_running_and_paused() {
    assert_eq!(pause_toggle(GameState::Running), Some(GameState::Paused));
    assert_eq!(pause_toggle(GameState::Paused), Some(GameState::Running));
    assert_eq!(pause_toggle(GameState::Boot), None);
    assert_eq!(pause_toggle(GameState::Quit), None);
}

#[test]
fn pool_hands_back_the_last_released_object() {
    let mut pool: ObjectPool<u32> = ObjectPool::with_capacity(2);
    pool.release(7);
    pool.release(9);
    assert_eq!(pool.acquire(), 9);
    assert_eq!(pool.acquire(), 7);
    assert_eq!(pool.acquire(), 0);
    assert_eq!(pool.acquire(), 0);
    assert_eq!(pool.acquire(), 0);
}

#[test]
fn world_spawns_entities_from_one() {
    let mut world: World<(i32, i32)> = World::new();
    let a = world.spawn((1, 2));
    let b = world.spawn((3, 4));
    assert_eq!((a, b), (1, 2));
    assert_eq!(world.transform(a), Some(&(1, 2)));
    assert_eq!(world.transform(b), Some(&(3, 4)));
    assert_eq!(world.transform(3), None);
    assert_eq!(world.transform(0), None);
}

#[test]
fn world_transform_mut_changes_one_entity() {
    let mut world: World<(i32, i32)> = World::new();
    let a = world.spawn((1, 2));
    let b = world.spawn((3, 4));
    if let Some(t) = world.transform_mut(a) {
        t.0 = 10;
    }
    assert_eq!(world.transform(a), Some(&(10, 2)));
    assert_eq!(world.transform(b), Some(&(3, 4)));
    assert!(world.transform_mut(5).is_none());
}

struct Recorder {
    id: usize,
    log: Rc<RefCell<Vec<(usize, String)>>>,
}

impl Observer for Recorder {
    fn on_event(&mut self, event: &Event) {
        self.log.borrow_mut().push((self.id, event_text(event)));
    }
}

#[test]
fn dispatch_delivers_every_event_to_every_observer_in_order() {
    let log = Rc::new(RefCell::new(Vec::new()));
    let mut bus = EventBus::default();
    bus.register(Box::new(Recorder { id: 0, log: log.clone() }));
    bus.register(Box::new(Recorder { id: 1, log: log.clone() }));
    bus.emit(Event::DoorUsed);
    bus.emit(Event::EnemyKilled);
    assert!(log.borrow().is_empty());
    bus.dispatch();
    let expected = vec![
        (0, "door interaction".to_string()),
        (1, "door interaction".to_string()),
        (0, "enemy eliminated".to_string()),
        (1, "enemy eliminated".to_string()),
    ];
    assert_eq!(*log.borrow(), expected);
    bus.dispatch();
    assert_eq!(log.borrow().len(), 4);
}

#[test]
fn event_lines() {
    assert_eq!(event_text(&Event::EntitySpawned(0)), "spawned entity 0");
    assert_eq!(event_text(&Event::EntitySpawned(42)), "spawned entity 42");
    assert_eq!(event_text(&Event::EntitySpawned(u32::MAX)), format!("spawned entity {}", u32::MAX));
    assert_eq!(
        event_text(&Event::StateChanged { from: GameState::Running, to: GameState::Paused }),
        "state: Running -> Paused"
    );
    assert_eq!(
        event_text(&Event::StateChanged { from: GameState::Boot, to: GameState::Quit }),
        "state: Boot -> Quit"
    );
    assert_eq!(event_text(&Event::DoorUsed), "door interaction");
    assert_eq!(event_text(&Event::EnemyKilled), "enemy eliminated");
}

#[test]
fn hud_log_keeps_six_most_recent_lines() {
    let mut log = HudEventLog::default();
    for id in 1..=8u32 {
        log.on_event(&Event::EntitySpawned(id));
    }
    let lines: Vec<String> = log.lines().clone();
    let expected: Vec<String> = (3..=8).map(|id| format!("spawned entity {}", id)).collect();
    assert_eq!(lines, expected);
}

#[test]
fn enemy_kinds_start_with_their_hit_points() {
    assert_eq!(starting_hp(EnemyKind::Guard), 34);
    assert_eq!(starting_hp(EnemyKind::Officer), 44);
    assert_eq!(starting_hp(EnemyKind::Ss), 54);
    assert_eq!(starting_hp(EnemyKind::Dog), 24);
    assert_eq!(starting_hp(EnemyKind::Mutant), 60);
    assert_eq!(initial_state(true), EnemyState::Chasing);
    assert_eq!(initial_state(false), EnemyState::Idle);
}

#[test]
fn sighting_rules() {
    assert_eq!(after_sighting(EnemyState::Idle, true), EnemyState::Chasing);
    assert_eq!(after_sighting(EnemyState::Chasing, true), EnemyState::Chasing);
    assert_eq!(after_sighting(EnemyState::Chasing, false), EnemyState::Idle);
    assert_eq!(after_sighting(EnemyState::Idle, false), EnemyState::Idle);
}

#[test]
fn hits_wound_then_kill() {
    let (hp, state, outcome) = apply_hit(starting_hp(EnemyKind::Officer));
    assert_eq!((hp, state, outcome.kill), (10, EnemyState::Chasing, false));
    let (hp, state, outcome) = apply_hit(hp);
    assert_eq!((hp, state, outcome.kill), (-24, EnemyState::Dead, true));
    let (hp, state, outcome) = apply_hit(34);
    assert_eq!((hp, state, outcome.kill), (0, EnemyState::Dead, true));
}

#[test]
fn frame_pause_key_toggles_and_keeps_updating_only_while_running() {
    let mut machine = StateMachine::new();
    machine.transition(GameState::Running);
    let paused = machine.frame(true, false);
    assert_eq!(paused.changes, vec![(GameState::Running, GameState::Paused)]);
    assert!(!paused.stop);
    assert!(!paused.update);
    assert_eq!(machine.state(), GameState::Paused);
    let idle = machine.frame(false, false);
    assert!(idle.changes.is_empty());
    assert!(!idle.update);
    let resumed = machine.frame(true, false);
    assert_eq!(resumed.changes, vec![(GameState::Paused, GameState::Running)]);
    assert!(resumed.update);
    assert!(!resumed.stop);
}

#[test]
fn frame_quit_key_stops_the_loop_after_the_pause_key() {
    let mut machine = StateMachine::new();
    machine.transition(GameState::Running);
    let decision = machine.frame(true, true);
    assert_eq!(
        decision.changes,
        vec![
            (GameState::Running, GameState::Paused),
            (GameState::Paused, GameState::Quit)
        ]
    );
    assert!(decision.stop);
    assert!(!decision.update);
    let again = machine.frame(false, true);
    assert_eq!(again.changes, vec![(GameState::Quit, GameState::Quit)]);
    assert!(again.stop);
}

#[test]
fn frame_in_boot_ignores_the_pause_key() {
    let mut machine = StateMachine::new();
    let decision = machine.frame(true, false);
    assert!(decision.changes.is_empty());
    assert!(!decision.stop);
    assert!(!decision.update);
    assert_eq!(machine.state(), GameState::Boot);
}

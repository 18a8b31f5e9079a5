use combat_core::actor::{ActionKind, DamageEvent, Vitals};
use combat_core::damage::DamageOutcome;
use combat_core::registry::Registry;

fn spawn_actor(reg: &mut Registry, name: &str, health: usize, targetable: bool) -> u64 {
    reg.spawn(String::from(name), Vitals::new(health, health, 0), targetable)
}

#[test]
fn rotation_wraps_through_registry_order() {
    let mut reg = Registry::new();
    let holder = spawn_actor(&mut reg, "Player", 100, false);
    let a = spawn_actor(&mut reg, "Tunnel Worm", 25, true);
    let b = spawn_actor(&mut reg, "Tunnel Worm", 25, true);
    let c = spawn_actor(&mut reg, "Huge Hornet", 30, true);
    // no selection: the first targetable actor is picked
    assert_eq!(reg.select_next(holder), Some(a));
    // current target B yields C
    {
        let h = &mut reg.actors[0];
        h.target = Some(b);
    }
    assert_eq!(reg.select_next(holder), Some(c));
    // current target C wraps to A
    assert_eq!(reg.select_next(holder), Some(a));
}

#[test]
fn rotation_with_no_targetable_actor_selects_nothing() {
    let mut reg = Registry::new();
    let holder = spawn_actor(&mut reg, "Player", 100, false);
    spawn_actor(&mut reg, "Tunnel Worm", 25, false);
    assert_eq!(reg.select_next(holder), None);
    assert_eq!(reg.target_of(holder), None);
}

#[test]
fn rotation_for_missing_holder_changes_nothing() {
    let mut reg = Registry::new();
    spawn_actor(&mut reg, "Tunnel Worm", 25, true);
    assert_eq!(reg.select_next(424242), None);
    assert_eq!(reg.len(), 1);
}

#[test]
fn rotation_past_stale_target_restarts_from_the_front() {
    let mut reg = Registry::new();
    let holder = spawn_actor(&mut reg, "Player", 100, false);
    let a = spawn_actor(&mut reg, "Tunnel Worm", 25, true);
    let b = spawn_actor(&mut reg, "Huge Hornet", 30, true);
    {
        let h = &mut reg.actors[0];
        h.target = Some(424242);
    }
    // the stale selection counts as standing first, so its successor is
    // the second targetable actor
    assert_eq!(reg.select_next(holder), Some(b));
    assert_eq!(reg.select_next(holder), Some(a));
}

#[test]
fn downed_actors_leave_the_rotation() {
    let mut reg = Registry::new();
    let holder = spawn_actor(&mut reg, "Player", 100, false);
    let a = spawn_actor(&mut reg, "Tunnel Worm", 25, true);
    let b = spawn_actor(&mut reg, "Huge Hornet", 30, true);
    reg.apply_damage_event(&DamageEvent::new(holder, a, 30));
    assert!(!reg.is_targetable(a));
    assert_eq!(reg.select_next(holder), Some(b));
    assert_eq!(reg.select_next(holder), Some(b));
}

#[test]
fn clear_target_detaches_and_is_idempotent() {
    let mut reg = Registry::new();
    let holder = spawn_actor(&mut reg, "Player", 100, false);
    let m = spawn_actor(&mut reg, "Tunnel Worm", 25, true);
    assert_eq!(reg.select_next(holder), Some(m));
    assert_eq!(reg.target_of(holder), Some(m));
    assert!(reg.clear_target(holder));
    assert_eq!(reg.target_of(holder), None);
    // clearing an absent selection is a no-op
    assert!(!reg.clear_target(holder));
    // clearing a missing holder is a no-op too
    assert!(!reg.clear_target(424242));
}

#[test]
fn attack_scenario_runs_through_the_whole_lifecycle() {
    // P (health 100) attacks M (health 25) for 30 damage, cooldown one
    // time unit, despawn delay five: one tick resolves the attack and
    // downs M, the cooldown clears after one unit, and M is removed when
    // its despawn timer fires.
    let mut reg = Registry::new();
    let p = spawn_actor(&mut reg, "P", 100, false);
    let m = spawn_actor(&mut reg, "M", 25, true);
    assert_eq!(reg.select_next(p), Some(m));
    assert!(reg.issue_attack(p, 30, 1));

    let report = reg.tick(1);
    assert_eq!(report.events, vec![DamageEvent::new(p, m, 30)]);
    assert_eq!(report.outcomes, vec![DamageOutcome::DownedNow]);
    assert!(report.despawned.is_empty());
    assert_eq!(reg.health_of(m), Some(0));
    assert!(reg.is_downed(m));
    assert!(!reg.is_targetable(m));
    // one time unit has elapsed since the cooldown started: it is clear
    assert!(!reg.on_cooldown_for(p, ActionKind::Attack));
    assert!(reg.issue_attack(p, 30, 1));

    // the despawn timer, started at the downing tick, fires when five
    // units have elapsed
    let mut gone_at = 0;
    for t in 2..=5 {
        let report = reg.tick(1);
        if !report.despawned.is_empty() {
            assert_eq!(report.despawned, vec![m]);
            gone_at = t;
        }
    }
    assert_eq!(gone_at, 5);
    assert!(!reg.contains_actor(m));
    assert_eq!(reg.len(), 1);
}

use combat_core::actor::{ActionKind, Attack, Cooldown, DamageEvent, Vitals, DESPAWN_DELAY};
use combat_core::damage::DamageOutcome;
use combat_core::registry::Registry;

fn spawn_actor(reg: &mut Registry, name: &str, health: usize, targetable: bool) -> u64 {
    reg.spawn(String::from(name), Vitals::new(health, health, 0), targetable)
}

#[test]
fn damage_monotonic_subtracts_exactly() {
    let mut reg = Registry::new();
    let p = spawn_actor(&mut reg, "Player", 100, true);
    let m = spawn_actor(&mut reg, "Tunnel Worm", 25, true);
    let out = reg.apply_damage_event(&DamageEvent::new(p, m, 10));
    assert_eq!(out, DamageOutcome::Damaged { remaining: 15 });
    assert_eq!(reg.health_of(m), Some(15));
    assert!(!reg.is_downed(m));
    assert!(reg.is_targetable(m));
    // the source is untouched
    assert_eq!(reg.health_of(p), Some(100));
}

#[test]
fn downing_at_exact_threshold() {
    let mut reg = Registry::new();
    let p = spawn_actor(&mut reg, "Player", 100, true);
    let m = spawn_actor(&mut reg, "Tunnel Worm", 25, true);
    let out = reg.apply_damage_event(&DamageEvent::new(p, m, 25));
    assert_eq!(out, DamageOutcome::DownedNow);
    assert_eq!(reg.health_of(m), Some(0));
    assert!(reg.is_downed(m));
    assert!(!reg.is_targetable(m));
}

#[test]
fn downing_with_excess_amount_is_the_same_transition() {
    let mut reg = Registry::new();
    let p = spawn_actor(&mut reg, "Player", 100, true);
    let m = spawn_actor(&mut reg, "Tunnel Worm", 25, true);
    let out = reg.apply_damage_event(&DamageEvent::new(p, m, 9999));
    assert_eq!(out, DamageOutcome::DownedNow);
    assert_eq!(reg.health_of(m), Some(0));
    assert!(reg.is_downed(m));
    assert!(!reg.is_targetable(m));
}

#[test]
fn damage_after_downed_is_a_no_op() {
    let mut reg = Registry::new();
    let p = spawn_actor(&mut reg, "Player", 100, true);
    let m = spawn_actor(&mut reg, "Tunnel Worm", 25, true);
    reg.apply_damage_event(&DamageEvent::new(p, m, 30));
    assert!(reg.is_downed(m));
    let out = reg.apply_damage_event(&DamageEvent::new(p, m, 30));
    assert_eq!(out, DamageOutcome::AlreadyDowned);
    assert_eq!(reg.health_of(m), Some(0));
    assert!(reg.is_downed(m));
}

#[test]
fn damage_against_missing_target_is_a_no_op() {
    let mut reg = Registry::new();
    let p = spawn_actor(&mut reg, "Player", 100, true);
    let out = reg.apply_damage_event(&DamageEvent::new(p, 424242, 30));
    assert_eq!(out, DamageOutcome::Missing);
    assert_eq!(reg.health_of(p), Some(100));
}

#[test]
fn events_drain_in_fifo_order() {
    let mut reg = Registry::new();
    let p = spawn_actor(&mut reg, "Player", 100, true);
    let m = spawn_actor(&mut reg, "Tunnel Worm", 25, true);
    let events = vec![
        DamageEvent::new(p, m, 10),
        DamageEvent::new(p, m, 20),
        DamageEvent::new(p, m, 1),
    ];
    let outs = reg.resolve_damage(&events);
    assert_eq!(
        outs,
        vec![
            DamageOutcome::Damaged { remaining: 15 },
            DamageOutcome::DownedNow,
            DamageOutcome::AlreadyDowned,
        ]
    );
    assert_eq!(reg.health_of(m), Some(0));
}

#[test]
fn despawn_timer_removes_actor_entirely() {
    let mut reg = Registry::new();
    let p = spawn_actor(&mut reg, "Player", 100, true);
    let m = spawn_actor(&mut reg, "Tunnel Worm", 25, true);
    reg.apply_damage_event(&DamageEvent::new(p, m, 30));
    // the despawn countdown starts at the fixed delay
    for _ in 0..(DESPAWN_DELAY - 1) {
        let removed = reg.resolve_downed(1);
        assert!(removed.is_empty());
        assert!(reg.contains_actor(m));
    }
    let removed = reg.resolve_downed(1);
    assert_eq!(removed, vec![m]);
    // despawn finality: every lookup now reports the actor absent
    assert!(!reg.contains_actor(m));
    assert_eq!(reg.health_of(m), None);
    assert_eq!(reg.vitals_of(m), None);
    assert!(!reg.is_downed(m));
    assert!(!reg.is_targetable(m));
    assert_eq!(reg.target_of(m), None);
    assert_eq!(reg.len(), 1);
    // and later damage against the identity stays a no-op
    let out = reg.apply_damage_event(&DamageEvent::new(p, m, 5));
    assert_eq!(out, DamageOutcome::Missing);
}

#[test]
fn attack_resolver_consumes_ready_intent() {
    let mut reg = Registry::new();
    let p = spawn_actor(&mut reg, "Player", 100, true);
    let m = spawn_actor(&mut reg, "Tunnel Worm", 25, true);
    // first selection lands on the first targetable actor (the holder
    // itself), the next rotation on the monster
    reg.select_next(p);
    assert_eq!(reg.target_of(p), Some(p));
    reg.select_next(p);
    assert_eq!(reg.target_of(p), Some(m));
    assert!(reg.issue_attack(p, 10, 3));
    assert!(reg.has_pending_attack(p));
    let events = reg.resolve_attacks();
    assert_eq!(events, vec![DamageEvent::new(p, m, 10)]);
    assert!(!reg.has_pending_attack(p));
    assert!(reg.on_cooldown_for(p, ActionKind::Attack));
}

#[test]
fn cooldown_gates_attack_until_it_expires() {
    // an actor holding a pending intent and an active attack cooldown
    let mut reg = Registry::new();
    let p = spawn_actor(&mut reg, "Player", 100, true);
    let m = spawn_actor(&mut reg, "Tunnel Worm", 25, true);
    {
        let a = &mut reg.actors[0];
        a.attack = Some(Attack::new(m, 10, 7));
        a.cooldowns.push(Cooldown::new(ActionKind::Attack, 2));
    }
    // first tick: gated; the intent is retained, the cooldown counts down
    let report = reg.tick(1);
    assert!(report.events.is_empty());
    assert!(reg.has_pending_attack(p));
    assert!(reg.on_cooldown_for(p, ActionKind::Attack));
    // second tick: still gated; the cooldown finishes and detaches
    let report = reg.tick(1);
    assert!(report.events.is_empty());
    assert!(reg.has_pending_attack(p));
    assert!(!reg.on_cooldown_for(p, ActionKind::Attack));
    // third tick: exactly the one pending intent is consumed
    let report = reg.tick(1);
    assert_eq!(report.events, vec![DamageEvent::new(p, m, 10)]);
    assert!(!reg.has_pending_attack(p));
    assert!(reg.on_cooldown_for(p, ActionKind::Attack));
    assert_eq!(reg.health_of(m), Some(15));
}

#[test]
fn issue_attack_refuses_self_target() {
    let mut reg = Registry::new();
    let p = spawn_actor(&mut reg, "Player", 100, true);
    // the only targetable actor is the holder itself
    reg.select_next(p);
    assert_eq!(reg.target_of(p), Some(p));
    assert!(!reg.issue_attack(p, 10, 1));
    assert!(!reg.has_pending_attack(p));
}

#[test]
fn issue_attack_refused_without_target_or_while_on_cooldown() {
    let mut reg = Registry::new();
    let p = spawn_actor(&mut reg, "Player", 100, false);
    let m = spawn_actor(&mut reg, "Tunnel Worm", 25, true);
    // no target selected yet
    assert!(!reg.issue_attack(p, 10, 4));
    reg.select_next(p);
    assert_eq!(reg.target_of(p), Some(m));
    assert!(reg.issue_attack(p, 10, 4));
    reg.tick(1);
    // on cooldown now: a new intent is refused, silently
    assert!(reg.on_cooldown_for(p, ActionKind::Attack));
    assert!(!reg.issue_attack(p, 10, 4));
    assert!(!reg.has_pending_attack(p));
}

#[test]
fn cooldown_pools_count_down_independently_per_kind() {
    let mut reg = Registry::new();
    let p = spawn_actor(&mut reg, "Player", 100, true);
    let m = spawn_actor(&mut reg, "Tunnel Worm", 25, true);
    {
        let a = &mut reg.actors[0];
        a.cooldowns.push(Cooldown::new(ActionKind::Attack, 1));
        a.cooldowns.push(Cooldown::new(ActionKind::Ability, 3));
    }
    reg.tick(1);
    // the attack pool finished; the ability pool did not
    assert!(!reg.on_cooldown_for(p, ActionKind::Attack));
    assert!(reg.on_cooldown_for(p, ActionKind::Ability));
    // the remaining ability cooldown does not gate attacks
    {
        let a = &mut reg.actors[0];
        a.target = Some(m);
    }
    assert!(reg.issue_attack(p, 10, 4));
    let report = reg.tick(1);
    assert_eq!(report.events, vec![DamageEvent::new(p, m, 10)]);
    assert!(reg.on_cooldown_for(p, ActionKind::Attack));
    assert!(reg.on_cooldown_for(p, ActionKind::Ability));
    reg.tick(1);
    // the ability pool finishes on its own schedule
    assert!(!reg.on_cooldown_for(p, ActionKind::Ability));
    assert!(reg.on_cooldown_for(p, ActionKind::Attack));
}

#[test]
fn spawn_hands_out_fresh_identities() {
    let mut reg = Registry::new();
    let a = spawn_actor(&mut reg, "Tunnel Worm", 25, true);
    let b = spawn_actor(&mut reg, "Huge Hornet", 30, true);
    assert_ne!(a, b);
    assert_eq!(reg.len(), 2);
    assert_eq!(reg.vitals_of(a), Some(Vitals::new(25, 25, 0)));
    assert_eq!(reg.vitals_of(b), Some(Vitals::new(30, 30, 0)));
}

#[test]
fn attack_events_are_emitted_in_registry_order() {
    let mut reg = Registry::new();
    let a = spawn_actor(&mut reg, "Tunnel Worm", 25, true);
    let b = spawn_actor(&mut reg, "Huge Hornet", 30, true);
    let c = spawn_actor(&mut reg, "Player", 100, true);
    {
        // b and c both hold intents against a; b stands first in registry
        // order, so its event is emitted (and drained) first
        reg.actors[2].attack = Some(Attack::new(a, 20, 2));
        reg.actors[1].attack = Some(Attack::new(a, 10, 2));
    }
    let events = reg.resolve_attacks();
    assert_eq!(
        events,
        vec![DamageEvent::new(b, a, 10), DamageEvent::new(c, a, 20)]
    );
    let outs = reg.resolve_damage(&events);
    assert_eq!(
        outs,
        vec![DamageOutcome::Damaged { remaining: 15 }, DamageOutcome::DownedNow]
    );
}

#[test]
fn tick_on_empty_registry_reports_nothing() {
    let mut reg = Registry::new();
    let report = reg.tick(1);
    assert!(report.events.is_empty());
    assert!(report.outcomes.is_empty());
    assert!(report.despawned.is_empty());
    assert_eq!(reg.len(), 0);
}

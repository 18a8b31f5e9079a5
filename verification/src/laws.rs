//! The combat core's laws, proved over the resolvers' model functions.

use vstd::prelude::*;

use crate::actor::{ActionKind, ActorModel, DamageEvent, Downed, DESPAWN_DELAY, TimeUnits,
    attack_ready, cooldown_kinds_distinct, has_cooldown};
use crate::attack::{spec_attack_pass, spec_emitted, spec_event_of, spec_resolve_attack,
    lemma_emitted_contains};
use crate::damage::{spec_apply_event, spec_drain, spec_down, spec_hit};
use crate::expiry::{downed_fires, kind_present, kinds_distinct, lemma_downed_pass_ids,
    lemma_downed_pass_present, lemma_tick_cooldowns_kinds, spec_cooldown_actor,
    spec_cooldown_pass, spec_downed_pass, spec_tick_cooldowns, spec_tick_downed};
use crate::registry::{distinct_ids, entry_of, has_id, idx_of, lemma_entry_unique, models_wf};
use crate::tick::spec_tick;

verus! {

/// Damage monotonicity: a damage event below a live target's health
/// strictly decreases that health by exactly the amount, leaves the target
/// un-downed, and touches no other actor.
pub proof fn lemma_damage_monotonic(s: Seq<ActorModel>, ev: DamageEvent)
    requires
        distinct_ids(s),
        has_id(s, ev.target),
        entry_of(s, ev.target).downed is None,
        ev.amount < entry_of(s, ev.target).vitals.health,
    ensures
        spec_apply_event(s, ev).len() == s.len(),
        entry_of(spec_apply_event(s, ev), ev.target).vitals.health
            == entry_of(s, ev.target).vitals.health - ev.amount,
        entry_of(spec_apply_event(s, ev), ev.target).downed is None,
        entry_of(spec_apply_event(s, ev), ev.target).targetable
            == entry_of(s, ev.target).targetable,
        forall|j: int| 0 <= j < s.len() && (#[trigger] s[j]).id != ev.target
            ==> spec_apply_event(s, ev)[j] == s[j],
{
    let i = idx_of(s, ev.target);
    let r = spec_apply_event(s, ev);
    assert(r == s.update(i, spec_hit(s[i], ev.amount)));
    assert(distinct_ids(r));
    lemma_entry_unique(r, i);
    assert forall|j: int| 0 <= j < s.len() && (#[trigger] s[j]).id != ev.target implies
        r[j] == s[j] by {
        if j == i {
            assert(s[i].id == ev.target);
        }
    }
}

/// Downing threshold: a damage event reaching a live target's health pins
/// the health to exactly zero, detaches targetability, and attaches the
/// downed state with the full despawn delay — the same transition however
/// far the amount exceeds the health, and no other actor is touched.
pub proof fn lemma_downing_threshold(s: Seq<ActorModel>, ev: DamageEvent)
    requires
        distinct_ids(s),
        has_id(s, ev.target),
        entry_of(s, ev.target).downed is None,
        ev.amount >= entry_of(s, ev.target).vitals.health,
    ensures
        spec_apply_event(s, ev).len() == s.len(),
        entry_of(spec_apply_event(s, ev), ev.target).vitals.health == 0,
        !entry_of(spec_apply_event(s, ev), ev.target).targetable,
        entry_of(spec_apply_event(s, ev), ev.target).downed
            == Some(Downed { despawn_remaining: DESPAWN_DELAY }),
        forall|j: int| 0 <= j < s.len() && (#[trigger] s[j]).id != ev.target
            ==> spec_apply_event(s, ev)[j] == s[j],
{
    let i = idx_of(s, ev.target);
    let r = spec_apply_event(s, ev);
    assert(r == s.update(i, spec_down(s[i])));
    assert(distinct_ids(r));
    lemma_entry_unique(r, i);
    assert forall|j: int| 0 <= j < s.len() && (#[trigger] s[j]).id != ev.target implies
        r[j] == s[j] by {
        if j == i {
            assert(s[i].id == ev.target);
        }
    }
}

/// Post-downed idempotence: a damage event against an already-downed
/// target changes nothing at all — health, downed state and everything
/// else stay as they are.
pub proof fn lemma_post_downed_idempotent(s: Seq<ActorModel>, ev: DamageEvent)
    requires
        has_id(s, ev.target),
        entry_of(s, ev.target).downed is Some,
    ensures
        spec_apply_event(s, ev) == s,
{
}

/// One damage event only rewrites vitals, targetability and the downed
/// state; identity, intents, cooldowns and selections pass through, and a
/// downed state is only ever attached fresh, never altered.
proof fn lemma_apply_event_preserves(s: Seq<ActorModel>, ev: DamageEvent, j: int)
    requires
        0 <= j < s.len(),
    ensures
        spec_apply_event(s, ev).len() == s.len(),
        spec_apply_event(s, ev)[j].id == s[j].id,
        spec_apply_event(s, ev)[j].name == s[j].name,
        spec_apply_event(s, ev)[j].target == s[j].target,
        spec_apply_event(s, ev)[j].attack == s[j].attack,
        spec_apply_event(s, ev)[j].cooldowns == s[j].cooldowns,
        s[j].downed is Some ==> spec_apply_event(s, ev)[j].downed == s[j].downed,
        spec_apply_event(s, ev)[j].downed is Some ==> s[j].downed is Some
            || spec_apply_event(s, ev)[j].downed == Some(Downed {
                despawn_remaining: DESPAWN_DELAY,
            }),
{
}

/// Draining any event queue preserves the same per-actor attachments as a
/// single event does, over the whole queue.
proof fn lemma_drain_preserves(s: Seq<ActorModel>, evs: Seq<DamageEvent>, j: int)
    requires
        0 <= j < s.len(),
    ensures
        spec_drain(s, evs).len() == s.len(),
        spec_drain(s, evs)[j].id == s[j].id,
        spec_drain(s, evs)[j].name == s[j].name,
        spec_drain(s, evs)[j].target == s[j].target,
        spec_drain(s, evs)[j].attack == s[j].attack,
        spec_drain(s, evs)[j].cooldowns == s[j].cooldowns,
        s[j].downed is Some ==> spec_drain(s, evs)[j].downed == s[j].downed,
        spec_drain(s, evs)[j].downed is Some ==> s[j].downed is Some
            || spec_drain(s, evs)[j].downed == Some(Downed {
                despawn_remaining: DESPAWN_DELAY,
            }),
    decreases evs.len(),
{
    if evs.len() > 0 {
        lemma_drain_preserves(s, evs.drop_last(), j);
        lemma_apply_event_preserves(spec_drain(s, evs.drop_last()), evs.last(), j);
    }
}

/// Cooldown gating, within one tick: whatever else the registry holds, an
/// actor with an active attack cooldown is passed over by the attack
/// resolver, and its pending intent — whenever it was attached — is kept,
/// untouched.
pub proof fn lemma_cooldown_gates_attack(s: Seq<ActorModel>, i: int)
    requires
        0 <= i < s.len(),
        has_cooldown(s[i], ActionKind::Attack),
    ensures
        spec_attack_pass(s)[i] == s[i],
{
    assert(spec_attack_pass(s)[i] == spec_resolve_attack(s[i]));
}

/// Only the attack pool gates attacks: an actor whose intent is pending
/// and whose attack pool is clear has it resolved by this tick's attack
/// pass — whatever cooldowns of other kinds it still holds — into a fresh
/// attack cooldown and its damage event.
pub proof fn lemma_ready_attack_resolves(s: Seq<ActorModel>, i: int)
    requires
        0 <= i < s.len(),
        s[i].attack is Some,
        !has_cooldown(s[i], ActionKind::Attack),
    ensures
        spec_attack_pass(s)[i].attack is None,
        has_cooldown(spec_attack_pass(s)[i], ActionKind::Attack),
        spec_emitted(s).contains(spec_event_of(s[i])),
{
    assert(attack_ready(s[i]));
    assert(spec_attack_pass(s)[i] == spec_resolve_attack(s[i]));
    let cds = spec_attack_pass(s)[i].cooldowns;
    assert(cds[cds.len() - 1].kind == ActionKind::Attack);
    lemma_emitted_contains(s, i);
}

/// Cooldown gating, across two ticks. An actor holding both a pending
/// attack intent and an active attack cooldown is passed over by the
/// attack resolver — the intent is not consumed, whenever it was attached.
/// Once the tick's elapsed time reaches what remains of the attack
/// cooldown (and the actor is not downed, and the tick is shorter than the
/// despawn delay, so the actor survives the tick), the cooldown is
/// detached by that tick, and the following tick's attack resolver
/// consumes exactly that pending intent: the intent detaches, a fresh
/// attack cooldown attaches, and the intent's damage event is emitted.
pub proof fn lemma_cooldown_gating(s: Seq<ActorModel>, i: int, delta: TimeUnits)
    requires
        models_wf(s),
        0 <= i < s.len(),
        s[i].attack is Some,
        has_cooldown(s[i], ActionKind::Attack),
        forall|j: int| 0 <= j < s[i].cooldowns.len()
            && (#[trigger] s[i].cooldowns[j]).kind == ActionKind::Attack
            ==> s[i].cooldowns[j].remaining <= delta,
        s[i].downed is None,
        delta < DESPAWN_DELAY,
    ensures
        // this tick's attack pass does not consume the intent
        spec_attack_pass(s)[i] == s[i],
        // the actor survives the tick, intent still pending, cooldown gone
        has_id(spec_tick(s, delta), s[i].id),
        entry_of(spec_tick(s, delta), s[i].id).attack == s[i].attack,
        !has_cooldown(entry_of(spec_tick(s, delta), s[i].id), ActionKind::Attack),
        // the next tick's attack pass consumes exactly the pending intent
        entry_of(spec_attack_pass(spec_tick(s, delta)), s[i].id).attack is None,
        has_cooldown(
            entry_of(spec_attack_pass(spec_tick(s, delta)), s[i].id),
            ActionKind::Attack,
        ),
        spec_emitted(spec_tick(s, delta)).contains(DamageEvent {
            source: s[i].id,
            target: s[i].attack->0.target,
            amount: s[i].attack->0.damage,
        }),
{
    let id = s[i].id;
    let sa = spec_attack_pass(s);
    assert(sa[i] == spec_resolve_attack(s[i]));
    assert(!attack_ready(s[i]));
    assert(sa[i] == s[i]);
    assert(sa.len() == s.len());
    assert forall|j: int| 0 <= j < sa.len() implies (#[trigger] sa[j]).id == s[j].id by {
        assert(sa[j] == spec_resolve_attack(s[j]));
    }

    let evs = spec_emitted(s);
    let sd = spec_drain(sa, evs);
    lemma_drain_preserves(sa, evs, i);
    assert(sd[i].attack == s[i].attack);
    assert(sd[i].cooldowns == s[i].cooldowns);
    assert(sd[i].id == id);
    assert(!downed_fires(sd[i], delta)) by {
        if sd[i].downed is Some {
            assert(sd[i].downed == Some(Downed { despawn_remaining: DESPAWN_DELAY }));
        }
    }
    assert(distinct_ids(sd)) by {
        assert forall|a: int, b: int| 0 <= a < b < sd.len() implies
            (#[trigger] sd[a]).id != (#[trigger] sd[b]).id by {
            lemma_drain_preserves(sa, evs, a);
            lemma_drain_preserves(sa, evs, b);
            assert(s[a].id != s[b].id);
        }
    }

    let sw = spec_downed_pass(sd, delta);
    lemma_downed_pass_ids(sd, delta);
    lemma_downed_pass_present(sd, delta, i);
    let mw = spec_tick_downed(sd[i], delta);
    assert(mw.attack == s[i].attack);
    assert(mw.cooldowns == s[i].cooldowns);
    assert(mw.id == id);
    let w = choose|w: int| 0 <= w < sw.len() && sw[w] == mw;

    let sc = spec_cooldown_pass(sw, delta);
    assert(sc == spec_tick(s, delta));
    assert(sc[w] == spec_cooldown_actor(sw[w], delta));
    assert(kinds_distinct(mw.cooldowns)) by {
        assert(cooldown_kinds_distinct(s[i]));
    }
    lemma_tick_cooldowns_kinds(mw.cooldowns, delta);
    let cds2 = spec_tick_cooldowns(mw.cooldowns, delta);
    assert(!kind_present(cds2, ActionKind::Attack)) by {
        if kind_present(cds2, ActionKind::Attack) {
            let j = choose|j: int| 0 <= j < mw.cooldowns.len()
                && (#[trigger] mw.cooldowns[j]).kind == ActionKind::Attack
                && mw.cooldowns[j].remaining > delta;
            assert(s[i].cooldowns[j].remaining <= delta);
        }
    }
    assert(sc[w].attack == s[i].attack);
    assert(sc[w].cooldowns == cds2);
    assert(sc[w].id == id);
    assert(!has_cooldown(sc[w], ActionKind::Attack)) by {
        if has_cooldown(sc[w], ActionKind::Attack) {
            let j = choose|j: int| 0 <= j < sc[w].cooldowns.len()
                && (#[trigger] sc[w].cooldowns[j]).kind == ActionKind::Attack;
            assert(kind_present(cds2, ActionKind::Attack));
        }
    }
    assert(distinct_ids(sc)) by {
        assert forall|a: int, b: int| 0 <= a < b < sc.len() implies
            (#[trigger] sc[a]).id != (#[trigger] sc[b]).id by {
            assert(sc[a] == spec_cooldown_actor(sw[a], delta));
            assert(sc[b] == spec_cooldown_actor(sw[b], delta));
        }
    }
    lemma_entry_unique(sc, w);
    assert(entry_of(sc, id) == sc[w]);
    assert(attack_ready(sc[w]));

    // the following tick's attack pass
    let s2 = spec_attack_pass(sc);
    assert(s2[w] == spec_resolve_attack(sc[w]));
    assert(s2[w].attack is None);
    assert(s2[w].id == id);
    assert(has_cooldown(s2[w], ActionKind::Attack)) by {
        let n = s2[w].cooldowns.len();
        assert(s2[w].cooldowns[n - 1].kind == ActionKind::Attack);
    }
    assert(distinct_ids(s2)) by {
        assert forall|a: int, b: int| 0 <= a < b < s2.len() implies
            (#[trigger] s2[a]).id != (#[trigger] s2[b]).id by {
            assert(s2[a] == spec_resolve_attack(sc[a]));
            assert(s2[b] == spec_resolve_attack(sc[b]));
        }
    }
    lemma_entry_unique(s2, w);
    assert(entry_of(s2, id) == s2[w]);

    lemma_emitted_contains(sc, w);
    assert(spec_event_of(sc[w]) == DamageEvent {
        source: id,
        target: s[i].attack->0.target,
        amount: s[i].attack->0.damage,
    });
}

} // verus!

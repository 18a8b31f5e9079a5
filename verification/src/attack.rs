//! The attack resolver: converts pending attack intents into damage events
//! and starts the issuer's attack cooldown. Also the intent-creation
//! boundary, which enforces the self-target guard.

use vstd::prelude::*;

use crate::actor::{ActionKind, ActorId, ActorModel, Attack, Cooldown, DamageEvent, HealthPoints,
    TimeUnits, attack_ready, has_cooldown};
use crate::registry::{Registry, has_id, idx_of, entry_of, lemma_entry_unique};

verus! {

/// Resolution of one actor's intent: a ready intent is detached and
/// replaced by an attack cooldown of the intent's duration; anything else
/// is untouched. An actor already on attack cooldown silently retains its
/// pending intent.
pub open spec fn spec_resolve_attack(m: ActorModel) -> ActorModel {
    if attack_ready(m) {
        ActorModel {
            attack: None,
            cooldowns: m.cooldowns.push(Cooldown {
                kind: ActionKind::Attack,
                remaining: m.attack->0.cooldown,
            }),
            ..m
        }
    } else {
        m
    }
}

/// The attack resolver's pass over the whole registry, in registry order.
pub open spec fn spec_attack_pass(s: Seq<ActorModel>) -> Seq<ActorModel> {
    s.map_values(|m: ActorModel| spec_resolve_attack(m))
}

/// The damage event a ready intent turns into.
pub open spec fn spec_event_of(m: ActorModel) -> DamageEvent
    recommends
        m.attack is Some,
{
    DamageEvent { source: m.id, target: m.attack->0.target, amount: m.attack->0.damage }
}

/// The damage events emitted by one pass, in registry order: one per ready
/// intent.
pub open spec fn spec_emitted(s: Seq<ActorModel>) -> Seq<DamageEvent>
    decreases s.len(),
{
    if s.len() == 0 {
        Seq::empty()
    } else {
        spec_emitted(s.drop_last())
            + if attack_ready(s.last()) { seq![spec_event_of(s.last())] } else { Seq::empty() }
    }
}

/// A ready intent anywhere in the registry puts its event in the emitted
/// queue.
pub proof fn lemma_emitted_contains(s: Seq<ActorModel>, k: int)
    requires
        0 <= k < s.len(),
        attack_ready(s[k]),
    ensures
        spec_emitted(s).contains(spec_event_of(s[k])),
    decreases s.len(),
{
    if k == s.len() - 1 {
        let e = spec_event_of(s[k]);
        assert(spec_emitted(s)[spec_emitted(s).len() - 1] == e);
    } else {
        lemma_emitted_contains(s.drop_last(), k);
        let e = spec_event_of(s[k]);
        let i = choose|i: int| 0 <= i < spec_emitted(s.drop_last()).len()
            && spec_emitted(s.drop_last())[i] == e;
        assert(spec_emitted(s)[i] == e);
    }
}

impl Registry {
    /// Run the attack resolver over every actor, in registry order, and
    /// return the damage events it emitted, in the same order.
    pub fn resolve_attacks(&mut self) -> (events: Vec<DamageEvent>)
        requires
            old(self).wf(),
        ensures
            final(self).wf(),
            final(self)@ == spec_attack_pass(old(self)@),
            events@ == spec_emitted(old(self)@),
            final(self).next_id == old(self).next_id,
    {
        let ghost s0 = self@;
        let mut events: Vec<DamageEvent> = Vec::new();
        let n = self.actors.len();
        for i in 0..n
            invariant
                n == self.actors@.len(),
                self@.len() == s0.len(),
                forall|j: int| i <= j < n ==> self@[j] == s0[j],
                forall|j: int| 0 <= j < i ==> self@[j] == spec_resolve_attack(#[trigger] s0[j]),
                events@ == spec_emitted(s0.take(i as int)),
                self.next_id == old(self).next_id,
        {
            let ghost m = s0[i as int];
            let ready = self.actors[i].attack.is_some()
                && !self.actors[i].on_cooldown(ActionKind::Attack);
            if ready {
                let att = self.actors[i].attack.unwrap();
                let source = self.actors[i].id;
                let a = &mut self.actors[i];
                a.attack = None;
                a.cooldowns.push(Cooldown { kind: ActionKind::Attack, remaining: att.cooldown });
                events.push(DamageEvent { source, target: att.target, amount: att.damage });
                proof {
                    assert(self@[i as int] =~= spec_resolve_attack(m));
                }
            }
            proof {
                assert(s0.take(i + 1).drop_last() =~= s0.take(i as int));
                assert(s0.take(i + 1).last() == m);
                if attack_ready(m) {
                    assert(events@ =~= spec_emitted(s0.take(i + 1)));
                } else {
                    assert(events@ =~= spec_emitted(s0.take(i + 1)));
                }
            }
        }
        proof {
            assert(s0.take(n as int) =~= s0);
            assert(self@ =~= spec_attack_pass(s0));
            assert forall|j: int| 0 <= j < self@.len() implies
                crate::actor::cooldown_kinds_distinct(#[trigger] self@[j]) by {
                assert(crate::actor::cooldown_kinds_distinct(s0[j]));
                if attack_ready(s0[j]) {
                    assert(!has_cooldown(s0[j], ActionKind::Attack));
                    let cds = self@[j].cooldowns;
                    assert forall|p: int, q: int| 0 <= p < q < cds.len() implies
                        (#[trigger] cds[p]).kind != (#[trigger] cds[q]).kind by {
                        if q == cds.len() - 1 {
                            assert(cds[q].kind == ActionKind::Attack);
                            if cds[p].kind == ActionKind::Attack {
                                assert(s0[j].cooldowns[p].kind == ActionKind::Attack);
                                assert(has_cooldown(s0[j], ActionKind::Attack));
                            }
                        } else {
                            assert(s0[j].cooldowns[p].kind != s0[j].cooldowns[q].kind);
                        }
                    }
                }
            }
        }
        events
    }

    /// The intent-creation boundary: attach an attack intent from `source`
    /// against its currently selected target. Refused — and `false`
    /// returned — when the source is missing, has no target selected, is
    /// still on attack cooldown, or has itself selected (the self-target
    /// guard). A refused intent changes nothing.
    pub fn issue_attack(&mut self, source: ActorId, damage: HealthPoints, cooldown: TimeUnits)
        -> (issued: bool)
        requires
            old(self).wf(),
        ensures
            final(self).wf(),
            final(self).next_id == old(self).next_id,
            issued == spec_can_issue(old(self)@, source),
            issued ==> final(self)@ == old(self)@.update(
                idx_of(old(self)@, source),
                ActorModel {
                    attack: Some(Attack {
                        target: entry_of(old(self)@, source).target->0,
                        damage,
                        cooldown,
                    }),
                    ..entry_of(old(self)@, source)
                },
            ),
            !issued ==> final(self)@ == old(self)@,
    {
        let found = self.find_index(source);
        match found {
            None => false,
            Some(i) => {
                let ghost s0 = self@;
                proof {
                    lemma_entry_unique(s0, i as int);
                }
                match self.actors[i].target {
                    None => false,
                    Some(t) => {
                        if t == source || self.actors[i].on_cooldown(ActionKind::Attack) {
                            false
                        } else {
                            let a = &mut self.actors[i];
                            a.attack = Some(Attack { target: t, damage, cooldown });
                            proof {
                                assert(self@ =~= s0.update(i as int, ActorModel {
                                    attack: Some(Attack { target: t, damage, cooldown }),
                                    ..s0[i as int]
                                }));
                                assert(self.wf());
                            }
                            true
                        }
                    },
                }
            },
        }
    }
}

/// When the intent boundary accepts an attack request: the source is live,
/// has a target selected other than itself, and is not on attack cooldown.
pub open spec fn spec_can_issue(s: Seq<ActorModel>, source: ActorId) -> bool {
    &&& has_id(s, source)
    &&& entry_of(s, source).target is Some
    &&& entry_of(s, source).target->0 != source
    &&& !has_cooldown(entry_of(s, source), ActionKind::Attack)
}

} // verus!

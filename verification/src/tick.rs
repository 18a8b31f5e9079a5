//! The tick driver: one simulation step, running the resolvers in their
//! fixed order — attack, damage, downed, cooldown — over a damage-event
//! queue that is created and drained within the tick and never carried
//! over.

use vstd::prelude::*;

use crate::actor::{ActorId, ActorModel, DamageEvent, TimeUnits};
use crate::attack::{spec_attack_pass, spec_emitted};
use crate::damage::{DamageOutcome, spec_drain, spec_outcomes};
use crate::expiry::{spec_cooldown_pass, spec_despawned, spec_downed_pass};
use crate::registry::Registry;

verus! {

/// One tick's effect on the registry: the attack pass converts ready
/// intents into events and cooldowns; the events are drained in emission
/// order; despawn timers advance, removing expired actors; and every
/// cooldown counts down.
pub open spec fn spec_tick(s: Seq<ActorModel>, delta: TimeUnits) -> Seq<ActorModel> {
    spec_cooldown_pass(
        spec_downed_pass(spec_drain(spec_attack_pass(s), spec_emitted(s)), delta),
        delta,
    )
}

/// Advisory trace of one tick, for presentation: the damage events the
/// attack resolver emitted, what each did when drained, and the identities
/// the downed resolver removed.
pub struct TickReport {
    pub events: Vec<DamageEvent>,
    pub outcomes: Vec<DamageOutcome>,
    pub despawned: Vec<ActorId>,
}

impl Registry {
    /// Advance the simulation by one tick of `delta` elapsed time units.
    pub fn tick(&mut self, delta: TimeUnits) -> (r: TickReport)
        requires
            old(self).wf(),
        ensures
            final(self).wf(),
            final(self)@ == spec_tick(old(self)@, delta),
            final(self).next_id == old(self).next_id,
            r.events@ == spec_emitted(old(self)@),
            r.outcomes@ == spec_outcomes(spec_attack_pass(old(self)@), spec_emitted(old(self)@)),
            r.despawned@ == spec_despawned(
                spec_drain(spec_attack_pass(old(self)@), spec_emitted(old(self)@)),
                delta,
            ),
    {
        let events = self.resolve_attacks();
        let outcomes = self.resolve_damage(&events);
        let despawned = self.resolve_downed(delta);
        self.resolve_cooldowns(delta);
        TickReport { events, outcomes, despawned }
    }
}

} // verus!

//! The damage resolver: drains the pending damage events of a tick in FIFO
//! order, mutating target vitals and triggering the downed transition.

use vstd::prelude::*;

use crate::actor::{ActorModel, DamageEvent, Downed, Vitals, DESPAWN_DELAY, HealthPoints};
use crate::registry::{Registry, has_id, idx_of, entry_of, lemma_entry_unique};

verus! {

/// What one damage event did, as reported to the caller. Advisory trace
/// data; the authoritative statement is the registry transformation.
#[derive(Clone, Copy, PartialEq, Eq, Structural, Debug)]
pub enum DamageOutcome {
    /// The target is not in the registry: the event was a no-op.
    Missing,
    /// The target is already downed: the event was a no-op.
    AlreadyDowned,
    /// The amount was below the target's health, which now stands at
    /// `remaining`.
    Damaged { remaining: HealthPoints },
    /// The amount reached the target's health: it was downed.
    DownedNow,
}

/// The downed transition: health pinned to zero, targetability revoked, and
/// the despawn countdown attached.
pub open spec fn spec_down(m: ActorModel) -> ActorModel {
    ActorModel {
        vitals: Vitals { health: 0, ..m.vitals },
        targetable: false,
        downed: Some(Downed { despawn_remaining: DESPAWN_DELAY }),
        ..m
    }
}

/// A non-lethal hit: health drops by exactly the amount.
pub open spec fn spec_hit(m: ActorModel, amount: HealthPoints) -> ActorModel
    recommends
        amount < m.vitals.health,
{
    ActorModel { vitals: Vitals { health: (m.vitals.health - amount) as usize, ..m.vitals }, ..m }
}

/// Effect of one damage event on the registry: a no-op against a missing or
/// already-downed target; otherwise exactly one of the downed transition
/// (amount >= health) or the subtraction (amount < health).
pub open spec fn spec_apply_event(s: Seq<ActorModel>, ev: DamageEvent) -> Seq<ActorModel> {
    if !has_id(s, ev.target) {
        s
    } else {
        let i = idx_of(s, ev.target);
        let m = s[i];
        if m.downed is Some {
            s
        } else if ev.amount >= m.vitals.health {
            s.update(i, spec_down(m))
        } else {
            s.update(i, spec_hit(m, ev.amount))
        }
    }
}

/// The outcome reported for one damage event.
pub open spec fn spec_outcome(s: Seq<ActorModel>, ev: DamageEvent) -> DamageOutcome {
    if !has_id(s, ev.target) {
        DamageOutcome::Missing
    } else {
        let m = entry_of(s, ev.target);
        if m.downed is Some {
            DamageOutcome::AlreadyDowned
        } else if ev.amount >= m.vitals.health {
            DamageOutcome::DownedNow
        } else {
            DamageOutcome::Damaged { remaining: (m.vitals.health - ev.amount) as usize }
        }
    }
}

/// Effect of draining a queue of damage events in FIFO order.
pub open spec fn spec_drain(s: Seq<ActorModel>, evs: Seq<DamageEvent>) -> Seq<ActorModel>
    decreases evs.len(),
{
    if evs.len() == 0 {
        s
    } else {
        spec_apply_event(spec_drain(s, evs.drop_last()), evs.last())
    }
}

/// The outcomes reported while draining a queue, in queue order.
pub open spec fn spec_outcomes(s: Seq<ActorModel>, evs: Seq<DamageEvent>) -> Seq<DamageOutcome>
    decreases evs.len(),
{
    if evs.len() == 0 {
        Seq::empty()
    } else {
        spec_outcomes(s, evs.drop_last()).push(
            spec_outcome(spec_drain(s, evs.drop_last()), evs.last()),
        )
    }
}

impl Registry {
    /// Apply one damage event. A missing or already-downed target makes the
    /// event a silent no-op; otherwise the target is downed exactly when
    /// the amount reaches its current health, and merely hurt otherwise.
    pub fn apply_damage_event(&mut self, ev: &DamageEvent) -> (out: DamageOutcome)
        requires
            old(self).wf(),
        ensures
            final(self).wf(),
            final(self)@ == spec_apply_event(old(self)@, *ev),
            out == spec_outcome(old(self)@, *ev),
            final(self).next_id == old(self).next_id,
    {
        let found = self.find_index(ev.target);
        match found {
            None => DamageOutcome::Missing,
            Some(i) => {
                let ghost s0 = self@;
                let ghost m0 = s0[i as int];
                proof {
                    lemma_entry_unique(s0, i as int);
                }
                if self.actors[i].downed.is_some() {
                    DamageOutcome::AlreadyDowned
                } else if ev.amount >= self.actors[i].vitals.health {
                    let a = &mut self.actors[i];
                    a.vitals.health = 0;
                    a.targetable = false;
                    a.downed = Some(Downed { despawn_remaining: DESPAWN_DELAY });
                    proof {
                        assert(self@ =~= s0.update(i as int, spec_down(m0)));
                        assert(self.wf());
                    }
                    DamageOutcome::DownedNow
                } else {
                    let a = &mut self.actors[i];
                    let h = a.vitals.health;
                    a.vitals.health = h - ev.amount;
                    proof {
                        assert(self@ =~= s0.update(i as int, spec_hit(m0, ev.amount)));
                        assert(self.wf());
                    }
                    DamageOutcome::Damaged { remaining: h - ev.amount }
                }
            },
        }
    }

    /// Drain a tick's damage events, first to last, and report what each
    /// one did.
    pub fn resolve_damage(&mut self, events: &Vec<DamageEvent>) -> (outs: Vec<DamageOutcome>)
        requires
            old(self).wf(),
        ensures
            final(self).wf(),
            final(self)@ == spec_drain(old(self)@, events@),
            outs@ == spec_outcomes(old(self)@, events@),
            final(self).next_id == old(self).next_id,
    {
        let ghost s0 = self@;
        let mut outs: Vec<DamageOutcome> = Vec::new();
        let n = events.len();
        for i in 0..n
            invariant
                self.wf(),
                n == events@.len(),
                self@ == spec_drain(s0, events@.take(i as int)),
                outs@ == spec_outcomes(s0, events@.take(i as int)),
                self.next_id == old(self).next_id,
        {
            let out = self.apply_damage_event(&events[i]);
            outs.push(out);
            proof {
                assert(events@.take(i + 1).drop_last() =~= events@.take(i as int));
                assert(events@.take(i + 1).last() == events@[i as int]);
            }
        }
        proof {
            assert(events@.take(n as int) =~= events@);
        }
        outs
    }
}

} // verus!

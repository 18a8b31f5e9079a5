//! The two time-driven resolvers: the downed resolver, which advances
//! despawn timers and removes expired actors from the registry, and the
//! generic cooldown resolver, which counts every cooldown pool down and
//! detaches finished ones.

use vstd::prelude::*;

use crate::actor::{ActionKind, ActorId, ActorModel, Cooldown, Downed, TimeUnits,
    cooldown_kinds_distinct, downed_untargetable};
use crate::registry::{Registry, distinct_ids, has_id};

verus! {

/// A despawn timer fires on the tick whose elapsed time reaches what
/// remains of it.
pub open spec fn downed_fires(m: ActorModel, delta: TimeUnits) -> bool {
    m.downed matches Some(d) && d.despawn_remaining <= delta
}

/// A downed actor that survives the tick merely counts down.
pub open spec fn spec_tick_downed(m: ActorModel, delta: TimeUnits) -> ActorModel {
    if m.downed is Some {
        ActorModel {
            downed: Some(Downed {
                despawn_remaining: (m.downed->0.despawn_remaining - delta) as TimeUnits,
            }),
            ..m
        }
    } else {
        m
    }
}

/// The downed resolver's pass: every actor whose despawn timer fires is
/// removed outright — with all its attached data — and every other downed
/// actor's timer advances. Registry order of the survivors is kept.
pub open spec fn spec_downed_pass(s: Seq<ActorModel>, delta: TimeUnits) -> Seq<ActorModel>
    decreases s.len(),
{
    if s.len() == 0 {
        Seq::empty()
    } else {
        spec_downed_pass(s.drop_last(), delta)
            + if downed_fires(s.last(), delta) {
                Seq::empty()
            } else {
                seq![spec_tick_downed(s.last(), delta)]
            }
    }
}

/// Identities removed by the pass, in registry order.
pub open spec fn spec_despawned(s: Seq<ActorModel>, delta: TimeUnits) -> Seq<ActorId>
    decreases s.len(),
{
    if s.len() == 0 {
        Seq::empty()
    } else {
        spec_despawned(s.drop_last(), delta)
            + if downed_fires(s.last(), delta) { seq![s.last().id] } else { Seq::empty() }
    }
}

/// The pass keeps identities distinct and invents none.
pub proof fn lemma_downed_pass_ids(s: Seq<ActorModel>, delta: TimeUnits)
    requires
        distinct_ids(s),
    ensures
        distinct_ids(spec_downed_pass(s, delta)),
        forall|id: ActorId| #[trigger] has_id(spec_downed_pass(s, delta), id) ==> has_id(s, id),
    decreases s.len(),
{
    let r = spec_downed_pass(s, delta);
    if s.len() == 0 {
        assert forall|id: ActorId| #[trigger] has_id(r, id) implies has_id(s, id) by {
            let w = choose|i: int| 0 <= i < r.len() && r[i].id == id;
            assert(false);
        }
    } else {
        let dl = s.drop_last();
        let rd = spec_downed_pass(dl, delta);
        lemma_downed_pass_ids(dl, delta);
        if downed_fires(s.last(), delta) {
            assert(r =~= rd);
            assert forall|id: ActorId| #[trigger] has_id(r, id) implies has_id(s, id) by {
                assert(has_id(rd, id));
                assert(has_id(dl, id));
                let w = choose|i: int| 0 <= i < dl.len() && dl[i].id == id;
                assert(s[w].id == id);
            }
        } else {
            let m = spec_tick_downed(s.last(), delta);
            assert(r =~= rd.push(m));
            assert(m.id == s.last().id);
            // the appended identity is not among the survivors of the prefix
            assert(!has_id(rd, m.id)) by {
                if has_id(rd, m.id) {
                    assert(has_id(dl, m.id));
                    let w = choose|i: int| 0 <= i < dl.len() && dl[i].id == m.id;
                    assert(s[w].id == s[s.len() - 1].id);
                    assert(false);
                }
            }
            assert forall|i: int, j: int| 0 <= i < j < r.len() implies
                (#[trigger] r[i]).id != (#[trigger] r[j]).id by {
                if j == r.len() - 1 {
                    if r[i].id == m.id {
                        assert(0 <= i < rd.len() && rd[i].id == m.id);
                        assert(has_id(rd, m.id));
                    }
                } else {
                    assert(rd[i].id != rd[j].id);
                }
            }
            assert forall|id: ActorId| #[trigger] has_id(r, id) implies has_id(s, id) by {
                let w = choose|i: int| 0 <= i < r.len() && r[i].id == id;
                if w < rd.len() {
                    assert(has_id(rd, id));
                    assert(has_id(dl, id));
                    let w2 = choose|i: int| 0 <= i < dl.len() && dl[i].id == id;
                    assert(s[w2].id == id);
                } else {
                    assert(s[s.len() - 1].id == id);
                }
            }
        }
    }
}

/// A survivor of the pass stays, with its timer advanced.
pub proof fn lemma_downed_pass_present(s: Seq<ActorModel>, delta: TimeUnits, j: int)
    requires
        0 <= j < s.len(),
        !downed_fires(s[j], delta),
    ensures
        spec_downed_pass(s, delta).contains(spec_tick_downed(s[j], delta)),
    decreases s.len(),
{
    let r = spec_downed_pass(s, delta);
    let rd = spec_downed_pass(s.drop_last(), delta);
    if j == s.len() - 1 {
        assert(r[r.len() - 1] == spec_tick_downed(s[j], delta));
    } else {
        lemma_downed_pass_present(s.drop_last(), delta, j);
        let m = spec_tick_downed(s.drop_last()[j], delta);
        let w = choose|i: int| 0 <= i < rd.len() && rd[i] == m;
        assert(r[w] == m);
    }
}

/// An identity whose every bearer fires is gone after the pass; with
/// distinct identities this is despawn finality for the fired actor.
pub proof fn lemma_downed_pass_absent(s: Seq<ActorModel>, delta: TimeUnits, id: ActorId)
    requires
        forall|j: int| 0 <= j < s.len() && (#[trigger] s[j]).id == id ==> downed_fires(s[j], delta),
    ensures
        !has_id(spec_downed_pass(s, delta), id),
    decreases s.len(),
{
    let r = spec_downed_pass(s, delta);
    if s.len() == 0 {
        if has_id(r, id) {
            let w = choose|i: int| 0 <= i < r.len() && r[i].id == id;
        }
    } else {
        let dl = s.drop_last();
        assert forall|j: int| 0 <= j < dl.len() && (#[trigger] dl[j]).id == id implies
            downed_fires(dl[j], delta) by {
            assert(s[j].id == id);
        }
        lemma_downed_pass_absent(dl, delta, id);
        let rd = spec_downed_pass(dl, delta);
        if has_id(r, id) {
            let w = choose|i: int| 0 <= i < r.len() && r[i].id == id;
            if w < rd.len() {
                assert(has_id(rd, id));
            } else {
                assert(!downed_fires(s.last(), delta) && r[w] == spec_tick_downed(s.last(), delta));
                assert(s[s.len() - 1].id == id);
            }
        }
    }
}

/// A finished cooldown is one whose remainder the tick's elapsed time
/// reaches.
pub open spec fn cooldown_fires(c: Cooldown, delta: TimeUnits) -> bool {
    c.remaining <= delta
}

/// One actor's cooldown set after a tick: finished entries are detached,
/// the rest count down. Pools of different kinds never interfere.
pub open spec fn spec_tick_cooldowns(cds: Seq<Cooldown>, delta: TimeUnits) -> Seq<Cooldown>
    decreases cds.len(),
{
    if cds.len() == 0 {
        Seq::empty()
    } else {
        spec_tick_cooldowns(cds.drop_last(), delta)
            + if cooldown_fires(cds.last(), delta) {
                Seq::empty()
            } else {
                seq![Cooldown {
                    kind: cds.last().kind,
                    remaining: (cds.last().remaining - delta) as TimeUnits,
                }]
            }
    }
}

/// A kind is present in the cooldown sequence.
pub open spec fn kind_present(cds: Seq<Cooldown>, kind: ActionKind) -> bool {
    exists|i: int| 0 <= i < cds.len() && (#[trigger] cds[i]).kind == kind
}

/// Kinds distinct within the sequence.
pub open spec fn kinds_distinct(cds: Seq<Cooldown>) -> bool {
    forall|i: int, j: int|
        0 <= i < j < cds.len() ==> (#[trigger] cds[i]).kind != (#[trigger] cds[j]).kind
}

/// Ticking a cooldown set keeps kinds distinct, and a kind survives only
/// on an entry that outlasted the tick.
pub proof fn lemma_tick_cooldowns_kinds(cds: Seq<Cooldown>, delta: TimeUnits)
    requires
        kinds_distinct(cds),
    ensures
        kinds_distinct(spec_tick_cooldowns(cds, delta)),
        forall|kind: ActionKind| #[trigger] kind_present(spec_tick_cooldowns(cds, delta), kind)
            ==> exists|j: int| 0 <= j < cds.len() && (#[trigger] cds[j]).kind == kind
                && cds[j].remaining > delta,
    decreases cds.len(),
{
    let r = spec_tick_cooldowns(cds, delta);
    if cds.len() == 0 {
        assert forall|kind: ActionKind| #[trigger] kind_present(r, kind) implies
            exists|j: int| 0 <= j < cds.len() && (#[trigger] cds[j]).kind == kind
                && cds[j].remaining > delta by {
            let w = choose|i: int| 0 <= i < r.len() && r[i].kind == kind;
        }
    } else {
        let dl = cds.drop_last();
        let rd = spec_tick_cooldowns(dl, delta);
        lemma_tick_cooldowns_kinds(dl, delta);
        if cooldown_fires(cds.last(), delta) {
            assert(r =~= rd);
            assert forall|kind: ActionKind| #[trigger] kind_present(r, kind) implies
                exists|j: int| 0 <= j < cds.len() && (#[trigger] cds[j]).kind == kind
                    && cds[j].remaining > delta by {
                assert(kind_present(rd, kind));
                let j = choose|j: int| 0 <= j < dl.len() && dl[j].kind == kind
                    && dl[j].remaining > delta;
                assert(cds[j].kind == kind && cds[j].remaining > delta);
            }
        } else {
            let c = Cooldown {
                kind: cds.last().kind,
                remaining: (cds.last().remaining - delta) as TimeUnits,
            };
            assert(r =~= rd.push(c));
            assert(!kind_present(rd, c.kind)) by {
                if kind_present(rd, c.kind) {
                    let j = choose|j: int| 0 <= j < dl.len() && dl[j].kind == c.kind
                        && dl[j].remaining > delta;
                    assert(cds[j].kind == cds[cds.len() - 1].kind);
                }
            }
            assert forall|i: int, j: int| 0 <= i < j < r.len() implies
                (#[trigger] r[i]).kind != (#[trigger] r[j]).kind by {
                if j == r.len() - 1 {
                    if r[i].kind == c.kind {
                        assert(0 <= i < rd.len() && rd[i].kind == c.kind);
                        assert(kind_present(rd, c.kind));
                    }
                } else {
                    assert(rd[i].kind != rd[j].kind);
                }
            }
            assert forall|kind: ActionKind| #[trigger] kind_present(r, kind) implies
                exists|j: int| 0 <= j < cds.len() && (#[trigger] cds[j]).kind == kind
                    && cds[j].remaining > delta by {
                let w = choose|i: int| 0 <= i < r.len() && r[i].kind == kind;
                if w < rd.len() {
                    assert(kind_present(rd, kind));
                    let j = choose|j: int| 0 <= j < dl.len() && dl[j].kind == kind
                        && dl[j].remaining > delta;
                    assert(cds[j].kind == kind && cds[j].remaining > delta);
                } else {
                    assert(cds[cds.len() - 1].kind == kind
                        && cds[cds.len() - 1].remaining > delta);
                }
            }
        }
    }
}

/// One actor after the cooldown resolver's tick.
pub open spec fn spec_cooldown_actor(m: ActorModel, delta: TimeUnits) -> ActorModel {
    ActorModel { cooldowns: spec_tick_cooldowns(m.cooldowns, delta), ..m }
}

/// The cooldown resolver's pass over the whole registry.
pub open spec fn spec_cooldown_pass(s: Seq<ActorModel>, delta: TimeUnits) -> Seq<ActorModel> {
    s.map_values(|m: ActorModel| spec_cooldown_actor(m, delta))
}

/// Advance one cooldown set by the tick's elapsed time.
fn tick_cooldown_vec(cds: &mut Vec<Cooldown>, delta: TimeUnits)
    ensures
        final(cds)@ == spec_tick_cooldowns(old(cds)@, delta),
{
    let mut out: Vec<Cooldown> = Vec::new();
    let n = cds.len();
    for i in 0..n
        invariant
            n == cds@.len(),
            cds@ == old(cds)@,
            out@ == spec_tick_cooldowns(cds@.take(i as int), delta),
    {
        let c = cds[i];
        if c.remaining > delta {
            out.push(Cooldown { kind: c.kind, remaining: c.remaining - delta });
        }
        proof {
            assert(cds@.take(i + 1).drop_last() =~= cds@.take(i as int));
            assert(cds@.take(i + 1).last() == cds@[i as int]);
            assert(out@ =~= spec_tick_cooldowns(cds@.take(i + 1), delta));
        }
    }
    proof {
        assert(cds@.take(n as int) =~= cds@);
    }
    *cds = out;
}

impl Registry {
    /// Run the downed resolver: advance every despawn timer by the tick's
    /// elapsed time and remove — with all attached data — every actor
    /// whose timer fires. Removal is final: a removed identity is no
    /// longer in the registry.
    pub fn resolve_downed(&mut self, delta: TimeUnits) -> (removed: Vec<ActorId>)
        requires
            old(self).wf(),
        ensures
            final(self).wf(),
            final(self)@ == spec_downed_pass(old(self)@, delta),
            removed@ == spec_despawned(old(self)@, delta),
            final(self).next_id == old(self).next_id,
            forall|j: int| 0 <= j < old(self)@.len()
                && downed_fires(#[trigger] old(self)@[j], delta)
                ==> !has_id(final(self)@, old(self)@[j].id),
    {
        let ghost s0 = self@;
        let mut removed: Vec<ActorId> = Vec::new();
        let mut i: usize = 0;
        let ghost mut k: int = 0;
        while i < self.actors.len()
            invariant
                old(self).wf(),
                0 <= k <= s0.len(),
                self@ == spec_downed_pass(s0.take(k), delta) + s0.skip(k),
                i as int == spec_downed_pass(s0.take(k), delta).len(),
                i <= self.actors@.len(),
                removed@ == spec_despawned(s0.take(k), delta),
                self.next_id == old(self).next_id,
            decreases s0.len() - k,
        {
            proof {
                assert(s0.skip(k).len() > 0);
                assert(self@[i as int] == s0.skip(k)[0]);
                assert(s0.skip(k)[0] == s0[k]);
            }
            let ghost p = spec_downed_pass(s0.take(k), delta);
            let ghost cur = self@;
            proof {
                assert(cur == p + s0.skip(k));
                assert((p + s0.skip(k)).len() == p.len() + s0.skip(k).len());
                assert(s0.skip(k).len() == s0.len() - k);
            }
            let fires = match self.actors[i].downed {
                Some(d) => d.despawn_remaining <= delta,
                None => false,
            };
            if fires {
                let id = self.actors[i].id;
                let ghost av = self.actors@;
                self.actors.remove(i);
                removed.push(id);
                proof {
                    av.remove_ensures(i as int);
                    assert(s0.take(k + 1).drop_last() =~= s0.take(k));
                    assert(s0.take(k + 1).last() == s0[k]);
                    assert(spec_downed_pass(s0.take(k + 1), delta) =~= p);
                    assert forall|x: int| 0 <= x < self@.len() implies
                        self@[x] == (p + s0.skip(k + 1))[x] by {
                        if x < i as int {
                            assert(self.actors@[x] == av[x]);
                            assert(self@[x] == cur[x]);
                            assert(cur[x] == p[x]);
                        } else {
                            assert(self.actors@[x] == av[x + 1]);
                            assert(self@[x] == cur[x + 1]);
                            assert((p + s0.skip(k)).len() == p.len() + s0.skip(k).len());
                            assert(x + 1 < p.len() + s0.skip(k).len());
                            assert(cur[x + 1] == (p + s0.skip(k))[x + 1]);
                            assert((p + s0.skip(k))[x + 1] == s0.skip(k)[x + 1 - p.len()]);
                            assert(s0.skip(k)[x + 1 - p.len()] == s0[k + x + 1 - p.len()]);
                            assert((p + s0.skip(k + 1))[x] == s0.skip(k + 1)[x - p.len()]);
                            assert(s0.skip(k + 1)[x - p.len()] == s0[k + 1 + x - p.len()]);
                        }
                    }
                    assert(s0.skip(k + 1).len() == s0.len() - (k + 1));
                    assert(self@.len() == p.len() + s0.skip(k + 1).len());
                    assert(self@ =~= p + s0.skip(k + 1));
                    assert(removed@ =~= spec_despawned(s0.take(k + 1), delta));
                    k = k + 1;
                }
            } else {
                if self.actors[i].downed.is_some() {
                    let d = match self.actors[i].downed {
                        Some(d) => d,
                        None => Downed { despawn_remaining: 0 },
                    };
                    let a = &mut self.actors[i];
                    a.downed = Some(Downed { despawn_remaining: d.despawn_remaining - delta });
                }
                i = i + 1;
                proof {
                    assert(s0.take(k + 1).drop_last() =~= s0.take(k));
                    assert(s0.take(k + 1).last() == s0[k]);
                    let ghost tk = spec_tick_downed(s0[k], delta);
                    assert(self@[p.len() as int] =~= tk);
                    let ghost p2 = spec_downed_pass(s0.take(k + 1), delta);
                    assert(p2 =~= p.push(tk));
                    assert forall|x: int| 0 <= x < self@.len() implies
                        self@[x] == (p2 + s0.skip(k + 1))[x] by {
                        if x < p.len() {
                            assert(self@[x] == cur[x]);
                            assert(cur[x] == p[x]);
                            assert(p2[x] == p[x]);
                        } else if x == p.len() {
                            assert(self@[x] == tk);
                            assert(p2[x] == tk);
                        } else {
                            assert(self@[x] == cur[x]);
                            assert((p + s0.skip(k)).len() == p.len() + s0.skip(k).len());
                            assert(x < p.len() + s0.skip(k).len());
                            assert(cur[x] == (p + s0.skip(k))[x]);
                            assert((p + s0.skip(k))[x] == s0.skip(k)[x - p.len()]);
                            assert(s0.skip(k)[x - p.len()] == s0[k + x - p.len()]);
                            assert((p2 + s0.skip(k + 1))[x] == s0.skip(k + 1)[x - p2.len()]);
                            assert(s0.skip(k + 1)[x - p2.len()] == s0[k + 1 + x - p2.len()]);
                        }
                    }
                    assert(s0.skip(k + 1).len() == s0.len() - (k + 1));
                    assert(self@.len() == p2.len() + s0.skip(k + 1).len());
                    assert(self@ =~= p2 + s0.skip(k + 1));
                    assert(removed@ =~= spec_despawned(s0.take(k + 1), delta));
                    k = k + 1;
                }
            }
        }
        proof {
            assert(s0.skip(k).len() == 0);
            assert(k == s0.len());
            assert(s0.take(k) =~= s0);
            assert(self@ =~= spec_downed_pass(s0, delta));
            assert(removed@ =~= spec_despawned(s0, delta));
            lemma_downed_pass_ids(s0, delta);
            assert forall|j: int| 0 <= j < self@.len() implies
                (#[trigger] self@[j]).id < self.next_id by {
                assert(has_id(self@, self@[j].id));
                let w = choose|w: int| 0 <= w < s0.len() && s0[w].id == self@[j].id;
            }
            assert forall|j: int| 0 <= j < self@.len() implies
                cooldown_kinds_distinct(#[trigger] self@[j])
                    && downed_untargetable(self@[j]) by {
                lemma_downed_pass_members(s0, delta, j);
            }
            assert forall|j: int| 0 <= j < s0.len() && downed_fires(#[trigger] s0[j], delta)
                implies !has_id(self@, s0[j].id) by {
                assert forall|j2: int| 0 <= j2 < s0.len() && (#[trigger] s0[j2]).id == s0[j].id
                    implies downed_fires(s0[j2], delta) by {
                    if j2 != j {
                        if j2 < j {
                            assert(s0[j2].id != s0[j].id);
                        } else {
                            assert(s0[j].id != s0[j2].id);
                        }
                    }
                }
                lemma_downed_pass_absent(s0, delta, s0[j].id);
            }
        }
        removed
    }

    /// Run the cooldown resolver: every cooldown pool of every actor
    /// counts down by the tick's elapsed time, independently per action
    /// kind, and finished cooldowns are detached.
    pub fn resolve_cooldowns(&mut self, delta: TimeUnits)
        requires
            old(self).wf(),
        ensures
            final(self).wf(),
            final(self)@ == spec_cooldown_pass(old(self)@, delta),
            final(self).next_id == old(self).next_id,
    {
        let ghost s0 = self@;
        let n = self.actors.len();
        for i in 0..n
            invariant
                n == self.actors@.len(),
                self@.len() == s0.len(),
                forall|j: int| i <= j < n ==> self@[j] == (#[trigger] s0[j]),
                forall|j: int| 0 <= j < i ==> self@[j] == spec_cooldown_actor(#[trigger] s0[j], delta),
                self.next_id == old(self).next_id,
        {
            let a = &mut self.actors[i];
            tick_cooldown_vec(&mut a.cooldowns, delta);
            proof {
                assert(self@[i as int] =~= spec_cooldown_actor(s0[i as int], delta));
            }
        }
        proof {
            assert(self@ =~= spec_cooldown_pass(s0, delta));
            assert forall|j: int| 0 <= j < self@.len() implies
                cooldown_kinds_distinct(#[trigger] self@[j]) by {
                assert(cooldown_kinds_distinct(s0[j]));
                lemma_tick_cooldowns_kinds(s0[j].cooldowns, delta);
            }
        }
    }
}

/// Every entry of the pass's result descends from a surviving entry of the
/// source, so per-actor invariants carry over.
pub proof fn lemma_downed_pass_members(s: Seq<ActorModel>, delta: TimeUnits, j: int)
    requires
        0 <= j < spec_downed_pass(s, delta).len(),
        forall|i: int| 0 <= i < s.len() ==> cooldown_kinds_distinct(#[trigger] s[i]),
        forall|i: int| 0 <= i < s.len() ==> downed_untargetable(#[trigger] s[i]),
    ensures
        cooldown_kinds_distinct(spec_downed_pass(s, delta)[j]),
        downed_untargetable(spec_downed_pass(s, delta)[j]),
    decreases s.len(),
{
    let r = spec_downed_pass(s, delta);
    let rd = spec_downed_pass(s.drop_last(), delta);
    if j < rd.len() {
        lemma_downed_pass_members(s.drop_last(), delta, j);
        assert(rd[j] == r[j]);
    } else {
        assert(!downed_fires(s.last(), delta) && r[j] == spec_tick_downed(s.last(), delta));
        assert(cooldown_kinds_distinct(s[s.len() - 1]));
        assert(downed_untargetable(s[s.len() - 1]));
    }
}

} // verus!

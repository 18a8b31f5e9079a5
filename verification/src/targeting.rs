//! The targeting tracker: rotate an actor's selected target through the
//! targetable actors in registry order, and clear a selection. Runs only in
//! response to external input, never on the tick.

use vstd::prelude::*;

use crate::actor::{ActorId, ActorModel};
use crate::registry::{Registry, distinct_ids, has_id, idx_of, entry_of, lemma_entry_unique};

verus! {

/// The identities of the targetable actors, in registry order.
pub open spec fn targetable_ids(s: Seq<ActorModel>) -> Seq<ActorId>
    decreases s.len(),
{
    if s.len() == 0 {
        Seq::empty()
    } else {
        targetable_ids(s.drop_last())
            + if s.last().targetable { seq![s.last().id] } else { Seq::empty() }
    }
}

/// With distinct registry identities the targetable sequence repeats none.
pub proof fn lemma_targetable_ids(s: Seq<ActorModel>)
    requires
        distinct_ids(s),
    ensures
        forall|a: int, b: int| 0 <= a < b < targetable_ids(s).len()
            ==> (#[trigger] targetable_ids(s)[a]) != (#[trigger] targetable_ids(s)[b]),
        forall|id: ActorId| #[trigger] targetable_ids(s).contains(id) ==> has_id(s, id),
    decreases s.len(),
{
    let ts = targetable_ids(s);
    if s.len() == 0 {
        assert forall|id: ActorId| #[trigger] ts.contains(id) implies has_id(s, id) by {
            let w = choose|i: int| 0 <= i < ts.len() && ts[i] == id;
        }
    } else {
        let dl = s.drop_last();
        let td = targetable_ids(dl);
        lemma_targetable_ids(dl);
        assert forall|id: ActorId| #[trigger] td.contains(id) implies has_id(s, id) by {
            let w = choose|i: int| 0 <= i < dl.len() && dl[i].id == id;
            assert(s[w].id == id);
        }
        if s.last().targetable {
            assert(ts =~= td.push(s.last().id));
            assert(!td.contains(s.last().id)) by {
                if td.contains(s.last().id) {
                    let w = choose|i: int| 0 <= i < dl.len() && dl[i].id == s.last().id;
                    assert(s[w].id == s[s.len() - 1].id);
                }
            }
            assert forall|a: int, b: int| 0 <= a < b < ts.len() implies
                (#[trigger] ts[a]) != (#[trigger] ts[b]) by {
                if b == ts.len() - 1 {
                    if ts[a] == s.last().id {
                        assert(td[a] == s.last().id);
                        assert(td.contains(s.last().id));
                    }
                } else {
                    assert(td[a] != td[b]);
                }
            }
            assert forall|id: ActorId| #[trigger] ts.contains(id) implies has_id(s, id) by {
                let w = choose|i: int| 0 <= i < ts.len() && ts[i] == id;
                if w < td.len() {
                    assert(td.contains(id));
                } else {
                    assert(s[s.len() - 1].id == id);
                }
            }
        } else {
            assert(ts =~= td);
        }
    }
}

/// Rotation position of a selected target within the targetable sequence;
/// a stale selection no longer in the sequence counts as standing first.
pub open spec fn rotation_pos(ids: Seq<ActorId>, id: ActorId) -> int {
    if ids.contains(id) {
        ids.index_of(id)
    } else {
        0
    }
}

/// The selection `select_next` leaves behind: with no current target, the
/// first targetable actor (or none at all); with a current target, the next
/// targetable actor in registry order, wrapping past the end — and the
/// selection kept as it is when nothing is targetable.
pub open spec fn spec_next_target(s: Seq<ActorModel>, m: ActorModel) -> Option<ActorId> {
    let ts = targetable_ids(s);
    match m.target {
        None => if ts.len() == 0 {
            None
        } else {
            Some(ts[0])
        },
        Some(t) => if ts.len() == 0 {
            Some(t)
        } else {
            Some(ts[(rotation_pos(ts, t) + 1) % ts.len() as int])
        },
    }
}

impl Registry {
    /// Collect the targetable identities in registry order.
    fn collect_targetable(&self) -> (ts: Vec<ActorId>)
        ensures
            ts@ == targetable_ids(self@),
    {
        let mut ts: Vec<ActorId> = Vec::new();
        let n = self.actors.len();
        for j in 0..n
            invariant
                n == self.actors@.len(),
                ts@ == targetable_ids(self@.take(j as int)),
        {
            if self.actors[j].targetable {
                ts.push(self.actors[j].id);
            }
            proof {
                assert(self@.take(j + 1).drop_last() =~= self@.take(j as int));
                assert(self@.take(j + 1).last() == self@[j as int]);
                assert(ts@ =~= targetable_ids(self@.take(j + 1)));
            }
        }
        proof {
            assert(self@.take(n as int) =~= self@);
        }
        ts
    }

    /// The targeting tracker's rotation, on external input: select the
    /// holder's next target among the targetable actors, in registry order
    /// with wrap-around, and return the new selection. A missing holder, or
    /// a holder with neither a selection nor any targetable actor to pick,
    /// is left untouched. Only the holder's selection is written; vitals,
    /// cooldowns and intents are never involved.
    pub fn select_next(&mut self, holder: ActorId) -> (sel: Option<ActorId>)
        requires
            old(self).wf(),
        ensures
            final(self).wf(),
            final(self).next_id == old(self).next_id,
            !has_id(old(self)@, holder) ==> final(self)@ == old(self)@ && sel is None,
            has_id(old(self)@, holder) ==> {
                &&& sel == spec_next_target(old(self)@, entry_of(old(self)@, holder))
                &&& final(self)@ == old(self)@.update(
                    idx_of(old(self)@, holder),
                    ActorModel { target: sel, ..entry_of(old(self)@, holder) },
                )
            },
    {
        let found = self.find_index(holder);
        match found {
            None => None,
            Some(i) => {
                let ghost s0 = self@;
                let ghost m0 = s0[i as int];
                proof {
                    lemma_entry_unique(s0, i as int);
                    lemma_targetable_ids(s0);
                }
                let ts = self.collect_targetable();
                let sel = match self.actors[i].target {
                    None => {
                        if ts.len() == 0 {
                            None
                        } else {
                            Some(ts[0])
                        }
                    },
                    Some(t) => {
                        if ts.len() == 0 {
                            Some(t)
                        } else {
                            let mut pos: usize = 0;
                            let mut found_pos = false;
                            let tn = ts.len();
                            for x in 0..tn
                                invariant
                                    tn == ts@.len(),
                                    !found_pos ==> pos == 0
                                        && forall|y: int| 0 <= y < x ==> ts@[y] != t,
                                    found_pos ==> pos < tn && ts@[pos as int] == t,
                            {
                                if !found_pos && ts[x] == t {
                                    pos = x;
                                    found_pos = true;
                                }
                            }
                            proof {
                                if found_pos {
                                    assert(ts@.contains(t));
                                    assert(ts@[ts@.index_of(t)] == t);
                                    assert(rotation_pos(ts@, t) == pos as int);
                                } else {
                                    if ts@.contains(t) {
                                        let w = choose|y: int| 0 <= y < ts@.len() && ts@[y] == t;
                                        assert(ts@[w] != t);
                                    }
                                    assert(rotation_pos(ts@, t) == 0);
                                }
                            }
                            Some(ts[(pos + 1) % ts.len()])
                        }
                    },
                };
                let a = &mut self.actors[i];
                a.target = sel;
                proof {
                    assert(self@ =~= s0.update(i as int, ActorModel { target: sel, ..m0 }));
                    assert(self.wf());
                }
                sel
            },
        }
    }

    /// The targeting tracker's clear, on external input: unconditionally
    /// detach the holder's selection; clearing an absent selection, or a
    /// missing holder, is a no-op. Returns whether a selection was
    /// detached.
    pub fn clear_target(&mut self, holder: ActorId) -> (had: bool)
        requires
            old(self).wf(),
        ensures
            final(self).wf(),
            final(self).next_id == old(self).next_id,
            !has_id(old(self)@, holder) ==> final(self)@ == old(self)@ && !had,
            has_id(old(self)@, holder) ==> {
                &&& had == (entry_of(old(self)@, holder).target is Some)
                &&& final(self)@ == old(self)@.update(
                    idx_of(old(self)@, holder),
                    ActorModel { target: None, ..entry_of(old(self)@, holder) },
                )
            },
    {
        let found = self.find_index(holder);
        match found {
            None => false,
            Some(i) => {
                let ghost s0 = self@;
                proof {
                    lemma_entry_unique(s0, i as int);
                }
                let had = self.actors[i].target.is_some();
                let a = &mut self.actors[i];
                a.target = None;
                proof {
                    assert(self@ =~= s0.update(i as int, ActorModel { target: None, ..s0[i as int] }));
                    assert(self.wf());
                }
                had
            },
        }
    }
}

} // verus!

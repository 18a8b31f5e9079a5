//! The actor registry: an ordered collection of live actors with unique
//! identities, plus the spawner and observation interfaces.

use vstd::prelude::*;

use crate::actor::{Actor, ActorId, ActorModel, ActionKind, Vitals, cooldown_kinds_distinct,
    downed_untargetable, has_cooldown};

verus! {

/// No two entries share an identity.
pub open spec fn distinct_ids(s: Seq<ActorModel>) -> bool {
    forall|i: int, j: int| 0 <= i < j < s.len() ==> (#[trigger] s[i]).id != (#[trigger] s[j]).id
}

/// Some entry carries the identity.
pub open spec fn has_id(s: Seq<ActorModel>, id: ActorId) -> bool {
    exists|i: int| 0 <= i < s.len() && (#[trigger] s[i]).id == id
}

/// An index of the entry carrying the identity; under [`distinct_ids`] it is
/// the only one.
pub open spec fn idx_of(s: Seq<ActorModel>, id: ActorId) -> int {
    choose|i: int| 0 <= i < s.len() && (#[trigger] s[i]).id == id
}

/// The entry carrying the identity.
pub open spec fn entry_of(s: Seq<ActorModel>, id: ActorId) -> ActorModel {
    s[idx_of(s, id)]
}

/// Under [`distinct_ids`], a member with the identity is the entry the
/// model functions name.
pub proof fn lemma_entry_unique(s: Seq<ActorModel>, k: int)
    requires
        distinct_ids(s),
        0 <= k < s.len(),
    ensures
        has_id(s, s[k].id),
        idx_of(s, s[k].id) == k,
        entry_of(s, s[k].id) == s[k],
{
    assert(has_id(s, s[k].id));
    let i = idx_of(s, s[k].id);
    assert(0 <= i < s.len() && s[i].id == s[k].id);
    if i != k {
        if i < k {
            assert(s[i].id != s[k].id);
        } else {
            assert(s[k].id != s[i].id);
        }
    }
}

/// Model-level well-formedness: identities are unique, each actor holds at
/// most one cooldown per action kind, and no downed actor is targetable.
pub open spec fn models_wf(s: Seq<ActorModel>) -> bool {
    &&& distinct_ids(s)
    &&& forall|i: int| 0 <= i < s.len() ==> cooldown_kinds_distinct(#[trigger] s[i])
    &&& forall|i: int| 0 <= i < s.len() ==> downed_untargetable(#[trigger] s[i])
}

/// The ordered registry of live actors. Registry order (the order of
/// `actors`) is the iteration order of every resolver and of target
/// rotation.
pub struct Registry {
    pub actors: Vec<Actor>,
    pub next_id: ActorId,
}

impl View for Registry {
    type V = Seq<ActorModel>;

    open spec fn view(&self) -> Seq<ActorModel> {
        self.actors@.map_values(|a: Actor| a@)
    }
}

impl Registry {
    /// Well-formedness: the models are well formed and every identity
    /// already handed out stays below `next_id`, so a spawned identity is
    /// always fresh.
    pub open spec fn wf(self) -> bool {
        &&& models_wf(self@)
        &&& forall|i: int| 0 <= i < self@.len() ==> (#[trigger] self@[i]).id < self.next_id
    }

    /// An empty registry.
    pub fn new() -> (r: Registry)
        ensures
            r.wf(),
            r@ == Seq::<ActorModel>::empty(),
            r.next_id == 0,
    {
        let r = Registry { actors: Vec::new(), next_id: 0 };
        proof {
            assert(r@ =~= Seq::<ActorModel>::empty());
        }
        r
    }

    /// The spawner interface: create an actor with initial vitals and an
    /// optional targetable flag, and no transient attachments. The new
    /// identity is fresh: it was not in the registry before the call.
    pub fn spawn(&mut self, name: String, vitals: Vitals, targetable: bool) -> (id: ActorId)
        requires
            old(self).wf(),
            old(self).next_id < ActorId::MAX,
        ensures
            final(self).wf(),
            id == old(self).next_id,
            final(self).next_id == old(self).next_id + 1,
            !has_id(old(self)@, id),
            final(self)@ == old(self)@.push(ActorModel {
                id,
                name: name@,
                vitals,
                targetable,
                target: None,
                attack: None,
                cooldowns: Seq::empty(),
                downed: None,
            }),
    {
        let id = self.next_id;
        let actor = Actor {
            id,
            name,
            vitals,
            targetable,
            target: None,
            attack: None,
            cooldowns: Vec::new(),
            downed: None,
        };
        let ghost m = actor@;
        proof {
            assert forall|i: int| 0 <= i < self@.len() implies (#[trigger] self@[i]).id != id by {
                assert(self@[i].id < self.next_id);
            }
        }
        self.actors.push(actor);
        self.next_id = id + 1;
        proof {
            assert(self@ =~= old(self)@.push(m));
            assert forall|i: int, j: int| 0 <= i < j < self@.len() implies
                (#[trigger] self@[i]).id != (#[trigger] self@[j]).id by {
                if j == self@.len() - 1 {
                    assert(self@[i].id == old(self)@[i].id);
                    assert(old(self)@[i].id < id);
                } else {
                    assert(old(self)@[i].id != old(self)@[j].id);
                }
            }
        }
        id
    }

    /// Position of the actor with the given identity, if it is present.
    pub fn find_index(&self, id: ActorId) -> (r: Option<usize>)
        requires
            self.wf(),
        ensures
            match r {
                Some(i) => has_id(self@, id) && i == idx_of(self@, id) && i < self@.len()
                    && self@[i as int].id == id,
                None => !has_id(self@, id),
            },
    {
        let n = self.actors.len();
        for i in 0..n
            invariant
                self.wf(),
                n == self.actors@.len(),
                forall|j: int| 0 <= j < i ==> (#[trigger] self@[j]).id != id,
        {
            if self.actors[i].id == id {
                proof {
                    lemma_entry_unique(self@, i as int);
                }
                return Some(i);
            }
            proof {
                assert(self@[i as int] == self.actors@[i as int]@);
            }
        }
        None
    }

    /// Observation interface: whether an actor with this identity is live.
    pub fn contains_actor(&self, id: ActorId) -> (b: bool)
        requires
            self.wf(),
        ensures
            b == has_id(self@, id),
    {
        self.find_index(id).is_some()
    }

    /// Observation interface: a live actor's vitals.
    pub fn vitals_of(&self, id: ActorId) -> (v: Option<Vitals>)
        requires
            self.wf(),
        ensures
            v == if has_id(self@, id) {
                Some(entry_of(self@, id).vitals)
            } else {
                None::<Vitals>
            },
    {
        match self.find_index(id) {
            Some(i) => Some(self.actors[i].vitals),
            None => None,
        }
    }

    /// Observation interface: a live actor's health alone.
    pub fn health_of(&self, id: ActorId) -> (h: Option<usize>)
        requires
            self.wf(),
        ensures
            h == if has_id(self@, id) {
                Some(entry_of(self@, id).vitals.health)
            } else {
                None::<usize>
            },
    {
        match self.find_index(id) {
            Some(i) => Some(self.actors[i].vitals.health),
            None => None,
        }
    }

    /// Observation interface: whether the actor is live and targetable.
    pub fn is_targetable(&self, id: ActorId) -> (b: bool)
        requires
            self.wf(),
        ensures
            b == (has_id(self@, id) && entry_of(self@, id).targetable),
    {
        match self.find_index(id) {
            Some(i) => self.actors[i].targetable,
            None => false,
        }
    }

    /// Observation interface: whether the actor is live and downed.
    pub fn is_downed(&self, id: ActorId) -> (b: bool)
        requires
            self.wf(),
        ensures
            b == (has_id(self@, id) && entry_of(self@, id).downed is Some),
    {
        match self.find_index(id) {
            Some(i) => self.actors[i].downed.is_some(),
            None => false,
        }
    }

    /// Observation interface: the actor's currently selected target, if it
    /// is live and has one.
    pub fn target_of(&self, id: ActorId) -> (t: Option<ActorId>)
        requires
            self.wf(),
        ensures
            t == if has_id(self@, id) {
                entry_of(self@, id).target
            } else {
                None::<ActorId>
            },
    {
        match self.find_index(id) {
            Some(i) => self.actors[i].target,
            None => None,
        }
    }

    /// Observation interface: whether the actor is live with an attack
    /// intent still pending.
    pub fn has_pending_attack(&self, id: ActorId) -> (b: bool)
        requires
            self.wf(),
        ensures
            b == (has_id(self@, id) && entry_of(self@, id).attack is Some),
    {
        match self.find_index(id) {
            Some(i) => self.actors[i].attack.is_some(),
            None => false,
        }
    }

    /// Observation interface: whether the actor is live and on cooldown
    /// for the given action kind.
    pub fn on_cooldown_for(&self, id: ActorId, kind: ActionKind) -> (b: bool)
        requires
            self.wf(),
        ensures
            b == (has_id(self@, id) && has_cooldown(entry_of(self@, id), kind)),
    {
        match self.find_index(id) {
            Some(i) => self.actors[i].on_cooldown(kind),
            None => false,
        }
    }

    /// How many actors are live.
    pub fn len(&self) -> (n: usize)
        ensures
            n == self@.len(),
    {
        self.actors.len()
    }
}

} // verus!

//! Per-actor data: vitals, transient combat attachments, and the
//! mathematical model (`ActorModel`) that every contract speaks of.

use vstd::prelude::*;

verus! {

/// Stable identity of an actor for its lifetime in the registry.
pub type ActorId = u64;

/// Non-negative health total; damage is expressed in the same points.
pub type HealthPoints = usize;

/// Non-negative mana total.
pub type ManaPoints = usize;

/// Non-negative tactical-resource total.
pub type TacticalPoints = usize;

/// Discrete simulation time. Every countdown and every tick delta is a
/// whole number of these units.
pub type TimeUnits = u64;

/// Despawn delay attached to a freshly downed actor, in time units.
pub const DESPAWN_DELAY: TimeUnits = 5;

/// The action pools that cooldowns are keyed by. A cooldown for one kind
/// never gates or interferes with another kind: the tag only tells pools
/// apart and carries no data.
#[derive(Clone, Copy, PartialEq, Eq, Structural, Debug)]
pub enum ActionKind {
    Attack,
    Ability,
}

/// Per-actor resource values. Pure data: all mutation goes through the
/// resolvers.
#[derive(Clone, Copy, PartialEq, Eq, Structural, Debug)]
pub struct Vitals {
    pub health: HealthPoints,
    pub mana: ManaPoints,
    pub tactical: TacticalPoints,
}

impl Vitals {
    pub fn new(health: HealthPoints, mana: ManaPoints, tactical: TacticalPoints) -> (v: Vitals)
        ensures
            v == (Vitals { health, mana, tactical }),
    {
        Vitals { health, mana, tactical }
    }
}

/// A transient attack intent: removed by the attack resolver once it is
/// converted into a damage event.
#[derive(Clone, Copy, PartialEq, Eq, Structural, Debug)]
pub struct Attack {
    pub target: ActorId,
    pub damage: HealthPoints,
    pub cooldown: TimeUnits,
}

impl Attack {
    pub fn new(target: ActorId, damage: HealthPoints, cooldown: TimeUnits) -> (a: Attack)
        ensures
            a == (Attack { target, damage, cooldown }),
    {
        Attack { target, damage, cooldown }
    }
}

/// One active countdown in an actor's cooldown set; its presence blocks new
/// resolutions of actions of the same kind.
#[derive(Clone, Copy, PartialEq, Eq, Structural, Debug)]
pub struct Cooldown {
    pub kind: ActionKind,
    pub remaining: TimeUnits,
}

impl Cooldown {
    pub fn new(kind: ActionKind, duration: TimeUnits) -> (c: Cooldown)
        ensures
            c == (Cooldown { kind, remaining: duration }),
    {
        Cooldown { kind, remaining: duration }
    }
}

/// Incapacitation marker with the countdown to removal from the registry.
#[derive(Clone, Copy, PartialEq, Eq, Structural, Debug)]
pub struct Downed {
    pub despawn_remaining: TimeUnits,
}

/// An immutable fire-and-forget damage message, consumed exactly once, in
/// FIFO order, by the damage resolver within the tick that emitted it.
#[derive(Clone, Copy, PartialEq, Eq, Structural, Debug)]
pub struct DamageEvent {
    pub source: ActorId,
    pub target: ActorId,
    pub amount: HealthPoints,
}

impl DamageEvent {
    pub fn new(source: ActorId, target: ActorId, amount: HealthPoints) -> (e: DamageEvent)
        ensures
            e == (DamageEvent { source, target, amount }),
    {
        DamageEvent { source, target, amount }
    }
}

/// One registry entry. State is encoded by which attachments are present:
/// `target`, `attack`, an entry in `cooldowns`, and `downed` are all
/// optional, and their presence or absence is the state machine.
pub struct Actor {
    pub id: ActorId,
    pub name: String,
    pub vitals: Vitals,
    pub targetable: bool,
    pub target: Option<ActorId>,
    pub attack: Option<Attack>,
    pub cooldowns: Vec<Cooldown>,
    pub downed: Option<Downed>,
}

/// Mathematical model of one actor; the registry's view is a sequence of
/// these, in registry order.
#[verifier::ext_equal]
pub ghost struct ActorModel {
    pub id: ActorId,
    pub name: Seq<char>,
    pub vitals: Vitals,
    pub targetable: bool,
    pub target: Option<ActorId>,
    pub attack: Option<Attack>,
    pub cooldowns: Seq<Cooldown>,
    pub downed: Option<Downed>,
}

impl View for Actor {
    type V = ActorModel;

    open spec fn view(&self) -> ActorModel {
        ActorModel {
            id: self.id,
            name: self.name@,
            vitals: self.vitals,
            targetable: self.targetable,
            target: self.target,
            attack: self.attack,
            cooldowns: self.cooldowns@,
            downed: self.downed,
        }
    }
}

/// Whether the actor holds an active cooldown of the given kind.
pub open spec fn has_cooldown(m: ActorModel, kind: ActionKind) -> bool {
    exists|i: int| 0 <= i < m.cooldowns.len() && m.cooldowns[i].kind == kind
}

/// At most one cooldown per action kind.
pub open spec fn cooldown_kinds_distinct(m: ActorModel) -> bool {
    forall|i: int, j: int|
        0 <= i < j < m.cooldowns.len() ==> (#[trigger] m.cooldowns[i]).kind != (#[trigger] m.cooldowns[j]).kind
}

/// Downed and targetable are mutually exclusive: an incapacitated actor is
/// no longer a valid target.
pub open spec fn downed_untargetable(m: ActorModel) -> bool {
    m.downed is Some ==> !m.targetable
}

/// An attack intent resolves this tick exactly when it is attached and no
/// attack cooldown blocks it.
pub open spec fn attack_ready(m: ActorModel) -> bool {
    m.attack is Some && !has_cooldown(m, ActionKind::Attack)
}

impl Actor {
    /// Runtime check matching [`has_cooldown`].
    pub fn on_cooldown(&self, kind: ActionKind) -> (b: bool)
        ensures
            b == has_cooldown(self@, kind),
    {
        let n = self.cooldowns.len();
        for i in 0..n
            invariant
                n == self.cooldowns.len(),
                forall|j: int| 0 <= j < i ==> self.cooldowns@[j].kind != kind,
        {
            if self.cooldowns[i].kind == kind {
                return true;
            }
        }
        false
    }
}

} // verus!

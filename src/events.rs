use std::collections::HashMap;
use vstd::prelude::*;

verus! {

broadcast use vstd::std_specs::hash::group_hash_axioms;

/// Identifies an entity of the game.
#[derive(Clone, Copy, Debug, PartialEq, Eq, Hash, Structural)]
pub struct EntityId(pub u32);

impl View for EntityId {
    type V = u32;

    open spec fn view(&self) -> u32 {
        self.0
    }
}

#[derive(Clone, Copy, Debug, PartialEq, Eq, Structural)]
pub enum GameEvent {
    Damage { target: EntityId, amount: u32 },
    Heal { target: EntityId, amount: u32 },
    Spawn(EntityId),
}

impl GameEvent {
    /// The entity that the event concerns.
    pub open spec fn subject(&self) -> EntityId {
        match *self {
            GameEvent::Damage { target, .. } => target,
            GameEvent::Heal { target, .. } => target,
            GameEvent::Spawn(id) => id,
        }
    }

    pub fn target(&self) -> (r: EntityId)
        ensures
            r == self.subject(),
    {
        match *self {
            GameEvent::Damage { target, .. } => target,
            GameEvent::Heal { target, .. } => target,
            GameEvent::Spawn(id) => id,
        }
    }
}

/// The damage that `ev` deals to entity `id`.
pub open spec fn damage_dealt(ev: GameEvent, id: u32) -> nat {
    match ev {
        GameEvent::Damage { target, amount } => if target.0 == id {
            amount as nat
        } else {
            0
        },
        _ => 0,
    }
}

/// Whether some event of `events` is damage to entity `id`.
pub open spec fn is_damaged(events: Seq<GameEvent>, id: u32) -> bool {
    exists|i: int|
        0 <= i < events.len() && (#[trigger] events[i]) is Damage && events[i].subject().0 == id
}

/// The total damage that `events` deal to entity `id`.
pub open spec fn damage_sum(events: Seq<GameEvent>, id: u32) -> nat
    decreases events.len(),
{
    if events.len() == 0 {
        0
    } else {
        damage_sum(events.drop_last(), id) + damage_dealt(events.last(), id)
    }
}

/// The total held for `id`: the sum, capped at the largest `u32`.
pub open spec fn capped_total(events: Seq<GameEvent>, id: u32) -> u32 {
    if damage_sum(events, id) > u32::MAX {
        u32::MAX
    } else {
        damage_sum(events, id) as u32
    }
}

/// Damage totals per entity.
pub struct DamageTotals {
    totals: HashMap<u32, u32>,
}

impl DamageTotals {
    pub closed spec fn totals(&self) -> Map<u32, u32> {
        self.totals@
    }

    /// The total for `id`, if any damage to it was seen.
    pub fn get(&self, id: &EntityId) -> (r: Option<&u32>)
        ensures
            r is Some <==> self.totals().contains_key(id.0),
            r matches Some(t) ==> *t == self.totals()[id.0],
    {
        self.totals.get(&id.0)
    }

    pub fn len(&self) -> (r: usize)
        ensures
            r == self.totals().len(),
    {
        self.totals.len()
    }
}

/// Sums the damage dealt to each entity; sums that would not fit in a `u32`
/// are capped at `u32::MAX`.
pub fn damage_totals(events: &[GameEvent]) -> (r: DamageTotals)
    ensures
        forall|id: u32| #[trigger]
            r.totals().contains_key(id) <==> is_damaged(events@, id),
        forall|id: u32|
            #[trigger] r.totals().contains_key(id) ==> r.totals()[id] == capped_total(events@, id),
{
    let mut totals: HashMap<u32, u32> = HashMap::new();
    let mut i: usize = 0;
    while i < events.len()
        invariant
            i <= events@.len(),
            forall|id: u32| #[trigger]
                totals@.contains_key(id) <==> is_damaged(events@.take(i as int), id),
            forall|id: u32|
                #[trigger] totals@.contains_key(id) ==> totals@[id] == capped_total(
                    events@.take(i as int),
                    id,
                ),
        decreases events@.len() - i,
    {
        let ghost pre = events@.take(i as int);
        let ghost post = events@.take(i + 1);
        proof {
            assert(post.drop_last() =~= pre);
            assert(post.last() == events@[i as int]);
            assert forall|id: u32|
                #![trigger is_damaged(post, id)]
                is_damaged(post, id) <==> (is_damaged(pre, id) || (events@[i as int] is Damage
                    && events@[i as int].subject().0 == id)) by {
                if is_damaged(post, id) {
                    let j = choose|j: int|
                        0 <= j < post.len() && (#[trigger] post[j]) is Damage && post[j].subject().0
                            == id;
                    if j < i {
                        assert(pre[j] == post[j]);
                    }
                }
                if is_damaged(pre, id) {
                    let j = choose|j: int|
                        0 <= j < pre.len() && (#[trigger] pre[j]) is Damage && pre[j].subject().0
                            == id;
                    assert(pre[j] == post[j]);
                }
                if events@[i as int] is Damage && events@[i as int].subject().0 == id {
                    assert(post[i as int] == events@[i as int]);
                }
            }
        }
        match events[i] {
            GameEvent::Damage { target, amount } => {
                let id = target.0;
                let sum = match totals.get(&id) {
                    Some(t) => t.saturating_add(amount),
                    None => amount,
                };
                proof {
                    if !totals@.contains_key(id) {
                        assert(!is_damaged(pre, id));
                        assert forall|j: int| 0 <= j <= pre.len() implies damage_sum(
                            #[trigger] pre.take(j),
                            id,
                        ) == 0 by {
                            lemma_no_damage_prefix(pre, id, j);
                        }
                        assert(pre.take(pre.len() as int) =~= pre);
                    }
                }
                totals.insert(id, sum);
            },
            _ => {
                proof {
                    assert forall|id: u32| damage_sum(post, id) == damage_sum(pre, id) by {}
                }
            },
        }
        i += 1;
    }
    proof {
        assert(events@.take(events@.len() as int) =~= events@);
    }
    DamageTotals { totals }
}

/// Without damage to `id` in `events`, no prefix of it deals `id` damage.
proof fn lemma_no_damage_prefix(events: Seq<GameEvent>, id: u32, j: int)
    requires
        !is_damaged(events, id),
        0 <= j <= events.len(),
    ensures
        damage_sum(events.take(j), id) == 0,
    decreases j,
{
    if j > 0 {
        let p = events.take(j);
        assert(p.drop_last() =~= events.take(j - 1));
        assert(p.last() == events[j - 1]);
        lemma_no_damage_prefix(events, id, j - 1);
    }
}

} // verus!

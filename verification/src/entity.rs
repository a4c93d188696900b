//! Combatants and their named resource gauges.

use vstd::prelude::*;

use crate::abilities::AbilityName;
use crate::charclasses::CharClass;
use crate::coords::{in_bounds, Coords};

verus! {

/// Upper bound on the abstract game clock the engine works under; keeps
/// every clock computation inside `i64`.
pub const TIME_LIMIT: i64 = 0x100_0000_0000;

/// Bound on resource gauge values (`current` and `max`).
pub const RES_LIMIT: i64 = 0x4000_0000;

/// Bound on per-turn resource regeneration rates.
pub const REGEN_LIMIT: i64 = 0x10_0000;

/// A named numeric gauge: current value, maximum, and per-tick regeneration.
#[derive(Debug, Clone, Copy, PartialEq, Eq, Structural)]
pub struct Resource {
    pub max: i64,
    pub current: i64,
    pub per_turn: i64,
}

/// One entry of an entity's action log: when it acted, where, and with what.
#[derive(Debug, Clone, Copy, PartialEq, Eq, Structural)]
pub struct ActionLog {
    pub turn_time: i64,
    pub target: Coords,
    pub action_name: AbilityName,
}

/// A combatant: owned by a user, placed on a tile, carrying named resource
/// gauges (always including `hp`), scheduled on the game clock, and keeping
/// a permanent log of its actions.
#[derive(Debug, PartialEq, Eq)]
pub struct Entity {
    pub user_id: String,
    pub id: u64,
    pub coords: Coords,
    pub resources: Vec<(String, Resource)>,
    pub scenario_player_index: i64,
    pub last_move_time: i64,
    pub next_move_time: i64,
    pub game_class: CharClass,
    pub log: Vec<ActionLog>,
}

/// The mathematical model of a combatant: every field as a plain value.
pub ghost struct EntityV {
    pub user_id: Seq<char>,
    pub id: u64,
    pub coords: Coords,
    pub resources: Seq<(Seq<char>, Resource)>,
    pub scenario_player_index: int,
    pub last_move_time: int,
    pub next_move_time: int,
    pub game_class: CharClass,
    pub log: Seq<ActionLog>,
}

impl View for Entity {
    type V = EntityV;

    open spec fn view(&self) -> EntityV {
        EntityV {
            user_id: self.user_id@,
            id: self.id,
            coords: self.coords,
            resources: self.resources@.map_values(|p: (String, Resource)| (p.0@, p.1)),
            scenario_player_index: self.scenario_player_index as int,
            last_move_time: self.last_move_time as int,
            next_move_time: self.next_move_time as int,
            game_class: self.game_class,
            log: self.log@,
        }
    }
}

/// A gauge within the engine's numeric bounds, never above its maximum.
pub open spec fn wf_resource(r: Resource) -> bool {
    -RES_LIMIT <= r.current <= r.max <= RES_LIMIT && 0 <= r.per_turn <= REGEN_LIMIT
}

/// Resource entries carry pairwise distinct names.
pub open spec fn unique_resource_names(s: Seq<(Seq<char>, Resource)>) -> bool {
    forall|i: int, j: int| 0 <= i < j < s.len() ==> (#[trigger] s[i]).0 != (#[trigger] s[j]).0
}

/// The entity has a gauge named `name`.
pub open spec fn has_resource(e: EntityV, name: Seq<char>) -> bool {
    exists|i: int| 0 <= i < e.resources.len() && (#[trigger] e.resources[i]).0 == name
}

/// The position of the gauge named `name` within `e`'s resource list.
pub open spec fn resource_index(e: EntityV, name: Seq<char>) -> int {
    choose|i: int| 0 <= i < e.resources.len() && (#[trigger] e.resources[i]).0 == name
}

/// The current value of the gauge named `name` (zero if absent).
pub open spec fn resource_value(e: EntityV, name: Seq<char>) -> int {
    if has_resource(e, name) {
        e.resources[resource_index(e, name)].1.current as int
    } else {
        0
    }
}

/// Well-formedness of a combatant: position on the board, ordered clock
/// values, bounded uniquely-named gauges, and an `hp` gauge present.
pub open spec fn wf_entity(e: EntityV) -> bool {
    &&& in_bounds(e.coords)
    &&& 0 <= e.last_move_time <= e.next_move_time
    &&& unique_resource_names(e.resources)
    &&& forall|i: int| 0 <= i < e.resources.len() ==> wf_resource((#[trigger] e.resources[i]).1)
    &&& has_resource(e, "hp"@)
}

/// Element-wise copy of a resource list.
pub fn clone_resources(v: &Vec<(String, Resource)>) -> (r: Vec<(String, Resource)>)
    ensures
        r@ == v@,
{
    let mut r: Vec<(String, Resource)> = Vec::new();
    let n = v.len();
    let mut i: usize = 0;
    while i < n
        invariant
            n == v@.len(),
            0 <= i <= n,
            r@.len() == i,
            forall|j: int| 0 <= j < i ==> r@[j] == v@[j],
        decreases n - i,
    {
        r.push((v[i].0.clone(), v[i].1));
        i = i + 1;
    }
    proof {
        assert(r@ =~= v@);
    }
    r
}

/// Element-wise copy of an action log.
pub fn clone_log(v: &Vec<ActionLog>) -> (r: Vec<ActionLog>)
    ensures
        r@ == v@,
{
    let mut r: Vec<ActionLog> = Vec::new();
    let n = v.len();
    let mut i: usize = 0;
    while i < n
        invariant
            n == v@.len(),
            0 <= i <= n,
            r@.len() == i,
            forall|j: int| 0 <= j < i ==> r@[j] == v@[j],
        decreases n - i,
    {
        r.push(v[i]);
        i = i + 1;
    }
    proof {
        assert(r@ =~= v@);
    }
    r
}

/// The resource list with `amount` taken off the gauge named `name` (and
/// every other entry unchanged; no entry at all if the name is absent).
pub open spec fn deduct_named(
    rs: Seq<(Seq<char>, Resource)>,
    name: Seq<char>,
    amount: int,
) -> Seq<(Seq<char>, Resource)> {
    rs.map_values(
        |p: (Seq<char>, Resource)|
            if p.0 == name {
                (p.0, Resource { current: (p.1.current - amount) as i64, ..p.1 })
            } else {
                p
            },
    )
}

/// Take `amount` off the gauge named `name`, in place.
pub fn deduct_resource(rs: &mut Vec<(String, Resource)>, name: &str, amount: i64)
    requires
        0 <= amount <= RES_LIMIT,
        forall|i: int|
            0 <= i < old(rs)@.len() ==> -2 * RES_LIMIT <= (#[trigger] old(rs)@[i]).1.current <= 2
                * RES_LIMIT,
    ensures
        final(rs)@.map_values(|p: (String, Resource)| (p.0@, p.1)) == deduct_named(
            old(rs)@.map_values(|p: (String, Resource)| (p.0@, p.1)),
            name@,
            amount as int,
        ),
{
    let n = rs.len();
    let mut i: usize = 0;
    while i < n
        invariant
            n == rs@.len(),
            0 <= i <= n,
            0 <= amount <= RES_LIMIT,
            forall|j: int|
                0 <= j < n ==> -2 * RES_LIMIT <= (#[trigger] old(rs)@[j]).1.current <= 2
                    * RES_LIMIT,
            forall|j: int| i <= j < n ==> rs@[j] == old(rs)@[j],
            forall|j: int|
                0 <= j < i ==> #[trigger] rs@[j] == (if old(rs)@[j].0@ == name@ {
                    (old(rs)@[j].0, Resource {
                        current: (old(rs)@[j].1.current - amount) as i64,
                        ..old(rs)@[j].1
                    })
                } else {
                    old(rs)@[j]
                }),
        decreases n - i,
    {
        if crate::charclasses::str_eq(rs[i].0.as_str(), name) {
            let cur = rs[i].1;
            let entry_name = rs[i].0.clone();
            rs.set(i, (entry_name, Resource { current: cur.current - amount, ..cur }));
        }
        i = i + 1;
    }
    proof {
        assert(rs@.map_values(|p: (String, Resource)| (p.0@, p.1)) =~= deduct_named(
            old(rs)@.map_values(|p: (String, Resource)| (p.0@, p.1)),
            name@,
            amount as int,
        ));
    }
}

impl Clone for Entity {
    /// A field-for-field copy of the combatant.
    fn clone(&self) -> (r: Self)
        ensures
            r@ == self@,
    {
        Entity {
            user_id: self.user_id.clone(),
            id: self.id,
            coords: self.coords,
            resources: clone_resources(&self.resources),
            scenario_player_index: self.scenario_player_index,
            last_move_time: self.last_move_time,
            next_move_time: self.next_move_time,
            game_class: self.game_class,
            log: clone_log(&self.log),
        }
    }
}

impl Entity {
    /// The position of the gauge named `name`, if the entity has one.
    pub fn find_resource(&self, name: &str) -> (r: Option<usize>)
        ensures
            match r {
                Some(i) => i < self@.resources.len() && self@.resources[i as int].0 == name@,
                None => !has_resource(self@, name@),
            },
    {
        let n = self.resources.len();
        let mut i: usize = 0;
        while i < n
            invariant
                n == self.resources@.len(),
                0 <= i <= n,
                forall|j: int| 0 <= j < i ==> (#[trigger] self@.resources[j]).0 != name@,
            decreases n - i,
        {
            if crate::charclasses::str_eq(self.resources[i].0.as_str(), name) {
                return Some(i);
            }
            i = i + 1;
        }
        None
    }
}

} // verus!

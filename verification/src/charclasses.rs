//! Character classes and their fixed combat statistics.

use vstd::prelude::*;

use crate::abilities::AbilityName;
use crate::entity::Resource;

verus! {

/// The character class of a combatant; fixes attack range, attack damage and
/// the available resources and abilities.
#[derive(Debug, PartialEq, Eq, Hash, Clone, Copy, Structural)]
pub enum CharClass {
    Warrior,
    Archer,
    Mage,
}

/// Attack range of a class, in whole tiles.
pub open spec fn attack_range(c: CharClass) -> int {
    match c {
        CharClass::Warrior => 1,
        CharClass::Archer => 4,
        CharClass::Mage => 3,
    }
}

/// Attack damage of a class.
pub open spec fn attack_damage(c: CharClass) -> int {
    match c {
        CharClass::Warrior => 140,
        CharClass::Archer => 120,
        CharClass::Mage => 100,
    }
}

/// The hit-point gauge every combatant starts with.
pub open spec fn initial_hp() -> Resource {
    Resource { max: 1000, current: 1000, per_turn: 1 }
}

/// The gauge backing the Warrior's shield bash.
pub open spec fn initial_shield_bash() -> Resource {
    Resource { max: 60, current: 60, per_turn: 1 }
}

/// The resource gauges a class starts with, in catalog order.
pub open spec fn resource_list_spec(c: CharClass) -> Seq<(Seq<char>, Resource)> {
    if c == CharClass::Warrior {
        seq![("hp"@, initial_hp()), ("ShieldBash"@, initial_shield_bash())]
    } else {
        seq![("hp"@, initial_hp())]
    }
}

/// The abilities available to a class, in catalog order.
pub open spec fn ability_list_spec(c: CharClass) -> Seq<AbilityName> {
    if c == CharClass::Warrior {
        seq![AbilityName::Move, AbilityName::Attack, AbilityName::Wait, AbilityName::ShieldBash]
    } else {
        seq![AbilityName::Move, AbilityName::Attack, AbilityName::Wait]
    }
}

impl CharClass {
    /// Attack range of this class, in whole tiles (Warrior 1, Archer 4,
    /// Mage 3).
    pub fn get_attack_range(&self) -> (r: i64)
        ensures
            r == attack_range(*self),
    {
        match self {
            CharClass::Warrior => 1,
            CharClass::Archer => 4,
            CharClass::Mage => 3,
        }
    }

    /// Attack damage of this class (Warrior 140, Archer 120, Mage 100).
    pub fn get_attack_damage(&self) -> (r: i64)
        ensures
            r == attack_damage(*self),
    {
        match self {
            CharClass::Warrior => 140,
            CharClass::Archer => 120,
            CharClass::Mage => 100,
        }
    }

    /// Base cast delay of an attack, in clock ticks.
    pub fn get_attack_time(&self) -> (r: i64)
        ensures
            r == 20,
    {
        20
    }

    /// The named resource gauges a freshly deployed entity of this class
    /// starts with: always `hp`, plus `ShieldBash` for the Warrior.
    pub fn get_resource_list(&self) -> (r: Vec<(String, Resource)>)
        ensures
            r@.map_values(|p: (String, Resource)| (p.0@, p.1)) == resource_list_spec(*self),
            r@.len() == resource_list_spec(*self).len(),
    {
        let mut resources: Vec<(String, Resource)> = Vec::new();
        resources.push(("hp".to_owned(), Resource { max: 1000, current: 1000, per_turn: 1 }));
        match self {
            CharClass::Warrior => {
                resources.push(
                    ("ShieldBash".to_owned(), Resource { max: 60, current: 60, per_turn: 1 }),
                );
            },
            _ => {},
        }
        proof {
            assert(resources@.map_values(|p: (String, Resource)| (p.0@, p.1))
                =~= resource_list_spec(*self));
        }
        resources
    }

    /// The abilities this class may use: everyone moves, attacks and waits;
    /// the Warrior additionally has the shield bash.
    pub fn get_ability_list(&self) -> (r: Vec<AbilityName>)
        ensures
            r@ == ability_list_spec(*self),
    {
        let mut abilities: Vec<AbilityName> = vec![
            AbilityName::Move,
            AbilityName::Attack,
            AbilityName::Wait,
        ];
        match self {
            CharClass::Warrior => {
                abilities.push(AbilityName::ShieldBash);
            },
            _ => {},
        }
        proof {
            assert(abilities@ =~= ability_list_spec(*self));
        }
        abilities
    }
}

/// Exact string comparison; `&str` equality routed through `String`.
pub fn str_eq(a: &str, b: &str) -> (r: bool)
    ensures
        r == (a@ == b@),
{
    a.to_owned() == b.to_owned()
}

impl core::str::FromStr for CharClass {
    type Err = String;

    /// Parse the wire name of a class; only Warrior and Archer may be
    /// chosen at deployment.
    fn from_str(s: &str) -> Result<Self, String> {
        if str_eq(s, "Warrior") {
            Ok(CharClass::Warrior)
        } else if str_eq(s, "Archer") {
            Ok(CharClass::Archer)
        } else {
            Err("No matching class".to_owned())
        }
    }
}

} // verus!

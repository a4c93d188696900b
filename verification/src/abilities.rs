//! The ability catalog: per-ability targeting rules, ranges, resource costs
//! and cast-delay formulas.

use vstd::prelude::*;

use crate::charclasses::{attack_range, str_eq, CharClass};
use crate::coords::{dist_sq4, in_calc_bounds, isqrt, lemma_dist_sq4_nonneg,
    lemma_square_monotonic, lemma_square_monotonic_abs, lemma_sqrt_floor_bounds, sqrt_floor,
    Coords};
use crate::entity::{ActionLog, Entity};

verus! {

/// The four abilities of the rule set.
#[derive(Debug, Clone, Copy, PartialEq, Eq, Hash, Structural)]
pub enum AbilityName {
    ShieldBash,
    Move,
    Attack,
    Wait,
}

/// What an ability may be aimed at.
#[derive(Debug, Clone, Copy, PartialEq, Eq, Structural)]
pub enum TargetType {
    Walkable,
    Ennemy,
    Ally,
    Selfcast,
}

impl AbilityName {
    /// The wire name of this ability.
    pub fn to_string(&self) -> (r: String)
        ensures
            match self {
                AbilityName::ShieldBash => r@ == "ShieldBash"@,
                AbilityName::Move => r@ == "Move"@,
                AbilityName::Attack => r@ == "Attack"@,
                AbilityName::Wait => r@ == "Wait"@,
            },
    {
        match self {
            AbilityName::ShieldBash => "ShieldBash".to_owned(),
            AbilityName::Move => "Move".to_owned(),
            AbilityName::Attack => "Attack".to_owned(),
            AbilityName::Wait => "Wait".to_owned(),
        }
    }
}

impl core::str::FromStr for AbilityName {
    type Err = ();

    /// Parse the wire name of an ability; unknown names are a decode error.
    fn from_str(s: &str) -> Result<Self, ()> {
        if str_eq(s, "Move") {
            Ok(AbilityName::Move)
        } else if str_eq(s, "Wait") {
            Ok(AbilityName::Wait)
        } else if str_eq(s, "ShieldBash") {
            Ok(AbilityName::ShieldBash)
        } else if str_eq(s, "Attack") {
            Ok(AbilityName::Attack)
        } else {
            Err(())
        }
    }
}

/// What kind of target each ability requires.
pub open spec fn target_type_spec(name: AbilityName) -> TargetType {
    match name {
        AbilityName::ShieldBash => TargetType::Ennemy,
        AbilityName::Attack => TargetType::Ennemy,
        AbilityName::Move => TargetType::Walkable,
        AbilityName::Wait => TargetType::Selfcast,
    }
}

/// Maximum range of an ability for a caster of the given class, in whole
/// tiles.
pub open spec fn max_range_spec(name: AbilityName, class: CharClass) -> int {
    match name {
        AbilityName::ShieldBash => attack_range(class),
        AbilityName::Attack => attack_range(class),
        AbilityName::Move => 2,
        AbilityName::Wait => 0,
    }
}

/// Whether an ability's use requires line of sight to its target: enemy
/// targets must be seen; moving and waiting need no sight line.
pub open spec fn needs_los_spec(name: AbilityName) -> bool {
    target_type_spec(name) == TargetType::Ennemy
}

/// The ability the caster performed most recently, if any.
pub open spec fn last_action(log: Seq<ActionLog>) -> Option<AbilityName> {
    if log.len() == 0 {
        None
    } else {
        Some(log.last().action_name)
    }
}

/// The cast delay in clock ticks.  Attacks cost a base 20 ticks, reduced by
/// 6 for an Archer whose preceding action was a move; a move costs
/// `floor(12 · distance)` ticks, reduced by 6 for an Archer whose preceding
/// action was an attack; waiting costs 6 ticks.
pub open spec fn delay_spec(
    name: AbilityName,
    class: CharClass,
    log: Seq<ActionLog>,
    caster: Coords,
    target: Coords,
) -> int {
    match name {
        AbilityName::ShieldBash | AbilityName::Attack => {
            let discount: int = if class == CharClass::Archer && last_action(log) == Some(
                AbilityName::Move,
            ) {
                6
            } else {
                0
            };
            20 - discount
        },
        AbilityName::Move => {
            let discount: int = if class == CharClass::Archer && (last_action(log) == Some(
                AbilityName::Attack,
            ) || last_action(log) == Some(AbilityName::ShieldBash)) {
                6
            } else {
                0
            };
            sqrt_floor((36 * dist_sq4(caster, target)) as nat) - discount
        },
        AbilityName::Wait => 6,
    }
}

/// The resource costs of an ability: only the shield bash costs anything,
/// namely 60 units of the `ShieldBash` gauge.
pub open spec fn costs_spec(name: AbilityName) -> Seq<(Seq<char>, int)> {
    if name == AbilityName::ShieldBash {
        seq![("ShieldBash"@, 60int)]
    } else {
        Seq::<(Seq<char>, int)>::empty()
    }
}

/// A requested use of an ability by a snapshot of its caster.
pub struct Ability {
    pub name: AbilityName,
    pub caster: Entity,
}

impl Ability {
    /// Minimum range of any ability, in whole tiles: always zero.
    pub fn min_range(&self) -> (r: i64)
        ensures
            r == 0,
    {
        0
    }

    /// The cast delay consumed by using this ability on `target`.
    ///
    /// `floor(12 · distance)` for a move equals
    /// `floor(sqrt(36 · (dx² + 3·dy²)))`, computed here without floats.
    pub fn get_delay(&self, target: Coords) -> (r: i64)
        requires
            in_calc_bounds(self.caster.coords),
            in_calc_bounds(target),
        ensures
            r == delay_spec(self.name, self.caster.game_class, self.caster.log@,
                self.caster.coords, target),
    {
        match self.name {
            AbilityName::ShieldBash | AbilityName::Attack => {
                let discount: i64 = match self.caster.game_class {
                    CharClass::Archer => {
                        let len = self.caster.log.len();
                        if len > 0 && self.caster.log[len - 1].action_name == AbilityName::Move {
                            6
                        } else {
                            0
                        }
                    },
                    _ => 0,
                };
                20 - discount
            },
            AbilityName::Move => {
                let discount: i64 = match self.caster.game_class {
                    CharClass::Archer => {
                        let len = self.caster.log.len();
                        if len > 0 && (self.caster.log[len - 1].action_name == AbilityName::Attack
                            || self.caster.log[len - 1].action_name == AbilityName::ShieldBash) {
                            6
                        } else {
                            0
                        }
                    },
                    _ => 0,
                };
                let dx: i64 = self.caster.coords.x - target.x;
                let dy: i64 = self.caster.coords.y - target.y;
                proof {
                    lemma_square_monotonic_abs(dx as int, 2_000_000int);
                    lemma_square_monotonic_abs(dy as int, 2_000_000int);
                    lemma_dist_sq4_nonneg(self.caster.coords, target);
                    assert(dx * dx <= 4_000_000_000_000int);
                    assert(dy * dy <= 4_000_000_000_000int);
                }
                let s: i64 = dx * dx + 3 * (dy * dy);
                let m: u64 = 36u64 * (s as u64);
                let r: u64 = isqrt(m);
                proof {
                    lemma_sqrt_floor_bounds(m as nat);
                    if r > 24_000_000u64 {
                        lemma_square_monotonic(24_000_001int, r as int);
                        assert(false);
                    }
                }
                (r as i64) - discount
            },
            AbilityName::Wait => 6,
        }
    }

    /// Maximum range of this ability for a caster of `caster_class`, in
    /// whole tiles.
    pub fn max_range(&self, caster_class: &CharClass) -> (r: i64)
        ensures
            r == max_range_spec(self.name, *caster_class),
    {
        match self.name {
            AbilityName::ShieldBash | AbilityName::Attack => caster_class.get_attack_range(),
            AbilityName::Move => 2,
            AbilityName::Wait => 0,
        }
    }

    /// The kind of target this ability requires.
    pub fn target_type(&self) -> (r: TargetType)
        ensures
            r == target_type_spec(self.name),
    {
        match self.name {
            AbilityName::ShieldBash | AbilityName::Attack => TargetType::Ennemy,
            AbilityName::Move => TargetType::Walkable,
            AbilityName::Wait => TargetType::Selfcast,
        }
    }

    /// Whether this ability requires line of sight to its target.
    pub fn needs_los(&self) -> (r: bool)
        ensures
            r == needs_los_spec(self.name),
    {
        let t = self.target_type();
        t == TargetType::Ennemy
    }

    /// The resource costs of using this ability: 60 units of the
    /// `ShieldBash` gauge for a shield bash, nothing otherwise.
    pub fn get_costs(&self) -> (r: Vec<(String, i64)>)
        ensures
            r@.map_values(|p: (String, i64)| (p.0@, p.1 as int)) == costs_spec(self.name),
            r@.len() == costs_spec(self.name).len(),
            self.name == AbilityName::ShieldBash ==> r@[0].0@ == "ShieldBash"@ && r@[0].1 == 60,
    {
        let r: Vec<(String, i64)> = match self.name {
            AbilityName::ShieldBash => vec![("ShieldBash".to_owned(), 60)],
            _ => Vec::new(),
        };
        proof {
            assert(r@.map_values(|p: (String, i64)| (p.0@, p.1 as int)) =~= costs_spec(
                self.name,
            ));
        }
        r
    }
}

} // verus!

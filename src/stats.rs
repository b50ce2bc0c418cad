use vstd::prelude::*;

verus! {

/// Value of every stat of a new pawn.
pub const DEFAULT_PAWN_STAT: u32 = 8;

/// The base stats of a pawn.
#[derive(Clone, Copy, Debug, PartialEq, Eq, Structural)]
pub struct PawnStats {
    pub vitality: u32,
    pub strenght: u32,
    pub dexterity: u32,
    pub intelligence: u32,
    pub wisdom: u32,
}

impl Default for PawnStats {
    /// Every stat at `DEFAULT_PAWN_STAT`.
    fn default() -> (r: Self)
        ensures
            r.vitality == DEFAULT_PAWN_STAT,
            r.strenght == DEFAULT_PAWN_STAT,
            r.dexterity == DEFAULT_PAWN_STAT,
            r.intelligence == DEFAULT_PAWN_STAT,
            r.wisdom == DEFAULT_PAWN_STAT,
    {
        PawnStats {
            vitality: DEFAULT_PAWN_STAT,
            strenght: DEFAULT_PAWN_STAT,
            dexterity: DEFAULT_PAWN_STAT,
            intelligence: DEFAULT_PAWN_STAT,
            wisdom: DEFAULT_PAWN_STAT,
        }
    }
}

/// The bonus a stat gives: its distance above the default.
pub fn get_stat_bonus(value: u32) -> (r: i32)
    requires
        value <= i32::MAX,
    ensures
        r == value - DEFAULT_PAWN_STAT,
{
    value as i32 - DEFAULT_PAWN_STAT as i32
}

#[derive(Clone, Copy, Debug, PartialEq, Eq, Structural)]
pub enum DamageType {
    Invalid,
    Slashing,
    Fire,
    Cold,
    Acid,
    Thunder,
    Lightning,
    Radiant,
    Necrotic,
    Force,
}

/// Damage types that a pawn takes less from, or none.
pub struct Resistance {
    pub resistances: Vec<DamageType>,
    pub immunities: Vec<DamageType>,
}

/// The die that sets a pawn's health.
#[derive(Clone, Copy, Debug, PartialEq, Eq, Structural)]
pub enum HitDie {
    D4,
    D6,
    D8,
    D10,
    D12,
}

impl HitDie {
    pub open spec fn spec_value(&self) -> u32 {
        match self {
            HitDie::D4 => 4,
            HitDie::D6 => 6,
            HitDie::D8 => 8,
            HitDie::D10 => 10,
            HitDie::D12 => 12,
        }
    }

    /// Number of sides of the die.
    pub fn value(&self) -> (r: u32)
        ensures
            r == self.spec_value(),
    {
        match self {
            HitDie::D4 => 4,
            HitDie::D6 => 6,
            HitDie::D8 => 8,
            HitDie::D10 => 10,
            HitDie::D12 => 12,
        }
    }
}

/// The health of a pawn.
#[derive(Clone, Copy, Debug, PartialEq, Eq, Structural)]
pub struct Health {
    pub hit_die: HitDie,
    pub current: i32,
    pub maximum: i32,
}

impl Health {
    /// Full health for a pawn with `stats`: the hit die plus the vitality
    /// bonus.
    pub fn setup(hit_die: HitDie, stats: &PawnStats) -> (r: Self)
        requires
            stats.vitality <= i32::MAX - 12,
        ensures
            r.hit_die == hit_die,
            r.maximum == hit_die.spec_value() + stats.vitality - DEFAULT_PAWN_STAT,
            r.current == r.maximum,
    {
        let maximum = hit_die.value() as i32 + get_stat_bonus(stats.vitality);
        Health { hit_die, current: maximum, maximum }
    }
}

} // verus!

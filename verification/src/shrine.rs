//! Shrines and their boons: a shrine offers two distinct boons drawn
//! without replacement from the fixed six-member catalog, and can grant
//! exactly one of them, once.

use vstd::prelude::*;
use crate::reach::in_grid;
use crate::rng::GameRng;

verus! {

/// The closed catalog of boons.
#[derive(Clone, Copy, PartialEq, Eq, Structural, Debug)]
pub enum Boon {
    /// +10 max HP and heal to full.
    VitalityOfErebus,
    /// +3 attack.
    WrathOfAres,
    /// +2 defense.
    AegisOfAthena,
    /// Reduce all ability cooldowns by 3, clamped at 0.
    SwiftnessOfHermes,
    /// Heal 15 HP, capped at max HP.
    GraceOfPersephone,
    /// See further: field-of-view radius +3.
    EyesOfNyx,
}

/// The boon at a catalog index in 0..6.
pub open spec fn spec_boon_at(i: int) -> Boon {
    if i == 0 {
        Boon::VitalityOfErebus
    } else if i == 1 {
        Boon::WrathOfAres
    } else if i == 2 {
        Boon::AegisOfAthena
    } else if i == 3 {
        Boon::SwiftnessOfHermes
    } else if i == 4 {
        Boon::GraceOfPersephone
    } else {
        Boon::EyesOfNyx
    }
}

impl Boon {
    /// The display name of a boon, as a character sequence.
    pub open spec fn spec_name(self) -> Seq<char> {
        match self {
            Boon::VitalityOfErebus => "Vitality of Erebus"@,
            Boon::WrathOfAres => "Wrath of Ares"@,
            Boon::AegisOfAthena => "Aegis of Athena"@,
            Boon::SwiftnessOfHermes => "Swiftness of Hermes"@,
            Boon::GraceOfPersephone => "Grace of Persephone"@,
            Boon::EyesOfNyx => "Eyes of Nyx"@,
        }
    }

    pub fn name(self) -> (r: &'static str)
        ensures
            r@ == self.spec_name(),
    {
        match self {
            Boon::VitalityOfErebus => "Vitality of Erebus",
            Boon::WrathOfAres => "Wrath of Ares",
            Boon::AegisOfAthena => "Aegis of Athena",
            Boon::SwiftnessOfHermes => "Swiftness of Hermes",
            Boon::GraceOfPersephone => "Grace of Persephone",
            Boon::EyesOfNyx => "Eyes of Nyx",
        }
    }

    /// The one-line description of a boon, as a character sequence.
    pub open spec fn spec_description(self) -> Seq<char> {
        match self {
            Boon::VitalityOfErebus => "+10 max HP, heal to full"@,
            Boon::WrathOfAres => "+3 attack"@,
            Boon::AegisOfAthena => "+2 defense"@,
            Boon::SwiftnessOfHermes => "All cooldowns reduced by 3"@,
            Boon::GraceOfPersephone => "Heal 15 HP"@,
            Boon::EyesOfNyx => "See further in the dark"@,
        }
    }

    pub fn description(self) -> (r: &'static str)
        ensures
            r@ == self.spec_description(),
    {
        match self {
            Boon::VitalityOfErebus => "+10 max HP, heal to full",
            Boon::WrathOfAres => "+3 attack",
            Boon::AegisOfAthena => "+2 defense",
            Boon::SwiftnessOfHermes => "All cooldowns reduced by 3",
            Boon::GraceOfPersephone => "Heal 15 HP",
            Boon::EyesOfNyx => "See further in the dark",
        }
    }

    fn at_index(i: u32) -> (r: Boon)
        requires
            i < 6,
        ensures
            r == spec_boon_at(i as int),
    {
        if i == 0 {
            Boon::VitalityOfErebus
        } else if i == 1 {
            Boon::WrathOfAres
        } else if i == 2 {
            Boon::AegisOfAthena
        } else if i == 3 {
            Boon::SwiftnessOfHermes
        } else if i == 4 {
            Boon::GraceOfPersephone
        } else {
            Boon::EyesOfNyx
        }
    }

    /// The pair offered for the two raw rolls: the first is drawn from the
    /// full catalog, the second from the remaining five, so the two are
    /// always distinct.
    pub fn pair_from_rolls(a: u32, b: u32) -> (r: (Boon, Boon))
        requires
            a < 6,
            b < 5,
        ensures
            r.0 == spec_boon_at(a as int),
            r.1 == spec_boon_at(if b >= a {
                b + 1
            } else {
                b as int
            }),
            r.0 != r.1,
    {
        let first = Boon::at_index(a);
        let bi = if b >= a {
            b + 1
        } else {
            b
        };
        let second = Boon::at_index(bi);
        (first, second)
    }

    /// Two distinct boons drawn without replacement.
    pub fn random_pair(rng: &mut GameRng) -> (r: (Boon, Boon))
        ensures
            r.0 != r.1,
    {
        let a = rng.range_u32(0, 6);
        let b = rng.range_u32(0, 5);
        Boon::pair_from_rolls(a, b)
    }
}

/// Distinct catalog indices name distinct boons.
pub proof fn lemma_boon_at_injective(i: int, j: int)
    requires
        0 <= i < 6,
        0 <= j < 6,
        i != j,
    ensures
        spec_boon_at(i) != spec_boon_at(j),
{
}

/// A shrine placed on the level: a position, two distinct offered boons,
/// and a used flag that is set permanently by the first application.
#[derive(Clone, Copy, PartialEq, Eq, Structural, Debug)]
pub struct Shrine {
    pub x: i32,
    pub y: i32,
    pub boon_a: Boon,
    pub boon_b: Boon,
    pub used: bool,
}

impl Shrine {
    /// On the grid, offering two distinct boons.
    pub open spec fn wf(self) -> bool {
        in_grid(self.x as int, self.y as int) && self.boon_a != self.boon_b
    }

    pub fn new(x: i32, y: i32, rng: &mut GameRng) -> (s: Shrine)
        requires
            in_grid(x as int, y as int),
        ensures
            s.x == x,
            s.y == y,
            !s.used,
            s.boon_a != s.boon_b,
            s.wf(),
    {
        let (a, b) = Boon::random_pair(rng);
        Shrine { x, y, boon_a: a, boon_b: b, used: false }
    }
}

} // verus!

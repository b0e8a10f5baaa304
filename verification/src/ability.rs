//! Player abilities and their cooldown bookkeeping.

use vstd::prelude::*;

verus! {

/// The closed catalog of player abilities.
#[derive(Clone, Copy, PartialEq, Eq, Structural, Debug)]
pub enum Ability {
    /// Move up to 2 tiles away from the nearest visible enemy.
    Dash,
    /// Damage every visible enemy within a small radius.
    SpectralScream,
    /// Heal a fixed amount, on a long cooldown.
    LethesTouch,
}

impl Ability {
    /// The display name of an ability, as a character sequence.
    pub open spec fn spec_name(self) -> Seq<char> {
        match self {
            Ability::Dash => "Dash"@,
            Ability::SpectralScream => "Spectral Scream"@,
            Ability::LethesTouch => "Lethe's Touch"@,
        }
    }

    pub fn name(self) -> (r: &'static str)
        ensures
            r@ == self.spec_name(),
    {
        match self {
            Ability::Dash => "Dash",
            Ability::SpectralScream => "Spectral Scream",
            Ability::LethesTouch => "Lethe's Touch",
        }
    }

    pub fn key(self) -> (r: char)
        ensures
            r == self.spec_key(),
    {
        match self {
            Ability::Dash => '1',
            Ability::SpectralScream => '2',
            Ability::LethesTouch => '3',
        }
    }

    pub open spec fn spec_key(self) -> char {
        match self {
            Ability::Dash => '1',
            Ability::SpectralScream => '2',
            Ability::LethesTouch => '3',
        }
    }

    /// Turns an ability stays unavailable after it is triggered.
    pub open spec fn spec_max_cooldown(self) -> int {
        match self {
            Ability::Dash => 8,
            Ability::SpectralScream => 12,
            Ability::LethesTouch => 25,
        }
    }

    pub fn max_cooldown(self) -> (r: i32)
        ensures
            r == self.spec_max_cooldown(),
    {
        match self {
            Ability::Dash => 8,
            Ability::SpectralScream => 12,
            Ability::LethesTouch => 25,
        }
    }

    pub fn description(self) -> (r: &'static str)
        ensures
            self == Ability::Dash ==> r@ == "Move 2 tiles, phase through enemies"@,
            self == Ability::SpectralScream ==> r@ == "Damage all nearby visible enemies"@,
            self == Ability::LethesTouch ==> r@ == "Remember nothing. Heal 15 HP"@,
    {
        match self {
            Ability::Dash => "Move 2 tiles, phase through enemies",
            Ability::SpectralScream => "Damage all nearby visible enemies",
            Ability::LethesTouch => "Remember nothing. Heal 15 HP",
        }
    }
}

/// One tracked ability together with its remaining cooldown.
#[derive(Clone, Copy, PartialEq, Eq, Structural, Debug)]
pub struct AbilityState {
    pub ability: Ability,
    /// 0 means ready; a positive count is the number of turns until ready.
    pub cooldown: i32,
}

impl AbilityState {
    /// The cooldown counter always stays within [0, max_cooldown].
    pub open spec fn wf(self) -> bool {
        0 <= self.cooldown <= self.ability.spec_max_cooldown()
    }

    pub fn new(ability: Ability) -> (r: AbilityState)
        ensures
            r.ability == ability,
            r.cooldown == 0,
            r.wf(),
    {
        AbilityState { ability, cooldown: 0 }
    }

    pub open spec fn spec_ready(self) -> bool {
        self.cooldown == 0
    }

    pub fn ready(&self) -> (r: bool)
        ensures
            r == self.spec_ready(),
    {
        self.cooldown == 0
    }

    /// Consume the ability: the cooldown is set to exactly the kind's maximum.
    pub fn trigger(&mut self)
        ensures
            final(self).ability == old(self).ability,
            final(self).cooldown == old(self).ability.spec_max_cooldown(),
            final(self).wf(),
    {
        self.cooldown = self.ability.max_cooldown();
    }

    /// Advance one turn: a positive cooldown drops by one and never below 0.
    pub fn tick(&mut self)
        requires
            old(self).wf(),
        ensures
            final(self).ability == old(self).ability,
            final(self).cooldown == if old(self).cooldown > 0 {
                old(self).cooldown - 1
            } else {
                0
            },
            final(self).wf(),
    {
        if self.cooldown > 0 {
            self.cooldown = self.cooldown - 1;
        }
    }
}

} // verus!

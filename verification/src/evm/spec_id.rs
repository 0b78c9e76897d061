//! The rule sets of the virtual machine.

use vstd::prelude::*;

verus! {

/// A rule set, named after the hard fork that brought it.
#[derive(Clone, Copy, PartialEq, Eq, Structural, Hash, Debug)]
pub enum SpecId {
    Frontier,
    FrontierThawing,
    Homestead,
    DaoFork,
    Tangerine,
    SpuriousDragon,
    Byzantium,
    Constantinople,
    Petersburg,
    Istanbul,
    MuirGlacier,
    Berlin,
    London,
    ArrowGlacier,
    GrayGlacier,
    Merge,
    Shanghai,
    Cancun,
    Prague,
    Osaka,
    Amsterdam,
}

impl SpecId {
    /// How many rule sets came before.
    pub open spec fn rank(self) -> int {
        match self {
            SpecId::Frontier => 0,
            SpecId::FrontierThawing => 1,
            SpecId::Homestead => 2,
            SpecId::DaoFork => 3,
            SpecId::Tangerine => 4,
            SpecId::SpuriousDragon => 5,
            SpecId::Byzantium => 6,
            SpecId::Constantinople => 7,
            SpecId::Petersburg => 8,
            SpecId::Istanbul => 9,
            SpecId::MuirGlacier => 10,
            SpecId::Berlin => 11,
            SpecId::London => 12,
            SpecId::ArrowGlacier => 13,
            SpecId::GrayGlacier => 14,
            SpecId::Merge => 15,
            SpecId::Shanghai => 16,
            SpecId::Cancun => 17,
            SpecId::Prague => 18,
            SpecId::Osaka => 19,
            SpecId::Amsterdam => 20,
        }
    }

    fn position(self) -> (r: u8)
        ensures
            r == self.rank(),
    {
        match self {
            SpecId::Frontier => 0,
            SpecId::FrontierThawing => 1,
            SpecId::Homestead => 2,
            SpecId::DaoFork => 3,
            SpecId::Tangerine => 4,
            SpecId::SpuriousDragon => 5,
            SpecId::Byzantium => 6,
            SpecId::Constantinople => 7,
            SpecId::Petersburg => 8,
            SpecId::Istanbul => 9,
            SpecId::MuirGlacier => 10,
            SpecId::Berlin => 11,
            SpecId::London => 12,
            SpecId::ArrowGlacier => 13,
            SpecId::GrayGlacier => 14,
            SpecId::Merge => 15,
            SpecId::Shanghai => 16,
            SpecId::Cancun => 17,
            SpecId::Prague => 18,
            SpecId::Osaka => 19,
            SpecId::Amsterdam => 20,
        }
    }

    /// Whether the rules of `other` hold under this rule set: it is the same or came before.
    pub open spec fn enables(self, other: SpecId) -> bool {
        self.rank() >= other.rank()
    }

    pub fn is_enabled_in(self, other: SpecId) -> (r: bool)
        ensures
            r == self.enables(other),
    {
        self.position() >= other.position()
    }
}

} // verus!

//! World structure: three continents, three sectors per continent, four
//! capacity-icon families.

use vstd::prelude::*;

verus! {

/// The three continental regions.
#[derive(Debug, Clone, Copy, PartialEq, Eq, Structural, Hash)]
pub enum Continent {
    Europe,
    NorthAmerica,
    MajorityWorld,
}

/// The three emission sectors tracked per continent.
#[derive(Debug, Clone, Copy, PartialEq, Eq, Structural, Hash)]
pub enum Sector {
    Power,
    TransportAndBuildings,
    IndustryAndLand,
}

/// Capacity icons, tracked separately per continent.
#[derive(Debug, Clone, Copy, PartialEq, Eq, Structural, Hash)]
pub enum Icon {
    Knowledge,
    Infrastructure,
    Workforce,
    Institutions,
}

/// The stable array index of a continent.
pub open spec fn continent_index(c: Continent) -> int {
    match c {
        Continent::Europe => 0,
        Continent::NorthAmerica => 1,
        Continent::MajorityWorld => 2,
    }
}

/// The continent at a stable index (the inverse of `continent_index`).
pub open spec fn continent_at(i: int) -> Continent {
    if i == 0 {
        Continent::Europe
    } else if i == 1 {
        Continent::NorthAmerica
    } else {
        Continent::MajorityWorld
    }
}

/// The stable array index of a sector.
pub open spec fn sector_index(s: Sector) -> int {
    match s {
        Sector::Power => 0,
        Sector::TransportAndBuildings => 1,
        Sector::IndustryAndLand => 2,
    }
}

/// The stable array index of an icon family.
pub open spec fn icon_index(i: Icon) -> int {
    match i {
        Icon::Knowledge => 0,
        Icon::Infrastructure => 1,
        Icon::Workforce => 2,
        Icon::Institutions => 3,
    }
}

impl Continent {
    /// All continents, in a stable order.
    pub const ALL: [Continent; 3] = [
        Continent::Europe,
        Continent::NorthAmerica,
        Continent::MajorityWorld,
    ];

    /// Stable array index for state tables.
    pub fn index(self) -> (r: usize)
        ensures
            r == continent_index(self),
            r < 3,
    {
        match self {
            Continent::Europe => 0,
            Continent::NorthAmerica => 1,
            Continent::MajorityWorld => 2,
        }
    }

    pub fn name(self) -> (r: &'static str)
        ensures
            r@ == match self {
                Continent::Europe => "Europe"@,
                Continent::NorthAmerica => "North America"@,
                Continent::MajorityWorld => "Majority World"@,
            },
    {
        match self {
            Continent::Europe => "Europe",
            Continent::NorthAmerica => "North America",
            Continent::MajorityWorld => "Majority World",
        }
    }
}


impl Sector {
    /// All sectors, in a stable order.
    pub const ALL: [Sector; 3] = [
        Sector::Power,
        Sector::TransportAndBuildings,
        Sector::IndustryAndLand,
    ];

    /// Stable array index for state tables.
    pub fn index(self) -> (r: usize)
        ensures
            r == sector_index(self),
            r < 3,
    {
        match self {
            Sector::Power => 0,
            Sector::TransportAndBuildings => 1,
            Sector::IndustryAndLand => 2,
        }
    }

    pub fn name(self) -> (r: &'static str)
        ensures
            r@ == match self {
                Sector::Power => "Power"@,
                Sector::TransportAndBuildings => "Transport & Buildings"@,
                Sector::IndustryAndLand => "Industry & Land"@,
            },
    {
        match self {
            Sector::Power => "Power",
            Sector::TransportAndBuildings => "Transport & Buildings",
            Sector::IndustryAndLand => "Industry & Land",
        }
    }
}

impl Icon {
    /// All icon families, in a stable order.
    pub const ALL: [Icon; 4] = [
        Icon::Knowledge,
        Icon::Infrastructure,
        Icon::Workforce,
        Icon::Institutions,
    ];

    /// Stable array index for state tables.
    pub fn index(self) -> (r: usize)
        ensures
            r == icon_index(self),
            r < 4,
    {
        match self {
            Icon::Knowledge => 0,
            Icon::Infrastructure => 1,
            Icon::Workforce => 2,
            Icon::Institutions => 3,
        }
    }

    pub fn name(self) -> (r: &'static str)
        ensures
            r@ == match self {
                Icon::Knowledge => "Knowledge"@,
                Icon::Infrastructure => "Infrastructure"@,
                Icon::Workforce => "Workforce"@,
                Icon::Institutions => "Institutions"@,
            },
    {
        match self {
            Icon::Knowledge => "Knowledge",
            Icon::Infrastructure => "Infrastructure",
            Icon::Workforce => "Workforce",
            Icon::Institutions => "Institutions",
        }
    }
}

/// The stable indices are dense and agree with the `ALL` orderings: position
/// `k` of each `ALL` array holds the value whose index is `k`, and the three
/// index maps are injective.
pub proof fn lemma_indices_dense()
    ensures
        forall|k: int| 0 <= k < 3 ==> continent_index(#[trigger] Continent::ALL@[k]) == k,
        forall|k: int| 0 <= k < 3 ==> sector_index(#[trigger] Sector::ALL@[k]) == k,
        forall|k: int| 0 <= k < 4 ==> icon_index(#[trigger] Icon::ALL@[k]) == k,
        forall|a: Continent, b: Continent| continent_index(a) == continent_index(b) ==> a == b,
        forall|a: Sector, b: Sector| sector_index(a) == sector_index(b) ==> a == b,
        forall|a: Icon, b: Icon| icon_index(a) == icon_index(b) ==> a == b,
        forall|k: int| 0 <= k < 3 ==> continent_index(#[trigger] continent_at(k)) == k,
        forall|c: Continent| continent_at(#[trigger] continent_index(c)) == c,
{
}

} // verus!

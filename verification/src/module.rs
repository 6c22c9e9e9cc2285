//! Grid cells ("modules"): their roles, functional states, capacities and
//! occupancy counters.
//!
//! A module accepts a new item only while it is `Functional` and its
//! occupancy is below its role-derived capacity; corridor cells are the only
//! cells routing may pass through.

use vstd::prelude::*;

verus! {

/// Capacity of a designated storage resource.
pub const MAX_PRODUCT_IN_STORAGE: u32 = 5;

/// Capacity of pass-through, source and sink roles: effectively unbounded.
pub const UNBOUNDED_CAPACITY: u32 = u32::MAX;

/// A grid coordinate. Modules sit at non-negative coordinates inside the
/// board's configured bounds; negative values are always out of bounds.
#[derive(Clone, Copy, PartialEq, Eq, Structural, Debug)]
pub struct GridPos {
    pub x: i32,
    pub y: i32,
}

impl GridPos {
    pub fn new(x: i32, y: i32) -> (r: GridPos)
        ensures
            r.x == x,
            r.y == y,
    {
        GridPos { x, y }
    }
}

/// The role of a grid cell, fixed by the static layout.
#[derive(Clone, Copy, PartialEq, Eq, Structural, Debug)]
pub enum ModuleType {
    Lkw,
    Lager,
    Saege,
    Fraese,
    Strasse,
    Versand,
    MontageStation,
    Beschichtung,
    Messen,
    Leer,
    Anlieferung,
    Kunde,
    Weg,
}

/// Whether cells of this role are traversable-only routing cells.
pub open spec fn is_corridor_kind(kind: ModuleType) -> bool {
    kind is Weg || kind is Strasse
}

/// The capacity a cell of this role starts with: 1 for a plain production
/// resource, a fixed constant for storage, effectively unbounded for
/// pass-through, source and sink roles.
pub open spec fn default_capacity(kind: ModuleType) -> u32 {
    match kind {
        ModuleType::Lager => MAX_PRODUCT_IN_STORAGE,
        ModuleType::Weg => UNBOUNDED_CAPACITY,
        ModuleType::Strasse => UNBOUNDED_CAPACITY,
        ModuleType::Lkw => UNBOUNDED_CAPACITY,
        ModuleType::Anlieferung => UNBOUNDED_CAPACITY,
        ModuleType::Versand => UNBOUNDED_CAPACITY,
        ModuleType::Kunde => UNBOUNDED_CAPACITY,
        _ => 1,
    }
}

impl ModuleType {
    /// Executable corridor test, equal to `is_corridor_kind`.
    pub fn is_traversable(self) -> (r: bool)
        ensures
            r == is_corridor_kind(self),
    {
        match self {
            ModuleType::Weg => true,
            ModuleType::Strasse => true,
            _ => false,
        }
    }

    /// Executable capacity table, equal to `default_capacity`.
    pub fn capacity(self) -> (r: u32)
        ensures
            r == default_capacity(self),
    {
        match self {
            ModuleType::Lager => MAX_PRODUCT_IN_STORAGE,
            ModuleType::Weg => UNBOUNDED_CAPACITY,
            ModuleType::Strasse => UNBOUNDED_CAPACITY,
            ModuleType::Lkw => UNBOUNDED_CAPACITY,
            ModuleType::Anlieferung => UNBOUNDED_CAPACITY,
            ModuleType::Versand => UNBOUNDED_CAPACITY,
            ModuleType::Kunde => UNBOUNDED_CAPACITY,
            _ => 1,
        }
    }
}

/// Compact layout spellings, used to write static grid layouts as dense
/// tables.
#[allow(non_camel_case_types)]
#[derive(Clone, Copy, PartialEq, Eq, Structural, Debug)]
pub enum ShortModuleType {
    lk,
    la,
    sa,
    fr,
    st,
    ve,
    mo,
    be,
    me,
    le,
    an,
    ku,
    we,
}

/// The role a compact layout spelling stands for.
pub open spec fn long_of(short: ShortModuleType) -> ModuleType {
    match short {
        ShortModuleType::lk => ModuleType::Lkw,
        ShortModuleType::la => ModuleType::Lager,
        ShortModuleType::sa => ModuleType::Saege,
        ShortModuleType::fr => ModuleType::Fraese,
        ShortModuleType::st => ModuleType::Strasse,
        ShortModuleType::ve => ModuleType::Versand,
        ShortModuleType::mo => ModuleType::MontageStation,
        ShortModuleType::be => ModuleType::Beschichtung,
        ShortModuleType::me => ModuleType::Messen,
        ShortModuleType::le => ModuleType::Leer,
        ShortModuleType::an => ModuleType::Anlieferung,
        ShortModuleType::ku => ModuleType::Kunde,
        ShortModuleType::we => ModuleType::Weg,
    }
}

impl ShortModuleType {
    /// Expand one compact spelling to its role.
    pub fn make_long(self) -> (r: ModuleType)
        ensures
            r == long_of(self),
    {
        match self {
            ShortModuleType::lk => ModuleType::Lkw,
            ShortModuleType::la => ModuleType::Lager,
            ShortModuleType::sa => ModuleType::Saege,
            ShortModuleType::fr => ModuleType::Fraese,
            ShortModuleType::st => ModuleType::Strasse,
            ShortModuleType::ve => ModuleType::Versand,
            ShortModuleType::mo => ModuleType::MontageStation,
            ShortModuleType::be => ModuleType::Beschichtung,
            ShortModuleType::me => ModuleType::Messen,
            ShortModuleType::le => ModuleType::Leer,
            ShortModuleType::an => ModuleType::Anlieferung,
            ShortModuleType::ku => ModuleType::Kunde,
            ShortModuleType::we => ModuleType::Weg,
        }
    }

    /// Expand a whole compact layout row to roles, in order.
    pub fn array_make_long(shorts: &Vec<ShortModuleType>) -> (r: Vec<ModuleType>)
        ensures
            r@.len() == shorts@.len(),
            forall|i: int| 0 <= i < r@.len() ==> r@[i] == long_of(shorts@[i]),
    {
        let mut longs: Vec<ModuleType> = Vec::new();
        let mut i: usize = 0;
        while i < shorts.len()
            invariant
                i <= shorts@.len(),
                longs@.len() == i,
                forall|j: int| 0 <= j < i ==> longs@[j] == long_of(shorts@[j]),
            decreases shorts@.len() - i,
        {
            longs.push(shorts[i].make_long());
            i += 1;
        }
        longs
    }
}

/// The functional state of a module. Only a `Functional` module accepts new
/// items; a `Broken` or `Maintaining` one stalls everything routed to it
/// until a scenario injection repairs it.
#[derive(Clone, Copy, PartialEq, Eq, Structural, Debug)]
pub enum ModuleState {
    Functional,
    Maintaining,
    Broken,
}

/// One grid cell: a production, storage, corridor, source or sink resource
/// with a bounded occupancy counter.
///
/// Invariant (maintained by the board): `in_production <= max_production`.
#[derive(Clone, Copy, Debug)]
pub struct Module {
    pub pos: GridPos,
    pub kind: ModuleType,
    /// How many items currently count against this module's capacity.
    pub in_production: u32,
    /// The capacity: how many items the module can hold at once.
    pub max_production: u32,
    pub state: ModuleState,
}

impl Module {
    /// A fresh, empty, functional module with its role-derived capacity.
    pub fn new(pos: GridPos, kind: ModuleType) -> (r: Module)
        ensures
            r.pos == pos,
            r.kind == kind,
            r.in_production == 0,
            r.max_production == default_capacity(kind),
            r.state is Functional,
    {
        Module {
            pos,
            kind,
            in_production: 0,
            max_production: kind.capacity(),
            state: ModuleState::Functional,
        }
    }

    /// Whether the module accepts one more item: functional and below
    /// capacity.
    pub fn can_receiv_product(&self) -> (r: bool)
        ensures
            r == (self.in_production < self.max_production && self.state is Functional),
    {
        self.in_production < self.max_production && matches!(self.state, ModuleState::Functional)
    }

    /// Whether the module is a designated storage resource.
    pub fn is_storage(&self) -> (r: bool)
        ensures
            r == (self.max_production > 1),
    {
        self.max_production > 1
    }

    /// Empty the module and make it functional again; role, position and
    /// capacity stay.
    pub fn reset(&mut self)
        ensures
            final(self).pos == old(self).pos,
            final(self).kind == old(self).kind,
            final(self).max_production == old(self).max_production,
            final(self).in_production == 0,
            final(self).state is Functional,
    {
        self.in_production = 0;
        self.state = ModuleState::Functional;
    }
}

} // verus!

//! Materials, their movement capabilities, and cells.

use vstd::prelude::*;

verus! {

/// The type identity of a cell.
#[derive(Clone, Copy, Debug, PartialEq, Eq, Structural)]
pub enum Material {
    Empty,
    Sand,
    Water,
    Rock,
    Smoke,
}

/// One kind of movement that a material may attempt.
#[derive(Clone, Copy, Debug, PartialEq, Eq, Structural)]
pub enum MovementKind {
    Down,
    DownSide,
    Side,
    Up,
    UpSide,
}

/// A set of movement kinds: one capability flag per kind.
#[derive(Clone, Copy, Debug, PartialEq, Eq, Structural)]
pub struct MovementMask {
    pub down: bool,
    pub down_side: bool,
    pub side: bool,
    pub up: bool,
    pub up_side: bool,
}

/// A cell of the grid: a material together with the movement mask of that
/// material.
#[derive(Clone, Copy, Debug, PartialEq, Eq, Structural)]
pub struct Cell {
    pub material: Material,
    pub mask: MovementMask,
}

impl MovementMask {
    /// The set of kinds whose flag is raised.
    pub open spec fn view(&self) -> Set<MovementKind> {
        Set::new(|k: MovementKind| self.has(k))
    }

    /// Whether the flag of `kind` is raised.
    pub open spec fn has(&self, kind: MovementKind) -> bool {
        match kind {
            MovementKind::Down => self.down,
            MovementKind::DownSide => self.down_side,
            MovementKind::Side => self.side,
            MovementKind::Up => self.up,
            MovementKind::UpSide => self.up_side,
        }
    }

    /// The empty mask.
    pub open spec fn spec_none() -> MovementMask {
        MovementMask { down: false, down_side: false, side: false, up: false, up_side: false }
    }

    /// The empty mask.
    pub fn none() -> (mask: MovementMask)
        ensures
            mask == Self::spec_none(),
            forall|k: MovementKind| !mask.has(k),
    {
        MovementMask { down: false, down_side: false, side: false, up: false, up_side: false }
    }

    /// Whether the mask holds `kind`.
    pub fn contains(&self, kind: MovementKind) -> (held: bool)
        ensures
            held == self.has(kind),
            held == self@.contains(kind),
    {
        match kind {
            MovementKind::Down => self.down,
            MovementKind::DownSide => self.down_side,
            MovementKind::Side => self.side,
            MovementKind::Up => self.up,
            MovementKind::UpSide => self.up_side,
        }
    }

    /// Whether the mask holds no kind at all.
    pub fn is_none(&self) -> (none: bool)
        ensures
            none == (*self == Self::spec_none()),
            none == (forall|k: MovementKind| !self.has(k)),
    {
        proof {
            if !(self.down || self.down_side || self.side || self.up || self.up_side) {
                assert forall|k: MovementKind| !self.has(k) by {}
            } else {
                assert(self.has(MovementKind::Down) || self.has(MovementKind::DownSide)
                    || self.has(MovementKind::Side) || self.has(MovementKind::Up)
                    || self.has(MovementKind::UpSide));
            }
        }
        !(self.down || self.down_side || self.side || self.up || self.up_side)
    }
}

impl Material {
    /// The movement mask of a material: sand falls and slides diagonally,
    /// water also spreads sideways, smoke rises, and the rest stays put.
    pub open spec fn spec_movement_mask(self) -> MovementMask {
        match self {
            Material::Empty => MovementMask::spec_none(),
            Material::Rock => MovementMask::spec_none(),
            Material::Sand => MovementMask {
                down: true,
                down_side: true,
                side: false,
                up: false,
                up_side: false,
            },
            Material::Water => MovementMask {
                down: true,
                down_side: true,
                side: true,
                up: false,
                up_side: false,
            },
            Material::Smoke => MovementMask {
                down: false,
                down_side: false,
                side: false,
                up: true,
                up_side: true,
            },
        }
    }

    /// Whether a moving cell of this material may take the place of a cell
    /// of material `other` that is not empty: only sand does, and only in
    /// water.
    pub open spec fn spec_can_displace(self, other: Material) -> bool {
        self == Material::Sand && other == Material::Water
    }

    /// The display name of a material.
    pub open spec fn spec_name(self) -> Seq<char> {
        match self {
            Material::Empty => "Empty"@,
            Material::Sand => "Sand"@,
            Material::Water => "Water"@,
            Material::Rock => "Rock"@,
            Material::Smoke => "Smoke"@,
        }
    }

    /// The movement mask of this material.
    pub fn movement_mask(self) -> (mask: MovementMask)
        ensures
            mask == self.spec_movement_mask(),
    {
        match self {
            Material::Empty => MovementMask::none(),
            Material::Rock => MovementMask::none(),
            Material::Sand => MovementMask {
                down: true,
                down_side: true,
                side: false,
                up: false,
                up_side: false,
            },
            Material::Water => MovementMask {
                down: true,
                down_side: true,
                side: true,
                up: false,
                up_side: false,
            },
            Material::Smoke => MovementMask {
                down: false,
                down_side: false,
                side: false,
                up: true,
                up_side: true,
            },
        }
    }

    /// Whether this material may displace `other`.
    pub fn can_displace(self, other: Material) -> (allowed: bool)
        ensures
            allowed == self.spec_can_displace(other),
    {
        self == Material::Sand && other == Material::Water
    }

    /// The display name of this material.
    pub fn name(self) -> (name: &'static str)
        ensures
            name@ == self.spec_name(),
    {
        match self {
            Material::Empty => "Empty",
            Material::Sand => "Sand",
            Material::Water => "Water",
            Material::Rock => "Rock",
            Material::Smoke => "Smoke",
        }
    }
}

impl Cell {
    /// A cell is well formed when its mask is the mask of its material.
    pub open spec fn wf(&self) -> bool {
        self.mask == self.material.spec_movement_mask()
    }

    /// The well-formed cell of a material.
    pub open spec fn spec_of(material: Material) -> Cell {
        Cell { material, mask: material.spec_movement_mask() }
    }

    /// The well-formed cell of a material.
    pub fn of(material: Material) -> (cell: Cell)
        ensures
            cell == Self::spec_of(material),
            cell.wf(),
    {
        Cell { material, mask: material.movement_mask() }
    }

    /// The empty cell.
    pub fn empty() -> (cell: Cell)
        ensures
            cell == Self::spec_of(Material::Empty),
    {
        Cell::of(Material::Empty)
    }

    /// A cell of sand.
    pub fn sand() -> (cell: Cell)
        ensures
            cell == Self::spec_of(Material::Sand),
    {
        Cell::of(Material::Sand)
    }

    /// A cell of water.
    pub fn water() -> (cell: Cell)
        ensures
            cell == Self::spec_of(Material::Water),
    {
        Cell::of(Material::Water)
    }

    /// A cell of rock.
    pub fn rock() -> (cell: Cell)
        ensures
            cell == Self::spec_of(Material::Rock),
    {
        Cell::of(Material::Rock)
    }

    /// A cell of smoke.
    pub fn smoke() -> (cell: Cell)
        ensures
            cell == Self::spec_of(Material::Smoke),
    {
        Cell::of(Material::Smoke)
    }
}

} // verus!

//! Particles and the affinity matrix that drives their pairwise forces.

use vstd::prelude::*;
use crate::fixed::SCALE;
use crate::geometry::Vec2;

verus! {

/// The number of particle kinds.
pub const KIND_COUNT: usize = 4;

/// The category of a particle.  Each kind corresponds to one row and one
/// column of the affinity matrix; the drawing layer maps kinds to colors.
#[derive(Clone, Copy, PartialEq, Eq, Structural, Debug)]
pub enum TypeTag {
    Red,
    Green,
    Blue,
    Yellow,
}

/// The row/column of a kind in the affinity matrix.
pub open spec fn kind_index_spec(k: TypeTag) -> int {
    match k {
        TypeTag::Red => 0,
        TypeTag::Green => 1,
        TypeTag::Blue => 2,
        TypeTag::Yellow => 3,
    }
}

impl TypeTag {
    /// The row/column of this kind in the affinity matrix.
    pub fn index(&self) -> (i: usize)
        ensures
            i as int == kind_index_spec(*self),
    {
        match self {
            TypeTag::Red => 0,
            TypeTag::Green => 1,
            TypeTag::Blue => 2,
            TypeTag::Yellow => 3,
        }
    }
}

/// A typed point particle: the engine owns the authoritative list of these,
/// and the spatial partition holds copies for one tick's queries.
#[derive(Clone, Copy, PartialEq, Eq, Structural, Debug)]
pub struct Particle {
    pub position: Vec2,
    pub velocity: Vec2,
    pub kind: TypeTag,
}

impl Particle {
    /// A particle from its parts.
    pub fn new(position: Vec2, velocity: Vec2, kind: TypeTag) -> (p: Particle)
        ensures
            p.position == position,
            p.velocity == velocity,
            p.kind == kind,
    {
        Particle { position, velocity, kind }
    }
}

/// The per-kind-pair signed attraction/repulsion coefficients, fixed for a
/// run.  Entry `[i][j]` scales the force kind `i` feels from kind `j`; it is
/// a fixed-point value in `[-SCALE, SCALE]` (that is, in `[-1, 1]`).
#[derive(Debug)]
pub struct AffinityMatrix {
    pub entries: Vec<Vec<i64>>,
}

impl AffinityMatrix {
    /// The matrix is square with one row and column per kind, and every
    /// entry lies in `[-SCALE, SCALE]`.
    pub open spec fn wf(self) -> bool {
        &&& self.entries@.len() == KIND_COUNT
        &&& forall|i: int|
            0 <= i < KIND_COUNT ==> (#[trigger] self.entries@[i])@.len() == KIND_COUNT
        &&& forall|i: int, j: int|
            0 <= i < KIND_COUNT && 0 <= j < KIND_COUNT ==> -SCALE
                <= (#[trigger] self.entries@[i]@[j]) <= SCALE
    }

    /// The coefficient for the ordered kind pair `(a, b)`.
    pub open spec fn affinity_spec(self, a: TypeTag, b: TypeTag) -> int {
        self.entries@[kind_index_spec(a)]@[kind_index_spec(b)] as int
    }

    /// Looks the ordered kind pair `(a, b)` up in the matrix.
    pub fn affinity(&self, a: TypeTag, b: TypeTag) -> (v: i64)
        requires
            self.wf(),
        ensures
            v as int == self.affinity_spec(a, b),
            -SCALE <= v <= SCALE,
    {
        let i = a.index();
        let j = b.index();
        self.entries[i][j]
    }

    /// Runtime validity test: the dimensions and every entry's range.
    pub fn check(&self) -> (r: bool)
        ensures
            r == self.wf(),
    {
        if self.entries.len() != KIND_COUNT {
            return false;
        }
        let mut i: usize = 0;
        while i < KIND_COUNT
            invariant
                self.entries@.len() == KIND_COUNT,
                i <= KIND_COUNT,
                forall|a: int| 0 <= a < i ==> (#[trigger] self.entries@[a])@.len() == KIND_COUNT,
                forall|a: int, b: int|
                    0 <= a < i && 0 <= b < KIND_COUNT ==> -SCALE <= (#[trigger] self.entries@[a]@[b])
                        <= SCALE,
            decreases KIND_COUNT - i,
        {
            let row = &self.entries[i];
            if row.len() != KIND_COUNT {
                return false;
            }
            let mut j: usize = 0;
            while j < KIND_COUNT
                invariant
                    self.entries@.len() == KIND_COUNT,
                    i < KIND_COUNT,
                    row == &self.entries[i as int],
                    row@.len() == KIND_COUNT,
                    j <= KIND_COUNT,
                    forall|b: int| 0 <= b < j ==> -SCALE <= (#[trigger] row@[b]) <= SCALE,
                decreases KIND_COUNT - j,
            {
                let v = row[j];
                if !(-SCALE <= v && v <= SCALE) {
                    return false;
                }
                j += 1;
            }
            i += 1;
        }
        true
    }

    /// The baseline configuration: every kind attracts itself and repels
    /// every other kind, both at strength `0.8`.
    pub fn baseline() -> (m: AffinityMatrix)
        ensures
            m.wf(),
            forall|a: TypeTag, b: TypeTag|
                #[trigger] m.affinity_spec(a, b) == if kind_index_spec(a) == kind_index_spec(b) {
                    800_000int
                } else {
                    -800_000int
                },
    {
        let mut entries: Vec<Vec<i64>> = Vec::new();
        let mut i: usize = 0;
        while i < KIND_COUNT
            invariant
                entries@.len() == i,
                i <= KIND_COUNT,
                forall|a: int| 0 <= a < i ==> (#[trigger] entries@[a])@.len() == KIND_COUNT,
                forall|a: int, b: int|
                    0 <= a < i && 0 <= b < KIND_COUNT ==> (#[trigger] entries@[a]@[b]) == if a == b {
                        800_000i64
                    } else {
                        -800_000i64
                    },
            decreases KIND_COUNT - i,
        {
            let mut row: Vec<i64> = Vec::new();
            let mut j: usize = 0;
            while j < KIND_COUNT
                invariant
                    row@.len() == j,
                    j <= KIND_COUNT,
                    forall|b: int|
                        0 <= b < j ==> (#[trigger] row@[b]) == if i as int == b {
                            800_000i64
                        } else {
                            -800_000i64
                        },
                decreases KIND_COUNT - j,
            {
                if i == j {
                    row.push(800_000);
                } else {
                    row.push(-800_000);
                }
                j += 1;
            }
            entries.push(row);
            i += 1;
        }
        AffinityMatrix { entries }
    }
}

} // verus!

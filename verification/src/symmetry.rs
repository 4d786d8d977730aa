//! Symmetry group resolver: each tile belongs to one of six symmetry
//! classes, a distinct orbit structure of a square tile under the dihedral
//! group of order eight. A class determines how many orientations of the
//! tile are visually distinct (its cardinality) and how a quarter-turn
//! rotation and a mirror reflection permute the local orientation indices
//! `0 .. cardinality`.

use vstd::prelude::*;

verus! {

/// The six recognized symmetry classes.
#[derive(Clone, Copy, Debug, PartialEq, Eq, Structural)]
pub enum SymmetryClass {
    /// Full symmetry: every rotation and mirror image looks the same.
    X,
    /// Two-fold symmetry, e.g. a straight line.
    I,
    /// Diagonal symmetry (written `\` in tileset descriptions).
    Diagonal,
    /// Symmetric under one mirror axis only.
    T,
    /// Symmetric under a diagonal flip composed with a rotation.
    L,
    /// No symmetry: all eight orientations are distinct.
    F,
}

impl SymmetryClass {
    /// How many distinct orientations a tile of this class has.
    pub open spec fn spec_cardinality(self) -> int {
        match self {
            SymmetryClass::X => 1,
            SymmetryClass::I => 2,
            SymmetryClass::Diagonal => 2,
            SymmetryClass::T => 4,
            SymmetryClass::L => 4,
            SymmetryClass::F => 8,
        }
    }

    /// Where a quarter-turn rotation sends local orientation index `i`.
    pub open spec fn spec_rotate(self, i: int) -> int {
        match self {
            SymmetryClass::X => i,
            SymmetryClass::I => 1 - i,
            SymmetryClass::Diagonal => 1 - i,
            SymmetryClass::T => (i + 1) % 4,
            SymmetryClass::L => (i + 1) % 4,
            SymmetryClass::F => if i < 4 {
                (i + 1) % 4
            } else {
                4 + (i - 1) % 4
            },
        }
    }

    /// Where a mirror reflection sends local orientation index `i`.
    pub open spec fn spec_reflect(self, i: int) -> int {
        match self {
            SymmetryClass::X => i,
            SymmetryClass::I => i,
            SymmetryClass::Diagonal => 1 - i,
            SymmetryClass::T => if i % 2 == 0 {
                i
            } else {
                4 - i
            },
            SymmetryClass::L => if i % 2 == 0 {
                i + 1
            } else {
                i - 1
            },
            SymmetryClass::F => if i < 4 {
                i + 4
            } else {
                i - 4
            },
        }
    }

    pub fn cardinality(self) -> (n: usize)
        ensures
            n == self.spec_cardinality(),
    {
        match self {
            SymmetryClass::X => 1,
            SymmetryClass::I => 2,
            SymmetryClass::Diagonal => 2,
            SymmetryClass::T => 4,
            SymmetryClass::L => 4,
            SymmetryClass::F => 8,
        }
    }

    pub fn rotate(self, i: usize) -> (r: usize)
        requires
            i < self.spec_cardinality(),
        ensures
            r == self.spec_rotate(i as int),
            r < self.spec_cardinality(),
    {
        match self {
            SymmetryClass::X => i,
            SymmetryClass::I => 1 - i,
            SymmetryClass::Diagonal => 1 - i,
            SymmetryClass::T => (i + 1) % 4,
            SymmetryClass::L => (i + 1) % 4,
            SymmetryClass::F => if i < 4 {
                (i + 1) % 4
            } else {
                4 + (i - 1) % 4
            },
        }
    }

    pub fn reflect(self, i: usize) -> (r: usize)
        requires
            i < self.spec_cardinality(),
        ensures
            r == self.spec_reflect(i as int),
            r < self.spec_cardinality(),
    {
        match self {
            SymmetryClass::X => i,
            SymmetryClass::I => i,
            SymmetryClass::Diagonal => 1 - i,
            SymmetryClass::T => if i % 2 == 0 {
                i
            } else {
                4 - i
            },
            SymmetryClass::L => if i % 2 == 0 {
                i + 1
            } else {
                i - 1
            },
            SymmetryClass::F => if i < 4 {
                i + 4
            } else {
                i - 4
            },
        }
    }
}

/// Whether a symmetry tag is one of the six recognized class names.
pub open spec fn spec_tag_recognized(s: Seq<char>) -> bool {
    s == "X"@ || s == "I"@ || s == "\\"@ || s == "T"@ || s == "L"@ || s == "F"@
}

/// The class a symmetry tag denotes; an unrecognized tag falls back to
/// full symmetry.
pub open spec fn spec_class_of_tag(s: Seq<char>) -> SymmetryClass {
    if s == "I"@ {
        SymmetryClass::I
    } else if s == "\\"@ {
        SymmetryClass::Diagonal
    } else if s == "T"@ {
        SymmetryClass::T
    } else if s == "L"@ {
        SymmetryClass::L
    } else if s == "F"@ {
        SymmetryClass::F
    } else {
        SymmetryClass::X
    }
}

impl SymmetryClass {
    /// Resolves a symmetry tag. The flag says whether the tag was
    /// recognized; an unrecognized one falls back to full symmetry, which
    /// callers report as a non-fatal warning.
    pub fn from_tag(tag: &str) -> (r: (SymmetryClass, bool))
        ensures
            r.0 == spec_class_of_tag(tag@),
            r.1 == spec_tag_recognized(tag@),
    {
        if crate::text::str_eq(tag, "I") {
            (SymmetryClass::I, true)
        } else if crate::text::str_eq(tag, "\\") {
            (SymmetryClass::Diagonal, true)
        } else if crate::text::str_eq(tag, "T") {
            (SymmetryClass::T, true)
        } else if crate::text::str_eq(tag, "L") {
            (SymmetryClass::L, true)
        } else if crate::text::str_eq(tag, "F") {
            (SymmetryClass::F, true)
        } else if crate::text::str_eq(tag, "X") {
            (SymmetryClass::X, true)
        } else {
            (SymmetryClass::X, false)
        }
    }
}

/// Both permutations keep a valid local index valid.
pub proof fn lemma_ops_in_range(c: SymmetryClass, i: int)
    requires
        0 <= i < c.spec_cardinality(),
    ensures
        0 <= c.spec_rotate(i) < c.spec_cardinality(),
        0 <= c.spec_reflect(i) < c.spec_cardinality(),
{
}

/// `rotate` applied `n` times to local index `i`.
pub open spec fn spec_rotate_n(c: SymmetryClass, i: int, n: nat) -> int
    decreases n,
{
    if n == 0 {
        i
    } else {
        c.spec_rotate(spec_rotate_n(c, i, (n - 1) as nat))
    }
}

/// Law: for every symmetry class, `rotate` applied `cardinality` times to
/// any valid local index returns that index (cycle closure).
pub proof fn lemma_rotate_cycle_closure(c: SymmetryClass, i: int)
    requires
        0 <= i < c.spec_cardinality(),
    ensures
        spec_rotate_n(c, i, c.spec_cardinality() as nat) == i,
{
    reveal_with_fuel(spec_rotate_n, 9);
    match c {
        SymmetryClass::X => {
        },
        SymmetryClass::I => {
        },
        SymmetryClass::Diagonal => {
        },
        SymmetryClass::T | SymmetryClass::L => {
            if i == 0 {
                assert(spec_rotate_n(c, 0, 4) == 0);
            } else if i == 1 {
                assert(spec_rotate_n(c, 1, 4) == 1);
            } else if i == 2 {
                assert(spec_rotate_n(c, 2, 4) == 2);
            } else {
                assert(spec_rotate_n(c, 3, 4) == 3);
            }
        },
        SymmetryClass::F => {
            if i == 0 {
                assert(spec_rotate_n(c, 0, 8) == 0);
            } else if i == 1 {
                assert(spec_rotate_n(c, 1, 8) == 1);
            } else if i == 2 {
                assert(spec_rotate_n(c, 2, 8) == 2);
            } else if i == 3 {
                assert(spec_rotate_n(c, 3, 8) == 3);
            } else if i == 4 {
                assert(spec_rotate_n(c, 4, 8) == 4);
            } else if i == 5 {
                assert(spec_rotate_n(c, 5, 8) == 5);
            } else if i == 6 {
                assert(spec_rotate_n(c, 6, 8) == 6);
            } else {
                assert(spec_rotate_n(c, 7, 8) == 7);
            }
        },
    }
}

/// Law: for every symmetry class, `reflect` composed with itself is the
/// identity on the valid local indices (involution).
pub proof fn lemma_reflect_involution(c: SymmetryClass, i: int)
    requires
        0 <= i < c.spec_cardinality(),
    ensures
        c.spec_reflect(c.spec_reflect(i)) == i,
{
}

} // verus!

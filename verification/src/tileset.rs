//! The tileset model: registered tiles, the per-orientation action table,
//! the name index and the adjacency edges.
//!
//! Registration assigns each tile a contiguous block of global orientation
//! indices and fills one action-table row per orientation. Row `offset + t`
//! holds, for each of the eight elementary symmetry operations (four
//! rotations, each optionally reflected), the global index that orientation
//! `offset + t` maps to; all of them stay within the owning tile's block.

use vstd::prelude::*;

use crate::symmetry::lemma_ops_in_range;
use crate::symmetry::SymmetryClass;

verus! {

/// One tile declaration: a unique name, a symmetry class and a weight.
/// The weight is kept as the declared text (defaulting to `1.0`); its
/// numeric interpretation belongs to the solver.
#[derive(Clone, Debug)]
pub struct Tile {
    pub name: String,
    pub symmetry: SymmetryClass,
    pub weight: String,
}

/// Name-index entry: the tile's name, the first global orientation index of
/// its block (its offset) and the block's length (the symmetry class's
/// cardinality).
#[derive(Clone, Debug)]
pub struct NameEntry {
    pub name: String,
    pub offset: usize,
    pub cardinality: usize,
}

/// A compass direction an adjacency edge points along.
#[derive(Clone, Copy, Debug, PartialEq, Eq, Structural)]
pub enum Direction {
    North,
    East,
    South,
    West,
}

/// A directed compatibility statement: `left` may sit immediately in
/// `direction` from `right`.
#[derive(Clone, Copy, Debug, PartialEq, Eq, Structural)]
pub struct AdjacencyEdge {
    pub direction: Direction,
    pub left: usize,
    pub right: usize,
}

/// The direction carried by the edge derived at rotation step `k`: the
/// reference direction (East of left / West of right) advances one compass
/// step counterclockwise per quarter-turn rotation of both sides.
pub open spec fn spec_dir_of_step(k: int) -> Direction {
    if k == 0 {
        Direction::East
    } else if k == 1 {
        Direction::North
    } else if k == 2 {
        Direction::West
    } else {
        Direction::South
    }
}

pub fn dir_of_step(k: usize) -> (d: Direction)
    requires
        k < 4,
    ensures
        d == spec_dir_of_step(k as int),
{
    if k == 0 {
        Direction::East
    } else if k == 1 {
        Direction::North
    } else if k == 2 {
        Direction::West
    } else {
        Direction::South
    }
}

/// Column `j` of the action row of local orientation `t`: the four rotation
/// powers, then the four rotation powers followed by the reflection.
pub open spec fn action_entry(c: SymmetryClass, t: int, j: int) -> int {
    if j == 0 {
        t
    } else if j == 1 {
        c.spec_rotate(t)
    } else if j == 2 {
        c.spec_rotate(c.spec_rotate(t))
    } else if j == 3 {
        c.spec_rotate(c.spec_rotate(c.spec_rotate(t)))
    } else if j == 4 {
        c.spec_reflect(t)
    } else if j == 5 {
        c.spec_reflect(c.spec_rotate(t))
    } else if j == 6 {
        c.spec_reflect(c.spec_rotate(c.spec_rotate(t)))
    } else {
        c.spec_reflect(c.spec_rotate(c.spec_rotate(c.spec_rotate(t))))
    }
}

pub proof fn lemma_action_entry_in_range(c: SymmetryClass, t: int, j: int)
    requires
        0 <= t < c.spec_cardinality(),
        0 <= j < 8,
    ensures
        0 <= action_entry(c, t, j) < c.spec_cardinality(),
{
    lemma_ops_in_range(c, t);
    lemma_ops_in_range(c, c.spec_rotate(t));
    lemma_ops_in_range(c, c.spec_rotate(c.spec_rotate(t)));
    lemma_ops_in_range(c, c.spec_rotate(c.spec_rotate(c.spec_rotate(t))));
}

/// The first name-index entry with the given name, in registration order.
pub open spec fn spec_find_name(entries: Seq<NameEntry>, name: Seq<char>) -> Option<NameEntry>
    decreases entries.len(),
{
    if entries.len() == 0 {
        None
    } else if entries[0].name@ == name {
        Some(entries[0])
    } else {
        spec_find_name(entries.drop_first(), name)
    }
}

pub proof fn lemma_find_name_none(entries: Seq<NameEntry>, name: Seq<char>)
    requires
        spec_find_name(entries, name) is None,
    ensures
        forall|k: int| 0 <= k < entries.len() ==> (#[trigger] entries[k]).name@ != name,
    decreases entries.len(),
{
    if entries.len() > 0 {
        lemma_find_name_none(entries.drop_first(), name);
        assert(forall|k: int|
            1 <= k < entries.len() ==> (#[trigger] entries[k]) == entries.drop_first()[k - 1]);
    }
}

/// What one resolved adjacency declaration does to the edge list: exactly
/// four edges are appended, one per compass direction; the edge of
/// rotation step `k` connects both sides' images under `k` quarter turns
/// and points along the reference direction advanced by `k` compass steps,
/// so the edge of step `0` carries exactly the resolved pair.
pub open spec fn spec_expanded(s0: Tileset, s1: Tileset, left: int, right: int) -> bool {
    &&& s1.tiles@ == s0.tiles@
    &&& s1.offsets@ == s0.offsets@
    &&& s1.action@ == s0.action@
    &&& s1.edges@.len() == s0.edges@.len() + 4
    &&& (forall|i: int| 0 <= i < s0.edges@.len() ==> (#[trigger] s1.edges@[i]) == s0.edges@[i])
    &&& (forall|i: int|
        s0.edges@.len() <= i < s0.edges@.len() + 4 ==> (#[trigger] s1.edges@[i])
            == (AdjacencyEdge {
            direction: spec_dir_of_step(i - s0.edges@.len()),
            left: s0.action@[left]@[i - s0.edges@.len()] as usize,
            right: s0.action@[right]@[i - s0.edges@.len()] as usize,
        }))
}

/// What a successful registration does: appends the tile and its name-index
/// entry, and extends the action table by one block of rows built from
/// `action_entry`, leaving everything else unchanged.
pub open spec fn spec_registered(
    s0: Tileset,
    s1: Tileset,
    name: String,
    c: SymmetryClass,
    weight: String,
) -> bool {
    &&& s1.tiles@ == s0.tiles@.push(Tile { name, symmetry: c, weight })
    &&& s1.offsets@ == s0.offsets@.push(
        NameEntry {
            name,
            offset: s0.action@.len() as usize,
            cardinality: c.spec_cardinality() as usize,
        },
    )
    &&& s1.action@.len() == s0.action@.len() + c.spec_cardinality()
    &&& (forall|i: int| 0 <= i < s0.action@.len() ==> (#[trigger] s1.action@[i]) == s0.action@[i])
    &&& (forall|t: int, j: int|
        0 <= t < c.spec_cardinality() && 0 <= j < 8 ==> (#[trigger] s1.action@[s0.action@.len()
            + t]@[j]) == s0.action@.len() + action_entry(c, t, j))
    &&& s1.edges@ == s0.edges@
}

/// Registration appends one name-index entry and one tile, and extends the
/// action table by one block of rows built from `action_entry`; everything
/// well-formed stays well-formed.
proof fn lemma_register_preserves_wf(
    s0: Tileset,
    s1: Tileset,
    name: String,
    symmetry: SymmetryClass,
    weight: String,
)
    requires
        s0.wf(),
        spec_find_name(s0.offsets@, name@) is None,
        s0.action@.len() + 8 <= usize::MAX,
        s1.offsets@ == s0.offsets@.push(
            NameEntry {
                name,
                offset: s0.action@.len() as usize,
                cardinality: symmetry.spec_cardinality() as usize,
            },
        ),
        s1.tiles@ == s0.tiles@.push(Tile { name, symmetry, weight }),
        s1.action@.len() == s0.action@.len() + symmetry.spec_cardinality(),
        forall|i: int| 0 <= i < s0.action@.len() ==> (#[trigger] s1.action@[i]) == s0.action@[i],
        forall|t: int, j: int|
            0 <= t < symmetry.spec_cardinality() && 0 <= j < 8 ==> (#[trigger] s1.action@[
                s0.action@.len() + t
            ]@[j]) == s0.action@.len() + action_entry(symmetry, t, j),
        s1.edges@ == s0.edges@,
    ensures
        s1.wf(),
{
    let len0 = s0.offsets@.len() as int;
    let off = s0.action@.len() as int;
    let card = symmetry.spec_cardinality();
    let e = NameEntry { name, offset: off as usize, cardinality: card as usize };
    let tile = Tile { name, symmetry, weight };
    lemma_find_name_none(s0.offsets@, name@);
    assert forall|t: int, j: int|
        0 <= t < card && 0 <= j < 8 implies 0 <= #[trigger] action_entry(symmetry, t, j)
        < card by {
        lemma_action_entry_in_range(symmetry, t, j);
    }
    assert forall|k: int| 0 <= k < len0 implies (#[trigger] s1.offsets@[k]) == s0.offsets@[k] by {}
    assert(s1.offsets@[len0] == e);
    assert forall|k: int| 0 <= k < len0 implies (#[trigger] s1.tiles@[k]) == s0.tiles@[k] by {}
    assert(s1.tiles@[len0] == tile);
    assert forall|k: int|
        0 <= k < s1.tiles@.len() implies {
        &&& (#[trigger] s1.offsets@[k]).name@ == s1.tiles@[k].name@
        &&& s1.offsets@[k].cardinality == s1.tiles@[k].symmetry.spec_cardinality()
        &&& s1.offsets@[k].offset + s1.offsets@[k].cardinality <= s1.action@.len()
    } by {
        if k < len0 {
            assert(s1.offsets@[k] == s0.offsets@[k]);
            assert(s1.tiles@[k] == s0.tiles@[k]);
        }
    }
    if len0 > 0 {
        assert(s0.action@.len() == s0.offsets@.last().offset + s0.offsets@.last().cardinality);
        assert(s1.offsets@[0] == s0.offsets@[0]);
    }
    assert forall|k: int, l: int|
        #![trigger s1.offsets@[k], s1.offsets@[l]]
        0 <= k < s1.offsets@.len() && 0 <= l < s1.offsets@.len() && l == k + 1 implies s1.offsets@[
        l
    ].offset == s1.offsets@[k].offset + s1.offsets@[k].cardinality by {
        if l < len0 {
            assert(s1.offsets@[k] == s0.offsets@[k]);
            assert(s1.offsets@[l] == s0.offsets@[l]);
        } else {
            assert(s1.offsets@[l] == e);
            assert(s1.offsets@[k] == s0.offsets@[k]);
            assert(s0.offsets@[k] == s0.offsets@.last());
        }
    }
    assert(s1.wf_index());
    assert forall|k: int, t: int, j: int|
        0 <= k < s1.offsets@.len() && 0 <= t < s1.offsets@[k].cardinality && 0 <= j < 8 implies (
    #[trigger] s1.action@[s1.offsets@[k].offset + t]@[j]) == s1.offsets@[k].offset + action_entry(
        s1.tiles@[k].symmetry,
        t,
        j,
    ) by {
        if k < len0 {
            assert(s1.offsets@[k] == s0.offsets@[k]);
            assert(s1.tiles@[k] == s0.tiles@[k]);
            assert(s0.offsets@[k].offset + s0.offsets@[k].cardinality <= s0.action@.len());
            assert(s1.action@[s0.offsets@[k].offset + t] == s0.action@[s0.offsets@[k].offset + t]);
        } else {
            assert(s1.offsets@[k] == e);
            assert(s1.tiles@[k] == tile);
        }
    }
    assert forall|i: int, j: int|
        0 <= i < s1.action@.len() && 0 <= j < 8 implies (#[trigger] s1.action@[i]@[j])
        < s1.action@.len() by {
        if i < off {
            assert(s1.action@[i] == s0.action@[i]);
            assert(s0.action@[i]@[j] < s0.action@.len());
        } else {
            let t = i - off;
            assert(s1.action@[off + t]@[j] == off + action_entry(symmetry, t, j));
        }
    }
    assert forall|i: int| 0 <= i < s1.action@.len() implies (#[trigger] s1.action@[i]@[0])
        == i by {
        if i < off {
            assert(s1.action@[i] == s0.action@[i]);
        } else {
            let t = i - off;
            assert(s1.action@[off + t]@[0] == off + action_entry(symmetry, t, 0));
        }
    }
    assert(s1.wf_rows());
    assert(s1.wf_edges());
}

/// Outcome of one registration attempt.
#[derive(Clone, Copy, Debug, PartialEq, Eq, Structural)]
pub enum RegisterOutcome {
    Registered,
    DuplicateName,
    /// The global orientation index space (bounded by `usize`) is exhausted.
    CapacityExceeded,
}

/// The root aggregate: the ordered tile list, the name index, the action
/// table and the adjacency edges. Built once by a load, read-only afterward.
#[derive(Debug)]
pub struct Tileset {
    pub tiles: Vec<Tile>,
    pub offsets: Vec<NameEntry>,
    pub action: Vec<[usize; 8]>,
    pub edges: Vec<AdjacencyEdge>,
}

impl Tileset {
    /// The name index matches the tile list one to one, blocks are
    /// contiguous (the first starts at zero, each next one where the
    /// previous ended) and in registration order cover the action table
    /// exactly, and names are unique.
    pub open spec fn wf_index(self) -> bool {
        &&& self.offsets@.len() == self.tiles@.len()
        &&& forall|k: int|
            0 <= k < self.tiles@.len() ==> {
                &&& (#[trigger] self.offsets@[k]).name@ == self.tiles@[k].name@
                &&& self.offsets@[k].cardinality == self.tiles@[k].symmetry.spec_cardinality()
                &&& self.offsets@[k].offset + self.offsets@[k].cardinality <= self.action@.len()
            }
        &&& (self.offsets@.len() > 0 ==> self.offsets@[0].offset == 0)
        &&& forall|k: int, l: int|
            #![trigger self.offsets@[k], self.offsets@[l]]
            0 <= k < self.offsets@.len() && 0 <= l < self.offsets@.len() && l == k + 1
                ==> self.offsets@[l].offset == self.offsets@[k].offset
                + self.offsets@[k].cardinality
        &&& self.action@.len() == (if self.offsets@.len() == 0 {
            0int
        } else {
            self.offsets@.last().offset + self.offsets@.last().cardinality
        })
        &&& forall|k: int, l: int|
            #![trigger self.offsets@[k], self.offsets@[l]]
            0 <= k < l < self.offsets@.len() ==> self.offsets@[k].name@ != self.offsets@[l].name@
    }

    /// Every row of a tile's block holds the block's images under the eight
    /// operations, every table entry points back into the table, and the
    /// trivial operation is the identity.
    pub open spec fn wf_rows(self) -> bool {
        &&& forall|k: int, t: int, j: int|
            0 <= k < self.offsets@.len() && 0 <= t < self.offsets@[k].cardinality && 0 <= j < 8
                ==> (#[trigger] self.action@[self.offsets@[k].offset + t]@[j]) == self.offsets@[
                k
            ].offset + action_entry(self.tiles@[k].symmetry, t, j)
        &&& forall|i: int, j: int|
            0 <= i < self.action@.len() && 0 <= j < 8 ==> (#[trigger] self.action@[i]@[j])
                < self.action@.len()
        &&& forall|i: int| 0 <= i < self.action@.len() ==> (#[trigger] self.action@[i]@[0]) == i
    }

    /// Every adjacency edge connects two action-table rows.
    pub open spec fn wf_edges(self) -> bool {
        forall|i: int|
            0 <= i < self.edges@.len() ==> {
                &&& (#[trigger] self.edges@[i]).left < self.action@.len()
                &&& self.edges@[i].right < self.action@.len()
            }
    }

    /// Well-formedness of the whole model.
    pub open spec fn wf(self) -> bool {
        self.wf_index() && self.wf_rows() && self.wf_edges()
    }

    /// A model with nothing in it.
    pub open spec fn spec_is_empty(self) -> bool {
        &&& self.tiles@.len() == 0
        &&& self.offsets@.len() == 0
        &&& self.action@.len() == 0
        &&& self.edges@.len() == 0
    }

    /// Index of the name-index entry for `name`, if the name is registered.
    pub fn lookup(&self, name: &String) -> (r: Option<usize>)
        ensures
            match r {
                Some(i) => 0 <= i < self.offsets@.len() && spec_find_name(self.offsets@, name@)
                    == Some(self.offsets@[i as int]),
                None => spec_find_name(self.offsets@, name@) is None,
            },
    {
        let n = self.offsets.len();
        proof {
            assert(self.offsets@.skip(0) =~= self.offsets@);
        }
        let mut i: usize = 0;
        while i < n
            invariant
                0 <= i <= n,
                n == self.offsets@.len(),
                spec_find_name(self.offsets@, name@) == spec_find_name(
                    self.offsets@.skip(i as int),
                    name@,
                ),
            decreases n - i,
        {
            if crate::text::str_eq(self.offsets[i].name.as_str(), name.as_str()) {
                proof {
                    assert(self.offsets@.skip(i as int)[0] == self.offsets@[i as int]);
                }
                return Some(i);
            }
            proof {
                assert(self.offsets@.skip(i as int).drop_first() =~= self.offsets@.skip(
                    i as int + 1,
                ));
                assert(self.offsets@.skip(i as int)[0] == self.offsets@[i as int]);
            }
            i += 1;
        }
        proof {
            assert(self.offsets@.skip(n as int).len() == 0);
        }
        None
    }

    /// Registers a tile: reserves `cardinality` fresh consecutive global
    /// orientation indices starting at the number of indices issued so far,
    /// records the name-index entry, fills one action row per fresh index
    /// and appends the tile. A duplicate name registers nothing.
    #[verifier::rlimit(100)]
    #[verifier::spinoff_prover]
    pub fn register(&mut self, name: String, symmetry: SymmetryClass, weight: String) -> (r:
        RegisterOutcome)
        requires
            old(self).wf(),
        ensures
            final(self).wf(),
            (r == RegisterOutcome::DuplicateName) == (spec_find_name(old(self).offsets@, name@)
                is Some),
            (r == RegisterOutcome::CapacityExceeded) == (spec_find_name(
                old(self).offsets@,
                name@,
            ) is None && old(self).action@.len() + 8 > usize::MAX),
            r != RegisterOutcome::Registered ==> *final(self) == *old(self),
            r == RegisterOutcome::Registered ==> spec_registered(
                *old(self),
                *final(self),
                name,
                symmetry,
                weight,
            ),
    {
        if self.lookup(&name).is_some() {
            return RegisterOutcome::DuplicateName;
        }
        if self.action.len() > usize::MAX - 8 {
            return RegisterOutcome::CapacityExceeded;
        }
        let offset = self.action.len();
        let card = symmetry.cardinality();
        self.offsets.push(NameEntry { name: name.clone(), offset, cardinality: card });
        let mut t: usize = 0;
        while t < card
            invariant
                0 <= t <= card,
                card == symmetry.spec_cardinality(),
                offset == old(self).action@.len(),
                offset + 8 <= usize::MAX,
                self.offsets@ == old(self).offsets@.push(
                    NameEntry { name: name, offset: offset, cardinality: card },
                ),
                self.tiles@ == old(self).tiles@,
                self.edges@ == old(self).edges@,
                self.action@.len() == offset + t,
                forall|i: int| 0 <= i < offset ==> (#[trigger] self.action@[i]) == old(
                    self,
                ).action@[i],
                forall|t2: int, j: int|
                    0 <= t2 < t && 0 <= j < 8 ==> (#[trigger] self.action@[offset + t2]@[j])
                        == offset + action_entry(symmetry, t2, j),
            decreases card - t,
        {
            let r1 = symmetry.rotate(t);
            let r2 = symmetry.rotate(r1);
            let r3 = symmetry.rotate(r2);
            let row: [usize; 8] = [
                offset + t,
                offset + r1,
                offset + r2,
                offset + r3,
                offset + symmetry.reflect(t),
                offset + symmetry.reflect(r1),
                offset + symmetry.reflect(r2),
                offset + symmetry.reflect(r3),
            ];
            self.action.push(row);
            proof {
                assert forall|j: int| 0 <= j < 8 implies #[trigger] self.action@[offset + t]@[j]
                    == offset + action_entry(symmetry, t as int, j) by {
                    assert(self.action@[offset + t] == row);
                }
            }
            t += 1;
        }
        self.tiles.push(Tile { name, symmetry, weight });
        proof {
            lemma_register_preserves_wf(*old(self), *self, name, symmetry, weight);
        }
        RegisterOutcome::Registered
    }

    /// Appends the four directed edges a resolved adjacency declaration
    /// expands to: for rotation step `k` in `0..4`, both sides rotated `k`
    /// quarter turns via the action table's rotation columns, pointing
    /// along the reference direction advanced by `k` compass steps.
    #[verifier::rlimit(100)]
    #[verifier::spinoff_prover]
    pub fn expand_neighbour(&mut self, left: usize, right: usize)
        requires
            old(self).wf(),
            left < old(self).action@.len(),
            right < old(self).action@.len(),
        ensures
            final(self).wf(),
            spec_expanded(*old(self), *final(self), left as int, right as int),
            final(self).edges@[old(self).edges@.len() as int] == (AdjacencyEdge {
                direction: Direction::East,
                left,
                right,
            }),
    {
        let mut k: usize = 0;
        while k < 4
            invariant
                0 <= k <= 4,
                old(self).wf(),
                left < old(self).action@.len(),
                right < old(self).action@.len(),
                self.tiles@ == old(self).tiles@,
                self.offsets@ == old(self).offsets@,
                self.action@ == old(self).action@,
                self.edges@.len() == old(self).edges@.len() + k,
                forall|i: int| 0 <= i < old(self).edges@.len() ==> (#[trigger] self.edges@[i])
                    == old(self).edges@[i],
                forall|i: int|
                    old(self).edges@.len() <= i < old(self).edges@.len() + k ==> (
                    #[trigger] self.edges@[i]) == (AdjacencyEdge {
                        direction: spec_dir_of_step(i - old(self).edges@.len()),
                        left: old(self).action@[left as int]@[i - old(self).edges@.len()] as usize,
                        right: old(self).action@[right as int]@[i - old(
                            self,
                        ).edges@.len()] as usize,
                    }),
            decreases 4 - k,
        {
            let edge = AdjacencyEdge {
                direction: dir_of_step(k),
                left: self.action[left][k],
                right: self.action[right][k],
            };
            self.edges.push(edge);
            k += 1;
        }
        proof {
            assert forall|i: int|
                0 <= i < self.edges@.len() implies ((#[trigger] self.edges@[i]).left
                < self.action@.len() && self.edges@[i].right < self.action@.len()) by {
                if i < old(self).edges@.len() {
                    assert(self.edges@[i] == old(self).edges@[i]);
                } else {
                    let k2 = i - old(self).edges@.len();
                    assert(old(self).action@[left as int]@[k2] < old(self).action@.len());
                    assert(old(self).action@[right as int]@[k2] < old(self).action@.len());
                }
            }
            assert(self.wf());
            assert(old(self).action@[left as int]@[0] == left);
            assert(old(self).action@[right as int]@[0] == right);
            assert(self.edges@[old(self).edges@.len() as int] == (AdjacencyEdge {
                direction: spec_dir_of_step(0),
                left: old(self).action@[left as int]@[0] as usize,
                right: old(self).action@[right as int]@[0] as usize,
            }));
        }
    }
}

impl Default for Tileset {
    /// The empty tileset.
    fn default() -> (r: Tileset)
        ensures
            r.wf(),
            r.tiles@.len() == 0,
            r.offsets@.len() == 0,
            r.action@.len() == 0,
            r.edges@.len() == 0,
    {
        Tileset { tiles: Vec::new(), offsets: Vec::new(), action: Vec::new(), edges: Vec::new() }
    }
}

/// Law: for every registered tile, the trivial operation maps the block's
/// first orientation to itself, and all eight entries of every row of the
/// block lie within `[offset, offset + cardinality)`.
pub proof fn lemma_action_rows_within_block(ts: Tileset, k: int)
    requires
        ts.wf(),
        0 <= k < ts.offsets@.len(),
    ensures
        ts.action@[ts.offsets@[k].offset as int]@[0] == ts.offsets@[k].offset,
        forall|t: int, j: int|
            0 <= t < ts.offsets@[k].cardinality && 0 <= j < 8 ==> ts.offsets@[k].offset <= (
            #[trigger] ts.action@[ts.offsets@[k].offset + t]@[j]) < ts.offsets@[k].offset
                + ts.offsets@[k].cardinality,
{
    assert(ts.offsets@[k].cardinality == ts.tiles@[k].symmetry.spec_cardinality());
    assert(ts.tiles@[k].symmetry.spec_cardinality() >= 1);
    assert(ts.action@[ts.offsets@[k].offset + 0]@[0] == ts.offsets@[k].offset + action_entry(
        ts.tiles@[k].symmetry,
        0,
        0,
    ));
    assert forall|t: int, j: int|
        0 <= t < ts.offsets@[k].cardinality && 0 <= j < 8 implies ts.offsets@[k].offset <= (
    #[trigger] ts.action@[ts.offsets@[k].offset + t]@[j]) < ts.offsets@[k].offset + ts.offsets@[
        k
    ].cardinality by {
        lemma_action_entry_in_range(ts.tiles@[k].symmetry, t, j);
        assert(ts.action@[ts.offsets@[k].offset + t]@[j] == ts.offsets@[k].offset + action_entry(
            ts.tiles@[k].symmetry,
            t,
            j,
        ));
    }
}

/// Law: registering tiles in sequence never reuses or skips an orientation
/// index: each block starts where the previous one ended, the first block
/// starts at zero, and the blocks exactly cover the action table.
pub proof fn lemma_blocks_contiguous(ts: Tileset, k: int)
    requires
        ts.wf(),
        0 <= k < ts.offsets@.len(),
    ensures
        ts.offsets@[k].offset == (if k == 0 {
            0int
        } else {
            ts.offsets@[k - 1].offset + ts.offsets@[k - 1].cardinality
        }),
        ts.offsets@[k].offset + ts.offsets@[k].cardinality <= ts.action@.len(),
{
    if k > 0 {
        let prev = ts.offsets@[k - 1];
        let here = ts.offsets@[k];
        assert(here.offset == prev.offset + prev.cardinality);
    }
}

} // verus!

//! The beam: a bar that carries axial force and bending in the plane.

use crate::linalg::{
    coo_add_value, coo_entries, coo_in_bounds, coo_multiply, coo_new, coo_product, coo_shape,
    coo_transposed, is_zero, mirrored, vector_entries,
};
use sparse_matrix::matrix::coo_mat::CooMat;
use sparse_matrix::vector::Vector;
use vstd::prelude::*;

verus! {

/// Place among the terms of a beam of its axial stiffness `E S / L`.
pub const AXIAL: usize = 0;

/// Place of the negative of the axial stiffness.
pub const AXIAL_NEG: usize = 1;

/// Place of `12 k`, with `k` the bending stiffness `E I / L^3`.
pub const SHEAR: usize = 2;

/// Place of `-12 k`.
pub const SHEAR_NEG: usize = 3;

/// Place of `6 L k`.
pub const COUPLING: usize = 4;

/// Place of `-6 L k`.
pub const COUPLING_NEG: usize = 5;

/// Place of `4 L^2 k`.
pub const NEAR: usize = 6;

/// Place of `2 L^2 k`.
pub const FAR: usize = 7;

/// Place of the cosine of the angle between the beam and the first axis.
pub const COS: usize = 8;

/// Place of the sine of that angle.
pub const SIN: usize = 9;

/// Place of the negative of the sine.
pub const SIN_NEG: usize = 10;

/// Place of the double `1.0`.
pub const ONE: usize = 11;

/// How many terms a beam has.
pub const BEAM_TERMS: usize = 12;

/// A beam between two nodes, by its terms: the eight coefficients of its stiffness along its
/// own axis and the four of its rotation into the plane, each at its place.
#[derive(Debug, PartialEq)]
pub struct Beam {
    pub terms: Vector,
}

/// The term that stands in row `p` and column `q` of the stiffness of a beam along its own
/// axis, or `-1` where nothing stands. Rows and columns `0`, `1`, `2` are the axial
/// translation, the transverse translation and the rotation of the first node; `3`, `4`, `5`
/// those of the second.
#[verifier::opaque]
pub open spec fn stiffness_pattern(p: int, q: int) -> int {
    if p == 0 {
        if q == 0 {
            AXIAL as int
        } else if q == 3 {
            AXIAL_NEG as int
        } else {
            -1
        }
    } else if p == 1 {
        if q == 1 {
            SHEAR as int
        } else if q == 2 {
            COUPLING as int
        } else if q == 4 {
            SHEAR_NEG as int
        } else if q == 5 {
            COUPLING as int
        } else {
            -1
        }
    } else if p == 2 {
        if q == 1 {
            COUPLING as int
        } else if q == 2 {
            NEAR as int
        } else if q == 4 {
            COUPLING_NEG as int
        } else if q == 5 {
            FAR as int
        } else {
            -1
        }
    } else if p == 3 {
        if q == 0 {
            AXIAL_NEG as int
        } else if q == 3 {
            AXIAL as int
        } else {
            -1
        }
    } else if p == 4 {
        if q == 1 {
            SHEAR_NEG as int
        } else if q == 2 {
            COUPLING_NEG as int
        } else if q == 4 {
            SHEAR as int
        } else if q == 5 {
            COUPLING_NEG as int
        } else {
            -1
        }
    } else if p == 5 {
        if q == 1 {
            COUPLING as int
        } else if q == 2 {
            FAR as int
        } else if q == 4 {
            COUPLING_NEG as int
        } else if q == 5 {
            NEAR as int
        } else {
            -1
        }
    } else {
        -1
    }
}

/// The term that stands in row `p` and column `q` of the rotation of a beam, or `-1` where
/// nothing stands: for each node the two translations are turned by the angle of the beam,
/// and the rotation is kept.
#[verifier::opaque]
pub open spec fn rotation_pattern(p: int, q: int) -> int {
    if 0 <= p < 6 && 0 <= q < 6 && p / 3 == q / 3 {
        if p % 3 == 0 && q % 3 == 0 {
            COS as int
        } else if p % 3 == 0 && q % 3 == 1 {
            SIN as int
        } else if p % 3 == 1 && q % 3 == 0 {
            SIN_NEG as int
        } else if p % 3 == 1 && q % 3 == 1 {
            COS as int
        } else if p % 3 == 2 && q % 3 == 2 {
            ONE as int
        } else {
            -1
        }
    } else {
        -1
    }
}

/// One of the two patterns of a beam.
pub open spec fn pattern(rotation: bool, p: int, q: int) -> int {
    if rotation {
        rotation_pattern(p, q)
    } else {
        stiffness_pattern(p, q)
    }
}

/// The row or column of the pattern that row or column `r` of the global matrix stands for,
/// for a beam whose nodes have their blocks at `ox` and `oy`.
pub open spec fn local(ox: int, oy: int, r: int) -> int {
    if ox <= r < ox + 3 {
        r - ox
    } else {
        r - oy + 3
    }
}

/// Whether row or column `r` belongs to one of the two blocks.
pub open spec fn in_blocks(ox: int, oy: int, r: int) -> bool {
    ox <= r < ox + 3 || oy <= r < oy + 3
}

/// A pattern laid over the blocks at `ox` and `oy`: each slot for which the pattern names a
/// term holds that term, unless the term is a zero.
pub open spec fn pattern_entries(rotation: bool, ox: int, oy: int, terms: Seq<u64>) -> Map<
    (int, int),
    u64,
> {
    Map::new(
        |k: (int, int)|
            in_blocks(ox, oy, k.0) && in_blocks(ox, oy, k.1) && pattern(
                rotation,
                local(ox, oy, k.0),
                local(ox, oy, k.1),
            ) >= 0 && !is_zero(
                terms[pattern(rotation, local(ox, oy, k.0), local(ox, oy, k.1))],
            ),
        |k: (int, int)| terms[pattern(rotation, local(ox, oy, k.0), local(ox, oy, k.1))],
    )
}

/// The part of `pattern_entries` that is in place once the rows before `p`, and the columns
/// before `q` of row `p`, have been dealt with.
spec fn pattern_partial(rotation: bool, ox: int, oy: int, terms: Seq<u64>, p: int, q: int) -> Map<
    (int, int),
    u64,
> {
    Map::new(
        |k: (int, int)|
            pattern_entries(rotation, ox, oy, terms).contains_key(k) && (local(ox, oy, k.0) < p || (
            local(ox, oy, k.0) == p && local(ox, oy, k.1) < q)),
        |k: (int, int)| terms[pattern(rotation, local(ox, oy, k.0), local(ox, oy, k.1))],
    )
}

/// `e` with a double put into a free slot, unless the double is a zero.
spec fn placed(e: Map<(int, int), u64>, key: (int, int), bits: u64) -> Map<(int, int), u64> {
    if is_zero(bits) {
        e
    } else {
        e.insert(key, bits)
    }
}

/// The global row or column that stands for row or column `p` of the pattern.
spec fn global(ox: int, oy: int, p: int) -> int {
    if p < 3 {
        ox + p
    } else {
        oy + (p - 3)
    }
}

/// One slot of the pattern carries the partial matrix on by one column.
proof fn lemma_pattern_step(
    rotation: bool,
    ox: int,
    oy: int,
    t: Seq<u64>,
    p: int,
    q: int,
    e0: Map<(int, int), u64>,
    e1: Map<(int, int), u64>,
)
    requires
        0 <= p < 6,
        0 <= q < 6,
        ox + 3 <= oy || oy + 3 <= ox,
        e0 == pattern_partial(rotation, ox, oy, t, p, q),
        e1 == if pattern(rotation, p, q) >= 0 {
            placed(e0, (global(ox, oy, p), global(ox, oy, q)), t[pattern(rotation, p, q)])
        } else {
            e0
        },
    ensures
        e1 == pattern_partial(rotation, ox, oy, t, p, q + 1),
{
    let target = pattern_partial(rotation, ox, oy, t, p, q + 1);
    let key = (global(ox, oy, p), global(ox, oy, q));
    assert(local(ox, oy, key.0) == p && local(ox, oy, key.1) == q);
    assert(in_blocks(ox, oy, key.0) && in_blocks(ox, oy, key.1));
    assert forall|k: (int, int)| e1.contains_key(k) <==> target.contains_key(k) by {
        if in_blocks(ox, oy, k.0) && in_blocks(ox, oy, k.1) && local(ox, oy, k.0) == p && local(
            ox,
            oy,
            k.1,
        ) == q {
            assert(k == key);
        }
    }
    assert forall|k: (int, int)| e1.contains_key(k) implies e1[k] == target[k] by {}
    assert(e1 =~= target);
}

/// The term of a pattern at row `p` and column `q`, if there is one.
fn term_at(rotation: bool, p: usize, q: usize) -> (term: Option<usize>)
    requires
        p < 6,
        q < 6,
    ensures
        term is None <==> pattern(rotation, p as int, q as int) < 0,
        term matches Some(t) ==> t == pattern(rotation, p as int, q as int) && t < BEAM_TERMS,
{
    reveal(stiffness_pattern);
    reveal(rotation_pattern);
    if rotation {
        if p / 3 != q / 3 {
            None
        } else if p % 3 == 0 && q % 3 == 0 {
            Some(COS)
        } else if p % 3 == 0 && q % 3 == 1 {
            Some(SIN)
        } else if p % 3 == 1 && q % 3 == 0 {
            Some(SIN_NEG)
        } else if p % 3 == 1 && q % 3 == 1 {
            Some(COS)
        } else if p % 3 == 2 && q % 3 == 2 {
            Some(ONE)
        } else {
            None
        }
    } else {
        let a: usize = p % 3;
        let b: usize = q % 3;
        let same: bool = p / 3 == q / 3;
        let first: bool = p < 3;
        if a == 0 && b == 0 {
            if same {
                Some(AXIAL)
            } else {
                Some(AXIAL_NEG)
            }
        } else if a == 0 || b == 0 {
            None
        } else if a == 1 && b == 1 {
            if same {
                Some(SHEAR)
            } else {
                Some(SHEAR_NEG)
            }
        } else if a == 2 && b == 2 {
            if same {
                Some(NEAR)
            } else {
                Some(FAR)
            }
        } else if a == 1 {
            if first {
                Some(COUPLING)
            } else {
                Some(COUPLING_NEG)
            }
        } else {
            if q < 3 {
                Some(COUPLING)
            } else {
                Some(COUPLING_NEG)
            }
        }
    }
}

/// Lays a pattern over the blocks at `ox` and `oy` of an empty matrix.
fn pattern_matrix(rotation: bool, mat_size: usize, ox: usize, oy: usize, terms: &Vector) -> (k:
    CooMat)
    requires
        vector_entries(*terms).len() == BEAM_TERMS,
        ox + 3 <= mat_size,
        oy + 3 <= mat_size,
        ox + 3 <= oy || oy + 3 <= ox,
    ensures
        coo_shape(k) == (mat_size, mat_size),
        coo_entries(k) == pattern_entries(rotation, ox as int, oy as int, vector_entries(*terms)),
        coo_in_bounds(k),
{
    let ghost t = vector_entries(*terms);
    let mut k = coo_new(mat_size, mat_size);
    let mut p: usize = 0;
    assert(coo_entries(k) =~= pattern_partial(rotation, ox as int, oy as int, t, 0, 0));
    while p < 6
        invariant
            t == vector_entries(*terms),
            t.len() == BEAM_TERMS,
            ox + 3 <= mat_size,
            oy + 3 <= mat_size,
            ox + 3 <= oy || oy + 3 <= ox,
            p <= 6,
            coo_shape(k) == (mat_size, mat_size),
            coo_entries(k) == pattern_partial(rotation, ox as int, oy as int, t, p as int, 0),
        decreases 6 - p,
    {
        let row: usize = if p < 3 {
            ox + p
        } else {
            oy + (p - 3)
        };
        let mut q: usize = 0;
        while q < 6
            invariant
                t == vector_entries(*terms),
                t.len() == BEAM_TERMS,
                ox + 3 <= mat_size,
                oy + 3 <= mat_size,
                ox + 3 <= oy || oy + 3 <= ox,
                p < 6,
                q <= 6,
                row == if p < 3 {
                    ox + p
                } else {
                    oy + (p - 3)
                },
                coo_shape(k) == (mat_size, mat_size),
                coo_entries(k) == pattern_partial(
                    rotation,
                    ox as int,
                    oy as int,
                    t,
                    p as int,
                    q as int,
                ),
            decreases 6 - q,
        {
            let col: usize = if q < 3 {
                ox + q
            } else {
                oy + (q - 3)
            };
            let ghost e0 = coo_entries(k);
            match term_at(rotation, p, q) {
                Some(term) => {
                    coo_add_value(&mut k, row, col, terms, term);
                },
                None => {},
            }
            proof {
                assert(row == global(ox as int, oy as int, p as int));
                assert(col == global(ox as int, oy as int, q as int));
                assert(local(ox as int, oy as int, row as int) == p);
                assert(local(ox as int, oy as int, col as int) == q);
                assert(!e0.contains_key((row as int, col as int)));
                lemma_pattern_step(
                    rotation,
                    ox as int,
                    oy as int,
                    t,
                    p as int,
                    q as int,
                    e0,
                    coo_entries(k),
                );
            }
            q += 1;
        }
        p += 1;
        assert(coo_entries(k) =~= pattern_partial(rotation, ox as int, oy as int, t, p as int, 0));
    }
    assert(coo_entries(k) =~= pattern_entries(rotation, ox as int, oy as int, t));
    k
}

impl Beam {
    /// Whether this beam can be placed between nodes `x` and `y` of a structure of the given
    /// dimension in a matrix of `mat_size` rows and columns. A beam lies in the plane.
    pub open spec fn fits(&self, dimension: u8, mat_size: usize, x: usize, y: usize) -> bool {
        &&& dimension == 2
        &&& x != y
        &&& vector_entries(self.terms).len() == BEAM_TERMS
        &&& 3 * x + 3 <= mat_size
        &&& 3 * y + 3 <= mat_size
    }

    /// The stiffness of this beam along its own axis, laid over the blocks of nodes `x` and
    /// `y`.
    pub open spec fn local_stiffness(&self, x: usize, y: usize) -> Map<(int, int), u64> {
        pattern_entries(false, 3 * x, 3 * y, vector_entries(self.terms))
    }

    /// The rotation of this beam into the plane, laid over the blocks of nodes `x` and `y`.
    pub open spec fn rotation(&self, x: usize, y: usize) -> Map<(int, int), u64> {
        pattern_entries(true, 3 * x, 3 * y, vector_entries(self.terms))
    }

    /// The stiffness matrix of this beam between nodes `x` and `y`: with `K` its stiffness
    /// along its own axis and `R` its rotation, the transpose of `R` times the product of `K`
    /// and `R`.
    pub open spec fn stiffness(&self, mat_size: usize, x: usize, y: usize) -> Map<
        (int, int),
        u64,
    > {
        coo_product(
            mat_size,
            mat_size,
            mat_size,
            mirrored(self.rotation(x, y)),
            coo_product(
                mat_size,
                mat_size,
                mat_size,
                self.local_stiffness(x, y),
                self.rotation(x, y),
            ),
        )
    }

    /// The stiffness that the beam between nodes `i` and `j` brings to a global matrix of
    /// `mat_size` rows and columns, for a structure of the given dimension.
    pub fn get_matrix(&self, dimension: u8, mat_size: usize, i: usize, j: usize) -> (k: CooMat)
        requires
            self.fits(dimension, mat_size, i, j),
        ensures
            coo_shape(k) == (mat_size, mat_size),
            coo_entries(k) == self.stiffness(mat_size, i, j),
            coo_in_bounds(k),
    {
        self.get_2_d_matrix(mat_size, i, j)
    }

    /// In the plane: lays the stiffness along the axis of the beam and its rotation over the
    /// blocks of the two nodes, which start at `3 * x` and `3 * y`, and turns the first by
    /// the second.
    pub fn get_2_d_matrix(&self, mat_size: usize, x: usize, y: usize) -> (k: CooMat)
        requires
            self.fits(2, mat_size, x, y),
        ensures
            coo_shape(k) == (mat_size, mat_size),
            coo_entries(k) == self.stiffness(mat_size, x, y),
            coo_in_bounds(k),
    {
        let matrix = pattern_matrix(false, mat_size, 3 * x, 3 * y, &self.terms);
        let rotation = pattern_matrix(true, mat_size, 3 * x, 3 * y, &self.terms);
        let back = coo_transposed(&rotation);
        let turned = coo_multiply(&matrix, &rotation);
        coo_multiply(&back, &turned)
    }
}

} // verus!

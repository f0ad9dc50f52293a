//! The truss: a bar that carries axial force only.

use crate::linalg::{
    coo_add_value, coo_entries, coo_in_bounds, coo_new, coo_shape, is_zero, vector_entries,
};
use sparse_matrix::matrix::coo_mat::CooMat;
use sparse_matrix::vector::Vector;
use vstd::prelude::*;

verus! {

/// A truss between two nodes, by its stiffness terms.
///
/// With `n` axes, `k` the axial stiffness of the bar and `c` its direction cosines, `terms`
/// holds `2 * n * n` doubles: entry `i * n + j` is `k * c[i] * c[j]`, and entry
/// `n * n + i * n + j` is the negative of that.
#[derive(Debug, PartialEq)]
pub struct Truss {
    pub terms: Vector,
}

/// Whether `r` is one of the `axes` translations of the block that starts at `at`.
pub open spec fn in_block(at: int, axes: int, r: int) -> bool {
    at <= r < at + axes
}

/// The axis that row or column `r` stands for within the block of its end of the bar.
pub open spec fn axis_of(axes: int, ox: int, oy: int, r: int) -> int {
    if in_block(ox, axes, r) {
        r - ox
    } else {
        r - oy
    }
}

/// The term that a truss puts in slot `k`: the positive one where row and column belong to
/// the same end of the bar, the negative one where they belong to different ends.
pub open spec fn truss_term(axes: int, ox: int, oy: int, k: (int, int)) -> int {
    let i = axis_of(axes, ox, oy, k.0);
    let j = axis_of(axes, ox, oy, k.1);
    if in_block(ox, axes, k.0) == in_block(ox, axes, k.1) {
        i * axes + j
    } else {
        axes * axes + i * axes + j
    }
}

/// Whether slot `k` belongs to a truss with `axes` axes whose ends have their translations
/// at `ox` and at `oy`.
pub open spec fn truss_slot(axes: int, ox: int, oy: int, k: (int, int)) -> bool {
    (in_block(ox, axes, k.0) || in_block(oy, axes, k.0)) && (in_block(ox, axes, k.1) || in_block(
        oy,
        axes,
        k.1,
    ))
}

/// The stiffness matrix of a truss: each of its slots holds its term, unless the term is a
/// zero.
pub open spec fn truss_entries(axes: int, ox: int, oy: int, terms: Seq<u64>) -> Map<
    (int, int),
    u64,
> {
    Map::new(
        |k: (int, int)| truss_slot(axes, ox, oy, k) && !is_zero(terms[truss_term(axes, ox, oy, k)]),
        |k: (int, int)| terms[truss_term(axes, ox, oy, k)],
    )
}

/// Where the translations of node `node` start in the global numbering that a truss uses:
/// at the node itself along one axis, at three times the node otherwise.
pub open spec fn truss_offset(dimension: int, node: int) -> int {
    if dimension == 1 {
        node
    } else {
        3 * node
    }
}

/// The part of `truss_entries` that is in place once the pairs of axes before `(i, j)` have
/// been dealt with, row by row.
spec fn truss_partial(axes: int, ox: int, oy: int, terms: Seq<u64>, i: int, j: int) -> Map<
    (int, int),
    u64,
> {
    Map::new(
        |k: (int, int)|
            truss_slot(axes, ox, oy, k) && !is_zero(terms[truss_term(axes, ox, oy, k)]) && (axis_of(
                axes,
                ox,
                oy,
                k.0,
            ) < i || (axis_of(axes, ox, oy, k.0) == i && axis_of(axes, ox, oy, k.1) < j)),
        |k: (int, int)| terms[truss_term(axes, ox, oy, k)],
    )
}

/// `e` with a double put into a free slot, unless the double is a zero.
spec fn placed(e: Map<(int, int), u64>, key: (int, int), bits: u64) -> Map<(int, int), u64> {
    if is_zero(bits) {
        e
    } else {
        e.insert(key, bits)
    }
}

/// The four slots of one pair of axes carry the partial matrix on by one pair.
proof fn lemma_truss_step(
    axes: int,
    ox: int,
    oy: int,
    t: Seq<u64>,
    i: int,
    j: int,
    plus: int,
    minus: int,
    e0: Map<(int, int), u64>,
    e4: Map<(int, int), u64>,
)
    requires
        1 <= axes <= 3,
        0 <= i < axes,
        0 <= j < axes,
        ox + axes <= oy || oy + axes <= ox,
        plus == i * axes + j,
        minus == axes * axes + i * axes + j,
        e0 == truss_partial(axes, ox, oy, t, i, j),
        e4 == placed(
            placed(
                placed(placed(e0, (ox + i, ox + j), t[plus]), (oy + i, ox + j), t[minus]),
                (ox + i, oy + j),
                t[minus],
            ),
            (oy + i, oy + j),
            t[plus],
        ),
    ensures
        e4 == truss_partial(axes, ox, oy, t, i, j + 1),
{
    let target = truss_partial(axes, ox, oy, t, i, j + 1);
    assert(truss_term(axes, ox, oy, (ox + i, ox + j)) == plus);
    assert(truss_term(axes, ox, oy, (oy + i, ox + j)) == minus);
    assert(truss_term(axes, ox, oy, (ox + i, oy + j)) == minus);
    assert(truss_term(axes, ox, oy, (oy + i, oy + j)) == plus);
    assert forall|k: (int, int)| e4.contains_key(k) <==> target.contains_key(k) by {
        if truss_slot(axes, ox, oy, k) && axis_of(axes, ox, oy, k.0) == i && axis_of(
            axes,
            ox,
            oy,
            k.1,
        ) == j {
            assert(k == (ox + i, ox + j) || k == (oy + i, ox + j) || k == (ox + i, oy + j) || k
                == (oy + i, oy + j));
        }
    }
    assert forall|k: (int, int)| e4.contains_key(k) implies e4[k] == target[k] by {}
    assert(e4 =~= target);
}

/// Builds the stiffness matrix of a truss with `axes` axes between the blocks at `ox` and at
/// `oy`.
fn truss_matrix(axes: usize, mat_size: usize, ox: usize, oy: usize, terms: &Vector) -> (k: CooMat)
    requires
        1 <= axes <= 3,
        vector_entries(*terms).len() == 2 * axes * axes,
        ox + axes <= mat_size,
        oy + axes <= mat_size,
        ox + axes <= oy || oy + axes <= ox,
    ensures
        coo_shape(k) == (mat_size, mat_size),
        coo_entries(k) == truss_entries(axes as int, ox as int, oy as int, vector_entries(*terms)),
        coo_in_bounds(k),
{
    let ghost t = vector_entries(*terms);
    let mut k = coo_new(mat_size, mat_size);
    let mut i: usize = 0;
    assert(coo_entries(k) =~= truss_partial(axes as int, ox as int, oy as int, t, 0, 0));
    while i < axes
        invariant
            1 <= axes <= 3,
            t == vector_entries(*terms),
            t.len() == 2 * axes * axes,
            ox + axes <= mat_size,
            oy + axes <= mat_size,
            ox + axes <= oy || oy + axes <= ox,
            i <= axes,
            coo_shape(k) == (mat_size, mat_size),
            coo_entries(k) == truss_partial(axes as int, ox as int, oy as int, t, i as int, 0),
        decreases axes - i,
    {
        let mut j: usize = 0;
        while j < axes
            invariant
                1 <= axes <= 3,
                t == vector_entries(*terms),
                t.len() == 2 * axes * axes,
                ox + axes <= mat_size,
                oy + axes <= mat_size,
                ox + axes <= oy || oy + axes <= ox,
                i < axes,
                j <= axes,
                coo_shape(k) == (mat_size, mat_size),
                coo_entries(k) == truss_partial(
                    axes as int,
                    ox as int,
                    oy as int,
                    t,
                    i as int,
                    j as int,
                ),
            decreases axes - j,
        {
            assert(i * axes + j < axes * axes && axes * axes <= 9 && 2 * axes * axes == axes
                * axes + axes * axes) by (nonlinear_arith)
                requires
                    i < axes,
                    j < axes,
                    axes <= 3,
            ;
            let plus: usize = i * axes + j;
            let minus: usize = axes * axes + plus;
            let ghost e0 = coo_entries(k);
            coo_add_value(&mut k, ox + i, ox + j, terms, plus);
            let ghost e1 = coo_entries(k);
            assert(e1 == placed(e0, (ox + i, ox + j), t[plus as int]));
            coo_add_value(&mut k, oy + i, ox + j, terms, minus);
            let ghost e2 = coo_entries(k);
            assert(e2 == placed(e1, (oy + i, ox + j), t[minus as int]));
            coo_add_value(&mut k, ox + i, oy + j, terms, minus);
            let ghost e3 = coo_entries(k);
            assert(e3 == placed(e2, (ox + i, oy + j), t[minus as int]));
            coo_add_value(&mut k, oy + i, oy + j, terms, plus);
            assert(coo_entries(k) == placed(e3, (oy + i, oy + j), t[plus as int]));
            proof {
                lemma_truss_step(
                    axes as int,
                    ox as int,
                    oy as int,
                    t,
                    i as int,
                    j as int,
                    plus as int,
                    minus as int,
                    e0,
                    coo_entries(k),
                );
            }
            j += 1;
        }
        i += 1;
        assert(coo_entries(k) =~= truss_partial(axes as int, ox as int, oy as int, t, i as int, 0));
    }
    assert(coo_entries(k) =~= truss_entries(axes as int, ox as int, oy as int, t));
    k
}

impl Truss {
    /// Whether this truss can be placed between nodes `x` and `y` of a structure of the
    /// given dimension in a matrix of `mat_size` rows and columns.
    pub open spec fn fits(&self, dimension: u8, mat_size: usize, x: usize, y: usize) -> bool {
        &&& 1 <= dimension <= 3
        &&& x != y
        &&& vector_entries(self.terms).len() == 2 * dimension * dimension
        &&& truss_offset(dimension as int, x as int) + dimension <= mat_size
        &&& truss_offset(dimension as int, y as int) + dimension <= mat_size
    }

    /// The stiffness matrix of this truss between nodes `x` and `y`.
    pub open spec fn stiffness(&self, dimension: u8, x: usize, y: usize) -> Map<(int, int), u64> {
        truss_entries(
            dimension as int,
            truss_offset(dimension as int, x as int),
            truss_offset(dimension as int, y as int),
            vector_entries(self.terms),
        )
    }

    /// The stiffness that the truss between nodes `i` and `j` brings to a global matrix of
    /// `mat_size` rows and columns, for a structure of the given dimension.
    pub fn get_matrix(&self, dimension: u8, mat_size: usize, i: usize, j: usize) -> (k: CooMat)
        requires
            self.fits(dimension, mat_size, i, j),
        ensures
            coo_shape(k) == (mat_size, mat_size),
            coo_entries(k) == self.stiffness(dimension, i, j),
            coo_in_bounds(k),
    {
        if dimension == 1 {
            self.get_1_d_matrix(mat_size, i, j)
        } else if dimension == 2 {
            self.get_2_d_matrix(mat_size, i, j)
        } else {
            self.get_3_d_matrix(mat_size, i, j)
        }
    }

    /// Along one axis: the stiffness at `(i, i)` and `(j, j)`, its negative at `(i, j)` and
    /// `(j, i)`.
    pub fn get_1_d_matrix(&self, mat_size: usize, i: usize, j: usize) -> (k: CooMat)
        requires
            self.fits(1, mat_size, i, j),
        ensures
            coo_shape(k) == (mat_size, mat_size),
            coo_entries(k) == self.stiffness(1, i, j),
            coo_in_bounds(k),
    {
        truss_matrix(1, mat_size, i, j, &self.terms)
    }

    /// In the plane: for each pair of axes the term of that pair, positive within the block
    /// of one node and negative between the blocks of the two. Blocks start at `3 * x` and
    /// `3 * y`; the rotation of a node gets nothing.
    pub fn get_2_d_matrix(&self, mat_size: usize, x: usize, y: usize) -> (k: CooMat)
        requires
            self.fits(2, mat_size, x, y),
        ensures
            coo_shape(k) == (mat_size, mat_size),
            coo_entries(k) == self.stiffness(2, x, y),
            coo_in_bounds(k),
    {
        truss_matrix(2, mat_size, 3 * x, 3 * y, &self.terms)
    }

    /// In space: as in the plane, with three axes.
    pub fn get_3_d_matrix(&self, mat_size: usize, x: usize, y: usize) -> (k: CooMat)
        requires
            self.fits(3, mat_size, x, y),
        ensures
            coo_shape(k) == (mat_size, mat_size),
            coo_entries(k) == self.stiffness(3, x, y),
            coo_in_bounds(k),
    {
        truss_matrix(3, mat_size, 3 * x, 3 * y, &self.terms)
    }
}

} // verus!

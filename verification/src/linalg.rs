//! The vectors and matrices of the `sparse_matrix` crate, as the rest of the crate sees them.
//!
//! Everything in this file is taken on trust: the contracts below restate what the source of
//! `sparse_matrix` does, and nothing here is proved.

use sparse_matrix::matrix::coo_mat::CooMat;
use sparse_matrix::vector::Vector;
use vstd::prelude::*;

verus! {

/// `sparse_matrix::vector::Vector`: a dense vector of doubles.
#[verifier::external_type_specification]
#[verifier::external_body]
pub struct ExVector(sparse_matrix::vector::Vector);

/// `sparse_matrix::matrix::coo_mat::CooMat`: a sparse matrix that keeps its occupied slots in
/// a map from (row, column) to a double, beside its two dimensions.
#[verifier::external_type_specification]
#[verifier::external_body]
pub struct ExCooMat(sparse_matrix::matrix::coo_mat::CooMat);

/// The entries of a vector in order, each by the bit pattern of its double.
pub uninterp spec fn vector_entries(v: Vector) -> Seq<u64>;

/// The occupied slots of a matrix: (row, column) to the bit pattern of the double held there.
pub uninterp spec fn coo_entries(m: CooMat) -> Map<(int, int), u64>;

/// The dimensions that a matrix records: (rows, columns).
pub uninterp spec fn coo_shape(m: CooMat) -> (usize, usize);

/// The bit pattern of the sum of two doubles, each given by its bit pattern: what
/// `CooMat::add_value` leaves in a slot that was occupied.
pub uninterp spec fn float_sum(held: u64, added: u64) -> u64;

/// The occupied slots of the product of an `rows` by `inner` matrix `a` with an `inner` by
/// `columns` matrix `b`, as `&CooMat * &CooMat` computes it.
pub uninterp spec fn coo_product(
    rows: usize,
    inner: usize,
    columns: usize,
    a: Map<(int, int), u64>,
    b: Map<(int, int), u64>,
) -> Map<(int, int), u64>;

/// The entries of the product of a matrix of `columns` columns with a vector, as the
/// compressed-row form of the matrix computes it.
pub uninterp spec fn coo_applied(columns: usize, a: Map<(int, int), u64>, v: Seq<u64>) -> Seq<
    u64,
>;

/// Whether a bit pattern is one of the two zeros, `0.0` or `-0.0`.
pub open spec fn is_zero(bits: u64) -> bool {
    bits == 0 || bits == 0x8000_0000_0000_0000u64
}

/// The slots of a matrix in which nothing was ever put: none.
pub open spec fn no_entries() -> Map<(int, int), u64> {
    Map::empty()
}

/// Number of rows that a matrix records.
pub open spec fn coo_rows(m: CooMat) -> int {
    coo_shape(m).0 as int
}

/// Number of columns that a matrix records.
pub open spec fn coo_columns(m: CooMat) -> int {
    coo_shape(m).1 as int
}

/// Every key of `e` lies within `rows` by `columns`.
pub open spec fn within(e: Map<(int, int), u64>, rows: int, columns: int) -> bool {
    forall|k: (int, int)| #[trigger]
        e.contains_key(k) ==> 0 <= k.0 < rows && 0 <= k.1 < columns
}

/// Every occupied slot of the matrix lies within its recorded dimensions.
pub open spec fn coo_in_bounds(m: CooMat) -> bool {
    within(coo_entries(m), coo_rows(m), coo_columns(m))
}

/// `a` after every slot of `b` is added to it: a zero of `b` changes nothing, a slot that is
/// free in `a` takes the double of `b`, a slot occupied in both takes the sum.
pub open spec fn accumulated(a: Map<(int, int), u64>, b: Map<(int, int), u64>) -> Map<
    (int, int),
    u64,
> {
    Map::new(
        |k: (int, int)| a.contains_key(k) || (b.contains_key(k) && !is_zero(b[k])),
        |k: (int, int)|
            if b.contains_key(k) && !is_zero(b[k]) {
                if a.contains_key(k) {
                    float_sum(a[k], b[k])
                } else {
                    b[k]
                }
            } else {
                a[k]
            },
    )
}

/// `e` with row `row` struck out and the rows below it moved up by one.
pub open spec fn without_row(e: Map<(int, int), u64>, row: int) -> Map<(int, int), u64> {
    Map::new(
        |k: (int, int)|
            if k.0 < row {
                e.contains_key(k)
            } else {
                e.contains_key((k.0 + 1, k.1))
            },
        |k: (int, int)|
            if k.0 < row {
                e[k]
            } else {
                e[(k.0 + 1, k.1)]
            },
    )
}

/// `e` with column `col` struck out and the columns right of it moved left by one.
pub open spec fn without_column(e: Map<(int, int), u64>, col: int) -> Map<(int, int), u64> {
    Map::new(
        |k: (int, int)|
            if k.1 < col {
                e.contains_key(k)
            } else {
                e.contains_key((k.0, k.1 + 1))
            },
        |k: (int, int)|
            if k.1 < col {
                e[k]
            } else {
                e[(k.0, k.1 + 1)]
            },
    )
}

/// `e` mirrored about the diagonal, without the slots that hold a zero.
pub open spec fn mirrored(e: Map<(int, int), u64>) -> Map<(int, int), u64> {
    Map::new(
        |k: (int, int)| e.contains_key((k.1, k.0)) && !is_zero(e[(k.1, k.0)]),
        |k: (int, int)| e[(k.1, k.0)],
    )
}

/// `Vector::null`: a vector of `n` entries, each `0.0`.
#[verifier::external_body]
pub(crate) fn vector_zeros(n: u8) -> (v: Vector)
    ensures
        vector_entries(v) == Seq::new(n as nat, |i: int| 0u64),
{
    Vector::null(n as usize)
}

/// `Vector::len`: the number of entries.
#[verifier::external_body]
pub(crate) fn vector_len(v: &Vector) -> (n: usize)
    ensures
        n == vector_entries(*v).len(),
{
    v.len()
}

/// `Vec::push` on the entries of `dst`: appends a copy of entry `at` of `src`.
#[verifier::external_body]
pub(crate) fn vector_push(dst: &mut Vector, src: &Vector, at: usize)
    requires
        at < vector_entries(*src).len(),
    ensures
        vector_entries(*final(dst)) == vector_entries(*old(dst)).push(
            vector_entries(*src)[at as int],
        ),
{
    dst.values.push(src.values[at]);
}

/// Assignment to one of the entries of `dst`: entry `i` becomes a copy of entry `at` of `src`.
#[verifier::external_body]
pub(crate) fn vector_set(dst: &mut Vector, i: usize, src: &Vector, at: usize)
    requires
        i < vector_entries(*old(dst)).len(),
        at < vector_entries(*src).len(),
    ensures
        vector_entries(*final(dst)) == vector_entries(*old(dst)).update(
            i as int,
            vector_entries(*src)[at as int],
        ),
{
    dst.values[i] = src.values[at];
}

/// `CooMat::new`: a matrix of the given dimensions with no slot occupied.
#[verifier::external_body]
pub(crate) fn coo_new(rows: usize, columns: usize) -> (m: CooMat)
    ensures
        coo_shape(m) == (rows, columns),
        coo_entries(m) == no_entries(),
{
    CooMat::new(rows, columns)
}

/// The fields `rows` and `columns` of a matrix.
#[verifier::external_body]
pub(crate) fn coo_dimensions(m: &CooMat) -> (shape: (usize, usize))
    ensures
        shape == coo_shape(*m),
{
    (m.rows, m.columns)
}

/// Assignment to the fields `rows` and `columns` of a matrix; its slots stay as they are.
#[verifier::external_body]
pub(crate) fn coo_resize(m: &mut CooMat, rows: usize, columns: usize)
    ensures
        coo_shape(*final(m)) == (rows, columns),
        coo_entries(*final(m)) == coo_entries(*old(m)),
{
    m.rows = rows;
    m.columns = columns;
}

/// `CooMat::add_value` with entry `at` of `src` as the value: a zero is dropped, a free slot
/// takes the value, an occupied slot takes the sum of what it held and the value.
#[verifier::external_body]
pub(crate) fn coo_add_value(m: &mut CooMat, row: usize, col: usize, src: &Vector, at: usize)
    requires
        at < vector_entries(*src).len(),
    ensures
        coo_shape(*final(m)) == coo_shape(*old(m)),
        coo_entries(*final(m)) == (if is_zero(vector_entries(*src)[at as int]) {
            coo_entries(*old(m))
        } else if coo_entries(*old(m)).contains_key((row as int, col as int)) {
            coo_entries(*old(m)).insert(
                (row as int, col as int),
                float_sum(
                    coo_entries(*old(m))[(row as int, col as int)],
                    vector_entries(*src)[at as int],
                ),
            )
        } else {
            coo_entries(*old(m)).insert(
                (row as int, col as int),
                vector_entries(*src)[at as int],
            )
        }),
{
    m.add_value(row, col, src.values[at]);
}

/// `CooMat::clone`: the same dimensions and the same slots.
#[verifier::external_body]
pub(crate) fn coo_clone(m: &CooMat) -> (copy: CooMat)
    ensures
        coo_shape(copy) == coo_shape(*m),
        coo_entries(copy) == coo_entries(*m),
{
    m.clone()
}

/// `CooMat::drop_row`: strikes row `row` out and moves the rows below it up by one. The
/// recorded dimensions stay as they are.
#[verifier::external_body]
pub(crate) fn coo_drop_row(m: &mut CooMat, row: usize)
    requires
        coo_in_bounds(*old(m)),
        row < coo_rows(*old(m)),
    ensures
        coo_shape(*final(m)) == coo_shape(*old(m)),
        coo_entries(*final(m)) == without_row(coo_entries(*old(m)), row as int),
{
    m.drop_row(row);
}

/// `CooMat::drop_col`: strikes column `col` out and moves the columns right of it left by
/// one. The recorded dimensions stay as they are.
#[verifier::external_body]
pub(crate) fn coo_drop_col(m: &mut CooMat, col: usize)
    requires
        coo_in_bounds(*old(m)),
        col < coo_columns(*old(m)),
    ensures
        coo_shape(*final(m)) == coo_shape(*old(m)),
        coo_entries(*final(m)) == without_column(coo_entries(*old(m)), col as int),
{
    m.drop_col(col);
}

/// `CooMat::transposed`: dimensions swapped, every slot that holds no zero mirrored about the
/// diagonal.
#[verifier::external_body]
pub(crate) fn coo_transposed(m: &CooMat) -> (t: CooMat)
    ensures
        coo_shape(t) == (coo_shape(*m).1, coo_shape(*m).0),
        coo_entries(t) == mirrored(coo_entries(*m)),
{
    m.transposed()
}

/// `&CooMat * &CooMat`: the product has the rows of `a` and the columns of `b`, and every
/// slot of it lies within those.
#[verifier::external_body]
pub(crate) fn coo_multiply(a: &CooMat, b: &CooMat) -> (p: CooMat)
    ensures
        coo_shape(p) == (coo_shape(*a).0, coo_shape(*b).1),
        coo_entries(p) == coo_product(
            coo_shape(*a).0,
            coo_shape(*a).1,
            coo_shape(*b).1,
            coo_entries(*a),
            coo_entries(*b),
        ),
        coo_in_bounds(p),
{
    a * b
}

/// `CooMat += CooMat`: every slot of `other` is added to `m` as `CooMat::add_value` adds it.
/// The dimensions of `m` stay as they are.
#[verifier::external_body]
pub(crate) fn coo_add_assign(m: &mut CooMat, other: CooMat)
    ensures
        coo_shape(*final(m)) == coo_shape(*old(m)),
        coo_entries(*final(m)) == accumulated(coo_entries(*old(m)), coo_entries(other)),
{
    *m += other;
}

/// `&CsrMat * &Vector` on the compressed-row form that `CooMat::to_csr` gives: the product
/// of the matrix with `v`, or `None` where `v` has not as many entries as the matrix has
/// columns.
#[verifier::external_body]
pub(crate) fn coo_apply(m: &CooMat, v: &Vector) -> (product: Option<Vector>)
    requires
        coo_in_bounds(*m),
        coo_rows(*m) <= coo_columns(*m),
    ensures
        product is Some <==> coo_columns(*m) == vector_entries(*v).len(),
        product matches Some(p) ==> vector_entries(p) == coo_applied(
            coo_shape(*m).1,
            coo_entries(*m),
            vector_entries(*v),
        ) && vector_entries(p).len() == coo_columns(*m),
{
    (&m.to_csr() * v).ok()
}

} // verus!

//! Row-major layout of a three-dimensional box of cells, as `ndshape`
//! computes it, and the arithmetic facts the grid code rests on.

use vstd::prelude::*;

verus! {

#[verifier::external_type_specification]
#[verifier::external_body]
#[verifier::reject_recursive_types(C)]
pub struct ExRuntimeShape<C, const N: usize>(ndshape::RuntimeShape<C, N>);

/// The three extents a shape was made with, in the order they were given.
pub uninterp spec fn shape_extents(shape: ndshape::RuntimeShape<u32, 3>) -> (int, int, int);

/// Number of cells of a box with the given extents.
pub open spec fn cell_count(extents: (int, int, int)) -> int {
    extents.0 * extents.1 * extents.2
}

/// Row-major position of `p` in a box with the given extents: the first
/// coordinate varies fastest.
pub open spec fn linear_index(extents: (int, int, int), p: (int, int, int)) -> int {
    p.0 + extents.0 * p.1 + extents.0 * extents.1 * p.2
}

/// `p` names a cell of the box: every coordinate is below its extent.
pub open spec fn in_box(extents: (int, int, int), p: (int, int, int)) -> bool {
    &&& 0 <= p.0 < extents.0
    &&& 0 <= p.1 < extents.1
    &&& 0 <= p.2 < extents.2
}

/// Extents a shape can be made with: none is negative, and the number of
/// cells (hence every stride) fits in a `u32`.
pub open spec fn extents_fit(extents: (int, int, int)) -> bool {
    &&& 0 <= extents.0
    &&& 0 <= extents.1
    &&& 0 <= extents.2
    &&& extents.0 * extents.1 <= u32::MAX
    &&& cell_count(extents) <= u32::MAX
}

/// `ndshape::RuntimeShape::<u32, 3>::new`: the shape keeps the extents it is
/// given. Its strides and size are products of them, computed in `u32`, so
/// the products must fit.
#[verifier::external_body]
pub(crate) fn new_shape(x: u32, y: u32, z: u32) -> (shape: ndshape::RuntimeShape<u32, 3>)
    requires
        extents_fit((x as int, y as int, z as int)),
    ensures
        shape_extents(shape) == (x as int, y as int, z as int),
{
    ndshape::RuntimeShape::<u32, 3>::new([x, y, z])
}

/// `Shape::as_array` of a `RuntimeShape<u32, 3>`: the extents it was made with.
#[verifier::external_body]
pub(crate) fn shape_dimensions(shape: &ndshape::RuntimeShape<u32, 3>) -> (dims: (u32, u32, u32))
    ensures
        (dims.0 as int, dims.1 as int, dims.2 as int) == shape_extents(*shape),
{
    let [x, y, z] = ndshape::Shape::as_array(shape);
    (x, y, z)
}

/// `Shape::linearize` of a `RuntimeShape<u32, 3>`: the row-major position of
/// the point. The sum is computed in `u32`, so it must fit.
#[verifier::external_body]
pub(crate) fn shape_linearize(shape: &ndshape::RuntimeShape<u32, 3>, x: u32, y: u32, z: u32) -> (index: u32)
    requires
        extents_fit(shape_extents(*shape)),
        linear_index(shape_extents(*shape), (x as int, y as int, z as int)) <= u32::MAX,
    ensures
        index as int == linear_index(shape_extents(*shape), (x as int, y as int, z as int)),
{
    ndshape::Shape::linearize(shape, [x, y, z])
}

/// `Clone::clone` of a `RuntimeShape<u32, 3>`: a shape with the same extents.
#[verifier::external_body]
pub(crate) fn copy_shape(shape: &ndshape::RuntimeShape<u32, 3>) -> (copy: ndshape::RuntimeShape<u32, 3>)
    ensures
        shape_extents(copy) == shape_extents(*shape),
{
    shape.clone()
}

/// Every cell of a box has a position below the number of cells.
pub proof fn lemma_linear_index_in_range(extents: (int, int, int), p: (int, int, int))
    requires
        in_box(extents, p),
    ensures
        0 <= linear_index(extents, p) < cell_count(extents),
{
    let (ex, ey, ez) = extents;
    let (x, y, z) = p;
    assert(0 <= ex * y && ex * y <= ex * (ey - 1)) by (nonlinear_arith)
        requires
            0 <= ex,
            0 <= y <= ey - 1,
    ;
    assert(0 <= (ex * ey) * z && (ex * ey) * z <= (ex * ey) * (ez - 1)) by (nonlinear_arith)
        requires
            0 <= ex,
            0 <= ey,
            0 <= z <= ez - 1,
    ;
    assert(ex * (ey - 1) == ex * ey - ex) by (nonlinear_arith);
    assert((ex * ey) * (ez - 1) == ex * ey * ez - ex * ey) by (nonlinear_arith);
}

/// Two different cells of a box have different positions.
pub proof fn lemma_linear_index_injective(
    extents: (int, int, int),
    p: (int, int, int),
    q: (int, int, int),
)
    requires
        in_box(extents, p),
        in_box(extents, q),
        linear_index(extents, p) == linear_index(extents, q),
    ensures
        p == q,
{
    let (ex, ey, ez) = extents;
    let row_p = p.1 + ey * p.2;
    let row_q = q.1 + ey * q.2;
    assert(linear_index(extents, p) == p.0 + ex * row_p) by (nonlinear_arith)
        requires
            row_p == p.1 + ey * p.2,
            linear_index(extents, p) == p.0 + ex * p.1 + ex * ey * p.2,
    ;
    assert(linear_index(extents, q) == q.0 + ex * row_q) by (nonlinear_arith)
        requires
            row_q == q.1 + ey * q.2,
            linear_index(extents, q) == q.0 + ex * q.1 + ex * ey * q.2,
    ;
    lemma_mixed_radix_unique(ex, p.0, row_p, q.0, row_q);
    lemma_mixed_radix_unique(ey, p.1, p.2, q.1, q.2);
}

/// A number written as `low + base * high` with `0 <= low < base` has only
/// one such writing.
pub proof fn lemma_mixed_radix_unique(base: int, low_a: int, high_a: int, low_b: int, high_b: int)
    requires
        0 <= low_a < base,
        0 <= low_b < base,
        low_a + base * high_a == low_b + base * high_b,
    ensures
        low_a == low_b,
        high_a == high_b,
{
    if high_a < high_b {
        assert(base * high_b - base * high_a >= base) by (nonlinear_arith)
            requires
                high_a < high_b,
                0 < base,
        ;
    } else if high_b < high_a {
        assert(base * high_a - base * high_b >= base) by (nonlinear_arith)
            requires
                high_b < high_a,
                0 < base,
        ;
    }
}

} // verus!

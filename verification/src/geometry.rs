//! The arithmetic of a partition: how many units an array holds, how many
//! go into one chunk, and how many chunks that makes.

use crate::error::RechunkError;
use vstd::arithmetic::div_mod::lemma_fundamental_div_mod;
use vstd::prelude::*;

verus! {

/// The geometry admits a partition: the array has a leading extent, the
/// chunks have a row width, and neither they nor the requested number of rows
/// per chunk is zero.
pub open spec fn geometry_valid(shape: Seq<usize>, chunk_shape: Seq<usize>, rows: usize) -> bool {
    &&& shape.len() >= 1
    &&& shape[0] > 0
    &&& chunk_shape.len() >= 2
    &&& chunk_shape[1] > 0
    &&& rows > 0
}

/// Length of the whole array in row-stride units: `shape[0] * chunks[1]`.
pub open spec fn total_units(shape: Seq<usize>, chunk_shape: Seq<usize>) -> int
    recommends
        shape.len() >= 1,
        chunk_shape.len() >= 2,
{
    shape[0] * chunk_shape[1]
}

/// Length of one new chunk in row-stride units: `rows * chunks[1]`.
pub open spec fn stride_units(chunk_shape: Seq<usize>, rows: usize) -> int
    recommends
        chunk_shape.len() >= 2,
{
    rows * chunk_shape[1]
}

/// A buffer of `available` units is long enough to be cut: it holds the
/// whole array, where the geometry is valid.
pub open spec fn holds_array(
    shape: Seq<usize>,
    chunk_shape: Seq<usize>,
    rows: usize,
    available: int,
) -> bool {
    geometry_valid(shape, chunk_shape, rows) ==> total_units(shape, chunk_shape) <= available
}

/// A valid geometry has a positive total and a positive stride.
pub proof fn lemma_geometry_positive(shape: Seq<usize>, chunk_shape: Seq<usize>, rows: usize)
    requires
        geometry_valid(shape, chunk_shape, rows),
    ensures
        0 < total_units(shape, chunk_shape),
        0 < stride_units(chunk_shape, rows),
{
    assert(0 < shape[0] * chunk_shape[1] && 0 < rows * chunk_shape[1]) by (nonlinear_arith)
        requires
            0 < shape[0],
            0 < chunk_shape[1],
            0 < rows,
    ;
}

/// `total / stride`, rounded up.
pub open spec fn ceil_div(total: int, stride: int) -> int
    recommends
        0 <= total,
        0 < stride,
{
    if total % stride == 0 {
        total / stride
    } else {
        total / stride + 1
    }
}

/// The rounded-up quotient is the one `count` with
/// `(count - 1) * stride < total <= count * stride`.
pub proof fn lemma_ceil_div_bounds(total: int, stride: int, count: int)
    requires
        0 <= total,
        0 < stride,
    ensures
        count == ceil_div(total, stride) <==> (count - 1) * stride < total <= count * stride,
{
    let q = total / stride;
    let r = total % stride;
    lemma_fundamental_div_mod(total, stride);
    assert(total == stride * q + r);
    assert(0 <= r < stride);
    let c = ceil_div(total, stride);
    assert((c - 1) * stride < total <= c * stride) by (nonlinear_arith)
        requires
            total == stride * q + r,
            0 <= r < stride,
            c == if r == 0 { q } else { q + 1 },
    ;
    if (count - 1) * stride < total <= count * stride {
        assert(count == c) by (nonlinear_arith)
            requires
                (count - 1) * stride < total <= count * stride,
                (c - 1) * stride < total <= c * stride,
                0 < stride,
        ;
    }
}

/// The step divides the total exactly when the rounded-up quotient, times the
/// step, is the total again.
pub proof fn lemma_ceil_div_exact(total: int, stride: int)
    requires
        0 <= total,
        0 < stride,
    ensures
        total % stride == 0 <==> ceil_div(total, stride) * stride == total,
{
    let q = total / stride;
    let r = total % stride;
    lemma_fundamental_div_mod(total, stride);
    assert(total == stride * q + r);
    assert(0 <= r < stride);
    let c = ceil_div(total, stride);
    assert(r == 0 <==> c * stride == total) by (nonlinear_arith)
        requires
            total == stride * q + r,
            0 <= r < stride,
            c == if r == 0 { q } else { q + 1 },
    ;
}

/// Scaling both the extent and the step by the same row width leaves the
/// rounded-up quotient unchanged.
pub proof fn lemma_ceil_div_scaled(extent: int, rows: int, width: int)
    requires
        0 <= extent,
        0 < rows,
        0 < width,
    ensures
        ceil_div(extent * width, rows * width) == ceil_div(extent, rows),
{
    let c = ceil_div(extent, rows);
    lemma_ceil_div_bounds(extent, rows, c);
    assert((c - 1) * (rows * width) < extent * width <= c * (rows * width)) by (nonlinear_arith)
        requires
            (c - 1) * rows < extent <= c * rows,
            0 < width,
    ;
    assert(0 < rows * width) by (nonlinear_arith)
        requires
            0 < rows,
            0 < width,
    ;
    assert(0 <= extent * width) by (nonlinear_arith)
        requires
            0 <= extent,
            0 < width,
    ;
    lemma_ceil_div_bounds(extent * width, rows * width, c);
}

/// Checks the geometry and returns its leading extent `shape[0]` and its row
/// width `chunks[1]`.
///
/// Fails with `Geometry` exactly when the geometry is not valid.
pub fn extent_and_width(
    shape: &[usize],
    chunk_shape: &[usize],
    rows: usize,
) -> (r: Result<(usize, usize), RechunkError>)
    ensures
        match r {
            Ok((extent, width)) => {
                &&& geometry_valid(shape@, chunk_shape@, rows)
                &&& extent == shape@[0]
                &&& width == chunk_shape@[1]
            },
            Err(error) => {
                &&& !geometry_valid(shape@, chunk_shape@, rows)
                &&& error == RechunkError::Geometry
            },
        },
{
    if shape.len() < 1 || chunk_shape.len() < 2 || rows == 0 {
        return Err(RechunkError::Geometry);
    }
    let extent = shape[0];
    let width = chunk_shape[1];
    if extent == 0 || width == 0 {
        return Err(RechunkError::Geometry);
    }
    Ok((extent, width))
}

/// Whether a buffer of `available` units is long enough to be cut.
pub fn buffer_holds_array(
    shape: &[usize],
    chunk_shape: &[usize],
    rows: usize,
    available: usize,
) -> (held: bool)
    ensures
        held == holds_array(shape@, chunk_shape@, rows, available as int),
{
    match extent_and_width(shape, chunk_shape, rows) {
        Ok((extent, width)) => match extent.checked_mul(width) {
            Some(total) => total <= available,
            None => false,
        },
        Err(_) => true,
    }
}

/// The number of chunks that a partition yields: `shape[0] * chunks[1]` over
/// `rows * chunks[1]`, rounded up, which is `shape[0]` over `rows`, rounded up.
///
/// Fails with `Geometry` exactly when the geometry is not valid.
pub fn chunk_count(
    shape: &[usize],
    chunk_shape: &[usize],
    rows: usize,
) -> (r: Result<usize, RechunkError>)
    ensures
        match r {
            Ok(count) => {
                &&& geometry_valid(shape@, chunk_shape@, rows)
                &&& count == ceil_div(
                    total_units(shape@, chunk_shape@),
                    stride_units(chunk_shape@, rows),
                )
                &&& count == ceil_div(shape@[0] as int, rows as int)
            },
            Err(error) => {
                &&& !geometry_valid(shape@, chunk_shape@, rows)
                &&& error == RechunkError::Geometry
            },
        },
{
    match extent_and_width(shape, chunk_shape, rows) {
        Ok((extent, width)) => {
            let full = (extent - 1) / rows;
            proof {
                lemma_fundamental_div_mod(extent - 1, rows as int);
                assert(full * rows < extent <= (full + 1) * rows && full <= extent - 1)
                    by (nonlinear_arith)
                    requires
                        extent - 1 == rows * full + (extent - 1) % (rows as int),
                        0 <= (extent - 1) % (rows as int) < rows,
                        0 <= full,
                ;
                lemma_ceil_div_bounds(extent as int, rows as int, full + 1);
                lemma_ceil_div_scaled(extent as int, rows as int, width as int);
            }
            Ok(full + 1)
        },
        Err(error) => Err(error),
    }
}

} // verus!

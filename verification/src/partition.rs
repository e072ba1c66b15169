//! Cutting the array's buffer into chunks of a new size.

use crate::error::RechunkError;
use crate::geometry::{
    ceil_div, extent_and_width, geometry_valid, holds_array, lemma_ceil_div_bounds,
    lemma_ceil_div_exact, lemma_ceil_div_scaled, lemma_geometry_positive, stride_units,
    total_units,
};
use vstd::prelude::*;
use vstd::slice::slice_subrange;

verus! {

/// Offset at which chunk `index` starts.
pub open spec fn chunk_start(index: int, stride: int) -> int {
    index * stride
}

/// Offset at which chunk `index` ends: a full stride after its start, or the
/// end of the array where that comes first.
pub open spec fn chunk_end(index: int, total: int, stride: int) -> int {
    if (index + 1) * stride < total {
        (index + 1) * stride
    } else {
        total
    }
}

/// The bytes of chunk `index`.
pub open spec fn chunk_at(buffer: Seq<u8>, total: int, stride: int, index: int) -> Seq<u8> {
    buffer.subrange(chunk_start(index, stride), chunk_end(index, total, stride))
}

/// The first `total` units of `buffer`, cut every `stride` units. The last
/// chunk is shorter where `stride` does not divide `total`.
pub open spec fn partitioned(buffer: Seq<u8>, total: int, stride: int) -> Seq<Seq<u8>>
    recommends
        0 <= total <= buffer.len(),
        0 < stride,
{
    Seq::new(ceil_div(total, stride) as nat, |index: int| chunk_at(buffer, total, stride, index))
}

/// The contents of a list of chunks.
pub open spec fn chunk_views(chunks: Seq<&[u8]>) -> Seq<Seq<u8>> {
    chunks.map_values(|chunk: &[u8]| chunk@)
}

/// What partitioning yields: the chunks of the array's buffer, or `Geometry`
/// where the geometry admits no partition.
pub open spec fn partition_of(
    shape: Seq<usize>,
    chunk_shape: Seq<usize>,
    rows: usize,
    buffer: Seq<u8>,
) -> Result<Seq<Seq<u8>>, RechunkError> {
    if geometry_valid(shape, chunk_shape, rows) {
        Ok(partitioned(buffer, total_units(shape, chunk_shape), stride_units(chunk_shape, rows)))
    } else {
        Err(RechunkError::Geometry)
    }
}

/// Cuts the first `shape[0] * chunks[1]` bytes of `buffer` into chunks of
/// `rows * chunks[1]` bytes, in order; chunk `i` of the result is the one to
/// be stored under the identifier `i`. The chunks are views into `buffer`.
///
/// Fails with `Geometry` exactly when the geometry admits no partition. A
/// `rows` beyond `shape[0]` is no error: the result is then a single chunk.
/// The buffer must hold the array: callers check its length first.
pub fn partition<'a>(
    shape: &[usize],
    chunk_shape: &[usize],
    rows: usize,
    buffer: &'a [u8],
) -> (r: Result<Vec<&'a [u8]>, RechunkError>)
    requires
        holds_array(shape@, chunk_shape@, rows, buffer@.len() as int),
    ensures
        match partition_of(shape@, chunk_shape@, rows, buffer@) {
            Ok(expected) => r matches Ok(chunks) && chunk_views(chunks@) == expected,
            Err(error) => r matches Err(reported) && reported == error,
        },
{
    let (extent, width) = match extent_and_width(shape, chunk_shape, rows) {
        Ok(leading) => leading,
        Err(error) => {
            return Err(error);
        },
    };
    assert(extent * width == total_units(shape@, chunk_shape@) <= buffer.len());
    let total = extent * width;
    // A stride too large for the machine is larger than the array.
    let step = rows.checked_mul(width);
    let ghost stride: int = rows * width;
    assert(0 < total && 0 < stride) by (nonlinear_arith)
        requires
            total == extent * width,
            stride == rows * width,
            0 < extent,
            0 < width,
            0 < rows,
    ;
    let mut chunks: Vec<&'a [u8]> = Vec::new();
    let mut offset: usize = 0;
    assert(0 * stride == 0);
    while offset < total
        invariant
            0 < stride,
            0 < total <= buffer@.len(),
            step matches Some(s) ==> s == stride,
            step is None ==> stride > usize::MAX,
            offset <= total,
            offset == total || offset == chunks@.len() * stride,
            offset == total ==> chunks@.len() * stride >= total,
            chunks@.len() > 0 ==> (chunks@.len() - 1) * stride < total,
            forall|i: int|
                0 <= i < chunks@.len() ==> (#[trigger] chunks@[i])@
                    == chunk_at(buffer@, total as int, stride, i),
        decreases total - offset,
    {
        let ghost index = chunks@.len() as int;
        let remaining = total - offset;
        // The chunk ends a stride further on, or with the array.
        let end = match step {
            Some(s) => if s < remaining {
                offset + s
            } else {
                total
            },
            None => total,
        };
        proof {
            assert((index + 1) * stride == index * stride + stride) by (nonlinear_arith);
            assert(offset == chunk_start(index, stride));
            assert(end == chunk_end(index, total as int, stride));
        }
        chunks.push(slice_subrange(buffer, offset, end));
        offset = end;
    }
    proof {
        // The strides taken reach the total, and one fewer would not.
        lemma_ceil_div_bounds(total as int, stride, chunks@.len() as int);
        assert(chunk_views(chunks@) =~= partitioned(buffer@, total as int, stride));
    }
    Ok(chunks)
}

/// Sum of the lengths of a list of chunks.
pub open spec fn total_length(chunks: Seq<Seq<u8>>) -> nat
    decreases chunks.len(),
{
    if chunks.len() == 0 {
        0
    } else {
        total_length(chunks.drop_last()) + chunks.last().len()
    }
}

/// The lengths of the chunks add up to the length of their concatenation.
pub proof fn lemma_total_length_is_flat_length(chunks: Seq<Seq<u8>>)
    ensures
        total_length(chunks) == chunks.flatten().len(),
    decreases chunks.len(),
{
    if chunks.len() == 0 {
        assert(chunks.flatten() =~= Seq::<u8>::empty());
    } else {
        lemma_total_length_is_flat_length(chunks.drop_last());
        chunks.drop_last().lemma_flatten_push(chunks.last());
        assert(chunks.drop_last().push(chunks.last()) =~= chunks);
    }
}

/// Every chunk lies inside the array, starts where the one before it ended,
/// and is not empty.
pub proof fn lemma_chunk_bounds(total: int, stride: int, index: int)
    requires
        0 <= total,
        0 < stride,
        0 <= index < ceil_div(total, stride),
    ensures
        0 <= chunk_start(index, stride) < chunk_end(index, total, stride) <= total,
        chunk_end(index, total, stride) - chunk_start(index, stride) <= stride,
        index > 0 ==> chunk_start(index, stride) == chunk_end(index - 1, total, stride),
        index + 1 < ceil_div(total, stride) ==> chunk_end(index, total, stride)
            - chunk_start(index, stride) == stride,
        index + 1 == ceil_div(total, stride) ==> chunk_end(index, total, stride) == total,
{
    let count = ceil_div(total, stride);
    lemma_ceil_div_bounds(total, stride, count);
    assert(index * stride <= (count - 1) * stride) by (nonlinear_arith)
        requires
            index <= count - 1,
            0 < stride,
    ;
    assert(0 <= index * stride) by (nonlinear_arith)
        requires
            0 <= index,
            0 < stride,
    ;
    assert((index + 1) * stride == index * stride + stride) by (nonlinear_arith);
    assert((index - 1 + 1) * stride == index * stride);
    if index + 1 < count {
        assert((index + 1) * stride <= (count - 1) * stride) by (nonlinear_arith)
            requires
                index + 1 <= count - 1,
                0 < stride,
        ;
    } else {
        assert((index + 1) * stride == count * stride);
    }
}

/// The first `taken` chunks, concatenated, are the buffer up to where the
/// last of them ends.
proof fn lemma_partition_prefix(buffer: Seq<u8>, total: int, stride: int, taken: int)
    requires
        0 <= total <= buffer.len(),
        0 < stride,
        0 <= taken <= ceil_div(total, stride),
    ensures
        partitioned(buffer, total, stride).take(taken).flatten() == buffer.subrange(
            0,
            if taken == 0 {
                0
            } else {
                chunk_end(taken - 1, total, stride)
            },
        ),
    decreases taken,
{
    let chunks = partitioned(buffer, total, stride);
    if taken == 0 {
        assert(chunks.take(0) =~= Seq::<Seq<u8>>::empty());
        assert(chunks.take(0).flatten() =~= buffer.subrange(0, 0));
    } else {
        let index = taken - 1;
        lemma_partition_prefix(buffer, total, stride, index);
        lemma_chunk_bounds(total, stride, index);
        chunks.take(index).lemma_flatten_push(chunks[index]);
        assert(chunks.take(index).push(chunks[index]) =~= chunks.take(taken));
        assert(buffer.subrange(0, chunk_start(index, stride))
            + chunk_at(buffer, total, stride, index)
            =~= buffer.subrange(0, chunk_end(index, total, stride)));
    }
}

/// The chunks, concatenated in order, are the first `total` units of the
/// buffer: nothing is lost, added or moved.
pub proof fn lemma_partition_preserves_bytes(buffer: Seq<u8>, total: int, stride: int)
    requires
        0 <= total <= buffer.len(),
        0 < stride,
    ensures
        partitioned(buffer, total, stride).flatten() == buffer.subrange(0, total),
        total_length(partitioned(buffer, total, stride)) == total,
{
    let chunks = partitioned(buffer, total, stride);
    let count = ceil_div(total, stride);
    lemma_ceil_div_bounds(total, stride, count);
    lemma_partition_prefix(buffer, total, stride, count);
    assert(chunks.take(count) =~= chunks);
    if count > 0 {
        lemma_chunk_bounds(total, stride, count - 1);
    }
    lemma_total_length_is_flat_length(chunks);
}

/// Size conservation: whatever the number of rows per chunk, the chunks
/// together hold exactly the `shape[0] * chunks[1]` units of the array, and
/// concatenated in order they are those units.
pub proof fn lemma_size_conservation(
    shape: Seq<usize>,
    chunk_shape: Seq<usize>,
    rows: usize,
    buffer: Seq<u8>,
)
    requires
        geometry_valid(shape, chunk_shape, rows),
        total_units(shape, chunk_shape) <= buffer.len(),
    ensures
        ({
            let chunks = partition_of(shape, chunk_shape, rows, buffer)->Ok_0;
            &&& partition_of(shape, chunk_shape, rows, buffer) is Ok
            &&& total_length(chunks) == shape[0] * chunk_shape[1]
            &&& chunks.flatten() == buffer.subrange(0, shape[0] * chunk_shape[1])
        }),
{
    lemma_geometry_positive(shape, chunk_shape, rows);
    lemma_partition_preserves_bytes(
        buffer,
        total_units(shape, chunk_shape),
        stride_units(chunk_shape, rows),
    );
}

/// Chunk count: there are `shape[0] * chunks[1]` over `rows * chunks[1]`
/// chunks, rounded up, which is `shape[0]` over `rows`, rounded up.
pub proof fn lemma_chunk_count(
    shape: Seq<usize>,
    chunk_shape: Seq<usize>,
    rows: usize,
    buffer: Seq<u8>,
)
    requires
        geometry_valid(shape, chunk_shape, rows),
    ensures
        ({
            let chunks = partition_of(shape, chunk_shape, rows, buffer)->Ok_0;
            &&& partition_of(shape, chunk_shape, rows, buffer) is Ok
            &&& chunks.len() == ceil_div(shape[0] * chunk_shape[1], rows * chunk_shape[1])
            &&& chunks.len() == ceil_div(shape[0] as int, rows as int)
        }),
{
    lemma_geometry_positive(shape, chunk_shape, rows);
    lemma_ceil_div_scaled(shape[0] as int, rows as int, chunk_shape[1] as int);
    lemma_ceil_div_bounds(shape[0] as int, rows as int, ceil_div(shape[0] as int, rows as int));
}

/// Boundary truncation: every chunk but the last is exactly one stride long.
/// The last one is never empty and never longer than a stride, and it is
/// shorter than a stride exactly when `rows` does not divide `shape[0]`.
pub proof fn lemma_boundary_truncation(
    shape: Seq<usize>,
    chunk_shape: Seq<usize>,
    rows: usize,
    buffer: Seq<u8>,
)
    requires
        geometry_valid(shape, chunk_shape, rows),
        total_units(shape, chunk_shape) <= buffer.len(),
    ensures
        ({
            let chunks = partition_of(shape, chunk_shape, rows, buffer)->Ok_0;
            let stride = stride_units(chunk_shape, rows);
            &&& partition_of(shape, chunk_shape, rows, buffer) is Ok
            &&& chunks.len() > 0
            &&& forall|i: int| 0 <= i < chunks.len() - 1 ==> (#[trigger] chunks[i]).len() == stride
            &&& 0 < chunks.last().len() <= stride
            &&& chunks.last().len() < stride <==> shape[0] % rows != 0
        }),
{
    let total = total_units(shape, chunk_shape);
    let stride = stride_units(chunk_shape, rows);
    let extent = shape[0] as int;
    let width = chunk_shape[1] as int;
    let chunks = partitioned(buffer, total, stride);
    let count = ceil_div(total, stride);
    lemma_geometry_positive(shape, chunk_shape, rows);
    lemma_ceil_div_bounds(total, stride, count);
    assert forall|i: int| 0 <= i < chunks.len() - 1 implies
        (#[trigger] chunks[i]).len() == stride by {
        lemma_chunk_bounds(total, stride, i);
    }
    lemma_chunk_bounds(total, stride, count - 1);
    // The last chunk is full exactly when the strides add up to the total.
    lemma_ceil_div_exact(total, stride);
    lemma_ceil_div_exact(extent, rows as int);
    lemma_ceil_div_scaled(extent, rows as int, width);
    let c = ceil_div(extent, rows as int);
    assert(c * (rows * width) == extent * width <==> c * rows == extent) by (nonlinear_arith)
        requires
            0 < width,
    ;
    assert((count - 1 + 1) * stride == count * stride);
    assert((count - 1) * stride + stride == count * stride) by (nonlinear_arith);
}

/// A number of rows per chunk that reaches or exceeds `shape[0]` gives a
/// single chunk: the whole array.
pub proof fn lemma_single_chunk(
    shape: Seq<usize>,
    chunk_shape: Seq<usize>,
    rows: usize,
    buffer: Seq<u8>,
)
    requires
        geometry_valid(shape, chunk_shape, rows),
        total_units(shape, chunk_shape) <= buffer.len(),
        rows >= shape[0],
    ensures
        partition_of(shape, chunk_shape, rows, buffer) == Ok::<Seq<Seq<u8>>, RechunkError>(
            seq![buffer.subrange(0, total_units(shape, chunk_shape))],
        ),
{
    let total = total_units(shape, chunk_shape);
    let stride = stride_units(chunk_shape, rows);
    lemma_geometry_positive(shape, chunk_shape, rows);
    assert(total <= stride) by (nonlinear_arith)
        requires
            total == shape[0] * chunk_shape[1],
            stride == rows * chunk_shape[1],
            shape[0] <= rows,
    ;
    lemma_ceil_div_bounds(total, stride, 1);
    assert(partitioned(buffer, total, stride) =~= seq![buffer.subrange(0, total)]);
}

/// Round trip: with as many rows per chunk as the array has, and a buffer
/// that holds the array and nothing more, the one chunk is the buffer.
pub proof fn lemma_round_trip(
    shape: Seq<usize>,
    chunk_shape: Seq<usize>,
    rows: usize,
    buffer: Seq<u8>,
)
    requires
        geometry_valid(shape, chunk_shape, rows),
        total_units(shape, chunk_shape) == buffer.len(),
        rows == shape[0],
    ensures
        partition_of(shape, chunk_shape, rows, buffer) == Ok::<Seq<Seq<u8>>, RechunkError>(
            seq![buffer],
        ),
{
    lemma_single_chunk(shape, chunk_shape, rows, buffer);
    assert(buffer.subrange(0, buffer.len() as int) =~= buffer);
}

} // verus!

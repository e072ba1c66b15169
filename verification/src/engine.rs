//! Rechunking an array: its buffer is cut again and its descriptor records
//! the new leading chunk size.

use crate::descriptor::{ArrayDescriptor, DescriptorView};
use crate::error::RechunkError;
use crate::geometry::{
    buffer_holds_array, ceil_div, geometry_valid, holds_array, lemma_geometry_positive,
    stride_units, total_units,
};
use crate::partition::{
    chunk_at, chunk_views, lemma_chunk_bounds, lemma_partition_preserves_bytes, lemma_round_trip,
    partition, partition_of, partitioned,
};
use vstd::prelude::*;

verus! {

/// A rechunked array.
#[derive(Clone, Debug, PartialEq)]
pub struct Rechunked<'a> {
    /// The chunks, in order: chunk `i` is stored under the identifier `i`.
    /// They are views into the buffer that was cut.
    pub chunks: Vec<&'a [u8]>,
    /// The descriptor to store beside them.
    pub descriptor: ArrayDescriptor,
}

/// What a rechunked array holds, as mathematical values.
pub ghost struct RechunkedView {
    pub chunks: Seq<Seq<u8>>,
    pub descriptor: DescriptorView,
}

impl<'a> View for Rechunked<'a> {
    type V = RechunkedView;

    open spec fn view(&self) -> RechunkedView {
        RechunkedView { chunks: chunk_views(self.chunks@), descriptor: self.descriptor@ }
    }
}

/// What rechunking yields: the chunks of the buffer and the descriptor with
/// the new leading chunk size, or `Geometry` where the descriptor's geometry
/// and `rows` admit no partition.
pub open spec fn rechunk_of(
    descriptor: DescriptorView,
    rows: usize,
    buffer: Seq<u8>,
) -> Result<RechunkedView, RechunkError> {
    match partition_of(descriptor.shape, descriptor.chunk_shape, rows, buffer) {
        Ok(chunks) => Ok(
            RechunkedView { chunks, descriptor: descriptor.with_leading_chunk(rows) },
        ),
        Err(error) => Err(error),
    }
}

/// Rechunks the array that `descriptor` and `buffer` hold, `rows` rows to a
/// chunk.
///
/// Fails with `Geometry`, before anything is produced, exactly when
/// `shape[0]`, `chunks[1]` or `rows` is missing or zero. The buffer must hold
/// the array: callers check its length first, with `buffer_holds_array`, or
/// call `try_rechunk`.
pub fn rechunk<'a>(
    descriptor: &ArrayDescriptor,
    rows: usize,
    buffer: &'a [u8],
) -> (r: Result<Rechunked<'a>, RechunkError>)
    requires
        holds_array(descriptor@.shape, descriptor@.chunk_shape, rows, buffer@.len() as int),
    ensures
        match rechunk_of(descriptor@, rows, buffer@) {
            Ok(expected) => r matches Ok(rechunked) && rechunked@ == expected,
            Err(error) => r matches Err(reported) && reported == error,
        },
{
    match partition(descriptor.shape.as_slice(), descriptor.chunk_shape.as_slice(), rows, buffer) {
        Ok(chunks) => Ok(Rechunked { chunks, descriptor: descriptor.with_leading_chunk(rows) }),
        Err(error) => Err(error),
    }
}

/// Rechunks the array that `descriptor` and `buffer` hold, `rows` rows to a
/// chunk, if the buffer holds the array.
///
/// Returns `None` exactly when the geometry is valid and the buffer is
/// shorter than the `shape[0] * chunks[1]` bytes of the array; otherwise
/// what `rechunk` returns.
pub fn try_rechunk<'a>(
    descriptor: &ArrayDescriptor,
    rows: usize,
    buffer: &'a [u8],
) -> (r: Option<Result<Rechunked<'a>, RechunkError>>)
    ensures
        r is Some <==> holds_array(
            descriptor@.shape,
            descriptor@.chunk_shape,
            rows,
            buffer@.len() as int,
        ),
        r is Some ==> match rechunk_of(descriptor@, rows, buffer@) {
            Ok(expected) => r matches Some(Ok(rechunked)) && rechunked@ == expected,
            Err(error) => r matches Some(Err(reported)) && reported == error,
        },
{
    if buffer_holds_array(
        descriptor.shape.as_slice(),
        descriptor.chunk_shape.as_slice(),
        rows,
        buffer.len(),
    ) {
        Some(rechunk(descriptor, rows, buffer))
    } else {
        None
    }
}

/// Field passthrough: rechunking changes the leading entry of the chunk
/// geometry and nothing else. Shape, element type, compressor, fill value,
/// order, filters and format version come out as they went in.
pub proof fn lemma_fields_pass_through(descriptor: DescriptorView, rows: usize, buffer: Seq<u8>)
    requires
        rechunk_of(descriptor, rows, buffer) is Ok,
    ensures
        ({
            let written = rechunk_of(descriptor, rows, buffer)->Ok_0.descriptor;
            &&& written.shape == descriptor.shape
            &&& written.dtype == descriptor.dtype
            &&& written.compressor == descriptor.compressor
            &&& written.fill_value == descriptor.fill_value
            &&& written.order == descriptor.order
            &&& written.filters == descriptor.filters
            &&& written.format_version == descriptor.format_version
            &&& written.chunk_shape.len() == descriptor.chunk_shape.len()
            &&& written.chunk_shape[0] == rows
            &&& forall|i: int|
                1 <= i < descriptor.chunk_shape.len() ==> written.chunk_shape[i]
                    == descriptor.chunk_shape[i]
        }),
{
}

/// Zero rows per chunk are rejected with `Geometry`, whatever the array.
pub proof fn lemma_zero_rows_rejected(descriptor: DescriptorView, buffer: Seq<u8>)
    ensures
        rechunk_of(descriptor, 0, buffer) == Err::<RechunkedView, RechunkError>(
            RechunkError::Geometry,
        ),
{
}

/// Round trip: cut with as many rows per chunk as the array has, a buffer
/// that holds the array and nothing more comes back as the one chunk, and
/// the descriptor comes back with nothing changed but the leading entry of
/// its chunk geometry.
pub proof fn lemma_rechunk_round_trip(descriptor: DescriptorView, rows: usize, buffer: Seq<u8>)
    requires
        geometry_valid(descriptor.shape, descriptor.chunk_shape, rows),
        total_units(descriptor.shape, descriptor.chunk_shape) == buffer.len(),
        rows == descriptor.shape[0],
    ensures
        rechunk_of(descriptor, rows, buffer) == Ok::<RechunkedView, RechunkError>(
            RechunkedView {
                chunks: seq![buffer],
                descriptor: DescriptorView {
                    chunk_shape: descriptor.chunk_shape.update(0, rows),
                    ..descriptor
                },
            },
        ),
{
    lemma_round_trip(descriptor.shape, descriptor.chunk_shape, rows, buffer);
}

/// Rechunking a well-formed descriptor with a positive number of rows
/// leaves it well formed.
pub proof fn lemma_well_formed_preserved(descriptor: DescriptorView, rows: usize)
    requires
        descriptor.well_formed(),
        rows > 0,
    ensures
        descriptor.with_leading_chunk(rows).well_formed(),
{
    let written = descriptor.with_leading_chunk(rows);
    assert forall|i: int| 0 <= i < written.chunk_shape.len() implies
        #[trigger] written.chunk_shape[i] > 0 by {
        if i > 0 {
            assert(written.chunk_shape[i] == descriptor.chunk_shape[i]);
        }
    }
}

/// Rechunking what was rechunked is rechunking the source: the chunks of a
/// rechunked array, joined again and cut `rows` rows to a chunk under the
/// descriptor that was written with them, are the chunks and the descriptor
/// that the source gives when it is cut `rows` rows to a chunk.
pub proof fn lemma_rechunk_again(
    descriptor: DescriptorView,
    first_rows: usize,
    rows: usize,
    buffer: Seq<u8>,
)
    requires
        geometry_valid(descriptor.shape, descriptor.chunk_shape, first_rows),
        total_units(descriptor.shape, descriptor.chunk_shape) <= buffer.len(),
        rows > 0,
    ensures
        ({
            let first = rechunk_of(descriptor, first_rows, buffer)->Ok_0;
            &&& rechunk_of(descriptor, first_rows, buffer) is Ok
            &&& rechunk_of(first.descriptor, rows, first.chunks.flatten()) == rechunk_of(
                descriptor,
                rows,
                buffer,
            )
        }),
{
    let total = total_units(descriptor.shape, descriptor.chunk_shape);
    let first = rechunk_of(descriptor, first_rows, buffer)->Ok_0;
    lemma_geometry_positive(descriptor.shape, descriptor.chunk_shape, first_rows);
    lemma_geometry_positive(descriptor.shape, descriptor.chunk_shape, rows);
    lemma_partition_preserves_bytes(
        buffer,
        total,
        stride_units(descriptor.chunk_shape, first_rows),
    );
    // No chunk reaches past the array, so the bytes behind it do not count.
    let stride = stride_units(descriptor.chunk_shape, rows);
    let joined = buffer.subrange(0, total);
    assert forall|index: int| 0 <= index < ceil_div(total, stride) implies
        chunk_at(joined, total, stride, index) == chunk_at(buffer, total, stride, index) by {
        lemma_chunk_bounds(total, stride, index);
        assert(chunk_at(joined, total, stride, index) =~= chunk_at(buffer, total, stride, index));
    }
    assert(partitioned(joined, total, stride) =~= partitioned(buffer, total, stride));
    assert(first.descriptor.with_leading_chunk(rows).chunk_shape
        =~= descriptor.with_leading_chunk(rows).chunk_shape);
}

} // verus!

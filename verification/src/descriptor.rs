//! The array descriptor: reading it from its text, and writing it back.

use crate::error::RechunkError;
use crate::json::{
    entry_views, json_elements, json_member, json_object, json_parse, json_pretty, json_u64,
    json_unsigned_array, member, object, parse_document, pretty, unsigned_array,
};
use serde_json::Value;
use vstd::prelude::*;
use vstd::slice::slice_to_vec;

verus! {

/// The metadata record of one array.
///
/// Only `shape` and `chunk_shape` are interpreted. The other six members are
/// kept exactly as the document held them (JSON `null` where it held none)
/// and are written back unchanged.
#[derive(Clone, Debug, PartialEq)]
pub struct ArrayDescriptor {
    /// Extent of the array along each dimension (`shape`).
    pub shape: Vec<usize>,
    /// Extent of one chunk along each dimension (`chunks`).
    pub chunk_shape: Vec<usize>,
    /// Element type tag (`dtype`).
    pub dtype: Value,
    /// Compressor settings (`compressor`).
    pub compressor: Value,
    /// Value of elements that were never written (`fill_value`).
    pub fill_value: Value,
    /// Memory layout tag (`order`).
    pub order: Value,
    /// Filter chain (`filters`).
    pub filters: Value,
    /// Version of the storage format (`zarr_format`).
    pub format_version: Value,
}

/// What a descriptor holds, as mathematical values.
pub ghost struct DescriptorView {
    pub shape: Seq<usize>,
    pub chunk_shape: Seq<usize>,
    pub dtype: Value,
    pub compressor: Value,
    pub fill_value: Value,
    pub order: Value,
    pub filters: Value,
    pub format_version: Value,
}

impl View for ArrayDescriptor {
    type V = DescriptorView;

    open spec fn view(&self) -> DescriptorView {
        DescriptorView {
            shape: self.shape@,
            chunk_shape: self.chunk_shape@,
            dtype: self.dtype,
            compressor: self.compressor,
            fill_value: self.fill_value,
            order: self.order,
            filters: self.filters,
            format_version: self.format_version,
        }
    }
}

impl DescriptorView {
    /// The descriptor describes an array: shape and chunk geometry have one
    /// entry per dimension, and every entry is positive.
    pub open spec fn well_formed(self) -> bool {
        &&& self.shape.len() == self.chunk_shape.len()
        &&& all_positive(self.shape)
        &&& all_positive(self.chunk_shape)
    }

    /// The same descriptor with `rows` as the leading entry of its chunk
    /// geometry. Nothing else changes.
    pub open spec fn with_leading_chunk(self, rows: usize) -> DescriptorView {
        DescriptorView { chunk_shape: leading_replaced(self.chunk_shape, rows), ..self }
    }
}

/// Every entry of `sizes` is positive.
pub open spec fn all_positive(sizes: Seq<usize>) -> bool {
    forall|i: int| 0 <= i < sizes.len() ==> #[trigger] sizes[i] > 0
}

/// `sizes` with its first entry replaced by `leading`; an empty list stays
/// empty.
pub open spec fn leading_replaced(sizes: Seq<usize>, leading: usize) -> Seq<usize> {
    if sizes.len() > 0 {
        sizes.update(0, leading)
    } else {
        sizes
    }
}

/// The size that a document value stands for: defined where the value is an
/// unsigned integer that the machine's size type can hold.
pub open spec fn size_in(value: Value) -> Option<usize> {
    match json_u64(value) {
        Some(n) => if n <= usize::MAX {
            Some(n as usize)
        } else {
            None
        },
        None => None,
    }
}

/// Every one of `items` is a size.
pub open spec fn all_sizes(items: Seq<Value>) -> bool {
    forall|i: int| 0 <= i < items.len() ==> size_in(#[trigger] items[i]) is Some
}

/// The list of sizes that a document value stands for: defined where the
/// value is an array and every element of it is a size.
pub open spec fn sizes_in(value: Value) -> Option<Seq<usize>> {
    match json_elements(value) {
        Some(items) => if all_sizes(items) {
            Some(items.map_values(|item: Value| size_in(item).unwrap()))
        } else {
            None
        },
        None => None,
    }
}

/// The descriptor that a document describes: defined where `shape` and
/// `chunks` are both lists of sizes.
pub open spec fn descriptor_of(doc: Value) -> Option<DescriptorView> {
    match (sizes_in(json_member(doc, "shape"@)), sizes_in(json_member(doc, "chunks"@))) {
        (Some(shape), Some(chunk_shape)) => Some(
            DescriptorView {
                shape,
                chunk_shape,
                dtype: json_member(doc, "dtype"@),
                compressor: json_member(doc, "compressor"@),
                fill_value: json_member(doc, "fill_value"@),
                order: json_member(doc, "order"@),
                filters: json_member(doc, "filters"@),
                format_version: json_member(doc, "zarr_format"@),
            },
        ),
        _ => None,
    }
}

/// The descriptor that a text describes: defined where the text is a
/// document and that document describes one.
pub open spec fn parsed_descriptor(text: Seq<char>) -> Option<DescriptorView> {
    match json_parse(text) {
        Some(doc) => descriptor_of(doc),
        None => None,
    }
}

/// The members of the document that a descriptor is written as.
pub open spec fn members_of(descriptor: DescriptorView) -> Seq<(Seq<char>, Value)> {
    seq![
        ("chunks"@, json_unsigned_array(descriptor.chunk_shape)),
        ("shape"@, json_unsigned_array(descriptor.shape)),
        ("dtype"@, descriptor.dtype),
        ("compressor"@, descriptor.compressor),
        ("fill_value"@, descriptor.fill_value),
        ("order"@, descriptor.order),
        ("filters"@, descriptor.filters),
        ("zarr_format"@, descriptor.format_version),
    ]
}

/// The document that a descriptor is written as.
pub open spec fn document_of(descriptor: DescriptorView) -> Value {
    json_object(members_of(descriptor))
}

/// The text that a descriptor is written as: its document, pretty-printed.
/// `None` where the document cannot be rendered.
pub open spec fn serialized(descriptor: DescriptorView) -> Option<Seq<char>> {
    json_pretty(document_of(descriptor))
}

/// Reads a size out of a document value.
pub fn read_size(value: &Value) -> (r: Option<usize>)
    ensures
        r == size_in(*value),
{
    match value.as_u64() {
        Some(n) => if n <= usize::MAX as u64 {
            Some(n as usize)
        } else {
            None
        },
        None => None,
    }
}

/// Reads a list of sizes out of a document value.
pub fn read_sizes(value: &Value) -> (r: Option<Vec<usize>>)
    ensures
        match sizes_in(*value) {
            Some(list) => r matches Some(sizes) && sizes@ == list,
            None => r is None,
        },
{
    let items = match value.as_array() {
        Some(items) => items,
        None => {
            return None;
        },
    };
    let mut sizes: Vec<usize> = Vec::new();
    let mut i: usize = 0;
    while i < items.len()
        invariant
            json_elements(*value) == Some(items@),
            i <= items.len(),
            sizes@.len() == i,
            forall|j: int| 0 <= j < i ==> size_in(#[trigger] items@[j]) == Some(sizes@[j]),
        decreases items.len() - i,
    {
        match read_size(&items[i]) {
            Some(size) => sizes.push(size),
            None => {
                return None;
            },
        }
        i += 1;
    }
    assert(all_sizes(items@));
    assert(sizes@ =~= items@.map_values(|item: Value| size_in(item).unwrap()));
    Some(sizes)
}

/// Whether every entry of `sizes` is positive.
fn is_all_positive(sizes: &[usize]) -> (r: bool)
    ensures
        r == all_positive(sizes@),
{
    let mut i: usize = 0;
    while i < sizes.len()
        invariant
            i <= sizes.len(),
            forall|j: int| 0 <= j < i ==> #[trigger] sizes@[j] > 0,
        decreases sizes.len() - i,
    {
        if sizes[i] == 0 {
            return false;
        }
        i += 1;
    }
    true
}

impl ArrayDescriptor {
    /// Reads a descriptor from its text.
    ///
    /// Fails with `Format` exactly when the text is not a document or the
    /// document's `shape` or `chunks` is not a list of sizes.
    pub fn parse(text: &str) -> (r: Result<ArrayDescriptor, RechunkError>)
        ensures
            match parsed_descriptor(text@) {
                Some(expected) => r matches Ok(descriptor) && descriptor@ == expected,
                None => r matches Err(error) && error == RechunkError::Format,
            },
    {
        match parse_document(text) {
            Ok(doc) => ArrayDescriptor::from_document(&doc),
            Err(_) => Err(RechunkError::Format),
        }
    }

    /// Reads a descriptor from a document.
    ///
    /// Fails with `Format` exactly when `shape` or `chunks` is missing or is
    /// not a list of sizes. The other members are taken as they are, and as
    /// `null` where they are missing.
    pub fn from_document(doc: &Value) -> (r: Result<ArrayDescriptor, RechunkError>)
        ensures
            match descriptor_of(*doc) {
                Some(expected) => r matches Ok(descriptor) && descriptor@ == expected,
                None => r matches Err(error) && error == RechunkError::Format,
            },
    {
        let shape = match read_sizes(member(doc, "shape")) {
            Some(sizes) => sizes,
            None => {
                return Err(RechunkError::Format);
            },
        };
        let chunk_shape = match read_sizes(member(doc, "chunks")) {
            Some(sizes) => sizes,
            None => {
                return Err(RechunkError::Format);
            },
        };
        Ok(
            ArrayDescriptor {
                shape,
                chunk_shape,
                dtype: member(doc, "dtype").clone(),
                compressor: member(doc, "compressor").clone(),
                fill_value: member(doc, "fill_value").clone(),
                order: member(doc, "order").clone(),
                filters: member(doc, "filters").clone(),
                format_version: member(doc, "zarr_format").clone(),
            },
        )
    }

    /// Whether the descriptor describes an array. Reading a descriptor does
    /// not check this: a zero extent is found when the array is cut.
    pub fn is_well_formed(&self) -> (r: bool)
        ensures
            r == self@.well_formed(),
    {
        self.shape.len() == self.chunk_shape.len() && is_all_positive(self.shape.as_slice())
            && is_all_positive(self.chunk_shape.as_slice())
    }

    /// The same descriptor with another chunk geometry.
    pub fn with_chunk_shape(&self, chunk_shape: &[usize]) -> (r: ArrayDescriptor)
        ensures
            r@ == (DescriptorView { chunk_shape: chunk_shape@, ..self@ }),
    {
        ArrayDescriptor {
            shape: slice_to_vec(self.shape.as_slice()),
            chunk_shape: slice_to_vec(chunk_shape),
            dtype: self.dtype.clone(),
            compressor: self.compressor.clone(),
            fill_value: self.fill_value.clone(),
            order: self.order.clone(),
            filters: self.filters.clone(),
            format_version: self.format_version.clone(),
        }
    }

    /// The same descriptor with `rows` as the leading entry of its chunk
    /// geometry: the descriptor of the array once it is cut every `rows`
    /// rows. Shape and attributes are carried over as they are.
    pub fn with_leading_chunk(&self, rows: usize) -> (r: ArrayDescriptor)
        ensures
            r@ == self@.with_leading_chunk(rows),
    {
        let mut chunk_shape = slice_to_vec(self.chunk_shape.as_slice());
        if chunk_shape.len() > 0 {
            chunk_shape[0] = rows;
        }
        self.with_chunk_shape(chunk_shape.as_slice())
    }

    /// The document that this descriptor is written as: an object of eight
    /// members, `chunks` and `shape` as arrays of numbers and the others as
    /// they are held.
    pub fn to_document(&self) -> (doc: Value)
        ensures
            doc == document_of(self@),
    {
        let mut entries: Vec<(&'static str, Value)> = Vec::new();
        entries.push(("chunks", unsigned_array(self.chunk_shape.as_slice())));
        entries.push(("shape", unsigned_array(self.shape.as_slice())));
        entries.push(("dtype", self.dtype.clone()));
        entries.push(("compressor", self.compressor.clone()));
        entries.push(("fill_value", self.fill_value.clone()));
        entries.push(("order", self.order.clone()));
        entries.push(("filters", self.filters.clone()));
        entries.push(("zarr_format", self.format_version.clone()));
        assert(entry_views(entries@) =~= members_of(self@));
        object(entries)
    }

    /// The descriptor's text: its document, pretty-printed.
    ///
    /// Fails with `Format` exactly when the document cannot be rendered.
    pub fn serialize(&self) -> (r: Result<String, RechunkError>)
        ensures
            match serialized(self@) {
                Some(text) => r matches Ok(rendered) && rendered@ == text,
                None => r matches Err(error) && error == RechunkError::Format,
            },
    {
        let doc = self.to_document();
        match pretty(&doc) {
            Ok(text) => Ok(text),
            Err(_) => Err(RechunkError::Format),
        }
    }

    /// The text of this descriptor with `chunk_shape` as its chunk geometry
    /// and everything else, the shape too, as it is.
    ///
    /// Fails with `Format` exactly when the document cannot be rendered.
    pub fn serialize_with_chunks(&self, chunk_shape: &[usize]) -> (r: Result<String, RechunkError>)
        ensures
            match serialized(DescriptorView { chunk_shape: chunk_shape@, ..self@ }) {
                Some(text) => r matches Ok(rendered) && rendered@ == text,
                None => r matches Err(error) && error == RechunkError::Format,
            },
    {
        self.with_chunk_shape(chunk_shape).serialize()
    }
}

} // verus!

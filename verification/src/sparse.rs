//! Sparse storage of attributes that deviate from their initialization
//! value: the descriptor records for the index array and the value array.

use vstd::prelude::*;

use crate::buffer::BufferView;
use crate::component::IndexType;

verus! {

/// Indices of those attributes that deviate from their initialization
/// value.
#[derive(Clone, Copy, Debug)]
pub struct Indices {
    /// The buffer view containing the sparse indices.
    pub view: BufferView,
    /// The offset relative to the start of the parent buffer view in bytes.
    pub byte_offset: u32,
    /// The data type of each index.
    pub index_type: IndexType,
}

impl Indices {
    /// Returns the buffer view containing the sparse indices.
    pub fn view(&self) -> (v: BufferView)
        ensures
            v == self.view,
    {
        self.view
    }

    /// The offset relative to the start of the parent buffer view in bytes.
    pub fn offset(&self) -> (n: u32)
        ensures
            n == self.byte_offset,
    {
        self.byte_offset
    }

    /// The data type of each index.
    pub fn index_type(&self) -> (t: IndexType)
        ensures
            t == self.index_type,
    {
        self.index_type
    }
}

/// Array of size `count * number_of_components` storing the displaced
/// accessor attributes pointed at by the indices.
#[derive(Clone, Copy, Debug)]
pub struct Values {
    /// The buffer view containing the sparse values.
    pub view: BufferView,
    /// The offset relative to the start of the parent buffer view in bytes.
    pub byte_offset: u32,
}

impl Values {
    /// Returns the buffer view containing the sparse values.
    pub fn view(&self) -> (v: BufferView)
        ensures
            v == self.view,
    {
        self.view
    }

    /// The offset relative to the start of the parent buffer view in bytes.
    pub fn offset(&self) -> (n: u32)
        ensures
            n == self.byte_offset,
    {
        self.byte_offset
    }
}

/// Sparse storage of attributes that deviate from their initialization
/// value: `count` overridden elements, an index array naming the positions,
/// and a parallel value array sharing the accessor's shape and encoding.
#[derive(Clone, Copy, Debug)]
pub struct Sparse {
    /// The number of attributes encoded in this sparse accessor.
    pub count: u32,
    /// The index array descriptor.
    pub indices: Indices,
    /// The value array descriptor.
    pub values: Values,
}

impl Sparse {
    /// Returns the number of attributes encoded in this sparse accessor.
    pub fn count(&self) -> (n: u32)
        ensures
            n == self.count,
    {
        self.count
    }

    /// Returns the descriptor of the index array of size `count` that
    /// points at the accessor attributes that deviate from their
    /// initialization value.
    pub fn indices(&self) -> (r: Indices)
        ensures
            r == self.indices,
    {
        self.indices
    }

    /// Returns the descriptor of the array of size
    /// `count * number_of_components` storing the displaced accessor
    /// attributes pointed at by `indices`.
    pub fn values(&self) -> (r: Values)
        ensures
            r == self.values,
    {
        self.values
    }
}

} // verus!

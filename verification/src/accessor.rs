//! The accessor record: metadata describing how to interpret elements
//! within a buffer view as typed values.

use vstd::prelude::*;

use crate::buffer::BufferView;
use crate::codec::{padded_element_byte_size, padded_element_size_spec};
use crate::component::{ComponentEncoding, ElementShape};
use crate::error::Error;
use crate::sparse::Sparse;

verus! {

/// Metadata describing how to interpret elements within a buffer view as
/// typed values. Immutable once derived from a loaded document.
#[derive(Clone, Copy, Debug)]
pub struct Accessor {
    /// The backing view; absent only when the accessor is fully
    /// sparse-defined or logically empty, in which case the baseline is
    /// zero-filled.
    pub view: Option<BufferView>,
    /// The byte offset of the first element within the view.
    pub byte_offset: u32,
    /// The encoding of each component.
    pub component_encoding: ComponentEncoding,
    /// The shape of each element.
    pub element_shape: ElementShape,
    /// Whether integer components are to be read as fixed-point values in
    /// `[0, 1]` or `[-1, 1]`.
    pub normalized: bool,
    /// The number of elements, fixed for the accessor's lifetime.
    pub count: u32,
    /// The optional sparse overlay descriptor.
    pub sparse: Option<Sparse>,
}

impl Accessor {
    /// The stride the dense reader advances by: the view's explicit stride
    /// if present, else the padded element size.
    pub open spec fn stride_spec(self) -> int {
        match self.view {
            Some(v) => match v.byte_stride {
                Some(s) => s as int,
                None => padded_element_size_spec(self.component_encoding, self.element_shape),
            },
            None => padded_element_size_spec(self.component_encoding, self.element_shape),
        }
    }

    /// The data-model invariant: an explicit stride must cover at least one
    /// padded element.
    pub open spec fn wf_spec(self) -> bool {
        match self.view {
            Some(v) => match v.byte_stride {
                Some(s) => s >= padded_element_size_spec(
                    self.component_encoding,
                    self.element_shape,
                ),
                None => true,
            },
            None => true,
        }
    }

    /// Returns the stride, in bytes, between the starts of consecutive
    /// elements.
    pub fn stride(&self) -> (n: u32)
        ensures
            n == self.stride_spec(),
    {
        proof {
            crate::codec::lemma_sizes_small(self.component_encoding, self.element_shape);
        }
        match self.view {
            Some(v) => match v.byte_stride {
                Some(s) => s,
                None => padded_element_byte_size(self.component_encoding, self.element_shape)
                    as u32,
            },
            None => padded_element_byte_size(self.component_encoding, self.element_shape) as u32,
        }
    }

    /// Returns whether the accessor meets the data-model invariant on its
    /// declared stride.
    pub fn well_formed(&self) -> (b: bool)
        ensures
            b == self.wf_spec(),
    {
        proof {
            crate::codec::lemma_sizes_small(self.component_encoding, self.element_shape);
        }
        match self.view {
            Some(v) => match v.byte_stride {
                Some(s) => s as usize >= padded_element_byte_size(
                    self.component_encoding,
                    self.element_shape,
                ),
                None => true,
            },
            None => true,
        }
    }

    /// Checks a caller's requested concrete interpretation against the
    /// accessor's declaration; a mismatch fails fast, before any element is
    /// read.
    pub fn check_format(
        &self,
        encoding: ComponentEncoding,
        shape: ElementShape,
        normalized: bool,
    ) -> (r: Result<(), Error>)
        ensures
            r is Ok <==> (self.component_encoding == encoding && self.element_shape == shape
                && self.normalized == normalized),
            r is Err ==> r == Err::<(), Error>(Error::Mismatch),
    {
        if self.component_encoding == encoding && self.element_shape == shape && self.normalized
            == normalized {
            Ok(())
        } else {
            Err(Error::Mismatch)
        }
    }
}

} // verus!

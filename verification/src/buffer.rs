//! Buffers and buffer views, and the view resolver: turning a view
//! descriptor plus caller-supplied bytes into the sub-slice the view covers,
//! with bounds checking.

use vstd::prelude::*;
use vstd::slice::slice_subrange;

use crate::error::Error;

verus! {

/// Raw byte storage referenced by index: an opaque identifier plus the
/// declared total byte length. Read-only after load.
#[derive(Clone, Copy, Debug)]
pub struct Buffer {
    /// The buffer's index within the owning document.
    pub index: u32,
    /// The declared total byte length.
    pub byte_length: u32,
}

/// A typed window (offset, length, optional stride) into a buffer.
#[derive(Clone, Copy, Debug)]
pub struct BufferView {
    /// The index of the buffer this view reads.
    pub buffer: u32,
    /// The byte offset of the window within its buffer.
    pub byte_offset: u32,
    /// The byte length of the window.
    pub byte_length: u32,
    /// The distance between elements read through this view; absent means
    /// tightly packed at the padded element size.
    pub byte_stride: Option<u32>,
}

impl BufferView {
    /// Does this view lie within a buffer of `len` bytes?
    pub open spec fn fits_spec(self, len: int) -> bool {
        self.byte_offset + self.byte_length <= len
    }

    /// The data-model invariant: the window lies within its buffer's
    /// declared length.
    pub open spec fn fits_buffer_spec(self, buffer: Buffer) -> bool {
        self.buffer == buffer.index && self.fits_spec(buffer.byte_length as int)
    }

    /// Returns whether this view references `buffer` and lies within its
    /// declared byte length.
    pub fn fits_buffer(&self, buffer: &Buffer) -> (b: bool)
        ensures
            b == self.fits_buffer_spec(*buffer),
    {
        self.buffer == buffer.index && self.byte_offset as u64 + self.byte_length as u64
            <= buffer.byte_length as u64
    }

    /// The window of the buffer's bytes that this view covers.
    pub open spec fn window_spec(self, data: Seq<u8>) -> Seq<u8> {
        data.subrange(self.byte_offset as int, self.byte_offset + self.byte_length)
    }
}

/// Resolves `view` against the bytes of its buffer, as supplied by the byte
/// source: `None` means the source has no data for that buffer, which is a
/// first-class outcome distinct from a bounds error.
pub fn resolve<'a>(view: &BufferView, source: Option<&'a [u8]>) -> (r: Result<&'a [u8], Error>)
    ensures
        match source {
            None => r == Err::<&'a [u8], Error>(Error::Unavailable),
            Some(data) => if view.fits_spec(data@.len() as int) {
                r matches Ok(slice) && slice@ =~= view.window_spec(data@)
            } else {
                r == Err::<&'a [u8], Error>(Error::OutOfBounds)
            },
        },
{
    match source {
        None => Err(Error::Unavailable),
        Some(data) => {
            let n: usize = data.len();
            let off: usize = view.byte_offset as usize;
            let len: usize = view.byte_length as usize;
            if off <= n && len <= n - off {
                Ok(slice_subrange(data, off, off + len))
            } else {
                Err(Error::OutOfBounds)
            }
        },
    }
}

} // verus!

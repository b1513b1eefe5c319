//! The dense reader and the sparse overlay: walking an accessor's `count`
//! elements across a resolved view (honoring stride), decoding and
//! validating a sparse index/value pair, and producing the overlaid
//! element sequence.

use vstd::arithmetic::mul::{
    lemma_mul_inequality, lemma_mul_is_distributive_add_other_way, lemma_mul_upper_bound,
};
use vstd::prelude::*;

use crate::accessor::Accessor;
use crate::codec::{
    decode_element, element_byte_span, element_span_spec, element_spec, padded_element_byte_size,
    padded_element_size_spec,
};
use crate::component::ElementShape;
use crate::component::ComponentEncoding;
use crate::error::Error;
use crate::sparse::Sparse;

verus! {

/// The views of an optional slice argument.
pub open spec fn opt_view(data: Option<&[u8]>) -> Option<Seq<u8>> {
    match data {
        Some(d) => Some(d@),
        None => None,
    }
}

/// The byte position of element `i` within the resolved view window:
/// the accessor's own offset plus `i` strides.
pub open spec fn element_pos_spec(acc: Accessor, i: int) -> int {
    acc.byte_offset + i * acc.stride_spec()
}

/// Can element `i` be read from a resolved window of `len` bytes without
/// touching bytes past the end?
pub open spec fn element_fits_spec(acc: Accessor, len: int, i: int) -> bool {
    element_pos_spec(acc, i) + element_span_spec(acc.component_encoding, acc.element_shape) <= len
}

/// The dense element at index `i` of the resolved window.
pub open spec fn dense_element_spec(acc: Accessor, data: Seq<u8>, i: int) -> Seq<u32> {
    element_spec(data, element_pos_spec(acc, i), acc.component_encoding, acc.element_shape)
}

/// The all-zero element of a shape: the baseline of an accessor with no
/// backing view.
pub open spec fn zero_element_spec(shape: ElementShape) -> Seq<u32> {
    Seq::new(shape.component_count_spec() as nat, |j: int| 0u32)
}

/// What one baseline read of element `i` produces: the zero element when
/// the accessor has no view, else the dense element, or an out-of-bounds
/// failure if the window is too short for it. (`data` carries the resolved
/// window exactly when the accessor has a view.)
pub open spec fn baseline_result_spec(acc: Accessor, data: Option<Seq<u8>>, i: int) -> Result<
    Seq<u32>,
    Error,
> {
    match acc.view {
        None => Ok(zero_element_spec(acc.element_shape)),
        Some(_) => {
            let d = data->Some_0;
            if element_fits_spec(acc, d.len() as int, i) {
                Ok(dense_element_spec(acc, d, i))
            } else {
                Err(Error::OutOfBounds)
            }
        },
    }
}

/// Does the executable result `r` deliver exactly the specified result `s`?
pub open spec fn result_matches(r: Result<Vec<u32>, Error>, s: Result<Seq<u32>, Error>) -> bool {
    match r {
        Ok(v) => s is Ok && v@ =~= s->Ok_0,
        Err(e) => s == Err::<Seq<u32>, Error>(e),
    }
}

/// Returns the all-zero element of `shape`.
pub fn zero_element(shape: ElementShape) -> (r: Vec<u32>)
    ensures
        r@ =~= zero_element_spec(shape),
{
    let cnt: usize = shape.component_count();
    let mut r: Vec<u32> = Vec::new();
    let mut j: usize = 0;
    while j < cnt
        invariant
            j <= cnt,
            r@.len() == j,
            forall|t: int| 0 <= t < j ==> r@[t] == 0u32,
        decreases cnt - j,
    {
        r.push(0);
        j = j + 1;
    }
    r
}

/// Reads dense element `i` from the resolved window `data`: the element's
/// bytes start `i` strides past the accessor's offset, and the read fails
/// (rather than zero-filling) if they would run past the window's end.
pub fn dense_element(acc: &Accessor, data: &[u8], i: u32) -> (r: Result<Vec<u32>, Error>)
    requires
        acc.wf_spec(),
        i < acc.count,
    ensures
        element_fits_spec(*acc, data@.len() as int, i as int) ==> (r matches Ok(e) && e@
            =~= dense_element_spec(*acc, data@, i as int)),
        !element_fits_spec(*acc, data@.len() as int, i as int) ==> r == Err::<Vec<u32>, Error>(
            Error::OutOfBounds,
        ),
{
    let enc = acc.component_encoding;
    let shape = acc.element_shape;
    let span: usize = element_byte_span(enc, shape);
    let stride: u32 = acc.stride();
    let n: usize = data.len();
    proof {
        lemma_mul_upper_bound(i as int, 0xffff_ffffint, stride as int, 0xffff_ffffint);
        crate::codec::lemma_sizes_small(enc, shape);
    }
    let need: u64 = acc.byte_offset as u64 + (i as u64) * (stride as u64) + span as u64;
    if need <= n as u64 {
        let start: usize = acc.byte_offset as usize + (i as usize) * (stride as usize);
        let e: Vec<u32> = decode_element(data, start, enc, shape);
        Ok(e)
    } else {
        Err(Error::OutOfBounds)
    }
}

/// Reads baseline element `i`: the zero element when the accessor has no
/// view, else the dense element of the resolved window.
pub fn baseline_element(acc: &Accessor, data: Option<&[u8]>, i: u32) -> (r: Result<Vec<u32>, Error>)
    requires
        acc.wf_spec(),
        i < acc.count,
        data is Some <==> acc.view is Some,
    ensures
        result_matches(r, baseline_result_spec(*acc, opt_view(data), i as int)),
{
    match data {
        None => Ok(zero_element(acc.element_shape)),
        Some(d) => dense_element(acc, d, i),
    }
}

/// Is `s` strictly increasing (hence duplicate-free)?
pub open spec fn strictly_increasing_spec(s: Seq<int>) -> bool {
    forall|a: int, b: int| 0 <= a < b < s.len() ==> s[a] < s[b]
}

/// A strictly increasing sequence is strictly increasing between any two
/// positions, not just adjacent ones.
proof fn lemma_increasing_pair(s: Seq<int>, a: int, b: int)
    requires
        forall|t: int| 0 < t < s.len() ==> #[trigger] s[t - 1] < s[t],
        0 <= a < b < s.len(),
    ensures
        s[a] < s[b],
    decreases b - a,
{
    if a + 1 < b {
        lemma_increasing_pair(s, a, b - 1);
    }
    assert(s[b - 1] < s[b]);
}

/// Adjacent order implies full strict order.
pub proof fn lemma_adjacent_increasing(s: Seq<int>)
    requires
        forall|t: int| 0 < t < s.len() ==> #[trigger] s[t - 1] < s[t],
    ensures
        strictly_increasing_spec(s),
{
    assert forall|a: int, b: int| 0 <= a < b < s.len() implies s[a] < s[b] by {
        lemma_increasing_pair(s, a, b);
    }
}

/// The `j`-th raw index of a sparse index array, decoded with the index
/// encoding's rule: unsigned, raw, non-normalized, tightly packed.
pub open spec fn sparse_index_spec(sp: Sparse, data: Seq<u8>, j: int) -> int {
    crate::codec::le_val(
        data,
        sp.indices.byte_offset + j * sp.indices.index_type.size_spec(),
        sp.indices.index_type.size_spec(),
    )
}

/// The whole decoded index array.
pub open spec fn sparse_indices_spec(sp: Sparse, data: Seq<u8>) -> Seq<int> {
    Seq::new(sp.count as nat, |j: int| sparse_index_spec(sp, data, j))
}

/// Do all `count` indices lie within the resolved index window?
pub open spec fn indices_fit_spec(sp: Sparse, len: int) -> bool {
    sp.indices.byte_offset + sp.count * sp.indices.index_type.size_spec() <= len
}

/// Are the decoded indices strictly increasing and all below `limit` (the
/// accessor's element count)?
pub open spec fn indices_valid_spec(sp: Sparse, data: Seq<u8>, limit: int) -> bool {
    &&& strictly_increasing_spec(sparse_indices_spec(sp, data))
    &&& forall|j: int| 0 <= j < sp.count ==> #[trigger] sparse_index_spec(sp, data, j) < limit
}

/// The byte position of the `j`-th sparse value element: tightly packed at
/// the padded element size.
pub open spec fn value_pos_spec(
    sp: Sparse,
    enc: ComponentEncoding,
    shape: ElementShape,
    j: int,
) -> int {
    sp.values.byte_offset + j * padded_element_size_spec(enc, shape)
}

/// Do all `count` value elements lie within the resolved value window?
pub open spec fn values_fit_spec(
    sp: Sparse,
    enc: ComponentEncoding,
    shape: ElementShape,
    len: int,
) -> bool {
    sp.count == 0 || value_pos_spec(sp, enc, shape, sp.count - 1) + element_span_spec(enc, shape)
        <= len
}

/// The `j`-th sparse value element.
pub open spec fn sparse_value_spec(
    sp: Sparse,
    enc: ComponentEncoding,
    shape: ElementShape,
    data: Seq<u8>,
    j: int,
) -> Seq<u32> {
    element_spec(data, value_pos_spec(sp, enc, shape, j), enc, shape)
}

/// Validation of a sparse descriptor against the accessor's element count
/// and the two resolved windows, in the order the checks run: the
/// descriptor's count, the index window's bounds, the decoded indices'
/// order and range, the value window's bounds.
pub open spec fn sparse_check_spec(
    sp: Sparse,
    acc_count: int,
    enc: ComponentEncoding,
    shape: ElementShape,
    idx_data: Seq<u8>,
    val_data: Seq<u8>,
) -> Result<(), Error> {
    if sp.count > acc_count {
        Err(Error::MalformedSparse)
    } else if !indices_fit_spec(sp, idx_data.len() as int) {
        Err(Error::OutOfBounds)
    } else if !indices_valid_spec(sp, idx_data, acc_count) {
        Err(Error::MalformedSparse)
    } else if !values_fit_spec(sp, enc, shape, val_data.len() as int) {
        Err(Error::OutOfBounds)
    } else {
        Ok(())
    }
}

/// A decoded, validated sparse overlay: the positions that deviate from
/// the baseline, and the elements that replace them, in matching order.
#[derive(Debug)]
pub struct SparseOverlay {
    /// The decoded index array: strictly increasing, each below the
    /// accessor's element count.
    pub indices: Vec<u32>,
    /// The decoded value elements, parallel to `indices`.
    pub values: Vec<Vec<u32>>,
}

impl SparseOverlay {
    /// The decoded indices as mathematical integers.
    pub open spec fn index_seq(self) -> Seq<int> {
        self.indices@.map_values(|v: u32| v as int)
    }

    /// Well-formedness: parallel arrays, strictly increasing indices below
    /// `limit`, each value element of the accessor's shape.
    pub open spec fn wf_spec(self, limit: int, shape: ElementShape) -> bool {
        &&& self.values@.len() == self.indices@.len()
        &&& strictly_increasing_spec(self.index_seq())
        &&& forall|j: int| 0 <= j < self.indices@.len() ==> (#[trigger] self.indices@[j]) < limit
        &&& forall|j: int|
            0 <= j < self.values@.len() ==> (#[trigger] self.values@[j])@.len()
                == shape.component_count_spec()
    }

    /// Does the overlay replace the element at output position `i`?
    pub open spec fn overridden_spec(self, i: int) -> bool {
        exists|j: int| 0 <= j < self.indices@.len() && self.indices@[j] == i
    }

    /// The element the overlay puts at position `i` (meaningful only when
    /// `i` is overridden; unique because the indices are strictly
    /// increasing).
    pub open spec fn override_value_spec(self, i: int) -> Seq<u32> {
        let j = choose|j: int| 0 <= j < self.indices@.len() && self.indices@[j] == i;
        self.values@[j]@
    }
}

/// Strictly increasing indices name each position at most once, so the
/// override value at a named position is the value parallel to its index.
pub proof fn lemma_override_unique(ov: SparseOverlay, i: int, j: int)
    requires
        strictly_increasing_spec(ov.index_seq()),
        0 <= j < ov.indices@.len(),
        ov.indices@[j] == i,
    ensures
        ov.overridden_spec(i),
        ov.override_value_spec(i) == ov.values@[j]@,
{
    assert(ov.overridden_spec(i));
    assert forall|j2: int| 0 <= j2 < ov.indices@.len() && ov.indices@[j2] == i implies j2 == j by {
        assert(ov.index_seq()[j] == i);
        assert(ov.index_seq()[j2] == i);
        if j < j2 {
            assert(ov.index_seq()[j] < ov.index_seq()[j2]);
        }
        if j2 < j {
            assert(ov.index_seq()[j2] < ov.index_seq()[j]);
        }
    }
}

/// Finds the overlay slot that names output position `i`, if any.
fn find_override(ov: &SparseOverlay, i: u32) -> (r: Option<usize>)
    ensures
        match r {
            Some(j) => j < ov.indices@.len() && ov.indices@[j as int] == i,
            None => !ov.overridden_spec(i as int),
        },
{
    let n: usize = ov.indices.len();
    let mut j: usize = 0;
    while j < n
        invariant
            j <= n,
            n == ov.indices@.len(),
            forall|t: int| 0 <= t < j ==> ov.indices@[t] != i,
        decreases n - j,
    {
        if ov.indices[j] == i {
            return Some(j);
        }
        j = j + 1;
    }
    None
}

/// Copies one decoded element.
fn copy_element(v: &Vec<u32>) -> (r: Vec<u32>)
    ensures
        r@ =~= v@,
{
    let n: usize = v.len();
    let mut r: Vec<u32> = Vec::new();
    let mut j: usize = 0;
    while j < n
        invariant
            j <= n,
            n == v@.len(),
            r@.len() == j,
            forall|t: int| 0 <= t < j ==> r@[t] == v@[t],
        decreases n - j,
    {
        r.push(v[j]);
        j = j + 1;
    }
    r
}

/// Decodes and validates a sparse descriptor against the two resolved
/// windows. Validation happens wholly here, before any overlaid element is
/// produced: the descriptor's count, the index window's bounds, the decoded
/// indices' order and range, and the value window's bounds, in that order.
#[verifier::loop_isolation(false)]
pub fn decode_sparse(acc: &Accessor, index_data: &[u8], value_data: &[u8]) -> (r: Result<
    SparseOverlay,
    Error,
>)
    requires
        acc.sparse is Some,
    ensures
        ({
            let sp = acc.sparse->Some_0;
            match r {
                Ok(ov) => {
                    &&& sparse_check_spec(
                        sp,
                        acc.count as int,
                        acc.component_encoding,
                        acc.element_shape,
                        index_data@,
                        value_data@,
                    ) is Ok
                    &&& ov.wf_spec(acc.count as int, acc.element_shape)
                    &&& ov.index_seq() =~= sparse_indices_spec(sp, index_data@)
                    &&& forall|j: int|
                        0 <= j < sp.count ==> (#[trigger] ov.values@[j])@ =~= sparse_value_spec(
                            sp,
                            acc.component_encoding,
                            acc.element_shape,
                            value_data@,
                            j,
                        )
                },
                Err(e) => Err::<(), Error>(e) == sparse_check_spec(
                    sp,
                    acc.count as int,
                    acc.component_encoding,
                    acc.element_shape,
                    index_data@,
                    value_data@,
                ),
            }
        }),
{
    let sp: Sparse = acc.sparse.unwrap();
    let enc = acc.component_encoding;
    let shape = acc.element_shape;
    if sp.count > acc.count {
        return Err(Error::MalformedSparse);
    }
    let idx_size: usize = sp.indices.index_type.size();
    let n_idx: usize = index_data.len();
    let n_val: usize = value_data.len();
    proof {
        lemma_mul_upper_bound(sp.count as int, 0xffff_ffffint, idx_size as int, 4int);
    }
    let need_idx: u64 = sp.indices.byte_offset as u64 + (sp.count as u64) * (idx_size as u64);
    if need_idx > n_idx as u64 {
        return Err(Error::OutOfBounds);
    }
    let enc_idx = sp.indices.index_type.encoding();
    let cnt: usize = sp.count as usize;
    let mut indices: Vec<u32> = Vec::new();
    let mut j: usize = 0;
    while j < cnt
        invariant
            j <= cnt,
            cnt == sp.count,
            idx_size == sp.indices.index_type.size_spec(),
            enc_idx == sp.indices.index_type.encoding_spec(),
            enc_idx.size_spec() == idx_size,
            sp.indices.byte_offset + cnt * idx_size <= index_data@.len(),
            index_data@.len() <= usize::MAX,
            indices@.len() == j,
            forall|t: int|
                0 <= t < j ==> (#[trigger] indices@[t]) as int == sparse_index_spec(
                    sp,
                    index_data@,
                    t,
                ),
        decreases cnt - j,
    {
        proof {
            lemma_mul_inequality(j as int + 1, cnt as int, idx_size as int);
            lemma_mul_is_distributive_add_other_way(idx_size as int, j as int, 1int);
            crate::codec::lemma_le_val_bound(
                index_data@,
                sp.indices.byte_offset + (j as int) * idx_size,
                idx_size as int,
            );
            crate::codec::lemma_pow256_values();
        }
        let off: usize = sp.indices.byte_offset as usize + j * idx_size;
        let v: u32 = crate::codec::decode_component(index_data, off, enc_idx);
        indices.push(v);
        j = j + 1;
    }
    let mut t: usize = 0;
    while t < cnt
        invariant
            t <= cnt,
            cnt == sp.count,
            cnt == indices@.len(),
            sp.count <= acc.count,
            sp.indices.byte_offset + cnt * idx_size <= index_data@.len(),
            idx_size == sp.indices.index_type.size_spec(),
            forall|q: int|
                0 <= q < cnt ==> (#[trigger] indices@[q]) as int == sparse_index_spec(
                    sp,
                    index_data@,
                    q,
                ),
            forall|q: int| 0 <= q < t ==> (#[trigger] indices@[q]) < acc.count,
            forall|q: int| 0 < q < t ==> indices@[q - 1] < #[trigger] indices@[q],
        decreases cnt - t,
    {
        if indices[t] >= acc.count {
            proof {
                assert(sparse_index_spec(sp, index_data@, t as int) >= acc.count);
                assert(!indices_valid_spec(sp, index_data@, acc.count as int));
            }
            return Err(Error::MalformedSparse);
        }
        if t > 0 && indices[t - 1] >= indices[t] {
            proof {
                let s = sparse_indices_spec(sp, index_data@);
                assert(s[t - 1] == indices@[t - 1] as int);
                assert(s[t as int] == indices@[t as int] as int);
                assert(!strictly_increasing_spec(s));
                assert(!indices_valid_spec(sp, index_data@, acc.count as int));
            }
            return Err(Error::MalformedSparse);
        }
        t = t + 1;
    }
    proof {
        let s = sparse_indices_spec(sp, index_data@);
        assert forall|q: int| 0 < q < s.len() implies #[trigger] s[q - 1] < s[q] by {
            assert(indices@[q - 1] as int == s[q - 1]);
            assert(indices@[q] as int == s[q]);
        }
        lemma_adjacent_increasing(s);
        assert forall|q: int|
            0 <= q < sp.count implies #[trigger] sparse_index_spec(sp, index_data@, q)
            < acc.count by {
            assert(indices@[q] as int == sparse_index_spec(sp, index_data@, q));
        }
        assert(indices_valid_spec(sp, index_data@, acc.count as int));
    }
    let padded: usize = padded_element_byte_size(enc, shape);
    let span: usize = element_byte_span(enc, shape);
    proof {
        crate::codec::lemma_sizes_small(enc, shape);
        if sp.count > 0 {
            lemma_mul_upper_bound(sp.count as int - 1, 0xffff_ffffint, padded as int, 80int);
        }
    }
    if cnt > 0 {
        let need_val: u64 = sp.values.byte_offset as u64 + ((sp.count - 1) as u64) * (padded
            as u64) + span as u64;
        if need_val > n_val as u64 {
            return Err(Error::OutOfBounds);
        }
    }
    let mut values: Vec<Vec<u32>> = Vec::new();
    let mut k: usize = 0;
    while k < cnt
        invariant
            k <= cnt,
            cnt == sp.count,
            padded == padded_element_size_spec(enc, shape),
            span == element_span_spec(enc, shape),
            cnt > 0 ==> sp.values.byte_offset + (cnt - 1) * padded + span <= value_data@.len(),
            value_data@.len() <= usize::MAX,
            values@.len() == k,
            forall|q: int|
                0 <= q < k ==> (#[trigger] values@[q])@ =~= sparse_value_spec(
                    sp,
                    enc,
                    shape,
                    value_data@,
                    q,
                ),
        decreases cnt - k,
    {
        proof {
            lemma_mul_inequality(k as int, cnt as int - 1, padded as int);
        }
        let off_v: usize = sp.values.byte_offset as usize + k * padded;
        let e: Vec<u32> = decode_element(value_data, off_v, enc, shape);
        values.push(e);
        k = k + 1;
    }
    let ov = SparseOverlay { indices, values };
    proof {
        let s = sparse_indices_spec(sp, index_data@);
        assert forall|q: int| 0 <= q < cnt implies ov.index_seq()[q] == s[q] by {
            assert(ov.index_seq()[q] == ov.indices@[q] as int);
        }
        assert(ov.index_seq() =~= s);
        assert forall|q: int|
            0 <= q < cnt implies (#[trigger] ov.values@[q])@.len()
            == shape.component_count_spec() by {
            assert(ov.values@[q]@ =~= sparse_value_spec(sp, enc, shape, value_data@, q));
        }
    }
    Ok(ov)
}

/// The overlay argument of a read, by value.
pub open spec fn overlay_view(o: Option<&SparseOverlay>) -> Option<SparseOverlay> {
    match o {
        Some(ov) => Some(*ov),
        None => None,
    }
}

/// What reading output position `i` produces: the override value where the
/// overlay names `i`, else the baseline element at `i` — identically
/// whether the baseline is view-backed or the zero fill.
pub open spec fn overlay_result_spec(
    acc: Accessor,
    data: Option<Seq<u8>>,
    overlay: Option<SparseOverlay>,
    i: int,
) -> Result<Seq<u32>, Error> {
    match overlay {
        Some(ov) => if ov.overridden_spec(i) {
            Ok(ov.override_value_spec(i))
        } else {
            baseline_result_spec(acc, data, i)
        },
        None => baseline_result_spec(acc, data, i),
    }
}

/// Reads output element `i` of the accessor: the decoded sparse override
/// if `i` is one of the overlay's positions, else the baseline element.
pub fn read_element(
    acc: &Accessor,
    base: Option<&[u8]>,
    overlay: Option<&SparseOverlay>,
    i: u32,
) -> (r: Result<Vec<u32>, Error>)
    requires
        acc.wf_spec(),
        i < acc.count,
        base is Some <==> acc.view is Some,
        match overlay {
            Some(ov) => ov.wf_spec(acc.count as int, acc.element_shape),
            None => true,
        },
    ensures
        result_matches(r, overlay_result_spec(*acc, opt_view(base), overlay_view(overlay), i as int)),
{
    match overlay {
        Some(ov) => match find_override(ov, i) {
            Some(j) => {
                proof {
                    lemma_override_unique(*ov, i as int, j as int);
                }
                Ok(copy_element(&ov.values[j]))
            },
            None => baseline_element(acc, base, i),
        },
        None => baseline_element(acc, base, i),
    }
}

/// Reads all `count` output elements in one linear merge pass over the
/// baseline and the overlay's index/value pairs, in output order. Fails on
/// the first element whose bytes fall outside the resolved window; a
/// malformed overlay never reaches this point, since decoding validated it.
#[verifier::loop_isolation(false)]
pub fn read_all(acc: &Accessor, base: Option<&[u8]>, overlay: Option<&SparseOverlay>) -> (r: Result<
    Vec<Vec<u32>>,
    Error,
>)
    requires
        acc.wf_spec(),
        base is Some <==> acc.view is Some,
        match overlay {
            Some(ov) => ov.wf_spec(acc.count as int, acc.element_shape),
            None => true,
        },
    ensures
        match r {
            Ok(v) => v@.len() == acc.count && (forall|i: int|
                0 <= i < acc.count ==> (#[trigger] overlay_result_spec(
                    *acc,
                    opt_view(base),
                    overlay_view(overlay),
                    i,
                )) is Ok) && (forall|i: int|
                0 <= i < acc.count ==> (#[trigger] v@[i])@ =~= overlay_result_spec(
                    *acc,
                    opt_view(base),
                    overlay_view(overlay),
                    i,
                )->Ok_0),
            Err(e) => exists|i: int|
                0 <= i < acc.count && #[trigger] overlay_result_spec(
                    *acc,
                    opt_view(base),
                    overlay_view(overlay),
                    i,
                ) == Err::<Seq<u32>, Error>(e) && forall|q: int|
                    0 <= q < i ==> (#[trigger] overlay_result_spec(
                        *acc,
                        opt_view(base),
                        overlay_view(overlay),
                        q,
                    )) is Ok,
        },
{
    let count: u32 = acc.count;
    let mut out: Vec<Vec<u32>> = Vec::new();
    let mut i: u32 = 0;
    match overlay {
        None => {
            while i < count
                invariant
                    i <= count,
                    out@.len() == i,
                    forall|q: int|
                        0 <= q < i ==> (#[trigger] overlay_result_spec(
                            *acc,
                            opt_view(base),
                            overlay_view(overlay),
                            q,
                        )) is Ok,
                    forall|q: int|
                        0 <= q < i ==> (#[trigger] out@[q])@ =~= overlay_result_spec(
                            *acc,
                            opt_view(base),
                            overlay_view(overlay),
                            q,
                        )->Ok_0,
                decreases count - i,
            {
                let ghost prev = out@;
                match baseline_element(acc, base, i) {
                    Ok(e) => {
                        out.push(e);
                        proof {
                            assert(overlay_result_spec(
                                *acc,
                                opt_view(base),
                                overlay_view(overlay),
                                i as int,
                            ) is Ok);
                            assert forall|q: int|
                                0 <= q < i + 1 implies (#[trigger] out@[q])@
                                =~= overlay_result_spec(
                                *acc,
                                opt_view(base),
                                overlay_view(overlay),
                                q,
                            )->Ok_0 by {
                                if q < i {
                                    assert(out@[q] == prev[q]);
                                }
                            }
                        }
                    },
                    Err(er) => {
                        proof {
                            assert(overlay_result_spec(
                                *acc,
                                opt_view(base),
                                overlay_view(overlay),
                                i as int,
                            ) == Err::<Seq<u32>, Error>(er));
                        }
                        return Err(er);
                    },
                }
                i = i + 1;
            }
            Ok(out)
        },
        Some(ov) => {
            let mut p: usize = 0;
            while i < count
                invariant
                    i <= count,
                    out@.len() == i,
                    p <= ov.indices@.len(),
                    forall|t: int| 0 <= t < p ==> (#[trigger] ov.indices@[t]) < i,
                    p < ov.indices@.len() ==> ov.indices@[p as int] >= i,
                    forall|q: int|
                        0 <= q < i ==> (#[trigger] overlay_result_spec(
                            *acc,
                            opt_view(base),
                            overlay_view(overlay),
                            q,
                        )) is Ok,
                    forall|q: int|
                        0 <= q < i ==> (#[trigger] out@[q])@ =~= overlay_result_spec(
                            *acc,
                            opt_view(base),
                            overlay_view(overlay),
                            q,
                        )->Ok_0,
                decreases count - i,
            {
                let n_ov: usize = ov.indices.len();
                let ghost prev = out@;
                if p < n_ov && ov.indices[p] == i {
                    let e = copy_element(&ov.values[p]);
                    proof {
                        lemma_override_unique(*ov, i as int, p as int);
                        if p + 1 < ov.indices@.len() {
                            assert(ov.index_seq()[p as int] < ov.index_seq()[p + 1]);
                        }
                        assert(overlay_result_spec(
                            *acc,
                            opt_view(base),
                            overlay_view(overlay),
                            i as int,
                        ) is Ok);
                    }
                    out.push(e);
                    p = p + 1;
                    proof {
                        assert forall|q: int|
                            0 <= q < i + 1 implies (#[trigger] out@[q])@ =~= overlay_result_spec(
                            *acc,
                            opt_view(base),
                            overlay_view(overlay),
                            q,
                        )->Ok_0 by {
                            if q < i {
                                assert(out@[q] == prev[q]);
                            }
                        }
                    }
                } else {
                    proof {
                        assert forall|t: int|
                            0 <= t < ov.indices@.len() implies (#[trigger] ov.indices@[t])
                            != i by {
                            if p <= t && (p as int) < ov.indices@.len() {
                                if p < t {
                                    assert(ov.index_seq()[p as int] < ov.index_seq()[t]);
                                }
                            }
                        }
                        assert(!ov.overridden_spec(i as int));
                    }
                    match baseline_element(acc, base, i) {
                        Ok(e) => {
                            out.push(e);
                            proof {
                                assert(overlay_result_spec(
                                    *acc,
                                    opt_view(base),
                                    overlay_view(overlay),
                                    i as int,
                                ) is Ok);
                                assert forall|q: int|
                                    0 <= q < i + 1 implies (#[trigger] out@[q])@
                                    =~= overlay_result_spec(
                                    *acc,
                                    opt_view(base),
                                    overlay_view(overlay),
                                    q,
                                )->Ok_0 by {
                                    if q < i {
                                        assert(out@[q] == prev[q]);
                                    }
                                }
                            }
                        },
                        Err(er) => {
                            proof {
                                assert(overlay_result_spec(
                                    *acc,
                                    opt_view(base),
                                    overlay_view(overlay),
                                    i as int,
                                ) == Err::<Seq<u32>, Error>(er));
                            }
                            return Err(er);
                        },
                    }
                }
                i = i + 1;
            }
            Ok(out)
        },
    }
}


/// The resolved window of a view against the optional whole-buffer bytes,
/// per the view resolver's contract.
pub open spec fn window_result_spec(view: crate::buffer::BufferView, data: Option<Seq<u8>>) -> Result<
    Seq<u8>,
    Error,
> {
    match data {
        None => Err(Error::Unavailable),
        Some(d) => if view.fits_spec(d.len() as int) {
            Ok(view.window_spec(d))
        } else {
            Err(Error::OutOfBounds)
        },
    }
}

/// Is output position `i` named by the sparse index array in `idx_w`?
pub open spec fn window_overridden_spec(sp: Sparse, idx_w: Seq<u8>, i: int) -> bool {
    exists|j: int| 0 <= j < sp.count && sparse_index_spec(sp, idx_w, j) == i
}

/// The value element the sparse arrays put at position `i` (unique when
/// the indices are strictly increasing).
pub open spec fn window_override_value_spec(
    sp: Sparse,
    enc: ComponentEncoding,
    shape: ElementShape,
    idx_w: Seq<u8>,
    val_w: Seq<u8>,
    i: int,
) -> Seq<u32> {
    let j = choose|j: int| 0 <= j < sp.count && sparse_index_spec(sp, idx_w, j) == i;
    sparse_value_spec(sp, enc, shape, val_w, j)
}

/// What a sparse accessor read produces at position `i`, stated directly
/// over the resolved index and value windows.
pub open spec fn accessor_element_spec(
    acc: Accessor,
    sp: Sparse,
    base_w: Option<Seq<u8>>,
    idx_w: Seq<u8>,
    val_w: Seq<u8>,
    i: int,
) -> Result<Seq<u32>, Error> {
    if window_overridden_spec(sp, idx_w, i) {
        Ok(
            window_override_value_spec(
                sp,
                acc.component_encoding,
                acc.element_shape,
                idx_w,
                val_w,
                i,
            ),
        )
    } else {
        baseline_result_spec(acc, base_w, i)
    }
}

/// A decoded overlay puts at each position exactly what the raw index and
/// value windows say.
proof fn lemma_overlay_matches_windows(
    acc: Accessor,
    ov: SparseOverlay,
    sp: Sparse,
    base_w: Option<Seq<u8>>,
    idx_w: Seq<u8>,
    val_w: Seq<u8>,
    i: int,
)
    requires
        ov.wf_spec(acc.count as int, acc.element_shape),
        ov.index_seq() =~= sparse_indices_spec(sp, idx_w),
        ov.values@.len() == sp.count,
        forall|j: int|
            0 <= j < sp.count ==> (#[trigger] ov.values@[j])@ =~= sparse_value_spec(
                sp,
                acc.component_encoding,
                acc.element_shape,
                val_w,
                j,
            ),
    ensures
        overlay_result_spec(acc, base_w, Some(ov), i) == accessor_element_spec(
            acc,
            sp,
            base_w,
            idx_w,
            val_w,
            i,
        ),
{
    let s = sparse_indices_spec(sp, idx_w);
    assert(ov.indices@.len() == sp.count);
    assert forall|j: int| 0 <= j < sp.count implies ov.indices@[j] as int == #[trigger] sparse_index_spec(
        sp,
        idx_w,
        j,
    ) by {
        assert(ov.index_seq()[j] == ov.indices@[j] as int);
        assert(s[j] == sparse_index_spec(sp, idx_w, j));
    }
    if ov.overridden_spec(i) {
        let j1 = choose|j: int| 0 <= j < ov.indices@.len() && ov.indices@[j] == i;
        assert(sparse_index_spec(sp, idx_w, j1) == i);
        assert(window_overridden_spec(sp, idx_w, i));
        let j2 = choose|j: int| 0 <= j < sp.count && sparse_index_spec(sp, idx_w, j) == i;
        assert(ov.indices@[j2] == i);
        lemma_override_unique(ov, i, j2);
        assert(ov.override_value_spec(i) == ov.values@[j2]@);
        assert(ov.values@[j2]@ =~= sparse_value_spec(
            sp,
            acc.component_encoding,
            acc.element_shape,
            val_w,
            j2,
        ));
    } else {
        if window_overridden_spec(sp, idx_w, i) {
            let j2 = choose|j: int| 0 <= j < sp.count && sparse_index_spec(sp, idx_w, j) == i;
            assert(ov.indices@[j2] == i);
            assert(ov.overridden_spec(i));
        }
    }
}

/// Which failure, if any, stops a full accessor read before any element is
/// produced: resolving the base window, then the sparse index and value
/// windows, then validating the sparse descriptor, in the order performed.
pub open spec fn accessor_check_spec(
    acc: Accessor,
    base_b: Option<Seq<u8>>,
    idx_b: Option<Seq<u8>>,
    val_b: Option<Seq<u8>>,
) -> Result<(), Error> {
    match acc.view {
        Some(v) => match window_result_spec(v, base_b) {
            Err(e) => Err(e),
            Ok(_) => accessor_sparse_check_spec(acc, idx_b, val_b),
        },
        None => accessor_sparse_check_spec(acc, idx_b, val_b),
    }
}

/// The sparse half of [`accessor_check_spec`].
pub open spec fn accessor_sparse_check_spec(
    acc: Accessor,
    idx_b: Option<Seq<u8>>,
    val_b: Option<Seq<u8>>,
) -> Result<(), Error> {
    match acc.sparse {
        Some(sp) => match window_result_spec(sp.indices.view, idx_b) {
            Err(e) => Err(e),
            Ok(iw) => match window_result_spec(sp.values.view, val_b) {
                Err(e) => Err(e),
                Ok(vw) => sparse_check_spec(
                    sp,
                    acc.count as int,
                    acc.component_encoding,
                    acc.element_shape,
                    iw,
                    vw,
                ),
            },
        },
        None => Ok(()),
    }
}

/// The base window a full read decodes from, once resolution succeeded.
pub open spec fn accessor_base_window_spec(acc: Accessor, base_b: Option<Seq<u8>>) -> Option<
    Seq<u8>,
> {
    match acc.view {
        Some(v) => Some(v.window_spec(base_b->Some_0)),
        None => None,
    }
}

/// What a full accessor read produces at position `i`, once resolution and
/// sparse validation succeeded.
pub open spec fn accessor_element_result_spec(
    acc: Accessor,
    base_b: Option<Seq<u8>>,
    idx_b: Option<Seq<u8>>,
    val_b: Option<Seq<u8>>,
    i: int,
) -> Result<Seq<u32>, Error> {
    let base_w = accessor_base_window_spec(acc, base_b);
    match acc.sparse {
        Some(sp) => accessor_element_spec(
            acc,
            sp,
            base_w,
            sp.indices.view.window_spec(idx_b->Some_0),
            sp.values.view.window_spec(val_b->Some_0),
            i,
        ),
        None => baseline_result_spec(acc, base_w, i),
    }
}

/// Reads an accessor start to finish: resolves the base view's window and,
/// if a sparse overlay is declared, the index and value windows, decodes
/// and validates the overlay, and produces all `count` elements. Each
/// buffer argument carries the whole bytes of the buffer the respective
/// view references, or `None` when the byte source has no data for it.
#[verifier::rlimit(100)]
pub fn read_accessor(
    acc: &Accessor,
    base_buffer: Option<&[u8]>,
    index_buffer: Option<&[u8]>,
    value_buffer: Option<&[u8]>,
) -> (r: Result<Vec<Vec<u32>>, Error>)
    requires
        acc.wf_spec(),
    ensures
        ({
            let check = accessor_check_spec(
                *acc,
                opt_view(base_buffer),
                opt_view(index_buffer),
                opt_view(value_buffer),
            );
            &&& (check matches Err(e) ==> r == Err::<Vec<Vec<u32>>, Error>(e))
            &&& (check is Ok ==> match r {
                Ok(v) => v@.len() == acc.count && (forall|i: int|
                    0 <= i < acc.count ==> (#[trigger] accessor_element_result_spec(
                        *acc,
                        opt_view(base_buffer),
                        opt_view(index_buffer),
                        opt_view(value_buffer),
                        i,
                    )) is Ok) && (forall|i: int|
                    0 <= i < acc.count ==> (#[trigger] v@[i])@ =~= accessor_element_result_spec(
                        *acc,
                        opt_view(base_buffer),
                        opt_view(index_buffer),
                        opt_view(value_buffer),
                        i,
                    )->Ok_0),
                Err(e) => exists|i: int|
                    0 <= i < acc.count && #[trigger] accessor_element_result_spec(
                        *acc,
                        opt_view(base_buffer),
                        opt_view(index_buffer),
                        opt_view(value_buffer),
                        i,
                    ) == Err::<Seq<u32>, Error>(e) && forall|q: int|
                        0 <= q < i ==> (#[trigger] accessor_element_result_spec(
                            *acc,
                            opt_view(base_buffer),
                            opt_view(index_buffer),
                            opt_view(value_buffer),
                            q,
                        )) is Ok,
            })
        }),
{
    let base: Option<&[u8]> = match &acc.view {
        Some(v) => match crate::buffer::resolve(v, base_buffer) {
            Ok(w) => Some(w),
            Err(e) => {
                return Err(e);
            },
        },
        None => None,
    };
    let overlay: Option<SparseOverlay> = match &acc.sparse {
        Some(sp) => {
            let iw = match crate::buffer::resolve(&sp.indices.view, index_buffer) {
                Ok(w) => w,
                Err(e) => {
                    return Err(e);
                },
            };
            let vw = match crate::buffer::resolve(&sp.values.view, value_buffer) {
                Ok(w) => w,
                Err(e) => {
                    return Err(e);
                },
            };
            match decode_sparse(acc, iw, vw) {
                Ok(ov) => {
                    proof {
                        assert forall|i: int|
                            overlay_result_spec(
                                *acc,
                                opt_view(base),
                                Some(ov),
                                i,
                            ) == #[trigger] accessor_element_result_spec(
                                *acc,
                                opt_view(base_buffer),
                                opt_view(index_buffer),
                                opt_view(value_buffer),
                                i,
                            ) by {
                            lemma_overlay_matches_windows(
                                *acc,
                                ov,
                                *sp,
                                opt_view(base),
                                iw@,
                                vw@,
                                i,
                            );
                        }
                    }
                    Some(ov)
                },
                Err(e) => {
                    return Err(e);
                },
            }
        },
        None => None,
    };
    let overlay_ref: Option<&SparseOverlay> = overlay.as_ref();
    proof {
        if acc.view is Some {
            assert(opt_view(base)->Some_0 =~= accessor_base_window_spec(
                *acc,
                opt_view(base_buffer),
            )->Some_0);
        }
        assert(opt_view(base) == accessor_base_window_spec(*acc, opt_view(base_buffer)));
        assert(accessor_check_spec(
            *acc,
            opt_view(base_buffer),
            opt_view(index_buffer),
            opt_view(value_buffer),
        ) is Ok);
        if acc.sparse is None {
            assert forall|i: int|
                #![trigger accessor_element_result_spec(
                    *acc,
                    opt_view(base_buffer),
                    opt_view(index_buffer),
                    opt_view(value_buffer),
                    i,
                )]
                #![trigger overlay_result_spec(*acc, opt_view(base), overlay_view(overlay_ref), i)]
                accessor_element_result_spec(
                    *acc,
                    opt_view(base_buffer),
                    opt_view(index_buffer),
                    opt_view(value_buffer),
                    i,
                ) == overlay_result_spec(
                    *acc,
                    opt_view(base),
                    overlay_view(overlay_ref),
                    i,
                ) by {}
        } else {
            assert(overlay_view(overlay_ref) == Some(overlay->0));
            assert forall|i: int|
                #![trigger accessor_element_result_spec(
                    *acc,
                    opt_view(base_buffer),
                    opt_view(index_buffer),
                    opt_view(value_buffer),
                    i,
                )]
                #![trigger overlay_result_spec(*acc, opt_view(base), overlay_view(overlay_ref), i)]
                accessor_element_result_spec(
                    *acc,
                    opt_view(base_buffer),
                    opt_view(index_buffer),
                    opt_view(value_buffer),
                    i,
                ) == overlay_result_spec(
                    *acc,
                    opt_view(base),
                    overlay_view(overlay_ref),
                    i,
                ) by {}
        }
    }
    read_all(acc, base, overlay_ref)
}

/// Dense round trip at the reader level: re-encoding the decoded element at
/// any index the window can deliver reproduces the window's original bytes
/// at every data byte of that element's strided position, for every
/// encoding and shape.
pub proof fn lemma_dense_round_trip(acc: Accessor, data: Seq<u8>, i: int)
    requires
        0 <= i,
        element_fits_spec(acc, data.len() as int, i),
    ensures
        forall|p: int|
            0 <= p < padded_element_size_spec(acc.component_encoding, acc.element_shape) && !(
            #[trigger] crate::codec::is_pad_byte(acc.component_encoding, acc.element_shape, p))
                ==> element_pos_spec(acc, i) + p < data.len() && crate::codec::encoded_element(
                dense_element_spec(acc, data, i),
                acc.component_encoding,
                acc.element_shape,
            )[p] == data[element_pos_spec(acc, i) + p],
{
    crate::codec::lemma_sizes_small(acc.component_encoding, acc.element_shape);
    assert(acc.stride_spec() >= 0);
    assert(i * acc.stride_spec() >= 0) by (nonlinear_arith)
        requires
            i >= 0,
            acc.stride_spec() >= 0,
    ;
    crate::codec::lemma_element_round_trip(
        data,
        element_pos_spec(acc, i),
        acc.component_encoding,
        acc.element_shape,
    );
}

/// Stride defaulting: an accessor with no explicit stride behaves
/// identically to one whose view carries an explicit stride equal to the
/// padded element size — every element lies at the same position, fits a
/// window under the same condition, and decodes to the same value, so the
/// whole baseline read is the same.
pub proof fn lemma_stride_default(acc: Accessor, acc2: Accessor, data: Seq<u8>)
    requires
        acc.view is Some,
        acc2.view is Some,
        (acc.view->Some_0).byte_stride is None,
        (acc2.view->Some_0).byte_stride == Some(
            padded_element_size_spec(acc.component_encoding, acc.element_shape) as u32,
        ),
        acc2.byte_offset == acc.byte_offset,
        acc2.component_encoding == acc.component_encoding,
        acc2.element_shape == acc.element_shape,
        acc2.count == acc.count,
    ensures
        acc2.stride_spec() == acc.stride_spec(),
        forall|k: int| #[trigger] element_pos_spec(acc2, k) == element_pos_spec(acc, k),
        forall|len: int, k: int| #[trigger]
            element_fits_spec(acc2, len, k) == element_fits_spec(acc, len, k),
        forall|k: int| #[trigger]
            dense_element_spec(acc2, data, k) == dense_element_spec(acc, data, k),
        forall|k: int| #[trigger]
            baseline_result_spec(acc2, Some(data), k) == baseline_result_spec(acc, Some(data), k),
{
    crate::codec::lemma_sizes_small(acc.component_encoding, acc.element_shape);
    assert(acc2.stride_spec() == acc.stride_spec());
}

} // verus!

//! The element codec: the packed byte layout of one element, decoding and
//! encoding of components at a byte offset, and the normalized-integer
//! scaling law.
//!
//! Components are carried as raw little-endian bit patterns widened to
//! `u32`; interpretation (sign, normalization, IEEE-754) is layered on top,
//! so that decoding and re-encoding is byte-exact for every encoding.

use vstd::arithmetic::div_mod::{
    lemma_fundamental_div_mod, lemma_fundamental_div_mod_converse, lemma_mod_bound,
};
use vstd::arithmetic::mul::{lemma_mul_inequality, lemma_mul_upper_bound};
use vstd::prelude::*;
use vstd::slice::slice_index_get;

use crate::component::ComponentEncoding;
use crate::component::ElementShape;

verus! {

/// The little-endian value of the `size` bytes of `data` starting at `off`.
pub open spec fn le_val(data: Seq<u8>, off: int, size: int) -> int
    decreases size,
{
    if size <= 0 {
        0
    } else {
        data[off] + 256 * le_val(data, off + 1, size - 1)
    }
}

/// `256^size`: the number of values `size` bytes can hold.
pub open spec fn pow256(size: int) -> int
    decreases size,
{
    if size <= 0 {
        1
    } else {
        256 * pow256(size - 1)
    }
}

/// The `size` little-endian bytes of the non-negative value `v`.
pub open spec fn le_bytes(v: int, size: int) -> Seq<u8>
    decreases size,
{
    if size <= 0 {
        Seq::empty()
    } else {
        seq![(v % 256) as u8] + le_bytes(v / 256, size - 1)
    }
}

/// A little-endian value of `size` bytes lies in `[0, 256^size)`.
pub proof fn lemma_le_val_bound(data: Seq<u8>, off: int, size: int)
    ensures
        0 <= le_val(data, off, size) < pow256(size),
    decreases size,
{
    if size > 0 {
        lemma_le_val_bound(data, off + 1, size - 1);
    }
}

/// `le_bytes` produces exactly `size` bytes.
pub proof fn lemma_le_bytes_len(v: int, size: int)
    requires
        0 <= size,
    ensures
        le_bytes(v, size).len() == size,
    decreases size,
{
    if size > 0 {
        lemma_le_bytes_len(v / 256, size - 1);
    }
}

/// Re-encoding a decoded little-endian value reproduces the original bytes.
pub proof fn lemma_le_bytes_of_le_val(data: Seq<u8>, off: int, size: int)
    requires
        0 <= size,
        0 <= off,
        off + size <= data.len(),
    ensures
        le_bytes(le_val(data, off, size), size) =~= data.subrange(off, off + size),
    decreases size,
{
    if size > 0 {
        let b: int = data[off] as int;
        let rest: int = le_val(data, off + 1, size - 1);
        let v: int = le_val(data, off, size);
        lemma_le_val_bound(data, off + 1, size - 1);
        lemma_fundamental_div_mod_converse(v, 256, rest, b);
        lemma_le_bytes_of_le_val(data, off + 1, size - 1);
        assert(le_bytes(v, size) =~= seq![data[off]] + data.subrange(off + 1, off + size));
    }
}

/// Prepending one byte shifts the offsets that `le_val` reads.
proof fn lemma_le_val_shift(t: Seq<u8>, b: u8, k: int, size: int)
    requires
        0 <= k,
        0 <= size,
        k + size <= t.len(),
    ensures
        le_val(seq![b] + t, k + 1, size) == le_val(t, k, size),
    decreases size,
{
    if size > 0 {
        assert((seq![b] + t)[k + 1] == t[k]);
        lemma_le_val_shift(t, b, k + 1, size - 1);
    }
}

/// Decoding an encoded value gives the value back.
pub proof fn lemma_le_val_of_le_bytes(v: int, size: int)
    requires
        0 <= size,
        0 <= v < pow256(size),
    ensures
        le_val(le_bytes(v, size), 0, size) == v,
    decreases size,
{
    if size > 0 {
        let q: int = v / 256;
        lemma_fundamental_div_mod(v, 256);
        if q >= pow256(size - 1) {
            lemma_mul_inequality(pow256(size - 1), q, 256);
            assert(false);
        }
        lemma_le_val_of_le_bytes(q, size - 1);
        lemma_le_bytes_len(q, size - 1);
        lemma_le_val_shift(le_bytes(q, size - 1), (v % 256) as u8, 0, size - 1);
        assert(le_val(le_bytes(v, size), 0, size) == (v % 256) + 256 * le_val(
            le_bytes(v, size),
            1,
            size - 1,
        ));
    }
}

/// Reads one component of `enc` at byte offset `off`, assembling the raw
/// little-endian bit pattern widened to `u32`.
pub fn decode_component(data: &[u8], off: usize, enc: ComponentEncoding) -> (r: u32)
    requires
        off + enc.size_spec() <= data@.len(),
    ensures
        r == le_val(data@, off as int, enc.size_spec()),
{
    let s: usize = enc.component_byte_size();
    let n: usize = data.len();
    assert(off + s <= n);
    let b0: u32 = *slice_index_get(data, off) as u32;
    if s == 1 {
        proof {
            assert(le_val(data@, off as int, 1) == data@[off as int] + 256 * le_val(
                data@,
                off + 1,
                0,
            ));
        }
        return b0;
    }
    assert(s == 2 || s == 4);
    let b1: u32 = *slice_index_get(data, off + 1) as u32;
    if s == 2 {
        proof {
            assert(le_val(data@, off + 1, 1) == data@[off + 1] + 256 * le_val(data@, off + 2, 0));
            assert(le_val(data@, off as int, 2) == data@[off as int] + 256 * le_val(
                data@,
                off + 1,
                1,
            ));
        }
        return b0 + 256 * b1;
    }
    assert(s == 4);
    let b2: u32 = *slice_index_get(data, off + 2) as u32;
    let b3: u32 = *slice_index_get(data, off + 3) as u32;
    proof {
        assert(le_val(data@, off + 3, 1) == data@[off + 3] + 256 * le_val(data@, off + 4, 0));
        assert(le_val(data@, off + 2, 2) == data@[off + 2] + 256 * le_val(data@, off + 3, 1));
        assert(le_val(data@, off + 1, 3) == data@[off + 1] + 256 * le_val(data@, off + 2, 2));
        assert(le_val(data@, off as int, 4) == data@[off as int] + 256 * le_val(
            data@,
            off + 1,
            3,
        ));
    }
    b0 + 256 * b1 + 65536 * b2 + 16777216 * b3
}

/// Writes the raw bit pattern `value` as the little-endian bytes of one
/// component of `enc`.
pub fn encode_component(value: u32, enc: ComponentEncoding) -> (r: Vec<u8>)
    requires
        value < pow256(enc.size_spec()),
    ensures
        r@ =~= le_bytes(value as int, enc.size_spec()),
{
    let s: usize = enc.component_byte_size();
    let mut r: Vec<u8> = Vec::new();
    let mut v: u32 = value;
    let mut k: usize = 0;
    while k < s
        invariant
            0 <= k <= s,
            r@.len() == k,
            le_bytes(value as int, s as int) =~= r@ + le_bytes(v as int, s - k),
        decreases s - k,
    {
        r.push((v % 256) as u8);
        proof {
            assert(le_bytes(v as int, s - k) =~= seq![(v % 256) as u8] + le_bytes(
                v as int / 256,
                s - k - 1,
            ));
        }
        v = v / 256;
        k = k + 1;
    }
    r
}

/// `256^k` for the byte widths in use.
pub proof fn lemma_pow256_values()
    ensures
        pow256(0) == 1,
        pow256(1) == 256,
        pow256(2) == 65536,
        pow256(3) == 16777216,
        pow256(4) == 0x1_0000_0000,
{
    assert(pow256(0) == 1);
    assert(pow256(1) == 256 * pow256(0));
    assert(pow256(2) == 256 * pow256(1));
    assert(pow256(3) == 256 * pow256(2));
    assert(pow256(4) == 256 * pow256(3));
}

/// If `a < b * c` then `a / c < b`.
proof fn lemma_div_below(a: int, b: int, c: int)
    requires
        0 <= a,
        0 < c,
        a < b * c,
    ensures
        0 <= a / c < b,
{
    vstd::arithmetic::mul::lemma_mul_is_commutative(b, c);
    vstd::arithmetic::div_mod::lemma_multiply_divide_lt(a, c, b);
    vstd::arithmetic::div_mod::lemma_div_pos_is_pos(a, c);
}

/// The byte width of one matrix column: the rows' packed bytes, rounded up
/// to a four-byte boundary (the format-defined alignment rule).
pub open spec fn column_size_spec(enc: ComponentEncoding, shape: ElementShape) -> int {
    let raw = shape.matrix_rows_spec() * enc.size_spec();
    if raw % 4 == 0 {
        raw
    } else {
        raw + (4 - raw % 4)
    }
}

/// The padded byte width of one element: for matrices, columns of padded
/// width; otherwise the packed component bytes. This is the width an
/// accessor with no explicit stride advances by.
pub open spec fn padded_element_size_spec(enc: ComponentEncoding, shape: ElementShape) -> int {
    if shape.is_matrix() {
        shape.matrix_rows_spec() * column_size_spec(enc, shape)
    } else {
        shape.component_count_spec() * enc.size_spec()
    }
}

/// The byte offset of data component `j` within one element, skipping the
/// padding bytes at the end of each matrix column.
pub open spec fn component_offset_spec(enc: ComponentEncoding, shape: ElementShape, j: int) -> int {
    if shape.is_matrix() {
        let r = shape.matrix_rows_spec();
        (j / r) * column_size_spec(enc, shape) + (j % r) * enc.size_spec()
    } else {
        j * enc.size_spec()
    }
}

/// The bytes one element actually reads: up to and including the last data
/// component, excluding any trailing column padding.
pub open spec fn element_span_spec(enc: ComponentEncoding, shape: ElementShape) -> int {
    component_offset_spec(enc, shape, shape.component_count_spec() - 1) + enc.size_spec()
}

/// Every data component of an element lies inside the element's span.
pub proof fn lemma_component_in_span(enc: ComponentEncoding, shape: ElementShape, j: int)
    requires
        0 <= j < shape.component_count_spec(),
    ensures
        0 <= component_offset_spec(enc, shape, j),
        component_offset_spec(enc, shape, j) + enc.size_spec() <= element_span_spec(enc, shape),
{
    let s = enc.size_spec();
    let cnt = shape.component_count_spec();
    if shape.is_matrix() {
        let r = shape.matrix_rows_spec();
        let c = column_size_spec(enc, shape);
        assert(cnt == r * r) by (nonlinear_arith)
            requires
                cnt == shape.component_count_spec(),
                r == shape.matrix_rows_spec(),
                shape.is_matrix(),
                (r == 2 && cnt == 4) || (r == 3 && cnt == 9) || (r == 4 && cnt == 16),
        ;
        lemma_div_below(j, r, r);
        lemma_fundamental_div_mod(j, r);
        assert((r - 1) * r + (r - 1) == r * r - 1) by (nonlinear_arith);
        lemma_fundamental_div_mod_converse(cnt - 1, r, r - 1, r - 1);
        lemma_mul_inequality(j / r, r - 1, c);
        lemma_mul_inequality(j % r, r - 1, s);
    } else {
        lemma_mul_inequality(j, cnt - 1, s);
    }
}

/// The span never exceeds the padded element size, and is positive.
pub proof fn lemma_span_le_padded(enc: ComponentEncoding, shape: ElementShape)
    ensures
        0 < element_span_spec(enc, shape) <= padded_element_size_spec(enc, shape),
        !shape.is_matrix() ==> element_span_spec(enc, shape) == padded_element_size_spec(
            enc,
            shape,
        ),
{
    let s = enc.size_spec();
    let cnt = shape.component_count_spec();
    if shape.is_matrix() {
        let r = shape.matrix_rows_spec();
        let c = column_size_spec(enc, shape);
        assert((r - 1) * r + (r - 1) == r * r - 1) by (nonlinear_arith);
        assert(cnt == r * r) by (nonlinear_arith)
            requires
                cnt == shape.component_count_spec(),
                r == shape.matrix_rows_spec(),
                shape.is_matrix(),
                (r == 2 && cnt == 4) || (r == 3 && cnt == 9) || (r == 4 && cnt == 16),
        ;
        lemma_fundamental_div_mod_converse(cnt - 1, r, r - 1, r - 1);
        assert((r - 1) * c + c == r * c) by (nonlinear_arith);
        assert(r * s <= c);
    } else {
        assert((cnt - 1) * s + s == cnt * s) by (nonlinear_arith);
    }
}

/// Concrete bounds on the layout quantities: everything about one element
/// fits in a few dozen bytes.
pub proof fn lemma_sizes_small(enc: ComponentEncoding, shape: ElementShape)
    ensures
        1 <= enc.size_spec() <= 4,
        1 <= shape.component_count_spec() <= 16,
        shape.is_matrix() ==> 2 <= shape.matrix_rows_spec() <= 4,
        shape.is_matrix() ==> 2 <= shape.matrix_rows_spec() * enc.size_spec()
            <= column_size_spec(enc, shape) <= 19,
        0 < element_span_spec(enc, shape) <= padded_element_size_spec(enc, shape) <= 80,
{
    let s = enc.size_spec();
    let cnt = shape.component_count_spec();
    lemma_span_le_padded(enc, shape);
    if shape.is_matrix() {
        let r = shape.matrix_rows_spec();
        let c = column_size_spec(enc, shape);
        let raw = r * s;
        lemma_mul_upper_bound(r, 4, s, 4);
        assert(2 <= raw) by (nonlinear_arith)
            requires
                raw == r * s,
                2 <= r,
                1 <= s,
        ;
        lemma_mod_bound(raw, 4);
        lemma_mul_upper_bound(r, 4, c, 19);
    } else {
        lemma_mul_upper_bound(cnt, 16, s, 4);
    }
}

/// Is byte `p` of an element's padded layout a padding byte (at the tail of
/// a matrix column) rather than a data byte?
pub open spec fn is_pad_byte(enc: ComponentEncoding, shape: ElementShape, p: int) -> bool {
    shape.is_matrix() && p % column_size_spec(enc, shape) >= shape.matrix_rows_spec()
        * enc.size_spec()
}

/// The index of the data component that byte `p` of the padded layout
/// belongs to (meaningful only for non-padding bytes).
pub open spec fn data_byte_component(enc: ComponentEncoding, shape: ElementShape, p: int) -> int {
    if shape.is_matrix() {
        let c = column_size_spec(enc, shape);
        (p / c) * shape.matrix_rows_spec() + (p % c) / enc.size_spec()
    } else {
        p / enc.size_spec()
    }
}

/// The position of byte `p` within its data component.
pub open spec fn data_byte_within(enc: ComponentEncoding, shape: ElementShape, p: int) -> int {
    if shape.is_matrix() {
        (p % column_size_spec(enc, shape)) % enc.size_spec()
    } else {
        p % enc.size_spec()
    }
}

/// Byte `p` of the padded encoding of `element`: zero for padding, else the
/// matching little-endian byte of the component it belongs to.
pub open spec fn encoded_byte(
    element: Seq<u32>,
    enc: ComponentEncoding,
    shape: ElementShape,
    p: int,
) -> u8 {
    if is_pad_byte(enc, shape, p) {
        0
    } else {
        le_bytes(element[data_byte_component(enc, shape, p)] as int, enc.size_spec())[data_byte_within(
            enc,
            shape,
            p,
        )]
    }
}

/// The full padded byte image of one element.
pub open spec fn encoded_element(element: Seq<u32>, enc: ComponentEncoding, shape: ElementShape) -> Seq<
    u8,
> {
    Seq::new(
        padded_element_size_spec(enc, shape) as nat,
        |p: int| encoded_byte(element, enc, shape, p),
    )
}

/// Each non-padding byte position of the padded layout belongs to exactly
/// one data component, at the offset the layout assigns to it.
#[verifier::rlimit(50)]
pub proof fn lemma_classify(enc: ComponentEncoding, shape: ElementShape, p: int)
    requires
        0 <= p < padded_element_size_spec(enc, shape),
    ensures
        !is_pad_byte(enc, shape, p) ==> {
            let j = data_byte_component(enc, shape, p);
            let k = data_byte_within(enc, shape, p);
            &&& 0 <= j < shape.component_count_spec()
            &&& 0 <= k < enc.size_spec()
            &&& component_offset_spec(enc, shape, j) + k == p
        },
{
    let s = enc.size_spec();
    let cnt = shape.component_count_spec();
    lemma_sizes_small(enc, shape);
    if shape.is_matrix() {
        let r = shape.matrix_rows_spec();
        let c = column_size_spec(enc, shape);
        let col = p / c;
        let within = p % c;
        lemma_div_below(p, r, c);
        lemma_fundamental_div_mod(p, c);
        lemma_mod_bound(p, c);
        if within < r * s {
            let row = within / s;
            let k = within % s;
            lemma_div_below(within, r, s);
            lemma_fundamental_div_mod(within, s);
            lemma_mod_bound(within, s);
            let j = col * r + row;
            lemma_fundamental_div_mod_converse(j, r, col, row);
            assert(cnt == r * r) by (nonlinear_arith)
                requires
                    cnt == shape.component_count_spec(),
                    r == shape.matrix_rows_spec(),
                    shape.is_matrix(),
                    (r == 2 && cnt == 4) || (r == 3 && cnt == 9) || (r == 4 && cnt == 16),
            ;
            assert(j <= (r - 1) * r + (r - 1)) by {
                lemma_mul_inequality(col, r - 1, r);
            }
            assert((r - 1) * r + (r - 1) == r * r - 1) by (nonlinear_arith);
            assert(!is_pad_byte(enc, shape, p));
            assert(data_byte_component(enc, shape, p) == j);
            assert(data_byte_within(enc, shape, p) == k);
            assert(0 <= j < cnt);
            assert(0 <= k < s);
            assert(p == c * col + within);
            assert(within == s * row + k);
            assert(component_offset_spec(enc, shape, j) == col * c + row * s);
            assert(component_offset_spec(enc, shape, j) + k == p);
        } else {
            assert(is_pad_byte(enc, shape, p));
        }
    } else {
        lemma_div_below(p, cnt, s);
        lemma_fundamental_div_mod(p, s);
        lemma_mod_bound(p, s);
        assert(component_offset_spec(enc, shape, p / s) + p % s == p);
    }
}

/// The decoded components of one element of `enc` and `shape` at byte
/// offset `off` of `data`.
pub open spec fn element_spec(
    data: Seq<u8>,
    off: int,
    enc: ComponentEncoding,
    shape: ElementShape,
) -> Seq<u32> {
    Seq::new(
        shape.component_count_spec() as nat,
        |j: int| le_val(data, off + component_offset_spec(enc, shape, j), enc.size_spec()) as u32,
    )
}

/// Returns the padded byte width of one element; an accessor with no
/// explicit stride advances by exactly this much.
pub fn padded_element_byte_size(enc: ComponentEncoding, shape: ElementShape) -> (n: usize)
    ensures
        n == padded_element_size_spec(enc, shape),
{
    proof {
        lemma_sizes_small(enc, shape);
    }
    let s: usize = enc.component_byte_size();
    let rows: usize = shape.matrix_rows();
    if rows > 0 {
        let raw: usize = rows * s;
        let c: usize = if raw % 4 == 0 {
            raw
        } else {
            raw + (4 - raw % 4)
        };
        rows * c
    } else {
        shape.component_count() * s
    }
}

/// Returns the number of bytes one element actually reads, from its first
/// to its last data byte.
pub fn element_byte_span(enc: ComponentEncoding, shape: ElementShape) -> (n: usize)
    ensures
        n == element_span_spec(enc, shape),
{
    proof {
        lemma_sizes_small(enc, shape);
        lemma_component_in_span(enc, shape, shape.component_count_spec() - 1);
    }
    let cnt: usize = shape.component_count();
    component_offset(enc, shape, cnt - 1) + enc.component_byte_size()
}

/// Returns the byte offset of data component `j` within one element.
fn component_offset(enc: ComponentEncoding, shape: ElementShape, j: usize) -> (n: usize)
    requires
        j < shape.component_count_spec(),
    ensures
        n == component_offset_spec(enc, shape, j as int),
{
    proof {
        lemma_sizes_small(enc, shape);
        lemma_component_in_span(enc, shape, j as int);
        lemma_span_le_padded(enc, shape);
        if shape.is_matrix() {
            lemma_div_below(j as int, 16, shape.matrix_rows_spec());
            lemma_mod_bound(j as int, shape.matrix_rows_spec());
        }
    }
    let s: usize = enc.component_byte_size();
    let rows: usize = shape.matrix_rows();
    if rows > 0 {
        let c: usize = column_size(enc, shape);
        (j / rows) * c + (j % rows) * s
    } else {
        j * s
    }
}

/// Returns the padded byte width of one matrix column.
fn column_size(enc: ComponentEncoding, shape: ElementShape) -> (n: usize)
    requires
        shape.is_matrix(),
    ensures
        n == column_size_spec(enc, shape),
{
    let raw: usize = shape.matrix_rows() * enc.component_byte_size();
    if raw % 4 == 0 {
        raw
    } else {
        raw + (4 - raw % 4)
    }
}

/// Decodes the components of one element at byte offset `off` of `data`.
pub fn decode_element(data: &[u8], off: usize, enc: ComponentEncoding, shape: ElementShape) -> (r:
    Vec<u32>)
    requires
        off + element_span_spec(enc, shape) <= data@.len(),
    ensures
        r@ =~= element_spec(data@, off as int, enc, shape),
{
    let cnt: usize = shape.component_count();
    let n: usize = data.len();
    let mut r: Vec<u32> = Vec::new();
    let mut j: usize = 0;
    while j < cnt
        invariant
            j <= cnt,
            cnt == shape.component_count_spec(),
            off + element_span_spec(enc, shape) <= data@.len(),
            data@.len() <= usize::MAX,
            r@.len() == j,
            forall|j2: int|
                0 <= j2 < j ==> r@[j2] == element_spec(data@, off as int, enc, shape)[j2],
        decreases cnt - j,
    {
        let co: usize = component_offset(enc, shape, j);
        proof {
            lemma_component_in_span(enc, shape, j as int);
            lemma_le_val_bound(data@, off + co, enc.size_spec());
            lemma_pow256_values();
        }
        let v: u32 = decode_component(data, off + co, enc);
        r.push(v);
        j = j + 1;
    }
    r
}

/// Encodes the components of one element into its padded byte image, with
/// zeroes in the padding bytes.
pub fn encode_element(element: &Vec<u32>, enc: ComponentEncoding, shape: ElementShape) -> (r: Vec<
    u8,
>)
    requires
        element@.len() == shape.component_count_spec(),
        forall|j: int| 0 <= j < element@.len() ==> element@[j] < pow256(enc.size_spec()),
    ensures
        r@ =~= encoded_element(element@, enc, shape),
{
    let s: usize = enc.component_byte_size();
    let rows: usize = shape.matrix_rows();
    let padded: usize = padded_element_byte_size(enc, shape);
    let mut r: Vec<u8> = Vec::new();
    let mut p: usize = 0;
    while p < padded
        invariant
            p <= padded,
            s == enc.size_spec(),
            rows == shape.matrix_rows_spec(),
            padded == padded_element_size_spec(enc, shape),
            element@.len() == shape.component_count_spec(),
            forall|j: int| 0 <= j < element@.len() ==> element@[j] < pow256(enc.size_spec()),
            r@.len() == p,
            forall|p2: int| 0 <= p2 < p ==> r@[p2] == encoded_byte(element@, enc, shape, p2),
        decreases padded - p,
    {
        proof {
            lemma_classify(enc, shape, p as int);
        }
        let byte: u8;
        if rows > 0 {
            let c: usize = column_size(enc, shape);
            let within: usize = p % c;
            if within < rows * s {
                let j: usize = (p / c) * rows + within / s;
                let k: usize = within % s;
                let comp: Vec<u8> = encode_component(element[j], enc);
                proof {
                    lemma_le_bytes_len(element@[j as int] as int, enc.size_spec());
                }
                byte = comp[k];
            } else {
                byte = 0;
            }
        } else {
            let j: usize = p / s;
            let k: usize = p % s;
            let comp: Vec<u8> = encode_component(element[j], enc);
            proof {
                lemma_le_bytes_len(element@[j as int] as int, enc.size_spec());
            }
            byte = comp[k];
        }
        r.push(byte);
        p = p + 1;
    }
    r
}

/// Dense round trip at the element level: decoding the element at `off` and
/// re-encoding it reproduces the original data bytes exactly, at every data
/// byte position of the padded layout, for every encoding (normalization
/// and sign interpretation never touch the stored bit patterns).
pub proof fn lemma_element_round_trip(
    data: Seq<u8>,
    off: int,
    enc: ComponentEncoding,
    shape: ElementShape,
)
    requires
        0 <= off,
        off + element_span_spec(enc, shape) <= data.len(),
    ensures
        forall|p: int|
            0 <= p < padded_element_size_spec(enc, shape) && !(#[trigger] is_pad_byte(
                enc,
                shape,
                p,
            )) ==> off + p < data.len() && encoded_element(
                element_spec(data, off, enc, shape),
                enc,
                shape,
            )[p] == data[off + p],
{
    assert forall|p: int|
        0 <= p < padded_element_size_spec(enc, shape) && !(#[trigger] is_pad_byte(enc, shape, p))
        implies off + p < data.len() && encoded_element(element_spec(data, off, enc, shape), enc, shape)[p]
        == data[off + p] by {
        let elem = element_spec(data, off, enc, shape);
        lemma_classify(enc, shape, p);
        let j = data_byte_component(enc, shape, p);
        let k = data_byte_within(enc, shape, p);
        let o = off + component_offset_spec(enc, shape, j);
        lemma_span_le_padded(enc, shape);
        lemma_component_in_span(enc, shape, j);
        lemma_le_val_bound(data, o, enc.size_spec());
        lemma_pow256_values();
        lemma_le_bytes_of_le_val(data, o, enc.size_spec());
        assert(le_bytes(le_val(data, o, enc.size_spec()), enc.size_spec())[k] == data.subrange(
            o,
            o + enc.size_spec(),
        )[k]);
        assert(elem[j] as int == le_val(data, o, enc.size_spec()));
    }
}

/// For scalar and vector shapes the layout has no padding, so the round
/// trip reproduces the element's whole byte range.
pub proof fn lemma_element_round_trip_packed(
    data: Seq<u8>,
    off: int,
    enc: ComponentEncoding,
    shape: ElementShape,
)
    requires
        !shape.is_matrix(),
        0 <= off,
        off + element_span_spec(enc, shape) <= data.len(),
    ensures
        encoded_element(element_spec(data, off, enc, shape), enc, shape) =~= data.subrange(
            off,
            off + padded_element_size_spec(enc, shape),
        ),
{
    lemma_element_round_trip(data, off, enc, shape);
    lemma_span_le_padded(enc, shape);
}

/// The divisor of the normalized-integer scaling law: the largest
/// representable positive value of the encoding's width.
pub open spec fn norm_denominator_spec(enc: ComponentEncoding) -> int {
    match enc {
        ComponentEncoding::Byte => 127,
        ComponentEncoding::UnsignedByte => 255,
        ComponentEncoding::Short => 32767,
        ComponentEncoding::UnsignedShort => 65535,
        ComponentEncoding::UnsignedInt => 4294967295,
        ComponentEncoding::Float => 1,
    }
}

/// The literal integer value of a raw bit pattern: two's-complement for the
/// signed encodings, the pattern itself otherwise.
pub open spec fn signed_value_spec(enc: ComponentEncoding, raw: int) -> int {
    match enc {
        ComponentEncoding::Byte => if raw < 128 {
            raw
        } else {
            raw - 256
        },
        ComponentEncoding::Short => if raw < 32768 {
            raw
        } else {
            raw - 65536
        },
        _ => raw,
    }
}

/// The numerator of a normalized component over [`norm_denominator_spec`]:
/// the literal value, except that the most negative signed value is clamped
/// so that the scaled result never falls below minus one.
pub open spec fn normalized_numerator_spec(enc: ComponentEncoding, raw: int) -> int {
    let v = signed_value_spec(enc, raw);
    let d = norm_denominator_spec(enc);
    if v < -d {
        -d
    } else {
        v
    }
}

/// A normalized component as the exact rational `numerator / denominator`;
/// the caller divides in whatever arithmetic it renders with.
#[derive(Clone, Copy, Debug, PartialEq, Eq, Structural)]
pub struct NormalizedComponent {
    /// The (possibly negative, clamped) numerator.
    pub numerator: i64,
    /// The positive denominator: the encoding's largest positive value.
    pub denominator: u64,
}

/// Interprets a raw bit pattern as its literal integer value, widening to a
/// common signed width.
pub fn component_as_integer(enc: ComponentEncoding, raw: u32) -> (v: i64)
    requires
        enc != ComponentEncoding::Float,
    ensures
        v == signed_value_spec(enc, raw as int),
{
    match enc {
        ComponentEncoding::Byte => if raw < 128 {
            raw as i64
        } else {
            raw as i64 - 256
        },
        ComponentEncoding::Short => if raw < 32768 {
            raw as i64
        } else {
            raw as i64 - 65536
        },
        _ => raw as i64,
    }
}

/// Applies the normalized-integer scaling law to one raw integer component:
/// unsigned patterns scale by the largest unsigned value of the width,
/// signed patterns by the largest positive value, clamped to minus one.
pub fn normalized_component(enc: ComponentEncoding, raw: u32) -> (r: NormalizedComponent)
    requires
        enc != ComponentEncoding::Float,
        raw < pow256(enc.size_spec()),
    ensures
        r.numerator == normalized_numerator_spec(enc, raw as int),
        r.denominator == norm_denominator_spec(enc),
        enc.is_signed() ==> -r.denominator <= r.numerator <= r.denominator,
        !enc.is_signed() ==> 0 <= r.numerator <= r.denominator,
{
    proof {
        lemma_pow256_values();
    }
    let v: i64 = component_as_integer(enc, raw);
    match enc {
        ComponentEncoding::Byte => NormalizedComponent {
            numerator: if v < -127 {
                -127
            } else {
                v
            },
            denominator: 127,
        },
        ComponentEncoding::Short => NormalizedComponent {
            numerator: if v < -32767 {
                -32767
            } else {
                v
            },
            denominator: 32767,
        },
        ComponentEncoding::UnsignedByte => NormalizedComponent { numerator: v, denominator: 255 },
        ComponentEncoding::UnsignedShort => NormalizedComponent {
            numerator: v,
            denominator: 65535,
        },
        _ => NormalizedComponent { numerator: v, denominator: 4294967295 },
    }
}

/// Normalization is monotonic: scaling never reorders two components, so
/// even though normalized values need not round-trip bit-exactly through a
/// float, their order is that of the literal values.
pub proof fn lemma_normalization_monotonic(enc: ComponentEncoding, raw1: int, raw2: int)
    requires
        enc != ComponentEncoding::Float,
        signed_value_spec(enc, raw1) <= signed_value_spec(enc, raw2),
    ensures
        normalized_numerator_spec(enc, raw1) <= normalized_numerator_spec(enc, raw2),
{
}

/// Normalization bounds: an unsigned normalized component lies in `[0, 1]`
/// and a signed one in `[-1, 1]` (as the exact rational
/// numerator/denominator), and the most negative signed pattern clamps to
/// exactly minus one.
pub proof fn lemma_normalization_bounds(enc: ComponentEncoding, raw: int)
    requires
        enc != ComponentEncoding::Float,
        0 <= raw < pow256(enc.size_spec()),
    ensures
        0 < norm_denominator_spec(enc),
        enc.is_signed() ==> -norm_denominator_spec(enc) <= normalized_numerator_spec(enc, raw)
            <= norm_denominator_spec(enc),
        !enc.is_signed() ==> 0 <= normalized_numerator_spec(enc, raw) <= norm_denominator_spec(enc),
        enc == ComponentEncoding::Byte && raw == 128 ==> normalized_numerator_spec(enc, raw)
            == -norm_denominator_spec(enc),
{
    lemma_pow256_values();
}

} // verus!

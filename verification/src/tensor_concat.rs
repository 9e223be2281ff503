//! Concatenation: several tensors joined along one axis.
//!
//! Seen from the axis, a tensor is a sequence of rows, one per combination of
//! the coordinates before the axis. The row of the result is the rows of the
//! inputs back to back, in input order.

use crate::eterror::ETError;
use crate::layout::{
    dims, dims_nonneg, flat_index, in_bounds, inner_count, lemma_flat_index_around_axis,
    lemma_flat_index_bounds, lemma_product_around_axis, lemma_product_nonneg,
    lemma_product_prefix_le, lemma_product_zero, lemma_subrange_dims, lemma_subrange_in_bounds,
    outer_count, shape_product,
};
use crate::tensor::{count_within, view_of, Tensor};
use crate::tensor_model::TensorView;
use vstd::prelude::*;
use vstd::slice::slice_subrange;

verus! {

/// The sum of a sequence of lengths.
pub open spec fn total(lens: Seq<int>) -> int
    decreases lens.len(),
{
    if lens.len() == 0 {
        0
    } else {
        total(lens.drop_last()) + lens.last()
    }
}

/// Where pieces of lengths `lens` lie back to back, the piece that holds
/// offset `r`.
pub open spec fn piece_at(lens: Seq<int>, r: int) -> int
    decreases lens.len(),
{
    if lens.len() == 0 {
        0
    } else if r >= total(lens.drop_last()) {
        lens.len() - 1
    } else {
        piece_at(lens.drop_last(), r)
    }
}

/// `a` and `b` have the same element type and the same shape but for the
/// size of `axis`.
pub open spec fn same_but_axis(a: TensorView, b: TensorView, axis: int) -> bool {
    &&& a.dtype == b.dtype
    &&& a.shape.len() == b.shape.len()
    &&& forall|j: int| 0 <= j < a.shape.len() && j != axis ==> a.shape[j] == b.shape[j]
}

/// There is an input, `axis` is one of its axes, and all inputs agree with it
/// on everything but the size of `axis`.
pub open spec fn concat_compatible(inputs: Seq<TensorView>, axis: int) -> bool {
    &&& inputs.len() > 0
    &&& 0 <= axis < inputs[0].shape.len()
    &&& forall|k: int| 0 <= k < inputs.len() ==> same_but_axis(inputs[0], #[trigger] inputs[k], axis)
}

/// The size of `axis` in every input.
pub open spec fn axis_sizes(inputs: Seq<TensorView>, axis: int) -> Seq<int> {
    Seq::new(inputs.len(), |k: int| inputs[k].shape[axis])
}

/// The bytes of one row of `v` seen from `axis`.
pub open spec fn row_len(v: TensorView, axis: int) -> int {
    v.shape[axis] * inner_count(v.shape, axis) * v.width()
}

/// The bytes of one row of every input.
pub open spec fn row_lens(inputs: Seq<TensorView>, axis: int) -> Seq<int> {
    Seq::new(inputs.len(), |k: int| row_len(inputs[k], axis))
}

/// The shape of the result: that of the inputs, with the sizes of `axis`
/// added up.
pub open spec fn concat_shape(inputs: Seq<TensorView>, axis: int) -> Seq<int> {
    inputs[0].shape.update(axis, total(axis_sizes(inputs, axis)))
}

/// The buffer of the result: row after row, and in each row the rows of the
/// inputs in input order.
pub open spec fn concat_bytes(inputs: Seq<TensorView>, axis: int) -> Seq<u8> {
    let lens = row_lens(inputs, axis);
    let row = total(lens);
    Seq::new(
        (outer_count(inputs[0].shape, axis) * row) as nat,
        |b: int|
            {
                let k = piece_at(lens, b % row);
                inputs[k].bytes[(b / row) * lens[k] + (b % row - total(lens.take(k)))]
            },
    )
}

/// The result of joining `inputs` along `axis`.
pub open spec fn joined(inputs: Seq<TensorView>, axis: int) -> TensorView {
    TensorView {
        dtype: inputs[0].dtype,
        shape: concat_shape(inputs, axis),
        bytes: concat_bytes(inputs, axis),
    }
}

/// The inputs can be joined along `axis`, and the result can be held: the
/// size of its axis fits a size, and its buffer fits the address space.
pub open spec fn concat_ok(inputs: Seq<TensorView>, axis: int) -> bool {
    &&& concat_compatible(inputs, axis)
    &&& total(axis_sizes(inputs, axis)) <= i32::MAX
    &&& outer_count(inputs[0].shape, axis) * total(row_lens(inputs, axis)) <= usize::MAX
}

/// Joining `inputs` along `axis`: refused with `InvalidArgument` where there
/// is no input, `axis` is not an axis, two inputs differ in element type, in
/// rank or in the size of another axis, or the result cannot be held.
pub open spec fn concat_spec(inputs: Seq<TensorView>, axis: int) -> Result<TensorView, ETError> {
    if concat_ok(inputs, axis) {
        Ok(joined(inputs, axis))
    } else {
        Err(ETError::InvalidArgument)
    }
}

/// The input that holds index `p` of the joined axis.
pub open spec fn input_at(inputs: Seq<TensorView>, axis: int, p: int) -> int {
    piece_at(axis_sizes(inputs, axis), p)
}

/// The position in its input of the element that the result has at `pos`:
/// the same but for the coordinate on the joined axis, which counts from
/// where the input begins.
pub open spec fn position_in_input(inputs: Seq<TensorView>, axis: int, pos: Seq<int>) -> Seq<int> {
    let i = input_at(inputs, axis, pos[axis]);
    pos.update(axis, pos[axis] - total(axis_sizes(inputs, axis).take(i)))
}

/// The models of a sequence of tensors.
pub open spec fn views(tensors: Seq<&Tensor>) -> Seq<TensorView> {
    Seq::new(tensors.len(), |k: int| tensors[k]@)
}

/// The length of every input's buffer.
pub open spec fn byte_lens(inputs: Seq<TensorView>) -> Seq<int> {
    Seq::new(inputs.len(), |k: int| inputs[k].bytes.len() as int)
}

/// Every input is a valid tensor.
pub open spec fn all_wf(inputs: Seq<TensorView>) -> bool {
    forall|k: int| 0 <= k < inputs.len() ==> (#[trigger] inputs[k]).wf()
}

/// Lengths that are not negative have a sum that is not negative.
pub proof fn lemma_total_nonneg(lens: Seq<int>)
    requires
        forall|k: int| 0 <= k < lens.len() ==> lens[k] >= 0,
    ensures
        total(lens) >= 0,
    decreases lens.len(),
{
    if lens.len() > 0 {
        let rest = lens.drop_last();
        assert forall|k: int| 0 <= k < rest.len() implies rest[k] >= 0 by {
            assert(rest[k] == lens[k]);
        }
        lemma_total_nonneg(rest);
    }
}

/// The sum of the first `k` lengths and the length after them is the sum of
/// the first `k + 1`, and no sum of leading lengths exceeds the sum of all.
pub proof fn lemma_total_take(lens: Seq<int>, k: int)
    requires
        forall|i: int| 0 <= i < lens.len() ==> lens[i] >= 0,
        0 <= k < lens.len(),
    ensures
        total(lens.take(k + 1)) == total(lens.take(k)) + lens[k],
        0 <= total(lens.take(k)),
        total(lens.take(k + 1)) <= total(lens),
    decreases lens.len() - k,
{
    assert(lens.take(k + 1).drop_last() =~= lens.take(k));
    assert(lens.take(k + 1).last() == lens[k]);
    assert forall|i: int| 0 <= i < lens.take(k).len() implies lens.take(k)[i] >= 0 by {
        assert(lens.take(k)[i] == lens[i]);
    }
    lemma_total_nonneg(lens.take(k));
    if k + 1 == lens.len() {
        assert(lens.take(k + 1) =~= lens);
    } else {
        lemma_total_take(lens, k + 1);
    }
}

/// An offset inside piece `k` is in piece `k`.
pub proof fn lemma_piece_at(lens: Seq<int>, k: int, r: int)
    requires
        forall|i: int| 0 <= i < lens.len() ==> lens[i] >= 0,
        0 <= k < lens.len(),
        total(lens.take(k)) <= r < total(lens.take(k)) + lens[k],
    ensures
        piece_at(lens, r) == k,
    decreases lens.len(),
{
    let n = lens.len() as int;
    let rest = lens.drop_last();
    assert(rest =~= lens.take(n - 1));
    if k == n - 1 {
    } else {
        lemma_total_take(lens, k);
        assert forall|i: int| 0 <= i < rest.len() implies rest[i] >= 0 by {
            assert(rest[i] == lens[i]);
        }
        lemma_total_take(rest, k);
        assert(rest.take(k) =~= lens.take(k));
        assert(rest.take(k + 1) =~= lens.take(k + 1));
        assert(r < total(rest));
        lemma_piece_at(rest, k, r);
    }
}

/// Scaling every length scales the sum.
pub proof fn lemma_total_scaled(lens: Seq<int>, scaled: Seq<int>, factor: int)
    requires
        scaled.len() == lens.len(),
        forall|k: int| 0 <= k < lens.len() ==> #[trigger] scaled[k] == lens[k] * factor,
    ensures
        total(scaled) == total(lens) * factor,
    decreases lens.len(),
{
    if lens.len() > 0 {
        let l = lens.drop_last();
        let s = scaled.drop_last();
        assert forall|k: int| 0 <= k < l.len() implies #[trigger] s[k] == l[k] * factor by {
            assert(s[k] == scaled[k] && l[k] == lens[k]);
        }
        lemma_total_scaled(l, s, factor);
        let a = total(l);
        let b = lens.last();
        assert(scaled.last() == b * factor) by {
            assert(scaled[lens.len() - 1] == lens[lens.len() - 1] * factor);
        }
        assert((a + b) * factor == a * factor + b * factor) by (nonlinear_arith);
    }
}

/// What holds of inputs that can be joined: every input's buffer is its row
/// length times the common number of rows, no row length is negative, and the
/// result's buffer is as long as its shape and element type ask, which is
/// the sum of the inputs' buffers.
pub proof fn lemma_concat_lengths(inputs: Seq<TensorView>, axis: int)
    requires
        all_wf(inputs),
        concat_compatible(inputs, axis),
    ensures
        forall|k: int|
            0 <= k < inputs.len() ==> (#[trigger] inputs[k]).bytes.len() == outer_count(
                inputs[0].shape,
                axis,
            ) * row_lens(inputs, axis)[k],
        forall|k: int| 0 <= k < inputs.len() ==> #[trigger] row_lens(inputs, axis)[k] >= 0,
        forall|k: int| 0 <= k < inputs.len() ==> #[trigger] axis_sizes(inputs, axis)[k] >= 0,
        outer_count(inputs[0].shape, axis) >= 0,
        total(row_lens(inputs, axis)) >= 0,
        total(axis_sizes(inputs, axis)) >= 0,
        dims_nonneg(concat_shape(inputs, axis)),
        concat_bytes(inputs, axis).len() == inputs[0].width() * shape_product(
            concat_shape(inputs, axis),
        ),
        concat_bytes(inputs, axis).len() == outer_count(inputs[0].shape, axis) * total(
            row_lens(inputs, axis),
        ),
{
    let first = inputs[0];
    let n = first.shape.len() as int;
    let outer = outer_count(first.shape, axis);
    let inner = inner_count(first.shape, axis);
    let w = first.width();
    let lens = row_lens(inputs, axis);
    let sizes = axis_sizes(inputs, axis);
    assert(first.wf());
    lemma_subrange_dims(first.shape, 0, axis);
    lemma_subrange_dims(first.shape, axis + 1, n);
    lemma_product_nonneg(first.shape.subrange(0, axis));
    lemma_product_nonneg(first.shape.subrange(axis + 1, n));
    assert forall|k: int| 0 <= k < inputs.len() implies (#[trigger] inputs[k]).bytes.len() == outer
        * lens[k] && lens[k] >= 0 && sizes[k] >= 0 && lens[k] == sizes[k] * (inner * w) by {
        let v = inputs[k];
        assert(v.wf());
        assert(same_but_axis(first, v, axis));
        assert(v.shape.subrange(0, axis) =~= first.shape.subrange(0, axis));
        assert(v.shape.subrange(axis + 1, n) =~= first.shape.subrange(axis + 1, n));
        lemma_product_around_axis(v.shape, axis);
        let a = v.shape[axis];
        assert(a >= 0);
        assert(v.width() == w);
        assert(w * (outer * (a * inner)) == outer * (a * inner * w) && a * inner * w >= 0 && a
            * inner * w == a * (inner * w)) by (nonlinear_arith)
            requires
                a >= 0,
                inner >= 0,
                w > 0,
        ;
    }
    lemma_total_nonneg(lens);
    lemma_total_nonneg(sizes);
    lemma_total_scaled(sizes, lens, inner * w);
    let joined = concat_shape(inputs, axis);
    let sum = total(sizes);
    assert(dims_nonneg(joined)) by {
        assert forall|j: int| 0 <= j < joined.len() implies joined[j] >= 0 by {
            if j != axis {
                assert(joined[j] == first.shape[j]);
            }
        }
    }
    lemma_product_around_axis(joined, axis);
    assert(joined.subrange(0, axis) =~= first.shape.subrange(0, axis));
    assert(joined.subrange(axis + 1, n) =~= first.shape.subrange(axis + 1, n));
    assert(w * (outer * (sum * inner)) == outer * (sum * (inner * w))) by (nonlinear_arith);
    assert(outer * total(lens) >= 0) by (nonlinear_arith)
        requires
            outer >= 0,
            total(lens) >= 0,
    ;
}

/// Where the bytes of the inputs end up: byte `t` of row `o` of input `k` is
/// byte `t` of the `k`-th piece of row `o` of the result.
pub proof fn lemma_concat_byte(inputs: Seq<TensorView>, axis: int, o: int, k: int, t: int)
    requires
        all_wf(inputs),
        concat_compatible(inputs, axis),
        0 <= o < outer_count(inputs[0].shape, axis),
        0 <= k < inputs.len(),
        0 <= t < row_lens(inputs, axis)[k],
    ensures
        ({
            let lens = row_lens(inputs, axis);
            let b = o * total(lens) + total(lens.take(k)) + t;
            &&& 0 <= b < concat_bytes(inputs, axis).len()
            &&& 0 <= o * lens[k] + t < inputs[k].bytes.len()
            &&& concat_bytes(inputs, axis)[b] == inputs[k].bytes[o * lens[k] + t]
        }),
{
    let lens = row_lens(inputs, axis);
    let row = total(lens);
    let outer = outer_count(inputs[0].shape, axis);
    let before = total(lens.take(k));
    let r = before + t;
    let b = o * row + r;
    lemma_concat_lengths(inputs, axis);
    assert forall|i: int| 0 <= i < lens.len() implies lens[i] >= 0 by {
        assert(row_lens(inputs, axis)[i] >= 0);
    }
    lemma_total_take(lens, k);
    assert(0 <= r < row);
    assert(0 <= b < outer * row) by (nonlinear_arith)
        requires
            0 <= o < outer,
            0 <= r < row,
            b == o * row + r,
    ;
    assert(b / row == o && b % row == r) by {
        vstd::arithmetic::div_mod::lemma_fundamental_div_mod_converse(b, row, o, r);
    }
    lemma_piece_at(lens, k, r);
    let len = lens[k];
    assert(0 <= o * len + t < outer * len) by (nonlinear_arith)
        requires
            0 <= o < outer,
            0 <= t < len,
    ;
    assert(inputs[k].bytes.len() == outer * len);
}

/// An offset below the sum of the lengths lies in the piece that `piece_at`
/// names.
pub proof fn lemma_piece_bounds(lens: Seq<int>, r: int)
    requires
        forall|i: int| 0 <= i < lens.len() ==> lens[i] >= 0,
        0 <= r < total(lens),
    ensures
        0 <= piece_at(lens, r) < lens.len(),
        total(lens.take(piece_at(lens, r))) <= r < total(lens.take(piece_at(lens, r)))
            + lens[piece_at(lens, r)],
    decreases lens.len(),
{
    let n = lens.len() as int;
    let rest = lens.drop_last();
    assert(rest =~= lens.take(n - 1));
    if r >= total(rest) {
    } else {
        assert forall|i: int| 0 <= i < rest.len() implies rest[i] >= 0 by {
            assert(rest[i] == lens[i]);
        }
        lemma_piece_bounds(rest, r);
        let k = piece_at(rest, r);
        assert(rest.take(k) =~= lens.take(k));
        assert(rest[k] == lens[k]);
    }
}

/// Every element of the result is an element of one input: of the input that
/// holds its index on the joined axis, at the same coordinates on the other
/// axes.
pub proof fn lemma_concat_elements(inputs: Seq<TensorView>, axis: int, pos: Seq<int>, k: int)
    requires
        all_wf(inputs),
        concat_compatible(inputs, axis),
        in_bounds(concat_shape(inputs, axis), pos),
        0 <= k < inputs[0].width(),
    ensures
        0 <= input_at(inputs, axis, pos[axis]) < inputs.len(),
        in_bounds(
            inputs[input_at(inputs, axis, pos[axis])].shape,
            position_in_input(inputs, axis, pos),
        ),
        joined(inputs, axis).element_byte(pos, k) == inputs[input_at(
            inputs,
            axis,
            pos[axis],
        )].element_byte(position_in_input(inputs, axis, pos), k),
{
    let first = inputs[0];
    let n = first.shape.len() as int;
    let shape = concat_shape(inputs, axis);
    let sizes = axis_sizes(inputs, axis);
    let lens = row_lens(inputs, axis);
    let w = first.width();
    let inner = inner_count(first.shape, axis);
    let outer = outer_count(first.shape, axis);
    let p = pos[axis];
    lemma_concat_lengths(inputs, axis);
    assert forall|j: int| 0 <= j < sizes.len() implies sizes[j] >= 0 by {
        assert(axis_sizes(inputs, axis)[j] >= 0);
    }
    assert(0 <= p < total(sizes)) by {
        assert(0 <= pos[axis] < shape[axis]);
    }
    lemma_piece_bounds(sizes, p);
    let i = input_at(inputs, axis, p);
    let begin = total(sizes.take(i));
    let v = inputs[i];
    let from = position_in_input(inputs, axis, pos);
    assert(v.wf());
    assert(same_but_axis(first, v, axis));
    assert(sizes[i] == v.shape[axis]);
    assert(in_bounds(v.shape, from)) by {
        assert forall|j: int| 0 <= j < v.shape.len() implies 0 <= #[trigger] from[j]
            < v.shape[j] by {
            assert(0 <= pos[j] < shape[j]);
            if j != axis {
                assert(shape[j] == first.shape[j]);
            }
        }
    }
    // Both flat indices, seen from the axis.
    lemma_flat_index_around_axis(shape, pos, axis);
    lemma_flat_index_around_axis(v.shape, from, axis);
    assert(shape.subrange(0, axis) =~= first.shape.subrange(0, axis));
    assert(v.shape.subrange(0, axis) =~= first.shape.subrange(0, axis));
    assert(shape.subrange(axis + 1, n) =~= first.shape.subrange(axis + 1, n));
    assert(v.shape.subrange(axis + 1, n) =~= first.shape.subrange(axis + 1, n));
    assert(from.subrange(0, axis) =~= pos.subrange(0, axis));
    assert(from.subrange(axis + 1, n) =~= pos.subrange(axis + 1, n));
    lemma_subrange_in_bounds(shape, pos, 0, axis);
    lemma_subrange_in_bounds(shape, pos, axis + 1, n);
    lemma_flat_index_bounds(shape.subrange(0, axis), pos.subrange(0, axis));
    lemma_flat_index_bounds(shape.subrange(axis + 1, n), pos.subrange(axis + 1, n));
    let o = flat_index(first.shape.subrange(0, axis), pos.subrange(0, axis));
    let q = flat_index(first.shape.subrange(axis + 1, n), pos.subrange(axis + 1, n));
    let sum = total(sizes);
    let size = sizes[i];
    let whole = flat_index(shape, pos);
    let part = flat_index(v.shape, from);
    assert(whole == o * (sum * inner) + p * inner + q);
    assert(part == o * (size * inner) + (p - begin) * inner + q);
    // The lengths of the rows in bytes.
    let unit = inner * w;
    assert forall|j: int| 0 <= j < sizes.len() implies #[trigger] lens[j] == sizes[j] * unit by {
        let u = inputs[j];
        assert(same_but_axis(first, u, axis));
        assert(u.shape.subrange(axis + 1, n) =~= first.shape.subrange(axis + 1, n));
        let a = u.shape[axis];
        assert(a * inner * w == a * (inner * w)) by (nonlinear_arith);
    }
    lemma_total_scaled(sizes, lens, unit);
    assert forall|j: int| 0 <= j < i implies #[trigger] lens.take(i)[j] == sizes.take(i)[j]
        * unit by {
        assert(lens[j] == sizes[j] * unit);
    }
    lemma_total_scaled(sizes.take(i), lens.take(i), unit);
    let t = ((p - begin) * inner + q) * w + k;
    assert(0 <= t < size * unit) by (nonlinear_arith)
        requires
            0 <= p - begin < size,
            0 <= q < inner,
            0 <= k < w,
            unit == inner * w,
            t == ((p - begin) * inner + q) * w + k,
    ;
    lemma_concat_byte(inputs, axis, o, i, t);
    assert(o * total(lens) + total(lens.take(i)) + t == whole * w + k) by (nonlinear_arith)
        requires
            total(lens) == sum * unit,
            total(lens.take(i)) == begin * unit,
            unit == inner * w,
            t == ((p - begin) * inner + q) * w + k,
            whole == o * (sum * inner) + p * inner + q,
    ;
    assert(o * lens[i] + t == part * w + k) by (nonlinear_arith)
        requires
            lens[i] == size * unit,
            unit == inner * w,
            t == ((p - begin) * inner + q) * w + k,
            part == o * (size * inner) + (p - begin) * inner + q,
    ;
}

/// The buffers of inputs that can be joined are together as long as the
/// result's buffer.
pub proof fn lemma_concat_total_bytes(inputs: Seq<TensorView>, axis: int)
    requires
        all_wf(inputs),
        concat_compatible(inputs, axis),
    ensures
        total(byte_lens(inputs)) == outer_count(inputs[0].shape, axis) * total(
            row_lens(inputs, axis),
        ),
        forall|k: int| 0 <= k < inputs.len() ==> #[trigger] byte_lens(inputs)[k] >= 0,
{
    let outer = outer_count(inputs[0].shape, axis);
    let lens = row_lens(inputs, axis);
    let lengths = byte_lens(inputs);
    lemma_concat_lengths(inputs, axis);
    assert forall|k: int| 0 <= k < lens.len() implies #[trigger] lengths[k] == lens[k] * outer by {
        assert(inputs[k].bytes.len() == outer * row_lens(inputs, axis)[k]);
        assert(outer * lens[k] == lens[k] * outer) by (nonlinear_arith);
    }
    lemma_total_scaled(lens, lengths, outer);
    assert(total(lens) * outer == outer * total(lens)) by (nonlinear_arith);
}

/// Whether `b` has the shape of `a` on every axis but `axis`.
fn sizes_agree(a: &[i32], b: &[i32], axis: usize) -> (ok: bool)
    requires
        a@.len() == b@.len(),
    ensures
        ok == forall|j: int| 0 <= j < a@.len() && j != axis ==> dims(a@)[j] == dims(b@)[j],
{
    let mut j: usize = 0;
    while j < a.len()
        invariant
            j <= a@.len(),
            a@.len() == b@.len(),
            forall|i: int| 0 <= i < j && i != axis ==> dims(a@)[i] == dims(b@)[i],
        decreases a.len() - j,
    {
        if j != axis && a[j] != b[j] {
            assert(dims(a@)[j as int] != dims(b@)[j as int]);
            return false;
        }
        j += 1;
    }
    true
}

/// Whether all of `tensors` agree with the first on everything but the size
/// of axis `at`.
fn all_agree(tensors: &[&Tensor], at: usize) -> (ok: bool)
    requires
        tensors@.len() > 0,
        at < tensors@[0]@.shape.len(),
    ensures
        ok == concat_compatible(views(tensors@), at as int),
        all_wf(views(tensors@)),
{
    let n = tensors.len();
    let ghost inputs = views(tensors@);
    let ghost ax = at as int;
    let first: &Tensor = tensors[0];
    let rank = first.dim();
    let shape = first.sizes();
    let dtype = first.dtype();
    let mut ok = true;
    let mut k: usize = 0;
    while k < n
        invariant
            k <= n,
            n == tensors@.len(),
            inputs == views(tensors@),
            ax == at,
            0 <= ax < rank,
            inputs[0] == first@,
            rank == first@.shape.len(),
            dims(shape@) == first@.shape,
            dtype == first@.dtype,
            ok == forall|i: int| 0 <= i < k ==> same_but_axis(inputs[0], #[trigger] inputs[i], ax),
            forall|i: int| 0 <= i < k ==> (#[trigger] inputs[i]).wf(),
        decreases n - k,
    {
        let other: &Tensor = tensors[k];
        other.check();
        proof {
            assert(inputs[k as int] == other@);
        }
        if other.dtype() != dtype || other.dim() != rank {
            proof {
                assert(!same_but_axis(inputs[0], inputs[k as int], ax));
            }
            ok = false;
        } else if !sizes_agree(shape, other.sizes(), at) {
            proof {
                assert(!same_but_axis(inputs[0], inputs[k as int], ax));
            }
            ok = false;
        }
        k += 1;
    }
    ok
}

/// The size of axis `at` of the join of `tensors`, `None` where it is more
/// than a size can be.
fn joined_size(tensors: &[&Tensor], at: usize) -> (r: Option<i32>)
    requires
        all_wf(views(tensors@)),
        concat_compatible(views(tensors@), at as int),
    ensures
        match r {
            Some(size) => size == total(axis_sizes(views(tensors@), at as int)),
            None => total(axis_sizes(views(tensors@), at as int)) > i32::MAX,
        },
{
    let n = tensors.len();
    let ghost inputs = views(tensors@);
    let ghost ax = at as int;
    let ghost sizes = axis_sizes(inputs, ax);
    proof {
        lemma_concat_lengths(inputs, ax);
        assert(sizes.take(0) =~= Seq::<int>::empty());
        assert forall|i: int| 0 <= i < sizes.len() implies sizes[i] >= 0 by {
            assert(axis_sizes(inputs, ax)[i] >= 0);
        }
    }
    let mut joined: i32 = 0;
    let mut k: usize = 0;
    while k < n
        invariant
            k <= n,
            n == tensors@.len(),
            inputs == views(tensors@),
            ax == at,
            concat_compatible(inputs, ax),
            sizes == axis_sizes(inputs, ax),
            forall|i: int| 0 <= i < n ==> #[trigger] sizes[i] >= 0,
            joined == total(sizes.take(k as int)),
            0 <= joined,
        decreases n - k,
    {
        let other: &Tensor = tensors[k];
        proof {
            assert(inputs[k as int] == other@);
            assert(same_but_axis(inputs[0], inputs[k as int], ax));
            lemma_total_take(sizes, k as int);
            assert(sizes[k as int] == other@.shape[ax]);
        }
        let size = other.sizes()[at];
        if size > i32::MAX - joined {
            return None;
        }
        joined = joined + size;
        k += 1;
    }
    proof {
        assert(sizes.take(n as int) =~= sizes);
    }
    Some(joined)
}

/// The length of the buffer of the join of `tensors` along axis `at`, and the
/// index of a tensor that has elements where there is one; `None` where the
/// length is more than a buffer can have.
fn joined_length(tensors: &[&Tensor], at: usize) -> (r: Option<(usize, usize)>)
    requires
        all_wf(views(tensors@)),
        concat_compatible(views(tensors@), at as int),
    ensures
        match r {
            Some((length, donor)) => {
                &&& length == concat_bytes(views(tensors@), at as int).len()
                &&& length > 0 ==> donor < tensors@.len() && tensors@[donor as int]@.bytes.len() > 0
            },
            None => concat_bytes(views(tensors@), at as int).len() > usize::MAX,
        },
{
    let n = tensors.len();
    let ghost inputs = views(tensors@);
    let ghost ax = at as int;
    let ghost lengths = byte_lens(inputs);
    proof {
        lemma_concat_lengths(inputs, ax);
        lemma_concat_total_bytes(inputs, ax);
        assert(lengths.take(0) =~= Seq::<int>::empty());
    }
    let mut length: usize = 0;
    let mut donor: usize = 0;
    let mut k: usize = 0;
    while k < n
        invariant
            k <= n,
            n == tensors@.len(),
            inputs == views(tensors@),
            ax == at,
            lengths == byte_lens(inputs),
            forall|i: int| 0 <= i < n ==> #[trigger] lengths[i] >= 0,
            length == total(lengths.take(k as int)),
            length > 0 ==> donor < n && inputs[donor as int].bytes.len() > 0,
            total(lengths) == concat_bytes(inputs, ax).len(),
        decreases n - k,
    {
        let other: &Tensor = tensors[k];
        proof {
            assert(inputs[k as int] == other@);
            lemma_total_take(lengths, k as int);
            assert(lengths[k as int] == other@.bytes.len());
        }
        let more = other.nbytes();
        match length.checked_add(more) {
            Some(sum) => {
                if more > 0 {
                    donor = k;
                }
                length = sum;
            },
            None => {
                return None;
            },
        }
        k += 1;
    }
    proof {
        assert(lengths.take(n as int) =~= lengths);
        if length > 0 {
            assert(inputs[donor as int] == tensors@[donor as int]@);
        }
    }
    Some((length, donor))
}

/// For a tensor that has elements: the number of its rows seen from axis
/// `at`, and the bytes under one index of that axis.
fn rows_and_unit(model: &Tensor, at: usize) -> (r: (usize, usize))
    requires
        at < model@.shape.len(),
        model@.bytes.len() > 0,
    ensures
        r.0 == outer_count(model@.shape, at as int),
        r.1 == inner_count(model@.shape, at as int) * model@.width(),
        r.0 >= 1,
        inner_count(model@.shape, at as int) >= 1,
{
    model.check();
    let sizes = model.sizes();
    let rank = sizes.len();
    let width = model.element_size();
    let count = model.numel();
    let length = model.nbytes();
    let ghost m = model@;
    let ghost ax = at as int;
    proof {
        assert(m.numel() > 0) by (nonlinear_arith)
            requires
                m.bytes.len() == m.width() * m.numel(),
                m.bytes.len() > 0,
                m.width() > 0,
        ;
        lemma_product_zero(m.shape);
        lemma_product_prefix_le(m.shape, ax);
        lemma_product_prefix_le(m.shape, ax + 1);
        lemma_subrange_dims(m.shape, 0, ax);
        lemma_subrange_dims(m.shape, ax + 1, rank as int);
        assert(dims(sizes@).subrange(0, ax) =~= dims(sizes@.subrange(0, ax)));
        assert(dims(sizes@).subrange(ax + 1, rank as int) =~= dims(
            sizes@.subrange(ax + 1, rank as int),
        ));
    }
    let rows = count_within(slice_subrange(sizes, 0, at), count);
    let under = count_within(slice_subrange(sizes, at + 1, rank), count);
    proof {
        let c = count as int;
        let w = width as int;
        let u = under as int;
        assert(u * w <= w * c) by (nonlinear_arith)
            requires
                1 <= u <= c,
                w > 0,
        ;
        assert(length == w * c);
    }
    (rows, under * width)
}

/// The buffer of the join of `tensors` along axis `at`: for every row, the
/// rows of the tensors in order. `rows` is the number of rows and `unit` the
/// bytes under one index of the axis.
fn copy_rows(tensors: &[&Tensor], at: usize, rows: usize, unit: usize, length: usize) -> (bytes:
    Vec<u8>)
    requires
        all_wf(views(tensors@)),
        concat_compatible(views(tensors@), at as int),
        rows == outer_count(tensors@[0]@.shape, at as int),
        rows >= 1,
        unit == inner_count(tensors@[0]@.shape, at as int) * tensors@[0]@.width(),
        length == concat_bytes(views(tensors@), at as int).len(),
    ensures
        bytes@ == concat_bytes(views(tensors@), at as int),
{
    let n = tensors.len();
    let ghost inputs = views(tensors@);
    let ghost ax = at as int;
    let ghost first = inputs[0];
    let ghost rank = first.shape.len() as int;
    let ghost lens = row_lens(inputs, ax);
    let ghost row = total(lens);
    let ghost outer = outer_count(first.shape, ax);
    let ghost inner = inner_count(first.shape, ax);
    let ghost width = first.width();
    let ghost want = concat_bytes(inputs, ax);
    proof {
        assert(inputs[0] == tensors@[0]@);
        lemma_concat_lengths(inputs, ax);
    }
    let mut bytes: Vec<u8> = Vec::with_capacity(length);
    let mut o: usize = 0;
    while o < rows
        invariant
            o <= rows,
            rows == outer,
            n == tensors@.len(),
            inputs == views(tensors@),
            inputs.len() == n,
            at == ax,
            0 <= ax < rank,
            rank == first.shape.len(),
            inputs[0] == first,
            all_wf(inputs),
            concat_compatible(inputs, ax),
            lens == row_lens(inputs, ax),
            row == total(lens),
            row >= 0,
            outer == outer_count(first.shape, ax),
            inner == inner_count(first.shape, ax),
            unit == inner * width,
            width == first.width(),
            want == concat_bytes(inputs, ax),
            want.len() == outer * row,
            bytes@.len() == o * row,
            forall|b: int| 0 <= b < bytes@.len() ==> bytes@[b] == want[b],
        decreases rows - o,
    {
        let mut k: usize = 0;
        proof {
            assert(lens.take(0) =~= Seq::<int>::empty());
        }
        while k < n
            invariant
                k <= n,
                o < rows,
                rows == outer,
                n == tensors@.len(),
                inputs == views(tensors@),
                inputs.len() == n,
                at == ax,
                0 <= ax < rank,
                rank == first.shape.len(),
                inputs[0] == first,
                all_wf(inputs),
                concat_compatible(inputs, ax),
                lens == row_lens(inputs, ax),
                row == total(lens),
                outer == outer_count(first.shape, ax),
                inner == inner_count(first.shape, ax),
                unit == inner * width,
                width == first.width(),
                want == concat_bytes(inputs, ax),
                want.len() == outer * row,
                bytes@.len() == o * row + total(lens.take(k as int)),
                forall|b: int| 0 <= b < bytes@.len() ==> bytes@[b] == want[b],
            decreases n - k,
        {
            let other: &Tensor = tensors[k];
            let source = other.get_data();
            let ghost v = inputs[k as int];
            let ghost len = lens[k as int];
            proof {
                assert(v == other@);
                assert(v.wf());
                assert(same_but_axis(inputs[0], v, ax));
                lemma_concat_lengths(inputs, ax);
                assert(v.bytes.len() == outer * row_lens(inputs, ax)[k as int]);
                assert(row_lens(inputs, ax)[k as int] >= 0);
                assert forall|i: int| 0 <= i < lens.len() implies lens[i] >= 0 by {
                    assert(row_lens(inputs, ax)[i] >= 0);
                }
                lemma_total_take(lens, k as int);
                assert(v.shape.subrange(ax + 1, rank) =~= first.shape.subrange(ax + 1, rank));
                let a = v.shape[ax];
                assert(len == a * inner * width);
                assert(a * inner * width == a * (inner * width)) by (nonlinear_arith);
                let oo = o as int;
                assert(len <= outer * len && 0 <= oo * len && oo * len + len <= outer * len)
                    by (nonlinear_arith)
                    requires
                        0 <= oo < outer,
                        len >= 0,
                ;
            }
            let available = source.len();
            let size: usize = other.sizes()[at] as usize;
            proof {
                assert(size == v.shape[ax]);
                assert(available == outer * len);
                assert(size * unit == len);
            }
            let length = size * unit;
            let start = o * length;
            let ghost held = bytes@;
            bytes.extend_from_slice(slice_subrange(source, start, start + length));
            proof {
                assert forall|b: int| 0 <= b < bytes@.len() implies bytes@[b] == want[b] by {
                    if b >= held.len() {
                        let t = b - held.len();
                        lemma_concat_byte(inputs, ax, o as int, k as int, t);
                        assert(bytes@[b] == source@.subrange(start as int, start + length)[t]);
                    } else {
                        assert(bytes@[b] == held[b]);
                    }
                }
            }
            k += 1;
        }
        proof {
            assert(lens.take(n as int) =~= lens);
            let oo = o as int;
            assert(oo * row + row == (oo + 1) * row) by (nonlinear_arith);
        }
        o += 1;
    }
    proof {
        assert(bytes@ =~= want);
    }
    bytes
}

impl Tensor {
    /// The tensors of `tensors` joined along `axis`, over a fresh buffer.
    /// Refused with `InvalidArgument` where there is no tensor, `axis` is
    /// not an axis of the first, two tensors differ in element type, in rank
    /// or in the size of another axis, or the result would be too large to
    /// hold.
    pub fn concat(tensors: &[&Tensor], axis: i64) -> (r: Result<Tensor, ETError>)
        ensures
            view_of(r) == concat_spec(views(tensors@), axis as int),
    {
        let ghost inputs = views(tensors@);
        if tensors.len() == 0 {
            return Err(ETError::InvalidArgument);
        }
        let first: &Tensor = tensors[0];
        let rank = first.dim();
        proof {
            assert(inputs[0] == first@);
        }
        if axis < 0 || axis as u64 >= rank as u64 {
            return Err(ETError::InvalidArgument);
        }
        let at = axis as usize;
        if !all_agree(tensors, at) {
            return Err(ETError::InvalidArgument);
        }
        proof {
            lemma_concat_lengths(inputs, at as int);
        }
        let size = match joined_size(tensors, at) {
            Some(size) => size,
            None => {
                return Err(ETError::InvalidArgument);
            },
        };
        let (length, donor) = match joined_length(tensors, at) {
            Some(found) => found,
            None => {
                return Err(ETError::InvalidArgument);
            },
        };
        let mut sizes: Vec<i32> = vstd::slice::slice_to_vec(first.sizes());
        sizes[at] = size;
        proof {
            assert(dims(sizes@) =~= concat_shape(inputs, at as int));
        }
        if length == 0 {
            let empty: Vec<u8> = Vec::new();
            proof {
                assert(empty@ =~= concat_bytes(inputs, at as int));
            }
            return Ok(Tensor::from_parts(first.dtype(), sizes, empty));
        }
        // Some tensor has elements, so none of its sizes is 0, and the number of
        // rows and the bytes under one index of the axis can be counted on it.
        let model: &Tensor = tensors[donor];
        proof {
            let m = inputs[donor as int];
            assert(m == model@);
            assert(same_but_axis(inputs[0], m, at as int));
            assert(m.shape.subrange(0, at as int) =~= first@.shape.subrange(0, at as int));
            assert(m.shape.subrange(at + 1, rank as int) =~= first@.shape.subrange(
                at + 1,
                rank as int,
            ));
        }
        let (rows, unit) = rows_and_unit(model, at);
        let bytes = copy_rows(tensors, at, rows, unit, length);
        Ok(Tensor::from_parts(first.dtype(), sizes, bytes))
    }
}

} // verus!

//! What holds of creating, reshaping, slicing and joining tensors.

use crate::eterror::ETError;
use crate::layout::{
    dims_nonneg, flat_index, in_bounds, lemma_flat_index_bounds, lemma_flat_of_position,
    lemma_position_of_flat, lemma_position_of_in_bounds, lemma_product_nonneg, offset_by,
    position_of, shape_product,
};
use crate::tensor_concat::{
    all_wf, axis_sizes, concat_compatible, concat_ok, concat_shape, concat_spec, input_at, joined,
    lemma_concat_elements, lemma_concat_lengths, lemma_piece_at, position_in_input, row_lens,
    same_but_axis, total,
};
use crate::tensor_model::{create_spec, reshape_spec, set_value_spec, TensorView};
use crate::tensor_slice::{
    lemma_shifted_in_bounds, lemma_slice_window, range_end, range_ok, range_start, slice_ok,
    slice_shape, slice_spec, slice_starts,
};
use crate::tensor_type::TensorType;
use vstd::prelude::*;

verus! {

/// The byte at offset `b` of a buffer of elements of width `w` is byte
/// `b % w` of element `b / w`.
pub proof fn lemma_byte_of_element(e: int, k: int, w: int)
    requires
        0 <= k < w,
    ensures
        (e * w + k) / w == e,
        (e * w + k) % w == k,
{
    vstd::arithmetic::div_mod::lemma_fundamental_div_mod_converse(e * w + k, w, e, k);
}

/// Two valid tensors of one type and shape that agree on every byte of every
/// element are the same tensor.
pub proof fn lemma_equal_by_elements(a: TensorView, b: TensorView)
    requires
        a.wf(),
        b.wf(),
        a.dtype == b.dtype,
        a.shape == b.shape,
        forall|pos: Seq<int>, k: int|
            in_bounds(a.shape, pos) && 0 <= k < a.width() ==> #[trigger] a.element_byte(pos, k)
                == b.element_byte(pos, k),
    ensures
        a == b,
{
    let w = a.width();
    let n = a.numel();
    assert forall|i: int| 0 <= i < a.bytes.len() implies a.bytes[i] == b.bytes[i] by {
        let e = i / w;
        let k = i % w;
        assert(0 <= k < w && e * w + k == i && 0 <= e < n) by (nonlinear_arith)
            requires
                0 <= i < w * n,
                w > 0,
                e == i / w,
                k == i % w,
        ;
        let pos = position_of(a.shape, e);
        lemma_position_of_in_bounds(a.shape, e);
        lemma_flat_of_position(a.shape, e);
        assert(a.element_byte(pos, k) == b.element_byte(pos, k));
    }
    assert(a.bytes =~= b.bytes);
}

/// Every element of a slice is the element of the sliced tensor at the
/// position shifted by the first selected index of every axis.
pub proof fn lemma_slice_elements(
    v: TensorView,
    ranges: Seq<(Option<i32>, Option<i32>)>,
    pos: Seq<int>,
    k: int,
)
    requires
        v.wf(),
        slice_ok(v.shape, ranges),
        in_bounds(slice_shape(v.shape, ranges), pos),
        0 <= k < v.width(),
    ensures
        slice_spec(v, ranges) is Ok,
        slice_spec(v, ranges)->Ok_0.wf(),
        in_bounds(v.shape, offset_by(pos, slice_starts(v.shape, ranges))),
        slice_spec(v, ranges)->Ok_0.element_byte(pos, k) == v.element_byte(
            offset_by(pos, slice_starts(v.shape, ranges)),
            k,
        ),
{
    let window = slice_shape(v.shape, ranges);
    let starts = slice_starts(v.shape, ranges);
    let w = v.width();
    lemma_slice_window(v.shape, ranges);
    assert(dims_nonneg(window)) by {
        assert forall|j: int| 0 <= j < window.len() implies window[j] >= 0 by {
            assert(0 <= starts[j]);
        }
    }
    lemma_product_nonneg(window);
    let count = shape_product(window);
    assert(w * count >= 0) by (nonlinear_arith)
        requires
            w > 0,
            count >= 0,
    ;
    lemma_shifted_in_bounds(v.shape, starts, window, pos);
    lemma_flat_index_bounds(window, pos);
    lemma_position_of_flat(window, pos);
    let e = flat_index(window, pos);
    lemma_byte_of_element(e, k, w);
    assert(0 <= e * w + k < w * count) by (nonlinear_arith)
        requires
            0 <= e < count,
            0 <= k < w,
    ;
}

/// The bytes of an element are inside the buffer.
pub proof fn lemma_element_inside(v: TensorView, pos: Seq<int>)
    requires
        v.wf(),
        in_bounds(v.shape, pos),
    ensures
        0 <= flat_index(v.shape, pos) * v.width(),
        flat_index(v.shape, pos) * v.width() + v.width() <= v.bytes.len(),
        v.element(pos).len() == v.width(),
        forall|k: int| 0 <= k < v.width() ==> v.element(pos)[k] == v.element_byte(pos, k),
{
    lemma_flat_index_bounds(v.shape, pos);
    let f = flat_index(v.shape, pos);
    let w = v.width();
    let n = v.numel();
    assert(0 <= f * w && f * w + w <= w * n) by (nonlinear_arith)
        requires
            0 <= f < n,
            w > 0,
    ;
}

/// Every element of a slice is the element of the sliced tensor at the
/// position shifted by the first selected index of every axis.
pub proof fn law_slice_element(
    v: TensorView,
    ranges: Seq<(Option<i32>, Option<i32>)>,
    pos: Seq<int>,
)
    requires
        v.wf(),
        slice_ok(v.shape, ranges),
        in_bounds(slice_shape(v.shape, ranges), pos),
    ensures
        slice_spec(v, ranges) is Ok,
        slice_spec(v, ranges)->Ok_0.element(pos) == v.element(
            offset_by(pos, slice_starts(v.shape, ranges)),
        ),
{
    let r = slice_spec(v, ranges)->Ok_0;
    let from = offset_by(pos, slice_starts(v.shape, ranges));
    lemma_slice_elements(v, ranges, pos, 0);
    lemma_element_inside(r, pos);
    lemma_element_inside(v, from);
    assert forall|k: int| 0 <= k < v.width() implies r.element(pos)[k] == v.element(from)[k] by {
        lemma_slice_elements(v, ranges, pos, k);
    }
    assert(r.element(pos) =~= v.element(from));
}

/// Every element of a join is an element of one input: of the input that
/// holds its index on the joined axis, at the same coordinates on the other
/// axes.
pub proof fn law_concat_element(inputs: Seq<TensorView>, axis: int, pos: Seq<int>)
    requires
        all_wf(inputs),
        concat_compatible(inputs, axis),
        in_bounds(concat_shape(inputs, axis), pos),
    ensures
        0 <= input_at(inputs, axis, pos[axis]) < inputs.len(),
        joined(inputs, axis).element(pos) == inputs[input_at(inputs, axis, pos[axis])].element(
            position_in_input(inputs, axis, pos),
        ),
{
    let r = joined(inputs, axis);
    let i = input_at(inputs, axis, pos[axis]);
    let from = position_in_input(inputs, axis, pos);
    assert(inputs[0].wf());
    lemma_concat_elements(inputs, axis, pos, 0);
    lemma_concat_lengths(inputs, axis);
    assert(r.wf());
    assert(inputs[i].wf());
    assert(same_but_axis(inputs[0], inputs[i], axis));
    lemma_element_inside(r, pos);
    lemma_element_inside(inputs[i], from);
    assert forall|k: int| 0 <= k < r.width() implies r.element(pos)[k] == inputs[i].element(
        from,
    )[k] by {
        lemma_concat_elements(inputs, axis, pos, k);
    }
    assert(r.element(pos) =~= inputs[i].element(from));
}

/// Writing an element changes that element and no other: afterwards the
/// element at the written position is the value, and the element at any
/// other position is what it was.
pub proof fn law_set_value_element(v: TensorView, pos: Seq<int>, value: Seq<u8>, other: Seq<int>)
    requires
        v.wf(),
        in_bounds(v.shape, pos),
        value.len() == v.width(),
        in_bounds(v.shape, other),
    ensures
        set_value_spec(v, pos, value) is Ok,
        set_value_spec(v, pos, value)->Ok_0.wf(),
        set_value_spec(v, pos, value)->Ok_0.element(pos) == value,
        other != pos ==> set_value_spec(v, pos, value)->Ok_0.element(other) == v.element(other),
{
    let r = set_value_spec(v, pos, value)->Ok_0;
    let w = v.width();
    let at = flat_index(v.shape, pos);
    let there = flat_index(v.shape, other);
    lemma_element_inside(v, pos);
    lemma_element_inside(v, other);
    assert(r.wf());
    lemma_element_inside(r, pos);
    lemma_element_inside(r, other);
    assert(r.element(pos) =~= value);
    if other != pos {
        if there == at {
            lemma_position_of_flat(v.shape, pos);
            lemma_position_of_flat(v.shape, other);
        }
        assert(there * w + w <= at * w || at * w + w <= there * w) by (nonlinear_arith)
            requires
                there != at,
                w > 0,
        ;
        assert(r.element(other) =~= v.element(other));
    }
}

/// A tensor made from a type with a width, a shape without negative sizes
/// and a buffer of exactly the shape's elements exists, and its buffer is the
/// one it was made from.
pub proof fn law_create_keeps_bytes(dtype: TensorType, shape: Seq<int>, bytes: Seq<u8>)
    requires
        dtype.width_of() > 0,
        dims_nonneg(shape),
        bytes.len() == dtype.width_of() * shape_product(shape),
    ensures
        create_spec(dtype, shape, bytes) is Ok,
        create_spec(dtype, shape, bytes)->Ok_0.bytes == bytes,
        create_spec(dtype, shape, bytes)->Ok_0.shape == shape,
        create_spec(dtype, shape, bytes)->Ok_0.dtype == dtype,
{
}

/// Reshaping to a shape with as many elements and reshaping the result back
/// to the first shape gives the first tensor.
pub proof fn law_reshape_round_trip(v: TensorView, shape: Seq<int>)
    requires
        v.wf(),
        dims_nonneg(shape),
        shape_product(shape) == v.numel(),
    ensures
        reshape_spec(v, shape) is Ok,
        reshape_spec(v, shape)->Ok_0.bytes == v.bytes,
        reshape_spec(reshape_spec(v, shape)->Ok_0, v.shape) == Ok::<TensorView, ETError>(v),
{
}

/// `range` selects all of an axis of length `len`.
pub open spec fn selects_all(range: (Option<i32>, Option<i32>), len: int) -> bool {
    &&& range_ok(range, len)
    &&& range_start(range, len) == 0
    &&& range_end(range, len) == len
}

/// A range without bounds selects all of any axis.
pub proof fn lemma_open_range_selects_all(len: int)
    requires
        len >= 0,
    ensures
        selects_all((None::<i32>, None::<i32>), len),
{
}

/// Slicing by ranges without bounds gives the tensor itself.
pub proof fn law_slice_without_bounds(v: TensorView, ranges: Seq<(Option<i32>, Option<i32>)>)
    requires
        v.wf(),
        ranges.len() >= v.shape.len(),
        forall|j: int|
            0 <= j < v.shape.len() ==> #[trigger] ranges[j] == (None::<i32>, None::<i32>),
    ensures
        slice_spec(v, ranges) == Ok::<TensorView, ETError>(v),
{
    assert forall|j: int| 0 <= j < v.shape.len() implies selects_all(
        #[trigger] ranges[j],
        v.shape[j],
    ) by {
        assert(v.shape[j] >= 0);
        lemma_open_range_selects_all(v.shape[j]);
    }
    law_slice_identity(v, ranges);
}

/// Slicing by ranges that select all of every axis gives the tensor itself.
pub proof fn law_slice_identity(v: TensorView, ranges: Seq<(Option<i32>, Option<i32>)>)
    requires
        v.wf(),
        ranges.len() >= v.shape.len(),
        forall|j: int| 0 <= j < v.shape.len() ==> selects_all(#[trigger] ranges[j], v.shape[j]),
    ensures
        slice_spec(v, ranges) == Ok::<TensorView, ETError>(v),
{
    assert(slice_ok(v.shape, ranges));
    let r = slice_spec(v, ranges)->Ok_0;
    let starts = slice_starts(v.shape, ranges);
    assert(r.shape =~= v.shape) by {
        assert forall|j: int| 0 <= j < v.shape.len() implies r.shape[j] == v.shape[j] by {
            assert(selects_all(ranges[j], v.shape[j]));
        }
    }
    lemma_product_nonneg(v.shape);
    assert(r.wf()) by {
        assert(v.width() * v.numel() >= 0);
    }
    assert forall|pos: Seq<int>, k: int|
        in_bounds(r.shape, pos) && 0 <= k < r.width() implies #[trigger] r.element_byte(pos, k)
        == v.element_byte(pos, k) by {
        lemma_slice_elements(v, ranges, pos, k);
        assert(offset_by(pos, starts) =~= pos) by {
            assert forall|j: int| 0 <= j < pos.len() implies offset_by(pos, starts)[j]
                == pos[j] by {
                assert(selects_all(ranges[j], v.shape[j]));
            }
        }
    }
    lemma_equal_by_elements(r, v);
}

/// The sums of the leading lengths of one length and of two.
proof fn lemma_total_small(a: int, b: int)
    ensures
        total(seq![a]) == a,
        total(seq![a, b]) == a + b,
        total(seq![a].take(0)) == 0,
        total(seq![a, b].take(0)) == 0,
        total(seq![a, b].take(1)) == a,
{
    let one = seq![a];
    let two = seq![a, b];
    assert(one.drop_last() =~= Seq::<int>::empty());
    assert(total(one.drop_last()) == 0);
    assert(one.last() == a);
    assert(total(one) == a);
    assert(two.drop_last() =~= one);
    assert(two.last() == b);
    assert(total(two) == total(two.drop_last()) + b);
    assert(one.take(0) =~= Seq::<int>::empty());
    assert(two.take(0) =~= Seq::<int>::empty());
    assert(two.take(1) =~= one);
}

/// Joining a single tensor along any of its axes gives the tensor itself.
pub proof fn law_concat_single(a: TensorView, axis: int)
    requires
        a.wf(),
        a.fits(),
        0 <= axis < a.shape.len(),
    ensures
        concat_spec(seq![a], axis) == Ok::<TensorView, ETError>(a),
{
    let inputs = seq![a];
    assert(all_wf(inputs));
    assert(concat_compatible(inputs, axis));
    lemma_concat_lengths(inputs, axis);
    let sizes = axis_sizes(inputs, axis);
    assert(sizes =~= seq![a.shape[axis]]);
    lemma_total_small(a.shape[axis], 0);
    let lens = row_lens(inputs, axis);
    assert(lens =~= seq![lens[0]]);
    lemma_total_small(lens[0], 0);
    assert(inputs[0].bytes.len() == crate::layout::outer_count(a.shape, axis) * lens[0]);
    assert(concat_ok(inputs, axis));
    let r = joined(inputs, axis);
    assert(r.shape =~= a.shape);
    assert(r.wf());
    assert forall|pos: Seq<int>, k: int|
        in_bounds(r.shape, pos) && 0 <= k < r.width() implies #[trigger] r.element_byte(pos, k)
        == a.element_byte(pos, k) by {
        lemma_concat_elements(inputs, axis, pos, k);
        assert(input_at(inputs, axis, pos[axis]) == 0);
        assert(position_in_input(inputs, axis, pos) =~= pos);
    }
    lemma_equal_by_elements(r, a);
}

/// `range` selects the indices from `from` up to `to` of an axis of length
/// `len`.
pub open spec fn selects(range: (Option<i32>, Option<i32>), len: int, from: int, to: int) -> bool {
    &&& range_ok(range, len)
    &&& range_start(range, len) == from
    &&& range_end(range, len) == to
}

/// `ranges` select, of a tensor of shape `shape`, the indices from `from` up
/// to `to` of `axis` and all of every other axis.
pub open spec fn selects_on_axis(
    ranges: Seq<(Option<i32>, Option<i32>)>,
    shape: Seq<int>,
    axis: int,
    from: int,
    to: int,
) -> bool {
    &&& ranges.len() >= shape.len()
    &&& forall|j: int|
        0 <= j < shape.len() ==> if j == axis {
            selects(#[trigger] ranges[j], shape[j], from, to)
        } else {
            selects_all(ranges[j], shape[j])
        }
}

/// Slicing the join of two tensors gives the tensors back: the indices of
/// the joined axis below the first tensor's size select the first tensor,
/// and the indices from there on select the second.
pub proof fn law_concat_then_slice(
    a: TensorView,
    b: TensorView,
    axis: int,
    first: Seq<(Option<i32>, Option<i32>)>,
    second: Seq<(Option<i32>, Option<i32>)>,
)
    requires
        a.wf(),
        b.wf(),
        0 <= axis < a.shape.len(),
        same_but_axis(a, b, axis),
        concat_ok(seq![a, b], axis),
        selects_on_axis(first, concat_shape(seq![a, b], axis), axis, 0, a.shape[axis]),
        selects_on_axis(
            second,
            concat_shape(seq![a, b], axis),
            axis,
            a.shape[axis],
            a.shape[axis] + b.shape[axis],
        ),
    ensures
        concat_spec(seq![a, b], axis) is Ok,
        slice_spec(concat_spec(seq![a, b], axis)->Ok_0, first) == Ok::<TensorView, ETError>(a),
        slice_spec(concat_spec(seq![a, b], axis)->Ok_0, second) == Ok::<TensorView, ETError>(b),
{
    let inputs = seq![a, b];
    let c = joined(inputs, axis);
    let size_a = a.shape[axis];
    let size_b = b.shape[axis];
    assert(all_wf(inputs));
    lemma_concat_lengths(inputs, axis);
    let sizes = axis_sizes(inputs, axis);
    assert(sizes =~= seq![size_a, size_b]);
    lemma_total_small(size_a, size_b);
    assert(size_a >= 0 && size_b >= 0) by {
        assert(axis_sizes(inputs, axis)[0] >= 0);
        assert(axis_sizes(inputs, axis)[1] >= 0);
    }
    assert(c.wf());
    assert(c.shape[axis] == size_a + size_b);

    // The first tensor.
    assert(slice_ok(c.shape, first)) by {
        assert forall|j: int| 0 <= j < c.shape.len() implies range_ok(
            #[trigger] first[j],
            c.shape[j],
        ) by {
            if j == axis {
                assert(selects(first[j], c.shape[j], 0, size_a));
            } else {
                assert(selects_all(first[j], c.shape[j]));
            }
        }
    }
    let ra = slice_spec(c, first)->Ok_0;
    let starts_a = slice_starts(c.shape, first);
    assert(ra.shape =~= a.shape) by {
        assert forall|j: int| 0 <= j < a.shape.len() implies ra.shape[j] == a.shape[j] by {
            if j == axis {
                assert(selects(first[j], c.shape[j], 0, size_a));
            } else {
                assert(selects_all(first[j], c.shape[j]));
                assert(c.shape[j] == a.shape[j]);
            }
        }
    }
    assert(ra.wf()) by {
        lemma_product_nonneg(a.shape);
        assert(a.width() * a.numel() >= 0);
    }
    assert forall|pos: Seq<int>, k: int|
        in_bounds(ra.shape, pos) && 0 <= k < ra.width() implies #[trigger] ra.element_byte(pos, k)
        == a.element_byte(pos, k) by {
        lemma_slice_elements(c, first, pos, k);
        let at = offset_by(pos, starts_a);
        assert(at =~= pos) by {
            assert forall|j: int| 0 <= j < pos.len() implies at[j] == pos[j] by {
                if j == axis {
                    assert(selects(first[j], c.shape[j], 0, size_a));
                } else {
                    assert(selects_all(first[j], c.shape[j]));
                }
            }
        }
        lemma_concat_elements(inputs, axis, pos, k);
        assert(0 <= pos[axis] < a.shape[axis]);
        lemma_piece_at(sizes, 0, pos[axis]);
        assert(input_at(inputs, axis, pos[axis]) == 0);
        assert(position_in_input(inputs, axis, pos) =~= pos);
    }
    lemma_equal_by_elements(ra, a);

    // The second tensor.
    assert(slice_ok(c.shape, second)) by {
        assert forall|j: int| 0 <= j < c.shape.len() implies range_ok(
            #[trigger] second[j],
            c.shape[j],
        ) by {
            if j == axis {
                assert(selects(second[j], c.shape[j], size_a, size_a + size_b));
            } else {
                assert(selects_all(second[j], c.shape[j]));
            }
        }
    }
    let rb = slice_spec(c, second)->Ok_0;
    let starts_b = slice_starts(c.shape, second);
    assert(same_but_axis(inputs[0], inputs[1], axis));
    assert(rb.shape =~= b.shape) by {
        assert forall|j: int| 0 <= j < b.shape.len() implies rb.shape[j] == b.shape[j] by {
            if j == axis {
                assert(selects(second[j], c.shape[j], size_a, size_a + size_b));
            } else {
                assert(selects_all(second[j], c.shape[j]));
                assert(c.shape[j] == a.shape[j]);
            }
        }
    }
    assert(rb.wf()) by {
        lemma_product_nonneg(b.shape);
        assert(b.width() * b.numel() >= 0);
    }
    assert forall|pos: Seq<int>, k: int|
        in_bounds(rb.shape, pos) && 0 <= k < rb.width() implies #[trigger] rb.element_byte(pos, k)
        == b.element_byte(pos, k) by {
        lemma_slice_elements(c, second, pos, k);
        let at = offset_by(pos, starts_b);
        assert(at =~= pos.update(axis, pos[axis] + size_a)) by {
            assert forall|j: int| 0 <= j < pos.len() implies at[j] == pos.update(
                axis,
                pos[axis] + size_a,
            )[j] by {
                if j == axis {
                    assert(selects(second[j], c.shape[j], size_a, size_a + size_b));
                } else {
                    assert(selects_all(second[j], c.shape[j]));
                }
            }
        }
        lemma_concat_elements(inputs, axis, at, k);
        assert(0 <= pos[axis] < b.shape[axis]);
        lemma_piece_at(sizes, 1, at[axis]);
        assert(input_at(inputs, axis, at[axis]) == 1);
        assert(position_in_input(inputs, axis, at) =~= pos);
    }
    lemma_equal_by_elements(rb, b);
}

} // verus!

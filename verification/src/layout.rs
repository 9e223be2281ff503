//! Row-major layout: the arithmetic that relates a position in a shape to an
//! offset in a flat buffer.
//!
//! A shape is a sequence of dimension sizes, outermost axis first. A position
//! gives one coordinate per axis. In row-major order the last axis varies
//! fastest, so the flat index of a position is
//! `(((p0 * d1 + p1) * d2 + p2) ...)`.

use vstd::prelude::*;

verus! {

/// The dimension sizes of a stored shape as mathematical integers.
pub open spec fn dims(shape: Seq<i32>) -> Seq<int> {
    Seq::new(shape.len(), |i: int| shape[i] as int)
}

/// The number of elements of a shape: the product of its sizes, 1 for the
/// empty shape.
pub open spec fn shape_product(shape: Seq<int>) -> int
    decreases shape.len(),
{
    if shape.len() == 0 {
        1
    } else {
        shape_product(shape.drop_last()) * shape.last()
    }
}

/// No size is negative.
pub open spec fn dims_nonneg(shape: Seq<int>) -> bool {
    forall|i: int| 0 <= i < shape.len() ==> shape[i] >= 0
}

/// Every size is at least 1.
pub open spec fn dims_positive(shape: Seq<int>) -> bool {
    forall|i: int| 0 <= i < shape.len() ==> shape[i] >= 1
}

/// `pos` names an element of `shape`: one coordinate per axis, each below the
/// size of its axis.
pub open spec fn in_bounds(shape: Seq<int>, pos: Seq<int>) -> bool {
    &&& pos.len() == shape.len()
    &&& forall|i: int| 0 <= i < shape.len() ==> 0 <= #[trigger] pos[i] < shape[i]
}

/// The row-major flat index of `pos` in `shape`.
pub open spec fn flat_index(shape: Seq<int>, pos: Seq<int>) -> int
    decreases shape.len(),
{
    if shape.len() == 0 {
        0
    } else {
        flat_index(shape.drop_last(), pos.drop_last()) * shape.last() + pos.last()
    }
}

/// The position in `shape` whose row-major flat index is `index`.
pub open spec fn position_of(shape: Seq<int>, index: int) -> Seq<int>
    decreases shape.len(),
{
    if shape.len() == 0 {
        Seq::empty()
    } else {
        position_of(shape.drop_last(), index / shape.last()).push(index % shape.last())
    }
}

/// The number of rows of `shape` seen from `axis`: the product of the sizes
/// before it.
pub open spec fn outer_count(shape: Seq<int>, axis: int) -> int {
    shape_product(shape.subrange(0, axis))
}

/// The number of elements under one index of `axis`: the product of the sizes
/// after it.
pub open spec fn inner_count(shape: Seq<int>, axis: int) -> int {
    shape_product(shape.subrange(axis + 1, shape.len() as int))
}

/// The stride of `axis`: how far apart in the flat buffer two elements lie
/// whose positions differ by 1 on `axis` alone.
pub open spec fn stride(shape: Seq<int>, axis: int) -> int {
    inner_count(shape, axis)
}

/// The sum, over the first `n` axes, of coordinate times stride.
pub open spec fn stride_sum(shape: Seq<int>, pos: Seq<int>, n: nat) -> int
    decreases n,
{
    if n == 0 {
        0
    } else {
        stride_sum(shape, pos, (n - 1) as nat) + pos[n - 1] * stride(shape, n - 1)
    }
}

/// The coordinate-wise sum of two positions.
pub open spec fn offset_by(pos: Seq<int>, delta: Seq<int>) -> Seq<int> {
    Seq::new(pos.len(), |i: int| pos[i] + delta[i])
}

/// A run of axes of a shape has no negative size where the shape has none,
/// and only sizes of at least 1 where the shape has only such.
pub proof fn lemma_subrange_dims(shape: Seq<int>, from: int, to: int)
    requires
        0 <= from <= to <= shape.len(),
    ensures
        dims_nonneg(shape) ==> dims_nonneg(shape.subrange(from, to)),
        dims_positive(shape) ==> dims_positive(shape.subrange(from, to)),
{
    let part = shape.subrange(from, to);
    if dims_nonneg(shape) {
        assert forall|i: int| 0 <= i < part.len() implies part[i] >= 0 by {
            assert(part[i] == shape[i + from]);
        }
    }
    if dims_positive(shape) {
        assert forall|i: int| 0 <= i < part.len() implies part[i] >= 1 by {
            assert(part[i] == shape[i + from]);
        }
    }
}

/// The coordinates of a position in bounds on a run of axes are in bounds of
/// that run.
pub proof fn lemma_subrange_in_bounds(shape: Seq<int>, pos: Seq<int>, from: int, to: int)
    requires
        in_bounds(shape, pos),
        0 <= from <= to <= shape.len(),
    ensures
        in_bounds(shape.subrange(from, to), pos.subrange(from, to)),
{
    let s = shape.subrange(from, to);
    let p = pos.subrange(from, to);
    assert forall|i: int| 0 <= i < s.len() implies 0 <= #[trigger] p[i] < s[i] by {
        assert(0 <= pos[i + from] < shape[i + from]);
    }
}

/// A shape without negative sizes has no negative number of elements.
pub proof fn lemma_product_nonneg(shape: Seq<int>)
    requires
        dims_nonneg(shape),
    ensures
        shape_product(shape) >= 0,
    decreases shape.len(),
{
    if shape.len() > 0 {
        lemma_product_nonneg(shape.drop_last());
        let p = shape_product(shape.drop_last());
        let d = shape.last();
        assert(p * d >= 0) by (nonlinear_arith)
            requires
                p >= 0,
                d >= 0,
        ;
    }
}

/// A shape whose sizes are all at least 1 has at least one element.
pub proof fn lemma_product_positive(shape: Seq<int>)
    requires
        dims_positive(shape),
    ensures
        shape_product(shape) >= 1,
    decreases shape.len(),
{
    if shape.len() > 0 {
        lemma_product_positive(shape.drop_last());
        let p = shape_product(shape.drop_last());
        let d = shape.last();
        assert(p * d >= 1) by (nonlinear_arith)
            requires
                p >= 1,
                d >= 1,
        ;
    }
}

/// A shape without negative sizes has no elements exactly when one of its
/// sizes is 0.
pub proof fn lemma_product_zero(shape: Seq<int>)
    requires
        dims_nonneg(shape),
    ensures
        shape_product(shape) == 0 <==> !dims_positive(shape),
    decreases shape.len(),
{
    if shape.len() > 0 {
        let rest = shape.drop_last();
        lemma_product_zero(rest);
        lemma_product_nonneg(rest);
        let p = shape_product(rest);
        let d = shape.last();
        assert(p * d == 0 <==> (p == 0 || d == 0)) by (nonlinear_arith);
        if !dims_positive(rest) {
            let i = choose|i: int| 0 <= i < rest.len() && !(rest[i] >= 1);
            assert(shape[i] == rest[i]);
        }
        if !dims_positive(shape) {
            let i = choose|i: int| 0 <= i < shape.len() && !(shape[i] >= 1);
            if i < rest.len() {
                assert(rest[i] == shape[i]);
            }
        }
        if dims_positive(shape) {
            assert forall|i: int| 0 <= i < rest.len() implies rest[i] >= 1 by {
                assert(rest[i] == shape[i]);
            }
        }
    }
}

/// The product of a shape splits at any axis into the product of the axes
/// before it and the product of the axes from it on.
pub proof fn lemma_product_split(shape: Seq<int>, m: int)
    requires
        0 <= m <= shape.len(),
    ensures
        shape_product(shape) == shape_product(shape.subrange(0, m)) * shape_product(
            shape.subrange(m, shape.len() as int),
        ),
    decreases shape.len(),
{
    let n = shape.len() as int;
    if m == n {
        assert(shape.subrange(0, m) =~= shape);
        assert(shape.subrange(m, n).len() == 0);
        assert(shape_product(shape) * 1 == shape_product(shape));
    } else {
        let rest = shape.drop_last();
        lemma_product_split(rest, m);
        assert(rest.subrange(0, m) =~= shape.subrange(0, m));
        assert(rest.subrange(m, n - 1) =~= shape.subrange(m, n).drop_last());
        assert(shape.subrange(m, n).last() == shape.last());
        let a = shape_product(shape.subrange(0, m));
        let b = shape_product(rest.subrange(m, n - 1));
        let d = shape.last();
        assert((a * b) * d == a * (b * d)) by (nonlinear_arith);
    }
}

/// With all sizes at least 1, the product of the leading axes is at most the
/// product of all.
pub proof fn lemma_product_prefix_le(shape: Seq<int>, m: int)
    requires
        dims_positive(shape),
        0 <= m <= shape.len(),
    ensures
        1 <= shape_product(shape.subrange(0, m)) <= shape_product(shape),
        1 <= shape_product(shape.subrange(m, shape.len() as int)) <= shape_product(shape),
{
    lemma_product_split(shape, m);
    let head = shape.subrange(0, m);
    let tail = shape.subrange(m, shape.len() as int);
    lemma_product_positive(head);
    lemma_product_positive(tail);
    let a = shape_product(head);
    let b = shape_product(tail);
    assert(a <= a * b && b <= a * b) by (nonlinear_arith)
        requires
            a >= 1,
            b >= 1,
    ;
}

/// A shape that is no larger than another on any axis has no more elements.
pub proof fn lemma_product_monotone(small: Seq<int>, large: Seq<int>)
    requires
        small.len() == large.len(),
        forall|i: int| 0 <= i < small.len() ==> 0 <= #[trigger] small[i] <= large[i],
    ensures
        0 <= shape_product(small) <= shape_product(large),
    decreases small.len(),
{
    if small.len() > 0 {
        let s = small.drop_last();
        let l = large.drop_last();
        assert forall|i: int| 0 <= i < s.len() implies 0 <= #[trigger] s[i] <= l[i] by {
            assert(s[i] == small[i] && l[i] == large[i]);
        }
        lemma_product_monotone(s, l);
        let a = shape_product(s);
        let b = shape_product(l);
        let c = small.last();
        let d = large.last();
        assert(0 <= a * c <= b * d) by (nonlinear_arith)
            requires
                0 <= a <= b,
                0 <= c <= d,
        ;
    }
}

/// The flat index of a position in bounds is below the number of elements.
pub proof fn lemma_flat_index_bounds(shape: Seq<int>, pos: Seq<int>)
    requires
        in_bounds(shape, pos),
    ensures
        0 <= flat_index(shape, pos) < shape_product(shape),
    decreases shape.len(),
{
    if shape.len() > 0 {
        let s = shape.drop_last();
        let p = pos.drop_last();
        assert forall|i: int| 0 <= i < s.len() implies 0 <= #[trigger] p[i] < s[i] by {
            assert(p[i] == pos[i] && s[i] == shape[i]);
        }
        lemma_flat_index_bounds(s, p);
        let f = flat_index(s, p);
        let n = shape_product(s);
        let d = shape.last();
        let c = pos.last();
        assert(0 <= c < d) by {
            assert(pos[shape.len() - 1] == c);
        }
        assert(0 <= f * d + c < n * d) by (nonlinear_arith)
            requires
                0 <= f < n,
                0 <= c < d,
        ;
    }
}

/// The position of an index below the number of elements is in bounds.
pub proof fn lemma_position_of_in_bounds(shape: Seq<int>, index: int)
    requires
        dims_nonneg(shape),
        0 <= index < shape_product(shape),
    ensures
        in_bounds(shape, position_of(shape, index)),
    decreases shape.len(),
{
    if shape.len() > 0 {
        let s = shape.drop_last();
        let d = shape.last();
        let n = shape_product(s);
        assert(dims_nonneg(s)) by {
            assert forall|i: int| 0 <= i < s.len() implies s[i] >= 0 by {
                assert(s[i] == shape[i]);
            }
        }
        lemma_product_nonneg(s);
        assert(d >= 0) by {
            assert(shape[shape.len() - 1] == d);
        }
        assert(d > 0 && 0 <= index / d < n && 0 <= index % d < d) by (nonlinear_arith)
            requires
                0 <= index < n * d,
                n >= 0,
                d >= 0,
        ;
        lemma_position_of_in_bounds(s, index / d);
        let q = position_of(s, index / d);
        let p = position_of(shape, index);
        assert(p == q.push(index % d));
        assert forall|i: int| 0 <= i < shape.len() implies 0 <= #[trigger] p[i] < shape[i] by {
            if i < s.len() {
                assert(p[i] == q[i] && s[i] == shape[i]);
            }
        }
    }
}

/// Taking the position of an index and flattening it gives the index back.
pub proof fn lemma_flat_of_position(shape: Seq<int>, index: int)
    requires
        dims_nonneg(shape),
        0 <= index < shape_product(shape),
    ensures
        flat_index(shape, position_of(shape, index)) == index,
    decreases shape.len(),
{
    if shape.len() > 0 {
        let s = shape.drop_last();
        let d = shape.last();
        let n = shape_product(s);
        assert(dims_nonneg(s)) by {
            assert forall|i: int| 0 <= i < s.len() implies s[i] >= 0 by {
                assert(s[i] == shape[i]);
            }
        }
        lemma_product_nonneg(s);
        assert(d >= 0) by {
            assert(shape[shape.len() - 1] == d);
        }
        assert(d > 0 && 0 <= index / d < n && (index / d) * d + index % d == index)
            by (nonlinear_arith)
            requires
                0 <= index < n * d,
                n >= 0,
                d >= 0,
        ;
        lemma_flat_of_position(s, index / d);
        let q = position_of(s, index / d);
        let p = position_of(shape, index);
        assert(p.drop_last() =~= q);
        assert(p.last() == index % d);
    }
}

/// Flattening a position in bounds and taking the position of the result
/// gives the position back.
pub proof fn lemma_position_of_flat(shape: Seq<int>, pos: Seq<int>)
    requires
        in_bounds(shape, pos),
    ensures
        position_of(shape, flat_index(shape, pos)) == pos,
    decreases shape.len(),
{
    if shape.len() == 0 {
        assert(pos =~= Seq::<int>::empty());
    } else {
        let s = shape.drop_last();
        let p = pos.drop_last();
        assert forall|i: int| 0 <= i < s.len() implies 0 <= #[trigger] p[i] < s[i] by {
            assert(p[i] == pos[i] && s[i] == shape[i]);
        }
        lemma_position_of_flat(s, p);
        lemma_flat_index_bounds(s, p);
        let f = flat_index(s, p);
        let d = shape.last();
        let c = pos.last();
        assert(0 <= c < d) by {
            assert(pos[shape.len() - 1] == c);
        }
        assert((f * d + c) / d == f && (f * d + c) % d == c) by {
            vstd::arithmetic::div_mod::lemma_fundamental_div_mod_converse(f * d + c, d, f, c);
        }
        assert(p.push(c) =~= pos);
    }
}

/// The flat index of a position splits at any axis: the flat index of the
/// leading coordinates, scaled by the number of elements of the trailing
/// axes, plus the flat index of the trailing coordinates.
pub proof fn lemma_flat_index_split(shape: Seq<int>, pos: Seq<int>, m: int)
    requires
        pos.len() == shape.len(),
        0 <= m <= shape.len(),
    ensures
        flat_index(shape, pos) == flat_index(shape.subrange(0, m), pos.subrange(0, m))
            * shape_product(shape.subrange(m, shape.len() as int)) + flat_index(
            shape.subrange(m, shape.len() as int),
            pos.subrange(m, shape.len() as int),
        ),
    decreases shape.len(),
{
    let n = shape.len() as int;
    if m == n {
        assert(shape.subrange(0, m) =~= shape);
        assert(pos.subrange(0, m) =~= pos);
        assert(shape.subrange(m, n).len() == 0);
        assert(flat_index(shape, pos) * 1 + 0 == flat_index(shape, pos));
    } else {
        let s = shape.drop_last();
        let p = pos.drop_last();
        lemma_flat_index_split(s, p, m);
        assert(s.subrange(0, m) =~= shape.subrange(0, m));
        assert(p.subrange(0, m) =~= pos.subrange(0, m));
        assert(s.subrange(m, n - 1) =~= shape.subrange(m, n).drop_last());
        assert(p.subrange(m, n - 1) =~= pos.subrange(m, n).drop_last());
        assert(shape.subrange(m, n).last() == shape.last());
        assert(pos.subrange(m, n).last() == pos.last());
        let head = flat_index(shape.subrange(0, m), pos.subrange(0, m));
        let tail_n = shape_product(s.subrange(m, n - 1));
        let tail_f = flat_index(s.subrange(m, n - 1), p.subrange(m, n - 1));
        let d = shape.last();
        let c = pos.last();
        assert((head * tail_n + tail_f) * d + c == head * (tail_n * d) + (tail_f * d + c))
            by (nonlinear_arith);
    }
}

/// A shape has as many elements as it has rows seen from an axis, times the
/// size of the axis, times the elements under one index of the axis.
pub proof fn lemma_product_around_axis(shape: Seq<int>, axis: int)
    requires
        0 <= axis < shape.len(),
    ensures
        shape_product(shape) == outer_count(shape, axis) * (shape[axis] * inner_count(shape, axis)),
{
    let n = shape.len() as int;
    lemma_product_split(shape, axis);
    let tail = shape.subrange(axis, n);
    lemma_product_split(tail, 1);
    assert(tail.subrange(1, tail.len() as int) =~= shape.subrange(axis + 1, n));
    let one = tail.subrange(0, 1);
    assert(one.drop_last().len() == 0);
    assert(shape_product(one.drop_last()) == 1);
    assert(one.last() == shape[axis]);
    assert(shape_product(one) == 1 * shape[axis]);
}

/// The flat index of a position, seen from an axis: the row, then the index
/// on the axis, then the place under that index.
pub proof fn lemma_flat_index_around_axis(shape: Seq<int>, pos: Seq<int>, axis: int)
    requires
        pos.len() == shape.len(),
        0 <= axis < shape.len(),
    ensures
        flat_index(shape, pos) == flat_index(shape.subrange(0, axis), pos.subrange(0, axis)) * (
        shape[axis] * inner_count(shape, axis)) + pos[axis] * inner_count(shape, axis)
            + flat_index(
            shape.subrange(axis + 1, shape.len() as int),
            pos.subrange(axis + 1, shape.len() as int),
        ),
{
    let n = shape.len() as int;
    lemma_flat_index_split(shape, pos, axis);
    let tail = shape.subrange(axis, n);
    let ptail = pos.subrange(axis, n);
    lemma_flat_index_split(tail, ptail, 1);
    lemma_product_split(tail, 1);
    assert(tail.subrange(1, tail.len() as int) =~= shape.subrange(axis + 1, n));
    assert(ptail.subrange(1, tail.len() as int) =~= pos.subrange(axis + 1, n));
    let one = tail.subrange(0, 1);
    let pone = ptail.subrange(0, 1);
    assert(one.drop_last().len() == 0);
    assert(shape_product(one.drop_last()) == 1);
    assert(flat_index(one.drop_last(), pone.drop_last()) == 0);
    assert(one.last() == shape[axis]);
    assert(pone.last() == pos[axis]);
    assert(shape_product(one) == 1 * shape[axis]);
    assert(flat_index(one, pone) == 0 * shape[axis] + pos[axis]);
    let head = flat_index(shape.subrange(0, axis), pos.subrange(0, axis));
    let inner = inner_count(shape, axis);
    let rest = flat_index(shape.subrange(axis + 1, n), pos.subrange(axis + 1, n));
    let a = shape[axis];
    let p = pos[axis];
    assert(head * (a * inner) + (p * inner + rest) == head * (a * inner) + p * inner + rest);
}

/// Adding an axis at the end of a shape scales the strides of the axes before
/// it, and so the sum of their coordinates times strides, by its size.
proof fn lemma_stride_sum_scaled(shape: Seq<int>, pos: Seq<int>, n: nat)
    requires
        shape.len() > 0,
        pos.len() == shape.len(),
        n < shape.len(),
    ensures
        stride_sum(shape, pos, n) == stride_sum(shape.drop_last(), pos.drop_last(), n)
            * shape.last(),
    decreases n,
{
    if n > 0 {
        let m = (n - 1) as nat;
        let len = shape.len() as int;
        let rest = shape.drop_last();
        lemma_stride_sum_scaled(shape, pos, m);
        let tail = shape.subrange(m as int + 1, len);
        assert(tail.drop_last() =~= rest.subrange(m as int + 1, len - 1));
        assert(tail.last() == shape.last());
        assert(stride(shape, m as int) == stride(rest, m as int) * shape.last());
        assert(pos.drop_last()[m as int] == pos[m as int]);
        let a = stride_sum(rest, pos.drop_last(), m);
        let c = pos[m as int];
        let t = stride(rest, m as int);
        let d = shape.last();
        assert(a * d + c * (t * d) == (a + c * t) * d) by (nonlinear_arith);
    }
}

/// The flat index of a position is the sum of its coordinates, each times
/// the stride of its axis.
pub proof fn law_flat_index_is_stride_sum(shape: Seq<int>, pos: Seq<int>)
    requires
        pos.len() == shape.len(),
    ensures
        flat_index(shape, pos) == stride_sum(shape, pos, shape.len()),
    decreases shape.len(),
{
    if shape.len() > 0 {
        let n = (shape.len() - 1) as nat;
        law_flat_index_is_stride_sum(shape.drop_last(), pos.drop_last());
        lemma_stride_sum_scaled(shape, pos, n);
        assert(shape.subrange(n as int + 1, shape.len() as int).len() == 0);
        assert(stride(shape, n as int) == 1);
        assert(pos[n as int] == pos.last());
    }
}

} // verus!

//! Slicing: the sub-tensor that a range on every axis selects.
//!
//! A range is a pair of optional bounds. An omitted start stands for 0 and
//! an omitted end for the axis length. A bound that is given is taken modulo
//! the axis length, so -1 names the last index, and a bound equal to the axis
//! length names index 0.

use crate::eterror::ETError;
use crate::layout::{
    dims, dims_nonneg, dims_positive, flat_index, in_bounds, lemma_flat_index_bounds,
    lemma_position_of_in_bounds, lemma_product_monotone, lemma_product_nonneg,
    lemma_product_zero, offset_by, position_of, shape_product,
};
use crate::tensor::{count_within, flat_offset, view_of, Tensor};
use crate::tensor_model::TensorView;
use vstd::prelude::*;

verus! {

/// The index that a bound names on an axis of length `len`: the bound modulo
/// `len` where it is given, `default` where it is omitted.
pub open spec fn bound_at(bound: Option<i32>, len: int, default: int) -> int {
    match bound {
        Some(i) => (i as int) % len,
        None => default,
    }
}

/// The first index that `range` selects on an axis of length `len`.
pub open spec fn range_start(range: (Option<i32>, Option<i32>), len: int) -> int {
    bound_at(range.0, len, 0)
}

/// The index after the last one that `range` selects on an axis of length
/// `len`.
pub open spec fn range_end(range: (Option<i32>, Option<i32>), len: int) -> int {
    bound_at(range.1, len, len)
}

/// `range` can be applied to an axis of length `len`: a bound is given only
/// where the axis is not empty, and the start is not after the end.
pub open spec fn range_ok(range: (Option<i32>, Option<i32>), len: int) -> bool {
    &&& (range.0 is Some || range.1 is Some) ==> len > 0
    &&& range_start(range, len) <= range_end(range, len)
}

/// There is a range for every axis of `shape`, and each can be applied to its
/// axis. Ranges beyond the last axis are ignored.
pub open spec fn slice_ok(shape: Seq<int>, ranges: Seq<(Option<i32>, Option<i32>)>) -> bool {
    &&& ranges.len() >= shape.len()
    &&& forall|j: int| 0 <= j < shape.len() ==> range_ok(#[trigger] ranges[j], shape[j])
}

/// The first selected index on every axis.
pub open spec fn slice_starts(shape: Seq<int>, ranges: Seq<(Option<i32>, Option<i32>)>) -> Seq<
    int,
> {
    Seq::new(shape.len(), |j: int| range_start(ranges[j], shape[j]))
}

/// The number of selected indices on every axis.
pub open spec fn slice_shape(shape: Seq<int>, ranges: Seq<(Option<i32>, Option<i32>)>) -> Seq<
    int,
> {
    Seq::new(shape.len(), |j: int| range_end(ranges[j], shape[j]) - range_start(ranges[j], shape[j]))
}

/// The buffer of the sub-tensor of `v` that has shape `shape` and begins at
/// position `starts`: its elements in row-major order, each taken from `v`
/// at the position shifted by `starts`.
pub open spec fn slice_bytes(v: TensorView, starts: Seq<int>, shape: Seq<int>) -> Seq<u8> {
    Seq::new(
        (v.width() * shape_product(shape)) as nat,
        |b: int|
            v.element_byte(offset_by(position_of(shape, b / v.width()), starts), b % v.width()),
    )
}

/// Slicing `v` by `ranges`: refused with `InvalidArgument` unless the ranges
/// can be applied to the shape of `v`.
pub open spec fn slice_spec(v: TensorView, ranges: Seq<(Option<i32>, Option<i32>)>) -> Result<
    TensorView,
    ETError,
> {
    if slice_ok(v.shape, ranges) {
        let shape = slice_shape(v.shape, ranges);
        Ok(
            TensorView {
                dtype: v.dtype,
                shape,
                bytes: slice_bytes(v, slice_starts(v.shape, ranges), shape),
            },
        )
    } else {
        Err(ETError::InvalidArgument)
    }
}

/// Ranges that can be applied select, on every axis, a window inside the
/// axis.
pub proof fn lemma_slice_window(shape: Seq<int>, ranges: Seq<(Option<i32>, Option<i32>)>)
    requires
        dims_nonneg(shape),
        slice_ok(shape, ranges),
    ensures
        forall|j: int|
            0 <= j < shape.len() ==> 0 <= #[trigger] slice_starts(shape, ranges)[j]
                && slice_starts(shape, ranges)[j] + slice_shape(shape, ranges)[j] <= shape[j]
                && slice_shape(shape, ranges)[j] >= 0,
{
    assert forall|j: int| 0 <= j < shape.len() implies 0 <= #[trigger] slice_starts(
        shape,
        ranges,
    )[j] && slice_starts(shape, ranges)[j] + slice_shape(shape, ranges)[j] <= shape[j]
        && slice_shape(shape, ranges)[j] >= 0 by {
        let r = ranges[j];
        let len = shape[j];
        assert(range_ok(r, len));
        assert(len >= 0);
        if r.0 is Some {
            let i = r.0->Some_0 as int;
            assert(0 <= i % len < len) by (nonlinear_arith)
                requires
                    len > 0,
            ;
        }
        if r.1 is Some {
            let i = r.1->Some_0 as int;
            assert(0 <= i % len < len) by (nonlinear_arith)
                requires
                    len > 0,
            ;
        }
    }
}

/// A position in the window's shape, shifted by the window's start, is a
/// position in the whole shape.
pub proof fn lemma_shifted_in_bounds(shape: Seq<int>, starts: Seq<int>, window: Seq<int>, pos: Seq<int>)
    requires
        starts.len() == shape.len(),
        window.len() == shape.len(),
        forall|j: int|
            0 <= j < shape.len() ==> 0 <= #[trigger] starts[j] && starts[j] + window[j] <= shape[j],
        in_bounds(window, pos),
    ensures
        in_bounds(shape, offset_by(pos, starts)),
{
    let q = offset_by(pos, starts);
    assert forall|j: int| 0 <= j < shape.len() implies 0 <= #[trigger] q[j] < shape[j] by {
        assert(0 <= pos[j] < window[j]);
        assert(0 <= starts[j]);
    }
}

/// The index that `bound` names on an axis of length `len`, `None` where a
/// bound is given for an empty axis.
fn resolve_bound(bound: Option<i32>, len: i32, default: i32) -> (r: Option<i32>)
    requires
        len >= 0,
    ensures
        r == if bound is Some && len == 0 {
            None::<i32>
        } else {
            Some(bound_at(bound, len as int, default as int) as i32)
        },
        r matches Some(i) ==> i == bound_at(bound, len as int, default as int),
{
    match bound {
        Some(index) => {
            proof {
                if len > 0 {
                    let i = index as int;
                    let l = len as int;
                    assert(0 <= i % l < l) by (nonlinear_arith)
                        requires
                            l > 0,
                    ;
                }
            }
            index.checked_rem_euclid(len)
        },
        None => Some(default),
    }
}

/// Writes into `position` the position in `shape` whose row-major flat index
/// is `index`.
pub fn unravel(shape: &[i32], index: usize, position: &mut Vec<i32>)
    requires
        dims_nonneg(dims(shape@)),
        index < shape_product(dims(shape@)),
        old(position)@.len() == shape@.len(),
    ensures
        dims(final(position)@) == position_of(dims(shape@), index as int),
        final(position)@.len() == shape@.len(),
{
    let ghost d = dims(shape@);
    let n = shape.len();
    proof {
        lemma_product_zero(d);
    }
    let mut rest = index;
    let mut j = n;
    proof {
        assert(d.subrange(0, n as int) =~= d);
        assert(dims(position@).subrange(n as int, n as int) =~= Seq::<int>::empty());
        assert(position_of(d, index as int) + Seq::<int>::empty() =~= position_of(
            d,
            index as int,
        ));
    }
    while j > 0
        invariant
            j <= n,
            n == shape@.len(),
            position@.len() == n,
            d == dims(shape@),
            dims_positive(d),
            position_of(d, index as int) == position_of(d.subrange(0, j as int), rest as int)
                + dims(position@).subrange(j as int, n as int),
        decreases j,
    {
        let size: usize = shape[j - 1] as usize;
        let ghost before = dims(position@);
        proof {
            assert(d[j - 1] == size && size >= 1);
            let head = d.subrange(0, j as int);
            assert(head.last() == size);
            assert(head.drop_last() =~= d.subrange(0, j - 1));
            assert(0 <= (rest as int) % (size as int) < size) by (nonlinear_arith)
                requires
                    size >= 1,
                    rest >= 0,
            ;
        }
        position[j - 1] = (rest % size) as i32;
        proof {
            let after = dims(position@);
            let tail = position_of(d.subrange(0, j - 1), (rest as int) / (size as int));
            assert(position_of(d.subrange(0, j as int), rest as int) == tail.push(
                (rest as int) % (size as int),
            ));
            assert(after.subrange(j as int, n as int) =~= before.subrange(j as int, n as int));
            assert(tail.push((rest as int) % (size as int)) + before.subrange(j as int, n as int)
                =~= tail + after.subrange(j - 1, n as int));
        }
        rest = rest / size;
        j -= 1;
    }
    proof {
        assert(d.subrange(0, 0).len() == 0);
        assert(position_of(d.subrange(0, 0), rest as int) =~= Seq::<int>::empty());
        assert(dims(position@).subrange(0, n as int) =~= dims(position@));
        assert(Seq::<int>::empty() + dims(position@) =~= dims(position@));
    }
}

/// The first selected index and the number of selected indices on every axis
/// of `shape`, `None` where the ranges cannot be applied to it.
fn select_window(shape: &[i32], slices: &Vec<(Option<i32>, Option<i32>)>) -> (r: Option<
    (Vec<i32>, Vec<i32>),
>)
    requires
        dims_nonneg(dims(shape@)),
    ensures
        match r {
            Some((starts, window)) => {
                &&& slice_ok(dims(shape@), slices@)
                &&& starts@.len() == shape@.len()
                &&& window@.len() == shape@.len()
                &&& dims(starts@) == slice_starts(dims(shape@), slices@)
                &&& dims(window@) == slice_shape(dims(shape@), slices@)
            },
            None => !slice_ok(dims(shape@), slices@),
        },
{
    let rank = shape.len();
    let ghost d = dims(shape@);
    let ghost ranges = slices@;
    if slices.len() < rank {
        return None;
    }
    let mut starts: Vec<i32> = Vec::new();
    let mut window: Vec<i32> = Vec::new();
    let mut j: usize = 0;
    while j < rank
        invariant
            j <= rank,
            rank == shape@.len(),
            rank <= slices@.len(),
            ranges == slices@,
            d == dims(shape@),
            dims_nonneg(d),
            starts@.len() == j,
            window@.len() == j,
            forall|k: int| 0 <= k < j ==> range_ok(#[trigger] ranges[k], d[k]),
            forall|k: int| 0 <= k < j ==> #[trigger] starts@[k] == range_start(ranges[k], d[k]),
            forall|k: int|
                0 <= k < j ==> #[trigger] window@[k] == range_end(ranges[k], d[k]) - range_start(
                    ranges[k],
                    d[k],
                ),
        decreases rank - j,
    {
        let len = shape[j];
        let range = slices[j];
        proof {
            assert(d[j as int] == len);
            assert(len >= 0);
        }
        let first = resolve_bound(range.0, len, 0);
        let last = resolve_bound(range.1, len, len);
        match (first, last) {
            (Some(start), Some(end)) => {
                if end < start {
                    proof {
                        assert(!range_ok(ranges[j as int], d[j as int]));
                    }
                    return None;
                }
                proof {
                    lemma_bound_range(range.0, len as int, 0);
                    lemma_bound_range(range.1, len as int, len as int);
                }
                starts.push(start);
                window.push(end - start);
            },
            _ => {
                proof {
                    assert(!range_ok(ranges[j as int], d[j as int]));
                }
                return None;
            },
        }
        j += 1;
    }
    proof {
        assert(dims(starts@) =~= slice_starts(d, ranges));
        assert(dims(window@) =~= slice_shape(d, ranges));
    }
    Some((starts, window))
}

/// The buffer of the window of `tensor` that begins at `starts` and has the
/// shape `window`: one element after the other in row-major order, each
/// copied from its place in `tensor`.
fn copy_window(tensor: &Tensor, starts: &Vec<i32>, window: &Vec<i32>) -> (bytes: Vec<u8>)
    requires
        starts@.len() == tensor@.shape.len(),
        window@.len() == tensor@.shape.len(),
        forall|k: int|
            0 <= k < tensor@.shape.len() ==> 0 <= #[trigger] dims(starts@)[k] && dims(starts@)[k]
                + dims(window@)[k] <= tensor@.shape[k] && dims(window@)[k] >= 0,
    ensures
        bytes@ == slice_bytes(tensor@, dims(starts@), dims(window@)),
{
    tensor.check();
    let shape = tensor.sizes();
    let rank = shape.len();
    let ghost v = tensor@;
    let ghost s = dims(starts@);
    let ghost w = dims(window@);
    proof {
        assert forall|k: int| 0 <= k < w.len() implies 0 <= #[trigger] w[k] <= v.shape[k] by {
            assert(0 <= s[k] && s[k] + w[k] <= v.shape[k]);
        }
        lemma_product_monotone(w, v.shape);
        assert(dims_nonneg(w)) by {
            assert forall|k: int| 0 <= k < w.len() implies w[k] >= 0 by {
                assert(0 <= s[k] && w[k] >= 0);
            }
        }
    }
    let width = tensor.element_size();
    let total = tensor.numel();
    let count = count_within(window.as_slice(), total);
    let data = tensor.get_data();
    let nbytes = data.len();
    let ghost want = slice_bytes(v, s, w);
    proof {
        let wd = width as int;
        let c = count as int;
        let t = total as int;
        assert(c * wd <= wd * t) by (nonlinear_arith)
            requires
                0 <= c <= t,
                wd > 0,
        ;
    }
    let mut bytes: Vec<u8> = Vec::with_capacity(count * width);
    let mut target: Vec<i32> = Vec::new();
    let mut source: Vec<i32> = Vec::new();
    let mut a: usize = 0;
    while a < rank
        invariant
            a <= rank,
            target@.len() == a,
            source@.len() == a,
        decreases rank - a,
    {
        target.push(0);
        source.push(0);
        a += 1;
    }
    let mut i: usize = 0;
    while i < count
        invariant
            i <= count,
            rank == shape@.len(),
            v == tensor@,
            v.wf(),
            dims(shape@) == v.shape,
            data@ == v.bytes,
            width == v.width(),
            total == v.numel(),
            s == dims(starts@),
            w == dims(window@),
            s.len() == rank,
            w.len() == rank,
            dims_nonneg(w),
            forall|k: int| 0 <= k < rank ==> 0 <= #[trigger] s[k] && s[k] + w[k] <= v.shape[k],
            count == shape_product(w),
            count <= total,
            width * total == nbytes,
            data@.len() == nbytes,
            want == slice_bytes(v, s, w),
            target@.len() == rank,
            source@.len() == rank,
            bytes@.len() == i * width,
            forall|b: int| 0 <= b < bytes@.len() ==> bytes@[b] == want[b],
        decreases count - i,
    {
        unravel(window.as_slice(), i, &mut target);
        let ghost pos = position_of(w, i as int);
        proof {
            lemma_position_of_in_bounds(w, i as int);
        }
        let mut k: usize = 0;
        while k < rank
            invariant
                k <= rank,
                rank == shape@.len(),
                dims(shape@) == v.shape,
                s == dims(starts@),
                w == dims(window@),
                s.len() == rank,
                w.len() == rank,
                target@.len() == rank,
                source@.len() == rank,
                dims(target@) == pos,
                in_bounds(w, pos),
                forall|m: int|
                    0 <= m < rank ==> 0 <= #[trigger] s[m] && s[m] + w[m] <= v.shape[m],
                forall|m: int| 0 <= m < k ==> #[trigger] source@[m] == pos[m] + s[m],
            decreases rank - k,
        {
            proof {
                assert(0 <= pos[k as int] < w[k as int]);
                assert(0 <= s[k as int] && s[k as int] + w[k as int] <= v.shape[k as int]);
                assert(v.shape[k as int] == shape@[k as int]);
                assert(dims(target@)[k as int] == target@[k as int]);
                assert(s[k as int] == starts@[k as int]);
            }
            source[k] = target[k] + starts[k];
            k += 1;
        }
        let ghost from = offset_by(pos, s);
        proof {
            assert(dims(source@) =~= from);
            lemma_shifted_in_bounds(v.shape, s, w, pos);
            lemma_flat_index_bounds(v.shape, from);
            let f = flat_index(v.shape, from);
            let wd = width as int;
            let t = total as int;
            assert(0 <= f * wd && f * wd + wd <= wd * t) by (nonlinear_arith)
                requires
                    0 <= f < t,
                    wd > 0,
            ;
            let c = count as int;
            let ii = i as int;
            assert(ii * wd + wd <= c * wd) by (nonlinear_arith)
                requires
                    0 <= ii < c,
                    wd > 0,
            ;
            assert(c * wd == wd * c) by (nonlinear_arith);
        }
        let origin = flat_offset(shape, source.as_slice()) * width;
        let mut k: usize = 0;
        while k < width
            invariant
                k <= width,
                width > 0,
                i < count,
                width == v.width(),
                data@ == v.bytes,
                origin == flat_index(v.shape, from) * width,
                origin + width <= data@.len(),
                want == slice_bytes(v, s, w),
                count == shape_product(w),
                from == offset_by(position_of(w, i as int), s),
                i * width + width <= count * width,
                count * width == v.width() * shape_product(w),
                bytes@.len() == i * width + k,
                forall|b: int| 0 <= b < bytes@.len() ==> bytes@[b] == want[b],
            decreases width - k,
        {
            proof {
                let b = i * width + k;
                let wd = width as int;
                let ii = i as int;
                let kk = k as int;
                assert((ii * wd + kk) / wd == ii && (ii * wd + kk) % wd == kk) by {
                    vstd::arithmetic::div_mod::lemma_fundamental_div_mod_converse(
                        ii * wd + kk,
                        wd,
                        ii,
                        kk,
                    );
                }
                assert(want[b] == v.element_byte(from, kk));
            }
            bytes.push(data[origin + k]);
            k += 1;
        }
        i += 1;
        proof {
            let wd = width as int;
            let ii = i as int;
            assert((ii - 1) * wd + wd == ii * wd) by (nonlinear_arith);
        }
    }
    proof {
        let wd = width as int;
        let c = count as int;
        assert(c * wd == wd * c) by (nonlinear_arith);
        assert(bytes@ =~= want);
    }
    bytes
}

impl Tensor {
    /// The sub-tensor that `slices` selects, over a fresh buffer. There must
    /// be a range for every axis; further ranges are ignored. Refused with
    /// `InvalidArgument` where a range is missing, gives a bound for an
    /// empty axis, or starts after it ends.
    pub fn slice(&self, slices: Vec<(Option<i32>, Option<i32>)>) -> (r: Result<Tensor, ETError>)
        ensures
            view_of(r) == slice_spec(self@, slices@),
    {
        self.check();
        match select_window(self.sizes(), &slices) {
            Some((starts, window)) => {
                proof {
                    assert(self@.shape.len() == starts@.len());
                    lemma_slice_window(self@.shape, slices@);
                    assert(dims_nonneg(dims(window@))) by {
                        assert forall|k: int| 0 <= k < window@.len() implies dims(window@)[k]
                            >= 0 by {
                            assert(0 <= slice_starts(self@.shape, slices@)[k]);
                        }
                    }
                    assert forall|k: int| 0 <= k < self@.shape.len() implies 0 <= #[trigger] dims(
                        starts@,
                    )[k] && dims(starts@)[k] + dims(window@)[k] <= self@.shape[k] && dims(
                        window@,
                    )[k] >= 0 by {
                        assert(0 <= slice_starts(self@.shape, slices@)[k]);
                    }
                    lemma_product_nonneg(dims(window@));
                }
                let bytes = copy_window(self, &starts, &window);
                Ok(Tensor::from_parts(self.dtype(), window, bytes))
            },
            None => Err(ETError::InvalidArgument),
        }
    }
}

/// A bound that is given names an index of a non-empty axis, so a machine
/// integer holds it.
proof fn lemma_bound_range(bound: Option<i32>, len: int, default: int)
    requires
        0 <= len <= i32::MAX,
        0 <= default <= len,
        bound is Some ==> len > 0,
    ensures
        0 <= bound_at(bound, len, default) <= len,
{
    if bound is Some {
        let i = bound->Some_0 as int;
        assert(0 <= i % len < len) by (nonlinear_arith)
            requires
                len > 0,
        ;
    }
}

} // verus!

//! Tensors: a contiguous row-major buffer with an element type and a shape.

use crate::eterror::ETError;
use crate::layout::{
    dims, dims_nonneg, dims_positive, flat_index, in_bounds, lemma_flat_index_bounds,
    lemma_product_positive, lemma_product_prefix_le, lemma_product_zero, shape_product,
};
use crate::tensor_model::{create_spec, reshape_spec, set_data_spec, set_value_spec, TensorView};
use crate::tensor_type::TensorType;
use vstd::prelude::*;
use vstd::slice::slice_to_vec;

verus! {

/// A tensor that owns its buffer. Its shape never changes; its content can be
/// replaced as a whole or element by element.
#[derive(Debug, PartialEq, Eq)]
pub struct Tensor {
    dtype: TensorType,
    shape: Vec<i32>,
    data: Vec<u8>,
}

impl View for Tensor {
    type V = TensorView;

    closed spec fn view(&self) -> TensorView {
        TensorView { dtype: self.dtype, shape: dims(self.shape@), bytes: self.data@ }
    }
}

/// The model of the tensor in a result, the error unchanged.
pub open spec fn view_of(r: Result<Tensor, ETError>) -> Result<TensorView, ETError> {
    match r {
        Ok(t) => Ok(t@),
        Err(e) => Err(e),
    }
}

/// What a call that may replace a tensor's content leaves behind: the new
/// content where the model accepts the call, the old content and the model's
/// error where it does not.
pub open spec fn updated(
    before: TensorView,
    after: TensorView,
    r: Result<(), ETError>,
    model: Result<TensorView, ETError>,
) -> bool {
    match model {
        Ok(v) => r is Ok && after == v,
        Err(e) => r == Err::<(), ETError>(e) && after == before,
    }
}

/// Whether every size of `shape` is at least 0.
pub fn sizes_valid(shape: &[i32]) -> (ok: bool)
    ensures
        ok == dims_nonneg(dims(shape@)),
{
    let mut i: usize = 0;
    while i < shape.len()
        invariant
            i <= shape.len(),
            forall|j: int| 0 <= j < i ==> dims(shape@)[j] >= 0,
        decreases shape.len() - i,
    {
        if shape[i] < 0 {
            assert(dims(shape@)[i as int] < 0);
            return false;
        }
        i += 1;
    }
    true
}

/// The number of elements of `shape` where it is at most `limit`, `None`
/// where it is more.
pub fn count_elements(shape: &[i32], limit: usize) -> (r: Option<usize>)
    requires
        dims_nonneg(dims(shape@)),
    ensures
        match r {
            Some(n) => n == shape_product(dims(shape@)) && n <= limit,
            None => shape_product(dims(shape@)) > limit,
        },
{
    let ghost d = dims(shape@);
    let mut i: usize = 0;
    while i < shape.len()
        invariant
            i <= shape.len(),
            d == dims(shape@),
            forall|j: int| 0 <= j < i ==> d[j] >= 1,
            dims_nonneg(d),
        decreases shape.len() - i,
    {
        if shape[i] == 0 {
            proof {
                assert(d[i as int] == 0);
                lemma_product_zero(d);
            }
            return Some(0);
        }
        assert(d[i as int] >= 0);
        i += 1;
    }
    assert(dims_positive(d));
    if limit == 0 {
        proof {
            lemma_product_positive(d);
        }
        return None;
    }
    let mut acc: usize = 1;
    i = 0;
    proof {
        assert(d.subrange(0, 0) =~= Seq::<int>::empty());
    }
    while i < shape.len()
        invariant
            i <= shape.len(),
            d == dims(shape@),
            dims_positive(d),
            acc == shape_product(d.subrange(0, i as int)),
            1 <= acc <= limit,
        decreases shape.len() - i,
    {
        let size: usize = shape[i] as usize;
        proof {
            assert(d[i as int] == size);
            assert(d.subrange(0, i + 1).drop_last() =~= d.subrange(0, i as int));
            assert(d.subrange(0, i + 1).last() == size);
            assert(shape_product(d.subrange(0, i + 1)) == acc * size);
        }
        if acc > limit / size {
            proof {
                assert(acc * size > limit) by (nonlinear_arith)
                    requires
                        acc > limit / size,
                        size >= 1,
                        limit >= 0,
                ;
                lemma_product_prefix_le(d, i + 1);
            }
            return None;
        }
        proof {
            assert(acc * size <= limit) by (nonlinear_arith)
                requires
                    acc <= limit / size,
                    size >= 1,
                    limit >= 0,
                    acc >= 1,
            ;
            assert(acc * size >= 1) by (nonlinear_arith)
                requires
                    size >= 1,
                    acc >= 1,
            ;
        }
        acc = acc * size;
        i += 1;
    }
    proof {
        assert(d.subrange(0, i as int) =~= d);
    }
    Some(acc)
}

/// The number of elements of `shape`, which is known to be at most `limit`.
pub fn count_within(shape: &[i32], limit: usize) -> (n: usize)
    requires
        dims_nonneg(dims(shape@)),
        shape_product(dims(shape@)) <= limit,
    ensures
        n == shape_product(dims(shape@)),
{
    match count_elements(shape, limit) {
        Some(n) => n,
        None => vstd::pervasive::unreached(),
    }
}

/// The row-major flat index of `position` in `shape`.
pub fn flat_offset(shape: &[i32], position: &[i32]) -> (offset: usize)
    requires
        in_bounds(dims(shape@), dims(position@)),
        shape_product(dims(shape@)) <= usize::MAX,
    ensures
        offset == flat_index(dims(shape@), dims(position@)),
{
    let ghost d = dims(shape@);
    let ghost p = dims(position@);
    let mut offset: usize = 0;
    let mut i: usize = 0;
    proof {
        assert(dims_positive(d)) by {
            assert forall|j: int| 0 <= j < d.len() implies d[j] >= 1 by {
                assert(0 <= p[j] < d[j]);
            }
        }
    }
    while i < shape.len()
        invariant
            i <= shape.len(),
            d == dims(shape@),
            p == dims(position@),
            in_bounds(d, p),
            dims_positive(d),
            shape_product(d) <= usize::MAX,
            offset == flat_index(d.subrange(0, i as int), p.subrange(0, i as int)),
        decreases shape.len() - i,
    {
        let size: usize = shape[i] as usize;
        let coord: usize = position[i] as usize;
        proof {
            let ds = d.subrange(0, i + 1);
            let ps = p.subrange(0, i + 1);
            assert(0 <= p[i as int] < d[i as int]);
            assert(ds.drop_last() =~= d.subrange(0, i as int));
            assert(ps.drop_last() =~= p.subrange(0, i as int));
            assert(ds.last() == size && ps.last() == coord);
            assert(in_bounds(ds, ps)) by {
                assert forall|j: int| 0 <= j < ds.len() implies 0 <= #[trigger] ps[j] < ds[j] by {
                    assert(0 <= p[j] < d[j]);
                }
            }
            lemma_flat_index_bounds(ds, ps);
            lemma_product_prefix_le(d, i + 1);
            assert(flat_index(ds, ps) == offset * size + coord);
        }
        offset = offset * size + coord;
        i += 1;
    }
    proof {
        assert(d.subrange(0, i as int) =~= d);
        assert(p.subrange(0, i as int) =~= p);
    }
    offset
}

impl Clone for Tensor {
    /// A tensor with the same type, shape and content over a buffer of its
    /// own.
    fn clone(&self) -> (t: Tensor)
        ensures
            t@ == self@,
    {
        proof {
            use_type_invariant(self);
        }
        Tensor { dtype: self.dtype, shape: self.shape.clone(), data: self.data.clone() }
    }
}

impl Tensor {
    #[verifier::type_invariant]
    spec fn valid(self) -> bool {
        self@.wf()
    }

    /// Builds a tensor from parts that are known to form one.
    pub(crate) fn from_parts(dtype: TensorType, shape: Vec<i32>, data: Vec<u8>) -> (t: Tensor)
        requires
            (TensorView { dtype, shape: dims(shape@), bytes: data@ }).wf(),
        ensures
            t@ == (TensorView { dtype, shape: dims(shape@), bytes: data@ }),
    {
        Tensor { dtype, shape, data }
    }

    /// A tensor of type `dtype` and shape `shape` over a copy of `data`.
    /// Refused with `InvalidArgument` where the type has no width, a size is
    /// negative, or `data` is not exactly as long as the shape's elements.
    pub fn create(dtype: TensorType, shape: &[i32], data: &[u8]) -> (r: Result<Tensor, ETError>)
        ensures
            view_of(r) == create_spec(dtype, dims(shape@), data@),
    {
        let width = dtype.byte_width();
        if width == 0 {
            return Err(ETError::InvalidArgument);
        }
        if !sizes_valid(shape) {
            return Err(ETError::InvalidArgument);
        }
        let ghost n = shape_product(dims(shape@));
        let ghost len = data@.len() as int;
        let ghost w = width as int;
        if data.len() % width != 0 {
            proof {
                assert(len != w * n) by (nonlinear_arith)
                    requires
                        len % w != 0,
                        w > 0,
                ;
            }
            return Err(ETError::InvalidArgument);
        }
        let want = data.len() / width;
        proof {
            let q = want as int;
            assert(len == w * n <==> n == q) by (nonlinear_arith)
                requires
                    len % w == 0,
                    q == len / w,
                    w > 0,
            ;
        }
        match count_elements(shape, want) {
            Some(count) => {
                if count == want {
                    Ok(Tensor { dtype, shape: slice_to_vec(shape), data: slice_to_vec(data) })
                } else {
                    Err(ETError::InvalidArgument)
                }
            },
            None => Err(ETError::InvalidArgument),
        }
    }

    /// The model of a tensor is always valid, and a machine can hold it.
    pub fn check(&self)
        ensures
            self@.wf(),
            self@.fits(),
    {
        proof {
            use_type_invariant(self);
        }
        let _ = self.data.len();
    }

    /// The element type.
    pub fn dtype(&self) -> (t: TensorType)
        ensures
            t == self@.dtype,
    {
        self.dtype
    }

    /// The shape.
    pub fn sizes(&self) -> (s: &[i32])
        ensures
            dims(s@) == self@.shape,
    {
        self.shape.as_slice()
    }

    /// The number of axes.
    pub fn dim(&self) -> (n: usize)
        ensures
            n == self@.rank(),
    {
        self.shape.len()
    }

    /// The bytes of one element.
    pub fn element_size(&self) -> (w: usize)
        ensures
            w == self@.width(),
            w > 0,
    {
        proof {
            use_type_invariant(self);
        }
        self.dtype.byte_width()
    }

    /// The length of the buffer in bytes.
    pub fn nbytes(&self) -> (n: usize)
        ensures
            n == self@.bytes.len(),
    {
        self.data.len()
    }

    /// The number of elements.
    pub fn numel(&self) -> (n: usize)
        ensures
            n == self@.numel(),
    {
        proof {
            use_type_invariant(self);
            let w = self@.width();
            let m = self@.numel();
            assert((w * m) / w == m) by (nonlinear_arith)
                requires
                    w > 0,
            ;
        }
        self.data.len() / self.dtype.byte_width()
    }

    /// The buffer.
    pub fn get_data(&self) -> (bytes: &[u8])
        ensures
            bytes@ == self@.bytes,
    {
        self.data.as_slice()
    }

    /// Replaces the whole buffer by a copy of `data`. Refused with
    /// `InvalidArgument`, and the tensor left as it was, unless `data` is as
    /// long as the buffer.
    pub fn set_data(&mut self, data: &[u8]) -> (r: Result<(), ETError>)
        ensures
            updated(old(self)@, final(self)@, r, set_data_spec(old(self)@, data@)),
    {
        proof {
            use_type_invariant(&*self);
        }
        if data.len() != self.data.len() {
            return Err(ETError::InvalidArgument);
        }
        self.data = slice_to_vec(data);
        Ok(())
    }

    /// Whether `position` names an element of this tensor: one coordinate
    /// per axis, each at least 0 and below the size of its axis.
    pub fn contains(&self, position: &[i32]) -> (ok: bool)
        ensures
            ok == in_bounds(self@.shape, dims(position@)),
    {
        if position.len() != self.shape.len() {
            return false;
        }
        let ghost d = dims(self.shape@);
        let ghost p = dims(position@);
        let mut i: usize = 0;
        while i < position.len()
            invariant
                i <= position.len(),
                position.len() == self.shape.len(),
                d == dims(self.shape@),
                p == dims(position@),
                forall|j: int| 0 <= j < i ==> 0 <= #[trigger] p[j] < d[j],
            decreases position.len() - i,
        {
            if position[i] < 0 || position[i] >= self.shape[i] {
                assert(!(0 <= p[i as int] < d[i as int]));
                return false;
            }
            i += 1;
        }
        true
    }

    /// Overwrites the element at `position` with `value`. Refused with
    /// `InvalidArgument`, and the tensor left as it was, unless `position` is
    /// in bounds and `value` is as wide as an element.
    pub fn set_value(&mut self, position: &[i32], value: &[u8]) -> (r: Result<(), ETError>)
        ensures
            updated(
                old(self)@,
                final(self)@,
                r,
                set_value_spec(old(self)@, dims(position@), value@),
            ),
    {
        proof {
            use_type_invariant(&*self);
        }
        let width = self.dtype.byte_width();
        if !self.contains(position) || value.len() != width {
            return Err(ETError::InvalidArgument);
        }
        let ghost before = self@;
        let ghost index = flat_index(before.shape, dims(position@));
        let total = self.data.len();
        proof {
            assert(before.bytes.len() == total);
            lemma_flat_index_bounds(before.shape, dims(position@));
            let w = width as int;
            let n = before.numel();
            assert(0 <= index * w && index * w + w <= w * n && n <= w * n) by (nonlinear_arith)
                requires
                    0 <= index < n,
                    w > 0,
            ;
        }
        let start = flat_offset(self.shape.as_slice(), position) * width;
        let mut k: usize = 0;
        while k < width
            invariant
                k <= width,
                width == value@.len(),
                start + width <= total,
                self.data@.len() == total,
                self.dtype == before.dtype,
                dims(self.shape@) == before.shape,
                self.data@.len() == before.bytes.len(),
                before.wf(),
                forall|i: int|
                    0 <= i < self.data@.len() ==> self.data@[i] == if start <= i < start + k {
                        value@[i - start]
                    } else {
                        before.bytes[i]
                    },
            decreases width - k,
        {
            self.data[start + k] = value[k];
            k += 1;
        }
        proof {
            assert(self@.bytes =~= set_value_spec(before, dims(position@), value@)->Ok_0.bytes);
        }
        Ok(())
    }

    /// A tensor of shape `shape` over a copy of this tensor's buffer. Refused
    /// with `InvalidArgument` unless `shape` has as many elements as this
    /// tensor and no negative size.
    pub fn reshape(&self, shape: &[i32]) -> (r: Result<Tensor, ETError>)
        ensures
            view_of(r) == reshape_spec(self@, dims(shape@)),
    {
        proof {
            use_type_invariant(self);
        }
        if !sizes_valid(shape) {
            proof {
                if shape_product(dims(shape@)) == self@.numel() {
                    assert(!(TensorView {
                        dtype: self@.dtype,
                        shape: dims(shape@),
                        bytes: self@.bytes,
                    }).wf());
                }
            }
            return Err(ETError::InvalidArgument);
        }
        let count = self.numel();
        match count_elements(shape, count) {
            Some(n) => {
                if n == count {
                    Ok(
                        Tensor {
                            dtype: self.dtype,
                            shape: slice_to_vec(shape),
                            data: self.data.clone(),
                        },
                    )
                } else {
                    Err(ETError::InvalidArgument)
                }
            },
            None => Err(ETError::InvalidArgument),
        }
    }
}

} // verus!

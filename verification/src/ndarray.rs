//! The strided array engine: flat storage, a shape, and row-major strides
//! computed from the shape.  Every access path goes through one flat-index
//! formula, `flat_index_of`.

use vstd::prelude::*;

verus! {

/// The failure signals of the array engine.  All are recoverable,
/// deterministic validation failures.
#[derive(Debug, Clone, Copy, PartialEq, Eq, Structural)]
pub enum NDArrayError {
    /// An element count does not match the product of a target shape.
    ShapeMismatch,
    /// A write targets coordinates outside the extents, or has the wrong arity.
    IndexOutOfBounds,
    /// A shape descriptor is structurally invalid for the requested operation.
    InvalidShape,
    /// Two shapes cannot be combined element-wise.
    BroadcastError,
    /// An operation needs a specific rank and the input's rank disqualifies it.
    DimensionError,
}

/// The product of `shape[i..]`; 1 when `i` is past the end.  Row-major
/// strides are exactly these suffix products.
pub open spec fn suffix_product(shape: Seq<usize>, i: int) -> nat
    decreases shape.len() - i,
{
    if i < 0 || i >= shape.len() {
        1
    } else {
        (shape[i] as nat) * suffix_product(shape, i + 1)
    }
}

/// The number of elements an array of this shape holds.
pub open spec fn shape_product(shape: Seq<usize>) -> nat {
    suffix_product(shape, 0)
}

/// Every suffix product of the shape fits in a `usize`, so the stride
/// table (and the element count) can be computed without overflow.
pub open spec fn strides_fit(shape: Seq<usize>) -> bool {
    forall|i: int| 0 <= i <= shape.len() ==> #[trigger] suffix_product(shape, i) <= usize::MAX
}

/// The flat offset contributed by the first `p` coordinates:
/// `sum over i < p of indices[i] * suffix_product(shape, i + 1)`.
pub open spec fn flat_index_prefix(shape: Seq<usize>, indices: Seq<usize>, p: int) -> nat
    decreases p,
{
    if p <= 0 {
        0
    } else {
        flat_index_prefix(shape, indices, p - 1)
            + (indices[p - 1] as nat) * suffix_product(shape, p)
    }
}

/// The flat offset of a full multi-index: the single formula all element
/// access routes through.
pub open spec fn flat_index_of(shape: Seq<usize>, indices: Seq<usize>) -> nat {
    flat_index_prefix(shape, indices, shape.len() as int)
}

/// A multi-index addresses the shape: right arity, every coordinate within
/// its axis extent.
pub open spec fn index_in_bounds(shape: Seq<usize>, indices: Seq<usize>) -> bool {
    &&& indices.len() == shape.len()
    &&& forall|i: int| 0 <= i < shape.len() ==> indices[i] < shape[i]
}

/// What a read of flat storage `data` under `shape` at a multi-index yields:
/// the element at the flat offset when the index addresses the shape, and
/// nothing otherwise.
pub open spec fn spec_lookup(data: Seq<i64>, shape: Seq<usize>, indices: Seq<usize>) -> Option<
    i64,
> {
    if index_in_bounds(shape, indices) {
        Some(data[flat_index_of(shape, indices) as int])
    } else {
        None
    }
}

/// The first `p` coordinates of an in-bounds index contribute at most
/// `shape_product(shape) - suffix_product(shape, p)` to the flat offset.
/// With `p == shape.len()` this bounds the full offset by the element count
/// minus one, so in-bounds lookups always land inside the flat storage.
pub proof fn lemma_flat_prefix_bound(shape: Seq<usize>, indices: Seq<usize>, p: int)
    requires
        0 <= p <= shape.len(),
        indices.len() >= p,
        forall|i: int| 0 <= i < p ==> indices[i] < shape[i],
    ensures
        flat_index_prefix(shape, indices, p) + suffix_product(shape, p) <= shape_product(shape),
    decreases p,
{
    if p > 0 {
        lemma_flat_prefix_bound(shape, indices, p - 1);
        let s: int = suffix_product(shape, p) as int;
        let idx: int = indices[p - 1] as int;
        let ext: int = shape[p - 1] as int;
        assert(suffix_product(shape, p - 1) == (shape[p - 1] as nat) * suffix_product(shape, p));
        assert(idx * s + s <= ext * s) by (nonlinear_arith)
            requires
                idx + 1 <= ext,
                s >= 0,
        ;
    }
}

/// An N-dimensional array: flat element storage, one extent per axis, and
/// row-major strides that are always a pure function of the shape.
#[derive(Debug, Clone, PartialEq)]
pub struct NDArray {
    data: Vec<i64>,
    shape: Vec<usize>,
    strides: Vec<usize>,
}

impl NDArray {
    /// The flat element storage, in row-major order.
    pub closed spec fn data_seq(&self) -> Seq<i64> {
        self.data@
    }

    /// The extent of each axis.
    pub closed spec fn shape_seq(&self) -> Seq<usize> {
        self.shape@
    }

    /// The per-axis strides.
    pub closed spec fn strides_seq(&self) -> Seq<usize> {
        self.strides@
    }

    /// Well-formedness: the storage holds exactly `product(shape)` elements,
    /// and the strides are the row-major suffix products of the shape.
    pub open spec fn wf(&self) -> bool {
        &&& self.data_seq().len() == shape_product(self.shape_seq())
        &&& self.strides_seq().len() == self.shape_seq().len()
        &&& (forall|i: int| 0 <= i < self.shape_seq().len()
                ==> self.strides_seq()[i] == suffix_product(self.shape_seq(), i + 1))
        &&& strides_fit(self.shape_seq())
    }

    /// Compute the row-major stride table for a shape: `strides[i]` is the
    /// product of the extents of all later axes.
    fn calculate_strides(shape: &[usize]) -> (strides: Vec<usize>)
        requires
            strides_fit(shape@),
        ensures
            strides@.len() == shape@.len(),
            forall|k: int| 0 <= k < shape@.len()
                ==> strides@[k] == suffix_product(shape@, k + 1),
    {
        let n: usize = shape.len();
        let mut strides: Vec<usize> = Vec::new();
        let mut i: usize = 0;
        while i < n
            invariant
                strides_fit(shape@),
                n == shape@.len(),
                i <= n,
                strides@.len() == i,
                forall|k: int| 0 <= k < i ==> strides@[k] == suffix_product(shape@, k + 1),
            decreases n - i,
        {
            let mut s: usize = 1;
            let mut j: usize = n;
            while j > i + 1
                invariant
                    strides_fit(shape@),
                    n == shape@.len(),
                    i < n,
                    i + 1 <= j <= n,
                    s == suffix_product(shape@, j as int),
                decreases j,
            {
                j = j - 1;
                assert(suffix_product(shape@, j as int)
                    == (shape@[j as int] as nat) * suffix_product(shape@, j + 1));
                assert(suffix_product(shape@, j as int) <= usize::MAX);
                s = shape[j] * s;
            }
            strides.push(s);
            i = i + 1;
        }
        strides
    }

    /// The element count that a shape calls for: the product of its
    /// extents, computable without overflow thanks to `strides_fit`.
    fn total_elements(shape: &[usize]) -> (r: usize)
        requires
            strides_fit(shape@),
        ensures
            r == shape_product(shape@),
    {
        let n: usize = shape.len();
        let mut total: usize = 1;
        let mut j: usize = n;
        while j > 0
            invariant
                strides_fit(shape@),
                n == shape@.len(),
                j <= n,
                total == suffix_product(shape@, j as int),
            decreases j,
        {
            j = j - 1;
            assert(suffix_product(shape@, j as int)
                == (shape@[j as int] as nat) * suffix_product(shape@, j + 1));
            assert(suffix_product(shape@, j as int) <= usize::MAX);
            total = shape[j] * total;
        }
        total
    }

    /// Create an array of the given shape with every element set to
    /// `value`.  As a deliberate policy, the empty shape is accepted and
    /// describes a zero-dimensional scalar container of exactly one
    /// element.
    pub fn with_value(shape: &[usize], value: i64) -> (r: Self)
        requires
            strides_fit(shape@),
        ensures
            r.wf(),
            r.shape_seq() == shape@,
            r.data_seq().len() == shape_product(shape@),
            forall|k: int| 0 <= k < r.data_seq().len() ==> r.data_seq()[k] == value,
    {
        let total: usize = Self::total_elements(shape);
        let mut data: Vec<i64> = Vec::new();
        let mut filled: usize = 0;
        while filled < total
            invariant
                data@.len() == filled,
                filled <= total,
                forall|k: int| 0 <= k < filled ==> data@[k] == value,
            decreases total - filled,
        {
            data.push(value);
            filled = filled + 1;
        }
        let strides: Vec<usize> = Self::calculate_strides(shape);
        let shape_vec: Vec<usize> = vstd::slice::slice_to_vec(shape);
        NDArray { data, shape: shape_vec, strides }
    }

    /// Create an array of the given shape filled with the default value 0.
    pub fn new(shape: &[usize]) -> (r: Self)
        requires
            strides_fit(shape@),
        ensures
            r.wf(),
            r.shape_seq() == shape@,
            r.data_seq().len() == shape_product(shape@),
            forall|k: int| 0 <= k < r.data_seq().len() ==> r.data_seq()[k] == 0i64,
    {
        Self::with_value(shape, 0)
    }

    /// Create an array from flat data and a shape.  Succeeds exactly when the
    /// data holds `product(shape)` elements; otherwise nothing is built and
    /// `ShapeMismatch` is reported.
    pub fn from_vec(data: Vec<i64>, shape: &[usize]) -> (r: Result<Self, NDArrayError>)
        requires
            strides_fit(shape@),
        ensures
            r is Ok <==> data@.len() == shape_product(shape@),
            r matches Ok(a) ==> a.wf() && a.data_seq() == data@ && a.shape_seq() == shape@,
            r is Err ==> r == Err::<Self, NDArrayError>(NDArrayError::ShapeMismatch),
    {
        let expected: usize = Self::total_elements(shape);
        if data.len() != expected {
            return Err(NDArrayError::ShapeMismatch);
        }
        let strides: Vec<usize> = Self::calculate_strides(shape);
        let shape_vec: Vec<usize> = vstd::slice::slice_to_vec(shape);
        Ok(NDArray { data, shape: shape_vec, strides })
    }

    /// The shape of the array.
    pub fn shape(&self) -> (r: &[usize])
        ensures
            r@ == self.shape_seq(),
    {
        self.shape.as_slice()
    }

    /// The row-major strides of the array.
    pub fn strides(&self) -> (r: &[usize])
        ensures
            r@ == self.strides_seq(),
    {
        self.strides.as_slice()
    }

    /// The number of axes.
    pub fn ndim(&self) -> (r: usize)
        ensures
            r == self.shape_seq().len(),
    {
        self.shape.len()
    }

    /// The total number of elements; on a well-formed array this is
    /// always the product of the shape.
    pub fn size(&self) -> (r: usize)
        ensures
            r == self.data_seq().len(),
            self.wf() ==> r == shape_product(self.shape_seq()),
    {
        self.data.len()
    }

    /// True exactly when the array holds no elements.
    pub fn is_empty(&self) -> (r: bool)
        ensures
            r <==> self.data_seq().len() == 0,
    {
        self.data.is_empty()
    }

    /// Translate a multi-index into a flat offset.  Returns `None` exactly
    /// when the index has the wrong arity or leaves some axis's extent;
    /// a returned offset always lies inside the flat storage.
    pub fn flat_index(&self, indices: &[usize]) -> (r: Option<usize>)
        requires
            self.wf(),
        ensures
            r is Some <==> index_in_bounds(self.shape_seq(), indices@),
            r matches Some(k) ==> k == flat_index_of(self.shape_seq(), indices@)
                && k < self.data_seq().len(),
    {
        let n: usize = self.shape.len();
        if indices.len() != n {
            return None;
        }
        let mut flat: usize = 0;
        let mut i: usize = 0;
        while i < n
            invariant
                self.wf(),
                n == self.shape_seq().len(),
                indices@.len() == n,
                i <= n,
                forall|k: int| 0 <= k < i ==> indices@[k] < self.shape_seq()[k],
                flat == flat_index_prefix(self.shape_seq(), indices@, i as int),
            decreases n - i,
        {
            if indices[i] >= self.shape[i] {
                return None;
            }
            proof {
                lemma_flat_prefix_bound(self.shape_seq(), indices@, i + 1);
                assert(flat_index_prefix(self.shape_seq(), indices@, i + 1)
                    == flat_index_prefix(self.shape_seq(), indices@, i as int)
                        + (indices@[i as int] as nat)
                            * suffix_product(self.shape_seq(), i + 1));
                assert(shape_product(self.shape_seq()) <= usize::MAX);
            }
            flat = flat + indices[i] * self.strides[i];
            i = i + 1;
        }
        proof {
            lemma_flat_prefix_bound(self.shape_seq(), indices@, n as int);
        }
        Some(flat)
    }

    /// Read the element at a multi-index; `None` for a wrong-arity or
    /// out-of-bounds probe, which is an expected, recoverable condition.
    pub fn get(&self, indices: &[usize]) -> (r: Option<i64>)
        requires
            self.wf(),
        ensures
            r == spec_lookup(self.data_seq(), self.shape_seq(), indices@),
            r is Some <==> index_in_bounds(self.shape_seq(), indices@),
            r is Some ==> flat_index_of(self.shape_seq(), indices@) < self.data_seq().len(),
    {
        match self.flat_index(indices) {
            Some(idx) => Some(self.data[idx]),
            None => None,
        }
    }

    /// Borrow the element at a multi-index mutably; `None` for a
    /// wrong-arity or out-of-bounds probe.  Writing through the borrow
    /// updates exactly the addressed flat position.
    pub fn get_mut(&mut self, indices: &[usize]) -> (r: Option<&mut i64>)
        requires
            old(self).wf(),
        ensures
            final(self).wf(),
            r is Some <==> index_in_bounds(old(self).shape_seq(), indices@),
            r matches Some(p) ==> *p == old(self).data_seq()[
                flat_index_of(old(self).shape_seq(), indices@) as int]
                && final(self).data_seq() == old(self).data_seq().update(
                flat_index_of(old(self).shape_seq(), indices@) as int,
                *final(p),
            ),
            final(self).shape_seq() == old(self).shape_seq(),
            final(self).strides_seq() == old(self).strides_seq(),
            r is None ==> *final(self) == *old(self),
    {
        match self.flat_index(indices) {
            Some(idx) => Some(&mut self.data[idx]),
            None => None,
        }
    }

    /// Write the element at a multi-index.  A bounds or arity violation
    /// fails explicitly with `IndexOutOfBounds` and leaves the array
    /// untouched: a failed write is never silently dropped.
    pub fn set(&mut self, indices: &[usize], value: i64) -> (r: Result<(), NDArrayError>)
        requires
            old(self).wf(),
        ensures
            final(self).wf(),
            r is Ok <==> index_in_bounds(old(self).shape_seq(), indices@),
            r is Ok ==> final(self).data_seq() == old(self).data_seq().update(
                flat_index_of(old(self).shape_seq(), indices@) as int, value),
            final(self).shape_seq() == old(self).shape_seq(),
            final(self).strides_seq() == old(self).strides_seq(),
            r is Err ==> r == Err::<(), NDArrayError>(NDArrayError::IndexOutOfBounds)
                && *final(self) == *old(self),
    {
        match self.flat_index(indices) {
            Some(idx) => {
                self.data.set(idx, value);
                Ok(())
            },
            None => Err(NDArrayError::IndexOutOfBounds),
        }
    }

    /// The elements in flat row-major order, as a fresh vector.  This is
    /// the panic-free way to walk every element of the array in order.
    pub fn to_flat_vec(&self) -> (r: Vec<i64>)
        ensures
            r@ == self.data_seq(),
    {
        let n: usize = self.data.len();
        let mut out: Vec<i64> = Vec::new();
        let mut i: usize = 0;
        while i < n
            invariant
                n == self.data_seq().len(),
                i <= n,
                out@.len() == i,
                forall|k: int| 0 <= k < i ==> out@[k] == self.data_seq()[k],
            decreases n - i,
        {
            out.push(self.data[i]);
            i = i + 1;
        }
        proof {
            assert(out@ =~= self.data_seq());
        }
        out
    }

    /// Reinterpret the same flat element sequence under a new shape.
    /// Succeeds exactly when the new shape preserves the element count;
    /// elements are never reordered, truncated or padded.
    pub fn reshape(&self, new_shape: &[usize]) -> (r: Result<Self, NDArrayError>)
        requires
            self.wf(),
            strides_fit(new_shape@),
        ensures
            r is Ok <==> shape_product(new_shape@) == self.data_seq().len(),
            r matches Ok(b) ==> b.wf() && b.data_seq() == self.data_seq()
                && b.shape_seq() == new_shape@,
            r is Err ==> r == Err::<Self, NDArrayError>(NDArrayError::ShapeMismatch),
    {
        Self::from_vec(self.to_flat_vec(), new_shape)
    }

    /// Flatten to one axis holding every element in flat order.  A
    /// size-preserving one-axis reshape can never violate the size
    /// invariant, so this always succeeds.
    pub fn flatten(&self) -> (r: Self)
        requires
            self.wf(),
        ensures
            r.wf(),
            r.data_seq() == self.data_seq(),
            r.shape_seq() == seq![self.data_seq().len() as usize],
    {
        let n: usize = self.data.len();
        let mut shape: Vec<usize> = Vec::new();
        shape.push(n);
        let mut strides: Vec<usize> = Vec::new();
        strides.push(1);
        let r = NDArray { data: self.to_flat_vec(), shape, strides };
        proof {
            assert(suffix_product(r.shape_seq(), 1) == 1);
            assert(shape_product(r.shape_seq()) == (n as nat) * suffix_product(r.shape_seq(), 1));
            assert(forall|i: int| 0 <= i <= r.shape_seq().len()
                ==> #[trigger] suffix_product(r.shape_seq(), i) <= usize::MAX);
            assert(r.shape_seq() =~= seq![self.data_seq().len() as usize]);
        }
        r
    }

    /// The extent of one axis; `DimensionError` when the axis does not exist.
    pub fn axis_size(&self, axis: usize) -> (r: Result<usize, NDArrayError>)
        ensures
            r is Ok <==> axis < self.shape_seq().len(),
            r matches Ok(s) ==> s == self.shape_seq()[axis as int],
            r is Err ==> r == Err::<usize, NDArrayError>(NDArrayError::DimensionError),
    {
        if axis < self.shape.len() {
            Ok(self.shape[axis])
        } else {
            Err(NDArrayError::DimensionError)
        }
    }

    /// An array of the given shape filled with zeros.
    pub fn zeros(shape: &[usize]) -> (r: Self)
        requires
            strides_fit(shape@),
        ensures
            r.wf(),
            r.shape_seq() == shape@,
            r.data_seq().len() == shape_product(shape@),
            forall|k: int| 0 <= k < r.data_seq().len() ==> r.data_seq()[k] == 0i64,
    {
        Self::with_value(shape, 0)
    }

    /// An array of the given shape filled with ones.
    pub fn ones(shape: &[usize]) -> (r: Self)
        requires
            strides_fit(shape@),
        ensures
            r.wf(),
            r.shape_seq() == shape@,
            r.data_seq().len() == shape_product(shape@),
            forall|k: int| 0 <= k < r.data_seq().len() ==> r.data_seq()[k] == 1i64,
    {
        Self::with_value(shape, 1)
    }
}

/// Size invariant: every well-formed array holds exactly `product(shape)`
/// elements.  Constructions that would violate this fail instead of
/// truncating or padding (see `from_vec` and `reshape`).
pub proof fn lemma_size_is_shape_product(a: NDArray)
    requires
        a.wf(),
    ensures
        a.data_seq().len() == shape_product(a.shape_seq()),
{
}

/// What a rank-1 array of the whole flat storage — the shape `flatten`
/// produces — reads at `[i]`: exactly the flat element `i`.
pub proof fn lemma_flat_lookup(d: Seq<i64>, i: usize)
    requires
        d.len() <= usize::MAX,
    ensures
        spec_lookup(d, seq![d.len() as usize], seq![i]) == (if i < d.len() {
            Some(d[i as int])
        } else {
            None::<i64>
        }),
{
    let shape = seq![d.len() as usize];
    let indices = seq![i];
    assert(suffix_product(shape, 1) == 1);
    assert(flat_index_prefix(shape, indices, 0) == 0);
    assert(flat_index_prefix(shape, indices, 1) == flat_index_prefix(shape, indices, 0) + (
    i as nat) * suffix_product(shape, 1));
    assert(flat_index_of(shape, indices) == i);
}

/// Reshape preserves flat order: whenever `b` shares `a`'s flat element
/// sequence — as every result of `reshape` does — the flattened forms of
/// `b` and `a` read the same element, namely flat element `i`, at every
/// flat position `i`.
pub proof fn lemma_reshape_preserves_flat_order(a: NDArray, b: NDArray, i: usize)
    requires
        a.wf(),
        b.wf(),
        b.data_seq() == a.data_seq(),
    ensures
        spec_lookup(b.data_seq(), seq![b.data_seq().len() as usize], seq![i])
            == spec_lookup(a.data_seq(), seq![a.data_seq().len() as usize], seq![i]),
        i < a.data_seq().len() ==> spec_lookup(
            a.data_seq(),
            seq![a.data_seq().len() as usize],
            seq![i],
        ) == Some(a.data_seq()[i as int]),
{
    lemma_flat_lookup(a.data_seq(), i);
}

/// Flatten is idempotent: with `b` as `a.flatten()` and `c` as
/// `b.flatten()` — characterized exactly by `flatten`'s contract — `c`
/// and `b` agree on storage, shape and strides, and `b` always has rank 1
/// with length `a.size()`.
pub proof fn lemma_flatten_idempotent(a: NDArray, b: NDArray, c: NDArray)
    requires
        a.wf(),
        b.wf(),
        c.wf(),
        b.data_seq() == a.data_seq(),
        b.shape_seq() == seq![a.data_seq().len() as usize],
        c.data_seq() == b.data_seq(),
        c.shape_seq() == seq![b.data_seq().len() as usize],
    ensures
        c.data_seq() == b.data_seq(),
        c.shape_seq() == b.shape_seq(),
        c.strides_seq() == b.strides_seq(),
        b.shape_seq().len() == 1,
        b.shape_seq()[0] == a.data_seq().len(),
{
    assert(c.shape_seq() =~= b.shape_seq());
    assert(suffix_product(b.shape_seq(), 1) == 1);
    assert(suffix_product(c.shape_seq(), 1) == 1);
    assert(c.strides_seq() =~= b.strides_seq());
}

} // verus!

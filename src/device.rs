//! Device memory accounting and tensor layout for accelerator backends.
//!
//! Every byte reserved for a tensor is returned when the tensor is released, so a
//! run of loads and unloads leaves the free memory where it started.

use vstd::prelude::*;

verus! {

/// Errors of device memory and tensor layout.
#[derive(PartialEq, Eq, Structural)]
pub enum CudaError {
    /// Fewer bytes are free than were asked for; a size past the counter's range is
    /// reported as `requested: u64::MAX`.
    AllocationError { requested: u64, available: u64 },
    /// The host data does not have as many elements as the shape describes.
    DimensionMismatch { expected: usize, actual: usize },
    /// A stride or a size is past what the platform can index.
    LayoutOverflow,
}

/// The product of `shape[i..]`.
pub open spec fn suffix_product(shape: Seq<usize>, i: int) -> int
    decreases shape.len() - i,
{
    if i >= shape.len() {
        1
    } else {
        shape[i] * suffix_product(shape, i + 1)
    }
}

/// Row-major strides: each dimension steps over the product of the dimensions after it.
pub open spec fn strides_of(shape: Seq<usize>) -> Seq<int> {
    Seq::new(shape.len(), |i: int| suffix_product(shape, i + 1))
}

/// Whether every stride of `shape` fits in `usize`.
pub open spec fn strides_fit(shape: Seq<usize>) -> bool {
    forall|i: int| 1 <= i <= shape.len() ==> #[trigger] suffix_product(shape, i) <= usize::MAX
}

/// Row-major strides of `shape`, or `None` when one of them does not fit in `usize`.
pub fn compute_strides(shape: &[usize]) -> (r: Option<Vec<usize>>)
    ensures
        strides_fit(shape@) ==> (r matches Some(s) && s@.len() == shape@.len() && forall|i: int|
            0 <= i < shape@.len() ==> s@[i] as int == #[trigger] strides_of(shape@)[i]),
        !strides_fit(shape@) ==> r is None,
{
    let ndim = shape.len();
    let mut strides: Vec<usize> = vec![1; ndim];
    if ndim == 0 {
        return Some(strides);
    }
    let mut i: usize = ndim - 1;
    assert(suffix_product(shape@, ndim as int) == 1);
    while i > 0
        invariant
            ndim == shape@.len(),
            strides@.len() == ndim,
            1 <= i + 1 <= ndim,
            forall|j: int| i <= j < ndim ==> strides@[j] as int == #[trigger] suffix_product(shape@, j + 1),
            forall|j: int| i < j <= ndim ==> #[trigger] suffix_product(shape@, j) <= usize::MAX,
        decreases i,
    {
        let ghost next = suffix_product(shape@, i as int);
        match strides[i].checked_mul(shape[i]) {
            Some(v) => {
                assert(v as int == next) by (nonlinear_arith)
                    requires
                        next == shape@[i as int] * suffix_product(shape@, i + 1),
                        strides@[i as int] as int == suffix_product(shape@, i + 1),
                        v as int == strides@[i as int] as int * shape@[i as int] as int,
                ;
                strides.set(i - 1, v);
            },
            None => {
                assert(next > usize::MAX) by (nonlinear_arith)
                    requires
                        next == shape@[i as int] * suffix_product(shape@, i + 1),
                        strides@[i as int] as int == suffix_product(shape@, i + 1),
                        strides@[i as int] as int * shape@[i as int] as int > usize::MAX,
                ;
                return None;
            },
        }
        i = i - 1;
    }
    assert(suffix_product(shape@, 1) == strides@[0] as int);
    Some(strides)
}

/// Bytes that can be reserved on a device, and bytes free.
pub struct DeviceMemory {
    capacity: u64,
    free: u64,
}

/// Bytes reserved on a device for one tensor; giving it back frees them.
pub struct Reservation {
    bytes: u64,
}

impl Reservation {
    pub closed spec fn spec_bytes(&self) -> u64 {
        self.bytes
    }

    /// Bytes reserved.
    pub fn bytes(&self) -> (r: u64)
        ensures
            r == self.spec_bytes(),
    {
        self.bytes
    }
}

/// Free memory after reserving each of `sizes` in turn, or `None` once one does not fit.
pub open spec fn free_after_reserving(free: u64, sizes: Seq<u64>) -> Option<u64>
    decreases sizes.len(),
{
    if sizes.len() == 0 {
        Some(free)
    } else if sizes[0] > free {
        None
    } else {
        free_after_reserving((free - sizes[0]) as u64, sizes.drop_first())
    }
}

/// The sum of `sizes`.
pub open spec fn total(sizes: Seq<u64>) -> int
    decreases sizes.len(),
{
    if sizes.len() == 0 {
        0
    } else {
        sizes[0] + total(sizes.drop_first())
    }
}

/// Memory conservation: when every one of a run of reservations fits, giving all of
/// them back returns the free memory to where it was before the run.
pub proof fn lemma_memory_conserved(free: u64, sizes: Seq<u64>)
    requires
        free_after_reserving(free, sizes) is Some,
    ensures
        free_after_reserving(free, sizes)->Some_0 + total(sizes) == free,
    decreases sizes.len(),
{
    if sizes.len() > 0 {
        lemma_memory_conserved((free - sizes[0]) as u64, sizes.drop_first());
    }
}

impl DeviceMemory {
    pub closed spec fn spec_capacity(&self) -> u64 {
        self.capacity
    }

    pub closed spec fn spec_free(&self) -> u64 {
        self.free
    }

    pub open spec fn wf(&self) -> bool {
        self.spec_free() <= self.spec_capacity()
    }

    /// A device with `capacity` bytes, all free.
    pub fn new(capacity: u64) -> (r: Self)
        ensures
            r.wf(),
            r.spec_capacity() == capacity,
            r.spec_free() == capacity,
    {
        DeviceMemory { capacity, free: capacity }
    }

    /// Bytes free.
    pub fn free(&self) -> (r: u64)
        ensures
            r == self.spec_free(),
    {
        self.free
    }

    /// Bytes reserved and not yet given back.
    pub fn allocated(&self) -> (r: u64)
        requires
            self.wf(),
        ensures
            r == self.spec_capacity() - self.spec_free(),
    {
        self.capacity - self.free
    }

    /// Reserves `bytes`, or fails with what is free when that is too little.
    pub fn reserve(&mut self, bytes: u64) -> (r: Result<Reservation, CudaError>)
        requires
            old(self).wf(),
        ensures
            final(self).wf(),
            final(self).spec_capacity() == old(self).spec_capacity(),
            bytes <= old(self).spec_free() ==> (r matches Ok(res) && res.spec_bytes() == bytes
                && final(self).spec_free() == old(self).spec_free() - bytes),
            bytes > old(self).spec_free() ==> r == Err::<Reservation, CudaError>(
                CudaError::AllocationError { requested: bytes, available: old(self).spec_free() },
            ) && final(self).spec_free() == old(self).spec_free(),
    {
        if bytes > self.free {
            return Err(CudaError::AllocationError { requested: bytes, available: self.free });
        }
        self.free = self.free - bytes;
        Ok(Reservation { bytes })
    }

    /// Gives back a reservation made on this device.
    pub fn release(&mut self, reservation: Reservation)
        requires
            old(self).wf(),
            old(self).spec_free() + reservation.spec_bytes() <= old(self).spec_capacity(),
        ensures
            final(self).wf(),
            final(self).spec_capacity() == old(self).spec_capacity(),
            final(self).spec_free() == old(self).spec_free() + reservation.spec_bytes(),
    {
        self.free = self.free + reservation.bytes;
    }
}

/// A tensor laid out on a device: its shape, its row-major strides and its reservation.
pub struct DeviceTensor {
    shape: Vec<usize>,
    strides: Vec<usize>,
    reservation: Reservation,
}

/// The element count that `shape` describes.
pub open spec fn element_count(shape: Seq<usize>) -> int {
    suffix_product(shape, 0)
}

impl DeviceTensor {
    pub closed spec fn spec_shape(&self) -> Seq<usize> {
        self.shape@
    }

    pub closed spec fn spec_strides(&self) -> Seq<usize> {
        self.strides@
    }

    pub closed spec fn spec_bytes(&self) -> u64 {
        self.reservation.spec_bytes()
    }

    /// Lays out `host_len` elements of `elem_size` bytes with `shape`, reserving their
    /// bytes on `memory`. Fails when the shape does not describe `host_len` elements,
    /// when its layout overflows, or when too little memory is free.
    pub fn new(host_len: usize, elem_size: usize, shape: &[usize], memory: &mut DeviceMemory) -> (r:
        Result<Self, CudaError>)
        requires
            old(memory).wf(),
        ensures
            final(memory).wf(),
            final(memory).spec_capacity() == old(memory).spec_capacity(),
            r is Err ==> final(memory).spec_free() == old(memory).spec_free(),
            r matches Ok(t) ==> {
                &&& t.spec_shape() == shape@
                &&& strides_fit(shape@)
                &&& t.spec_strides().len() == shape@.len()
                &&& forall|i: int|
                    0 <= i < shape@.len() ==> t.spec_strides()[i] as int
                        == #[trigger] strides_of(shape@)[i]
                &&& element_count(shape@) == host_len
                &&& t.spec_bytes() == host_len * elem_size
                &&& final(memory).spec_free() == old(memory).spec_free() - t.spec_bytes()
            },
            (!strides_fit(shape@) || element_count(shape@) > usize::MAX) ==> r == Err::<
                Self,
                CudaError,
            >(CudaError::LayoutOverflow),
            (strides_fit(shape@) && element_count(shape@) <= usize::MAX && element_count(shape@)
                != host_len) ==> r == Err::<Self, CudaError>(
                CudaError::DimensionMismatch {
                    expected: element_count(shape@) as usize,
                    actual: host_len,
                },
            ),
            (strides_fit(shape@) && element_count(shape@) == host_len && host_len * elem_size
                <= u64::MAX && host_len * elem_size <= old(memory).spec_free()) ==> r is Ok,
            (strides_fit(shape@) && element_count(shape@) == host_len && host_len * elem_size
                <= u64::MAX && host_len * elem_size > old(memory).spec_free()) ==> r == Err::<
                Self,
                CudaError,
            >(
                CudaError::AllocationError {
                    requested: (host_len * elem_size) as u64,
                    available: old(memory).spec_free(),
                },
            ),
            (strides_fit(shape@) && element_count(shape@) == host_len && host_len * elem_size
                > u64::MAX) ==> r == Err::<Self, CudaError>(
                CudaError::AllocationError {
                    requested: u64::MAX,
                    available: old(memory).spec_free(),
                },
            ),
    {
        let strides = match compute_strides(shape) {
            Some(s) => s,
            None => {
                return Err(CudaError::LayoutOverflow);
            },
        };
        let count: usize = if shape.len() == 0 {
            1
        } else {
            match strides[0].checked_mul(shape[0]) {
                Some(c) => c,
                None => {
                    assert(element_count(shape@) > usize::MAX) by {
                        assert(strides@[0] as int == strides_of(shape@)[0]);
                        assert(element_count(shape@) == shape@[0] * suffix_product(shape@, 1));
                        assert(element_count(shape@) > usize::MAX) by (nonlinear_arith)
                            requires
                                element_count(shape@) == shape@[0] * suffix_product(shape@, 1),
                                strides@[0] as int == suffix_product(shape@, 1),
                                strides@[0] as int * shape@[0] as int > usize::MAX,
                        ;
                    }
                    return Err(CudaError::LayoutOverflow);
                },
            }
        };
        assert(count as int == element_count(shape@)) by {
            if shape@.len() > 0 {
                assert(strides@[0] as int == strides_of(shape@)[0]);
                assert(element_count(shape@) == shape@[0] * suffix_product(shape@, 1));
                assert(count as int == element_count(shape@)) by (nonlinear_arith)
                    requires
                        element_count(shape@) == shape@[0] * suffix_product(shape@, 1),
                        strides@[0] as int == suffix_product(shape@, 1),
                        count as int == strides@[0] as int * shape@[0] as int,
                ;
            }
        }
        if count != host_len {
            return Err(CudaError::DimensionMismatch { expected: count, actual: host_len });
        }
        let bytes: u64 = match (host_len as u64).checked_mul(elem_size as u64) {
            Some(b) => b,
            None => {
                assert(host_len * elem_size > u64::MAX);
                return Err(CudaError::AllocationError { requested: u64::MAX, available: memory.free() });
            },
        };
        let reservation = memory.reserve(bytes)?;
        let mut dims: Vec<usize> = Vec::new();
        let mut i: usize = 0;
        while i < shape.len()
            invariant
                i <= shape@.len(),
                dims@ == shape@.subrange(0, i as int),
            decreases shape@.len() - i,
        {
            dims.push(shape[i]);
            assert(dims@ =~= shape@.subrange(0, i + 1));
            i = i + 1;
        }
        assert(dims@ =~= shape@);
        Ok(DeviceTensor { shape: dims, strides, reservation })
    }

    /// The shape.
    pub fn shape(&self) -> (r: &Vec<usize>)
        ensures
            r@ == self.spec_shape(),
    {
        &self.shape
    }

    /// The row-major strides.
    pub fn strides(&self) -> (r: &Vec<usize>)
        ensures
            r@ == self.spec_strides(),
    {
        &self.strides
    }

    /// Gives the tensor's bytes back to the device it was reserved on.
    pub fn release(self, memory: &mut DeviceMemory)
        requires
            old(memory).wf(),
            old(memory).spec_free() + self.spec_bytes() <= old(memory).spec_capacity(),
        ensures
            final(memory).wf(),
            final(memory).spec_capacity() == old(memory).spec_capacity(),
            final(memory).spec_free() == old(memory).spec_free() + self.spec_bytes(),
    {
        memory.release(self.reservation);
    }
}

} // verus!

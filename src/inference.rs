//! What an inference backend checks before it runs: the input must have exactly the
//! element type and the shape that the model declares; nothing is converted or reshaped.

use vstd::prelude::*;

verus! {

/// The execution engines a model can run on.
#[derive(PartialEq, Eq, Structural, Clone, Copy)]
pub enum Backend {
    CpuGraph,
    GpuAccelerated,
}

impl Backend {
    /// Whether the backend runs on an accelerator device.
    pub fn uses_accelerator(&self) -> (r: bool)
        ensures
            r == (*self == Backend::GpuAccelerated),
    {
        match self {
            Backend::CpuGraph => false,
            Backend::GpuAccelerated => true,
        }
    }
}

/// Element types of tensors.
#[derive(PartialEq, Eq, Structural, Clone, Copy)]
pub enum ElementType {
    F32,
    F16,
    I64,
    I32,
    U8,
}

/// Errors of inference.
#[derive(PartialEq, Eq, Structural)]
pub enum InferenceError {
    /// The input's elements are of another type than the model declares.
    TypeMismatch { expected: ElementType, actual: ElementType },
    /// The input has another number of axes than the model declares.
    RankMismatch { expected: usize, actual: usize },
    /// The input's extent along `axis` differs from the declared one.
    DimensionMismatch { axis: usize, expected: usize, actual: usize },
    /// The device reported a failure.
    DeviceError,
    /// The device did not answer within its time limit.
    Timeout,
}

/// The first axis at which two shapes of equal rank differ, if any.
pub open spec fn first_difference(declared: Seq<usize>, actual: Seq<usize>) -> Option<int> {
    if exists|i: int| 0 <= i < declared.len() && #[trigger] declared[i] != actual[i] {
        Some(
            choose|i: int|
                0 <= i < declared.len() && #[trigger] declared[i] != actual[i] && forall|j: int|
                    0 <= j < i ==> declared[j] == actual[j],
        )
    } else {
        None
    }
}

/// Checks an input shape against the declared one: the rank first, then each axis in
/// order; the first difference is reported.
pub fn check_input_shape(declared: &[usize], actual: &[usize]) -> (r: Result<(), InferenceError>)
    ensures
        r is Ok <==> declared@ == actual@,
        declared@.len() != actual@.len() ==> r == Err::<(), InferenceError>(
            InferenceError::RankMismatch { expected: declared@.len() as usize, actual: actual@.len() as usize },
        ),
        declared@.len() == actual@.len() && declared@ != actual@ ==> (r matches Err(
            InferenceError::DimensionMismatch { axis, expected, actual: got },
        ) && first_difference(declared@, actual@) == Some(axis as int) && expected
            == declared@[axis as int] && got == actual@[axis as int]),
{
    if declared.len() != actual.len() {
        return Err(InferenceError::RankMismatch { expected: declared.len(), actual: actual.len() });
    }
    let mut i: usize = 0;
    while i < declared.len()
        invariant
            declared@.len() == actual@.len(),
            i <= declared@.len(),
            forall|j: int| 0 <= j < i ==> declared@[j] == actual@[j],
        decreases declared@.len() - i,
    {
        if declared[i] != actual[i] {
            let ghost c = choose|k: int|
                0 <= k < declared@.len() && #[trigger] declared@[k] != actual@[k] && forall|j: int|
                    0 <= j < k ==> declared@[j] == actual@[j];
            assert(0 <= i < declared@.len() && declared@[i as int] != actual@[i as int] && forall|j: int|
                0 <= j < i ==> declared@[j] == actual@[j]);
            assert(c == i) by {
                if c < i {
                    assert(declared@[c] == actual@[c]);
                } else if c > i {
                    assert(declared@[i as int] == actual@[i as int]);
                }
            }
            return Err(InferenceError::DimensionMismatch {
                axis: i,
                expected: declared[i],
                actual: actual[i],
            });
        }
        i = i + 1;
    }
    assert(declared@ =~= actual@);
    Ok(())
}

/// The interface signature of a loaded model and the backend it runs on.
pub struct ModelSignature {
    pub input_type: ElementType,
    pub input_shape: Vec<usize>,
    pub output_shape: Vec<usize>,
    pub backend: Backend,
}

impl ModelSignature {
    /// Checks an input against the model's declared input: its element type first, then
    /// its shape as `check_input_shape` does.
    pub fn check_input(&self, element_type: ElementType, shape: &[usize]) -> (r: Result<
        (),
        InferenceError,
    >)
        ensures
            r is Ok <==> (self.input_type == element_type && self.input_shape@ == shape@),
            self.input_type != element_type ==> r == Err::<(), InferenceError>(
                InferenceError::TypeMismatch { expected: self.input_type, actual: element_type },
            ),
            self.input_type == element_type && self.input_shape@.len() != shape@.len() ==> r
                == Err::<(), InferenceError>(
                InferenceError::RankMismatch {
                    expected: self.input_shape@.len() as usize,
                    actual: shape@.len() as usize,
                },
            ),
            self.input_type == element_type && self.input_shape@.len() == shape@.len()
                && self.input_shape@ != shape@ ==> (r matches Err(
                InferenceError::DimensionMismatch { axis, expected, actual: got },
            ) && first_difference(self.input_shape@, shape@) == Some(axis as int) && expected
                == self.input_shape@[axis as int] && got == shape@[axis as int]),
    {
        if self.input_type != element_type {
            return Err(InferenceError::TypeMismatch {
                expected: self.input_type,
                actual: element_type,
            });
        }
        check_input_shape(self.input_shape.as_slice(), shape)
    }
}

} // verus!

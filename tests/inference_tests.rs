use scoria_core::inference::{check_input_shape, Backend, ElementType, InferenceError, ModelSignature};

#[test]
fn matching_shape_is_accepted() {
    assert!(check_input_shape(&[1, 3, 224, 224], &[1, 3, 224, 224]).is_ok());
    assert!(check_input_shape(&[], &[]).is_ok());
}

#[test]
fn rank_mismatch_is_reported() {
    assert!(matches!(
        check_input_shape(&[1, 3, 224, 224], &[3, 224, 224]),
        Err(InferenceError::RankMismatch { expected: 4, actual: 3 })
    ));
}

#[test]
fn first_differing_axis_is_reported() {
    assert!(matches!(
        check_input_shape(&[1, 3, 224, 224], &[1, 4, 224, 225]),
        Err(InferenceError::DimensionMismatch { axis: 1, expected: 3, actual: 4 })
    ));
}

#[test]
fn signature_checks_input() {
    let sig = ModelSignature {
        input_type: ElementType::F32,
        input_shape: vec![1, 3, 224, 224],
        output_shape: vec![1, 1000],
        backend: Backend::GpuAccelerated,
    };
    assert!(sig.check_input(ElementType::F32, &[1, 3, 224, 224]).is_ok());
    assert!(matches!(
        sig.check_input(ElementType::F32, &[1, 3, 224]),
        Err(InferenceError::RankMismatch { expected: 4, actual: 3 })
    ));
    assert!(matches!(
        sig.check_input(ElementType::F16, &[1, 3, 224, 224]),
        Err(InferenceError::TypeMismatch { expected: ElementType::F32, actual: ElementType::F16 })
    ));
    assert!(sig.backend.uses_accelerator());
    assert!(!Backend::CpuGraph.uses_accelerator());
}

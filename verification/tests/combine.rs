use tynx::combine::{check_same_dtype, meshgrid_shapes, roll_plan, MeshInput, RollStep};
use tynx::graph::DType;
use tynx::parameter::DeviceInfo;
use tynx::shape::ArgErrorKind;

fn step(axis: usize, shift: usize, split: usize) -> RollStep {
    RollStep { axis, shift, split }
}

#[test]
fn roll_without_dims_rotates_the_flattened_tensor() {
    let plan = roll_plan(&[1], None, &[2, 3]).unwrap();
    assert!(plan.flattened);
    assert_eq!(plan.steps, [step(0, 1, 5)]);
    let plan = roll_plan(&[-7], None, &[2, 3]).unwrap();
    assert_eq!(plan.steps, [step(0, 5, 1)]);
}

#[test]
fn roll_normalises_dims_and_shifts() {
    let plan = roll_plan(&[-1, 4], Some(&[0, -1]), &[2, 3]).unwrap();
    assert!(!plan.flattened);
    assert_eq!(plan.steps, [step(0, 1, 1), step(1, 1, 2)]);
    assert!(roll_plan(&[3], Some(&[1]), &[2, 3]).unwrap().steps.is_empty());
    assert!(roll_plan(&[5], Some(&[0]), &[0, 3]).unwrap().steps.is_empty());
}

#[test]
fn roll_refuses_misaligned_or_out_of_range_arguments() {
    let e = roll_plan(&[1, 2], None, &[2, 3]).unwrap_err();
    assert_eq!(e.kind, ArgErrorKind::Value);
    assert_eq!(e.message, "roll shifts and dimensions must align");
    assert_eq!(roll_plan(&[1, 2], Some(&[0]), &[2, 3]).unwrap_err().message, "roll shifts and dimensions must align");
    let e = roll_plan(&[1], Some(&[2]), &[2, 3]).unwrap_err();
    assert_eq!(e.kind, ArgErrorKind::Index);
    assert_eq!(e.message, "roll dimension 2 out of range for rank 2");
    assert_eq!(roll_plan(&[1], Some(&[-3]), &[2, 3]).unwrap_err().message, "roll dimension -3 out of range for rank 2");
}

fn cpu() -> DeviceInfo {
    DeviceInfo { name: "Cpu".to_string(), autodiff: false }
}

fn input(length: usize) -> MeshInput {
    MeshInput { shape: vec![length], dtype: DType::F32, device: cpu() }
}

#[test]
fn meshgrid_shapes_follow_the_indexing() {
    let ij = meshgrid_shapes(&[input(2), input(3)], None).unwrap();
    assert_eq!(ij.output, [2, 3]);
    assert_eq!(ij.views, [vec![2, 1], vec![1, 3]]);
    let xy = meshgrid_shapes(&[input(2), input(3)], Some("xy")).unwrap();
    assert_eq!(xy.output, [3, 2]);
    assert_eq!(xy.views, [vec![1, 2], vec![3, 1]]);
    let three = meshgrid_shapes(&[input(2), input(3), input(4)], Some("xy")).unwrap();
    assert_eq!(three.output, [3, 2, 4]);
    assert_eq!(three.views, [vec![1, 2, 1], vec![3, 1, 1], vec![1, 1, 4]]);
    let single = meshgrid_shapes(&[input(5)], Some("ij")).unwrap();
    assert_eq!(single.output, [5]);
}

#[test]
fn meshgrid_refuses_bad_inputs_in_order() {
    assert_eq!(meshgrid_shapes(&[], None).unwrap_err().message, "meshgrid inputs expects a non-empty tensor sequence");
    let many: Vec<MeshInput> = (0..7).map(|_| input(1)).collect();
    assert_eq!(meshgrid_shapes(&many, None).unwrap_err().message, "meshgrid input count 7 exceeds the maximum rank 6");
    let matrix = MeshInput { shape: vec![2, 2], dtype: DType::F32, device: cpu() };
    assert_eq!(meshgrid_shapes(&[input(2), matrix], None).unwrap_err().message, "meshgrid expects every input Tensor to be rank-1");
    let ints = MeshInput { shape: vec![2], dtype: DType::I64, device: cpu() };
    let e = meshgrid_shapes(&[input(2), ints], None).unwrap_err();
    assert_eq!(e.kind, ArgErrorKind::Type);
    assert_eq!(e.message, "meshgrid expects all inputs to have the same dtype");
    let elsewhere = MeshInput { shape: vec![2], dtype: DType::F32, device: DeviceInfo { name: "Flex".to_string(), autodiff: false } };
    assert_eq!(meshgrid_shapes(&[input(2), elsewhere], None).unwrap_err().message, "meshgrid expects all inputs to be on the same device");
    assert_eq!(
        meshgrid_shapes(&[input(2), input(3)], Some("yx")).unwrap_err().message,
        "meshgrid indexing must be 'ij' or 'xy', got \"yx\""
    );
}

#[test]
fn joined_tensors_share_one_dtype() {
    assert!(check_same_dtype(&[DType::F32, DType::F32], "cat").is_ok());
    let e = check_same_dtype(&[DType::F32, DType::Bool], "stack").unwrap_err();
    assert_eq!(e.kind, ArgErrorKind::Type);
    assert_eq!(e.message, "stack requires all tensors to have the same dtype");
}

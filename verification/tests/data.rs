use tynx::data::{nested_from_values, tensor_data, tensor_dtype, NestedData, TensorDtype};
use tynx::shape::ArgErrorKind;

fn s(x: i64) -> NestedData<i64> {
    NestedData::Scalar(Some(x))
}

fn list(items: Vec<NestedData<i64>>) -> NestedData<i64> {
    NestedData::Sequence(items)
}

#[test]
fn dtype_names_are_read_with_float32_by_default() {
    assert_eq!(tensor_dtype(None).unwrap(), TensorDtype::Float32);
    assert_eq!(tensor_dtype(Some("int64")).unwrap(), TensorDtype::Int64);
    assert_eq!(tensor_dtype(Some("bool")).unwrap(), TensorDtype::Bool);
    let e = tensor_dtype(Some("float16")).unwrap_err();
    assert_eq!(e.kind, ArgErrorKind::Value);
    assert_eq!(e.message, "unsupported Tensor dtype \"float16\"; expected 'float32', 'int64', or 'bool'");
}

#[test]
fn nested_data_reads_row_major_with_its_shape() {
    let data = list(vec![list(vec![s(1), s(2), s(3)]), list(vec![s(4), s(5), s(6)])]);
    let (values, shape) = tensor_data(&data, "int64").unwrap();
    assert_eq!(values, [1, 2, 3, 4, 5, 6]);
    assert_eq!(shape, [2, 3]);
    let (values, shape) = tensor_data(&s(7), "int64").unwrap();
    assert_eq!(values, [7]);
    assert_eq!(shape, [1]);
}

#[test]
fn ragged_empty_or_unconvertible_data_is_refused() {
    let ragged = list(vec![list(vec![s(1), s(2)]), list(vec![s(3)])]);
    let e = tensor_data(&ragged, "int64").unwrap_err();
    assert_eq!(e.kind, ArgErrorKind::Value);
    assert_eq!(e.message, "Tensor data is ragged: expected nested shape [2], got [1]");
    let e = tensor_data(&list(vec![]), "int64").unwrap_err();
    assert_eq!(e.message, "Tensor data cannot contain an empty list/tuple in v1");
    let e = tensor_data(&list(vec![s(1), NestedData::Scalar(None)]), "int64").unwrap_err();
    assert_eq!(e.kind, ArgErrorKind::Type);
    assert_eq!(e.message, "int64 Tensor data must contain compatible scalar values");
}

#[test]
fn laid_out_values_read_back_unchanged() {
    let values = [1i64, 2, 3, 4, 5, 6];
    let nested = nested_from_values(&values, &[3, 2]);
    let (back, shape) = tensor_data(&nested, "int64").unwrap();
    assert_eq!(back, values);
    assert_eq!(shape, [3, 2]);
    match nested_from_values::<i64>(&[], &[0, 4]) {
        NestedData::Sequence(items) => assert!(items.is_empty()),
        NestedData::Scalar(_) => panic!("expected a sequence"),
    }
}

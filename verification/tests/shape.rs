use tynx::shape::{
    advanced_index, axis_value, basic_index, check_gather_index, check_index_bounds, expand, flatten, index_list,
    normalize_axes, normalize_unique, permutation, reduction_dims, reduction_output_shape, repeat, reshape,
    slice_indices, squeeze, uniform_split, unsqueeze, AdvancedIndex, ArgErrorKind, IndexElement, IndexItem, IntBounds,
    ListIndexItem, SliceRange,
};

#[test]
fn reshape_infers_one_dimension() {
    assert_eq!(reshape(&[2, -1], 6).unwrap(), [2, 3]);
    assert_eq!(reshape(&[6], 6).unwrap(), [6]);
}

#[test]
fn reshape_refuses_bad_requests() {
    let e = reshape(&[], 6).unwrap_err();
    assert_eq!(e.kind, ArgErrorKind::Value);
    assert_eq!(e.message, "reshape requires at least one dimension because rank-zero tensors are not supported");
    assert_eq!(reshape(&[-1, -1], 6).unwrap_err().message, "reshape can infer at most one dimension with -1");
    assert_eq!(reshape(&[0, 2], 6).unwrap_err().message, "reshape dimensions must be positive or -1, got 0");
    assert_eq!(reshape(&[4, -1], 6).unwrap_err().message, "cannot reshape a tensor with 6 elements to shape [4, 1]");
    assert_eq!(reshape(&[4], 6).unwrap_err().message, "cannot reshape a tensor with 6 elements to shape [4]");
    assert_eq!(reshape(&[1, 1, 1, 1, 1, 1, 1], 1).unwrap_err().message, "reshape rank 7 exceeds the maximum rank 6");
}

#[test]
fn expand_broadcasts_size_one_axes() {
    assert_eq!(expand(&[3, -1, 4], &[1, 4]).unwrap(), [3, 1, 4]);
    assert_eq!(expand(&[2, 3], &[1, 3]).unwrap(), [2, 3]);
    assert_eq!(expand(&[3], &[2, 3]).unwrap_err().message, "expand shape has rank 1, but input rank is 2");
    assert_eq!(expand(&[-1, 3], &[3]).unwrap_err().message, "expand cannot use -1 for a new leading dimension");
    assert_eq!(expand(&[-2], &[3]).unwrap_err().message, "expand dimensions must be non-negative or -1, got -2");
    assert_eq!(expand(&[4], &[3]).unwrap_err().message, "cannot expand dimension of size 3 to 4");
}

#[test]
fn repeat_counts_cover_every_axis() {
    assert_eq!(repeat(&[2, 1, 3], 2).unwrap(), [2, 1, 3]);
    assert_eq!(repeat(&[2], 2).unwrap_err().message, "repeat has 1 counts for tensor rank 2");
    assert_eq!(repeat(&[-1, 2], 2).unwrap_err().message, "repeat counts must be non-negative integers, got -1");
}

#[test]
fn permutations_are_normalized_and_distinct() {
    assert_eq!(permutation(&[-1, 0], 2).unwrap(), [1, 0]);
    assert_eq!(permutation(&[0], 2).unwrap_err().message, "permutation has 1 dimensions for tensor rank 2");
    assert_eq!(permutation(&[0, 0], 2).unwrap_err().message, "permutation dimension 0 appears more than once");
    assert_eq!(permutation(&[0, 2], 2).unwrap_err().message, "permutation dimension 2 is out of range for tensor rank 2");
    assert_eq!(normalize_unique(&[-3], 3, "sum").unwrap(), [0]);
    assert_eq!(normalize_axes(&[-1, 1], 3, "flip").unwrap(), [2, 1]);
}

#[test]
fn axes_accept_negative_positions() {
    assert_eq!(axis_value(-1, 3, false, "softmax").unwrap(), 2);
    assert_eq!(axis_value(3, 3, true, "unsqueeze").unwrap(), 3);
    let e = axis_value(3, 3, false, "softmax").unwrap_err();
    assert_eq!(e.kind, ArgErrorKind::Value);
    assert_eq!(e.message, "softmax dimension 3 is out of range for tensor rank 3");
}

#[test]
fn flatten_merges_a_range_of_axes() {
    assert_eq!(flatten(&[2, 3, 4], 1, 2).unwrap(), [2, 12]);
    assert_eq!(flatten(&[2, 3, 4], 0, 0).unwrap(), [2, 3, 4]);
    assert_eq!(flatten(&[2, 3, 4], 2, 1).unwrap_err().message, "flatten start_dim 2 cannot come after end_dim 1");
}

#[test]
fn squeeze_and_unsqueeze_change_size_one_axes() {
    assert_eq!(squeeze(&[1, 3, 1], None), [3]);
    assert_eq!(squeeze(&[1, 3, 1], Some(2)), [1, 3]);
    assert_eq!(squeeze(&[1, 1], None), [1]);
    assert_eq!(unsqueeze(&[2, 3], 1).unwrap(), [2, 1, 3]);
    assert_eq!(
        unsqueeze(&[1, 1, 1, 1, 1, 1], 0).unwrap_err().message,
        "unsqueeze would exceed the maximum rank 6"
    );
}

#[test]
fn reductions_resolve_axes_and_output_shapes() {
    assert_eq!(reduction_dims(None, 3).unwrap(), [0, 1, 2]);
    assert_eq!(reduction_dims(Some(&[]), 2).unwrap(), [0, 1]);
    assert_eq!(reduction_dims(Some(&[-1]), 3).unwrap(), [2]);
    assert!(reduction_dims(Some(&[0, 0]), 3).is_err());
    assert_eq!(reduction_output_shape(&[2, 3, 4], &[1], false), [2, 4]);
    assert_eq!(reduction_output_shape(&[2, 3, 4], &[1], true), [2, 1, 4]);
    assert_eq!(reduction_output_shape(&[2, 3], &[0, 1], false), [1]);
}

#[test]
fn uniform_splits_cover_the_extent() {
    assert_eq!(uniform_split(2, 5).unwrap(), [2, 2, 1]);
    assert_eq!(uniform_split(5, 5).unwrap(), [5]);
    assert_eq!(uniform_split(3, 0).unwrap(), [0]);
    assert_eq!(uniform_split(0, 5).unwrap_err().message, "split size must be positive");
}

#[test]
fn index_lists_normalize_negative_positions() {
    let items = [ListIndexItem::Int(-1), ListIndexItem::Int(0)];
    assert_eq!(index_list(&items, 3).unwrap(), [2, 0]);
    let e = index_list(&[ListIndexItem::Int(3)], 3).unwrap_err();
    assert_eq!(e.kind, ArgErrorKind::Index);
    assert_eq!(e.message, "index 3 is out of bounds for dimension 0 with size 3");
    let e = index_list(&[ListIndexItem::NonInteger], 3).unwrap_err();
    assert_eq!(e.kind, ArgErrorKind::Type);
}

#[test]
fn index_bounds_are_checked_against_the_axis() {
    let bounds = IntBounds::from_values(&[2, -1, 0]);
    assert_eq!(bounds, IntBounds::Range { min: -1, max: 2 });
    assert_eq!(IntBounds::from_values(&[]), IntBounds::Empty);
    check_index_bounds(IntBounds::Empty, 0, 0, "gather").unwrap();
    check_index_bounds(IntBounds::Range { min: 0, max: 2 }, 3, 0, "gather").unwrap();
    assert!(check_index_bounds(IntBounds::Range { min: 0, max: 3 }, 3, 0, "gather").is_err());
    assert!(check_index_bounds(IntBounds::Range { min: -1, max: 0 }, 3, 0, "gather").is_err());
}

#[test]
fn gather_indices_must_fit_the_data() {
    check_gather_index(&[2, 3], &[4, 3], 0).unwrap();
    assert!(check_gather_index(&[2], &[4, 3], 0).is_err());
}

#[test]
fn slices_resolve_like_python() {
    assert_eq!(slice_indices(None, None, None, 5).unwrap(), (0, 5, 1, 5));
    assert_eq!(slice_indices(Some(1), Some(-1), Some(2), 5).unwrap(), (1, 4, 2, 2));
    assert_eq!(slice_indices(None, None, Some(-1), 3).unwrap(), (2, -1, -1, 3));
    assert!(slice_indices(None, None, Some(0), 3).is_err());
}

#[test]
fn basic_indices_produce_ranges_and_shapes() {
    let index = basic_index(&[IndexItem::Int(1)], &[3, 4]).unwrap();
    assert_eq!(index.output_shape, [4]);
    assert_eq!(index.slices[0], SliceRange { start: 1, end: Some(2), step: 1 });
    assert_eq!(index.slices[1], SliceRange { start: 0, end: None, step: 1 });

    let index = basic_index(&[IndexItem::Ellipsis, IndexItem::Slice { start: None, stop: Some(2), step: None }], &[3, 4]).unwrap();
    assert_eq!(index.output_shape, [3, 2]);

    let index = basic_index(&[IndexItem::Int(0), IndexItem::Int(-1)], &[3, 4]).unwrap();
    assert_eq!(index.output_shape, [1]);

    let e = basic_index(&[IndexItem::Ellipsis, IndexItem::Ellipsis], &[3]).unwrap_err();
    assert_eq!(e.message, "an index can only have a single ellipsis");
    let e = basic_index(&[IndexItem::Int(0), IndexItem::Int(0)], &[3]).unwrap_err();
    assert_eq!(e.message, "too many indices for tensor of dimension 1");
    let e = basic_index(&[IndexItem::Bool], &[3]).unwrap_err();
    assert_eq!(e.kind, ArgErrorKind::Type);
    let e = basic_index(&[IndexItem::Int(3)], &[3]).unwrap_err();
    assert_eq!(e.kind, ArgErrorKind::Index);
}

#[test]
fn tensor_indices_choose_positions_or_masks() {
    assert_eq!(advanced_index(IndexElement::Int, "I64", 1, 2, 4).unwrap(), AdvancedIndex::Positions);
    assert_eq!(advanced_index(IndexElement::Bool, "Bool", 1, 4, 4).unwrap(), AdvancedIndex::Mask);
    assert_eq!(
        advanced_index(IndexElement::Bool, "Bool", 1, 3, 4).unwrap_err().message,
        "boolean index length 3 does not match first dimension size 4"
    );
    assert_eq!(
        advanced_index(IndexElement::Int, "I64", 2, 2, 4).unwrap_err().message,
        "only one-dimensional integer tensor indices are supported, got rank 2"
    );
    assert_eq!(
        advanced_index(IndexElement::Float, "F32", 1, 2, 4).unwrap_err().message,
        "advanced tensor indices must have int64 or bool dtype, got F32"
    );
}

use tynx::sampling::{
    categorical_sample_shape, check_grid_sample_autograd, grid_sample_inference_only, grid_sample_mode,
    grid_sample_padding_mode, GridSampleMode, GridSamplePaddingMode,
};

#[test]
fn grid_sample_options_are_read_by_name() {
    assert_eq!(grid_sample_mode("bilinear"), Ok(GridSampleMode::Bilinear));
    assert_eq!(grid_sample_mode("nearest"), Ok(GridSampleMode::Nearest));
    assert_eq!(grid_sample_mode("bicubic"), Ok(GridSampleMode::Bicubic));
    assert_eq!(
        grid_sample_mode("linear").unwrap_err(),
        "grid_sample mode must be 'bilinear', 'nearest', or 'bicubic', got \"linear\""
    );
    assert_eq!(grid_sample_padding_mode("zeros"), Ok(GridSamplePaddingMode::Zeros));
    assert_eq!(grid_sample_padding_mode("border"), Ok(GridSamplePaddingMode::Border));
    assert_eq!(grid_sample_padding_mode("reflection"), Ok(GridSamplePaddingMode::Reflection));
    assert_eq!(
        grid_sample_padding_mode("wrap").unwrap_err(),
        "grid_sample padding_mode must be 'zeros', 'border', or 'reflection', got \"wrap\""
    );
}

#[test]
fn only_rank_four_bilinear_sampling_keeps_gradients() {
    assert!(!grid_sample_inference_only(4, GridSampleMode::Bilinear));
    assert!(grid_sample_inference_only(5, GridSampleMode::Bilinear));
    assert!(grid_sample_inference_only(4, GridSampleMode::Nearest));
    assert_eq!(
        check_grid_sample_autograd(true, true, true).unwrap_err(),
        "grid_sample autograd currently supports only rank-4 bilinear mode; use tynx.no_grad() for nearest, bicubic, or rank-5 sampling"
    );
    assert!(check_grid_sample_autograd(false, true, true).is_ok());
    assert!(check_grid_sample_autograd(true, false, true).is_ok());
    assert!(check_grid_sample_autograd(true, true, false).is_ok());
}

#[test]
fn categorical_samples_drop_the_category_dimension() {
    assert_eq!(categorical_sample_shape(&[2, 3, 5]).unwrap(), [2, 3]);
    assert_eq!(categorical_sample_shape(&[4]).unwrap(), [1]);
    assert_eq!(categorical_sample_shape(&[]).unwrap_err(), "Categorical logits must have at least one dimension");
    assert_eq!(
        categorical_sample_shape(&[3, 0]).unwrap_err(),
        "Categorical logits must contain at least one category"
    );
}

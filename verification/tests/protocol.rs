use tynx::graph::DType;
use tynx::parameter::{DeviceInfo, ParamIdSource, ParameterSlot, TensorInfo};
use tynx::protocol::{
    batch_for_step, cache_policy, check_warmup_bounds, decode_hex, input_code, lower_hex_string, measurement_blocks,
    model_sha256, reported_sets, require_release, seeded_code, select_training_cases, target_is_label,
    validate_initial_state, validate_sets, validate_state, CaseSpec, ReportedSets, SyncPolicy, TrainingCase,
    TrainingMode, INPUT_FEATURES, OUTPUT_FEATURES,
};
use tynx::protocol::{check_case_inputs, training_state_name, warmup_advance, warmup_windows, WarmupProgress};
use tynx::store::ParameterStore;

fn spec(id: &str, batch_size: usize, iterations: usize) -> CaseSpec {
    CaseSpec {
        id: id.to_string(),
        batch_size,
        dataset_batches: 4,
        iterations,
        reset_interval: 8,
        estimated_step_flops: 9_990_832_128,
    }
}

fn names(list: &[&str]) -> Vec<String> {
    list.iter().map(|s| s.to_string()).collect()
}

fn case() -> TrainingCase {
    select_training_cases(1, vec![spec("mlp", 64, 20)], None, None).unwrap().remove(0)
}

fn trained_state(gradients: &[&str], updated: usize) -> ReportedSets {
    ReportedSets {
        trainable: names(&["gemm1.bias", "gemm1.weight", "gemm2.bias", "gemm2.weight"]),
        frozen: Vec::new(),
        gradients: names(gradients),
        updated_parameters: updated,
    }
}

#[test]
fn decodes_trimmed_hex() {
    assert_eq!(decode_hex("  0aFf\n").unwrap(), [0x0a, 0xff]);
    assert_eq!(decode_hex("").unwrap(), Vec::<u8>::new());
    assert_eq!(decode_hex("+f").unwrap(), [0x0f]);
    assert_eq!(decode_hex("abc").unwrap_err(), "hex model has an odd number of characters");
    assert_eq!(decode_hex("zz").unwrap_err(), "invalid digit found in string");
}

#[test]
fn release_builds_are_required() {
    require_release(false).unwrap();
    assert_eq!(require_release(true).unwrap_err(), "benchmarks must be run with --release");
}

#[test]
fn training_modes_and_sync_policies_parse_settings() {
    assert_eq!(TrainingMode::from_setting(None).unwrap(), TrainingMode::TrainStep);
    assert_eq!(TrainingMode::from_setting(Some("forward_loss")).unwrap(), TrainingMode::ForwardLoss);
    assert_eq!(
        TrainingMode::from_setting(Some("fast")).unwrap_err(),
        "TYNX_BENCH_TRAINING_MODE must be forward_loss, forward_backward, or train_step; got 'fast'"
    );
    assert!(TrainingMode::ForwardBackward.expects_gradients());
    assert!(!TrainingMode::ForwardBackward.expects_updates());
    assert!(!TrainingMode::ForwardLoss.expects_gradients());
    assert!(TrainingMode::TrainStep.expects_updates());
    assert_eq!(SyncPolicy::from_setting(None).unwrap(), SyncPolicy::EachStep);
    assert_eq!(SyncPolicy::from_setting(Some("final_only")).unwrap(), SyncPolicy::FinalOnly);
    assert!(SyncPolicy::from_setting(Some("never")).is_err());
}

#[test]
fn cache_policy_defaults_depend_on_the_backend() {
    let policy = cache_policy(None, None, "flex");
    assert_eq!(policy.process, "fresh_process");
    assert_eq!(policy.autotune, "not_applicable");
    let policy = cache_policy(Some("warm".to_string()), None, "wgpu");
    assert_eq!(policy.process, "warm");
    assert_eq!(policy.autotune, "unknown");
}

#[test]
fn selects_requested_cases_with_overrides() {
    let specs = vec![spec("small", 16, 10), spec("mlp", 64, 20)];
    let cases = select_training_cases(1, specs.clone(), None, None).unwrap();
    assert_eq!(cases.len(), 2);
    assert_eq!(cases[1].batch_size, 64);
    assert_eq!(cases[1].estimated_step_flops, 9_990_832_128);
    assert_eq!(cases[0].expected_trainable, ["gemm1.bias", "gemm1.weight", "gemm2.bias", "gemm2.weight"]);
    assert!(cases[0].expected_frozen.is_empty());

    let cases = select_training_cases(1, specs.clone(), Some("mlp".to_string()), Some(3)).unwrap();
    assert_eq!(cases.len(), 1);
    assert_eq!(cases[0].id, "mlp");
    assert_eq!(cases[0].iterations, 3);

    assert_eq!(
        select_training_cases(1, specs.clone(), Some("missing".to_string()), None).unwrap_err(),
        "unknown training benchmark case 'missing'"
    );
    assert_eq!(
        select_training_cases(2, specs.clone(), None, None).unwrap_err(),
        "unsupported training benchmark registry schema 2"
    );
    assert_eq!(
        select_training_cases(1, specs, None, Some(0)).unwrap_err(),
        "training iterations, dataset batches, and reset interval must be positive"
    );
    assert_eq!(select_training_cases(1, Vec::new(), Some(String::new()), None).unwrap_err(), "unknown training benchmark case ''");
}

#[test]
fn deterministic_codes_are_stationary_and_distinct() {
    let first: Vec<usize> = (0..64 * INPUT_FEATURES).map(|i| input_code(i, 0)).collect();
    let repeated: Vec<usize> = (0..64 * INPUT_FEATURES).map(|i| input_code(i, 0)).collect();
    let next: Vec<usize> = (0..64 * INPUT_FEATURES).map(|i| input_code(i, 1)).collect();
    assert_eq!(first, repeated);
    assert_ne!(first, next);
    assert_eq!(input_code(0, 1), 37);
    assert_eq!(input_code(300, 0), 43);
    let labels = (0..64 * OUTPUT_FEATURES).filter(|i| target_is_label(*i, 0)).count();
    assert_eq!(labels, 64);
    assert!(target_is_label(0, 0));
    assert!(target_is_label(3, 1));
    assert!(!target_is_label(13, 1));
    assert_eq!(seeded_code(0, 3), 21);
    assert_eq!(seeded_code(10, 3), 51);
}

#[test]
fn digests_print_as_lowercase_hex() {
    assert_eq!(lower_hex_string(&[0x00, 0xab, 0x7f]), "00ab7f");
    assert_eq!(model_sha256(b""), "e3b0c44298fc1c149afbf4c8996fb92427ae41e4649b934ca495991b7852b855");
    assert_eq!(model_sha256(b"abc"), "ba7816bf8f01cfea414140de5dae2223b00361a396177a9cb410ff61f20015ad");
    assert_eq!(model_sha256(&[1, 2, 3]).len(), 64);
}

#[test]
fn measurement_blocks_cover_the_iterations() {
    assert_eq!(measurement_blocks(20, 8), [8, 8, 4]);
    assert_eq!(measurement_blocks(8, 8), [8]);
    assert!(measurement_blocks(0, 8).is_empty());
    assert_eq!(measurement_blocks(20, 8).iter().sum::<usize>(), 20);
    assert_eq!(batch_for_step(9, 4), 1);
}

#[test]
fn warmup_bounds_need_two_windows() {
    check_warmup_bounds(20, 40).unwrap();
    assert!(check_warmup_bounds(19, 40).is_err());
    assert_eq!(
        check_warmup_bounds(30, 20).unwrap_err(),
        "warmup maximum must be >= minimum and minimum must span two windows"
    );
}

#[test]
fn state_checks_follow_the_mode() {
    let case = case();
    let initial = trained_state(&[], 0);
    validate_initial_state(&case, &initial, true).unwrap();
    assert_eq!(
        validate_initial_state(&case, &initial, false).unwrap_err(),
        "initial training state has gradients, updates, or non-finite values"
    );

    let after_step = trained_state(&["gemm1.bias", "gemm1.weight", "gemm2.bias", "gemm2.weight"], 4);
    validate_state(&case, TrainingMode::TrainStep, &after_step, true, true).unwrap();
    assert_eq!(
        validate_state(&case, TrainingMode::TrainStep, &after_step, true, false).unwrap_err(),
        "training state contains a non-finite parameter or loss"
    );
    let backward_only = trained_state(&["gemm1.bias", "gemm1.weight", "gemm2.bias", "gemm2.weight"], 0);
    validate_state(&case, TrainingMode::ForwardBackward, &backward_only, true, true).unwrap();
    assert_eq!(
        validate_state(&case, TrainingMode::TrainStep, &backward_only, true, true).unwrap_err(),
        "updated 0 parameters, expected 4"
    );
    assert_eq!(
        validate_state(&case, TrainingMode::ForwardLoss, &backward_only, true, true).unwrap_err(),
        "gradient set [\"gemm1.bias\", \"gemm1.weight\", \"gemm2.bias\", \"gemm2.weight\"] differs from expected []"
    );
}

#[test]
fn mismatched_sets_are_reported_in_debug_form() {
    let case = case();
    let state = ReportedSets { trainable: names(&["w"]), frozen: names(&["b"]), gradients: Vec::new(), updated_parameters: 0 };
    assert_eq!(
        validate_sets(&case, &state).unwrap_err(),
        "parameter sets trainable=[\"w\"], frozen=[\"b\"]; expected trainable=[\"gemm1.bias\", \"gemm1.weight\", \"gemm2.bias\", \"gemm2.weight\"], frozen=[]"
    );
}

#[test]
fn reported_sets_are_sorted_names_of_the_store() {
    let device = DeviceInfo { name: "Cpu".to_string(), autodiff: true };
    let value = TensorInfo { shape: vec![2], dtype: DType::F32, device: device.clone() };
    let mut ids = ParamIdSource::new();
    let mut store = ParameterStore::new();
    let mut weight = ParameterSlot::new(&mut ids, None, &value, true).unwrap();
    weight.read();
    weight.accumulate_from(Some(&value)).unwrap();
    store.insert("z.weight".to_string(), weight).unwrap();
    store.insert("a.bias".to_string(), ParameterSlot::new(&mut ids, None, &value, true).unwrap()).unwrap();
    store.insert("m.mean".to_string(), ParameterSlot::new(&mut ids, None, &value, false).unwrap()).unwrap();

    let sets = reported_sets(&store, 3);
    assert_eq!(sets.trainable, ["a.bias", "z.weight"]);
    assert_eq!(sets.frozen, ["m.mean"]);
    assert_eq!(sets.gradients, ["z.weight"]);
    assert_eq!(sets.updated_parameters, 3);
}

#[test]
fn warmup_windows_wait_for_enough_samples() {
    assert_eq!(warmup_windows(19, 20), None);
    assert_eq!(warmup_windows(20, 25), None);
    assert_eq!(warmup_windows(25, 20), Some((5, 15)));
    assert_eq!(warmup_windows(20, 20), Some((0, 10)));
}

#[test]
fn warmup_converges_after_three_consecutive_stable_windows() {
    let mut progress = WarmupProgress { samples: 0, stable_windows: 0, converged: false };
    for _ in 0..19 {
        progress = warmup_advance(progress, 20, true);
    }
    assert_eq!(progress, WarmupProgress { samples: 19, stable_windows: 0, converged: false });
    progress = warmup_advance(progress, 20, true);
    progress = warmup_advance(progress, 20, true);
    assert_eq!(progress.stable_windows, 2);
    progress = warmup_advance(progress, 20, false);
    assert_eq!(progress, WarmupProgress { samples: 22, stable_windows: 0, converged: false });
    for _ in 0..2 {
        progress = warmup_advance(progress, 20, true);
    }
    assert!(!progress.converged);
    progress = warmup_advance(progress, 20, true);
    assert_eq!(progress, WarmupProgress { samples: 25, stable_windows: 3, converged: true });
}

fn strings(list: &[&str]) -> Vec<String> {
    list.iter().map(|s| s.to_string()).collect()
}

#[test]
fn case_inputs_must_match_the_model_inputs() {
    assert!(check_case_inputs(&strings(&["x", "mask"]), &strings(&["x", "mask"]), "mlp").is_ok());
    assert_eq!(
        check_case_inputs(&strings(&["x", "mask"]), &strings(&["x"]), "mlp").unwrap_err(),
        "model requires 2 inputs, case 'mlp' provides 1"
    );
    assert_eq!(
        check_case_inputs(&strings(&["x", "mask"]), &strings(&["y", "z"]), "mlp").unwrap_err(),
        "model input 'x' does not match case input 'y'"
    );
}

#[test]
fn trainable_initializers_are_named_after_their_consumer() {
    assert_eq!(training_state_name(Some(("gemm1", 1))).unwrap(), "gemm1.weight");
    assert_eq!(training_state_name(Some(("gemm2", 2))).unwrap(), "gemm2.bias");
    assert_eq!(training_state_name(Some(("gemm2", 0))).unwrap_err(), "unexpected trainable input index 0");
    assert_eq!(training_state_name(None).unwrap_err(), "trainable initializer had no consumer");
}

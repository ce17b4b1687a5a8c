use tynx::error::TynxError;
use tynx::text::{
    clone_strings, contains_text, debug_list_string, debug_str_string, filter_sorted, i64_text, insert_sorted,
    isize_text, join_strings, str_eq, str_is_blank, str_lt, u64_text, union_into, usize_list_string, usize_text,
};

fn names(list: &[&str]) -> Vec<String> {
    list.iter().map(|s| s.to_string()).collect()
}

#[test]
fn numbers_print_in_decimal() {
    assert_eq!(usize_text(0), "0");
    assert_eq!(usize_text(1234), "1234");
    assert_eq!(u64_text(u64::MAX), "18446744073709551615");
    assert_eq!(i64_text(-42), "-42");
    assert_eq!(i64_text(i64::MIN), "-9223372036854775808");
    assert_eq!(isize_text(-7), "-7");
    assert_eq!(usize_list_string(&[2, 3]), "[2, 3]");
    assert_eq!(usize_list_string(&[]), "[]");
}

#[test]
fn text_comparisons_follow_code_points() {
    assert!(str_lt("a", "b"));
    assert!(str_lt("ab", "abc"));
    assert!(!str_lt("b", "a"));
    assert!(!str_lt("a", "a"));
    assert!(str_eq("x", "x"));
    assert!(str_is_blank(" \t\n"));
    assert!(!str_is_blank(" a "));
}

#[test]
fn sorted_name_lists_stay_sorted_and_unique() {
    let mut v = names(&["b", "d"]);
    insert_sorted(&mut v, "c".to_string());
    insert_sorted(&mut v, "a".to_string());
    insert_sorted(&mut v, "c".to_string());
    assert_eq!(v, ["a", "b", "c", "d"]);
    let mut u = names(&["a", "c"]);
    union_into(&mut u, &names(&["b", "c", "e"]));
    assert_eq!(u, ["a", "b", "c", "e"]);
    assert_eq!(filter_sorted(&names(&["a", "b", "c"]), &names(&["b"]), false), ["a", "c"]);
    assert_eq!(filter_sorted(&names(&["a", "b", "c"]), &names(&["b"]), true), ["b"]);
    assert!(contains_text(&v, "d"));
    assert!(!contains_text(&v, "z"));
    assert_eq!(clone_strings(&v), v);
}

#[test]
fn lists_join_and_print_in_debug_form() {
    assert_eq!(join_strings(&names(&["a", "b"]), ", "), "a, b");
    assert_eq!(join_strings(&names(&[]), ", "), "");
    assert_eq!(debug_str_string("a\"b"), "\"a\\\"b\"");
    assert_eq!(debug_list_string(&names(&["x", "y"])), "[\"x\", \"y\"]");
}

#[test]
fn device_mismatch_messages_name_both_devices() {
    let error = TynxError::DeviceMismatch { name: "x".to_string(), expected: "Cpu".to_string(), actual: "Gpu".to_string() };
    assert_eq!(error.message(), "device mismatch for 'x': expected Cpu, got Gpu");
    assert_eq!(TynxError::Shape("bad".to_string()).message(), "bad");
}

use bulge::util::macros::{continue_answer, get_root, string_to_vec, vec_to_string};
use bulge::util::text::{
    bool_to_string, i32_to_string, join_strings, split_string, str_contains, u128_to_string,
};

fn strings(v: &[&str]) -> Vec<String> {
    v.iter().map(|s| s.to_string()).collect()
}

#[test]
fn vec_to_string_joins_with_commas() {
    assert_eq!(vec_to_string(strings(&["a", "b", "c"])), "a,b,c");
    assert_eq!(vec_to_string(strings(&["only"])), "only");
    assert_eq!(vec_to_string(Vec::new()), "");
}

#[test]
fn string_to_vec_splits_at_commas() {
    assert_eq!(string_to_vec("a,b,c".to_string()), strings(&["a", "b", "c"]));
    assert_eq!(string_to_vec("".to_string()), strings(&[""]));
    assert_eq!(string_to_vec("a,,b,".to_string()), strings(&["a", "", "b", ""]));
}

#[test]
fn string_to_vec_then_vec_to_string_gives_the_text_back() {
    for text in ["", "x", "a,b", ",,", "core,extra,community"] {
        assert_eq!(vec_to_string(string_to_vec(text.to_string())), text);
    }
}

#[test]
fn vec_to_string_then_string_to_vec_gives_the_list_back() {
    let v = strings(&["bulge", "rust", "cargo"]);
    assert_eq!(string_to_vec(vec_to_string(v.clone())), v);
    let single_empty = strings(&[""]);
    assert_eq!(string_to_vec(vec_to_string(single_empty.clone())), single_empty);
}

#[test]
fn split_and_join_agree_with_std() {
    let text = "one.two..three";
    let expected: Vec<String> = text.split('.').map(|s| s.to_string()).collect();
    assert_eq!(split_string(text, '.'), expected);
    assert_eq!(join_strings(&expected, '.'), text);
}

#[test]
fn substring_search() {
    assert!(str_contains("core,extra", "extra"));
    assert!(str_contains("abc", ""));
    assert!(!str_contains("core", "cores"));
}

#[test]
fn numbers_and_booleans_as_text() {
    assert_eq!(i32_to_string(0), "0");
    assert_eq!(i32_to_string(42), "42");
    assert_eq!(i32_to_string(-7), "-7");
    assert_eq!(i32_to_string(i32::MIN), i32::MIN.to_string());
    assert_eq!(u128_to_string(1_650_000_000_123), "1650000000123");
    assert_eq!(u128_to_string(u128::MAX), u128::MAX.to_string());
    assert_eq!(bool_to_string(true), "true");
    assert_eq!(bool_to_string(false), "false");
}

#[test]
fn continue_prompt_answers() {
    assert!(continue_answer("y"));
    assert!(continue_answer("Y\n"));
    assert!(continue_answer("  y  "));
    assert!(!continue_answer("yes"));
    assert!(!continue_answer("n"));
    assert!(!continue_answer(""));
}

#[test]
fn install_root_defaults_to_empty() {
    assert_eq!(get_root(None), "");
    assert_eq!(get_root(Some("/mnt/target".to_string())), "/mnt/target");
}

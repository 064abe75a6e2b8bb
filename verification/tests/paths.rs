use ml_core::{push_component, test_csv};

#[test]
fn test_csv_is_in_the_data_directory() {
    assert_eq!(test_csv("/work/ml_core"), "/work/ml_core/data/balanced_urls.csv");
}

#[test]
fn test_csv_with_trailing_separator() {
    assert_eq!(test_csv("/work/ml_core/"), "/work/ml_core/data/balanced_urls.csv");
}

#[test]
fn test_csv_from_empty_directory() {
    assert_eq!(test_csv(""), "data/balanced_urls.csv");
}

#[test]
fn push_component_adds_one_separator() {
    let mut p = String::from("a");
    push_component(&mut p, "b");
    assert_eq!(p, "a/b");
    push_component(&mut p, "c.txt");
    assert_eq!(p, "a/b/c.txt");
    let mut root = String::from("/");
    push_component(&mut root, "x");
    assert_eq!(root, "/x");
}

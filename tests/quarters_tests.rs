use daliatrac::quarters::{available_quarters, split_list};

#[test]
fn split_list_cuts_at_comma_space() {
    assert_eq!(split_list("a, b,c, "), vec!["a".to_string(), "b,c".to_string(), "".to_string()]);
    assert_eq!(split_list(""), vec!["".to_string()]);
    assert_eq!(split_list("a, , b"), vec!["a".to_string(), "".to_string(), "b".to_string()]);
    assert_eq!(split_list(",, "), vec![",".to_string(), "".to_string()]);
}

#[test]
fn quarters_are_filtered_and_sorted() {
    assert_eq!(
        available_quarters("4T_2023, 1T_2024, 2T_2024"),
        vec!["1T_2024".to_string(), "2T_2024".to_string(), "4T_2023".to_string()]
    );
    assert_eq!(available_quarters("4T_2023, , anual, 1T_2025, 1T_2025"), vec!["1T_2025".to_string(), "1T_2025".to_string(), "4T_2023".to_string()]);
    assert!(available_quarters("").is_empty());
}

use fast42::decimal::to_decimal;
use fast42::{
    format_options, format_options_from_map, get_options_string_and_page_size,
    page_size_is_ignored, HttpOption,
};

fn pair(key: &str, value: &str) -> (String, String) {
    (key.to_string(), value.to_string())
}

#[test]
fn test_format_options_none() {
    let options = format_options(vec![]);
    assert_eq!(options, "");
}

#[test]
fn test_format_options_one() {
    let options = format_options(vec![HttpOption::new("key", "value")]);
    assert_eq!(options, "?key=value");
}

#[test]
fn test_format_options_multiple() {
    let options = format_options(vec![
        HttpOption::new("key", "value"),
        HttpOption::new("key2", "value2"),
    ]);
    assert_eq!(options, "?key=value&key2=value2");
}

#[test]
fn options_are_made_of_strings_too() {
    let option = HttpOption::new("key".to_string(), "value".to_string());
    let copy = option.clone();
    assert_eq!(format_options(vec![option]), "?key=value");
    assert_eq!(format_options(vec![copy]), "?key=value");
}

#[test]
fn repeated_keys_stay_in_a_plain_query() {
    let options = format_options(vec![HttpOption::new("id", "1"), HttpOption::new("id", "2")]);
    assert_eq!(options, "?id=1&id=2");
}

#[test]
fn entries_are_formatted_in_their_order() {
    assert_eq!(format_options_from_map(vec![]), "");
    assert_eq!(
        format_options_from_map(vec![pair("b", "1"), pair("a", "2"), pair("c", "")]),
        "?b=1&a=2&c="
    );
}

#[test]
fn page_size_is_one_hundred_by_default() {
    let (options, page_size) = get_options_string_and_page_size(vec![]);
    assert_eq!(options, "?page[size]=100");
    assert_eq!(page_size, 100);
}

#[test]
fn given_page_size_replaces_the_default() {
    let (options, page_size) = get_options_string_and_page_size(vec![
        HttpOption::new("campus_id", "14"),
        HttpOption::new("page[size]", "30"),
    ]);
    assert_eq!(options, "?page[size]=30&campus_id=14");
    assert_eq!(page_size, 30);
}

#[test]
fn last_value_of_a_key_wins() {
    let (options, page_size) = get_options_string_and_page_size(vec![
        HttpOption::new("page[size]", "30"),
        HttpOption::new("sort", "id"),
        HttpOption::new("page[size]", "50"),
        HttpOption::new("sort", "login"),
    ]);
    assert_eq!(options, "?page[size]=50&sort=login");
    assert_eq!(page_size, 50);
}

#[test]
fn page_size_that_is_no_number_is_ignored() {
    for text in ["", "many", "+", "++5", "-5", " 5", "5 ", "1_0", "4294967296", "\u{0665}"] {
        let (options, page_size) =
            get_options_string_and_page_size(vec![HttpOption::new("page[size]", text)]);
        assert_eq!(options, format!("?page[size]={}", text));
        assert_eq!(page_size, 100);
    }
}

#[test]
fn page_size_is_read_as_a_number() {
    for (text, number) in [("+5", 5), ("007", 7), ("0", 0), ("4294967295", 4294967295)] {
        let (_, page_size) =
            get_options_string_and_page_size(vec![HttpOption::new("page[size]", text)]);
        assert_eq!(page_size, number);
    }
}

#[test]
fn written_numbers_read_back() {
    for (number, text) in [
        (0, "0"),
        (9, "9"),
        (10, "10"),
        (123456780, "123456780"),
        (4294967295, "4294967295"),
    ] {
        assert_eq!(to_decimal(number), text);
        let size = HttpOption::new("page[size]".to_string(), to_decimal(number));
        assert_eq!(get_options_string_and_page_size(vec![size]).1, number);
    }
}

#[test]
fn ignored_page_size_is_noticed() {
    assert!(!page_size_is_ignored(&vec![]));
    assert!(!page_size_is_ignored(&vec![HttpOption::new("sort", "id")]));
    assert!(!page_size_is_ignored(&vec![HttpOption::new("page[size]", "30")]));
    assert!(page_size_is_ignored(&vec![
        HttpOption::new("page[size]", "many"),
        HttpOption::new("sort", "id"),
    ]));
    assert!(!page_size_is_ignored(&vec![
        HttpOption::new("page[size]", "many"),
        HttpOption::new("page[size]", "30"),
    ]));
    assert!(page_size_is_ignored(&vec![
        HttpOption::new("page[size]", "30"),
        HttpOption::new("page[size]", "many"),
    ]));
}

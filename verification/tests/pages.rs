use fast42::{
    after_first_page, collect_pages, first_page_total, parse_total, read_total, total_header,
    Fast42, FirstPageError, HttpOption, PagedEndpoint, SecretString, TotalError,
};
use reqwest::header::{HeaderMap, HeaderValue};

fn paged(options: Vec<HttpOption>) -> PagedEndpoint {
    let secret = SecretString::new("SECRET".to_owned());
    Fast42::new("UID", &secret, 1400, 8, "public").get_all_pages("/users", options)
}

fn value(bytes: &[u8]) -> HeaderValue {
    HeaderValue::from_bytes(bytes).unwrap()
}

#[test]
fn pages_have_their_queries() {
    let paged = paged(vec![]);
    assert_eq!(paged.page_size, 100);
    assert_eq!(paged.page(1), "/users?page[size]=100&page[number]=1");
    assert_eq!(
        paged.other_pages(3),
        vec!["/users?page[size]=100&page[number]=2", "/users?page[size]=100&page[number]=3"]
    );
    assert!(paged.other_pages(1).is_empty());
    assert!(paged.other_pages(0).is_empty());
}

#[test]
fn pages_keep_the_options() {
    let paged = paged(vec![
        HttpOption::new("campus_id", "14"),
        HttpOption::new("page[size]", "30"),
    ]);
    assert_eq!(paged.page_size, 30);
    assert_eq!(paged.page(12), "/users?page[size]=30&campus_id=14&page[number]=12");
}

fn sized(page_size: u32) -> PagedEndpoint {
    PagedEndpoint { endpoint: "/users".to_string(), options: String::new(), page_size }
}

#[test]
fn all_items_are_counted() {
    assert_eq!(sized(100).page_count(300), 3);
    assert_eq!(sized(100).page_count(301), 4);
    assert_eq!(sized(100).page_count(299), 3);
    assert_eq!(sized(100).page_count(1), 1);
    assert_eq!(sized(100).page_count(0), 0);
    assert_eq!(sized(1).page_count(4294967295), 4294967295);
    assert_eq!(sized(2).page_count(4294967295), 2147483648);
    assert_eq!(sized(4294967295).page_count(4294967295), 1);
}

#[test]
fn totals_are_read_as_numbers() {
    assert_eq!(parse_total("300"), Ok(300));
    assert_eq!(parse_total("+0300"), Ok(300));
    assert_eq!(
        parse_total("").unwrap_err().to_string(),
        "cannot parse integer from empty string"
    );
    assert_eq!(parse_total("3x").unwrap_err().to_string(), "invalid digit found in string");
    assert_eq!(
        parse_total("4294967296").unwrap_err().to_string(),
        "number too large to fit in target type"
    );
}

#[test]
fn total_is_read_from_its_header() {
    let mut headers = HeaderMap::new();
    assert!(total_header(&headers).is_none());
    headers.insert("x-page", value(b"1"));
    assert!(total_header(&headers).is_none());
    headers.insert("X-Total", value(b"250"));
    headers.append("x-total", value(b"900"));
    let total = total_header(&headers).unwrap();
    assert_eq!(total, "250");
    assert_eq!(read_total(total).unwrap(), 250);
    assert_eq!(paged(vec![]).page_count(250), 3);
}

#[test]
fn total_that_is_no_text_is_an_error() {
    match read_total(&value(b"3\xff0")) {
        Err(TotalError::NotText(error)) => {
            assert_eq!(error.to_string(), "failed to convert header to a str")
        }
        other => panic!("{:?}", other),
    }
}

#[test]
fn total_that_is_no_number_is_an_error() {
    for text in ["", "many", "3\t0", "-1", "3.0"] {
        match read_total(&value(text.as_bytes())) {
            Err(TotalError::NotNumber(_)) => {}
            other => panic!("{:?}", other),
        }
    }
}

#[test]
fn pages_come_in_order() {
    let all: Result<Vec<u32>, &str> = collect_pages(3, 1, Ok(vec![2, 3]));
    assert_eq!(all, Ok(vec![1, 2, 3]));
    let none: Result<Vec<u32>, &str> = collect_pages(0, 1, Ok(vec![]));
    assert_eq!(none, Ok(vec![]));
}

#[test]
fn one_failed_page_fails_them_all() {
    let all: Result<Vec<u32>, &str> = collect_pages(3, 1, Err("offline"));
    assert_eq!(all, Err("offline"));
}

#[test]
fn every_item_is_on_a_page() {
    let size: u32 = 30;
    let count = sized(size).page_count(91);
    assert_eq!(count, 4);
    for item in 0..91 {
        assert!(item / size + 1 <= count);
    }
    assert!((count - 1) * size < 91);
}

#[test]
fn first_page_tells_of_the_others() {
    let mut headers = HeaderMap::new();
    headers.insert("x-total", value(b"250"));
    let (count, others) = after_first_page(&paged(vec![]), &headers).unwrap();
    assert_eq!(count, 3);
    assert_eq!(
        others,
        vec!["/users?page[size]=100&page[number]=2", "/users?page[size]=100&page[number]=3"]
    );
    headers.insert("x-total", value(b"0"));
    let (count, others) = after_first_page(&paged(vec![]), &headers).unwrap();
    assert_eq!(count, 0);
    assert!(others.is_empty());
}

#[test]
fn first_page_without_a_total_is_an_error() {
    let headers = HeaderMap::new();
    assert!(matches!(first_page_total(&headers), Err(FirstPageError::Missing)));
    assert!(matches!(after_first_page(&paged(vec![]), &headers), Err(FirstPageError::Missing)));
}

#[test]
fn first_page_with_an_unreadable_total_is_an_error() {
    let mut headers = HeaderMap::new();
    headers.insert("x-total", value(b"many"));
    assert!(matches!(
        after_first_page(&paged(vec![]), &headers),
        Err(FirstPageError::Unreadable(TotalError::NotNumber(_)))
    ));
    headers.insert("x-total", value(b"\xff"));
    assert!(matches!(
        first_page_total(&headers),
        Err(FirstPageError::Unreadable(TotalError::NotText(_)))
    ));
}

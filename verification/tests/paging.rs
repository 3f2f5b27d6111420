use gdvm::pager::{PageError, Pager, PAGE_SIZE};
use serde_json::Value;

fn page_of(count: usize, first: usize) -> Vec<Value> {
    (first..first + count).map(|i| Value::from(i as u64)).collect()
}

fn body_of(count: usize) -> Vec<u8> {
    serde_json::to_vec(&page_of(count, 0)).unwrap()
}

fn walk(sizes: &[usize]) -> (usize, Vec<Value>) {
    let mut pager = Pager::new();
    let mut requests = 0;
    while let Some(page) = pager.next_page() {
        assert_eq!(page, requests as u64 + 1);
        pager.accept(page_of(sizes[requests], requests * PAGE_SIZE));
        requests += 1;
    }
    (requests, pager.into_records())
}

#[test]
fn a_new_walk_asks_for_page_one() {
    let pager = Pager::new();
    assert_eq!(pager.next_page(), Some(1));
    assert!(!pager.is_done());
    assert_eq!(pager.count(), 0);
    assert_eq!(PAGE_SIZE, 100);
}

#[test]
fn a_short_page_ends_the_walk() {
    let (requests, records) = walk(&[100, 100, 47]);
    assert_eq!(requests, 3);
    assert_eq!(records.len(), 247);
    assert_eq!(records, page_of(247, 0));
}

#[test]
fn full_pages_are_followed_by_an_empty_one() {
    let (requests, records) = walk(&[100, 100, 100, 0]);
    assert_eq!(requests, 4);
    assert_eq!(records.len(), 300);
}

#[test]
fn an_empty_first_page_ends_the_walk() {
    let (requests, records) = walk(&[0]);
    assert_eq!(requests, 1);
    assert!(records.is_empty());
}

#[test]
fn a_page_of_ninety_nine_is_the_last() {
    let mut pager = Pager::new();
    pager.accept(page_of(99, 0));
    assert!(pager.is_done());
    assert_eq!(pager.next_page(), None);
    assert_eq!(pager.count(), 99);
}

#[test]
fn a_page_of_a_hundred_is_not_the_last() {
    let mut pager = Pager::new();
    pager.accept(page_of(100, 0));
    assert!(!pager.is_done());
    assert_eq!(pager.next_page(), Some(2));
    assert_eq!(pager.count(), 100);
}

#[test]
fn a_page_is_read_from_a_document() {
    let document: Value = serde_json::from_str(r#"[{"tag_name": "1"}, 2, "three"]"#).unwrap();
    let mut pager = Pager::new();
    pager.accept_document(&document);
    assert!(pager.is_done());
    assert_eq!(pager.into_records(), document.as_array().unwrap().clone());
}

#[test]
fn a_document_that_is_no_array_is_an_empty_page() {
    let document: Value = serde_json::from_str(r#"{"message": "Bad credentials"}"#).unwrap();
    let mut pager = Pager::new();
    pager.accept(page_of(100, 0));
    pager.accept_document(&document);
    assert!(pager.is_done());
    assert_eq!(pager.next_page(), None);
    assert_eq!(pager.count(), 100);
}

#[test]
fn pages_are_read_from_bodies() {
    let mut pager = Pager::new();
    assert_eq!(pager.accept_body(&body_of(100)), Ok(()));
    assert_eq!(pager.next_page(), Some(2));
    assert_eq!(pager.accept_body(&body_of(100)), Ok(()));
    assert_eq!(pager.next_page(), Some(3));
    assert_eq!(pager.accept_body(&body_of(47)), Ok(()));
    assert_eq!(pager.next_page(), None);
    assert_eq!(pager.count(), 247);
}

#[test]
fn a_body_is_parsed_into_its_records() {
    let mut pager = Pager::new();
    assert_eq!(pager.accept_body(br#"[{"tag_name": "4.2-stable"}, true]"#), Ok(()));
    let records = pager.into_records();
    assert_eq!(records.len(), 2);
    assert_eq!(records[0].get("tag_name").and_then(Value::as_str), Some("4.2-stable"));
    assert_eq!(records[1], Value::Bool(true));
}

#[test]
fn a_body_that_is_not_json_is_refused() {
    let mut pager = Pager::new();
    pager.accept(page_of(100, 0));
    assert_eq!(pager.accept_body(b"<html>502</html>"), Err(PageError::NotJson));
    assert_eq!(pager.accept_body(b""), Err(PageError::NotJson));
    assert_eq!(pager.accept_body(b"[1, 2"), Err(PageError::NotJson));
    assert_eq!(pager.accept_body(b"[1] [2]"), Err(PageError::NotJson));
    assert_eq!(pager.accept_body(&[0xff, 0xfe]), Err(PageError::NotJson));
    assert!(!pager.is_done());
    assert_eq!(pager.next_page(), Some(2));
    assert_eq!(pager.count(), 100);
}

#[test]
fn a_body_that_is_no_array_ends_the_walk() {
    let mut pager = Pager::new();
    assert_eq!(pager.accept_body(br#"{"message": "Not Found"}"#), Ok(()));
    assert!(pager.is_done());
    assert_eq!(pager.count(), 0);
}

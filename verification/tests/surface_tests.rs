use capture_store::download::download_filename;
use capture_store::store::{CaptureStore, GetResult};
use capture_store::page::render_index;
use capture_store::serialize::serialize_request;

#[test]
fn text_payload_downloads_as_txt() {
    let name = download_filename(1, &b"hello".to_vec());
    assert_eq!(name, "capture1.txt");
}

#[test]
fn binary_payload_downloads_as_bin() {
    let name = download_filename(2, &vec![0xFF]);
    assert_eq!(name, "capture2.bin");
}

#[test]
fn filename_carries_the_full_decimal_id() {
    let name = download_filename(1204507, &b"ok".to_vec());
    assert_eq!(name, "capture1204507.txt");
}

#[test]
fn serialize_request_lays_out_line_headers_blank_body() {
    let headers = vec![
        (b"Host".to_vec(), b"example.test".to_vec()),
        (b"X-Trace".to_vec(), b"1".to_vec()),
    ];
    let r = serialize_request(b"POST", b"/submit", &headers, b"the body");
    assert_eq!(
        r,
        b"POST /submit\r\nHost: example.test\r\nX-Trace: 1\r\n\r\nthe body".to_vec()
    );
}

#[test]
fn serialize_request_without_headers_or_body() {
    let r = serialize_request(b"GET", b"/", &vec![], b"");
    assert_eq!(r, b"GET /\r\n\r\n".to_vec());
}

#[test]
fn index_page_lists_one_link_per_record() {
    let page = render_index(&vec![(3, 7), (4, 2)]);
    assert!(page.contains("HTTP Captures"));
    assert!(page.contains("/download/3"));
    assert!(page.contains("Download capture #3 (7 bytes)"));
    assert!(page.contains("/download/4"));
    assert!(page.contains("Download capture #4 (2 bytes)"));
    assert!(!page.contains("No captures"));
}

#[test]
fn index_page_on_empty_listing_shows_the_message() {
    let page = render_index(&vec![]);
    assert!(page.contains("HTTP Captures"));
    assert!(page.contains("No captures, go to /capture to capture something"));
    assert!(!page.contains("/download/"));
}

#[test]
fn captured_request_roundtrips_through_the_store() {
    let headers = vec![(b"Host".to_vec(), b"example.test".to_vec())];
    let record = serialize_request(b"PUT", b"/item/9", &headers, &[0, 159, 146, 150]);
    let mut s = CaptureStore::new();
    let id = s.insert(record.clone()).unwrap();
    assert_eq!(s.get(id), GetResult::Found(record.clone()));
    // The captured record holds a non-UTF-8 body, so it downloads as binary.
    assert_eq!(download_filename(id, &record), "capture1.bin");
}

#[test]
fn index_page_follows_the_store_listing() {
    let mut s = CaptureStore::new();
    s.insert(b"abc".to_vec()).unwrap();
    s.insert(b"defgh".to_vec()).unwrap();
    let page = render_index(&s.list_all().unwrap());
    assert!(page.contains("Download capture #1 (3 bytes)"));
    assert!(page.contains("Download capture #2 (5 bytes)"));
}

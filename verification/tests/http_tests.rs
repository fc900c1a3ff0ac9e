use backend::http::{build_response, is_forbidden, route_request, storage_key};

#[test]
fn root_maps_to_index() {
    let d = route_request(b"GET / HTTP/1.1\r\n\r\n").unwrap();
    assert_eq!(d.file, b"index.html".to_vec());
    assert!(d.found);
}

#[test]
fn plain_file_request() {
    let d = route_request(b"GET /hello.html HTTP/1.1\r\n\r\n").unwrap();
    assert_eq!(d.file, b"hello.html".to_vec());
    assert!(d.found);
}

#[test]
fn fragment_is_cut_off() {
    let d = route_request(b"GET /page.html#top HTTP/1.1").unwrap();
    assert_eq!(d.file, b"page.html".to_vec());
    assert!(d.found);
}

#[test]
fn query_is_cut_off() {
    let d = route_request(b"GET /page.html?q=1 HTTP/1.1").unwrap();
    assert_eq!(d.file, b"page.html".to_vec());
    assert!(d.found);
}

#[test]
fn non_get_is_served_not_found() {
    let d = route_request(b"POST /form HTTP/1.1").unwrap();
    assert_eq!(d.file, b"404.html".to_vec());
    assert!(!d.found);
}

#[test]
fn empty_request_is_served_not_found() {
    let d = route_request(b"").unwrap();
    assert_eq!(d.file, b"404.html".to_vec());
    assert!(!d.found);
}

#[test]
fn get_without_a_target_cannot_be_routed() {
    assert!(route_request(b"GET").is_none());
    assert!(route_request(b"GET   ").is_none());
    assert!(route_request(b"GET ?q=1 HTTP/1.1").is_none());
}

#[test]
fn forbidden_names() {
    assert!(is_forbidden(b"home.html"));
    assert!(is_forbidden(b"a/../b"));
    assert!(is_forbidden(b".."));
    assert!(!is_forbidden(b"index.html"));
    assert!(!is_forbidden(b""));
    assert!(!is_forbidden(b"hom.e"));
}

#[test]
fn response_carries_exact_length() {
    let r = build_response(b"HTTP/1.1 200 OK", b"<html>");
    assert_eq!(r, b"HTTP/1.1 200 OK\r\nContent-Length: 6\r\n\r\n<html>".to_vec());
}

#[test]
fn response_with_empty_body() {
    let r = build_response(b"HTTP/1.1 404 NOT FOUND", b"");
    assert_eq!(r, b"HTTP/1.1 404 NOT FOUND\r\nContent-Length: 0\r\n\r\n".to_vec());
}

#[test]
fn storage_key_folds_case() {
    assert_eq!(storage_key(b"INDEX.HTML"), "index.html".to_string());
    assert_eq!(storage_key(b"MiXeD.HtMl"), "mixed.html".to_string());
}

#[test]
fn storage_key_patches_invalid_bytes() {
    assert_eq!(storage_key(&[b'A', 0xFF, b'B']), "a\u{FFFD}b".to_string());
}

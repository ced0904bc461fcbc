use proxy_server::headers::Headers;

#[test]
fn rewrite_host_replaces_only_the_host_line() {
    let raw = "GET / HTTP/1.1\r\nHost: old.example\r\nX-Keep: y\r\n\r\n".to_string();
    let out = Headers::change_host(raw, "new.example:8080").unwrap();
    assert_eq!(out, "GET / HTTP/1.1\r\nHost: new.example:8080\r\nX-Keep: y\r\n\r\n");
}

#[test]
fn rewrite_host_is_idempotent() {
    let raw = "GET / HTTP/1.1\r\nHost: old.example\r\nX-Keep: y\r\n\r\n".to_string();
    let once = Headers::change_host(raw, "new.example:8080").unwrap();
    let twice = Headers::change_host(once.clone(), "new.example:8080").unwrap();
    assert_eq!(once, twice);
}

#[test]
fn rewrite_host_without_host_line_returns_none() {
    let raw = "GET / HTTP/1.1\r\nX-Other: v\r\n\r\n".to_string();
    assert!(Headers::change_host(raw, "new.example").is_none());
}

#[test]
fn rewrite_host_ignores_host_not_at_line_start() {
    let raw = "GET / HTTP/1.1\r\nXHost: old\r\n\r\n".to_string();
    assert!(Headers::change_host(raw, "new.example").is_none());
}

#[test]
fn rewrite_host_needs_a_terminated_line() {
    let raw = "GET / HTTP/1.1\r\nHost: old".to_string();
    assert!(Headers::change_host(raw, "new.example").is_none());
}

#[test]
fn rewrite_host_only_touches_the_first_host_line() {
    let raw = "Host: one\r\nHost: two\r\n".to_string();
    let out = Headers::change_host(raw, "t").unwrap();
    assert_eq!(out, "Host: t\r\nHost: two\r\n");
}

#[test]
fn content_length_with_space() {
    assert_eq!(Headers::get_content_length(&"Content-Length: 42\r\n".to_string()), Some(42));
}

#[test]
fn content_length_lowercase_without_space() {
    assert_eq!(Headers::get_content_length(&"content-length:7".to_string()), Some(7));
}

#[test]
fn content_length_absent() {
    assert_eq!(Headers::get_content_length(&"X: y".to_string()), None);
}

#[test]
fn content_length_without_digits_is_none() {
    assert_eq!(Headers::get_content_length(&"Content-Length: x\r\n".to_string()), None);
}

#[test]
fn content_length_too_large_is_none() {
    let raw = "Content-Length: 99999999999999999999\r\n".to_string();
    assert_eq!(Headers::get_content_length(&raw), None);
}

#[test]
fn content_length_at_u32_max_fits() {
    let raw = "Content-Length: 4294967295\r\n".to_string();
    assert_eq!(Headers::get_content_length(&raw), Some(u32::MAX));
}

#[test]
fn url_is_the_first_path_token() {
    assert_eq!(Headers::get_url(&"GET /foo/bar HTTP/1.1".to_string()), "/foo/bar");
}

#[test]
fn url_defaults_to_slash() {
    assert_eq!(Headers::get_url(&"no path here".to_string()), "/");
}

#[test]
fn url_run_stops_at_non_path_characters() {
    assert_eq!(Headers::get_url(&"GET /a_b-c/9?x=1 HTTP/1.1".to_string()), "/a_b-c/9");
}

#[test]
fn protocol_is_extracted_with_version() {
    assert_eq!(Headers::get_protocol(&"GET /x HTTP/1.1\r\n".to_string()), "HTTP/1.1");
}

#[test]
fn protocol_keeps_the_s_form() {
    assert_eq!(Headers::get_protocol(&"x HTTPS/2.0 y".to_string()), "HTTPS/2.0");
}

#[test]
fn protocol_defaults_to_sentinel() {
    assert_eq!(Headers::get_protocol(&"no protocol".to_string()), "OPTIONS");
}

#[test]
fn method_is_the_first_word() {
    assert_eq!(Headers::get_method(&"GET /x HTTP/1.1".to_string()), "GET");
}

#[test]
fn method_defaults_to_sentinel() {
    assert_eq!(Headers::get_method(&"?!()".to_string()), "OPTIONS");
}

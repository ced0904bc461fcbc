use proxy_server::headers::{DecodeError, Header, Headers};

#[test]
fn request_line_contributes_no_entry() {
    let h = Headers::from_string("GET / HTTP/1.1\r\nHost: a\r\n\r\n".to_string());
    assert_eq!(h.list.len(), 1);
    assert_eq!(h.list[0].name, "Host");
    assert_eq!(h.list[0].value, "a");
}

#[test]
fn raw_block_is_retained_in_full() {
    let raw = "GET / HTTP/1.1\r\nHost: a\r\nX-Pad: b\r\n\r\n";
    let h = Headers::from_string(raw.to_string());
    assert_eq!(h.raw, raw);
}

#[test]
fn reparsing_the_kept_raw_yields_the_same_list() {
    let h = Headers::from_string("A: 1\r\nB: 2\r\n\r\n".to_string());
    let again = Headers::from_string(h.raw.clone());
    assert_eq!(h.list.len(), again.list.len());
    for (a, b) in h.list.iter().zip(again.list.iter()) {
        assert_eq!(a.name, b.name);
        assert_eq!(a.value, b.value);
    }
}

#[test]
fn well_formed_lines_count_one_header_each() {
    let h = Headers::from_string("A: 1\r\nB: 2\r\nC: 3".to_string());
    assert_eq!(h.list.len(), 3);
}

#[test]
fn values_are_lowercased() {
    let h = Headers::from_string("X-Thing: VaLue\r\n".to_string());
    assert_eq!(h.list[0].name, "X-Thing");
    assert_eq!(h.list[0].value, "value");
}

#[test]
fn split_point_is_the_first_colon() {
    let h = Headers::from_string("a:b: c\r\n".to_string());
    assert_eq!(h.list.len(), 1);
    assert_eq!(h.list[0].name, "a");
    assert_eq!(h.list[0].value, "b: c");
}

#[test]
fn empty_value_after_separator() {
    let h = Headers::from_string("Name: \r\n".to_string());
    assert_eq!(h.list.len(), 1);
    assert_eq!(h.list[0].name, "Name");
    assert_eq!(h.list[0].value, "");
}

#[test]
fn spaces_after_the_colon_are_stripped() {
    let h = Headers::from_string("Name:    Value\r\n".to_string());
    assert_eq!(h.list[0].value, "value");
}

#[test]
fn line_without_separator_is_dropped() {
    let h = Headers::from_string("no separator here\r\nReal: yes\r\n".to_string());
    assert_eq!(h.list.len(), 1);
    assert_eq!(h.list[0].name, "Real");
}

#[test]
fn colon_without_space_is_not_a_separator() {
    let h = Headers::from_string("a:b\r\n".to_string());
    assert_eq!(h.list.len(), 0);
}

#[test]
fn duplicates_are_preserved_in_order() {
    let h = Headers::from_string("K: 1\r\nK: 2\r\n".to_string());
    assert_eq!(h.list.len(), 2);
    assert_eq!(h.list[0].value, "1");
    assert_eq!(h.list[1].value, "2");
}

#[test]
fn empty_block_parses_to_no_headers() {
    let h = Headers::from_string(String::new());
    assert_eq!(h.list.len(), 0);
    assert_eq!(h.raw, "");
}

#[test]
fn from_bytes_accepts_text() {
    let bytes = "GET / HTTP/1.1\r\nHost: A\r\n\r\n".as_bytes().to_vec();
    let h = Headers::from_bytes(&bytes).unwrap();
    assert_eq!(h.list.len(), 1);
    assert_eq!(h.list[0].name, "Host");
    assert_eq!(h.list[0].value, "a");
}

#[test]
fn from_bytes_rejects_invalid_utf8() {
    let bytes = vec![0xffu8, 0xfe, 0x48];
    let r = Headers::from_bytes(&bytes);
    assert_eq!(r.unwrap_err(), DecodeError);
}

#[test]
fn header_to_text_joins_name_and_value() {
    let h = Header { name: "Host".to_string(), value: "a".to_string() };
    assert_eq!(h.to_text(), "Host: a");
}

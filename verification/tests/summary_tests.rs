use exfil_server::summary::{ack_response, headers_to_string, summarize_request, Header};

fn header(name: &str, value: &str) -> Header {
    Header { name: name.to_string(), value: Some(value.to_string()) }
}

#[test]
fn headers_to_string_includes_all_values_and_duplicates() {
    let h = vec![
        header("Host", "localhost:8080"),
        header("User-Agent", "curl/8.5.0"),
        // duplicate header
        header("Accept", "*/*"),
        header("Accept", "text/plain"),
    ];

    let s = headers_to_string(&h);
    let s = s.to_ascii_lowercase();

    assert!(s.contains("host: localhost:8080"));
    assert!(s.contains("user-agent: curl/8.5.0"));
    assert!(s.contains("accept: */*"));
    assert!(s.contains("accept: text/plain"));
}

#[test]
fn summarize_request_captures_method_path_ip_and_no_truncation() {
    let h = vec![header("Content-Type", "text/plain")];

    let body = b"hello world";
    let s = summarize_request("POST", "/tree?x=1", "127.0.0.1:12345", &h, body, 64);

    assert_eq!(s.method, "POST");
    assert_eq!(s.path, "/tree?x=1"); // full path+query as passed in
    assert_eq!(s.ip, "127.0.0.1:12345");
    assert!(s.headers.to_ascii_lowercase().contains("content-type: text/plain"));
    assert_eq!(s.body_preview, "hello world");
    assert_eq!(s.truncated, false);
}

#[test]
fn summarize_request_truncates_body_at_max() {
    let h = vec![];
    let body = b"abcdefghijklmnopqrstuvwxyz";
    let s = summarize_request("PUT", "/big", "10.0.0.1:5555", &h, body, 10);
    assert_eq!(s.body_preview, "abcdefghij");
    assert!(s.truncated);
}

#[test]
fn summarize_request_handles_non_utf8_body_lossily() {
    let h = vec![];
    let body = b"\xff\xfeA\x80B"; // invalid UTF-8
    let s = summarize_request("POST", "/bin", "1.2.3.4:42", &h, body, 64);
    assert_eq!(s.body_preview.chars().count(), 5);
    assert!(s.body_preview.contains('\u{fffd}'));
}

#[test]
fn headers_join_in_input_order_with_fixed_separator() {
    let h = vec![header("a", "1"), header("b", "2"), header("a", "3")];
    assert_eq!(headers_to_string(&h), "a: 1, b: 2, a: 3");
}

#[test]
fn empty_headers_render_as_empty_string() {
    let h: Vec<Header> = vec![];
    assert_eq!(headers_to_string(&h), "");
}

#[test]
fn non_text_header_value_gets_placeholder() {
    let h = vec![
        header("Ok", "fine"),
        Header { name: "X-Raw".to_string(), value: None },
    ];
    assert_eq!(headers_to_string(&h), "Ok: fine, X-Raw: <non-utf8>");
}

#[test]
fn body_exactly_at_limit_is_not_truncated() {
    let h = vec![];
    let body = b"abcdefghij";
    let s = summarize_request("GET", "/", "127.0.0.1:1", &h, body, 10);
    assert_eq!(s.body_preview, "abcdefghij");
    assert!(!s.truncated);
}

#[test]
fn empty_body_yields_empty_preview() {
    let h = vec![];
    let s = summarize_request("GET", "/", "127.0.0.1:1", &h, b"", 64);
    assert_eq!(s.body_preview, "");
    assert!(!s.truncated);
}

#[test]
fn zero_limit_empties_preview_and_flags_truncation() {
    let h = vec![];
    let s = summarize_request("GET", "/", "127.0.0.1:1", &h, b"x", 0);
    assert_eq!(s.body_preview, "");
    assert!(s.truncated);
}

#[test]
fn binary_body_within_limit_is_not_truncated() {
    let h = vec![];
    let body = b"\xff\xfeA\x80B";
    let s = summarize_request("POST", "/bin", "1.2.3.4:42", &h, body, 64);
    assert!(!s.truncated);
    assert_eq!(s.body_preview, "\u{fffd}\u{fffd}A\u{fffd}B");
}

#[test]
fn lossy_decoding_matches_standard_decoder_on_tricky_inputs() {
    let cases: Vec<&[u8]> = vec![
        b"plain ascii",
        b"\xc3\xa9clair",            // valid two-byte scalar
        b"\xe2\x82\xac = euro",      // valid three-byte scalar
        b"\xf0\x9f\x92\xa1 idea",    // valid four-byte scalar
        b"\xc3",                     // truncated two-byte encoding
        b"\xe2\x82",                 // truncated three-byte encoding
        b"\xf0\x9f\x92",             // truncated four-byte encoding
        b"\xed\xa0\x80",             // surrogate range
        b"\xc0\xaf",                 // overlong encoding
        b"\xe0\x80\x80",             // overlong encoding
        b"\xf4\x90\x80\x80",         // beyond the last scalar
        b"\xf5\x80\x80\x80",         // lead byte beyond the last scalar
        b"\x80\x80",                 // stray continuation bytes
        b"a\xffb\xfec",              // stray invalid bytes between ASCII
    ];
    let h = vec![];
    for body in cases {
        let s = summarize_request("GET", "/", "127.0.0.1:1", &h, body, 1024);
        assert_eq!(s.body_preview, String::from_utf8_lossy(body));
    }
}

#[test]
fn summarizer_is_deterministic() {
    let h = vec![header("Accept", "*/*"), header("Accept", "*/*")];
    let body = b"same \xffbytes";
    let a = summarize_request("POST", "/p?k=v", "9.9.9.9:99", &h, body, 8);
    let b = summarize_request("POST", "/p?k=v", "9.9.9.9:99", &h, body, 8);
    assert_eq!(a.method, b.method);
    assert_eq!(a.path, b.path);
    assert_eq!(a.ip, b.ip);
    assert_eq!(a.headers, b.headers);
    assert_eq!(a.body_preview, b.body_preview);
    assert_eq!(a.truncated, b.truncated);
}

#[test]
fn nested_path_and_query_pass_through_verbatim() {
    let h = vec![];
    let s = summarize_request("GET", "/anything/nested?q=%20x", "8.8.8.8:53", &h, b"", 64);
    assert_eq!(s.path, "/anything/nested?q=%20x");
}

#[test]
fn acknowledgment_is_fixed() {
    assert_eq!(ack_response(), "logged request");
}

#[test]
fn capture_applies_the_fixed_preview_limit() {
    let h = vec![];
    let body = vec![b'z'; exfil_server::MAX_PREVIEW_BYTES + 100];
    let s = exfil_server::summary::capture_request("POST", "/up", "127.0.0.1:7", &h, &body);
    assert!(s.truncated);
    assert_eq!(s.body_preview.len(), exfil_server::MAX_PREVIEW_BYTES);

    let small = b"tiny";
    let s = exfil_server::summary::capture_request("POST", "/up", "127.0.0.1:7", &h, small);
    assert!(!s.truncated);
    assert_eq!(s.body_preview, "tiny");
}

#[test]
fn config_carries_resolved_values() {
    let c = exfil_server::config::Config::new("8080".to_string(), true);
    assert_eq!(c.port, "8080");
    assert!(c.log_to_file);
}

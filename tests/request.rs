use longpoll_broker::request::{parse_request, split_on};

#[test]
fn parses_method_path_and_last_line() {
    let r = parse_request("GET /cb HTTP/1.1\r\nHost: x\r\n\r\nhello").unwrap();
    assert_eq!(r.method, "GET");
    assert_eq!(r.path, "/cb");
    assert_eq!(r.message, "hello");
}

#[test]
fn final_line_ending_is_optional() {
    let r = parse_request("POST /cb HTTP/1.1\r\nHost: x\r\n\r\nhello\r\n").unwrap();
    assert_eq!(r.method, "POST");
    assert_eq!(r.message, "hello");
}

#[test]
fn head_line_alone_gives_empty_message() {
    let r = parse_request("GET /a HTTP/1.1\r\n").unwrap();
    assert_eq!(r.path, "/a");
    assert_eq!(r.message, "");
    let r = parse_request("GET /a").unwrap();
    assert_eq!(r.path, "/a");
    assert_eq!(r.message, "");
}

#[test]
fn blank_last_line_gives_empty_message() {
    let r = parse_request("GET /a HTTP/1.1\r\n\r\n").unwrap();
    assert_eq!(r.message, "");
}

#[test]
fn plain_newlines_are_accepted() {
    let r = parse_request("PUT /q x\nh: 1\nbody\n").unwrap();
    assert_eq!(r.method, "PUT");
    assert_eq!(r.path, "/q");
    assert_eq!(r.message, "body");
}

#[test]
fn empty_text_has_no_headline() {
    assert_eq!(parse_request("").err(), Some("No headline".to_string()));
}

#[test]
fn head_without_space_has_no_path() {
    assert_eq!(parse_request("GET\r\nx").err(), Some("No path".to_string()));
    assert_eq!(parse_request("\n").err(), Some("No path".to_string()));
}

#[test]
fn split_keeps_empty_pieces() {
    assert_eq!(split_on("a b  c", ' '), vec!["a", "b", "", "c"]);
    assert_eq!(split_on("", ' '), vec![""]);
    assert_eq!(split_on("x\n", '\n'), vec!["x", ""]);
}

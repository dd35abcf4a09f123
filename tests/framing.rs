use user_service::framing::{get_id, parse_id, request_body};
use user_service::router::{route, starts_with, Route};

#[test]
fn id_is_third_path_segment() {
    assert_eq!(get_id("GET /user/42 HTTP/1.1\r\nHost: x\r\n\r\n"), "42");
    assert_eq!(get_id("DELETE /user/7 HTTP/1.1"), "7");
}

#[test]
fn id_missing_segment_is_empty() {
    assert_eq!(get_id("GET /user"), "");
    assert_eq!(get_id("GET /user/"), "");
    assert_eq!(get_id(""), "");
}

#[test]
fn id_stops_at_unicode_whitespace() {
    assert_eq!(get_id("GET /user/12\u{2003}rest"), "12");
    assert_eq!(get_id("GET /user/  9 x"), "9");
}

#[test]
fn id_stops_at_next_slash() {
    assert_eq!(get_id("GET /user/5/extra HTTP/1.1"), "5");
}

#[test]
fn body_after_blank_line() {
    let req = "POST /user HTTP/1.1\r\nContent-Type: application/json\r\n\r\n{\"name\":\"Ann\"}";
    assert_eq!(request_body(req), "{\"name\":\"Ann\"}");
}

#[test]
fn body_without_blank_line_is_empty() {
    assert_eq!(request_body("GET /users HTTP/1.1"), "");
    assert_eq!(request_body("{\"name\":\"a\",\"email\":\"b\"}"), "");
    assert_eq!(request_body("a\r\n\rb"), "");
}

#[test]
fn body_after_last_blank_line() {
    assert_eq!(request_body("a\r\n\r\nb\r\n\r\nc"), "c");
    assert_eq!(request_body("a\r\n\r\n"), "");
}

#[test]
fn body_blank_lines_do_not_overlap() {
    assert_eq!(request_body("\r\n\r\n\r\n"), "\r\n");
}

#[test]
fn parse_id_accepts_decimal_integers() {
    assert_eq!(parse_id("1"), Some(1));
    assert_eq!(parse_id("+5"), Some(5));
    assert_eq!(parse_id("-12"), Some(-12));
    assert_eq!(parse_id("007"), Some(7));
    assert_eq!(parse_id("2147483647"), Some(i32::MAX));
    assert_eq!(parse_id("-2147483648"), Some(i32::MIN));
}

#[test]
fn parse_id_rejects_other_text() {
    assert_eq!(parse_id("abc"), None);
    assert_eq!(parse_id(""), None);
    assert_eq!(parse_id("-"), None);
    assert_eq!(parse_id("+"), None);
    assert_eq!(parse_id("1a"), None);
    assert_eq!(parse_id("2147483648"), None);
    assert_eq!(parse_id("-2147483649"), None);
    assert_eq!(parse_id("99999999999999999999"), None);
}

#[test]
fn prefix_test() {
    assert!(starts_with("GET /users", "GET /user"));
    assert!(starts_with("abc", ""));
    assert!(!starts_with("GET", "GET /"));
    assert!(!starts_with("PUT /user", "POST"));
}

#[test]
fn routes_in_order() {
    assert_eq!(route("GET /users HTTP/1.1"), Route::List);
    assert_eq!(route("POST /user HTTP/1.1"), Route::Create);
    assert_eq!(route("GET /user/1 HTTP/1.1"), Route::Read);
    assert_eq!(route("PUT /user/1 HTTP/1.1"), Route::Update);
    assert_eq!(route("DELETE /user/1 HTTP/1.1"), Route::Delete);
    assert_eq!(route("PATCH /user/1 HTTP/1.1"), Route::Unknown);
    assert_eq!(route(""), Route::Unknown);
}

#[test]
fn users_prefix_wins_whatever_follows() {
    assert_eq!(route("GET /users/1 HTTP/1.1"), Route::List);
    assert_eq!(route("GET /usersxyz"), Route::List);
    assert_eq!(route("GET /users"), Route::List);
}

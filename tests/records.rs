use user_service::response::{Response, Status};
use user_service::user::{users_to_json, User};

fn user(id: Option<i32>, name: &str, email: &str) -> User {
    User { id, name: name.to_string(), email: email.to_string() }
}

#[test]
fn user_json_fields_in_order() {
    let u = user(Some(1), "Ann", "ann@x.com");
    assert_eq!(u.to_json(), "{\"id\":1,\"name\":\"Ann\",\"email\":\"ann@x.com\"}");
}

#[test]
fn user_json_absent_id_is_null() {
    let u = user(None, "B", "b@x");
    assert_eq!(u.to_json(), "{\"id\":null,\"name\":\"B\",\"email\":\"b@x\"}");
}

#[test]
fn user_json_integer_edges() {
    assert_eq!(user(Some(0), "a", "b").to_json(), "{\"id\":0,\"name\":\"a\",\"email\":\"b\"}");
    assert_eq!(user(Some(-45), "a", "b").to_json(), "{\"id\":-45,\"name\":\"a\",\"email\":\"b\"}");
    assert_eq!(
        user(Some(i32::MIN), "a", "b").to_json(),
        "{\"id\":-2147483648,\"name\":\"a\",\"email\":\"b\"}"
    );
    assert_eq!(
        user(Some(i32::MAX), "a", "b").to_json(),
        "{\"id\":2147483647,\"name\":\"a\",\"email\":\"b\"}"
    );
}

#[test]
fn user_json_escapes_strings() {
    let u = user(Some(3), "A\"b\\", "x\ny");
    assert_eq!(u.to_json(), "{\"id\":3,\"name\":\"A\\\"b\\\\\",\"email\":\"x\\ny\"}");
}

#[test]
fn list_json_empty_and_several() {
    assert_eq!(users_to_json(&vec![]), "[]");
    let us = vec![user(Some(1), "Ann", "a@x"), user(Some(2), "Bo", "b@x")];
    assert_eq!(
        users_to_json(&us),
        "[{\"id\":1,\"name\":\"Ann\",\"email\":\"a@x\"},{\"id\":2,\"name\":\"Bo\",\"email\":\"b@x\"}]"
    );
}

#[test]
fn wire_format_of_each_status() {
    let ok = Response { status: Status::Success, body: "hi".to_string() };
    assert_eq!(ok.to_wire(), "HTTP/1.1 200 OK\r\nContent-Type: application/json\r\n\r\nhi");
    let nf = Response { status: Status::NotFound, body: "x".to_string() };
    assert_eq!(nf.to_wire(), "HTTP/1.1 404 NOT FOUND\r\nContent-Type: application/json\r\n\r\nx");
    let se = Response { status: Status::InternalServerError, body: String::new() };
    assert_eq!(
        se.to_wire(),
        "HTTP/1.1 500 INTERNAL SERVER ERROR\r\nContent-Type: application/json\r\n\r\n"
    );
}

#[test]
fn user_json_escapes_controls() {
    let u = user(Some(1), "a\u{1}\u{1f}", "\t\r\u{8}\u{c}/é");
    assert_eq!(
        u.to_json(),
        "{\"id\":1,\"name\":\"a\\u0001\\u001f\",\"email\":\"\\t\\r\\b\\f/é\"}"
    );
}

use user_service::response::{Response, Status};
use user_service::service::{plan, respond, schema, Outcome, Statement, Step};
use user_service::user::User;

fn user(id: Option<i32>, name: &str, email: &str) -> User {
    User { id, name: name.to_string(), email: email.to_string() }
}

fn run_of(step: Step) -> Statement {
    match step {
        Step::Run(s) => s,
        Step::Reply(r) => panic!("expected a statement, got {:?}", r),
    }
}

fn reply_of(step: Step) -> Response {
    match step {
        Step::Reply(r) => r,
        Step::Run(s) => panic!("expected a reply, got {:?}", s),
    }
}

fn check(r: &Response, status: Status, body: &str) {
    assert_eq!(r.status, status);
    assert_eq!(r.body, body);
}

#[test]
fn create_then_list_scenario() {
    let req = "POST /user HTTP/1.1\r\n\r\n{\"id\":null,\"name\":\"Ann\",\"email\":\"ann@x.com\"}";
    let st = run_of(plan(req, Some(user(None, "Ann", "ann@x.com"))));
    match &st {
        Statement::Insert { name, email } => {
            assert_eq!(name, "Ann");
            assert_eq!(email, "ann@x.com");
        }
        other => panic!("unexpected {:?}", other),
    }
    assert_eq!(st.sql(), "INSERT INTO users (name, email) VALUES ($1, $2)");
    check(&respond(&st, Outcome::Affected(1)), Status::Success, "User created");

    let list = run_of(plan("GET /users HTTP/1.1\r\n\r\n", None));
    assert!(matches!(list, Statement::SelectAll));
    assert!(list.is_query());
    let r = respond(&list, Outcome::Rows(vec![user(Some(1), "Ann", "ann@x.com")]));
    check(&r, Status::Success, "[{\"id\":1,\"name\":\"Ann\",\"email\":\"ann@x.com\"}]");
}

#[test]
fn read_missing_scenario() {
    let st = run_of(plan("GET /user/1 HTTP/1.1\r\n\r\n", None));
    assert!(matches!(st, Statement::SelectById { id: 1 }));
    assert_eq!(st.sql(), "SELECT * FROM users WHERE id=$1");
    check(&respond(&st, Outcome::Rows(vec![])), Status::NotFound, "USER NOT FOUND");
}

#[test]
fn update_then_read_scenario() {
    let req = "PUT /user/1 HTTP/1.1\r\n\r\n{\"name\":\"Ann2\",\"email\":\"a2@x.com\"}";
    let st = run_of(plan(req, Some(user(None, "Ann2", "a2@x.com"))));
    match &st {
        Statement::UpdateById { id, name, email } => {
            assert_eq!(*id, 1);
            assert_eq!(name, "Ann2");
            assert_eq!(email, "a2@x.com");
        }
        other => panic!("unexpected {:?}", other),
    }
    check(&respond(&st, Outcome::Affected(1)), Status::Success, "User updated");

    let read = run_of(plan("GET /user/1 HTTP/1.1\r\n\r\n", None));
    let r = respond(&read, Outcome::Rows(vec![user(Some(1), "Ann2", "a2@x.com")]));
    check(&r, Status::Success, "{\"id\":1,\"name\":\"Ann2\",\"email\":\"a2@x.com\"}");
}

#[test]
fn delete_twice_scenario() {
    let st = run_of(plan("DELETE /user/1 HTTP/1.1\r\n\r\n", None));
    assert!(matches!(st, Statement::DeleteById { id: 1 }));
    assert_eq!(st.sql(), "DELETE FROM users WHERE id=$1");
    check(&respond(&st, Outcome::Affected(1)), Status::Success, "User deleted");
    check(&respond(&st, Outcome::Affected(0)), Status::NotFound, "USER NOT FOUND");
}

#[test]
fn non_numeric_id_scenario() {
    let r = reply_of(plan("GET /user/abc HTTP/1.1\r\n\r\n", None));
    check(&r, Status::InternalServerError, "Internal Server Error");
    let r = reply_of(plan("DELETE /user/abc HTTP/1.1", None));
    check(&r, Status::InternalServerError, "Internal Server Error");
    let r = reply_of(plan("PUT /user/x HTTP/1.1", Some(user(None, "a", "b"))));
    check(&r, Status::InternalServerError, "Internal Server Error");
}

#[test]
fn malformed_body_answers_server_error() {
    let r = reply_of(plan("POST /user HTTP/1.1\r\n\r\n{oops", None));
    check(&r, Status::InternalServerError, "Internal Server Error");
    let r = reply_of(plan("PUT /user/1 HTTP/1.1\r\n\r\n{oops", None));
    check(&r, Status::InternalServerError, "Internal Server Error");
}

#[test]
fn unknown_route_not_found() {
    let r = reply_of(plan("PATCH /user/1 HTTP/1.1", None));
    check(&r, Status::NotFound, "Not Found");
}

#[test]
fn never_created_id_not_found() {
    let read = run_of(plan("GET /user/99 HTTP/1.1", None));
    check(&respond(&read, Outcome::Rows(vec![])), Status::NotFound, "USER NOT FOUND");
    let del = run_of(plan("DELETE /user/99 HTTP/1.1", None));
    check(&respond(&del, Outcome::Affected(0)), Status::NotFound, "USER NOT FOUND");
}

#[test]
fn read_takes_first_row() {
    let read = run_of(plan("GET /user/4 HTTP/1.1", None));
    let rows = vec![user(Some(4), "A", "a"), user(Some(4), "B", "b")];
    let r = respond(&read, Outcome::Rows(rows));
    check(&r, Status::Success, "{\"id\":4,\"name\":\"A\",\"email\":\"a\"}");
}

#[test]
fn store_unreachable_is_server_error() {
    for st in [Statement::SelectAll, Statement::SelectById { id: 1 }, Statement::DeleteById { id: 1 }] {
        check(&respond(&st, Outcome::ConnectFailed), Status::InternalServerError, "Internal Server Error");
    }
}

#[test]
fn statement_failure_mapping() {
    let ins = Statement::Insert { name: "a".to_string(), email: "b".to_string() };
    check(&respond(&ins, Outcome::Failed), Status::InternalServerError, "Internal Server Error");
    check(&respond(&Statement::SelectAll, Outcome::Failed), Status::NotFound, "USER NOT FOUND");
    check(&respond(&Statement::SelectById { id: 2 }, Outcome::Failed), Status::NotFound, "USER NOT FOUND");
    let upd = Statement::UpdateById { id: 2, name: "a".to_string(), email: "b".to_string() };
    check(&respond(&upd, Outcome::Failed), Status::NotFound, "USER NOT FOUND");
    check(&respond(&Statement::DeleteById { id: 2 }, Outcome::Failed), Status::NotFound, "USER NOT FOUND");
}

#[test]
fn update_of_missing_row_still_ok() {
    let upd = Statement::UpdateById { id: 9, name: "a".to_string(), email: "b".to_string() };
    check(&respond(&upd, Outcome::Affected(0)), Status::Success, "User updated");
}

#[test]
fn schema_statement() {
    assert!(schema().starts_with("CREATE TABLE IF NOT EXISTS users"));
}

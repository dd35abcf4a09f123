//! What each request does: the statement it asks of the store, or the
//! response it gets at once, and the response that follows a statement's
//! outcome.
use vstd::prelude::*;
use vstd::string::*;
use crate::framing::{get_id, id_of, parse_i32, parse_id};
use crate::response::{reply, Response, ResponseView, Status};
use crate::router::{route, route_of, Route};
use crate::user::{user_json, users_json, users_to_json, users_view, User, UserView};

verus! {

/// A statement against the `users` table.
#[derive(Clone, Debug)]
pub enum Statement {
    /// Every row.
    SelectAll,
    /// A new row; the store assigns its identifier.
    Insert { name: String, email: String },
    /// The rows with identifier `id`.
    SelectById { id: i32 },
    /// New name and email for the rows with identifier `id`.
    UpdateById { id: i32, name: String, email: String },
    /// Remove the rows with identifier `id`.
    DeleteById { id: i32 },
}

/// The SQL text of a statement. Its parameters are its name and email, in
/// that order, then its id.
pub open spec fn sql_of(statement: Statement) -> Seq<char> {
    match statement {
        Statement::SelectAll => "SELECT * FROM users"@,
        Statement::Insert { .. } => "INSERT INTO users (name, email) VALUES ($1, $2)"@,
        Statement::SelectById { .. } => "SELECT * FROM users WHERE id=$1"@,
        Statement::UpdateById { .. } => "UPDATE users SET name=$1, email=$2 WHERE id=$3"@,
        Statement::DeleteById { .. } => "DELETE FROM users WHERE id=$1"@,
    }
}

/// Whether a statement reads rows (a query) rather than changing them.
pub open spec fn reads_rows(statement: Statement) -> bool {
    statement is SelectAll || statement is SelectById
}

/// The statement that creates the table where it is missing.
pub open spec fn schema_sql() -> Seq<char> {
    "CREATE TABLE IF NOT EXISTS users (id SERIAL PRIMARY KEY, name VARCHAR NOT NULL, email VARCHAR NOT NULL)"@
}

/// The statement that creates the table where it is missing.
pub fn schema() -> (r: &'static str)
    ensures
        r@ == schema_sql(),
{
    "CREATE TABLE IF NOT EXISTS users (id SERIAL PRIMARY KEY, name VARCHAR NOT NULL, email VARCHAR NOT NULL)"
}

impl Statement {
    /// The SQL text of this statement.
    pub fn sql(&self) -> (r: &'static str)
        ensures
            r@ == sql_of(*self),
    {
        match self {
            Statement::SelectAll => "SELECT * FROM users",
            Statement::Insert { .. } => "INSERT INTO users (name, email) VALUES ($1, $2)",
            Statement::SelectById { .. } => "SELECT * FROM users WHERE id=$1",
            Statement::UpdateById { .. } => "UPDATE users SET name=$1, email=$2 WHERE id=$3",
            Statement::DeleteById { .. } => "DELETE FROM users WHERE id=$1",
        }
    }

    /// Whether this statement is a query, whose outcome is rows, rather than
    /// one whose outcome is a count of rows affected.
    pub fn is_query(&self) -> (r: bool)
        ensures
            r == reads_rows(*self),
    {
        match self {
            Statement::SelectAll | Statement::SelectById { .. } => true,
            _ => false,
        }
    }
}

/// What to do with a request: answer at once, or run a statement first.
pub enum Step {
    Reply(Response),
    Run(Statement),
}

/// A step as values.
pub enum Plan {
    Reply(ResponseView),
    Run(Statement),
}

impl View for Step {
    type V = Plan;

    open spec fn view(&self) -> Plan {
        match self {
            Step::Reply(r) => Plan::Reply(r@),
            Step::Run(s) => Plan::Run(*s),
        }
    }
}

/// What came of a statement.
pub enum Outcome {
    /// The store could not be reached.
    ConnectFailed,
    /// The store was reached and the statement failed.
    Failed,
    /// A query's rows.
    Rows(Vec<User>),
    /// The number of rows that a statement changed.
    Affected(u64),
}

/// An outcome as values.
pub enum OutcomeView {
    ConnectFailed,
    Failed,
    Rows(Seq<UserView>),
    Affected(nat),
}

impl View for Outcome {
    type V = OutcomeView;

    open spec fn view(&self) -> OutcomeView {
        match self {
            Outcome::ConnectFailed => OutcomeView::ConnectFailed,
            Outcome::Failed => OutcomeView::Failed,
            Outcome::Rows(rows) => OutcomeView::Rows(users_view(rows@)),
            Outcome::Affected(n) => OutcomeView::Affected(*n as nat),
        }
    }
}

/// Whether `outcome` is of the kind that `statement` gives: rows for a
/// query, a count for the others; failures for either.
pub open spec fn fits(statement: Statement, outcome: OutcomeView) -> bool {
    match outcome {
        OutcomeView::Rows(_) => reads_rows(statement),
        OutcomeView::Affected(_) => !reads_rows(statement),
        _ => true,
    }
}

/// The answer to a request that could not be served.
pub open spec fn server_error() -> ResponseView {
    reply(Status::InternalServerError, "Internal Server Error"@)
}

/// The answer where the record asked for is not there, or the store
/// refused the statement.
pub open spec fn user_not_found() -> ResponseView {
    reply(Status::NotFound, "USER NOT FOUND"@)
}

/// The answer to a request that no route matches.
pub open spec fn no_route() -> ResponseView {
    reply(Status::NotFound, "Not Found"@)
}

/// What a request comes to, given its body read as a record (`None` where
/// the body is not a record's JSON).
pub open spec fn plan_of(request: Seq<char>, body: Option<User>) -> Plan {
    let id = parse_i32(id_of(request));
    match route_of(request) {
        Route::List => Plan::Run(Statement::SelectAll),
        Route::Create => match body {
            Some(u) => Plan::Run(Statement::Insert { name: u.name, email: u.email }),
            None => Plan::Reply(server_error()),
        },
        Route::Read => match id {
            Some(i) => Plan::Run(Statement::SelectById { id: i }),
            None => Plan::Reply(server_error()),
        },
        Route::Update => match (id, body) {
            (Some(i), Some(u)) => Plan::Run(
                Statement::UpdateById { id: i, name: u.name, email: u.email },
            ),
            _ => Plan::Reply(server_error()),
        },
        Route::Delete => match id {
            Some(i) => Plan::Run(Statement::DeleteById { id: i }),
            None => Plan::Reply(server_error()),
        },
        Route::Unknown => Plan::Reply(no_route()),
    }
}

/// The response to `statement` once the store has given `outcome`.
pub open spec fn response_of(statement: Statement, outcome: OutcomeView) -> ResponseView {
    match outcome {
        OutcomeView::ConnectFailed => server_error(),
        OutcomeView::Failed => match statement {
            Statement::Insert { .. } => server_error(),
            _ => user_not_found(),
        },
        OutcomeView::Rows(rows) => match statement {
            Statement::SelectAll => reply(Status::Success, users_json(rows)),
            _ => if rows.len() == 0 {
                user_not_found()
            } else {
                reply(Status::Success, user_json(rows[0]))
            },
        },
        OutcomeView::Affected(n) => match statement {
            Statement::Insert { .. } => reply(Status::Success, "User created"@),
            Statement::UpdateById { .. } => reply(Status::Success, "User updated"@),
            _ => if n == 0 {
                user_not_found()
            } else {
                reply(Status::Success, "User deleted"@)
            },
        },
    }
}

fn text(s: &str) -> (r: String)
    ensures
        r@ == s@,
{
    String::from_str(s)
}

fn failure() -> (r: Response)
    ensures
        r@ == server_error(),
{
    Response { status: Status::InternalServerError, body: text("Internal Server Error") }
}

fn not_found() -> (r: Response)
    ensures
        r@ == user_not_found(),
{
    Response { status: Status::NotFound, body: text("USER NOT FOUND") }
}

/// Decides what a request comes to: the statement to run, or the response
/// to give at once. `body` is the request's body read as a record, `None`
/// where it is not a record's JSON.
pub fn plan(request: &str, body: Option<User>) -> (r: Step)
    ensures
        r@ == plan_of(request@, body),
{
    match route(request) {
        Route::List => Step::Run(Statement::SelectAll),
        Route::Create => match body {
            Some(u) => Step::Run(Statement::Insert { name: u.name, email: u.email }),
            None => Step::Reply(failure()),
        },
        Route::Read => match parse_id(get_id(request)) {
            Some(i) => Step::Run(Statement::SelectById { id: i }),
            None => Step::Reply(failure()),
        },
        Route::Update => match (parse_id(get_id(request)), body) {
            (Some(i), Some(u)) => Step::Run(
                Statement::UpdateById { id: i, name: u.name, email: u.email },
            ),
            _ => Step::Reply(failure()),
        },
        Route::Delete => match parse_id(get_id(request)) {
            Some(i) => Step::Run(Statement::DeleteById { id: i }),
            None => Step::Reply(failure()),
        },
        Route::Unknown => Step::Reply(
            Response { status: Status::NotFound, body: text("Not Found") },
        ),
    }
}

/// The response to `statement` once the store has given `outcome`.
pub fn respond(statement: &Statement, outcome: Outcome) -> (r: Response)
    requires
        fits(*statement, outcome@),
    ensures
        r@ == response_of(*statement, outcome@),
{
    match outcome {
        Outcome::ConnectFailed => failure(),
        Outcome::Failed => match statement {
            Statement::Insert { .. } => failure(),
            _ => not_found(),
        },
        Outcome::Rows(rows) => match statement {
            Statement::SelectAll => Response {
                status: Status::Success,
                body: users_to_json(&rows),
            },
            _ => if rows.len() == 0 {
                not_found()
            } else {
                Response { status: Status::Success, body: rows[0].to_json() }
            },
        },
        Outcome::Affected(n) => match statement {
            Statement::Insert { .. } => Response {
                status: Status::Success,
                body: text("User created"),
            },
            Statement::UpdateById { .. } => Response {
                status: Status::Success,
                body: text("User updated"),
            },
            _ => if n == 0 {
                not_found()
            } else {
                Response { status: Status::Success, body: text("User deleted") }
            },
        },
    }
}

} // verus!

//! The `users` table as values, what each statement does to it, and the
//! laws that requests obey against a store that behaves so.
use vstd::prelude::*;
use crate::framing::{
    digit_value, digits_value, field, first_word, id_of, is_digit, is_numeral, is_ws, leading_word,
    parse_i32,
};
use crate::response::{reply, ResponseView, Status};
use crate::router::{has_prefix, route_of, Route};
use crate::service::{
    plan_of, response_of, server_error, user_not_found, OutcomeView, Plan, Statement,
};
use crate::user::{decimal, digit_char, int_text, user_json, users_json, User, UserView};

verus! {

/// The `users` table: its rows in the order they were inserted, and the
/// identifier that its serial column gives the next insert.
pub struct Table {
    pub rows: Seq<UserView>,
    pub next_id: int,
}

/// Whether no two rows share an identifier.
pub open spec fn distinct_ids(rows: Seq<UserView>) -> bool {
    forall|i: int, j: int|
        #![trigger rows[i], rows[j]]
        0 <= i < rows.len() && 0 <= j < rows.len() && i != j ==> rows[i].id != rows[j].id
}

/// A table as its schema keeps it: every row has an identifier below the
/// next one, and identifiers are unique.
pub open spec fn table_wf(t: Table) -> bool {
    &&& 1 <= t.next_id
    &&& forall|i: int|
        0 <= i < t.rows.len() ==> (#[trigger] t.rows[i]).id is Some && 1 <= t.rows[i].id->0
            < t.next_id
    &&& distinct_ids(t.rows)
}

/// Whether some row of `rows` has identifier `id`.
pub open spec fn has_id(rows: Seq<UserView>, id: i32) -> bool {
    exists|k: int| 0 <= k < rows.len() && (#[trigger] rows[k]).id == Some(id)
}

/// The rows with identifier `id`, in order.
pub open spec fn rows_with_id(rows: Seq<UserView>, id: i32) -> Seq<UserView>
    decreases rows.len(),
{
    if rows.len() == 0 {
        Seq::empty()
    } else if rows.last().id == Some(id) {
        rows_with_id(rows.drop_last(), id).push(rows.last())
    } else {
        rows_with_id(rows.drop_last(), id)
    }
}

/// The rows without identifier `id`, in order.
pub open spec fn rows_without_id(rows: Seq<UserView>, id: i32) -> Seq<UserView>
    decreases rows.len(),
{
    if rows.len() == 0 {
        Seq::empty()
    } else if rows.last().id == Some(id) {
        rows_without_id(rows.drop_last(), id)
    } else {
        rows_without_id(rows.drop_last(), id).push(rows.last())
    }
}

/// The row `r` with name and email replaced where its identifier is `id`.
pub open spec fn overwrite_row(r: UserView, id: i32, name: Seq<char>, email: Seq<char>) -> UserView {
    if r.id == Some(id) {
        UserView { id: r.id, name, email }
    } else {
        r
    }
}

/// The rows with name and email replaced in each row of identifier `id`.
pub open spec fn overwrite(rows: Seq<UserView>, id: i32, name: Seq<char>, email: Seq<char>) -> Seq<
    UserView,
> {
    rows.map_values(|r: UserView| overwrite_row(r, id, name, email))
}

/// Whether `listing` holds the rows of `t`, in some order: SQL fixes no
/// order for a query without `ORDER BY`.
pub open spec fn lists(t: Table, listing: Seq<UserView>) -> bool {
    listing.to_multiset() == t.rows.to_multiset()
}

/// What the store does with `statement`: the table after it, and its outcome.
/// A query of every row gives `listing`, the order that the store chose.
/// An insert fails once the serial column has no `i32` left.
pub open spec fn run(t: Table, statement: Statement, listing: Seq<UserView>) -> (
    Table,
    OutcomeView,
) {
    match statement {
        Statement::SelectAll => (t, OutcomeView::Rows(listing)),
        Statement::Insert { name, email } => if t.next_id <= i32::MAX {
            (
                Table {
                    rows: t.rows.push(
                        UserView { id: Some(t.next_id as i32), name: name@, email: email@ },
                    ),
                    next_id: t.next_id + 1,
                },
                OutcomeView::Affected(1),
            )
        } else {
            (t, OutcomeView::Failed)
        },
        Statement::SelectById { id } => (t, OutcomeView::Rows(rows_with_id(t.rows, id))),
        Statement::UpdateById { id, name, email } => (
            Table { rows: overwrite(t.rows, id, name@, email@), next_id: t.next_id },
            OutcomeView::Affected(rows_with_id(t.rows, id).len()),
        ),
        Statement::DeleteById { id } => (
            Table { rows: rows_without_id(t.rows, id), next_id: t.next_id },
            OutcomeView::Affected(rows_with_id(t.rows, id).len()),
        ),
    }
}

/// One request served against table `t` in a store that can be reached,
/// which lists every row in the order `listing`: the table after it, and
/// the response.
pub open spec fn serve(t: Table, request: Seq<char>, body: Option<User>, listing: Seq<UserView>) -> (
    Table,
    ResponseView,
) {
    match plan_of(request, body) {
        Plan::Reply(r) => (t, r),
        Plan::Run(statement) => {
            let (after, outcome) = run(t, statement, listing);
            (after, response_of(statement, outcome))
        },
    }
}

proof fn lemma_absent(rows: Seq<UserView>, id: i32)
    requires
        !has_id(rows, id),
    ensures
        rows_with_id(rows, id) == Seq::<UserView>::empty(),
        rows_without_id(rows, id) == rows,
    decreases rows.len(),
{
    if rows.len() > 0 {
        assert(rows.last() == rows[rows.len() - 1]);
        assert(!has_id(rows.drop_last(), id)) by {
            if has_id(rows.drop_last(), id) {
                let k = choose|k: int|
                    0 <= k < rows.drop_last().len() && (#[trigger] rows.drop_last()[k]).id == Some(
                        id,
                    );
                assert(rows[k].id == Some(id));
            }
        }
        lemma_absent(rows.drop_last(), id);
        assert(rows.drop_last().push(rows.last()) =~= rows);
    }
}

proof fn lemma_without_absent(rows: Seq<UserView>, id: i32)
    ensures
        !has_id(rows_without_id(rows, id), id),
    decreases rows.len(),
{
    if rows.len() > 0 {
        lemma_without_absent(rows.drop_last(), id);
        let w = rows_without_id(rows.drop_last(), id);
        if rows.last().id != Some(id) {
            assert forall|k: int| 0 <= k < w.push(rows.last()).len() implies (#[trigger] w.push(
                rows.last(),
            )[k]).id != Some(id) by {
                if k < w.len() {
                    assert(w.push(rows.last())[k] == w[k]);
                }
            }
        }
    }
}

proof fn lemma_unique_hit(rows: Seq<UserView>, id: i32, k: int)
    requires
        distinct_ids(rows),
        0 <= k < rows.len(),
        rows[k].id == Some(id),
    ensures
        rows_with_id(rows, id) == seq![rows[k]],
    decreases rows.len(),
{
    let n = rows.len() - 1;
    let init = rows.drop_last();
    assert(distinct_ids(init)) by {
        assert forall|i: int, j: int|
            0 <= i < init.len() && 0 <= j < init.len() && i != j implies init[i].id
            != init[j].id by {
            assert(init[i] == rows[i] && init[j] == rows[j]);
        }
    }
    if k == n {
        assert(!has_id(init, id)) by {
            if has_id(init, id) {
                let m = choose|m: int| 0 <= m < init.len() && (#[trigger] init[m]).id == Some(id);
                assert(rows[m] == init[m]);
            }
        }
        lemma_absent(init, id);
        assert(Seq::<UserView>::empty().push(rows[k]) =~= seq![rows[k]]);
    } else {
        assert(rows[n] == rows.last());
        assert(rows.last().id != Some(id));
        assert(init[k] == rows[k]);
        lemma_unique_hit(init, id, k);
    }
}

/// A valid create answers OK, and the listing that follows answers OK with
/// every row, in whatever order the store gives them, among them a row with
/// a fresh identifier and the submitted name and email; the identifier is
/// the one the serial column held, so this holds while that column has an
/// `i32` left.
pub proof fn create_then_list(
    t: Table,
    create: Seq<char>,
    body: Option<User>,
    list: Seq<char>,
    list_body: Option<User>,
    order: Seq<UserView>,
)
    requires
        table_wf(t),
        t.next_id <= i32::MAX,
        route_of(create) == Route::Create,
        body is Some,
        route_of(list) == Route::List,
    ensures
        ({
            let (after, created) = serve(t, create, body, order);
            let row = UserView {
                id: Some(t.next_id as i32),
                name: body->0.name@,
                email: body->0.email@,
            };
            &&& created == reply(Status::Success, "User created"@)
            &&& table_wf(after)
            &&& !has_id(t.rows, t.next_id as i32)
            &&& after.rows.contains(row)
            &&& forall|listing: Seq<UserView>|
                #![trigger lists(after, listing)]
                lists(after, listing) ==> {
                    &&& listing.contains(row)
                    &&& serve(after, list, list_body, listing) == (
                        after,
                        reply(Status::Success, users_json(listing)),
                    )
                }
        }),
{
    broadcast use vstd::seq_lib::group_to_multiset_ensures;

    let (after, created) = serve(t, create, body, order);
    let row = UserView { id: Some(t.next_id as i32), name: body->0.name@, email: body->0.email@ };
    assert(after.rows == t.rows.push(row));
    assert(after.rows[t.rows.len() as int] == row);
    assert forall|i: int| 0 <= i < after.rows.len() implies (#[trigger] after.rows[i]).id is Some
        && 1 <= after.rows[i].id->0 < after.next_id by {
        if i < t.rows.len() {
            assert(after.rows[i] == t.rows[i]);
        }
    }
    assert forall|i: int, j: int|
        0 <= i < after.rows.len() && 0 <= j < after.rows.len() && i != j implies after.rows[i].id
        != after.rows[j].id by {
        if i < t.rows.len() {
            assert(after.rows[i] == t.rows[i]);
        }
        if j < t.rows.len() {
            assert(after.rows[j] == t.rows[j]);
        }
    }
    if has_id(t.rows, t.next_id as i32) {
        let k = choose|k: int|
            0 <= k < t.rows.len() && (#[trigger] t.rows[k]).id == Some(t.next_id as i32);
    }
    assert(after.rows.contains(row));
    assert forall|listing: Seq<UserView>| #[trigger] lists(after, listing) implies listing.contains(
        row,
    ) by {
        assert(after.rows.to_multiset().count(row) > 0);
        assert(listing.to_multiset().count(row) > 0);
    }
}

/// Reading or deleting an identifier that no row has answers NOT_FOUND and
/// leaves the table as it was.
pub proof fn absent_id_not_found(
    t: Table,
    request: Seq<char>,
    body: Option<User>,
    id: i32,
    order: Seq<UserView>,
)
    requires
        route_of(request) == Route::Read || route_of(request) == Route::Delete,
        parse_i32(id_of(request)) == Some(id),
        !has_id(t.rows, id),
    ensures
        serve(t, request, body, order) == (t, user_not_found()),
{
    lemma_absent(t.rows, id);
}

/// Updating a row that exists answers OK, and reading it back gives the new
/// name and email in full, under the same identifier.
pub proof fn update_then_read(
    t: Table,
    update: Seq<char>,
    body: Option<User>,
    read: Seq<char>,
    read_body: Option<User>,
    id: i32,
    order: Seq<UserView>,
)
    requires
        table_wf(t),
        route_of(update) == Route::Update,
        route_of(read) == Route::Read,
        parse_i32(id_of(update)) == Some(id),
        parse_i32(id_of(read)) == Some(id),
        body is Some,
        has_id(t.rows, id),
    ensures
        ({
            let (after, updated) = serve(t, update, body, order);
            let (last, got) = serve(after, read, read_body, order);
            &&& updated == reply(Status::Success, "User updated"@)
            &&& last == after
            &&& got == reply(
                Status::Success,
                user_json(UserView { id: Some(id), name: body->0.name@, email: body->0.email@ }),
            )
        }),
{
    let u = body->0;
    let k = choose|k: int| 0 <= k < t.rows.len() && (#[trigger] t.rows[k]).id == Some(id);
    let rows = overwrite(t.rows, id, u.name@, u.email@);
    assert(distinct_ids(rows)) by {
        assert forall|i: int, j: int|
            0 <= i < rows.len() && 0 <= j < rows.len() && i != j implies rows[i].id
            != rows[j].id by {
            assert(rows[i].id == t.rows[i].id && rows[j].id == t.rows[j].id);
        }
    }
    assert(rows[k] == UserView { id: Some(id), name: u.name@, email: u.email@ });
    lemma_unique_hit(rows, id, k);
    lemma_unique_hit(t.rows, id, k);
}

/// Deleting a row that exists answers OK, and deleting it again answers
/// NOT_FOUND.
pub proof fn delete_twice(
    t: Table,
    request: Seq<char>,
    body: Option<User>,
    id: i32,
    order: Seq<UserView>,
)
    requires
        table_wf(t),
        route_of(request) == Route::Delete,
        parse_i32(id_of(request)) == Some(id),
        has_id(t.rows, id),
    ensures
        ({
            let (after, first) = serve(t, request, body, order);
            let (last, second) = serve(after, request, body, order);
            &&& first == reply(Status::Success, "User deleted"@)
            &&& !has_id(after.rows, id)
            &&& second == user_not_found()
            &&& last == after
        }),
{
    let k = choose|k: int| 0 <= k < t.rows.len() && (#[trigger] t.rows[k]).id == Some(id);
    lemma_unique_hit(t.rows, id, k);
    lemma_without_absent(t.rows, id);
    lemma_absent(rows_without_id(t.rows, id), id);
}

/// A create or update whose body is not a record's JSON answers with a
/// server error and leaves the table as it was.
pub proof fn malformed_body_writes_nothing(t: Table, request: Seq<char>, order: Seq<UserView>)
    requires
        route_of(request) == Route::Create || route_of(request) == Route::Update,
    ensures
        serve(t, request, None, order) == (t, server_error()),
{
}

proof fn lemma_decimal_digits(n: nat)
    ensures
        is_numeral(decimal(n)),
        digits_value(decimal(n)) == n,
    decreases n,
{
    if n < 10 {
        let d = decimal(n);
        assert(d.drop_last() =~= Seq::<char>::empty());
        assert(digits_value(d.drop_last()) == 0);
        assert(digit_value(digit_char(n as int)) == n);
        assert(digits_value(d) == digits_value(d.drop_last()) * 10 + digit_value(d.last()));
    } else {
        lemma_decimal_digits(n / 10);
        let d = decimal(n);
        assert(d.drop_last() =~= decimal(n / 10));
        assert(digit_value(digit_char((n % 10) as int)) == n % 10);
        assert(digits_value(d) == digits_value(d.drop_last()) * 10 + digit_value(d.last()));
        assert(is_digit(d.last()));
        assert forall|k: int| 0 <= k < d.len() implies is_digit(#[trigger] d[k]) by {
            if k < d.len() - 1 {
                assert(d[k] == decimal(n / 10)[k]);
            }
        }
    }
}

proof fn lemma_int_text_parses(v: i32)
    ensures
        parse_i32(int_text(v as int)) == Some(v),
        int_text(v as int).len() > 0,
        is_digit(int_text(v as int)[0]) || int_text(v as int)[0] == '-',
        forall|k: int|
            0 <= k < int_text(v as int).len() ==> #[trigger] int_text(v as int)[k] != '/' && !is_ws(
                int_text(v as int)[k],
            ),
{
    let s = int_text(v as int);
    if v < 0 {
        let m = (-(v as int)) as nat;
        lemma_decimal_digits(m);
        assert(s.skip(1) =~= decimal(m));
        assert forall|k: int| 0 <= k < s.len() implies #[trigger] s[k] != '/' && !is_ws(s[k]) by {
            if k > 0 {
                assert(s[k] == decimal(m)[k - 1]);
                assert(is_digit(decimal(m)[k - 1]));
            }
        }
    } else {
        lemma_decimal_digits(v as nat);
        assert(is_digit(s[0]));
    }
}

proof fn lemma_field_plain(a: Seq<char>, b: Seq<char>, k: nat)
    requires
        forall|i: int| 0 <= i < a.len() ==> #[trigger] a[i] != '/',
    ensures
        field(a + b, k) == if k == 0 {
            a + field(b, 0)
        } else {
            field(b, k)
        },
    decreases a.len(),
{
    if a.len() > 0 {
        assert((a + b)[0] == a[0]);
        assert((a + b).skip(1) =~= a.skip(1) + b);
        assert forall|i: int| 0 <= i < a.skip(1).len() implies #[trigger] a.skip(1)[i] != '/' by {
            assert(a.skip(1)[i] == a[i + 1]);
        }
        lemma_field_plain(a.skip(1), b, k);
        if k == 0 {
            assert(seq![a[0]] + (a.skip(1) + field(b, 0)) =~= a + field(b, 0));
        }
    } else {
        assert(a + b =~= b);
    }
}

proof fn lemma_leading_word_plain(a: Seq<char>, b: Seq<char>)
    requires
        forall|i: int| 0 <= i < a.len() ==> !is_ws(#[trigger] a[i]),
        b.len() > 0,
        is_ws(b[0]),
    ensures
        leading_word(a + b) == a,
    decreases a.len(),
{
    if a.len() > 0 {
        assert((a + b)[0] == a[0]);
        assert((a + b).skip(1) =~= a.skip(1) + b);
        assert forall|i: int| 0 <= i < a.skip(1).len() implies !is_ws(#[trigger] a.skip(1)[i]) by {
            assert(a.skip(1)[i] == a[i + 1]);
        }
        lemma_leading_word_plain(a.skip(1), b);
        assert(seq![a[0]] + a.skip(1) =~= a);
    } else {
        assert(a + b =~= b);
    }
}

/// A request line `<method> /user/<i in decimal><white space>...`, with the
/// method GET, PUT or DELETE, names identifier `i` and is routed to read,
/// update or delete.
pub proof fn request_names_id(method: Seq<char>, i: i32, rest: Seq<char>)
    requires
        method == "GET"@ || method == "PUT"@ || method == "DELETE"@,
        rest.len() > 0,
        is_ws(rest[0]),
    ensures
        ({
            let request = method + " /user/"@ + int_text(i as int) + rest;
            &&& parse_i32(id_of(request)) == Some(i)
            &&& route_of(request) == if method == "GET"@ {
                Route::Read
            } else if method == "PUT"@ {
                Route::Update
            } else {
                Route::Delete
            }
        }),
{
    reveal_strlit("GET");
    reveal_strlit("PUT");
    reveal_strlit("DELETE");
    reveal_strlit(" /user/");
    reveal_strlit("GET /users");
    reveal_strlit("POST /user");
    reveal_strlit("GET /user");
    reveal_strlit("PUT /user");
    reveal_strlit("DELETE /user");
    let d = int_text(i as int);
    lemma_int_text_parses(i);
    let tail = d + rest;
    let request = method + " /user/"@ + d + rest;
    let head = method + seq![' '];
    assert(request =~= head + (seq!['/'] + (seq!['u', 's', 'e', 'r'] + (seq!['/'] + tail))));
    assert forall|k: int| 0 <= k < head.len() implies #[trigger] head[k] != '/' by {}
    lemma_field_plain(head, seq!['/'] + (seq!['u', 's', 'e', 'r'] + (seq!['/'] + tail)), 2);
    assert((seq!['/'] + (seq!['u', 's', 'e', 'r'] + (seq!['/'] + tail))).skip(1) =~= seq![
        'u',
        's',
        'e',
        'r',
    ] + (seq!['/'] + tail));
    lemma_field_plain(seq!['u', 's', 'e', 'r'], seq!['/'] + tail, 1);
    assert((seq!['/'] + tail).skip(1) =~= tail);
    lemma_field_plain(d, rest, 0);
    assert(field(request, 2) == d + field(rest, 0));
    let w = field(rest, 0);
    assert(rest[0] != '/');
    assert(w.len() > 0 && w[0] == rest[0]);
    lemma_leading_word_plain(d, w);
    assert((d + w)[0] == d[0]);
    assert(id_of(request) == d);
    let n = request.len();
    assert(request[0] == method[0]);
    assert(request[method.len() as int + 7] == d[0]);
    if method == "GET"@ {
        assert(request.take(9) =~= "GET /user"@);
        assert(request[9] != 's');
        if request.len() >= 10 {
            assert(request.take(10)[9] != "GET /users"@[9]);
        }
        assert(!has_prefix(request, "GET /users"@));
        assert(request.take(10)[0] != "POST /user"@[0]);
        assert(!has_prefix(request, "POST /user"@));
    } else if method == "PUT"@ {
        assert(request.take(9) =~= "PUT /user"@);
        assert(request.take(10)[0] != "GET /users"@[0]);
        assert(request.take(10)[1] != "POST /user"@[1]);
        assert(request.take(9)[0] != "GET /user"@[0]);
        assert(!has_prefix(request, "GET /users"@));
        assert(!has_prefix(request, "POST /user"@));
        assert(!has_prefix(request, "GET /user"@));
    } else {
        assert(request.take(12) =~= "DELETE /user"@);
        assert(request.take(10)[0] != "GET /users"@[0]);
        assert(request.take(10)[0] != "POST /user"@[0]);
        assert(request.take(9)[0] != "GET /user"@[0]);
        assert(request.take(9)[0] != "PUT /user"@[0]);
        assert(!has_prefix(request, "GET /users"@));
        assert(!has_prefix(request, "POST /user"@));
        assert(!has_prefix(request, "GET /user"@));
        assert(!has_prefix(request, "PUT /user"@));
    }
}

/// `GET /user/<i>` or `DELETE /user/<i>`, with `i` in decimal and white
/// space after it, answers NOT_FOUND where no row has identifier `i`, and
/// leaves the table as it was.
pub proof fn unknown_id_request_not_found(
    t: Table,
    method: Seq<char>,
    i: i32,
    rest: Seq<char>,
    body: Option<User>,
    order: Seq<UserView>,
)
    requires
        method == "GET"@ || method == "DELETE"@,
        rest.len() > 0,
        is_ws(rest[0]),
        !has_id(t.rows, i),
    ensures
        serve(t, method + " /user/"@ + int_text(i as int) + rest, body, order) == (
            t,
            user_not_found(),
        ),
{
    reveal_strlit("GET");
    reveal_strlit("PUT");
    reveal_strlit("DELETE");
    assert("GET"@[0] != "PUT"@[0] && "GET"@[0] != "DELETE"@[0] && "PUT"@[0] != "DELETE"@[0]);
    request_names_id(method, i, rest);
    absent_id_not_found(t, method + " /user/"@ + int_text(i as int) + rest, body, i, order);
}

/// `PUT /user/<i>` with a record's body, on a row that exists, answers OK,
/// and `GET /user/<i>` then answers OK with that row's new name and email in
/// full; `i` is written in decimal with white space after it.
pub proof fn update_request_then_read(
    t: Table,
    i: i32,
    put_rest: Seq<char>,
    body: Option<User>,
    get_rest: Seq<char>,
    read_body: Option<User>,
    order: Seq<UserView>,
)
    requires
        table_wf(t),
        put_rest.len() > 0,
        is_ws(put_rest[0]),
        get_rest.len() > 0,
        is_ws(get_rest[0]),
        body is Some,
        has_id(t.rows, i),
    ensures
        ({
            let update = "PUT"@ + " /user/"@ + int_text(i as int) + put_rest;
            let read = "GET"@ + " /user/"@ + int_text(i as int) + get_rest;
            let (after, updated) = serve(t, update, body, order);
            let (last, got) = serve(after, read, read_body, order);
            &&& updated == reply(Status::Success, "User updated"@)
            &&& last == after
            &&& got == reply(
                Status::Success,
                user_json(UserView { id: Some(i), name: body->0.name@, email: body->0.email@ }),
            )
        }),
{
    reveal_strlit("GET");
    reveal_strlit("PUT");
    reveal_strlit("DELETE");
    assert("GET"@[0] != "PUT"@[0] && "GET"@[0] != "DELETE"@[0] && "PUT"@[0] != "DELETE"@[0]);
    request_names_id("PUT"@, i, put_rest);
    request_names_id("GET"@, i, get_rest);
    update_then_read(
        t,
        "PUT"@ + " /user/"@ + int_text(i as int) + put_rest,
        body,
        "GET"@ + " /user/"@ + int_text(i as int) + get_rest,
        read_body,
        i,
        order,
    );
}

/// `DELETE /user/<i>` on a row that exists answers OK, and the same request
/// again answers NOT_FOUND; `i` is written in decimal with white space
/// after it.
pub proof fn delete_request_twice(
    t: Table,
    i: i32,
    rest: Seq<char>,
    body: Option<User>,
    order: Seq<UserView>,
)
    requires
        table_wf(t),
        rest.len() > 0,
        is_ws(rest[0]),
        has_id(t.rows, i),
    ensures
        ({
            let request = "DELETE"@ + " /user/"@ + int_text(i as int) + rest;
            let (after, first) = serve(t, request, body, order);
            let (last, second) = serve(after, request, body, order);
            &&& first == reply(Status::Success, "User deleted"@)
            &&& !has_id(after.rows, i)
            &&& second == user_not_found()
            &&& last == after
        }),
{
    reveal_strlit("GET");
    reveal_strlit("PUT");
    reveal_strlit("DELETE");
    assert("GET"@[0] != "PUT"@[0] && "GET"@[0] != "DELETE"@[0] && "PUT"@[0] != "DELETE"@[0]);
    request_names_id("DELETE"@, i, rest);
    delete_twice(t, "DELETE"@ + " /user/"@ + int_text(i as int) + rest, body, i, order);
}

} // verus!

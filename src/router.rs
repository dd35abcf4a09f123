//! The choice of operation for a request, by the prefix of its request line.
use vstd::prelude::*;
use vstd::string::*;

verus! {

/// The operation that a request asks for.
#[derive(Clone, Copy, Debug, PartialEq, Eq, Structural)]
pub enum Route {
    /// `GET /users`: every record.
    List,
    /// `POST /user`: a new record from the body.
    Create,
    /// `GET /user/<id>`: one record.
    Read,
    /// `PUT /user/<id>`: new name and email for one record.
    Update,
    /// `DELETE /user/<id>`: remove one record.
    Delete,
    /// Anything else.
    Unknown,
}

/// Whether `s` begins with `p`.
pub open spec fn has_prefix(s: Seq<char>, p: Seq<char>) -> bool {
    p.len() <= s.len() && s.take(p.len() as int) == p
}

/// Whether `s` begins with `p`.
pub fn starts_with(s: &str, p: &str) -> (r: bool)
    ensures
        r == has_prefix(s@, p@),
{
    let n = s.unicode_len();
    let m = p.unicode_len();
    if m > n {
        return false;
    }
    let mut i: usize = 0;
    while i < m
        invariant
            n == s@.len(),
            m == p@.len(),
            m <= n,
            i <= m,
            forall|k: int| 0 <= k < i ==> s@[k] == p@[k],
        decreases m - i,
    {
        if s.get_char(i) != p.get_char(i) {
            proof {
                assert(s@.take(m as int)[i as int] != p@[i as int]);
            }
            return false;
        }
        i = i + 1;
    }
    proof {
        assert(s@.take(m as int) =~= p@);
    }
    true
}

/// The route of a request line; the prefixes are tried in this order, the
/// first that matches wins.
pub open spec fn route_of(request: Seq<char>) -> Route {
    if has_prefix(request, "GET /users"@) {
        Route::List
    } else if has_prefix(request, "POST /user"@) {
        Route::Create
    } else if has_prefix(request, "GET /user"@) {
        Route::Read
    } else if has_prefix(request, "PUT /user"@) {
        Route::Update
    } else if has_prefix(request, "DELETE /user"@) {
        Route::Delete
    } else {
        Route::Unknown
    }
}

/// The route of a request.
pub fn route(request: &str) -> (r: Route)
    ensures
        r == route_of(request@),
{
    if starts_with(request, "GET /users") {
        Route::List
    } else if starts_with(request, "POST /user") {
        Route::Create
    } else if starts_with(request, "GET /user") {
        Route::Read
    } else if starts_with(request, "PUT /user") {
        Route::Update
    } else if starts_with(request, "DELETE /user") {
        Route::Delete
    } else {
        Route::Unknown
    }
}

/// A request that begins with `GET /users` also begins with the broader
/// `GET /user`, and whatever follows `/users` it is routed to the listing.
pub proof fn users_prefix_precedes_user(request: Seq<char>)
    requires
        has_prefix(request, "GET /users"@),
    ensures
        has_prefix(request, "GET /user"@),
        route_of(request) == Route::List,
{
    reveal_strlit("GET /users");
    reveal_strlit("GET /user");
    assert(request.take(9) =~= request.take(10).take(9));
    assert("GET /users"@.take(9) =~= "GET /user"@);
}

} // verus!

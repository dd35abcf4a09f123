//! The record of the service and its JSON text.
use vstd::prelude::*;
use vstd::string::*;

verus! {

/// A user record: the identifier that the store assigned (absent on input),
/// a name and an email.
#[derive(Clone, Debug)]
pub struct User {
    pub id: Option<i32>,
    pub name: String,
    pub email: String,
}

/// A record as its values: identifier, name and email.
pub struct UserView {
    pub id: Option<i32>,
    pub name: Seq<char>,
    pub email: Seq<char>,
}

impl View for User {
    type V = UserView;

    open spec fn view(&self) -> UserView {
        UserView { id: self.id, name: self.name@, email: self.email@ }
    }
}

/// The views of a sequence of records.
pub open spec fn users_view(us: Seq<User>) -> Seq<UserView> {
    us.map_values(|u: User| u@)
}

/// The lower-case hexadecimal digit of `d`, below 16.
pub open spec fn hex_char(d: int) -> char {
    if d < 10 {
        digit_char(d)
    } else if d == 10 {
        'a'
    } else if d == 11 {
        'b'
    } else if d == 12 {
        'c'
    } else if d == 13 {
        'd'
    } else if d == 14 {
        'e'
    } else {
        'f'
    }
}

/// How a character stands inside a JSON string: '"' and '\' behind a
/// backslash, the controls backspace, tab, line feed, form feed and
/// carriage return as their two-character escapes, other characters below
/// U+0020 as `\u00xx` in lower-case hex, and every other character as is.
pub open spec fn escape_char(c: char) -> Seq<char> {
    let u = c as u32;
    if c == '"' {
        seq!['\\', '"']
    } else if c == '\\' {
        seq!['\\', '\\']
    } else if u == 0x08 {
        seq!['\\', 'b']
    } else if u == 0x09 {
        seq!['\\', 't']
    } else if u == 0x0a {
        seq!['\\', 'n']
    } else if u == 0x0c {
        seq!['\\', 'f']
    } else if u == 0x0d {
        seq!['\\', 'r']
    } else if u < 0x20 {
        seq!['\\', 'u', '0', '0', hex_char(u as int / 16), hex_char(u as int % 16)]
    } else {
        seq![c]
    }
}

/// The characters of `s`, each escaped for a JSON string.
pub open spec fn escaped(s: Seq<char>) -> Seq<char>
    decreases s.len(),
{
    if s.len() == 0 {
        Seq::empty()
    } else {
        escaped(s.drop_last()) + escape_char(s.last())
    }
}

/// The JSON string literal of `s`: its escaped characters between quotes.
pub open spec fn json_string_of(s: Seq<char>) -> Seq<char> {
    seq!['"'] + escaped(s) + seq!['"']
}

/// Relies on `serde_json::to_string` on a `str`: the JSON string literal of
/// `s`, escaped by serde_json's table of escapes. It writes to memory and
/// does not fail for a string.
#[verifier::external_body]
fn json_string(s: &str) -> (r: String)
    ensures
        r@ == json_string_of(s@),
{
    serde_json::to_string(s).unwrap_or_default()
}

/// The character of the decimal digit `d`.
pub open spec fn digit_char(d: int) -> char {
    if d == 0 {
        '0'
    } else if d == 1 {
        '1'
    } else if d == 2 {
        '2'
    } else if d == 3 {
        '3'
    } else if d == 4 {
        '4'
    } else if d == 5 {
        '5'
    } else if d == 6 {
        '6'
    } else if d == 7 {
        '7'
    } else if d == 8 {
        '8'
    } else {
        '9'
    }
}

/// The decimal digits of `n`, with no leading zero.
pub open spec fn decimal(n: nat) -> Seq<char>
    decreases n,
{
    if n < 10 {
        seq![digit_char(n as int)]
    } else {
        decimal(n / 10).push(digit_char((n % 10) as int))
    }
}

/// The decimal text of `v`, with a '-' before a negative value.
pub open spec fn int_text(v: int) -> Seq<char> {
    if v < 0 {
        seq!['-'] + decimal((-v) as nat)
    } else {
        decimal(v as nat)
    }
}

/// The JSON text of an optional identifier: its decimal text, or `null`.
pub open spec fn id_json(id: Option<i32>) -> Seq<char> {
    match id {
        Some(v) => int_text(v as int),
        None => "null"@,
    }
}

/// The JSON object of a record, its fields in the order id, name, email.
pub open spec fn user_json(u: UserView) -> Seq<char> {
    "{\"id\":"@ + id_json(u.id) + ",\"name\":"@ + json_string_of(u.name) + ",\"email\":"@
        + json_string_of(u.email) + "}"@
}

/// The JSON objects of `us`, in order, separated by commas.
pub open spec fn users_json_items(us: Seq<UserView>) -> Seq<char>
    decreases us.len(),
{
    if us.len() == 0 {
        Seq::empty()
    } else if us.len() == 1 {
        user_json(us[0])
    } else {
        users_json_items(us.drop_last()) + ","@ + user_json(us.last())
    }
}

/// The JSON array of the records `us`.
pub open spec fn users_json(us: Seq<UserView>) -> Seq<char> {
    "["@ + users_json_items(us) + "]"@
}

fn digit_text(d: u32) -> (r: &'static str)
    requires
        d < 10,
    ensures
        r@ == seq![digit_char(d as int)],
{
    let digits = "0123456789";
    proof {
        reveal_strlit("0123456789");
    }
    let r = digits.substring_char(d as usize, d as usize + 1);
    proof {
        assert(r@ =~= seq![digit_char(d as int)]);
    }
    r
}

fn push_decimal(out: &mut String, n: u32)
    ensures
        final(out)@ == old(out)@ + decimal(n as nat),
    decreases n,
{
    if n >= 10 {
        push_decimal(out, n / 10);
    }
    out.append(digit_text(n % 10));
    proof {
        if n >= 10 {
            assert(old(out)@ + decimal(n as nat) =~= old(out)@ + decimal((n / 10) as nat) + seq![
                digit_char((n % 10) as int),
            ]);
        } else {
            assert(old(out)@ + decimal(n as nat) =~= old(out)@ + seq![digit_char(n as int)]);
        }
    }
}

fn push_int(out: &mut String, v: i32)
    ensures
        final(out)@ == old(out)@ + int_text(v as int),
{
    if v < 0 {
        out.append("-");
        proof {
            reveal_strlit("-");
        }
        let m = (-(v as i64)) as u32;
        push_decimal(out, m);
        proof {
            assert(old(out)@ + int_text(v as int) =~= old(out)@ + "-"@ + decimal(m as nat));
        }
    } else {
        push_decimal(out, v as u32);
    }
}

impl User {
    /// The JSON object of this record.
    pub fn to_json(&self) -> (r: String)
        ensures
            r@ == user_json(self@),
    {
        let mut out = String::new();
        self.push_json(&mut out);
        proof {
            assert(Seq::<char>::empty() + user_json(self@) =~= user_json(self@));
        }
        out
    }

    fn push_json(&self, out: &mut String)
        ensures
            final(out)@ == old(out)@ + user_json(self@),
    {
        out.append("{\"id\":");
        match self.id {
            Some(v) => push_int(out, v),
            None => out.append("null"),
        }
        out.append(",\"name\":");
        let name = json_string(self.name.as_str());
        out.append(name.as_str());
        out.append(",\"email\":");
        let email = json_string(self.email.as_str());
        out.append(email.as_str());
        out.append("}");
        proof {
            assert(final(out)@ =~= old(out)@ + user_json(self@));
        }
    }
}

/// The JSON array of `users`, in their order.
pub fn users_to_json(users: &Vec<User>) -> (r: String)
    ensures
        r@ == users_json(users_view(users@)),
{
    let mut out = String::new();
    out.append("[");
    let mut i: usize = 0;
    while i < users.len()
        invariant
            i <= users.len(),
            out@ == "["@ + users_json_items(users_view(users@).take(i as int)),
        decreases users.len() - i,
    {
        proof {
            let vs = users_view(users@);
            assert(vs.take(i + 1).drop_last() =~= vs.take(i as int));
            assert(vs.take(i + 1).last() == users@[i as int]@);
        }
        if i > 0 {
            out.append(",");
        }
        users[i].push_json(&mut out);
        proof {
            let vs = users_view(users@);
            if i == 0 {
                assert(vs.take(1) =~= seq![users@[0]@]);
            }
            assert(out@ =~= "["@ + users_json_items(vs.take(i + 1)));
        }
        i = i + 1;
    }
    out.append("]");
    proof {
        assert(users_view(users@).take(users.len() as int) =~= users_view(users@));
    }
    out
}

} // verus!

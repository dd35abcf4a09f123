//! Framing of a raw request: the identifier in its path and its body.
use vstd::prelude::*;
use vstd::string::*;

verus! {

/// Unicode's White_Space property, the set that `char::is_whitespace` tests.
pub open spec fn is_ws(c: char) -> bool {
    let u = c as u32;
    ||| 0x09 <= u <= 0x0d
    ||| u == 0x20
    ||| u == 0x85
    ||| u == 0xa0
    ||| u == 0x1680
    ||| 0x2000 <= u <= 0x200a
    ||| u == 0x2028
    ||| u == 0x2029
    ||| u == 0x202f
    ||| u == 0x205f
    ||| u == 0x3000
}

/// Whether `c` is white space in Unicode's sense.
pub fn is_whitespace(c: char) -> (r: bool)
    ensures
        r == is_ws(c),
{
    let u = c as u32;
    (0x09 <= u && u <= 0x0d) || u == 0x20 || u == 0x85 || u == 0xa0 || u == 0x1680 || (0x2000
        <= u && u <= 0x200a) || u == 0x2028 || u == 0x2029 || u == 0x202f || u == 0x205f || u
        == 0x3000
}

/// The `k`-th field (from zero) of `s` cut at each '/'; empty where `s` has
/// no such field.
pub open spec fn field(s: Seq<char>, k: nat) -> Seq<char>
    decreases s.len(),
{
    if s.len() == 0 {
        Seq::empty()
    } else if s[0] == '/' {
        if k == 0 {
            Seq::empty()
        } else {
            field(s.skip(1), (k - 1) as nat)
        }
    } else if k == 0 {
        seq![s[0]] + field(s.skip(1), 0)
    } else {
        field(s.skip(1), k)
    }
}

/// The leading run of non-white-space characters of `t`.
pub open spec fn leading_word(t: Seq<char>) -> Seq<char>
    decreases t.len(),
{
    if t.len() == 0 || is_ws(t[0]) {
        Seq::empty()
    } else {
        seq![t[0]] + leading_word(t.skip(1))
    }
}

/// The first white-space separated word of `t`; empty where there is none.
pub open spec fn first_word(t: Seq<char>) -> Seq<char>
    decreases t.len(),
{
    if t.len() == 0 {
        Seq::empty()
    } else if is_ws(t[0]) {
        first_word(t.skip(1))
    } else {
        leading_word(t)
    }
}

/// The identifier of a request: the first word of the third '/'-field.
pub open spec fn id_of(request: Seq<char>) -> Seq<char> {
    first_word(field(request, 2))
}

proof fn lemma_skip_step(s: Seq<char>, i: int)
    requires
        0 <= i < s.len(),
    ensures
        s.skip(i).len() > 0,
        s.skip(i)[0] == s[i],
        s.skip(i).skip(1) =~= s.skip(i + 1),
{
}

/// The text of the identifier segment of a request line (`GET /user/42 ...`
/// gives `42`); empty where the path has no such segment.
pub fn get_id(request: &str) -> (r: &str)
    ensures
        r@ == id_of(request@),
{
    let ghost s = request@;
    let n = request.unicode_len();
    let mut i: usize = 0;
    let mut slashes: usize = 0;
    assert(s.skip(0) =~= s);
    while i < n && slashes < 2
        invariant
            s == request@,
            n == s.len(),
            i <= n,
            slashes <= 2,
            field(s, 2) == field(s.skip(i as int), (2 - slashes) as nat),
        decreases n - i,
    {
        proof {
            lemma_skip_step(s, i as int);
        }
        if request.get_char(i) == '/' {
            slashes = slashes + 1;
        }
        i = i + 1;
    }
    if slashes < 2 {
        proof {
            assert(s.skip(i as int).len() == 0);
        }
        return request.substring_char(i, i);
    }
    while i < n && request.get_char(i) != '/' && is_whitespace(request.get_char(i))
        invariant
            s == request@,
            n == s.len(),
            i <= n,
            id_of(s) == first_word(field(s.skip(i as int), 0)),
        decreases n - i,
    {
        proof {
            lemma_skip_step(s, i as int);
            let t = field(s.skip(i as int), 0);
            assert(t[0] == s[i as int]);
            assert(t.skip(1) =~= field(s.skip(i + 1), 0));
        }
        i = i + 1;
    }
    let start = i;
    proof {
        if i < n {
            lemma_skip_step(s, i as int);
        }
    }
    while i < n && request.get_char(i) != '/' && !is_whitespace(request.get_char(i))
        invariant
            s == request@,
            n == s.len(),
            start <= i <= n,
            id_of(s) == s.subrange(start as int, i as int) + leading_word(
                field(s.skip(i as int), 0),
            ),
        decreases n - i,
    {
        proof {
            lemma_skip_step(s, i as int);
            let t = field(s.skip(i as int), 0);
            assert(t[0] == s[i as int]);
            assert(t.skip(1) =~= field(s.skip(i + 1), 0));
            assert(s.subrange(start as int, i + 1) =~= s.subrange(start as int, i as int) + seq![
                s[i as int],
            ]);
        }
        i = i + 1;
    }
    proof {
        if i < n {
            lemma_skip_step(s, i as int);
        }
        assert(s.subrange(start as int, i as int) + Seq::<char>::empty() =~= s.subrange(
            start as int,
            i as int,
        ));
    }
    request.substring_char(start, i)
}


/// Whether the blank line that ends the headers, "\r\n\r\n", starts at `i`.
pub open spec fn blank_line_at(s: Seq<char>, i: int) -> bool {
    &&& 0 <= i
    &&& i + 4 <= s.len()
    &&& s[i] == '\r'
    &&& s[i + 1] == '\n'
    &&& s[i + 2] == '\r'
    &&& s[i + 3] == '\n'
}

/// Where the last piece of `s` begins when `s` is cut at each blank line,
/// the blank lines being found from left to right without overlap: the scan
/// is at `i`, and the piece it is in began at `start`.
pub open spec fn last_piece_start(s: Seq<char>, i: int, start: int) -> int
    decreases s.len() - i,
{
    if i < 0 || i + 4 > s.len() {
        start
    } else if blank_line_at(s, i) {
        last_piece_start(s, i + 4, i + 4)
    } else {
        last_piece_start(s, i + 1, start)
    }
}

/// Whether `s` holds a blank line anywhere.
pub open spec fn has_blank_line(s: Seq<char>) -> bool {
    exists|i: int| blank_line_at(s, i)
}

/// The body of a request: what follows the last blank line; empty where
/// the request has no blank line.
pub open spec fn body_of(request: Seq<char>) -> Seq<char> {
    if has_blank_line(request) {
        request.subrange(last_piece_start(request, 0, 0), request.len() as int)
    } else {
        Seq::empty()
    }
}

/// The body of a request: the text after the last "\r\n\r\n", found from
/// left to right; empty where the request has no blank line.
pub fn request_body(request: &str) -> (r: &str)
    ensures
        r@ == body_of(request@),
{
    let ghost s = request@;
    let n = request.unicode_len();
    let mut i: usize = 0;
    let mut start: usize = 0;
    let mut found = false;
    while n >= 4 && i <= n - 4
        invariant
            s == request@,
            n == s.len(),
            start <= i,
            start <= n,
            last_piece_start(s, i as int, start as int) == last_piece_start(s, 0, 0),
            found ==> has_blank_line(s),
            !found ==> forall|j: int| 0 <= j < i ==> !blank_line_at(s, j),
        decreases n - i,
    {
        if request.get_char(i) == '\r' && request.get_char(i + 1) == '\n' && request.get_char(i + 2)
            == '\r' && request.get_char(i + 3) == '\n' {
            proof {
                assert(blank_line_at(s, i as int));
            }
            found = true;
            i = i + 4;
            start = i;
        } else {
            i = i + 1;
        }
    }
    if !found {
        proof {
            assert(!has_blank_line(s)) by {
                if has_blank_line(s) {
                    let j = choose|j: int| blank_line_at(s, j);
                    assert(j < i);
                }
            }
        }
        return request.substring_char(n, n);
    }
    request.substring_char(start, n)
}


/// Whether `c` is one of the ASCII digits '0' to '9'.
pub open spec fn is_digit(c: char) -> bool {
    48 <= c as u32 <= 57
}

/// The value of the ASCII digit `c`.
pub open spec fn digit_value(c: char) -> int {
    c as u32 - 48
}

/// The value of `t` read as decimal digits, most significant first.
pub open spec fn digits_value(t: Seq<char>) -> int
    decreases t.len(),
{
    if t.len() == 0 {
        0
    } else {
        digits_value(t.drop_last()) * 10 + digit_value(t.last())
    }
}

/// Whether `t` is one or more ASCII digits.
pub open spec fn is_numeral(t: Seq<char>) -> bool {
    t.len() > 0 && forall|k: int| 0 <= k < t.len() ==> is_digit(#[trigger] t[k])
}

/// An integer in decimal: an optional '+' or '-', then one or more digits,
/// with a value that fits in an `i32`; `None` for any other text.
pub open spec fn parse_i32(s: Seq<char>) -> Option<i32> {
    let signed = s.len() > 0 && (s[0] == '-' || s[0] == '+');
    let digits = if signed {
        s.skip(1)
    } else {
        s
    };
    let v = if s.len() > 0 && s[0] == '-' {
        -digits_value(digits)
    } else {
        digits_value(digits)
    };
    if is_numeral(digits) && i32::MIN <= v <= i32::MAX {
        Some(v as i32)
    } else {
        None
    }
}

/// Reads an identifier as a decimal `i32`.
pub fn parse_id(text: &str) -> (r: Option<i32>)
    ensures
        r == parse_i32(text@),
{
    let ghost s = text@;
    let n = text.unicode_len();
    let mut i: usize = 0;
    let mut negative = false;
    if n > 0 && (text.get_char(0) == '-' || text.get_char(0) == '+') {
        negative = text.get_char(0) == '-';
        i = 1;
    }
    let ghost digits = s.skip(i as int);
    proof {
        assert(s.skip(0) =~= s);
        assert(digits == if s.len() > 0 && (s[0] == '-' || s[0] == '+') {
            s.skip(1)
        } else {
            s
        });
        assert(negative == (s.len() > 0 && s[0] == '-'));
    }
    if i == n {
        proof {
            assert(digits.len() == 0);
        }
        return None;
    }
    // The value read so far, held at `cap` once it passes `cap`.
    let cap: i64 = 2147483649;
    let mut acc: i64 = 0;
    let ghost first = i;
    while i < n
        invariant
            s == text@,
            n == s.len(),
            first <= i <= n,
            first < n,
            digits == s.skip(first as int),
            digits == if s.len() > 0 && (s[0] == '-' || s[0] == '+') {
                s.skip(1)
            } else {
                s
            },
            0 <= acc <= cap,
            cap == 2147483649,
            acc == if digits_value(digits.take(i - first)) < cap {
                digits_value(digits.take(i - first))
            } else {
                cap as int
            },
            forall|k: int| 0 <= k < i - first ==> is_digit(#[trigger] digits[k]),
        decreases n - i,
    {
        let c = text.get_char(i);
        proof {
            assert(digits[i - first] == c);
            assert(digits.take(i - first + 1).drop_last() =~= digits.take(i - first));
        }
        if !(48 <= c as u32 && c as u32 <= 57) {
            proof {
                assert(!is_digit(digits[i - first]));
                assert(!is_numeral(digits));
            }
            return None;
        }
        let d = (c as u32 - 48) as i64;
        if acc < cap {
            acc = acc * 10 + d;
            if acc > cap {
                acc = cap;
            }
        }
        i = i + 1;
    }
    proof {
        assert(digits.take(n - first) =~= digits);
    }
    if acc == cap {
        return None;
    }
    if negative {
        Some((-acc) as i32)
    } else if acc <= 2147483647 {
        Some(acc as i32)
    } else {
        None
    }
}

} // verus!

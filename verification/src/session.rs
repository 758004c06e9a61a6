//! Browser sessions: handing out session ids and finding the session cookie.
//!
//! Session ids are deliberately easy to guess: they only keep users from stepping on
//! each other's nodes by mistake.

use vstd::prelude::*;

use crate::text::{decimal, digit_char, push_decimal, push_str, str_eq};

verus! {

/// The name of the session cookie.
pub const SESSION_COOKIE_NAME: &'static str = "event_game_session";

/// The session id issued as number `n`.
pub open spec fn session_name(n: nat) -> Seq<char> {
    "session-"@ + decimal(n)
}

/// The decimal rendering is never empty.
pub proof fn lemma_decimal_nonempty(n: nat)
    ensures
        decimal(n).len() >= 1,
    decreases n,
{
    if n >= 10 {
        lemma_decimal_nonempty(n / 10);
    }
}

/// Digits have different characters.
pub proof fn lemma_digit_char_injective(a: nat, b: nat)
    requires
        a < 10,
        b < 10,
        digit_char(a) == digit_char(b),
    ensures
        a == b,
{
    assert(digit_char(a) as u32 == 48 + a);
    assert(digit_char(b) as u32 == 48 + b);
}

/// Different numbers have different decimal renderings.
pub proof fn lemma_decimal_injective(a: nat, b: nat)
    requires
        decimal(a) == decimal(b),
    ensures
        a == b,
    decreases a,
{
    if a < 10 && b < 10 {
        assert(decimal(a)[0] == digit_char(a));
        assert(decimal(b)[0] == digit_char(b));
        lemma_digit_char_injective(a, b);
    } else if a < 10 {
        lemma_decimal_nonempty(b / 10);
    } else if b < 10 {
        lemma_decimal_nonempty(a / 10);
    } else {
        let da = decimal(a / 10);
        let db = decimal(b / 10);
        assert(decimal(a) == da + seq![digit_char(a % 10)]);
        assert(decimal(b) == db + seq![digit_char(b % 10)]);
        assert(decimal(a).last() == digit_char(a % 10));
        assert(decimal(b).last() == digit_char(b % 10));
        assert(da =~= decimal(a).drop_last());
        assert(db =~= decimal(b).drop_last());
        lemma_decimal_injective(a / 10, b / 10);
        lemma_digit_char_injective(a % 10, b % 10);
    }
}

/// Different numbers give different session ids.
pub proof fn lemma_session_name_injective(a: nat, b: nat)
    requires
        session_name(a) == session_name(b),
    ensures
        a == b,
{
    reveal_strlit("session-");
    assert(decimal(a) =~= session_name(a).skip(8));
    assert(decimal(b) =~= session_name(b).skip(8));
    lemma_decimal_injective(a, b);
}

/// The ids of the sessions issued so far.
#[derive(Debug)]
pub struct SessionStore {
    next_id: u64,
    issued: Vec<String>,
}

/// The view of the session store: how many ids were issued, and which.
pub struct SSessions {
    pub next_id: u64,
    pub issued: Set<Seq<char>>,
}

impl View for SessionStore {
    type V = SSessions;

    closed spec fn view(&self) -> SSessions {
        SSessions {
            next_id: self.next_id,
            issued: Set::new(|s: Seq<char>| exists|i: int| 0 <= i < self.issued@.len() && #[trigger] self.issued@[i]@ == s),
        }
    }
}

/// The ids `session-1` to `session-n`.
pub open spec fn first_sessions(n: nat) -> Set<Seq<char>> {
    Set::new(|s: Seq<char>| exists|j: nat| 1 <= j <= n && s == #[trigger] session_name(j))
}

impl Default for SessionStore {
    fn default() -> (r: SessionStore)
        ensures
            r.wf(),
            r@.next_id == 0,
            r@.issued == Set::<Seq<char>>::empty(),
    {
        SessionStore::new()
    }
}

impl SessionStore {
    /// The store has issued exactly `session-1` to `session-<next_id>`.
    pub closed spec fn wf(&self) -> bool {
        self@.issued == first_sessions(self.next_id as nat)
    }

    /// A store that has issued nothing.
    pub fn new() -> (r: SessionStore)
        ensures
            r.wf(),
            r@.next_id == 0,
            r@.issued == Set::<Seq<char>>::empty(),
    {
        let r = SessionStore { next_id: 0, issued: Vec::new() };
        assert(r@.issued =~= Set::<Seq<char>>::empty());
        assert(first_sessions(0) =~= Set::<Seq<char>>::empty());
        r
    }

    /// Issues the next session id: `session-` and the number of ids issued so far.
    pub fn issue(&mut self) -> (r: String)
        requires
            old(self).wf(),
            old(self)@.next_id < u64::MAX,
        ensures
            final(self).wf(),
            final(self)@.next_id == old(self)@.next_id + 1,
            r@ == session_name(final(self)@.next_id as nat),
            !old(self)@.issued.contains(r@),
            final(self)@.issued == old(self)@.issued.insert(r@),
    {
        self.next_id = self.next_id + 1;
        let mut session_id = String::new();
        push_str(&mut session_id, "session-");
        push_decimal(&mut session_id, self.next_id);
        let ghost n = self.next_id as nat;
        let ghost old_issued = old(self)@.issued;
        assert(session_id@ =~= session_name(n)) by {
            reveal_strlit("session-");
        }
        assert(!old_issued.contains(session_id@)) by {
            if old_issued.contains(session_id@) {
                assert(first_sessions((n - 1) as nat).contains(session_id@));
                let j = choose|j: nat| 1 <= j <= n - 1 && session_id@ == #[trigger] session_name(j);
                lemma_session_name_injective(j, n);
            }
        }
        let ghost before = self.issued@;
        self.issued.push(session_id.clone());
        proof {
            assert(self@.issued =~= old_issued.insert(session_id@)) by {
                assert forall|s: Seq<char>| self@.issued.contains(s) implies old_issued.insert(session_id@).contains(s) by {
                    let i = choose|i: int| 0 <= i < self.issued@.len() && #[trigger] self.issued@[i]@ == s;
                    if i < before.len() {
                        assert(before[i]@ == s);
                    }
                }
                assert forall|s: Seq<char>| old_issued.insert(session_id@).contains(s) implies self@.issued.contains(s) by {
                    if s == session_id@ {
                        assert(self.issued@[before.len() as int]@ == s);
                    } else {
                        let i = choose|i: int| 0 <= i < before.len() && #[trigger] before[i]@ == s;
                        assert(self.issued@[i]@ == s);
                    }
                }
            }
            assert(first_sessions(n) =~= first_sessions((n - 1) as nat).insert(session_name(n))) by {
                assert forall|s: Seq<char>| first_sessions(n).contains(s) implies first_sessions((n - 1) as nat).insert(
                    session_name(n),
                ).contains(s) by {
                    let j = choose|j: nat| 1 <= j <= n && s == #[trigger] session_name(j);
                    if j < n {
                        assert(first_sessions((n - 1) as nat).contains(s));
                    }
                }
                assert forall|s: Seq<char>| first_sessions((n - 1) as nat).insert(session_name(n)).contains(s) implies first_sessions(
                    n,
                ).contains(s) by {
                    if s != session_name(n) {
                        let j = choose|j: nat| 1 <= j <= n - 1 && s == #[trigger] session_name(j);
                        assert(1 <= j <= n);
                    }
                }
            }
        }
        session_id
    }

    /// How many session ids were issued.
    pub fn issued_count(&self) -> (r: u64)
        ensures
            r == self@.next_id,
    {
        self.next_id
    }

    /// Whether `session_id` was issued by this store.
    pub fn contains(&self, session_id: &str) -> (r: bool)
        ensures
            r == self@.issued.contains(session_id@),
    {
        let n = self.issued.len();
        let mut i: usize = 0;
        while i < n
            invariant
                n == self.issued@.len(),
                i <= n,
                forall|j: int| 0 <= j < i ==> #[trigger] self.issued@[j]@ != session_id@,
            decreases n - i,
        {
            if str_eq(self.issued[i].as_str(), session_id) {
                assert(self@.issued.contains(session_id@)) by {
                    assert(self.issued@[i as int]@ == session_id@);
                }
                return true;
            }
            i = i + 1;
        }
        assert(!self@.issued.contains(session_id@)) by {
            if self@.issued.contains(session_id@) {
                let j = choose|j: int| 0 <= j < self.issued@.len() && #[trigger] self.issued@[j]@ == session_id@;
            }
        }
        false
    }
}


// ---------------------------------------------------------------------------
// The session cookie.
// ---------------------------------------------------------------------------

/// Rust's `char::is_whitespace`: the characters with the Unicode property White_Space.
pub open spec fn is_white_space(c: char) -> bool {
    let u = c as u32;
    ||| 9 <= u <= 13
    ||| u == 32
    ||| u == 0x85
    ||| u == 0xA0
    ||| u == 0x1680
    ||| 0x2000 <= u <= 0x200A
    ||| u == 0x2028
    ||| u == 0x2029
    ||| u == 0x202F
    ||| u == 0x205F
    ||| u == 0x3000
}

/// Whether a character is white space.
pub fn char_is_white_space(c: char) -> (r: bool)
    ensures
        r == is_white_space(c),
{
    let u = c as u32;
    (9 <= u && u <= 13) || u == 32 || u == 0x85 || u == 0xA0 || u == 0x1680 || (0x2000 <= u && u <= 0x200A)
        || u == 0x2028 || u == 0x2029 || u == 0x202F || u == 0x205F || u == 0x3000
}

/// The text without its leading white space.
pub open spec fn trim_start(s: Seq<char>) -> Seq<char>
    decreases s.len(),
{
    if s.len() > 0 && is_white_space(s[0]) {
        trim_start(s.drop_first())
    } else {
        s
    }
}

/// The text without its trailing white space.
pub open spec fn trim_end(s: Seq<char>) -> Seq<char>
    decreases s.len(),
{
    if s.len() > 0 && is_white_space(s.last()) {
        trim_end(s.drop_last())
    } else {
        s
    }
}

/// The text without white space at either end.
pub open spec fn trim(s: Seq<char>) -> Seq<char> {
    trim_end(trim_start(s))
}

/// The position of the first `c` in the text, or its length when there is none.
pub open spec fn find_char(s: Seq<char>, c: char) -> int
    decreases s.len(),
{
    if s.len() == 0 {
        0
    } else if s[0] == c {
        0
    } else {
        1 + find_char(s.drop_first(), c)
    }
}

pub proof fn lemma_find_char_bounds(s: Seq<char>, c: char)
    ensures
        0 <= find_char(s, c) <= s.len(),
        find_char(s, c) < s.len() ==> s[find_char(s, c)] == c,
    decreases s.len(),
{
    if s.len() > 0 && s[0] != c {
        lemma_find_char_bounds(s.drop_first(), c);
    }
}

/// The value of the cookie `name` in a `Cookie` header: the pieces between `;` are
/// trimmed and split at their first `=`, in order, until one has the name. A piece
/// without `=` before the one that has it ends the search with nothing.
pub open spec fn cookie_lookup(s: Seq<char>, name: Seq<char>) -> Option<Seq<char>>
    decreases s.len(),
{
    let i = find_char(s, ';');
    let t = trim(s.take(i));
    let e = find_char(t, '=');
    if e >= t.len() {
        None
    } else if t.take(e) == name {
        Some(t.skip(e + 1))
    } else if i >= s.len() {
        None
    } else {
        proof {
            lemma_find_char_bounds(s, ';');
        }
        cookie_lookup(s.skip(i + 1), name)
    }
}

/// The position of the first `c` from `from` on, before `to`.
fn scan_to(s: &str, from: usize, to: usize, c: char) -> (r: usize)
    requires
        from <= to <= s@.len(),
    ensures
        from <= r <= to,
        r - from == find_char(s@.subrange(from as int, to as int), c),
{
    let mut i = from;
    while i < to && s.get_char(i) != c
        invariant
            from <= i <= to <= s@.len(),
            find_char(s@.subrange(from as int, to as int), c) == (i - from) + find_char(
                s@.subrange(i as int, to as int),
                c,
            ),
        decreases to - i,
    {
        assert(s@.subrange(i as int, to as int).drop_first() =~= s@.subrange(i + 1, to as int));
        i = i + 1;
    }
    proof {
        if i < to {
            assert(s@.subrange(i as int, to as int)[0] == c);
        }
    }
    i
}

/// The bounds of the text between `from` and `to` without white space at either end.
fn trim_bounds(s: &str, from: usize, to: usize) -> (r: (usize, usize))
    requires
        from <= to <= s@.len(),
    ensures
        from <= r.0 <= r.1 <= to,
        s@.subrange(r.0 as int, r.1 as int) == trim(s@.subrange(from as int, to as int)),
{
    let mut a = from;
    while a < to && char_is_white_space(s.get_char(a))
        invariant
            from <= a <= to <= s@.len(),
            trim_start(s@.subrange(from as int, to as int)) == trim_start(s@.subrange(a as int, to as int)),
        decreases to - a,
    {
        assert(s@.subrange(a as int, to as int).drop_first() =~= s@.subrange(a + 1, to as int));
        a = a + 1;
    }
    assert(trim_start(s@.subrange(a as int, to as int)) == s@.subrange(a as int, to as int));
    let mut b = to;
    while b > a && char_is_white_space(s.get_char(b - 1))
        invariant
            from <= a <= b <= to <= s@.len(),
            trim(s@.subrange(from as int, to as int)) == trim_end(s@.subrange(a as int, b as int)),
        decreases b - a,
    {
        assert(s@.subrange(a as int, b as int).drop_last() =~= s@.subrange(a as int, b - 1));
        b = b - 1;
    }
    (a, b)
}

/// The value of the session cookie in a `Cookie` header, if it has one.
pub fn session_cookie(header: &str) -> (r: Option<String>)
    ensures
        match cookie_lookup(header@, SESSION_COOKIE_NAME@) {
            Some(v) => r matches Some(x) && x@ == v,
            None => r is None,
        },
{
    let n = header.unicode_len();
    let mut start: usize = 0;
    assert(header@.skip(0) =~= header@);
    loop
        invariant
            n == header@.len(),
            start <= n,
            cookie_lookup(header@, SESSION_COOKIE_NAME@) == cookie_lookup(header@.skip(start as int), SESSION_COOKIE_NAME@),
        decreases n - start,
    {
        let ghost rest = header@.skip(start as int);
        let end = scan_to(header, start, n, ';');
        assert(header@.subrange(start as int, n as int) =~= rest);
        assert(rest.take(end - start) =~= header@.subrange(start as int, end as int));
        let (a, b) = trim_bounds(header, start, end);
        let ghost t = header@.subrange(a as int, b as int);
        let e = scan_to(header, a, b, '=');
        assert(header@.subrange(a as int, b as int) == t);
        if e == b {
            return None;
        }
        let key = header.substring_char(a, e);
        assert(t.take(e - a) =~= key@);
        if str_eq(key, SESSION_COOKIE_NAME) {
            let value = header.substring_char(e + 1, b);
            assert(t.skip(e - a + 1) =~= value@);
            return Some(value.to_owned());
        }
        if end == n {
            return None;
        }
        assert(rest.skip(end - start + 1) =~= header@.skip(end + 1));
        start = end + 1;
    }
}

/// The `Set-Cookie` value that hands a session id to the browser.
pub fn session_cookie_value(session_id: &str) -> (r: String)
    ensures
        r@ == SESSION_COOKIE_NAME@ + "="@ + session_id@ + "; Path=/; HttpOnly; SameSite=Lax"@,
{
    let mut out = String::new();
    push_str(&mut out, SESSION_COOKIE_NAME);
    push_str(&mut out, "=");
    push_str(&mut out, session_id);
    push_str(&mut out, "; Path=/; HttpOnly; SameSite=Lax");
    assert(out@ =~= SESSION_COOKIE_NAME@ + "="@ + session_id@ + "; Path=/; HttpOnly; SameSite=Lax"@);
    out
}

// ---------------------------------------------------------------------------
// The admin token.
// ---------------------------------------------------------------------------

/// Whether an `Authorization` header value is `Bearer ` followed by the token.
pub open spec fn bearer_matches(h: Seq<char>, token: Seq<char>) -> bool {
    h.len() >= 7 && h.take(7) == "Bearer "@ && h.skip(7) == token
}

/// Whether a request carries the admin token, as a bearer token or in `x-admin-token`.
pub open spec fn s_admin_authorized(authorization: Option<Seq<char>>, x_admin_token: Option<Seq<char>>, token: Seq<char>) -> bool {
    ||| (authorization matches Some(h) && bearer_matches(h, token))
    ||| (x_admin_token matches Some(v) && v == token)
}

/// Whether a request carries the admin token. Each header is given as its text, or
/// `None` when it is missing or is not visible ASCII.
pub fn admin_authorized(authorization: Option<&str>, x_admin_token: Option<&str>, admin_token: &str) -> (r: bool)
    ensures
        r == s_admin_authorized(
            match authorization {
                Some(h) => Some(h@),
                None => None,
            },
            match x_admin_token {
                Some(v) => Some(v@),
                None => None,
            },
            admin_token@,
        ),
{
    proof {
        reveal_strlit("Bearer ");
    }
    let bearer = match authorization {
        Some(h) => {
            let len = h.unicode_len();
            if len >= 7 && str_eq(h.substring_char(0, 7), "Bearer ") {
                let rest = h.substring_char(7, len);
                assert(rest@ =~= h@.skip(7));
                str_eq(rest, admin_token)
            } else {
                assert(len >= 7 ==> h@.subrange(0, 7) =~= h@.take(7));
                false
            }
        },
        None => false,
    };
    let header = match x_admin_token {
        Some(v) => str_eq(v, admin_token),
        None => false,
    };
    bearer || header
}

} // verus!

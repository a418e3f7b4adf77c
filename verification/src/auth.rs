//! Administrator sign-in: credential check, a bounded table of sessions
//! that expire, and token rules. A token is 64 random hexadecimal digits,
//! drawn by `sign_in`; times are milliseconds of a monotonic clock and come
//! from the caller.
use vstd::prelude::*;

use crate::text::{chars_eq, chars_of, str_eq};

verus! {

/// Lifetime of a session, in seconds.
pub const SESSION_TTL_SECS: u64 = 28800;

/// Lifetime of a session, in milliseconds.
pub const SESSION_TTL_MS: u64 = 28800000;

/// At most this many sessions are kept; the one closest to expiry makes
/// room for a new one.
pub const MAX_ACTIVE_SESSIONS: usize = 64;

#[derive(Clone, Debug, PartialEq, Eq)]
pub struct AuthenticatedUser {
    pub username: String,
}

/// One session: its token, its user and its expiry time.
pub struct Session {
    pub token: String,
    pub username: String,
    pub expires_at: u64,
}

pub struct SessionView {
    pub token: Seq<char>,
    pub username: Seq<char>,
    pub expires_at: u64,
}

impl View for Session {
    type V = SessionView;

    open spec fn view(&self) -> SessionView {
        SessionView { token: self.token@, username: self.username@, expires_at: self.expires_at }
    }
}

pub open spec fn session_views(s: Seq<Session>) -> Seq<SessionView> {
    s.map_values(|x: Session| x@)
}

pub open spec fn is_hex_byte(b: u8) -> bool {
    (48 <= b <= 57) || (65 <= b <= 70) || (97 <= b <= 102)
}

/// A well-formed token: 64 bytes, all hexadecimal digits.
pub open spec fn token_ok(token: Seq<char>) -> bool {
    let b = vstd::utf8::encode_utf8(token);
    b.len() == 64 && forall|i: int| 0 <= i < b.len() ==> #[trigger] is_hex_byte(b[i])
}

/// A lower-case hexadecimal digit: `0`-`9` or `a`-`f`.
pub open spec fn is_lower_hex_char(c: char) -> bool {
    let v = c as u32;
    (48 <= v <= 57) || (97 <= v <= 102)
}

/// One random UUID from `uuid::Uuid::new_v4`, written in its simple form:
/// 32 lower-case hexadecimal digits. Only the shape is stated; the digits
/// are random. `new_v4` panics only when the operating system cannot
/// supply random bytes.
#[verifier::external_body]
fn uuid_v4_simple() -> (s: String)
    ensures
        s@.len() == 32,
        forall|i: int| 0 <= i < s@.len() ==> is_lower_hex_char(#[trigger] s@[i]),
{
    uuid::Uuid::new_v4().simple().to_string()
}

/// Lower-case hexadecimal digits are one byte each in UTF-8, and those
/// bytes are hexadecimal digits.
proof fn lemma_lower_hex_bytes(s: Seq<char>)
    requires
        forall|i: int| 0 <= i < s.len() ==> is_lower_hex_char(#[trigger] s[i]),
    ensures
        vstd::utf8::encode_utf8(s).len() == s.len(),
        forall|i: int|
            0 <= i < s.len() ==> #[trigger] is_hex_byte(vstd::utf8::encode_utf8(s)[i]),
    decreases s.len(),
{
    if s.len() > 0 {
        let rest = s.drop_first();
        assert forall|i: int| 0 <= i < rest.len() implies is_lower_hex_char(#[trigger] rest[i]) by {
            assert(rest[i] == s[i + 1]);
        }
        lemma_lower_hex_bytes(rest);
        let v = s[0] as u32;
        assert(is_lower_hex_char(s[0]));
        assert(v <= 0x7F ==> v & 0x7F == v) by (bit_vector);
        let first = vstd::utf8::encode_scalar(v);
        assert(first =~= seq![(v & 0x7F) as u8]);
        let e = vstd::utf8::encode_utf8(s);
        assert(e == first + vstd::utf8::encode_utf8(rest));
        assert forall|i: int| 0 <= i < s.len() implies #[trigger] is_hex_byte(e[i]) by {
            if i > 0 {
                assert(e[i] == vstd::utf8::encode_utf8(rest)[i - 1]);
            }
        }
    }
}

/// Draws a session token: two random UUIDs in their simple form, joined
/// into 64 lower-case hexadecimal digits.
fn fresh_token() -> (s: String)
    ensures
        token_ok(s@),
{
    let mut s = uuid_v4_simple();
    let second = uuid_v4_simple();
    let ghost a = s@;
    crate::text::push_str(&mut s, second.as_str());
    proof {
        assert forall|i: int| 0 <= i < s@.len() implies is_lower_hex_char(#[trigger] s@[i]) by {
            if i < 32 {
                assert(s@[i] == a[i]);
            } else {
                assert(s@[i] == second@[i - 32]);
            }
        }
        lemma_lower_hex_bytes(s@);
    }
    s
}

/// Whether a token has the shape of a session token.
pub fn is_valid_token(token: &str) -> (b: bool)
    ensures
        b == token_ok(token@),
{
    let bytes = token.as_bytes();
    if bytes.len() != 64 {
        return false;
    }
    let mut i: usize = 0;
    while i < bytes.len()
        invariant
            i <= bytes@.len(),
            bytes@ == vstd::utf8::encode_utf8(token@),
            forall|k: int| 0 <= k < i ==> #[trigger] is_hex_byte(bytes@[k]),
        decreases bytes@.len() - i,
    {
        let b = bytes[i];
        if !((48 <= b && b <= 57) || (65 <= b && b <= 70) || (97 <= b && b <= 102)) {
            assert(!is_hex_byte(bytes@[i as int]));
            return false;
        }
        i += 1;
    }
    true
}

/// Compares two byte strings in time that depends only on their lengths.
pub fn constant_time_eq(left: &[u8], right: &[u8]) -> (b: bool)
    ensures
        b == (left@ == right@),
{
    let ll = left.len();
    let rl = right.len();
    let mut difference: usize = ll ^ rl;
    assert(difference == 0 <==> ll == rl) by (bit_vector)
        requires
            difference == ll ^ rl,
    ;
    let max_len = if left.len() >= right.len() {
        left.len()
    } else {
        right.len()
    };
    let mut index: usize = 0;
    while index < max_len
        invariant
            index <= max_len,
            max_len == (if left@.len() >= right@.len() {
                left@.len()
            } else {
                right@.len()
            }),
            difference == 0 <==> (left@.len() == right@.len() && forall|k: int|
                0 <= k < index ==> left@[k] == right@[k]),
        decreases max_len - index,
    {
        let l: u8 = if index < left.len() {
            left[index]
        } else {
            0
        };
        let r: u8 = if index < right.len() {
            right[index]
        } else {
            0
        };
        let x: u8 = l ^ r;
        assert(x == 0 <==> l == r) by (bit_vector)
            requires
                x == l ^ r,
        ;
        let old_difference = difference;
        difference = difference | (x as usize);
        assert(difference == 0 <==> (old_difference == 0 && x == 0)) by (bit_vector)
            requires
                difference == old_difference | (x as usize),
        ;
        index += 1;
    }
    let same = difference == 0;
    if same {
        assert(left@ =~= right@);
    }
    same
}

/// The first session with this token.
pub open spec fn token_slot(s: Seq<SessionView>, token: Seq<char>, from: int) -> Option<int>
    decreases s.len() - from,
{
    if from < 0 || from >= s.len() {
        None
    } else if s[from].token == token {
        Some(from)
    } else {
        token_slot(s, token, from + 1)
    }
}

/// The sessions still alive at `now`, in order.
pub open spec fn alive(s: Seq<SessionView>, now: u64) -> Seq<SessionView>
    decreases s.len(),
{
    if s.len() == 0 {
        s
    } else {
        let rest = alive(s.drop_last(), now);
        if s.last().expires_at > now {
            rest.push(s.last())
        } else {
            rest
        }
    }
}

/// The first session with the earliest expiry.
pub open spec fn oldest_slot(s: Seq<SessionView>, i: int) -> int
    decreases i,
{
    if i <= 0 {
        0
    } else {
        let best = oldest_slot(s, i - 1);
        if s[i].expires_at < s[best].expires_at {
            i
        } else {
            best
        }
    }
}

/// The sessions without the one holding `token`.
pub open spec fn without_token(s: Seq<SessionView>, token: Seq<char>) -> Seq<SessionView> {
    match token_slot(s, token, 0) {
        Some(i) => s.remove(i),
        None => s,
    }
}

pub open spec fn sat_add(a: u64, b: u64) -> u64 {
    if a + b > u64::MAX {
        u64::MAX
    } else {
        (a + b) as u64
    }
}

/// The sessions after a sign-in at `now`: expired ones dropped, the oldest
/// evicted when the table is full, and the new session added.
pub open spec fn signed_in(s: Seq<SessionView>, token: Seq<char>, user: Seq<char>, now: u64) -> Seq<
    SessionView,
> {
    let live = alive(s, now);
    let room = if live.len() >= MAX_ACTIVE_SESSIONS {
        live.remove(oldest_slot(live, live.len() - 1))
    } else {
        live
    };
    without_token(room, token).push(
        SessionView { token, username: user, expires_at: sat_add(now, SESSION_TTL_MS) },
    )
}

pub open spec fn tokens_distinct(s: Seq<SessionView>) -> bool {
    forall|i: int, j: int|
        0 <= i < s.len() && 0 <= j < s.len() && i != j ==> #[trigger] s[i].token != #[trigger] s[j].token
}

/// The administrator account and its sessions.
pub struct AuthManager {
    username: String,
    password: String,
    sessions: Vec<Session>,
}

impl AuthManager {
    pub closed spec fn sessions(&self) -> Seq<SessionView> {
        session_views(self.sessions@)
    }

    pub closed spec fn username(&self) -> Seq<char> {
        self.username@
    }

    pub closed spec fn password(&self) -> Seq<char> {
        self.password@
    }

    pub open spec fn wf(&self) -> bool {
        self.sessions().len() <= MAX_ACTIVE_SESSIONS && tokens_distinct(self.sessions())
    }

    pub fn new(username: String, password: String) -> (m: AuthManager)
        ensures
            m.wf(),
            m.username() == username@,
            m.password() == password@,
            m.sessions() == Seq::<SessionView>::empty(),
    {
        let m = AuthManager { username, password, sessions: Vec::new() };
        assert(m.sessions() =~= Seq::<SessionView>::empty());
        m
    }

    fn find(&self, token: &str) -> (r: Option<usize>)
        ensures
            match r {
                Some(i) => token_slot(self.sessions(), token@, 0) == Some(i as int) && i
                    < self.sessions().len(),
                None => token_slot(self.sessions(), token@, 0) is None,
            },
    {
        let ghost s = self.sessions();
        let t = chars_of(token);
        let mut i: usize = 0;
        while i < self.sessions.len()
            invariant
                i <= self.sessions@.len(),
                s == session_views(self.sessions@),
                t@ == token@,
                token_slot(s, token@, 0) == token_slot(s, token@, i as int),
            decreases self.sessions@.len() - i,
        {
            let c = chars_of(self.sessions[i].token.as_str());
            if chars_eq(c.as_slice(), t.as_slice()) {
                return Some(i);
            }
            i += 1;
        }
        None
    }

    fn remove_at(&mut self, i: usize)
        requires
            old(self).wf(),
            i < old(self).sessions().len(),
        ensures
            final(self).wf(),
            final(self).sessions() == old(self).sessions().remove(i as int),
            final(self).username() == old(self).username(),
            final(self).password() == old(self).password(),
    {
        let ghost before = self.sessions();
        self.sessions.remove(i);
        assert(self.sessions() =~= before.remove(i as int));
        assert forall|a: int, b: int|
            0 <= a < self.sessions().len() && 0 <= b < self.sessions().len() && a != b implies #[trigger] self.sessions()[a].token
            != #[trigger] self.sessions()[b].token by {
            let a2 = if a < i {
                a
            } else {
                a + 1
            };
            let b2 = if b < i {
                b
            } else {
                b + 1
            };
            assert(before[a2].token != before[b2].token);
        }
    }

    fn drop_expired(&mut self, now: u64)
        requires
            old(self).wf(),
        ensures
            final(self).wf(),
            final(self).sessions() == alive(old(self).sessions(), now),
            final(self).username() == old(self).username(),
            final(self).password() == old(self).password(),
    {
        let ghost before = self.sessions();
        let mut kept: Vec<Session> = Vec::new();
        let mut i: usize = 0;
        while i < self.sessions.len()
            invariant
                i <= self.sessions@.len(),
                before == session_views(self.sessions@),
                session_views(kept@) == alive(before.take(i as int), now),
            decreases self.sessions@.len() - i,
        {
            let s = &self.sessions[i];
            assert(before.take(i + 1).drop_last() =~= before.take(i as int));
            assert(before.take(i + 1).last() == before[i as int]);
            if s.expires_at > now {
                kept.push(
                    Session {
                        token: s.token.clone(),
                        username: s.username.clone(),
                        expires_at: s.expires_at,
                    },
                );
                assert(session_views(kept@) =~= alive(before.take(i + 1), now));
            } else {
                assert(session_views(kept@) =~= alive(before.take(i + 1), now));
            }
            i += 1;
        }
        assert(before.take(before.len() as int) =~= before);
        proof {
            lemma_alive_distinct(before, now);
            lemma_alive_len(before, now);
        }
        self.sessions = kept;
    }

    /// Signs the administrator in with a freshly drawn token at `now`, as
    /// `login` does with a given token. Wrong credentials change nothing.
    pub fn sign_in(&mut self, username: &str, password: &str, now: u64) -> (r: Option<
        (String, AuthenticatedUser),
    >)
        requires
            old(self).wf(),
        ensures
            final(self).wf(),
            final(self).username() == old(self).username(),
            final(self).password() == old(self).password(),
            r is Some <==> credentials_ok(old(self).username(), old(self).password(), username@, password@),
            r matches Some(p) ==> token_ok(p.0@) && p.1.username@ == old(self).username()
                && final(self).sessions() == signed_in(
                old(self).sessions(),
                p.0@,
                old(self).username(),
                now,
            ),
            r is None ==> final(self).sessions() == old(self).sessions(),
    {
        let token = fresh_token();
        self.login(username, password, token, now)
    }

    /// Signs the administrator in with a fresh token at `now`. The token
    /// has the shape of the tokens that `sign_in` draws. Wrong credentials
    /// change nothing.
    pub fn login(&mut self, username: &str, password: &str, token: String, now: u64) -> (r: Option<
        (String, AuthenticatedUser),
    >)
        requires
            old(self).wf(),
            token_ok(token@),
        ensures
            final(self).wf(),
            final(self).username() == old(self).username(),
            final(self).password() == old(self).password(),
            r is Some <==> credentials_ok(old(self).username(), old(self).password(), username@, password@),
            r matches Some(p) ==> p.0@ == token@ && p.1.username@ == old(self).username()
                && final(self).sessions() == signed_in(
                old(self).sessions(),
                token@,
                old(self).username(),
                now,
            ),
            r is None ==> final(self).sessions() == old(self).sessions(),
    {
        let same_user = str_eq(username, self.username.as_str());
        if !same_user || !constant_time_eq(password.as_bytes(), self.password.as_str().as_bytes()) {
            return None;
        }
        let user = AuthenticatedUser { username: self.username.clone() };
        self.drop_expired(now);
        let ghost live = self.sessions();
        if self.sessions.len() >= MAX_ACTIVE_SESSIONS {
            let oldest = self.oldest();
            self.remove_at(oldest);
        }
        let ghost room = self.sessions();
        match self.find(token.as_str()) {
            Some(i) => self.remove_at(i),
            None => {},
        }
        let ghost clean = self.sessions();
        proof {
            lemma_without_token_clean(room, token@);
        }
        let expires_at = now.saturating_add(SESSION_TTL_MS);
        self.sessions.push(
            Session { token: token.clone(), username: self.username.clone(), expires_at },
        );
        assert(self.sessions() =~= clean.push(
            SessionView { token: token@, username: self.username@, expires_at },
        ));
        assert forall|a: int, b: int|
            0 <= a < self.sessions().len() && 0 <= b < self.sessions().len() && a != b implies #[trigger] self.sessions()[a].token
            != #[trigger] self.sessions()[b].token by {
            if a < clean.len() && b < clean.len() {
                assert(clean[a].token != clean[b].token);
            } else if a < clean.len() {
                assert(clean[a].token != token@);
            } else if b < clean.len() {
                assert(clean[b].token != token@);
            }
        }
        Some((token, user))
    }

    fn oldest(&self) -> (i: usize)
        requires
            self.sessions().len() > 0,
        ensures
            i as int == oldest_slot(self.sessions(), self.sessions().len() - 1),
            i < self.sessions().len(),
    {
        let ghost s = self.sessions();
        let mut best: usize = 0;
        let mut k: usize = 1;
        proof {
            lemma_oldest_slot_bound(s, 0);
        }
        while k < self.sessions.len()
            invariant
                1 <= k <= self.sessions@.len(),
                s == session_views(self.sessions@),
                best as int == oldest_slot(s, k - 1),
                best < k,
            decreases self.sessions@.len() - k,
        {
            proof {
                lemma_oldest_slot_bound(s, k - 1);
            }
            if self.sessions[k].expires_at < self.sessions[best].expires_at {
                best = k;
            }
            k += 1;
        }
        best
    }

    /// The user of a live session. A malformed token is refused before the
    /// table is read; an expired session is dropped.
    pub fn authenticate(&mut self, token: &str, now: u64) -> (r: Option<AuthenticatedUser>)
        requires
            old(self).wf(),
        ensures
            final(self).wf(),
            final(self).username() == old(self).username(),
            final(self).password() == old(self).password(),
            !token_ok(token@) ==> r is None && final(self).sessions() == old(self).sessions(),
            token_ok(token@) ==> match token_slot(old(self).sessions(), token@, 0) {
                None => r is None && final(self).sessions() == old(self).sessions(),
                Some(i) => if old(self).sessions()[i].expires_at <= now {
                    r is None && final(self).sessions() == old(self).sessions().remove(i)
                } else {
                    (r matches Some(u) && u.username@ == old(self).sessions()[i].username)
                        && final(self).sessions() == old(self).sessions()
                },
            },
    {
        if !is_valid_token(token) {
            return None;
        }
        match self.find(token) {
            None => None,
            Some(i) => {
                if self.sessions[i].expires_at <= now {
                    self.remove_at(i);
                    None
                } else {
                    Some(AuthenticatedUser { username: self.sessions[i].username.clone() })
                }
            },
        }
    }

    /// Ends the session of a token, if there is one.
    pub fn logout(&mut self, token: &str)
        requires
            old(self).wf(),
        ensures
            final(self).wf(),
            final(self).username() == old(self).username(),
            final(self).password() == old(self).password(),
            final(self).sessions() == without_token(old(self).sessions(), token@),
    {
        match self.find(token) {
            Some(i) => self.remove_at(i),
            None => {},
        }
    }
}

/// The given name is the administrator's, and the password's bytes are the
/// administrator password's.
pub open spec fn credentials_ok(
    username: Seq<char>,
    password: Seq<char>,
    given_user: Seq<char>,
    given_password: Seq<char>,
) -> bool {
    given_user == username && vstd::utf8::encode_utf8(given_password) == vstd::utf8::encode_utf8(
        password,
    )
}

pub proof fn lemma_alive_len(s: Seq<SessionView>, now: u64)
    ensures
        alive(s, now).len() <= s.len(),
    decreases s.len(),
{
    if s.len() > 0 {
        lemma_alive_len(s.drop_last(), now);
    }
}

pub proof fn lemma_alive_contains(s: Seq<SessionView>, now: u64)
    ensures
        forall|k: int| 0 <= k < alive(s, now).len() ==> s.contains(#[trigger] alive(s, now)[k]),
    decreases s.len(),
{
    if s.len() > 0 {
        lemma_alive_contains(s.drop_last(), now);
        let rest = alive(s.drop_last(), now);
        assert forall|k: int| 0 <= k < alive(s, now).len() implies s.contains(
            #[trigger] alive(s, now)[k],
        ) by {
            if k < rest.len() {
                assert(s.drop_last().contains(rest[k]));
                let j = choose|j: int| 0 <= j < s.drop_last().len() && s.drop_last()[j] == rest[k];
                assert(s[j] == rest[k]);
            } else {
                assert(s[s.len() - 1] == alive(s, now)[k]);
            }
        }
    }
}

pub proof fn lemma_alive_distinct(s: Seq<SessionView>, now: u64)
    requires
        tokens_distinct(s),
    ensures
        tokens_distinct(alive(s, now)),
    decreases s.len(),
{
    if s.len() > 0 {
        let d = s.drop_last();
        assert(tokens_distinct(d)) by {
            assert forall|i: int, j: int|
                0 <= i < d.len() && 0 <= j < d.len() && i != j implies #[trigger] d[i].token
                != #[trigger] d[j].token by {
                assert(s[i].token != s[j].token);
            }
        }
        lemma_alive_distinct(d, now);
        lemma_alive_contains(d, now);
        let rest = alive(d, now);
        if s.last().expires_at > now {
            let r = rest.push(s.last());
            assert forall|i: int, j: int|
                0 <= i < r.len() && 0 <= j < r.len() && i != j implies #[trigger] r[i].token
                != #[trigger] r[j].token by {
                if i < rest.len() && j < rest.len() {
                    assert(rest[i].token != rest[j].token);
                } else if i < rest.len() {
                    assert(d.contains(rest[i]));
                    let k = choose|k: int| 0 <= k < d.len() && d[k] == rest[i];
                    assert(s[k].token != s[s.len() - 1].token);
                } else if j < rest.len() {
                    assert(d.contains(rest[j]));
                    let k = choose|k: int| 0 <= k < d.len() && d[k] == rest[j];
                    assert(s[k].token != s[s.len() - 1].token);
                }
            }
        }
    }
}

pub proof fn lemma_oldest_slot_bound(s: Seq<SessionView>, i: int)
    requires
        0 <= i,
    ensures
        0 <= oldest_slot(s, i) <= i,
    decreases i,
{
    if i > 0 {
        lemma_oldest_slot_bound(s, i - 1);
    }
}

pub proof fn lemma_token_slot(s: Seq<SessionView>, token: Seq<char>, from: int)
    requires
        0 <= from,
    ensures
        token_slot(s, token, from) matches Some(i) ==> from <= i < s.len() && s[i].token == token,
        token_slot(s, token, from) is None ==> forall|k: int|
            from <= k < s.len() ==> #[trigger] s[k].token != token,
    decreases s.len() - from,
{
    if from < s.len() && s[from].token != token {
        lemma_token_slot(s, token, from + 1);
    }
}

/// After the session of a token is removed, no session has that token.
pub proof fn lemma_without_token_clean(s: Seq<SessionView>, token: Seq<char>)
    requires
        tokens_distinct(s),
    ensures
        forall|k: int|
            0 <= k < without_token(s, token).len() ==> #[trigger] without_token(s, token)[k].token
                != token,
        without_token(s, token).len() <= s.len(),
{
    lemma_token_slot(s, token, 0);
    match token_slot(s, token, 0) {
        Some(i) => {
            let r = s.remove(i);
            assert forall|k: int| 0 <= k < r.len() implies #[trigger] r[k].token != token by {
                let k2 = if k < i {
                    k
                } else {
                    k + 1
                };
                assert(r[k] == s[k2]);
                assert(s[k2].token != s[i].token);
            }
        },
        None => {},
    }
}

/// A session works until it expires: right after a sign-in with a token,
/// that token finds the new session, for the administrator, alive at every
/// time before its expiry.
pub proof fn lemma_sign_in_then_authenticate(
    s: Seq<SessionView>,
    token: Seq<char>,
    user: Seq<char>,
    now: u64,
    later: u64,
)
    requires
        tokens_distinct(s),
        later < sat_add(now, SESSION_TTL_MS),
    ensures
        ({
            let after = signed_in(s, token, user, now);
            &&& token_slot(after, token, 0) == Some(after.len() - 1)
            &&& after[after.len() - 1].username == user
            &&& after[after.len() - 1].expires_at > later
        }),
{
    let live = alive(s, now);
    lemma_alive_distinct(s, now);
    let room = if live.len() >= MAX_ACTIVE_SESSIONS {
        live.remove(oldest_slot(live, live.len() - 1))
    } else {
        live
    };
    if live.len() >= MAX_ACTIVE_SESSIONS {
        let o = oldest_slot(live, live.len() - 1);
        lemma_oldest_slot_bound(live, live.len() - 1);
        assert forall|a: int, b: int|
            0 <= a < room.len() && 0 <= b < room.len() && a != b implies #[trigger] room[a].token
            != #[trigger] room[b].token by {
            let a2 = if a < o {
                a
            } else {
                a + 1
            };
            let b2 = if b < o {
                b
            } else {
                b + 1
            };
            assert(live[a2].token != live[b2].token);
        }
    }
    lemma_without_token_clean(room, token);
    let clean = without_token(room, token);
    let after = clean.push(
        SessionView { token, username: user, expires_at: sat_add(now, SESSION_TTL_MS) },
    );
    assert(after == signed_in(s, token, user, now));
    lemma_token_slot(after, token, 0);
    assert forall|k: int| 0 <= k < clean.len() implies #[trigger] after[k].token != token by {
        assert(after[k] == clean[k]);
    }
    lemma_token_slot_first(after, token, 0, after.len() - 1);
}

pub proof fn lemma_token_slot_first(s: Seq<SessionView>, token: Seq<char>, from: int, i: int)
    requires
        0 <= from <= i < s.len(),
        s[i].token == token,
        forall|k: int| from <= k < i ==> #[trigger] s[k].token != token,
    ensures
        token_slot(s, token, from) == Some(i),
    decreases i - from,
{
    if from < i {
        lemma_token_slot_first(s, token, from + 1, i);
    }
}

/// Signing out revokes the session: afterwards its token finds nothing.
pub proof fn lemma_logout_revokes(s: Seq<SessionView>, token: Seq<char>)
    requires
        tokens_distinct(s),
    ensures
        token_slot(without_token(s, token), token, 0) is None,
{
    lemma_without_token_clean(s, token);
    let r = without_token(s, token);
    lemma_token_slot(r, token, 0);
    if token_slot(r, token, 0) is Some {
        let i = token_slot(r, token, 0)->Some_0;
        assert(r[i].token != token);
    }
}

} // verus!

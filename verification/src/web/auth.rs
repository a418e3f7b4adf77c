//! The session cookie of the web console.
use vstd::prelude::*;

use crate::fofa::client::{index_of, index_of_exec};
use crate::text::{chars_eq, chars_of, push_str, slice_range, string_from_chars, trim_bounds, trimmed};

verus! {

pub const SESSION_COOKIE_NAME: &'static str = "cyberscope_session";

/// The cookie that ends a session in the browser.
pub const EXPIRED_SESSION_COOKIE: &'static str =
    "cyberscope_session=; Path=/; HttpOnly; SameSite=Strict; Max-Age=0";

/// The value of one `name=value` cookie pair, when its name is `name`.
pub open spec fn cookie_match(pair: Seq<char>, name: Seq<char>) -> Option<Seq<char>> {
    let t = trimmed(pair);
    match index_of(t, '=', 0) {
        Some(i) => if t.take(i) == name {
            Some(t.skip(i + 1))
        } else {
            None
        },
        None => None,
    }
}

/// The value of the first pair named `name` in a `;`-separated cookie
/// header value.
pub open spec fn cookie_in(v: Seq<char>, name: Seq<char>) -> Option<Seq<char>>
    decreases v.len(),
{
    match index_of(v, ';', 0) {
        None => cookie_match(v, name),
        Some(i) => if 0 <= i < v.len() {
            match cookie_match(v.take(i), name) {
                Some(x) => Some(x),
                None => cookie_in(v.skip(i + 1), name),
            }
        } else {
            None
        },
    }
}

/// The value of the first pair named `name` across several header values.
pub open spec fn cookie_across(values: Seq<Seq<char>>, name: Seq<char>) -> Option<Seq<char>>
    decreases values.len(),
{
    if values.len() == 0 {
        None
    } else {
        match cookie_in(values[0], name) {
            Some(x) => Some(x),
            None => cookie_across(values.drop_first(), name),
        }
    }
}

fn match_pair(pair: &[char], name: &[char]) -> (r: Option<String>)
    ensures
        crate::urls::opt_view(r) == cookie_match(pair@, name@),
{
    let (a, b) = trim_bounds(pair);
    let t = slice_range(pair, a, b);
    proof {
        crate::fofa::client::lemma_index_of(t@, '=', 0);
    }
    match index_of_exec(t, '=', 0) {
        Some(i) => {
            if chars_eq(slice_range(t, 0, i), name) {
                Some(string_from_chars(slice_range(t, i + 1, t.len())))
            } else {
                None
            }
        },
        None => None,
    }
}

fn cookie_in_value(v: &[char], name: &[char]) -> (r: Option<String>)
    ensures
        crate::urls::opt_view(r) == cookie_in(v@, name@),
{
    let mut p: usize = 0;
    assert(v@.skip(0) =~= v@);
    while p <= v.len()
        invariant
            p <= v@.len(),
            cookie_in(v@, name@) == cookie_in(v@.skip(p as int), name@),
        decreases v@.len() - p,
    {
        let rest = slice_range(v, p, v.len());
        assert(rest@ =~= v@.skip(p as int));
        match index_of_exec(rest, ';', 0) {
            None => return match_pair(rest, name),
            Some(i) => {
                let found = match_pair(slice_range(rest, 0, i), name);
                assert(rest@.subrange(0, i as int) =~= rest@.take(i as int));
                match found {
                    Some(x) => return Some(x),
                    None => {},
                }
                assert(rest@.skip(i + 1) =~= v@.skip(p + i + 1));
                p = p + i + 1;
            },
        }
    }
    None
}

/// The session token in the `Cookie` header values, if any.
pub fn session_token(values: &[String]) -> (r: Option<String>)
    ensures
        crate::urls::opt_view(r) == cookie_across(
            crate::export::csv::views_of(values@),
            SESSION_COOKIE_NAME@,
        ),
{
    let name = chars_of(SESSION_COOKIE_NAME);
    let ghost vs = crate::export::csv::views_of(values@);
    let mut k: usize = 0;
    assert(vs.skip(0) =~= vs);
    while k < values.len()
        invariant
            k <= values@.len(),
            vs == crate::export::csv::views_of(values@),
            name@ == SESSION_COOKIE_NAME@,
            cookie_across(vs, SESSION_COOKIE_NAME@) == cookie_across(vs.skip(k as int), SESSION_COOKIE_NAME@),
        decreases values@.len() - k,
    {
        let v = chars_of(values[k].as_str());
        assert(vs.skip(k as int)[0] == vs[k as int]);
        assert(vs.skip(k as int).drop_first() =~= vs.skip(k + 1));
        match cookie_in_value(v.as_slice(), name.as_slice()) {
            Some(t) => return Some(t),
            None => {},
        }
        k += 1;
    }
    None
}

/// The `Set-Cookie` value of a new session: HTTP-only, same-site strict,
/// scoped to the root and living as long as the session.
pub open spec fn session_cookie_text(token: Seq<char>) -> Seq<char> {
    SESSION_COOKIE_NAME@ + "="@ + token + "; Path=/; HttpOnly; SameSite=Strict; Max-Age="@
        + crate::text::decimal(crate::auth::SESSION_TTL_SECS as nat)
}

pub fn session_cookie(token: &str) -> (s: String)
    ensures
        s@ == session_cookie_text(token@),
{
    let mut s = String::new();
    push_str(&mut s, SESSION_COOKIE_NAME);
    push_str(&mut s, "=");
    push_str(&mut s, token);
    push_str(&mut s, "; Path=/; HttpOnly; SameSite=Strict; Max-Age=");
    crate::text::push_decimal(&mut s, crate::auth::SESSION_TTL_SECS);
    assert(s@ =~= session_cookie_text(token@));
    s
}

/// Sign-in input is refused before the credentials are checked when the
/// name passes 64 bytes or the password 1024 bytes.
pub fn login_input_ok(username: &str, password: &str) -> (b: bool)
    ensures
        b == (crate::text::utf8_len(username@) <= 64 && crate::text::utf8_len(password@) <= 1024),
{
    let u = chars_of(username);
    let p = chars_of(password);
    !crate::text::utf8_len_exceeds(u.as_slice(), 64) && !crate::text::utf8_len_exceeds(
        p.as_slice(),
        1024,
    )
}

} // verus!

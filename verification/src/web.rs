//! The web console's rules: which static asset a path serves, how the
//! session cookie is read and written, and how searches are planned, paged
//! and exported. The HTTP server and the embedded assets belong to the
//! caller.
use vstd::prelude::*;

use crate::text::{chars_of, contains_seq, occurs_at, starts_with, str_eq};

pub mod auth;
pub mod searches;

verus! {

/// The text after the last `/`, or all of it.
pub open spec fn last_segment(path: Seq<char>) -> Seq<char>
    decreases path.len(),
{
    if path.len() == 0 {
        path
    } else if path.last() == '/' {
        Seq::empty()
    } else {
        last_segment(path.drop_last()).push(path.last())
    }
}

/// A client-side route of the single-page app: not under `assets/`, and
/// its last segment has no dot.
pub open spec fn spa_route(path: Seq<char>) -> bool {
    !starts_with(path, "assets/"@) && !contains_seq(last_segment(path), "."@)
}

fn last_segment_start(v: &[char]) -> (i: usize)
    ensures
        i <= v@.len(),
        v@.subrange(i as int, v@.len() as int) == last_segment(v@),
{
    let mut i: usize = v.len();
    assert(v@.subrange(i as int, v@.len() as int) =~= Seq::<char>::empty());
    assert(v@.take(i as int) =~= v@);
    while i > 0 && v[i - 1] != '/'
        invariant
            i <= v@.len(),
            last_segment(v@) == last_segment(v@.take(i as int)) + v@.subrange(
                i as int,
                v@.len() as int,
            ),
        decreases i,
    {
        assert(v@.take(i - 1) =~= v@.take(i as int).drop_last());
        assert(v@.subrange(i - 1, v@.len() as int) =~= seq![v@[i - 1]] + v@.subrange(
            i as int,
            v@.len() as int,
        ));
        assert(last_segment(v@.take(i as int)) == last_segment(v@.take(i - 1)).push(v@[i - 1]));
        assert(last_segment(v@.take(i - 1)).push(v@[i - 1]) + v@.subrange(i as int, v@.len() as int)
            =~= last_segment(v@.take(i - 1)) + v@.subrange(i - 1, v@.len() as int));
        i -= 1;
    }
    if i > 0 {
        assert(v@.take(i as int).last() == '/');
    } else {
        assert(v@.take(0) =~= Seq::<char>::empty());
    }
    assert(last_segment(v@.take(i as int)) =~= Seq::<char>::empty());
    assert(last_segment(v@) =~= v@.subrange(i as int, v@.len() as int));
    i
}

/// Whether a path is a route of the single-page app.
pub fn is_spa_route(path: &str) -> (b: bool)
    ensures
        b == spa_route(path@),
{
    let v = chars_of(path);
    let prefix = chars_of("assets/");
    let under_assets = v.len() >= prefix.len() && crate::text::occurs_at_exec(
        v.as_slice(),
        prefix.as_slice(),
        0,
    );
    let start = last_segment_start(v.as_slice());
    let last = crate::text::slice_range(v.as_slice(), start, v.len());
    let dot = chars_of(".");
    let has_dot = crate::text::contains_chars(last, dot.as_slice());
    !under_assets && !has_dot
}

/// The path with its leading slashes removed.
pub open spec fn strip_slashes(path: Seq<char>) -> Seq<char>
    decreases path.len(),
{
    if path.len() > 0 && path[0] == '/' {
        strip_slashes(path.drop_first())
    } else {
        path
    }
}

/// The asset a path asks for: the path without its leading slashes.
pub fn requested_asset(path: &str) -> (s: String)
    ensures
        s@ == strip_slashes(path@),
{
    let v = chars_of(path);
    let mut i: usize = 0;
    assert(v@.subrange(0, v@.len() as int) =~= v@);
    while i < v.len() && v[i] == '/'
        invariant
            i <= v@.len(),
            strip_slashes(v@) == strip_slashes(v@.subrange(i as int, v@.len() as int)),
        decreases v@.len() - i,
    {
        assert(v@.subrange(i + 1, v@.len() as int) =~= v@.subrange(i as int, v@.len() as int).drop_first());
        i += 1;
    }
    crate::text::string_from_chars(crate::text::slice_range(v.as_slice(), i, v.len()))
}

/// How a request outside the API is answered.
pub enum StaticRoute {
    /// Only GET and HEAD are served.
    MethodNotAllowed,
    /// An unknown API path.
    ApiNotFound,
    NotFound,
    /// Serve this asset with its content type and cache policy;
    /// `with_body` is false for HEAD.
    Asset { path: String, content_type: String, cache_control: &'static str, with_body: bool },
}

pub enum StaticRouteView {
    MethodNotAllowed,
    ApiNotFound,
    NotFound,
    Asset { path: Seq<char>, content_type: Seq<char>, cache_control: Seq<char>, with_body: bool },
}

pub open spec fn route_view(r: StaticRoute) -> StaticRouteView {
    match r {
        StaticRoute::MethodNotAllowed => StaticRouteView::MethodNotAllowed,
        StaticRoute::ApiNotFound => StaticRouteView::ApiNotFound,
        StaticRoute::NotFound => StaticRouteView::NotFound,
        StaticRoute::Asset { path, content_type, cache_control, with_body } => StaticRouteView::Asset {
            path: path@,
            content_type: content_type@,
            cache_control: cache_control@,
            with_body,
        },
    }
}

/// The cache policy of an asset: the page shell is revalidated, hashed
/// assets are immutable.
pub open spec fn cache_policy(path: Seq<char>) -> Seq<char> {
    if path == "index.html"@ {
        "no-cache"@
    } else {
        "public, max-age=31536000, immutable"@
    }
}

/// Decides how a request outside the API is answered. `method` is `GET`,
/// `HEAD` or another method's name; `requested_exists` says whether the
/// asset `requested_asset(path)` is embedded. A request for an asset that
/// exists serves it; an empty path or a client-side route serves the page
/// shell. An asset's content type is guessed from its extension.
pub fn static_route(method: &str, path: &str, requested_exists: bool) -> (r: StaticRoute)
    ensures
        ({
            let get = method@ == "GET"@;
            let head = method@ == "HEAD"@;
            let requested = strip_slashes(path@);
            if !get && !head {
                route_view(r) == StaticRouteView::MethodNotAllowed
            } else if starts_with(path@, "/api/"@) {
                route_view(r) == StaticRouteView::ApiNotFound
            } else if requested.len() == 0 || (!requested_exists && spa_route(requested)) {
                route_view(r) == (StaticRouteView::Asset {
                    path: "index.html"@,
                    content_type: guessed_mime("index.html"@),
                    cache_control: cache_policy("index.html"@),
                    with_body: !head,
                })
            } else if requested_exists {
                route_view(r) == (StaticRouteView::Asset {
                    path: requested,
                    content_type: guessed_mime(requested),
                    cache_control: cache_policy(requested),
                    with_body: !head,
                })
            } else {
                route_view(r) == StaticRouteView::NotFound
            }
        }),
{
    let get = str_eq(method, "GET");
    let head = str_eq(method, "HEAD");
    if !get && !head {
        return StaticRoute::MethodNotAllowed;
    }
    let v = chars_of(path);
    let api = chars_of("/api/");
    if v.len() >= api.len() && crate::text::occurs_at_exec(v.as_slice(), api.as_slice(), 0) {
        return StaticRoute::ApiNotFound;
    }
    let requested = requested_asset(path);
    let asset: String = if requested.as_str().is_empty() || (!requested_exists && is_spa_route(
        requested.as_str(),
    )) {
        "index.html".to_owned()
    } else if requested_exists {
        requested
    } else {
        return StaticRoute::NotFound;
    };
    let cache_control = if str_eq(asset.as_str(), "index.html") {
        "no-cache"
    } else {
        "public, max-age=31536000, immutable"
    };
    let content_type = content_type_of(asset.as_str());
    StaticRoute::Asset { path: asset, content_type, cache_control, with_body: !head }
}

/// What `mime_guess::from_path(path).first_or_octet_stream()` names for a
/// path, as text.
pub uninterp spec fn guessed_mime(path: Seq<char>) -> Seq<char>;

/// The content type of an asset, guessed from its extension by
/// `mime_guess`; `application/octet-stream` when unknown. The contract
/// names the result.
#[verifier::external_body]
fn content_type_of(path: &str) -> (s: String)
    ensures
        s@ == guessed_mime(path@),
{
    mime_guess::from_path(path).first_or_octet_stream().as_ref().to_owned()
}

} // verus!

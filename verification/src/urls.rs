//! The parts of an absolute URL, as parsed by the `url` crate.
use vstd::prelude::*;

verus! {

/// The components of a parsed URL that the console checks.
pub struct UrlParts {
    pub scheme: String,
    pub host: Option<String>,
    pub username: String,
    pub password: Option<String>,
    pub query: Option<String>,
    pub fragment: Option<String>,
    pub path: String,
    /// The serialisation of the URL after its path is set to empty.
    pub root: String,
}

/// The characters of each component of a [`UrlParts`].
pub struct UrlPartsView {
    pub scheme: Seq<char>,
    pub host: Option<Seq<char>>,
    pub username: Seq<char>,
    pub password: Option<Seq<char>>,
    pub query: Option<Seq<char>>,
    pub fragment: Option<Seq<char>>,
    pub path: Seq<char>,
    pub root: Seq<char>,
}

pub open spec fn opt_view(o: Option<String>) -> Option<Seq<char>> {
    match o {
        Some(s) => Some(s@),
        None => None,
    }
}

impl View for UrlParts {
    type V = UrlPartsView;

    open spec fn view(&self) -> UrlPartsView {
        UrlPartsView {
            scheme: self.scheme@,
            host: opt_view(self.host),
            username: self.username@,
            password: opt_view(self.password),
            query: opt_view(self.query),
            fragment: opt_view(self.fragment),
            path: self.path@,
            root: self.root@,
        }
    }
}

/// What `url::Url::parse` makes of a text: its components, or `None` when the
/// text is not an absolute URL.
pub uninterp spec fn parsed_url(text: Seq<char>) -> Option<UrlPartsView>;

/// Parses `text` with `url::Url::parse` and reads its components with
/// `scheme`, `host_str`, `username`, `password`, `query`, `fragment` and
/// `path`; `root` is `as_str` after `set_path("")`. The contract only names the
/// result: WHATWG URL parsing is not restated here.
#[verifier::external_body]
pub(crate) fn parse_url(text: &str) -> (r: Option<UrlParts>)
    ensures
        match r {
            Some(p) => parsed_url(text@) == Some(p@),
            None => parsed_url(text@) is None,
        },
{
    let mut url = url::Url::parse(text).ok()?;
    let parts = UrlParts {
        scheme: url.scheme().to_owned(),
        host: url.host_str().map(str::to_owned),
        username: url.username().to_owned(),
        password: url.password().map(str::to_owned),
        query: url.query().map(str::to_owned),
        fragment: url.fragment().map(str::to_owned),
        path: url.path().to_owned(),
        root: String::new(),
    };
    url.set_path("");
    Some(UrlParts { root: url.as_str().to_owned(), ..parts })
}

/// The host of a URL text, when it parses and has one.
pub open spec fn url_host(text: Seq<char>) -> Option<Seq<char>> {
    match parsed_url(text) {
        Some(p) => p.host,
        None => None,
    }
}

} // verus!

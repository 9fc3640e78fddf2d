//! Web addresses. A `WebUrl` carries a parsed `url::Url` together with the
//! parts of it that the sticker logic reads, as text.
use vstd::prelude::*;
use crate::text::{runs, split_runs, texts};

verus! {

#[verifier::external_type_specification]
#[verifier::external_body]
pub struct ExUrl(url::Url);

#[verifier::external_type_specification]
#[verifier::external_body]
pub struct ExParseError(url::ParseError);
/// The parts of a parsed address that the library reads.
pub struct UrlView {
    /// The whole address as `url::Url` serialises it.
    pub serialized: Seq<char>,
    pub scheme: Seq<char>,
    pub host: Option<Seq<char>>,
    pub path: Seq<char>,
}

/// What `url::Url::parse` makes of a text (`None` where it refuses it).
pub uninterp spec fn url_parse(input: Seq<char>) -> Option<UrlView>;

/// What `url::Url::join` makes of `input` against a base address.
pub uninterp spec fn url_join(base: UrlView, input: Seq<char>) -> Option<UrlView>;

/// The address after `url::Url::set_host(Some(host))` (left as it was where
/// that call fails).
pub uninterp spec fn url_set_host(url: UrlView, host: Seq<char>) -> UrlView;

/// The address after `url::Url::set_path(path)`.
pub uninterp spec fn url_set_path(url: UrlView, path: Seq<char>) -> UrlView;

/// The parts of a `url::Url` that the library reads, as its `as_str`,
/// `scheme`, `host_str` and `path` give them.
pub uninterp spec fn url_parts(u: url::Url) -> UrlView;

/// A parsed web address: the `url::Url` and, beside it, the texts of its
/// parts, which its invariant ties to it.
#[derive(Debug)]
pub struct WebUrl {
    inner: url::Url,
    serialized: String,
    scheme: String,
    host: Option<String>,
    path: String,
}

pub open spec fn opt_text(o: Option<String>) -> Option<Seq<char>> {
    match o {
        Some(s) => Some(s@),
        None => None,
    }
}

impl View for WebUrl {
    type V = UrlView;

    closed spec fn view(&self) -> UrlView {
        UrlView {
            serialized: self.serialized@,
            scheme: self.scheme@,
            host: opt_text(self.host),
            path: self.path@,
        }
    }
}

impl WebUrl {
    /// The texts carried beside the address are its parts.
    #[verifier::type_invariant]
    closed spec fn inv(self) -> bool {
        url_parts(self.inner) == self@
    }
}

/// Calls `url::Url::parse`.
#[verifier::external_body]
fn parse_outside(input: &str) -> (r: Option<WebUrl>)
    ensures
        match r {
            Some(u) => url_parse(input@) == Some(u@) && url_parts(u.inner) == u@,
            None => url_parse(input@) is None,
        },
{
    let u = url::Url::parse(input).ok()?;
    Some(WebUrl {
        serialized: u.as_str().to_owned(),
        scheme: u.scheme().to_owned(),
        host: u.host_str().map(str::to_owned),
        path: u.path().to_owned(),
        inner: u,
    })
}

/// Calls `url::Url::join` on the carried address. Which `ParseError` comes
/// back on failure is not described.
#[verifier::external_body]
fn join_outside(base: &WebUrl, input: &str) -> (r: Result<WebUrl, url::ParseError>)
    ensures
        match r {
            Ok(u) => url_join(base@, input@) == Some(u@) && url_parts(u.inner) == u@,
            Err(_) => url_join(base@, input@) is None,
        },
{
    let u = base.inner.join(input)?;
    Ok(WebUrl {
        serialized: u.as_str().to_owned(),
        scheme: u.scheme().to_owned(),
        host: u.host_str().map(str::to_owned),
        path: u.path().to_owned(),
        inner: u,
    })
}

/// Calls `url::Url::set_host(Some(host))` on a copy of the address.
#[verifier::external_body]
fn set_host_outside(url: &WebUrl, host: &str) -> (r: WebUrl)
    ensures
        r@ == url_set_host(url@, host@),
        url_parts(r.inner) == r@,
{
    let mut u = url.inner.clone();
    let _ = u.set_host(Some(host));
    WebUrl {
        serialized: u.as_str().to_owned(),
        scheme: u.scheme().to_owned(),
        host: u.host_str().map(str::to_owned),
        path: u.path().to_owned(),
        inner: u,
    }
}

/// Calls `url::Url::set_path(path)` on a copy of the address.
#[verifier::external_body]
fn set_path_outside(url: &WebUrl, path: &str) -> (r: WebUrl)
    ensures
        r@ == url_set_path(url@, path@),
        url_parts(r.inner) == r@,
{
    let mut u = url.inner.clone();
    u.set_path(path);
    WebUrl {
        serialized: u.as_str().to_owned(),
        scheme: u.scheme().to_owned(),
        host: u.host_str().map(str::to_owned),
        path: u.path().to_owned(),
        inner: u,
    }
}

/// Calls `url::Url::clone` (derived), whose copy has the same parts.
#[verifier::external_body]
fn clone_outside(u: &url::Url) -> (r: url::Url)
    ensures
        url_parts(r) == url_parts(*u),
{
    u.clone()
}

/// The non-empty `/`-separated segments of a path, as
/// `url::Url::path_segments` gives them with the empty ones left out (it
/// gives segments only for a path that starts with `/`).
pub open spec fn nonempty_segments(path: Seq<char>) -> Seq<Seq<char>> {
    if path.len() > 0 && path[0] == '/' {
        runs(path)
    } else {
        Seq::empty()
    }
}

impl WebUrl {
    /// Parses an absolute address; `None` where `url::Url::parse` refuses
    /// it.
    pub fn parse(input: &str) -> (r: Option<WebUrl>)
        ensures
            match r {
                Some(u) => url_parse(input@) == Some(u@),
                None => url_parse(input@) is None,
            },
    {
        parse_outside(input)
    }

    /// Resolves `input` against this address; an error where
    /// `url::Url::join` refuses it.
    pub fn join(&self, input: &str) -> (r: Result<WebUrl, url::ParseError>)
        ensures
            match r {
                Ok(u) => url_join(self@, input@) == Some(u@),
                Err(_) => url_join(self@, input@) is None,
            },
    {
        join_outside(self, input)
    }

    /// This address with its host replaced.
    pub fn with_host(&self, host: &str) -> (r: WebUrl)
        ensures
            r@ == url_set_host(self@, host@),
    {
        set_host_outside(self, host)
    }

    /// This address with its path replaced.
    pub fn with_path(&self, path: &str) -> (r: WebUrl)
        ensures
            r@ == url_set_path(self@, path@),
    {
        set_path_outside(self, path)
    }

    pub fn as_str(&self) -> (r: &str)
        ensures
            r@ == self@.serialized,
    {
        self.serialized.as_str()
    }

    pub fn scheme(&self) -> (r: &str)
        ensures
            r@ == self@.scheme,
    {
        self.scheme.as_str()
    }

    pub fn host_str(&self) -> (r: Option<&str>)
        ensures
            match r {
                Some(h) => self@.host == Some(h@),
                None => self@.host is None,
            },
    {
        match &self.host {
            Some(h) => Some(h.as_str()),
            None => None,
        }
    }

    pub fn path(&self) -> (r: &str)
        ensures
            r@ == self@.path,
    {
        self.path.as_str()
    }

    /// The non-empty segments of the path (none where the path does not
    /// start with `/`).
    pub fn nonempty_segments(&self) -> (r: Vec<String>)
        ensures
            texts(r@) == nonempty_segments(self@.path),
    {
        let p = self.path.as_str();
        if p.unicode_len() > 0 && p.get_char(0) == '/' {
            split_runs(p)
        } else {
            let v: Vec<String> = Vec::new();
            assert(texts(v@) =~= Seq::<Seq<char>>::empty());
            v
        }
    }

    /// Whether two addresses have the same serialisation (which is what
    /// `url::Url` compares).
    pub fn same(&self, other: &WebUrl) -> (r: bool)
        ensures
            r == (self@.serialized == other@.serialized),
    {
        self.serialized == other.serialized
    }
}

impl Clone for WebUrl {
    fn clone(&self) -> (r: Self)
        ensures
            r@ == self@,
    {
        proof {
            use_type_invariant(self);
        }
        let host = match &self.host {
            Some(h) => Some(h.clone()),
            None => None,
        };
        WebUrl {
            inner: clone_outside(&self.inner),
            serialized: self.serialized.clone(),
            scheme: self.scheme.clone(),
            host,
            path: self.path.clone(),
        }
    }
}

} // verus!

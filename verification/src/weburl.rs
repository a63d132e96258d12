//! URLs, taken apart by the `url` crate.

use vstd::prelude::*;

use crate::text::same_text;

verus! {

/// A URL: its text and the parts of it that casting looks at.
#[derive(Debug, PartialEq, Eq)]
pub struct WebUrl {
    /// The whole URL, as it is serialized.
    pub text: String,
    /// What stands before the first colon.
    pub scheme: String,
    /// The host name or address.
    pub host: Option<String>,
    /// The port, or the default port of the scheme.
    pub port: Option<u16>,
    /// The path, percent-encoded.
    pub path: String,
    /// What follows the last slash of the path.
    pub name: Option<String>,
}

/// What a `WebUrl` holds.
pub struct UrlParts {
    pub text: Seq<char>,
    pub scheme: Seq<char>,
    pub host: Option<Seq<char>>,
    pub port: Option<u16>,
    pub path: Seq<char>,
    pub name: Option<Seq<char>>,
}

/// The view of an optional string.
pub open spec fn opt_text(s: Option<String>) -> Option<Seq<char>> {
    match s {
        Some(s) => Some(s@),
        None => None,
    }
}

impl View for WebUrl {
    type V = UrlParts;

    open spec fn view(&self) -> UrlParts {
        UrlParts {
            text: self.text@,
            scheme: self.scheme@,
            host: opt_text(self.host),
            port: self.port,
            path: self.path@,
            name: opt_text(self.name),
        }
    }
}

/// The errors of the `url` crate's parser.
#[verifier::external_type_specification]
#[verifier::external_body]
pub struct ExUrlParseError(url::ParseError);

/// The URL that `input` writes, or what the error is called if it writes no absolute one.
pub uninterp spec fn parsed_url(input: Seq<char>) -> Result<UrlParts, Seq<char>>;

/// `url::Url::parse` depends on its argument alone; `parsed_url` names what it returns: the URL,
/// as the methods of `url::Url` take it apart, or the text that its error displays.
#[verifier::external_body]
fn parse_with_url(input: &str) -> (out: Result<WebUrl, String>)
    ensures
        url_view(out) == parsed_url(input@),
{
    let u = url::Url::parse(input).map_err(|e| e.to_string())?;
    Ok(WebUrl {
        text: u.as_str().to_owned(),
        scheme: u.scheme().to_owned(),
        host: u.host_str().map(str::to_owned),
        port: u.port_or_known_default(),
        path: u.path().to_owned(),
        name: u.path_segments().and_then(|mut s| s.next_back()).map(str::to_owned),
    })
}

/// The view of a URL or of what an error is called.
pub open spec fn url_view(url: Result<WebUrl, String>) -> Result<UrlParts, Seq<char>> {
    match url {
        Ok(url) => Ok(url@),
        Err(cause) => Err(cause@),
    }
}

/// The URL that `reference` names when it stands in a document at the URL `base`.
pub uninterp spec fn joined_url(base: Seq<char>, reference: Seq<char>) -> Option<Seq<char>>;

/// `url::Url::join`, on the URL that `base` writes, depends on its arguments alone; `joined_url`
/// names what it returns.
#[verifier::external_body]
fn join_with_url(base: &str, reference: &str) -> (out: Result<String, url::ParseError>)
    ensures
        match out {
            Ok(u) => joined_url(base@, reference@) == Some(u@),
            Err(_) => joined_url(base@, reference@) is None,
        },
{
    Ok(url::Url::parse(base)?.join(reference)?.as_str().to_owned())
}

impl WebUrl {
    /// Reads an absolute URL, or says what the error is called.
    pub fn parse(input: &str) -> (out: Result<WebUrl, String>)
        ensures
            url_view(out) == parsed_url(input@),
    {
        parse_with_url(input)
    }

    /// The text of the URL that `reference` names in a document at this URL.
    pub fn join(&self, reference: &str) -> (out: Option<String>)
        ensures
            opt_text(out) == joined_url(self@.text, reference@),
    {
        match join_with_url(self.text.as_str(), reference) {
            Ok(u) => Some(u),
            Err(_) => None,
        }
    }

    /// The whole URL.
    pub fn as_str(&self) -> (out: &str)
        ensures
            out@ == self@.text,
    {
        self.text.as_str()
    }

    /// The host name or address.
    pub fn host_str(&self) -> (out: Option<&str>)
        ensures
            match out {
                Some(host) => self@.host == Some(host@),
                None => self@.host is None,
            },
    {
        match &self.host {
            Some(host) => Some(host.as_str()),
            None => None,
        }
    }

    /// The host and the port to connect to, if there is a host: the port of the URL, or 80 if it
    /// has none.
    pub fn endpoint(&self) -> (out: Option<(&str, u16)>)
        ensures
            match out {
                Some((host, port)) => self@.host == Some(host@) && port == (match self@.port {
                    Some(port) => port,
                    None => 80,
                }),
                None => self@.host is None,
            },
    {
        let port: u16 = match self.port {
            Some(port) => port,
            None => 80,
        };
        match self.host_str() {
            Some(host) => Some((host, port)),
            None => None,
        }
    }

    /// Whether this is a URL of a web server.
    pub fn is_http(&self) -> (yes: bool)
        ensures
            yes == http_scheme(self@.scheme),
    {
        same_text(self.scheme.as_str(), "http") || same_text(self.scheme.as_str(), "https")
    }
}

/// Whether `scheme` is one of the schemes of web servers.
pub open spec fn http_scheme(scheme: Seq<char>) -> bool {
    scheme == "http"@ || scheme == "https"@
}

/// A copy of an optional string.
pub fn copy_text(s: &Option<String>) -> (out: Option<String>)
    ensures
        out == *s,
{
    match s {
        Some(s) => Some(s.clone()),
        None => None,
    }
}

impl Clone for WebUrl {
    fn clone(&self) -> (out: Self)
        ensures
            out == *self,
    {
        WebUrl {
            text: self.text.clone(),
            scheme: self.scheme.clone(),
            host: copy_text(&self.host),
            port: self.port,
            path: self.path.clone(),
            name: copy_text(&self.name),
        }
    }
}

} // verus!

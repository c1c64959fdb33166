//! Absolute URL parsing through the `url` crate, reduced to the parts this library reads.
use vstd::prelude::*;

verus! {

/// The components of a parsed absolute URL, its port (the scheme's default when none is
/// written) and its serialization.
#[derive(Debug, Clone, PartialEq, Eq)]
pub struct ParsedUrl {
    pub scheme: String,
    pub host: Option<String>,
    pub path: String,
    pub username: String,
    pub password: Option<String>,
    pub port: Option<u16>,
    pub serialized: String,
}

/// The plain-value form of a parsed URL: scheme, host, path, username, password, port,
/// serialization.
pub type UrlParts = (Seq<char>, Option<Seq<char>>, Seq<char>, Seq<char>, Option<Seq<char>>, Option<u16>, Seq<char>);

pub open spec fn option_view(o: Option<String>) -> Option<Seq<char>> {
    match o {
        Some(s) => Some(s@),
        None => None,
    }
}

impl ParsedUrl {
    pub open spec fn parts(&self) -> UrlParts {
        (
            self.scheme@,
            option_view(self.host),
            self.path@,
            self.username@,
            option_view(self.password),
            self.port,
            self.serialized@,
        )
    }
}

/// What `url::Url::parse` yields for an input: the URL's parts, or the text of its error.
pub uninterp spec fn url_parse(input: Seq<char>) -> Result<UrlParts, Seq<char>>;

/// Calls `url::Url::parse` and reads back `scheme`, `host_str`, `path`, `username`,
/// `password`, `port_or_known_default` and `as_str` of the result, or renders the
/// `ParseError` with `Display`.
/// The contract only names the outcome: it is a function of the input text alone.
#[verifier::external_body]
pub(crate) fn parse_url(input: &str) -> (r: Result<ParsedUrl, String>)
    ensures
        match r {
            Ok(u) => url_parse(input@) == Ok::<UrlParts, Seq<char>>(u.parts()),
            Err(e) => url_parse(input@) == Err::<UrlParts, Seq<char>>(e@),
        },
{
    match url::Url::parse(input) {
        Ok(url) => Ok(ParsedUrl {
            scheme: url.scheme().to_owned(),
            host: url.host_str().map(str::to_owned),
            path: url.path().to_owned(),
            username: url.username().to_owned(),
            password: url.password().map(str::to_owned),
            port: url.port_or_known_default(),
            serialized: url.as_str().to_owned(),
        }),
        Err(error) => Err(error.to_string()),
    }
}

/// What `url::Url::join` yields for a link read against a base URL (given by its
/// serialization): the joined URL's parts, or the text of its error.
pub uninterp spec fn url_join(base: Seq<char>, link: Seq<char>) -> Result<UrlParts, Seq<char>>;

/// Parses the serialization of a URL (`url::Url::parse`) and calls `url::Url::join` with
/// `link`, reading back the parts as `parse_url` does; a base that no longer parses gives the
/// text of that error. The contract only names the outcome: it is a function of the two
/// texts alone.
#[verifier::external_body]
pub(crate) fn join_url(base: &str, link: &str) -> (r: Result<ParsedUrl, String>)
    ensures
        match r {
            Ok(u) => url_join(base@, link@) == Ok::<UrlParts, Seq<char>>(u.parts()),
            Err(e) => url_join(base@, link@) == Err::<UrlParts, Seq<char>>(e@),
        },
{
    match url::Url::parse(base).and_then(|url| url.join(link)) {
        Ok(url) => Ok(ParsedUrl {
            scheme: url.scheme().to_owned(),
            host: url.host_str().map(str::to_owned),
            path: url.path().to_owned(),
            username: url.username().to_owned(),
            password: url.password().map(str::to_owned),
            port: url.port_or_known_default(),
            serialized: url.as_str().to_owned(),
        }),
        Err(error) => Err(error.to_string()),
    }
}

} // verus!

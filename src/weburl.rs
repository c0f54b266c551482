use crate::text::opt_view;
use vstd::prelude::*;

verus! {

/// The parts that parsing a string as an absolute URL gives, in this order:
/// its serialization, scheme, host and path; `None` where the string is no
/// absolute URL.
pub uninterp spec fn url_parse_of(s: Seq<char>) -> Option<
    (Seq<char>, Seq<char>, Option<Seq<char>>, Seq<char>),
>;

/// An absolute URL, held as the parts of it that the crawler reads.
#[derive(Debug, Clone)]
pub struct WebUrl {
    pub href: String,
    pub scheme: String,
    pub host: Option<String>,
    pub path: String,
}

impl View for WebUrl {
    type V = (Seq<char>, Seq<char>, Option<Seq<char>>, Seq<char>);

    open spec fn view(&self) -> Self::V {
        (self.href@, self.scheme@, opt_view(self.host), self.path@)
    }
}

/// Relies on url::Url::parse, reading the parsed value back through its
/// accessors as_str, scheme, host_str and path.
#[verifier::external_body]
fn parse_with_url_crate(s: &str) -> (r: Option<WebUrl>)
    ensures
        r matches Some(u) ==> url_parse_of(s@) == Some(u@),
        r is None ==> url_parse_of(s@) is None,
{
    match url::Url::parse(s) {
        Ok(u) => Some(WebUrl {
            href: u.as_str().to_string(),
            scheme: u.scheme().to_string(),
            host: u.host_str().map(|h| h.to_string()),
            path: u.path().to_string(),
        }),
        Err(_) => None,
    }
}

impl WebUrl {
    /// Parses `s` as an absolute URL.
    pub fn parse(s: &str) -> (r: Option<WebUrl>)
        ensures
            r matches Some(u) ==> url_parse_of(s@) == Some(u@),
            r is None ==> url_parse_of(s@) is None,
    {
        parse_with_url_crate(s)
    }

    /// The serialization of the URL.
    pub fn as_str(&self) -> (r: &str)
        ensures
            r@ == self.href@,
    {
        self.href.as_str()
    }

    /// The host, if the URL has one.
    pub fn host_str(&self) -> (r: Option<&str>)
        ensures
            r matches Some(h) ==> self.host matches Some(s) && h@ == s@,
            r is None ==> self.host is None,
    {
        match &self.host {
            Some(h) => Some(h.as_str()),
            None => None,
        }
    }

    /// A field-by-field copy.
    pub fn duplicate(&self) -> (r: WebUrl)
        ensures
            r@ == self@,
    {
        WebUrl {
            href: self.href.clone(),
            scheme: self.scheme.clone(),
            host: match &self.host {
                Some(h) => Some(h.clone()),
                None => None,
            },
            path: self.path.clone(),
        }
    }
}

/// A URL waiting to be fetched, with the page it was found on.
#[derive(Debug, Clone)]
pub struct UrlItem {
    pub parent: WebUrl,
    pub url: WebUrl,
}

impl View for UrlItem {
    type V = (
        (Seq<char>, Seq<char>, Option<Seq<char>>, Seq<char>),
        (Seq<char>, Seq<char>, Option<Seq<char>>, Seq<char>),
    );

    open spec fn view(&self) -> Self::V {
        (self.parent@, self.url@)
    }
}

/// A message on the work queue.
#[derive(Debug, Clone)]
pub enum Action {
    ProcessURL(UrlItem),
    Ping,
}

} // verus!

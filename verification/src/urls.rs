//! Parsed URLs as the crawler reads them. Parsing itself is the url
//! library's work behind one trusted wrapper; the deduplication key and the
//! scheme gate are verified here.

use vstd::prelude::*;

use vstd::string::StringExecFns;

verus! {

/// The pieces of a parsed absolute URL that the crawler reads, at the
/// specification level.
pub struct UrlPartsV {
    pub full: Seq<char>,
    pub scheme: Seq<char>,
    pub host: Option<Seq<char>>,
    pub domain: Option<Seq<char>>,
    pub path: Seq<char>,
}

/// The pieces of a parsed absolute URL that the crawler reads: its
/// serialization (to fetch it again), scheme, host, domain — the host
/// where it is a domain name — and path.
pub struct UrlParts {
    pub full: String,
    pub scheme: String,
    pub host: Option<String>,
    pub domain: Option<String>,
    pub path: String,
}

impl View for UrlParts {
    type V = UrlPartsV;

    open spec fn view(&self) -> UrlPartsV {
        UrlPartsV {
            full: self.full@,
            scheme: self.scheme@,
            host: match self.host {
                Some(h) => Some(h@),
                None => None,
            },
            domain: match self.domain {
                Some(d) => Some(d@),
                None => None,
            },
            path: self.path@,
        }
    }
}

impl DeepView for UrlParts {
    type V = UrlPartsV;

    open spec fn deep_view(&self) -> UrlPartsV {
        self@
    }
}

/// What `url::Url::parse` computes: nothing where the input is no absolute
/// URL, else the parsed URL's serialization, scheme, host, domain (the
/// host where it is a domain name, nothing for an IP address) and path. A
/// function of its argument alone.
pub uninterp spec fn url_parts_of(s: Seq<char>) -> Option<UrlPartsV>;

/// Relies on `url::Url::parse` (absolute URLs only; relative references
/// fail) and its accessors `as_str`, `scheme`, `host_str`, `domain` and
/// `path`: hands the parsed URL's pieces over one for one — deterministic
/// in its argument.
#[verifier::external_body]
pub fn parse_url(s: &str) -> (r: Option<UrlParts>)
    ensures
        r matches Some(u) ==> url_parts_of(s@) == Some(u@),
        r is None ==> url_parts_of(s@) is None,
{
    match url::Url::parse(s) {
        Ok(u) => Some(
            UrlParts {
                full: u.as_str().to_owned(),
                scheme: u.scheme().to_owned(),
                host: u.host_str().map(|h| h.to_owned()),
                domain: u.domain().map(|d| d.to_owned()),
                path: u.path().to_owned(),
            },
        ),
        Err(_) => None,
    }
}

/// The deduplication key of a URL: its normalized host (empty where it
/// has none) followed by its path. The query string and fragment play no
/// part, so URLs differing only there count as one.
pub open spec fn spec_dedup_key(u: UrlPartsV) -> Seq<char> {
    (match u.host {
        Some(h) => h,
        None => Seq::empty(),
    }) + u.path
}

/// The deduplication key of a URL.
pub fn dedup_key(u: &UrlParts) -> (k: String)
    ensures
        k@ == spec_dedup_key(u@),
{
    match &u.host {
        Some(h) => h.clone().concat(u.path.as_str()),
        None => {
            proof {
                assert(Seq::<char>::empty() + u.path@ =~= u.path@);
            }
            u.path.clone()
        },
    }
}

/// Whether the crawler may fetch the URL's scheme: only `http` and `https`
/// are followed.
pub open spec fn spec_is_fetchable_scheme(u: UrlPartsV) -> bool {
    u.scheme == "http"@ || u.scheme == "https"@
}

/// Whether the URL carries a scheme the crawler follows.
pub fn is_fetchable_scheme(u: &UrlParts) -> (r: bool)
    ensures
        r == spec_is_fetchable_scheme(u@),
{
    let http = String::from_str("http");
    let https = String::from_str("https");
    u.scheme == http || u.scheme == https
}

/// An identical copy of a URL's pieces.
pub fn clone_url(u: &UrlParts) -> (r: UrlParts)
    ensures
        r@ == u@,
{
    UrlParts {
        full: u.full.clone(),
        scheme: u.scheme.clone(),
        host: match &u.host {
            Some(h) => Some(h.clone()),
            None => None,
        },
        domain: match &u.domain {
            Some(d) => Some(d.clone()),
            None => None,
        },
        path: u.path.clone(),
    }
}

} // verus!

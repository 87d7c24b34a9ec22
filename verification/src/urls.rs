//! URLs: what the `url` crate computes of them, and the tests on hosts that
//! need no full parse.

use vstd::prelude::*;
use vstd::slice::slice_subrange;

use crate::net;
use crate::text;
use crate::text::{
    cat2, chars_of, cut_after_last, cut_before_first, ends_with, find_str, is, string_of, to_lower,
    trimmed, trimmed_start_set,
};

verus! {

/// The parts of a URL that the library reads.
#[derive(Debug)]
pub struct UrlParts {
    /// The whole URL in its normalised form.
    pub text: String,
    pub scheme: String,
    pub host: Option<String>,
    pub path: String,
    /// What stands between `?` and `#`, still encoded.
    pub query: Option<String>,
}

/// The model of [`UrlParts`].
#[verifier::ext_equal]
pub struct UrlPartsView {
    pub text: Seq<char>,
    pub scheme: Seq<char>,
    pub host: Option<Seq<char>>,
    pub path: Seq<char>,
    pub query: Option<Seq<char>>,
}

impl View for UrlParts {
    type V = UrlPartsView;

    open spec fn view(&self) -> UrlPartsView {
        UrlPartsView {
            text: self.text@,
            scheme: self.scheme@,
            host: text::opt(self.host),
            path: self.path@,
            query: text::opt(self.query),
        }
    }
}

/// What `url::Url::parse` makes of a text: the parts of the URL, or the message
/// of the error.
pub uninterp spec fn parsed_url(s: Seq<char>) -> Result<UrlPartsView, Seq<char>>;

/// What `url::Url::join` makes of a reference against a base URL, in normalised
/// form, or the message of the error.
pub uninterp spec fn joined_url(base: Seq<char>, reference: Seq<char>) -> Result<
    Seq<char>,
    Seq<char>,
>;

/// The key-value pairs that `url::form_urlencoded::parse` reads from a query.
pub uninterp spec fn form_pairs(query: Seq<char>) -> Seq<(Seq<char>, Seq<char>)>;

/// `url::Url::parse`, with the accessors `scheme`, `host_str`, `path` and
/// `query` on the URL that it returns. The result is a function of the text.
#[verifier::external_body]
pub(crate) fn parse_url(s: &str) -> (r: Result<UrlParts, String>)
    ensures
        match r {
            Ok(u) => parsed_url(s@) == Ok::<UrlPartsView, Seq<char>>(u@),
            Err(e) => parsed_url(s@) == Err::<UrlPartsView, Seq<char>>(e@),
        },
{
    let u = url::Url::parse(s).map_err(|e| e.to_string())?;
    Ok(UrlParts {
        scheme: u.scheme().to_string(),
        host: u.host_str().map(str::to_string),
        path: u.path().to_string(),
        query: u.query().map(str::to_string),
        text: String::from(u),
    })
}

/// `url::Url::join` on the URL that `base` parses to; where `base` does not
/// parse, the error of `url::Url::parse`. The result is a function of both texts.
#[verifier::external_body]
pub(crate) fn join_url(base: &str, reference: &str) -> (r: Result<String, String>)
    ensures
        match r {
            Ok(u) => joined_url(base@, reference@) == Ok::<Seq<char>, Seq<char>>(u@),
            Err(e) => joined_url(base@, reference@) == Err::<Seq<char>, Seq<char>>(e@),
        },
{
    let base = url::Url::parse(base).map_err(|e| e.to_string())?;
    base.join(reference).map(String::from).map_err(|e| e.to_string())
}

/// What `url::form_urlencoded::Serializer` makes of a list of pairs.
pub uninterp spec fn form_query(pairs: Seq<(Seq<char>, Seq<char>)>) -> Seq<char>;

/// `url::form_urlencoded::Serializer::extend_pairs`: the query that holds the
/// pairs, percent-encoded, in their order. The result is a function of the pairs.
#[verifier::external_body]
pub(crate) fn write_query(pairs: &Vec<(String, String)>) -> (r: String)
    ensures
        r@ == form_query(net::pairs_view(pairs@)),
{
    url::form_urlencoded::Serializer::new(String::new())
        .extend_pairs(pairs.iter().map(|(k, v)| (k.as_str(), v.as_str())))
        .finish()
}

/// `url::form_urlencoded::parse`: the pairs of a query, percent-decoded. The
/// result is a function of the query.
#[verifier::external_body]
pub(crate) fn query_pairs(query: &str) -> (r: Vec<(String, String)>)
    ensures
        net::pairs_view(r@) == form_pairs(query@),
{
    url::form_urlencoded::parse(query.as_bytes()).into_owned().collect()
}

// ---------------------------------------------------------------------------
// Hosts
// ---------------------------------------------------------------------------

/// The host of a URL in lower case: what stands behind `://` and before the path,
/// without user information and port. Nothing where there is no `://`.
pub open spec fn host_in(url: Seq<char>) -> Option<Seq<char>> {
    if text::holds(url, "://"@) {
        let after = url.skip(text::find(url, "://"@, 0) + 3);
        let authority = text::before_first(after, "/?#"@);
        Some(text::lower(text::before_first(text::after_last(authority, "@"@), ":"@)))
    } else {
        None
    }
}

/// Reads the host of a URL.
pub fn host_of(url: &str) -> (r: Option<String>)
    ensures
        text::opt(r) == host_in(url@),
{
    let cs = chars_of(url);
    proof {
        reveal_strlit("://");
        text::lemma_find(cs@, "://"@, 0);
    }
    match find_str(cs.as_slice(), "://") {
        Some(i) => {
            let after = slice_subrange(cs.as_slice(), i + 3, cs.len());
            assert(after@ =~= cs@.skip(i + 3));
            let authority = cut_before_first(after, "/?#");
            let host = cut_before_first(cut_after_last(authority, "@"), ":");
            Some(string_of(to_lower(host).as_slice()))
        },
        None => None,
    }
}

/// Whether a host is the given one or a subdomain of it. White space around it
/// and dots in front of it do not count, nor does case; nothing matches no host.
pub open spec fn in_domain(host: Seq<char>, suffix: Seq<char>) -> bool {
    let s = text::lower(text::trim_start_set(text::trim(suffix), "."@));
    s.len() > 0 && (host == s || text::has_suffix(host, "."@ + s))
}

/// Tells whether a host is the given one or a subdomain of it.
pub fn host_matches(host: &str, suffix: &str) -> (r: bool)
    ensures
        r == in_domain(host@, suffix@),
{
    let h = chars_of(host);
    let cs = chars_of(suffix);
    let s = to_lower(trimmed_start_set(trimmed(cs.as_slice()), "."));
    if s.len() == 0 {
        return false;
    }
    let text = string_of(s.as_slice());
    is(h.as_slice(), text.as_str()) || ends_with(h.as_slice(), cat2(".", text.as_str()).as_str())
}

} // verus!

use crate::endpoint::{opt_view, Endpoint, EndpointView};
use vstd::prelude::*;

verus! {

/// What `url::Url::parse` makes of a text, read back as an `Endpoint`; `None`
/// where the text is no absolute URL.
pub uninterp spec fn parsed_url(s: Seq<char>) -> Option<EndpointView>;

/// The name and value that `application/x-www-form-urlencoded` decoding reads
/// from one piece of a query; `None` for an empty piece.
pub uninterp spec fn decoded_piece(piece: Seq<char>) -> Option<(Seq<char>, Seq<char>)>;

/// The URL text that `url::Url` gives for a head (scheme up to the end of the
/// path), a query and a fragment; `None` where the head is no absolute URL.
pub uninterp spec fn assembled_url(
    head: Seq<char>,
    query: Option<Seq<char>>,
    fragment: Option<Seq<char>>,
) -> Option<Seq<char>>;

/// The number of characters of an optional text.
pub open spec fn opt_len(o: Option<Seq<char>>) -> nat {
    match o {
        Some(t) => t.len(),
        None => 0,
    }
}

/// The most characters that a URL may have, in all its parts together, for
/// `url::Url` to hold it: encoded, a character takes at most twelve bytes, and
/// `url::Url` counts its bytes in a `u32`.
pub const MAX_URL_CHARS: usize = 0x1000_0000;

pub open spec fn fits_url(
    head: Seq<char>,
    query: Option<Seq<char>>,
    fragment: Option<Seq<char>>,
) -> bool {
    head.len() + opt_len(query) + opt_len(fragment) <= MAX_URL_CHARS
}

pub open spec fn opt_endpoint_view(o: Option<Endpoint>) -> Option<EndpointView> {
    match o {
        Some(e) => Some(e@),
        None => None,
    }
}

/// Relies on `url::Url::parse`, then on the parsed URL's `scheme`, its text
/// between scheme and query (`Position::AfterScheme..Position::AfterPath`),
/// `query`, cut at each `&`, and `fragment`; the result depends on the text
/// alone.
#[verifier::external_body]
pub(crate) fn parse_url(s: &str) -> (r: Option<Endpoint>)
    ensures
        opt_endpoint_view(r) == parsed_url(s@),
{
    let u = url::Url::parse(s).ok()?;
    Some(Endpoint {
        scheme: u.scheme().to_string(),
        rest: u[url::Position::AfterScheme..url::Position::AfterPath].to_string(),
        pieces: u.query().into_iter().flat_map(|q| q.split('&')).map(String::from).collect(),
        fragment: u.fragment().map(|f| f.to_string()),
    })
}

pub open spec fn opt_pair_view(o: Option<(String, String)>) -> Option<(Seq<char>, Seq<char>)> {
    match o {
        Some(p) => Some((p.0@, p.1@)),
        None => None,
    }
}

/// Relies on `url::form_urlencoded::parse` of one piece of a query, taking the
/// first pair it yields; the pair depends on the piece alone.
#[verifier::external_body]
pub(crate) fn decode_piece(piece: &String) -> (r: Option<(String, String)>)
    ensures
        opt_pair_view(r) == decoded_piece(piece@),
{
    url::form_urlencoded::parse(piece.as_bytes()).next().map(|(k, v)| (k.into_owned(), v.into_owned()))
}

/// Relies on `url::Url::parse` of `scheme` followed by `rest`, then
/// `Url::set_query` and `Url::set_fragment`; the text depends on the
/// arguments alone. The two setters panic where the text outgrows a `u32`.
#[verifier::external_body]
pub(crate) fn assemble_url(
    scheme: &String,
    rest: &String,
    query: &Option<String>,
    fragment: &Option<String>,
) -> (r: Option<String>)
    requires
        fits_url(scheme@ + rest@, opt_view(*query), opt_view(*fragment)),
    ensures
        opt_view(r) == assembled_url(scheme@ + rest@, opt_view(*query), opt_view(*fragment)),
{
    let mut u = url::Url::parse(&format!("{}{}", scheme, rest)).ok()?;
    u.set_query(query.as_deref());
    u.set_fragment(fragment.as_deref());
    Some(u.into())
}

} // verus!

use crate::error::Error;
use crate::urls::{
    assemble_url, assembled_url, decode_piece, decoded_piece, fits_url, parse_url, parsed_url,
    MAX_URL_CHARS,
};
use vstd::prelude::*;

verus! {

/// An absolute URL, held as the parts that normalization reads.
///
/// `rest` is everything between the scheme and the query (for
/// `http://example.com/a?x=1` it is `://example.com/a`), `pieces` the query
/// as written, cut at each `&` (empty when there is no query), `fragment` what
/// follows `#`.
#[derive(Debug)]
pub struct Endpoint {
    pub scheme: String,
    pub rest: String,
    pub pieces: Vec<String>,
    pub fragment: Option<String>,
}

/// The mathematical value of an `Endpoint`.
pub struct EndpointView {
    pub scheme: Seq<char>,
    pub rest: Seq<char>,
    pub pieces: Seq<Seq<char>>,
    pub fragment: Option<Seq<char>>,
}

pub open spec fn opt_view(o: Option<String>) -> Option<Seq<char>> {
    match o {
        Some(s) => Some(s@),
        None => None,
    }
}

pub open spec fn pieces_view(v: Seq<String>) -> Seq<Seq<char>> {
    v.map_values(|p: String| p@)
}

impl View for Endpoint {
    type V = EndpointView;

    open spec fn view(&self) -> EndpointView {
        EndpointView {
            scheme: self.scheme@,
            rest: self.rest@,
            pieces: pieces_view(self.pieces@),
            fragment: opt_view(self.fragment),
        }
    }
}

/// The secure-websocket scheme.
pub open spec fn wss_scheme() -> Seq<char> {
    seq!['w', 's', 's']
}

/// The query pair `transport=websocket` that marks a websocket endpoint.
pub open spec fn marker() -> (Seq<char>, Seq<char>) {
    (
        seq!['t', 'r', 'a', 'n', 's', 'p', 'o', 'r', 't'],
        seq!['w', 'e', 'b', 's', 'o', 'c', 'k', 'e', 't'],
    )
}

/// The marker pair as it is written in a query.
pub open spec fn marker_text() -> Seq<char> {
    marker().0 + seq!['='] + marker().1
}

/// Whether a piece of a query is the marker pair: written out plainly, or
/// decoding to it.
pub open spec fn is_marker(p: Seq<char>) -> bool {
    p == marker_text() || decoded_piece(p) == Some(marker())
}

/// Whether some piece of a query is the marker pair.
pub open spec fn has_marker(s: Seq<Seq<char>>) -> bool {
    exists|i: int| 0 <= i < s.len() && is_marker(#[trigger] s[i])
}

/// The pieces of a query with the marker pair appended: in place of an empty
/// query, or after the last piece.
pub open spec fn with_marker(s: Seq<Seq<char>>) -> Seq<Seq<char>> {
    if s.len() == 0 || s == seq![Seq::<char>::empty()] {
        seq![marker_text()]
    } else {
        s.push(marker_text())
    }
}

/// The query text of a sequence of pieces: the pieces joined by `&`.
pub open spec fn joined(s: Seq<Seq<char>>) -> Seq<char>
    decreases s.len(),
{
    if s.len() == 0 {
        Seq::empty()
    } else if s.len() == 1 {
        s[0]
    } else {
        joined(s.drop_last()) + seq!['&'] + s.last()
    }
}

/// The schemes that can be rewritten to the secure-websocket scheme.
pub open spec fn is_web_scheme(s: Seq<char>) -> bool {
    s == seq!['h', 't', 't', 'p'] || s == seq!['h', 't', 't', 'p', 's'] || s == seq!['w', 's']
        || s == wss_scheme()
}

/// How many times the marker pair occurs in `s`.
pub open spec fn marker_count(s: Seq<Seq<char>>) -> nat
    decreases s.len(),
{
    if s.len() == 0 {
        0
    } else {
        (if is_marker(s[0]) {
            1nat
        } else {
            0nat
        }) + marker_count(s.skip(1))
    }
}

/// `s` with every marker pair after the first one taken out (every one, when
/// `seen` holds); the other pieces keep their order.
pub open spec fn keep_first_marker(s: Seq<Seq<char>>, seen: bool) -> Seq<Seq<char>>
    decreases s.len(),
{
    if s.len() == 0 {
        s
    } else if is_marker(s[0]) && seen {
        keep_first_marker(s.skip(1), true)
    } else {
        seq![s[0]] + keep_first_marker(s.skip(1), seen || is_marker(s[0]))
    }
}

/// The canonical form of a URL: the scheme becomes `wss`, and the query holds
/// the marker pair exactly once: where it first stood, or appended at the end
/// when it was not there. Everything else stays as written, in order.
pub open spec fn normalized(u: EndpointView) -> EndpointView {
    EndpointView {
        scheme: wss_scheme(),
        pieces: if has_marker(u.pieces) {
            keep_first_marker(u.pieces, false)
        } else {
            with_marker(u.pieces)
        },
        ..u
    }
}

/// A URL is in canonical form when normalizing it changes nothing.
pub open spec fn is_normalized(u: EndpointView) -> bool {
    normalized(u) == u
}

/// The query text of a URL: its pieces joined by `&`, none when there are no
/// pieces.
pub open spec fn query_text(u: EndpointView) -> Option<Seq<char>> {
    if u.pieces.len() == 0 {
        None
    } else {
        Some(joined(u.pieces))
    }
}

/// The text of a URL: its head, its query text and its fragment; `None` where
/// the head is no absolute URL or the URL is too long to be held.
pub open spec fn url_text(u: EndpointView) -> Option<Seq<char>> {
    if fits_url(u.scheme + u.rest, query_text(u), u.fragment) {
        assembled_url(u.scheme + u.rest, query_text(u), u.fragment)
    } else {
        None
    }
}

/// The canonical text of the URL written in `s`: `None` where `s` is no
/// absolute URL, its scheme is none of `http`, `https`, `ws` and `wss`, or
/// its canonical form cannot be written back.
pub open spec fn normalized_text(s: Seq<char>) -> Option<Seq<char>> {
    match parsed_url(s) {
        Some(u) => if is_web_scheme(u.scheme) {
            url_text(normalized(u))
        } else {
            None
        },
        None => None,
    }
}

/// A copy of a sequence of strings.
fn copy_strings(v: &Vec<String>) -> (r: Vec<String>)
    ensures
        pieces_view(r@) == pieces_view(v@),
{
    let mut r: Vec<String> = Vec::new();
    let mut i: usize = 0;
    while i < v.len()
        invariant
            0 <= i <= v.len(),
            pieces_view(r@) =~= pieces_view(v@.subrange(0, i as int)),
        decreases v.len() - i,
    {
        let ghost before = r@;
        r.push(v[i].clone());
        proof {
            assert(pieces_view(r@) =~= pieces_view(before).push(v@[i as int]@));
            assert(v@.subrange(0, i + 1) =~= v@.subrange(0, i as int).push(v@[i as int]));
        }
        i = i + 1;
    }
    proof {
        assert(v@.subrange(0, v@.len() as int) =~= v@);
    }
    r
}

/// The pieces of a query joined by `&`.
fn join_pieces(pieces: &Vec<String>) -> (r: String)
    requires
        pieces.len() > 0,
    ensures
        r@ == joined(pieces_view(pieces@)),
{
    let ghost all = pieces_view(pieces@);
    let mut r = pieces[0].clone();
    let mut i: usize = 1;
    proof {
        assert(all.subrange(0, 1).len() == 1);
    }
    while i < pieces.len()
        invariant
            1 <= i <= pieces.len(),
            all == pieces_view(pieces@),
            r@ == joined(all.subrange(0, i as int)),
        decreases pieces.len() - i,
    {
        r.append("&");
        r.append(pieces[i].as_str());
        proof {
            reveal_strlit("&");
            assert(all.subrange(0, i + 1).drop_last() =~= all.subrange(0, i as int));
        }
        i = i + 1;
    }
    proof {
        assert(all.subrange(0, i as int) =~= all);
    }
    r
}

impl Endpoint {
    /// A copy of this URL.
    pub fn snapshot(&self) -> (r: Endpoint)
        ensures
            r@ == self@,
    {
        let fragment = match &self.fragment {
            Some(f) => Some(f.clone()),
            None => None,
        };
        Endpoint {
            scheme: self.scheme.clone(),
            rest: self.rest.clone(),
            pieces: copy_strings(&self.pieces),
            fragment,
        }
    }

    /// Parses an absolute URL.
    pub fn parse(s: &str) -> (r: Result<Endpoint, Error>)
        ensures
            parsed_url(s@) is None ==> r == Err::<Endpoint, Error>(Error::MalformedUrl),
            parsed_url(s@) matches Some(u) ==> r is Ok && r->Ok_0@ == u,
    {
        match parse_url(s) {
            Some(e) => Ok(e),
            None => Err(Error::MalformedUrl),
        }
    }

    /// Writes the URL back as text.
    pub fn to_url_string(&self) -> (r: Result<String, Error>)
        ensures
            url_text(self@) is None ==> r == Err::<String, Error>(Error::MalformedUrl),
            url_text(self@) matches Some(t) ==> r is Ok && r->Ok_0@ == t,
    {
        let query = if self.pieces.len() == 0 {
            None
        } else {
            Some(join_pieces(&self.pieces))
        };
        let head_len: usize = self.scheme.as_str().unicode_len();
        let rest_len: usize = self.rest.as_str().unicode_len();
        let query_len: usize = match &query {
            Some(q) => q.as_str().unicode_len(),
            None => 0,
        };
        let fragment_len: usize = match &self.fragment {
            Some(f) => f.as_str().unicode_len(),
            None => 0,
        };
        if head_len > MAX_URL_CHARS || rest_len > MAX_URL_CHARS - head_len
            || query_len > MAX_URL_CHARS - head_len - rest_len
            || fragment_len > MAX_URL_CHARS - head_len - rest_len - query_len {
            return Err(Error::MalformedUrl);
        }
        match assemble_url(&self.scheme, &self.rest, &query, &self.fragment) {
            Some(t) => Ok(t),
            None => Err(Error::MalformedUrl),
        }
    }
}

/// Parses `s`, brings it into canonical form and writes it back as text.
pub fn normalize_url(s: &str) -> (r: Result<String, Error>)
    ensures
        normalized_text(s@) is None ==> r == Err::<String, Error>(Error::MalformedUrl),
        normalized_text(s@) matches Some(t) ==> r is Ok && r->Ok_0@ == t,
{
    let e = Endpoint::parse(s)?;
    if !e.has_web_scheme() {
        return Err(Error::MalformedUrl);
    }
    normalize(e).to_url_string()
}

impl Endpoint {
    /// Whether the scheme is one of `http`, `https`, `ws` and `wss`.
    pub fn has_web_scheme(&self) -> (r: bool)
        ensures
            r == is_web_scheme(self@.scheme),
    {
        let http = "http".to_owned();
        let https = "https".to_owned();
        let ws = "ws".to_owned();
        let wss = "wss".to_owned();
        proof {
            reveal_strlit("http");
            reveal_strlit("https");
            reveal_strlit("ws");
            reveal_strlit("wss");
            assert(http@ =~= seq!['h', 't', 't', 'p']);
            assert(https@ =~= seq!['h', 't', 't', 'p', 's']);
            assert(ws@ =~= seq!['w', 's']);
            assert(wss@ =~= wss_scheme());
        }
        self.scheme == http || self.scheme == https || self.scheme == ws || self.scheme == wss
    }
}

/// Whether a piece of a query is the marker pair (see `is_marker`).
fn piece_is_marker(p: &String, text: &String, key: &String, value: &String) -> (r: bool)
    requires
        text@ == marker_text(),
        key@ == marker().0,
        value@ == marker().1,
    ensures
        r == is_marker(p@),
{
    if *p == *text {
        true
    } else {
        match decode_piece(p) {
            Some((k, v)) => k == *key && v == *value,
            None => false,
        }
    }
}

/// Rewrites `url` into its canonical form (see `normalized`).
pub fn normalize(url: Endpoint) -> (r: Endpoint)
    requires
        is_web_scheme(url@.scheme),
    ensures
        r@ == normalized(url@),
{
    let Endpoint { scheme: _, rest, pieces, fragment } = url;
    let key = "transport".to_owned();
    let value = "websocket".to_owned();
    let text = "transport=websocket".to_owned();
    proof {
        reveal_strlit("transport");
        reveal_strlit("websocket");
        reveal_strlit("transport=websocket");
        assert(key@ =~= marker().0);
        assert(value@ =~= marker().1);
        assert(text@ =~= marker_text());
    }
    let ghost all = pieces_view(pieces@);
    let mut kept: Vec<String> = Vec::new();
    let mut seen = false;
    let mut i: usize = 0;
    proof {
        assert(all.subrange(0, all.len() as int) =~= all);
        assert(pieces_view(kept@) + all =~= all);
    }
    while i < pieces.len()
        invariant
            0 <= i <= pieces.len(),
            all == pieces_view(pieces@),
            key@ == marker().0,
            value@ == marker().1,
            text@ == marker_text(),
            pieces_view(kept@) + keep_first_marker(all.subrange(i as int, all.len() as int), seen)
                == keep_first_marker(all, false),
            seen == has_marker(all.subrange(0, i as int)),
        decreases pieces.len() - i,
    {
        let ghost rest_before = all.subrange(i as int, all.len() as int);
        let ghost kept_before = pieces_view(kept@);
        let ghost x = all[i as int];
        proof {
            assert(rest_before.skip(1) =~= all.subrange(i + 1, all.len() as int));
            assert(rest_before[0] == x);
            if has_marker(all.subrange(0, i as int)) {
                let j = choose|j: int| 0 <= j < i && is_marker(#[trigger] all.subrange(0, i as int)[j]);
                assert(all.subrange(0, i + 1)[j] == all.subrange(0, i as int)[j]);
            }
            if is_marker(x) {
                assert(all.subrange(0, i + 1)[i as int] == x);
            }
            if has_marker(all.subrange(0, i + 1)) {
                let j = choose|j: int| 0 <= j < i + 1 && is_marker(#[trigger] all.subrange(0, i + 1)[j]);
                if j < i {
                    assert(all.subrange(0, i as int)[j] == all.subrange(0, i + 1)[j]);
                }
            }
        }
        let is_m = piece_is_marker(&pieces[i], &text, &key, &value);
        if !(is_m && seen) {
            kept.push(pieces[i].clone());
            proof {
                assert(pieces_view(kept@) =~= kept_before.push(x));
                assert((kept_before + seq![x]) + keep_first_marker(rest_before.skip(1), seen || is_marker(x))
                    =~= kept_before + (seq![x] + keep_first_marker(rest_before.skip(1), seen || is_marker(x))));
            }
        }
        seen = seen || is_m;
        i = i + 1;
    }
    proof {
        assert(all.subrange(i as int, all.len() as int) =~= Seq::<Seq<char>>::empty());
        assert(all.subrange(0, i as int) =~= all);
        assert(pieces_view(kept@) =~= keep_first_marker(all, false));
    }
    if !seen {
        proof {
            lemma_marker_count_contains(all);
            lemma_keep_first_marker_unchanged(all);
        }
        let ghost k0 = pieces_view(kept@);
        if kept.len() == 0 || (kept.len() == 1 && kept[0].as_str().unicode_len() == 0) {
            proof {
                assert(k0 == all);
                if all.len() == 1 {
                    assert(all[0] == kept@[0]@);
                    assert(all[0] =~= Seq::<char>::empty());
                    assert(all =~= seq![Seq::<char>::empty()]);
                }
            }
            kept = vec![text];
            proof {
                assert(pieces_view(kept@) =~= seq![marker_text()]);
            }
        } else {
            let ghost before = pieces_view(kept@);
            kept.push(text);
            proof {
                assert(pieces_view(kept@) =~= before.push(marker_text()));
                if all == seq![Seq::<char>::empty()] {
                    assert(all[0].len() == 0);
                }
            }
        }
    }
    let scheme = "wss".to_owned();
    proof {
        reveal_strlit("wss");
    }
    let r = Endpoint { scheme, rest, pieces: kept, fragment };
    proof {
        assert(r@.scheme =~= wss_scheme());
    }
    r
}

/// The marker occurs in a sequence of pieces exactly when its count is positive.
pub proof fn lemma_marker_count_contains(s: Seq<Seq<char>>)
    ensures
        (marker_count(s) > 0) == has_marker(s),
    decreases s.len(),
{
    if s.len() > 0 {
        lemma_marker_count_contains(s.skip(1));
        if has_marker(s.skip(1)) {
            let j = choose|j: int| 0 <= j < s.skip(1).len() && is_marker(#[trigger] s.skip(1)[j]);
            assert(s[j + 1] == s.skip(1)[j]);
        }
        if is_marker(s[0]) {
            assert(s[0] == s[0]);
        }
        if has_marker(s) && !is_marker(s[0]) {
            let j = choose|j: int| 0 <= j < s.len() && is_marker(#[trigger] s[j]);
            assert(s.skip(1)[j - 1] == s[j]);
        }
    }
}

/// Taking out later markers changes nothing where there is at most one marker
/// (none, once one has been seen).
pub proof fn lemma_keep_first_marker_unchanged(s: Seq<Seq<char>>)
    ensures
        marker_count(s) <= 1 ==> keep_first_marker(s, false) == s,
        marker_count(s) == 0 ==> keep_first_marker(s, true) == s,
    decreases s.len(),
{
    if s.len() > 0 {
        lemma_keep_first_marker_unchanged(s.skip(1));
        assert(seq![s[0]] + s.skip(1) =~= s);
    }
}

/// After later markers are taken out, the marker occurs once if it occurred at
/// all (and never, once one has been seen).
pub proof fn lemma_keep_first_marker_count(s: Seq<Seq<char>>)
    ensures
        marker_count(keep_first_marker(s, true)) == 0,
        marker_count(keep_first_marker(s, false)) == if marker_count(s) > 0 {
            1nat
        } else {
            0nat
        },
    decreases s.len(),
{
    if s.len() > 0 {
        lemma_keep_first_marker_count(s.skip(1));
        let t = keep_first_marker(s.skip(1), true);
        assert((seq![s[0]] + t).skip(1) =~= t);
        let f = keep_first_marker(s.skip(1), false);
        assert((seq![s[0]] + f).skip(1) =~= f);
    }
}

/// Appending a piece adds one to the count exactly when it is the marker.
pub proof fn lemma_marker_count_push(s: Seq<Seq<char>>, x: Seq<char>)
    ensures
        marker_count(s.push(x)) == marker_count(s) + if is_marker(x) {
            1nat
        } else {
            0nat
        },
    decreases s.len(),
{
    if s.len() > 0 {
        lemma_marker_count_push(s.skip(1), x);
        assert(s.push(x).skip(1) =~= s.skip(1).push(x));
    } else {
        assert(s.push(x).skip(1) =~= s);
    }
}

/// Normalizing twice gives the same URL as normalizing once.
pub proof fn lemma_normalize_idempotent(u: EndpointView)
    ensures
        normalized(normalized(u)) == normalized(u),
{
    let n = normalized(u);
    lemma_single_marker(u);
    lemma_marker_count_contains(n.pieces);
    lemma_keep_first_marker_unchanged(n.pieces);
}

/// Whatever scheme a URL has, its canonical form has the secure-websocket scheme.
pub proof fn lemma_normalized_scheme(u: EndpointView)
    ensures
        normalized(u).scheme == wss_scheme(),
{
}

/// The canonical form of a URL holds the marker pair exactly once, however
/// often the URL held it.
pub proof fn lemma_single_marker(u: EndpointView)
    ensures
        marker_count(normalized(u).pieces) == 1,
{
    lemma_marker_count_contains(u.pieces);
    lemma_keep_first_marker_count(u.pieces);
    lemma_marker_count_push(u.pieces, marker_text());
    assert(marker_count(seq![marker_text()].skip(1)) == 0);
}

} // verus!

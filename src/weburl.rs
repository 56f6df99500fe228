//! Absolute URLs as plain values, and the reader-view link built from one.
use vstd::prelude::*;
use crate::text::no_line_break;

verus! {

/// What the `application/x-www-form-urlencoded` byte serializer makes of the
/// UTF-8 bytes of a string.
pub uninterp spec fn form_encoded(s: Seq<char>) -> Seq<char>;

/// Relies on `url::form_urlencoded::byte_serialize`, collected into a string:
/// the result depends on the input alone, and each piece it yields is an
/// unchanged ASCII letter, digit or one of `* - . _`, a `+`, or a `%` with two
/// hexadecimal digits, so it holds no line break.
#[verifier::external_body]
fn form_encode(s: &str) -> (r: String)
    ensures
        r@ == form_encoded(s@),
        no_line_break(r@),
{
    url::form_urlencoded::byte_serialize(s.as_bytes()).collect()
}

/// Start of every reader-view link: the reader-view host and endpoint, and
/// the name of the article parameter.
pub open spec fn link_head() -> Seq<char> {
    seq!['h', 't', 't', 'p', 's', ':', '/', '/', 't', '.', 'm', 'e', '/', 'i', 'v', '?', 'u', 'r', 'l', '=']
}

/// Separator between the article parameter and the token parameter.
pub open spec fn link_token_param() -> Seq<char> {
    seq!['&', 'r', 'h', 'a', 's', 'h', '=']
}

/// The reader-view link for an article under a render token.
pub open spec fn reader_link(article: Seq<char>, token: Seq<char>) -> Seq<char> {
    link_head() + form_encoded(article) + link_token_param() + token
}

/// Builds the reader-view link for `article` under `token`.
pub fn build_reader_link(article: &str, token: &str) -> (r: String)
    ensures
        r@ == reader_link(article@, token@),
        no_line_break(token@) ==> no_line_break(r@),
{
    let head = vec!['h', 't', 't', 'p', 's', ':', '/', '/', 't', '.', 'm', 'e', '/', 'i', 'v', '?', 'u', 'r', 'l', '='];
    let param = vec!['&', 'r', 'h', 'a', 's', 'h', '='];
    let mut s = String::new();
    crate::text::push_range(&mut s, &head, 0, head.len());
    let enc = form_encode(article);
    s.append(enc.as_str());
    crate::text::push_range(&mut s, &param, 0, param.len());
    s.append(token);
    assert(s@ =~= reader_link(article@, token@));
    assert(no_line_break(token@) ==> no_line_break(s@)) by {
        if no_line_break(token@) {
            assert forall|i: int| 0 <= i < s@.len() implies s@[i] != '\n' by {
                let e = enc@.len() as int;
                if 20 <= i < 20 + e {
                    assert(s@[i] == enc@[i - 20]);
                } else if 27 + e <= i {
                    assert(s@[i] == token@[i - 27 - e]);
                }
            }
        }
    }
    s
}

/// An absolute URL as the values that the resolver reads: its serialization,
/// host, path and decoded query pairs in order.
pub struct WebUrl {
    pub text: String,
    pub host: Option<String>,
    pub path: String,
    pub query: Vec<(String, String)>,
}

/// The mathematical value of a `WebUrl`.
pub struct UrlParts {
    pub text: Seq<char>,
    pub host: Option<Seq<char>>,
    pub path: Seq<char>,
    pub query: Seq<(Seq<char>, Seq<char>)>,
}

pub open spec fn opt_view(o: Option<String>) -> Option<Seq<char>> {
    match o {
        Some(s) => Some(s@),
        None => None,
    }
}

impl View for WebUrl {
    type V = UrlParts;

    open spec fn view(&self) -> UrlParts {
        UrlParts {
            text: self.text@,
            host: opt_view(self.host),
            path: self.path@,
            query: self.query@.map_values(|p: (String, String)| (p.0@, p.1@)),
        }
    }
}

/// What parsing a text as an absolute URL gives, if it parses.
pub uninterp spec fn parsed_url(s: Seq<char>) -> Option<UrlParts>;

/// Relies on `url::Url::parse` and on what the parsed URL reports
/// (`as_str`, `host_str`, `path`, `query_pairs`): whether the text parses,
/// and the parts, depend on the text alone.
#[verifier::external_body]
pub(crate) fn parse_url(s: &str) -> (r: Option<WebUrl>)
    ensures
        match r {
            Some(u) => parsed_url(s@) == Some(u@),
            None => parsed_url(s@) is None,
        },
{
    let u = url::Url::parse(s).ok()?;
    Some(WebUrl {
        text: u.as_str().to_string(),
        host: u.host_str().map(|h| h.to_string()),
        path: u.path().to_string(),
        query: u.query_pairs().map(|(k, v)| (k.into_owned(), v.into_owned())).collect(),
    })
}

/// The host that the URL parser finds in a text, if it parses and has one.
pub open spec fn parsed_host(a: Seq<char>) -> Option<Seq<char>> {
    match parsed_url(a) {
        Some(u) => u.host,
        None => None,
    }
}

/// The value of the first query pair named `key`.
pub open spec fn first_value(q: Seq<(Seq<char>, Seq<char>)>, key: Seq<char>) -> Option<Seq<char>>
    decreases q.len(),
{
    if q.len() == 0 {
        None
    } else if q[0].0 == key {
        Some(q[0].1)
    } else {
        first_value(q.drop_first(), key)
    }
}

/// The value of the first query pair of `u` named `key`.
pub fn query_value(u: &WebUrl, key: &String) -> (r: Option<String>)
    ensures
        opt_view(r) == first_value(u@.query, key@),
{
    let ghost q = u@.query;
    let mut i: usize = 0;
    assert(q.subrange(0, q.len() as int) =~= q);
    while i < u.query.len()
        invariant
            0 <= i <= u.query@.len(),
            q == u@.query,
            q.len() == u.query@.len(),
            first_value(q, key@) == first_value(q.subrange(i as int, q.len() as int), key@),
        decreases u.query@.len() - i,
    {
        let pair = &u.query[i];
        assert(q[i as int] == (pair.0@, pair.1@));
        if pair.0 == *key {
            return Some(pair.1.clone());
        }
        assert(q.subrange(i as int, q.len() as int).drop_first() =~= q.subrange(i + 1, q.len() as int));
        i = i + 1;
    }
    None
}

} // verus!

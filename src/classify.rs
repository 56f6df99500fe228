//! Classification of an incoming text: a ready reader-view link, a plain
//! article link that needs a token, or no link at all.
use vstd::prelude::*;
use crate::text::string_from;
use crate::weburl::{first_value, opt_view, parse_url, parsed_url, query_value, UrlParts};

verus! {

/// Host of the reader-view service.
pub open spec fn reader_host() -> Seq<char> {
    seq!['t', '.', 'm', 'e']
}

/// Path of the reader-view endpoint.
pub open spec fn reader_path() -> Seq<char> {
    seq!['/', 'i', 'v']
}

/// Name of the query parameter that holds the article link.
pub open spec fn article_param() -> Seq<char> {
    seq!['u', 'r', 'l']
}

/// Name of the query parameter that holds the render token.
pub open spec fn token_param() -> Seq<char> {
    seq!['r', 'h', 'a', 's', 'h']
}

/// What an incoming text is, as values.
pub enum Intent {
    NotAUrl,
    ReadyLink { link: Seq<char>, article: Seq<char>, article_host: Option<Seq<char>>, token: Seq<char> },
    NeedsResolution { url: Seq<char>, host: Seq<char> },
}

/// A ready reader-view link: the reader-view host and endpoint, with both
/// an article and a token parameter.
pub open spec fn is_ready_link(u: UrlParts) -> bool {
    &&& u.host == Some(reader_host())
    &&& u.path == reader_path()
    &&& first_value(u.query, article_param()) is Some
    &&& first_value(u.query, token_param()) is Some
}

/// The classification of a text.
pub open spec fn intent_of(text: Seq<char>) -> Intent {
    match parsed_url(text) {
        None => Intent::NotAUrl,
        Some(u) => if u.host is None {
            Intent::NotAUrl
        } else if is_ready_link(u) {
            match parsed_url(first_value(u.query, article_param())->0) {
                None => Intent::NotAUrl,
                Some(a) => Intent::ReadyLink {
                    link: u.text,
                    article: a.text,
                    article_host: a.host,
                    token: first_value(u.query, token_param())->0,
                },
            }
        } else {
            Intent::NeedsResolution { url: u.text, host: u.host->0 }
        },
    }
}

/// What an incoming text is.
pub enum Classification {
    NotAUrl,
    ReadyLink { link: String, article: String, article_host: Option<String>, token: String },
    NeedsResolution { url: String, host: String },
}

impl View for Classification {
    type V = Intent;

    open spec fn view(&self) -> Intent {
        match self {
            Classification::NotAUrl => Intent::NotAUrl,
            Classification::ReadyLink { link, article, article_host, token } => Intent::ReadyLink {
                link: link@,
                article: article@,
                article_host: opt_view(*article_host),
                token: token@,
            },
            Classification::NeedsResolution { url, host } => Intent::NeedsResolution {
                url: url@,
                host: host@,
            },
        }
    }
}

/// Classifies an incoming text.
pub fn classify(text: &str) -> (r: Classification)
    ensures
        r@ == intent_of(text@),
{
    let u = match parse_url(text) {
        Some(u) => u,
        None => return Classification::NotAUrl,
    };
    let host = match &u.host {
        Some(h) => h.clone(),
        None => return Classification::NotAUrl,
    };
    let reader = string_from(&vec!['t', '.', 'm', 'e']);
    let path = string_from(&vec!['/', 'i', 'v']);
    let article_key = string_from(&vec!['u', 'r', 'l']);
    let token_key = string_from(&vec!['r', 'h', 'a', 's', 'h']);
    if host == reader && u.path == path {
        let article = query_value(&u, &article_key);
        let token = query_value(&u, &token_key);
        if let (Some(article), Some(token)) = (article, token) {
            return match parse_url(article.as_str()) {
                None => Classification::NotAUrl,
                Some(a) => Classification::ReadyLink {
                    link: u.text,
                    article: a.text,
                    article_host: a.host,
                    token,
                },
            };
        }
    }
    Classification::NeedsResolution { url: u.text, host }
}

} // verus!

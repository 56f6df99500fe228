//! Resolution of an incoming text into the reply it calls for, and the
//! direct reply text.
use vstd::prelude::*;
use crate::classify::{classify, intent_of, Classification, Intent};
use crate::codec::{render_browsing, rendered};
use crate::hasher::{derive_key, preference_key};
use crate::registry::{appended, candidates_of, CandidateRegistry, PreferenceRegistry};
use crate::text::push_range;
use crate::weburl::{build_reader_link, reader_link};

verus! {

/// Why no reader-view link could be offered.
#[derive(PartialEq, Eq, Structural, Clone, Copy, Debug)]
pub enum Failure {
    NotAUrl,
    KeyDerivationFailed,
    NoCandidates,
}

/// The reply that an incoming text calls for.
pub enum Outcome {
    /// A ready link came in: present it beside the article link.
    Direct { link: String, article: String },
    /// The user pinned a token for this host.
    Pinned { article: String, token: String },
    /// The candidate tokens of the host, to browse; never empty.
    Browsable { article: String, host: String, tokens: Vec<String> },
    Failed(Failure),
}

/// The outcome for an article link at `url` on `host`, given the user's
/// preference key: the pinned token first, else the host's candidates.
pub open spec fn resolves_with(
    c: Map<Seq<char>, Seq<Seq<char>>>,
    p: Map<Seq<char>, Seq<char>>,
    url: Seq<char>,
    host: Seq<char>,
    key: Option<Seq<char>>,
    o: Outcome,
) -> bool {
    match key {
        None => o == Outcome::Failed(Failure::KeyDerivationFailed),
        Some(k) => if p.contains_key(k) {
            o matches Outcome::Pinned { article, token } && article@ == url && token@ == p[k]
        } else if candidates_of(c, host).len() > 0 {
            o matches Outcome::Browsable { article, host: h, tokens } && article@ == url && h@ == host
                && tokens.deep_view() == candidates_of(c, host)
        } else {
            o == Outcome::Failed(Failure::NoCandidates)
        },
    }
}

/// Resolves an article link once the preference key is known. A pinned token
/// always takes precedence over the candidate list.
pub fn resolve_with_key(
    cands: &CandidateRegistry,
    prefs: &PreferenceRegistry,
    url: &String,
    host: &String,
    key: Option<String>,
) -> (r: Outcome)
    requires
        cands.wf(),
        prefs.wf(),
    ensures
        resolves_with(cands@, prefs@, url@, host@, crate::weburl::opt_view(key), r),
{
    let k = match key {
        Some(k) => k,
        None => return Outcome::Failed(Failure::KeyDerivationFailed),
    };
    if let Some(token) = prefs.get(&k) {
        return Outcome::Pinned { article: url.clone(), token };
    }
    let tokens = cands.list(host);
    if tokens.len() > 0 {
        Outcome::Browsable { article: url.clone(), host: host.clone(), tokens }
    } else {
        Outcome::Failed(Failure::NoCandidates)
    }
}

/// Resolves an incoming text from `user`. A ready link registers its token
/// as a candidate of the article's host, and is presented as it is; an article
/// link is resolved through the user's preference key for its host.
pub fn resolve(
    cands: &mut CandidateRegistry,
    prefs: &PreferenceRegistry,
    text: &str,
    user: Option<i64>,
) -> (r: Outcome)
    requires
        old(cands).wf(),
        prefs.wf(),
    ensures
        final(cands).wf(),
        match intent_of(text@) {
            Intent::NotAUrl => r == Outcome::Failed(Failure::NotAUrl) && final(cands)@ == old(cands)@,
            Intent::ReadyLink { link, article, article_host, token } => {
                &&& r matches Outcome::Direct { link: l, article: a } && l@ == link && a@ == article
                &&& final(cands)@ == match article_host {
                    Some(h) => appended(old(cands)@, h, token),
                    None => old(cands)@,
                }
            },
            Intent::NeedsResolution { url, host } => {
                &&& final(cands)@ == old(cands)@
                &&& (user is None ==> r == Outcome::Failed(Failure::KeyDerivationFailed))
                &&& (user matches Some(id) ==> resolves_with(
                    old(cands)@,
                    prefs@,
                    url,
                    host,
                    Some(preference_key(id as int, host)),
                    r,
                ))
            },
        },
{
    match classify(text) {
        Classification::NotAUrl => Outcome::Failed(Failure::NotAUrl),
        Classification::ReadyLink { link, article, article_host, token } => {
            if let Some(h) = &article_host {
                cands.append_if_absent(h, &token);
            }
            Outcome::Direct { link, article }
        },
        Classification::NeedsResolution { url, host } => {
            let key = derive_key(user, host.as_str());
            resolve_with_key(cands, prefs, &url, &host, key)
        },
    }
}

/// The one-line reply that presents a reader-view link beside its article.
pub open spec fn direct_text(link: Seq<char>, article: Seq<char>) -> Seq<char> {
    seq!['[', 'I', 'V', ']', '('] + link + seq![')', ' ', 'f', 'r', 'o', 'm', ' ', '[', '原', '文', ']', '(']
        + article + seq![')']
}

/// Writes the one-line reply that presents `link` beside `article`.
pub fn render_direct(link: &str, article: &str) -> (r: String)
    ensures
        r@ == direct_text(link@, article@),
{
    let head = vec!['[', 'I', 'V', ']', '('];
    let mid = vec![')', ' ', 'f', 'r', 'o', 'm', ' ', '[', '原', '文', ']', '('];
    let tail = vec![')'];
    let mut s = String::new();
    push_range(&mut s, &head, 0, 5);
    s.append(link);
    push_range(&mut s, &mid, 0, 12);
    s.append(article);
    push_range(&mut s, &tail, 0, 1);
    assert(head@.subrange(0, 5) =~= seq!['[', 'I', 'V', ']', '(']);
    assert(mid@.subrange(0, 12) =~= seq![')', ' ', 'f', 'r', 'o', 'm', ' ', '[', '原', '文', ']', '(']);
    assert(tail@.subrange(0, 1) =~= seq![')']);
    assert(s@ =~= direct_text(link@, article@));
    s
}

/// The text of the reply for an outcome; none for a failure.
pub open spec fn outcome_text(o: Outcome) -> Option<Seq<char>> {
    match o {
        Outcome::Direct { link, article } => Some(direct_text(link@, article@)),
        Outcome::Pinned { article, token } => Some(
            direct_text(reader_link(article@, token@), article@),
        ),
        Outcome::Browsable { article, host, tokens } => if tokens@.len() > 0 {
            Some(rendered(reader_link(article@, tokens@[0]@), article@, tokens@[0]@, 1, tokens@.len()))
        } else {
            None
        },
        Outcome::Failed(_) => None,
    }
}

/// Writes the reply for an outcome: the direct reply, or the browsing reply
/// at the first candidate. A failure has none.
pub fn reply_text(o: &Outcome) -> (r: Option<String>)
    ensures
        crate::weburl::opt_view(r) == outcome_text(*o),
{
    match o {
        Outcome::Direct { link, article } => Some(render_direct(link.as_str(), article.as_str())),
        Outcome::Pinned { article, token } => {
            let link = build_reader_link(article.as_str(), token.as_str());
            Some(render_direct(link.as_str(), article.as_str()))
        },
        Outcome::Browsable { article, host: _, tokens } => {
            if tokens.len() > 0 {
                Some(render_browsing(article.as_str(), tokens[0].as_str(), 1, tokens.len()))
            } else {
                None
            }
        },
        Outcome::Failed(_) => None,
    }
}

/// A pinned token stays the answer: after `t` is pinned under `k`, however
/// many tokens are later appended to any host, resolving under `k` gives the
/// direct reply with `t`.
pub proof fn lemma_pin_survives_appends(
    c: Map<Seq<char>, Seq<Seq<char>>>,
    p: Map<Seq<char>, Seq<char>>,
    ops: Seq<(Seq<char>, Seq<char>)>,
    url: Seq<char>,
    host: Seq<char>,
    k: Seq<char>,
    t: Seq<char>,
    o: Outcome,
)
    requires
        resolves_with(crate::registry::apply_appends(c, ops), p.insert(k, t), url, host, Some(k), o),
    ensures
        o matches Outcome::Pinned { article, token } && article@ == url && token@ == t,
        outcome_text(o) == Some(direct_text(reader_link(url, t), url)),
{
}

} // verus!

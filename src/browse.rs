//! The browsing state machine: what a control activation on a browsing reply
//! does, given the state decoded from that reply and the host's candidate
//! list as it stands now.
use vstd::prelude::*;
use crate::codec::{render_browsing, rendered, SessionState};
use crate::hasher::{derive_key, preference_key};
use crate::resolve::{direct_text, render_direct};
use crate::text::{chars_of, push_range, string_from};
use crate::weburl::{opt_view, reader_link};

verus! {

/// The controls attached to a browsing reply.
#[derive(PartialEq, Eq, Structural, Clone, Copy, Debug)]
pub enum Control {
    Prev,
    Selected,
    SetAsDefault,
    Next,
    /// Any other payload, or none.
    Unknown,
}

pub open spec fn payload_prev() -> Seq<char> {
    seq!['p', 'r', 'e', 'v']
}

pub open spec fn payload_selected() -> Seq<char> {
    seq!['s', 'e', 'l', 'e', 'c', 't', 'e', 'd']
}

pub open spec fn payload_set_default() -> Seq<char> {
    seq!['s', 'e', 't', ' ', 'a', 's', ' ', 'd', 'e', 'f', 'a', 'u', 'l', 't']
}

pub open spec fn payload_next() -> Seq<char> {
    seq!['n', 'e', 'x', 't']
}

/// The control that a payload names.
pub open spec fn control_named(data: Option<Seq<char>>) -> Control {
    match data {
        Some(d) => if d == payload_prev() {
            Control::Prev
        } else if d == payload_selected() {
            Control::Selected
        } else if d == payload_set_default() {
            Control::SetAsDefault
        } else if d == payload_next() {
            Control::Next
        } else {
            Control::Unknown
        },
        None => Control::Unknown,
    }
}

/// The payload that a control carries; the empty string for `Unknown`.
pub open spec fn payload_spec(c: Control) -> Seq<char> {
    match c {
        Control::Prev => payload_prev(),
        Control::Selected => payload_selected(),
        Control::SetAsDefault => payload_set_default(),
        Control::Next => payload_next(),
        Control::Unknown => Seq::empty(),
    }
}

fn same_chars(v: &Vec<char>, lit: &Vec<char>) -> (r: bool)
    ensures
        r == (v@ == lit@),
{
    if v.len() != lit.len() {
        return false;
    }
    let r = crate::text::literal_at(v, 0, lit);
    assert(v@.subrange(0, lit@.len() as int) =~= v@);
    r
}

/// The control that an activation payload names.
pub fn control_of(data: Option<&str>) -> (r: Control)
    ensures
        r == control_named(match data {
            Some(d) => Some(d@),
            None => None,
        }),
{
    let d = match data {
        Some(d) => chars_of(d),
        None => return Control::Unknown,
    };
    if same_chars(&d, &vec!['p', 'r', 'e', 'v']) {
        Control::Prev
    } else if same_chars(&d, &vec!['s', 'e', 'l', 'e', 'c', 't', 'e', 'd']) {
        Control::Selected
    } else if same_chars(&d, &vec!['s', 'e', 't', ' ', 'a', 's', ' ', 'd', 'e', 'f', 'a', 'u', 'l', 't']) {
        Control::SetAsDefault
    } else if same_chars(&d, &vec!['n', 'e', 'x', 't']) {
        Control::Next
    } else {
        Control::Unknown
    }
}

/// The payload to attach to a control.
pub fn payload_of(c: Control) -> (r: String)
    ensures
        r@ == payload_spec(c),
{
    let v = match c {
        Control::Prev => vec!['p', 'r', 'e', 'v'],
        Control::Selected => vec!['s', 'e', 'l', 'e', 'c', 't', 'e', 'd'],
        Control::SetAsDefault => vec!['s', 'e', 't', ' ', 'a', 's', ' ', 'd', 'e', 'f', 'a', 'u', 'l', 't'],
        Control::Next => vec!['n', 'e', 'x', 't'],
        Control::Unknown => Vec::new(),
    };
    let mut s = String::new();
    push_range(&mut s, &v, 0, v.len());
    assert(s@ =~= payload_spec(c));
    s
}

/// Each control is read back from its own payload.
pub proof fn lemma_payload_round_trip(c: Control)
    ensures
        control_named(Some(payload_spec(c))) == c,
{
    assert(payload_prev()[0] != payload_selected()[0]);
    assert(payload_prev()[0] != payload_set_default()[0]);
    assert(payload_prev()[0] != payload_next()[0]);
    assert(payload_selected()[2] != payload_set_default()[2]);
    assert(payload_selected().len() != payload_next().len());
    assert(payload_set_default().len() != payload_next().len());
    assert(Seq::<char>::empty().len() != payload_prev().len());
    assert(Seq::<char>::empty().len() != payload_selected().len());
    assert(Seq::<char>::empty().len() != payload_set_default().len());
    assert(Seq::<char>::empty().len() != payload_next().len());
}

/// Where a page control leads from `ordinal` of `total`, with `len`
/// candidates now registered.
pub enum Move {
    /// Already at the end in that direction: a notice, the reply unchanged.
    Boundary,
    /// To this ordinal.
    Goto(nat),
    /// Nowhere: the activation is only acknowledged.
    Stay,
}

pub open spec fn page_move(c: Control, ordinal: nat, total: nat, len: nat) -> Move {
    match c {
        Control::Prev => if ordinal == 1 {
            Move::Boundary
        } else if len >= 2 && 2 <= ordinal && ordinal - 1 <= len {
            Move::Goto((ordinal - 1) as nat)
        } else {
            Move::Stay
        },
        Control::Next => if ordinal == total {
            Move::Boundary
        } else if len >= 2 && ordinal < len {
            Move::Goto(ordinal + 1)
        } else {
            Move::Stay
        },
        _ => Move::Stay,
    }
}

/// Notice for `prev` at the first candidate.
pub open spec fn no_earlier_notice() -> Seq<char> {
    seq!['没', '有', '更', '靠', '前', '的', '模', '板']
}

/// Notice for `next` at the last candidate.
pub open spec fn no_later_notice() -> Seq<char> {
    seq!['没', '有', '更', '靠', '后', '的', '模', '板']
}

/// What the transport is to do for an activation.
pub enum Reaction {
    /// Acknowledge the activation only.
    Acknowledge,
    /// Answer with a transient notice; leave the reply as it is.
    Notice(String),
    /// Turn the reply into this final text.
    Finish(String),
    /// Pin `token` under `key`, then turn the reply into `text`.
    Pin { key: String, token: String, text: String },
    /// Turn the reply into the browsing text at `ordinal` of `total`.
    Page { text: String, ordinal: usize, total: usize },
}

/// The reaction to control `c` on a reply carrying `s`, with the
/// activating user's preference key for the host and the current candidates.
pub open spec fn reacts(c: Control, s: SessionState, key: Option<Seq<char>>, fresh: Seq<Seq<char>>, r: Reaction) -> bool {
    let direct = direct_text(s.link@, s.article@);
    match c {
        Control::Selected => r matches Reaction::Finish(t) && t@ == direct,
        Control::SetAsDefault => match key {
            Some(k) => r matches Reaction::Pin { key: rk, token, text } && rk@ == k && token@ == s.token@
                && text@ == direct,
            None => r matches Reaction::Finish(t) && t@ == direct,
        },
        Control::Unknown => r is Acknowledge,
        _ => match page_move(c, s.ordinal as nat, s.total as nat, fresh.len()) {
            Move::Boundary => r matches Reaction::Notice(t) && t@ == (if c == Control::Prev {
                no_earlier_notice()
            } else {
                no_later_notice()
            }),
            Move::Stay => r is Acknowledge,
            Move::Goto(j) => r matches Reaction::Page { text, ordinal, total } && ordinal == j
                && total == fresh.len() && text@ == rendered(
                reader_link(s.article@, fresh[j - 1]),
                s.article@,
                fresh[j - 1],
                j,
                fresh.len(),
            ),
        },
    }
}

/// Reacts to control `c` on a reply carrying `s`, given the activating
/// user's preference key for the host (if one could be derived) and the
/// host's candidate list read afresh.
pub fn react_with_key(c: Control, s: &SessionState, key: Option<String>, fresh: &Vec<String>) -> (r: Reaction)
    ensures
        reacts(c, *s, opt_view(key), fresh.deep_view(), r),
{
    let len = fresh.len();
    assert(fresh.deep_view().len() == len);
    match c {
        Control::Selected => Reaction::Finish(render_direct(s.link.as_str(), s.article.as_str())),
        Control::SetAsDefault => {
            let text = render_direct(s.link.as_str(), s.article.as_str());
            match key {
                Some(k) => Reaction::Pin { key: k, token: s.token.clone(), text },
                None => Reaction::Finish(text),
            }
        },
        Control::Unknown => Reaction::Acknowledge,
        Control::Prev => {
            if s.ordinal == 1 {
                Reaction::Notice(string_from(&vec!['没', '有', '更', '靠', '前', '的', '模', '板']))
            } else if len >= 2 && 2 <= s.ordinal && s.ordinal - 1 <= len {
                let j = s.ordinal - 1;
                let token = &fresh[j - 1];
                assert(fresh.deep_view()[j - 1] == token@);
                let text = render_browsing(s.article.as_str(), token.as_str(), j, len);
                Reaction::Page { text, ordinal: j, total: len }
            } else {
                Reaction::Acknowledge
            }
        },
        Control::Next => {
            if s.ordinal == s.total {
                Reaction::Notice(string_from(&vec!['没', '有', '更', '靠', '后', '的', '模', '板']))
            } else if len >= 2 && s.ordinal < len {
                let j = s.ordinal + 1;
                let token = &fresh[s.ordinal];
                assert(fresh.deep_view()[j - 1] == token@);
                let text = render_browsing(s.article.as_str(), token.as_str(), j, len);
                Reaction::Page { text, ordinal: j, total: len }
            } else {
                Reaction::Acknowledge
            }
        },
    }
}

/// Reacts to control `c`, activated by `user`, on a reply carrying `s`; the
/// preference key, of the user for the article's host, is derived only to pin
/// a token, and there is none without a user or a host.
pub fn react(c: Control, s: &SessionState, user: Option<i64>, fresh: &Vec<String>) -> (r: Reaction)
    ensures
        c != Control::SetAsDefault ==> reacts(c, *s, None, fresh.deep_view(), r),
        c == Control::SetAsDefault ==> match (user, s.host) {
            (Some(id), Some(h)) => reacts(c, *s, Some(preference_key(id as int, h@)), fresh.deep_view(), r),
            _ => reacts(c, *s, None, fresh.deep_view(), r),
        },
{
    let key = if c == Control::SetAsDefault {
        match &s.host {
            Some(h) => derive_key(user, h.as_str()),
            None => None,
        }
    } else {
        None
    };
    react_with_key(c, s, key, fresh)
}

/// Pagination stays within the candidate list: `prev` at the first candidate
/// and `next` at the last give a boundary notice, and every move lands on an
/// ordinal from one to the number of candidates.
pub proof fn lemma_pagination_bounds(c: Control, ordinal: nat, len: nat)
    requires
        len >= 2,
    ensures
        page_move(Control::Prev, 1, len, len) is Boundary,
        page_move(Control::Next, len, len, len) is Boundary,
        page_move(c, ordinal, len, len) matches Move::Goto(j) ==> 1 <= j <= len,
{
}

/// Between the boundaries of a list whose length is the reply's total, `prev`
/// undoes `next`.
pub proof fn lemma_prev_undoes_next(ordinal: nat, len: nat)
    requires
        len >= 2,
        1 <= ordinal < len,
    ensures
        page_move(Control::Next, ordinal, len, len) == Move::Goto(ordinal + 1),
        page_move(Control::Prev, ordinal + 1, len, len) == Move::Goto(ordinal),
{
}

} // verus!

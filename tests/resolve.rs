use ivbot::browse::{control_of, payload_of, react, react_with_key, Control, Reaction};
use ivbot::classify::{classify, Classification};
use ivbot::codec::{decode, render_browsing};
use ivbot::command::{delete_default, DeleteReply};
use ivbot::hasher::{derive_key, hex_string, key_input_string};
use ivbot::registry::{CandidateRegistry, PreferenceRegistry};
use ivbot::resolve::{reply_text, resolve, resolve_with_key, Failure, Outcome};

const READY: &str = "https://t.me/iv?url=https%3A%2F%2Fexample.com%2Farticle&rhash=AB12CD34EF56GH";

fn s(x: &str) -> String {
    x.to_string()
}

fn ready(token: &str) -> String {
    format!("https://t.me/iv?url=https%3A%2F%2Fexample.com%2Farticle&rhash={}", token)
}

#[test]
fn classify_kinds() {
    assert!(matches!(classify("not a url"), Classification::NotAUrl));
    match classify("https://Example.com/a") {
        Classification::NeedsResolution { url, host } => {
            assert_eq!(url, "https://example.com/a");
            assert_eq!(host, "example.com");
        }
        _ => panic!("expected an article link"),
    }
    match classify(READY) {
        Classification::ReadyLink { link, article, article_host, token } => {
            assert_eq!(link, READY);
            assert_eq!(article, "https://example.com/article");
            assert_eq!(article_host, Some(s("example.com")));
            assert_eq!(token, "AB12CD34EF56GH");
        }
        _ => panic!("expected a ready link"),
    }
    assert!(matches!(classify("https://t.me/iv?url=nothing&rhash=T"), Classification::NotAUrl));
    match classify("https://t.me/iv?url=https%3A%2F%2Fexample.com%2F") {
        Classification::NeedsResolution { host, .. } => assert_eq!(host, "t.me"),
        _ => panic!("expected an article link"),
    }
}

#[test]
fn key_is_twenty_upper_hex_digits() {
    assert_eq!(derive_key(None, "example.com"), None);
    let k = derive_key(Some(42), "example.com").unwrap();
    assert_eq!(k.len(), 20);
    assert!(k.chars().all(|c| c.is_ascii_digit() || ('A'..='F').contains(&c)));
    assert_eq!(derive_key(Some(42), "example.com"), Some(k.clone()));
    assert_ne!(derive_key(Some(43), "example.com"), Some(k.clone()));
    assert_ne!(derive_key(Some(42), "example.org"), Some(k));
    assert_eq!(hex_string(&vec![0x0f, 0xa0, 0x00]), "0FA000");
    assert_eq!(key_input_string(-5, "x.y"), "-5x.y");
}

#[test]
fn scenario_first_ready_link_then_browse() {
    let mut c = CandidateRegistry::new();
    let p = PreferenceRegistry::new();
    let o = resolve(&mut c, &p, READY, Some(1));
    assert!(matches!(&o, Outcome::Direct { .. }));
    assert_eq!(
        reply_text(&o).unwrap(),
        format!("[IV]({}) from [原文](https://example.com/article)", READY)
    );
    let o = resolve(&mut c, &p, "https://example.com/other", Some(2));
    match &o {
        Outcome::Browsable { article, host, tokens } => {
            assert_eq!(article, "https://example.com/other");
            assert_eq!(host, "example.com");
            assert_eq!(tokens, &vec![s("AB12CD34EF56GH")]);
        }
        _ => panic!("expected candidates"),
    }
    assert_eq!(
        reply_text(&o).unwrap(),
        "IV: https://t.me/iv?url=https%3A%2F%2Fexample.com%2Fother&rhash=AB12CD34EF56GH\n原文: https://example.com/other\nrhash: AB12CD34EF56GH    (1/1)"
    );
}

#[test]
fn harvest_happens_once_per_token() {
    let mut c = CandidateRegistry::new();
    let p = PreferenceRegistry::new();
    resolve(&mut c, &p, READY, Some(1));
    resolve(&mut c, &p, READY, Some(2));
    assert_eq!(c.list(&s("example.com")), vec![s("AB12CD34EF56GH")]);
}

#[test]
fn scenario_set_default_then_pinned() {
    let mut c = CandidateRegistry::new();
    let mut p = PreferenceRegistry::new();
    for t in ["AAAAAAAAAAAAA1", "BBBBBBBBBBBBB2", "CCCCCCCCCCCCC3"] {
        resolve(&mut c, &p, &ready(t), Some(9));
    }
    let text = render_browsing("https://example.com/x", "BBBBBBBBBBBBB2", 2, 3);
    let state = decode(&text).unwrap();
    let fresh = c.list(state.host.as_ref().unwrap());
    let r = react(Control::SetAsDefault, &state, Some(7), &fresh);
    let key = match r {
        Reaction::Pin { key, token, text } => {
            assert_eq!(token, "BBBBBBBBBBBBB2");
            assert_eq!(key, derive_key(Some(7), "example.com").unwrap());
            assert_eq!(text, format!("[IV]({}) from [原文](https://example.com/x)", state.link));
            key
        }
        _ => panic!("expected a pin"),
    };
    p.set(&key, &s("BBBBBBBBBBBBB2"));
    resolve(&mut c, &p, &ready("DDDDDDDDDDDDD4"), Some(9));
    let o = resolve(&mut c, &p, "https://example.com/later", Some(7));
    match &o {
        Outcome::Pinned { article, token } => {
            assert_eq!(article, "https://example.com/later");
            assert_eq!(token, "BBBBBBBBBBBBB2");
        }
        _ => panic!("expected the pinned token"),
    }
    assert_eq!(
        reply_text(&o).unwrap(),
        "[IV](https://t.me/iv?url=https%3A%2F%2Fexample.com%2Flater&rhash=BBBBBBBBBBBBB2) from [原文](https://example.com/later)"
    );
    assert!(matches!(resolve(&mut c, &p, "https://example.com/y", Some(8)), Outcome::Browsable { .. }));
}

#[test]
fn preference_takes_precedence() {
    let mut c = CandidateRegistry::new();
    c.append_if_absent(&s("h.org"), &s("LISTED"));
    let mut p = PreferenceRegistry::new();
    p.set(&s("KEY"), &s("PINNED"));
    let o = resolve_with_key(&c, &p, &s("https://h.org/a"), &s("h.org"), Some(s("KEY")));
    assert!(matches!(o, Outcome::Pinned { token, .. } if token == "PINNED"));
    let o = resolve_with_key(&c, &p, &s("https://h.org/a"), &s("h.org"), Some(s("OTHER")));
    assert!(matches!(o, Outcome::Browsable { tokens, .. } if tokens == vec![s("LISTED")]));
}

#[test]
fn bare_domain_browsing_reply_decodes() {
    let mut c = CandidateRegistry::new();
    let p = PreferenceRegistry::new();
    resolve(&mut c, &p, READY, Some(1));
    let o = resolve(&mut c, &p, "https://example.com", Some(2));
    let text = reply_text(&o).unwrap();
    let st = decode(&text).expect("the library's own reply decodes");
    assert_eq!(st.article, "https://example.com/");
    assert_eq!(st.host.as_deref(), Some("example.com"));
    assert_eq!(render_browsing(&st.article, &st.token, st.ordinal, st.total), text);
}

#[test]
fn resolution_failures() {
    let mut c = CandidateRegistry::new();
    let p = PreferenceRegistry::new();
    assert!(matches!(resolve(&mut c, &p, "nonsense", Some(1)), Outcome::Failed(Failure::NotAUrl)));
    assert!(matches!(
        resolve(&mut c, &p, "https://nowhere.net/a", Some(1)),
        Outcome::Failed(Failure::NoCandidates)
    ));
    assert!(matches!(
        resolve(&mut c, &p, "https://nowhere.net/a", None),
        Outcome::Failed(Failure::KeyDerivationFailed)
    ));
    assert!(reply_text(&Outcome::Failed(Failure::NoCandidates)).is_none());
}

#[test]
fn controls_round_trip() {
    for c in [Control::Prev, Control::Selected, Control::SetAsDefault, Control::Next] {
        let p = payload_of(c);
        assert_eq!(control_of(Some(&p)), c);
    }
    assert_eq!(payload_of(Control::SetAsDefault), "set as default");
    assert_eq!(control_of(Some("other")), Control::Unknown);
    assert_eq!(control_of(None), Control::Unknown);
}

#[test]
fn paging_boundaries() {
    let fresh = vec![s("AAAAAAAAAAAAA1"), s("BBBBBBBBBBBBB2"), s("CCCCCCCCCCCCC3")];
    let first = decode(&render_browsing("https://e.com/a", "AAAAAAAAAAAAA1", 1, 3)).unwrap();
    assert!(matches!(react(Control::Prev, &first, Some(1), &fresh), Reaction::Notice(t) if t == "没有更靠前的模板"));
    let last = decode(&render_browsing("https://e.com/a", "CCCCCCCCCCCCC3", 3, 3)).unwrap();
    assert!(matches!(react(Control::Next, &last, Some(1), &fresh), Reaction::Notice(t) if t == "没有更靠后的模板"));
    match react(Control::Next, &first, Some(1), &fresh) {
        Reaction::Page { text, ordinal, total } => {
            assert_eq!((ordinal, total), (2, 3));
            assert_eq!(text, render_browsing("https://e.com/a", "BBBBBBBBBBBBB2", 2, 3));
        }
        _ => panic!("expected a page"),
    }
    match react(Control::Prev, &last, Some(1), &fresh) {
        Reaction::Page { text, ordinal, .. } => {
            assert_eq!(ordinal, 2);
            assert_eq!(text, render_browsing("https://e.com/a", "BBBBBBBBBBBBB2", 2, 3));
        }
        _ => panic!("expected a page"),
    }
}

#[test]
fn paging_on_shrunk_list_is_acknowledged() {
    let fresh = vec![s("AAAAAAAAAAAAA1"), s("BBBBBBBBBBBBB2")];
    let st = decode(&render_browsing("https://e.com/a", "BBBBBBBBBBBBB2", 2, 5)).unwrap();
    assert!(matches!(react(Control::Next, &st, Some(1), &fresh), Reaction::Acknowledge));
    let single = vec![s("AAAAAAAAAAAAA1")];
    assert!(matches!(react(Control::Prev, &st, Some(1), &single), Reaction::Acknowledge));
    assert!(matches!(react(Control::Unknown, &st, Some(1), &fresh), Reaction::Acknowledge));
}

#[test]
fn selected_and_keyless_default_finish() {
    let st = decode(&render_browsing("https://e.com/a", "AAAAAAAAAAAAA1", 1, 2)).unwrap();
    let expected = format!("[IV]({}) from [原文](https://e.com/a)", st.link);
    assert!(matches!(react(Control::Selected, &st, None, &vec![]), Reaction::Finish(t) if t == expected));
    assert!(matches!(react(Control::SetAsDefault, &st, None, &vec![]), Reaction::Finish(t) if t == expected));
    assert!(matches!(
        react_with_key(Control::SetAsDefault, &st, Some(s("K")), &vec![]),
        Reaction::Pin { key, .. } if key == "K"
    ));
}

#[test]
fn delete_default_without_entry_is_not_found() {
    let mut p = PreferenceRegistry::new();
    assert_eq!(delete_default(&mut p, Some("https://example.com/a"), Some(5)), DeleteReply::NotFound);
}

#[test]
fn delete_default_removes_entry() {
    let mut p = PreferenceRegistry::new();
    let k = derive_key(Some(5), "example.com").unwrap();
    p.set(&k, &s("T"));
    assert_eq!(delete_default(&mut p, Some("https://example.com/b"), Some(5)), DeleteReply::Deleted);
    assert_eq!(p.get(&k), None);
    assert_eq!(delete_default(&mut p, Some("no url"), Some(5)), DeleteReply::Ignored);
    assert_eq!(delete_default(&mut p, None, Some(5)), DeleteReply::Ignored);
    assert_eq!(delete_default(&mut p, Some("https://example.com/b"), None), DeleteReply::Ignored);
}

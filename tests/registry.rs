use ivbot::registry::{add_token, CandidateRegistry, PreferenceRegistry};

fn s(x: &str) -> String {
    x.to_string()
}

#[test]
fn append_twice_is_append_once() {
    let mut r = CandidateRegistry::new();
    r.append_if_absent(&s("example.com"), &s("T1"));
    let once = r.list(&s("example.com"));
    r.append_if_absent(&s("example.com"), &s("T1"));
    assert_eq!(r.list(&s("example.com")), once);
    assert_eq!(once, vec![s("T1")]);
}

#[test]
fn order_kept_across_other_hosts() {
    let mut r = CandidateRegistry::new();
    r.append_if_absent(&s("h"), &s("A"));
    r.append_if_absent(&s("other"), &s("X"));
    r.append_if_absent(&s("h"), &s("B"));
    r.append_if_absent(&s("other"), &s("A"));
    r.append_if_absent(&s("h"), &s("A"));
    r.append_if_absent(&s("h"), &s("C"));
    assert_eq!(r.list(&s("h")), vec![s("A"), s("B"), s("C")]);
    assert_eq!(r.list(&s("other")), vec![s("X"), s("A")]);
    assert!(r.list(&s("unknown")).is_empty());
}

#[test]
fn add_token_reports_addition() {
    let mut l = vec![s("A")];
    assert!(add_token(&mut l, &s("B")));
    assert!(!add_token(&mut l, &s("A")));
    assert_eq!(l, vec![s("A"), s("B")]);
}

#[test]
fn preferences_set_get_delete() {
    let mut p = PreferenceRegistry::new();
    assert_eq!(p.get(&s("K")), None);
    p.set(&s("K"), &s("T1"));
    p.set(&s("L"), &s("T2"));
    p.set(&s("K"), &s("T3"));
    assert_eq!(p.get(&s("K")), Some(s("T3")));
    assert_eq!(p.delete(&s("K")), Some(s("T3")));
    assert_eq!(p.delete(&s("K")), None);
    assert_eq!(p.get(&s("L")), Some(s("T2")));
}

#[test]
fn append_all_keeps_order() {
    let mut r = CandidateRegistry::new();
    let ops = vec![(s("h"), s("A")), (s("o"), s("Z")), (s("h"), s("B")), (s("h"), s("A")), (s("h"), s("C"))];
    r.append_all(&ops);
    assert_eq!(r.list(&s("h")), vec![s("A"), s("B"), s("C")]);
    assert_eq!(r.list(&s("o")), vec![s("Z")]);
    let mut e = r.entries();
    e.sort();
    assert_eq!(e, vec![(s("h"), vec![s("A"), s("B"), s("C")]), (s("o"), vec![s("Z")])]);
}

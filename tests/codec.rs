use ivbot::codec::{decode, render_browsing};
use ivbot::text::{decimal_string, signed_decimal_string};
use ivbot::weburl::build_reader_link;

const ARTICLE: &str = "https://example.com/news/1";
const TOKEN: &str = "AB12CD34EF56GH";

fn expected_text(ordinal: usize, total: usize) -> String {
    format!(
        "IV: https://t.me/iv?url=https%3A%2F%2Fexample.com%2Fnews%2F1&rhash={1}\n原文: {0}\nrhash: {1}    ({2}/{3})",
        ARTICLE, TOKEN, ordinal, total
    )
}

#[test]
fn decimal_notation() {
    assert_eq!(decimal_string(0), "0");
    assert_eq!(decimal_string(7), "7");
    assert_eq!(decimal_string(1234), "1234");
    assert_eq!(decimal_string(u64::MAX), "18446744073709551615");
    assert_eq!(signed_decimal_string(-42), "-42");
    assert_eq!(signed_decimal_string(i64::MIN), "-9223372036854775808");
    assert_eq!(signed_decimal_string(5), "5");
}

#[test]
fn reader_link_is_percent_encoded() {
    assert_eq!(
        build_reader_link("https://a.org/x y", "T"),
        "https://t.me/iv?url=https%3A%2F%2Fa.org%2Fx+y&rhash=T"
    );
}

#[test]
fn render_gives_three_line_layout() {
    assert_eq!(render_browsing(ARTICLE, TOKEN, 2, 3), expected_text(2, 3));
}

#[test]
fn decode_reads_rendered_state() {
    let text = render_browsing(ARTICLE, TOKEN, 2, 3);
    let s = decode(&text).expect("rendered text decodes");
    assert_eq!(s.article, ARTICLE);
    assert_eq!(s.host.as_deref(), Some("example.com"));
    assert_eq!(s.token, TOKEN);
    assert_eq!(s.ordinal, 2);
    assert_eq!(s.total, 3);
    assert_eq!(s.link, build_reader_link(ARTICLE, TOKEN));
}

#[test]
fn decode_then_render_is_identical() {
    for (i, n) in [(1usize, 1usize), (2, 3), (10, 12), (usize::MAX, usize::MAX)] {
        let text = render_browsing(ARTICLE, TOKEN, i, n);
        let s = decode(&text).unwrap();
        assert_eq!(render_browsing(&s.article, &s.token, s.ordinal, s.total), text);
    }
}

#[test]
fn decode_rejects_foreign_text() {
    assert!(decode("").is_none());
    assert!(decode("hello").is_none());
    assert!(decode("[IV](https://t.me/iv) from [原文](https://example.com/a)").is_none());
}

#[test]
fn decode_rejects_leading_zero_and_trailing_text() {
    let text = expected_text(2, 3).replace("(2/3)", "(02/3)");
    assert!(decode(&text).is_none());
    let text = format!("{}\nmore", expected_text(2, 3));
    assert!(decode(&text).is_none());
}

#[test]
fn decode_rejects_short_token() {
    let text = expected_text(1, 1).replace("rhash: AB12CD34EF56GH", "rhash: AB12CD34EF56G");
    assert!(decode(&text).is_none());
}

#[test]
fn decode_reads_bare_domain_article() {
    let text = render_browsing("https://example.com/", TOKEN, 1, 1);
    let s = decode(&text).expect("a bare domain decodes");
    assert_eq!(s.article, "https://example.com/");
    assert_eq!(s.host.as_deref(), Some("example.com"));
    assert_eq!(render_browsing(&s.article, &s.token, s.ordinal, s.total), text);
}

#[test]
fn decode_host_drops_user_and_port() {
    let text = render_browsing("https://user@example.com:8080/x", TOKEN, 1, 2);
    let s = decode(&text).unwrap();
    assert_eq!(s.host.as_deref(), Some("example.com"));
    let text = render_browsing("ftp://files.example.org/a", TOKEN, 1, 2);
    assert_eq!(decode(&text).unwrap().host.as_deref(), Some("files.example.org"));
}

#[test]
fn decode_takes_host_up_to_first_slash() {
    let text = "IV: x\n原文: http://a.b/c/d\nrhash: AB12CD34EF56GH    (3/4)";
    let s = decode(text).unwrap();
    assert_eq!(s.host.as_deref(), Some("a.b"));
    assert_eq!(s.article, "http://a.b/c/d");
    assert_eq!(s.link, "x");
    assert_eq!((s.ordinal, s.total), (3, 4));
}

#[test]
fn decode_rejects_ordinal_overflow() {
    let text = expected_text(1, 1).replace("(1/1)", "(99999999999999999999999/1)");
    assert!(decode(&text).is_none());
}

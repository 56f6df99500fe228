//! The browsing reply: its text layout, rendering, and structural decoding.
//!
//! The state of a browsing session lives only in the text of the reply, so
//! decoding is exact: a text decodes if and only if it is the rendering of a
//! well-formed state, and then to that state.
use vstd::prelude::*;
use crate::text::{
    no_line_break,
    decimal, decimal_string, find_char, lemma_decimal, literal_at,
    parse_decimal, push_range, string_of_range, chars_of,
};
use crate::weburl::{build_reader_link, opt_view, parse_url, parsed_host, reader_link};

verus! {

/// Number of characters of a render token in a browsing reply.
pub const TOKEN_LEN: usize = 14;

/// ASCII letters, digits and the underscore.
pub open spec fn is_word_char(c: char) -> bool {
    ('0' <= c && c <= '9') || ('a' <= c && c <= 'z') || ('A' <= c && c <= 'Z') || c == '_'
}

/// The token is a run of exactly `TOKEN_LEN` word characters.
pub open spec fn token_ok(t: Seq<char>) -> bool {
    t.len() == TOKEN_LEN && forall|i: int| 0 <= i < t.len() ==> is_word_char(#[trigger] t[i])
}

pub open spec fn lit_iv() -> Seq<char> {
    seq!['I', 'V', ':', ' ']
}

pub open spec fn lit_article() -> Seq<char> {
    seq!['\n', '原', '文', ':', ' ']
}

pub open spec fn lit_token() -> Seq<char> {
    seq!['\n', 'r', 'h', 'a', 's', 'h', ':', ' ']
}

pub open spec fn lit_count() -> Seq<char> {
    seq![' ', ' ', ' ', ' ', '(']
}

/// The three-line text of a browsing reply.
#[verifier::opaque]
pub open spec fn rendered(
    link: Seq<char>,
    article: Seq<char>,
    token: Seq<char>,
    ordinal: nat,
    total: nat,
) -> Seq<char> {
    lit_iv() + (link + (lit_article() + (article + (lit_token() + (token + (lit_count() + (
    decimal(ordinal) + (seq!['/'] + (decimal(total) + seq![')'])))))))))
}

/// The state of a browsing session as carried by a reply.
pub struct SessionState {
    pub link: String,
    pub article: String,
    /// The host that the URL parser finds in the article link, if any.
    pub host: Option<String>,
    pub token: String,
    pub ordinal: usize,
    pub total: usize,
}

impl SessionState {
    /// The fields can be laid out and read back unambiguously.
    pub open spec fn fields_ok(&self) -> bool {
        &&& self.link@.len() >= 1
        &&& no_line_break(self.link@)
        &&& no_line_break(self.article@)
        &&& token_ok(self.token@)
    }

    /// The reply text that carries this state.
    pub open spec fn text(&self) -> Seq<char> {
        rendered(self.link@, self.article@, self.token@, self.ordinal as nat, self.total as nat)
    }

    /// Both states hold the same values.
    pub open spec fn agrees(&self, o: &SessionState) -> bool {
        &&& self.link@ == o.link@
        &&& self.article@ == o.article@
        &&& self.token@ == o.token@
        &&& self.ordinal == o.ordinal
        &&& self.total == o.total
    }

    /// This state is well formed and `c` is its text.
    pub open spec fn carried_by(&self, c: Seq<char>) -> bool {
        self.fields_ok() && c == self.text()
    }
}

proof fn lemma_split(c: Seq<char>, pos: int, x: Seq<char>, y: Seq<char>)
    requires
        0 <= pos <= c.len(),
        c.subrange(pos, c.len() as int) == x + y,
    ensures
        pos + x.len() + y.len() == c.len(),
        c.subrange(pos, pos + x.len()) == x,
        c.subrange(pos + x.len(), c.len() as int) == y,
{
    assert(c.subrange(pos, pos + x.len()) =~= (x + y).subrange(0, x.len() as int));
    assert(c.subrange(pos + x.len(), c.len() as int) =~= (x + y).subrange(x.len() as int, (x + y).len() as int));
}

proof fn lemma_split_avoiding(c: Seq<char>, pos: int, x: Seq<char>, y: Seq<char>, ch: char)
    requires
        0 <= pos <= c.len(),
        c.subrange(pos, c.len() as int) == x + y,
        forall|i: int| 0 <= i < x.len() ==> x[i] != ch,
        y.len() >= 1,
        y[0] == ch,
    ensures
        pos + x.len() + y.len() == c.len(),
        c.subrange(pos, pos + x.len()) == x,
        c.subrange(pos + x.len(), c.len() as int) == y,
        c[pos + x.len()] == ch,
        forall|j: int| pos <= j < pos + x.len() ==> c[j] != ch,
{
    lemma_split(c, pos, x, y);
    assert(c[pos + x.len()] == c.subrange(pos + x.len(), c.len() as int)[0]);
    assert forall|j: int| pos <= j < pos + x.len() implies c[j] != ch by {
        assert(c[j] == c.subrange(pos, pos + x.len())[j - pos]);
    }
}

proof fn lemma_digits_avoid(n: nat, ch: char)
    requires
        !crate::text::is_digit(ch),
    ensures
        forall|i: int| 0 <= i < decimal(n).len() ==> decimal(n)[i] != ch,
{
    lemma_decimal(n);
}

/// Where each part of a rendered text stands.
#[verifier::rlimit(50)]
#[verifier::spinoff_prover]
proof fn lemma_layout(w: SessionState, c: Seq<char>)
    requires
        w.carried_by(c),
    ensures
        ({
            let e1: int = 4 + w.link@.len() as int;
            let a0: int = e1 + 5;
            let e2: int = a0 + w.article@.len();
            let t0: int = e2 + 8;
            let d0: int = t0 + TOKEN_LEN + 5;
            let e3: int = d0 + decimal(w.ordinal as nat).len();
            let n0: int = e3 + 1;
            let e4: int = n0 + decimal(w.total as nat).len();
            &&& c.subrange(0, 4) == lit_iv()
            &&& c.subrange(4, e1) == w.link@
            &&& c.subrange(e1, a0) == lit_article()
            &&& c.subrange(a0, e2) == w.article@
            &&& c.subrange(e2, t0) == lit_token()
            &&& c.subrange(t0, t0 + TOKEN_LEN) == w.token@
            &&& c.subrange(t0 + TOKEN_LEN, d0) == lit_count()
            &&& c.subrange(d0, e3) == decimal(w.ordinal as nat)
            &&& c[e3] == '/'
            &&& c.subrange(n0, e4) == decimal(w.total as nat)
            &&& c[e4] == ')'
            &&& c.len() == e4 + 1
            &&& c[e1] == '\n'
            &&& c[e2] == '\n'
            &&& (forall|j: int| 4 <= j < e1 ==> c[j] != '\n')
            &&& (forall|j: int| a0 <= j < e2 ==> c[j] != '\n')
            &&& (forall|j: int| d0 <= j < e3 ==> c[j] != '/')
            &&& (forall|j: int| n0 <= j < e4 ==> c[j] != ')')
        }),
{
    let link = w.link@;
    let article = w.article@;
    let token = w.token@;
    let od = decimal(w.ordinal as nat);
    let td = decimal(w.total as nat);
    let r9 = td + seq![')'];
    let r8 = seq!['/'] + r9;
    let r7 = od + r8;
    let r6 = lit_count() + r7;
    let r5 = token + r6;
    let r4 = lit_token() + r5;
    let r3 = article + r4;
    let r2 = lit_article() + r3;
    let r1 = link + r2;
    reveal(rendered);
    assert(c.subrange(0, c.len() as int) =~= lit_iv() + r1);
    lemma_split(c, 0, lit_iv(), r1);
    lemma_split_avoiding(c, 4, link, r2, '\n');
    let e1: int = 4 + link.len() as int;
    lemma_split(c, e1, lit_article(), r3);
    let a0: int = e1 + 5;
    lemma_split_avoiding(c, a0, article, r4, '\n');
    let e2: int = a0 + article.len();
    lemma_split(c, e2, lit_token(), r5);
    let t0: int = e2 + 8;
    lemma_split(c, t0, token, r6);
    lemma_split(c, t0 + 14, lit_count(), r7);
    let d0: int = t0 + 19;
    lemma_digits_avoid(w.ordinal as nat, '/');
    lemma_split_avoiding(c, d0, od, r8, '/');
    let e3: int = d0 + od.len();
    lemma_split(c, e3, seq!['/'], r9);
    let n0: int = e3 + 1;
    lemma_digits_avoid(w.total as nat, ')');
    lemma_split_avoiding(c, n0, td, seq![')'], ')');
}

/// Two well-formed states carried by one text are the same state.
pub proof fn lemma_layout_unique(w1: SessionState, w2: SessionState, c: Seq<char>)
    requires
        w1.carried_by(c),
        w2.carried_by(c),
    ensures
        w1.agrees(&w2),
{
    lemma_layout(w1, c);
    lemma_layout(w2, c);
    let e1: int = 4 + w1.link@.len() as int;
    let f1: int = 4 + w2.link@.len() as int;
    if e1 < f1 {
        assert(c[e1] == '\n');
    } else if f1 < e1 {
        assert(c[f1] == '\n');
    }
    let a0: int = e1 + 5;
    let e2: int = a0 + w1.article@.len();
    let f2: int = a0 + w2.article@.len();
    if e2 < f2 {
        assert(c[e2] == '\n');
    } else if f2 < e2 {
        assert(c[f2] == '\n');
    }
    let d0: int = e2 + 8 + TOKEN_LEN + 5;
    let e3: int = d0 + decimal(w1.ordinal as nat).len();
    let f3: int = d0 + decimal(w2.ordinal as nat).len();
    if e3 < f3 {
        assert(c[e3] == '/');
    } else if f3 < e3 {
        assert(c[f3] == '/');
    }
    lemma_decimal(w1.ordinal as nat);
    lemma_decimal(w2.ordinal as nat);
    lemma_decimal(w1.total as nat);
    lemma_decimal(w2.total as nat);
}

proof fn lemma_join(c: Seq<char>, p: int, q: int)
    requires
        0 <= p <= q <= c.len(),
    ensures
        c.subrange(p, c.len() as int) == c.subrange(p, q) + c.subrange(q, c.len() as int),
{
    assert(c.subrange(p, c.len() as int) =~= c.subrange(p, q) + c.subrange(q, c.len() as int));
}

/// Pieces that stand where the layout puts them make up the rendered text.
#[verifier::spinoff_prover]
proof fn lemma_assemble(c: Seq<char>, link: Seq<char>, article: Seq<char>, token: Seq<char>, o: nat, t: nat)
    requires
        ({
            let e1 = 4 + link.len() as int;
            let a0 = e1 + 5;
            let e2 = a0 + article.len();
            let t0 = e2 + 8;
            let d0 = t0 + token.len() + 5;
            let e3 = d0 + decimal(o).len();
            let n0 = e3 + 1;
            let e4 = n0 + decimal(t).len();
            &&& c.subrange(0, 4) == lit_iv()
            &&& c.subrange(4, e1) == link
            &&& c.subrange(e1, a0) == lit_article()
            &&& c.subrange(a0, e2) == article
            &&& c.subrange(e2, t0) == lit_token()
            &&& c.subrange(t0, t0 + token.len()) == token
            &&& c.subrange(t0 + token.len(), d0) == lit_count()
            &&& c.subrange(d0, e3) == decimal(o)
            &&& c[e3] == '/'
            &&& c.subrange(n0, e4) == decimal(t)
            &&& c[e4] == ')'
            &&& c.len() == e4 + 1
        }),
    ensures
        c == rendered(link, article, token, o, t),
{
    reveal(rendered);
    let e1: int = 4 + link.len() as int;
    let a0: int = e1 + 5;
    let e2: int = a0 + article.len();
    let t0: int = e2 + 8;
    let t1: int = t0 + token.len();
    let d0: int = t1 + 5;
    let e3: int = d0 + decimal(o).len();
    let n0: int = e3 + 1;
    let e4: int = n0 + decimal(t).len();
    let n = c.len() as int;
    assert(c.subrange(e4, n) =~= seq![')']);
    lemma_join(c, n0, e4);
    assert(c.subrange(e3, n0) =~= seq!['/']);
    lemma_join(c, e3, n0);
    lemma_join(c, d0, e3);
    lemma_join(c, t1, d0);
    lemma_join(c, t0, t1);
    lemma_join(c, e2, t0);
    lemma_join(c, a0, e2);
    lemma_join(c, e1, a0);
    lemma_join(c, 4, e1);
    lemma_join(c, 0, 4);
    assert(c =~= c.subrange(0, n));
}

/// Whether a token stands in `v` at `from`.
fn token_at(v: &Vec<char>, from: usize) -> (r: bool)
    requires
        from <= v@.len(),
    ensures
        r == (TOKEN_LEN <= v@.len() - from && token_ok(v@.subrange(from as int, from + TOKEN_LEN))),
{
    if TOKEN_LEN > v.len() - from {
        return false;
    }
    let end = from + TOKEN_LEN;
    let mut i: usize = from;
    while i < end
        invariant
            end == from + TOKEN_LEN,
            from <= i <= end <= v@.len(),
            forall|j: int| from <= j < i ==> is_word_char(#[trigger] v@[j]),
        decreases end - i,
    {
        let ch = v[i];
        if !(('0' <= ch && ch <= '9') || ('a' <= ch && ch <= 'z') || ('A' <= ch && ch <= 'Z') || ch == '_') {
            proof {
                let t = v@.subrange(from as int, from + TOKEN_LEN);
                assert(t[i - from] == ch);
            }
            return false;
        }
        i = i + 1;
    }
    proof {
        let t = v@.subrange(from as int, from + TOKEN_LEN);
        assert forall|j: int| 0 <= j < t.len() implies is_word_char(#[trigger] t[j]) by {
            assert(t[j] == v@[from + j]);
        }
    }
    true
}

/// No well-formed state is carried by `c`.
pub open spec fn carries_nothing(c: Seq<char>) -> bool {
    forall|w: SessionState| !#[trigger] w.carried_by(c)
}

/// Renders the browsing reply for `article` under `token`, at `ordinal` of
/// `total` candidates.
pub fn render_browsing(article: &str, token: &str, ordinal: usize, total: usize) -> (r: String)
    ensures
        r@ == rendered(reader_link(article@, token@), article@, token@, ordinal as nat, total as nat),
        no_line_break(token@) ==> no_line_break(reader_link(article@, token@)),
{
    let link = build_reader_link(article, token);
    let l_iv = vec!['I', 'V', ':', ' '];
    let l_article = vec!['\n', '原', '文', ':', ' '];
    let l_token = vec!['\n', 'r', 'h', 'a', 's', 'h', ':', ' '];
    let l_count = vec![' ', ' ', ' ', ' ', '('];
    let l_slash = vec!['/'];
    let l_close = vec![')'];
    let od = decimal_string(ordinal as u64);
    let td = decimal_string(total as u64);
    let mut s = String::new();
    push_range(&mut s, &l_iv, 0, 4);
    s.append(link.as_str());
    push_range(&mut s, &l_article, 0, 5);
    s.append(article);
    push_range(&mut s, &l_token, 0, 8);
    s.append(token);
    push_range(&mut s, &l_count, 0, 5);
    s.append(od.as_str());
    push_range(&mut s, &l_slash, 0, 1);
    s.append(td.as_str());
    push_range(&mut s, &l_close, 0, 1);
    proof {
        reveal(rendered);
        assert(l_iv@.subrange(0, 4) =~= lit_iv());
        assert(l_article@.subrange(0, 5) =~= lit_article());
        assert(l_token@.subrange(0, 8) =~= lit_token());
        assert(l_count@.subrange(0, 5) =~= lit_count());
        assert(l_slash@.subrange(0, 1) =~= seq!['/']);
        assert(l_close@.subrange(0, 1) =~= seq![')']);
        assert(s@ =~= rendered(reader_link(article@, token@), article@, token@, ordinal as nat, total as nat));
    }
    s
}

/// Reads the browsing state back from the text of a reply. The text decodes
/// exactly when it is the rendering of a well-formed state, and then to that
/// state; its host is what the URL parser finds in the article link.
#[verifier::rlimit(40)]
pub fn decode(text: &str) -> (r: Option<SessionState>)
    ensures
        r matches Some(s) ==> s.carried_by(text@) && opt_view(s.host) == parsed_host(s.article@),
        r is None ==> carries_nothing(text@),
        forall|w: SessionState| #[trigger] w.carried_by(text@) ==> (r matches Some(s) && s.agrees(&w)),
{
    let v = chars_of(text);
    let ghost c = v@;
    let n = v.len();
    let l_iv = vec!['I', 'V', ':', ' '];
    let l_article = vec!['\n', '原', '文', ':', ' '];
    let l_token = vec!['\n', 'r', 'h', 'a', 's', 'h', ':', ' '];
    let l_count = vec![' ', ' ', ' ', ' ', '('];
    if !literal_at(&v, 0, &l_iv) {
        proof {
            assert forall|w: SessionState| !#[trigger] w.carried_by(c) by {
                if w.carried_by(c) {
                    lemma_layout(w, c);
                }
            }
        }
        return None;
    }
    let k1 = match find_char(&v, 4, n, '\n') {
        Some(k) => k,
        None => {
            proof {
                assert forall|w: SessionState| !#[trigger] w.carried_by(c) by {
                    if w.carried_by(c) {
                        lemma_layout(w, c);
                        assert(c[4 + w.link@.len() as int] == '\n');
                    }
                }
            }
            return None;
        },
    };
    if k1 == 4 || !literal_at(&v, k1, &l_article) {
        proof {
            assert forall|w: SessionState| !#[trigger] w.carried_by(c) by {
                if w.carried_by(c) {
                    lemma_layout(w, c);
                    assert(c[4 + w.link@.len() as int] == '\n');
                    assert(k1 == 4 + w.link@.len());
                }
            }
        }
        return None;
    }
    let a0 = k1 + 5;
    let k2 = match find_char(&v, a0, n, '\n') {
        Some(k) => k,
        None => {
            proof {
                assert forall|w: SessionState| !#[trigger] w.carried_by(c) by {
                    if w.carried_by(c) {
                        lemma_layout(w, c);
                        assert(c[4 + w.link@.len() as int] == '\n');
                        assert(k1 == 4 + w.link@.len());
                        assert(c[a0 + w.article@.len()] == '\n');
                    }
                }
            }
            return None;
        },
    };
    proof {
        assert forall|w: SessionState| #[trigger] w.carried_by(c) implies k1 == 4 + w.link@.len()
            && k2 == a0 + w.article@.len() && c.subrange(a0 as int, k2 as int) == w.article@ by {
            lemma_layout(w, c);
            assert(c[4 + w.link@.len() as int] == '\n');
            assert(k1 == 4 + w.link@.len());
            assert(c[a0 + w.article@.len()] == '\n');
        }
    }
    if !literal_at(&v, k2, &l_token) || !token_at(&v, k2 + 8) || !literal_at(&v, k2 + 8 + TOKEN_LEN, &l_count) {
        proof {
            assert forall|w: SessionState| !#[trigger] w.carried_by(c) by {
                if w.carried_by(c) {
                    lemma_layout(w, c);
                }
            }
        }
        return None;
    }
    let t0 = k2 + 8;
    let t1 = t0 + TOKEN_LEN;
    let d0 = t1 + 5;
    let k3 = match find_char(&v, d0, n, '/') {
        Some(k) => k,
        None => {
            proof {
                assert forall|w: SessionState| !#[trigger] w.carried_by(c) by {
                    if w.carried_by(c) {
                        lemma_layout(w, c);
                        assert(c[d0 + decimal(w.ordinal as nat).len()] == '/');
                    }
                }
            }
            return None;
        },
    };
    proof {
        assert forall|w: SessionState| #[trigger] w.carried_by(c) implies k3 == d0 + decimal(w.ordinal as nat).len() by {
            lemma_layout(w, c);
            assert(c[d0 + decimal(w.ordinal as nat).len()] == '/');
        }
    }
    let ordinal = match parse_decimal(&v, d0, k3) {
        Some(x) => x,
        None => {
            proof {
                assert forall|w: SessionState| !#[trigger] w.carried_by(c) by {
                    if w.carried_by(c) {
                        lemma_layout(w, c);
                    }
                }
            }
            return None;
        },
    };
    let n0 = k3 + 1;
    let k4 = match find_char(&v, n0, n, ')') {
        Some(k) => k,
        None => {
            proof {
                assert forall|w: SessionState| !#[trigger] w.carried_by(c) by {
                    if w.carried_by(c) {
                        lemma_layout(w, c);
                        assert(c[n0 + decimal(w.total as nat).len()] == ')');
                    }
                }
            }
            return None;
        },
    };
    proof {
        assert forall|w: SessionState| #[trigger] w.carried_by(c) implies k4 == n0 + decimal(w.total as nat).len() by {
            lemma_layout(w, c);
            assert(c[n0 + decimal(w.total as nat).len()] == ')');
        }
    }
    let total = match parse_decimal(&v, n0, k4) {
        Some(x) => x,
        None => {
            proof {
                assert forall|w: SessionState| !#[trigger] w.carried_by(c) by {
                    if w.carried_by(c) {
                        lemma_layout(w, c);
                    }
                }
            }
            return None;
        },
    };
    if k4 + 1 != n {
        proof {
            assert forall|w: SessionState| !#[trigger] w.carried_by(c) by {
                if w.carried_by(c) {
                    lemma_layout(w, c);
                }
            }
        }
        return None;
    }
    let article = string_of_range(&v, a0, k2);
    let host = match parse_url(article.as_str()) {
        Some(u) => u.host,
        None => None,
    };
    let s = SessionState {
        link: string_of_range(&v, 4, k1),
        article,
        host,
        token: string_of_range(&v, t0, t1),
        ordinal,
        total,
    };
    proof {
        assert(c.subrange(0, 4) =~= lit_iv());
        assert(c.subrange(k1 as int, a0 as int) =~= lit_article());
        assert(c.subrange(k2 as int, k2 + 8) =~= lit_token());
        assert(c.subrange(t1 as int, d0 as int) =~= lit_count());
        lemma_assemble(c, s.link@, s.article@, s.token@, ordinal as nat, total as nat);
        assert forall|i: int| 0 <= i < s.link@.len() implies s.link@[i] != '\n' by {
            assert(s.link@[i] == c[4 + i]);
        }
        assert forall|i: int| 0 <= i < s.article@.len() implies s.article@[i] != '\n' by {
            assert(s.article@[i] == c[a0 + i]);
        }
        assert(s.carried_by(c));
        assert forall|w: SessionState| #[trigger] w.carried_by(c) implies s.agrees(&w) by {
            lemma_layout_unique(s, w, c);
        }
    }
    Some(s)
}

/// Round trip: a well-formed state whose link is the reader-view link of its
/// article and token is the only state that its rendering carries, so a state
/// decoded from that rendering renders back to the very same text. Any article
/// link without a line break qualifies, and `render_browsing` states that its
/// link holds none when the token holds none.
pub proof fn lemma_round_trip(w: SessionState, decoded: SessionState)
    requires
        w.fields_ok(),
        w.link@ == reader_link(w.article@, w.token@),
        decoded.carried_by(
            rendered(reader_link(w.article@, w.token@), w.article@, w.token@, w.ordinal as nat, w.total as nat),
        ),
    ensures
        decoded.agrees(&w),
        rendered(
            reader_link(decoded.article@, decoded.token@),
            decoded.article@,
            decoded.token@,
            decoded.ordinal as nat,
            decoded.total as nat,
        ) == w.text(),
{
    lemma_layout_unique(decoded, w, w.text());
}

} // verus!

//! The two keyed stores of the resolver, as in-memory models: render tokens
//! per host, in order of discovery, and the pinned token per preference key.
use vstd::prelude::*;

verus! {

/// `l` with `t` at its end, unless `l` already holds `t`.
pub open spec fn with_token(l: Seq<Seq<char>>, t: Seq<char>) -> Seq<Seq<char>> {
    if l.contains(t) {
        l
    } else {
        l.push(t)
    }
}

/// The candidate list of `h`: empty for a host never seen.
pub open spec fn candidates_of(m: Map<Seq<char>, Seq<Seq<char>>>, h: Seq<char>) -> Seq<Seq<char>> {
    if m.contains_key(h) {
        m[h]
    } else {
        Seq::empty()
    }
}

/// The registry after `t` was appended, if absent, to the list of `h`.
pub open spec fn appended(m: Map<Seq<char>, Seq<Seq<char>>>, h: Seq<char>, t: Seq<char>) -> Map<
    Seq<char>,
    Seq<Seq<char>>,
> {
    m.insert(h, with_token(candidates_of(m, h), t))
}

/// Appends `token` to `list` unless the list holds it already; says whether it
/// did.
pub fn add_token(list: &mut Vec<String>, token: &String) -> (added: bool)
    ensures
        final(list).deep_view() == with_token(old(list).deep_view(), token@),
        added == !old(list).deep_view().contains(token@),
{
    let mut i: usize = 0;
    while i < list.len()
        invariant
            0 <= i <= list@.len(),
            list@ == old(list)@,
            forall|j: int| 0 <= j < i ==> list@[j]@ != token@,
        decreases list@.len() - i,
    {
        if list[i] == *token {
            assert(list.deep_view()[i as int] == token@);
            return false;
        }
        i = i + 1;
    }
    proof {
        assert forall|j: int| 0 <= j < list.deep_view().len() implies list.deep_view()[j] != token@ by {
            assert(list.deep_view()[j] == list@[j]@);
        }
    }
    list.push(token.clone());
    assert(list.deep_view() =~= old(list).deep_view().push(token@));
    true
}

/// A copy of a list of strings.
pub fn copy_list(l: &Vec<String>) -> (r: Vec<String>)
    ensures
        r.deep_view() == l.deep_view(),
{
    let mut r: Vec<String> = Vec::new();
    let mut i: usize = 0;
    while i < l.len()
        invariant
            0 <= i <= l@.len(),
            r@.len() == i,
            forall|j: int| 0 <= j < i ==> r@[j]@ == l@[j]@,
        decreases l@.len() - i,
    {
        let s = l[i].clone();
        r.push(s);
        i = i + 1;
    }
    assert(r.deep_view() =~= l.deep_view());
    r
}

/// Render tokens per host, each list free of repeats and in order of
/// discovery.
pub struct CandidateRegistry {
    hosts: Vec<String>,
    lists: Vec<Vec<String>>,
    model: Ghost<Map<Seq<char>, Seq<Seq<char>>>>,
}

impl View for CandidateRegistry {
    type V = Map<Seq<char>, Seq<Seq<char>>>;

    closed spec fn view(&self) -> Self::V {
        self.model@
    }
}

impl CandidateRegistry {
    /// The stored hosts are distinct, each holds the list that the model
    /// gives it, and the model knows no other host.
    pub closed spec fn wf(&self) -> bool {
        &&& self.hosts@.len() == self.lists@.len()
        &&& forall|i: int, j: int|
            0 <= i < j < self.hosts@.len() ==> self.hosts@[i]@ != self.hosts@[j]@
        &&& forall|i: int|
            0 <= i < self.hosts@.len() ==> self.model@.contains_key(#[trigger] self.hosts@[i]@)
                && self.model@[self.hosts@[i]@] == self.lists@[i].deep_view()
        &&& forall|h: Seq<char>|
            #[trigger] self.model@.contains_key(h) ==> exists|i: int|
                0 <= i < self.hosts@.len() && self.hosts@[i]@ == h
    }

    /// An empty registry.
    pub fn new() -> (r: CandidateRegistry)
        ensures
            r.wf(),
            r@ == Map::<Seq<char>, Seq<Seq<char>>>::empty(),
    {
        CandidateRegistry { hosts: Vec::new(), lists: Vec::new(), model: Ghost(Map::empty()) }
    }

    fn find_host(&self, host: &String) -> (r: Option<usize>)
        requires
            self.wf(),
        ensures
            match r {
                Some(i) => i < self.hosts@.len() && self.hosts@[i as int]@ == host@,
                None => !self@.contains_key(host@),
            },
    {
        let mut i: usize = 0;
        while i < self.hosts.len()
            invariant
                0 <= i <= self.hosts@.len(),
                forall|j: int| 0 <= j < i ==> self.hosts@[j]@ != host@,
            decreases self.hosts@.len() - i,
        {
            if self.hosts[i] == *host {
                return Some(i);
            }
            i = i + 1;
        }
        None
    }

    /// The candidate list of `host`, empty for a host never seen.
    pub fn list(&self, host: &String) -> (r: Vec<String>)
        requires
            self.wf(),
        ensures
            r.deep_view() == candidates_of(self@, host@),
    {
        match self.find_host(host) {
            Some(i) => copy_list(&self.lists[i]),
            None => {
                let r: Vec<String> = Vec::new();
                assert(r.deep_view() =~= Seq::<Seq<char>>::empty());
                r
            },
        }
    }

    /// Appends `token` to the list of `host` unless it holds it already.
    pub fn append_if_absent(&mut self, host: &String, token: &String)
        requires
            old(self).wf(),
        ensures
            final(self).wf(),
            final(self)@ == appended(old(self)@, host@, token@),
    {
        let ghost m = self.model@;
        match self.find_host(host) {
            Some(i) => {
                add_token(&mut self.lists[i], token);
                self.model = Ghost(appended(m, host@, token@));
                assert forall|j: int| 0 <= j < self.hosts@.len() implies self.model@.contains_key(
                    #[trigger] self.hosts@[j]@,
                ) && self.model@[self.hosts@[j]@] == self.lists@[j].deep_view() by {
                    if j != i {
                        assert(self.hosts@[j]@ != self.hosts@[i as int]@);
                    }
                }
                assert forall|h: Seq<char>| #[trigger] self.model@.contains_key(h) implies exists|k: int|
                    0 <= k < self.hosts@.len() && self.hosts@[k]@ == h by {
                    if h == host@ {
                        assert(self.hosts@[i as int]@ == h);
                    } else {
                        assert(m.contains_key(h));
                    }
                }
            },
            None => {
                let mut l: Vec<String> = Vec::new();
                add_token(&mut l, token);
                assert(Seq::<Seq<char>>::empty() =~= candidates_of(m, host@));
                self.hosts.push(host.clone());
                self.lists.push(l);
                self.model = Ghost(appended(m, host@, token@));
                let ghost n = self.hosts@.len() - 1;
                assert forall|j: int| 0 <= j < self.hosts@.len() implies self.model@.contains_key(
                    #[trigger] self.hosts@[j]@,
                ) && self.model@[self.hosts@[j]@] == self.lists@[j].deep_view() by {
                    if j < n {
                        assert(m.contains_key(self.hosts@[j]@));
                    }
                }
                assert forall|h: Seq<char>| #[trigger] self.model@.contains_key(h) implies exists|k: int|
                    0 <= k < self.hosts@.len() && self.hosts@[k]@ == h by {
                    if h == host@ {
                        assert(self.hosts@[n]@ == h);
                    } else {
                        assert(m.contains_key(h));
                        let k = choose|k: int| 0 <= k < old(self).hosts@.len() && old(self).hosts@[k]@ == h;
                        assert(self.hosts@[k]@ == h);
                    }
                }
            },
        }
    }

    /// Appends each (host, token) pair of `ops`, in order, if absent.
    pub fn append_all(&mut self, ops: &Vec<(String, String)>)
        requires
            old(self).wf(),
        ensures
            final(self).wf(),
            final(self)@ == apply_appends(old(self)@, pairs_view(ops@)),
    {
        let ghost all = pairs_view(ops@);
        let mut i: usize = 0;
        assert(all.subrange(0, 0) =~= Seq::<(Seq<char>, Seq<char>)>::empty());
        while i < ops.len()
            invariant
                self.wf(),
                0 <= i <= ops@.len(),
                all == pairs_view(ops@),
                self@ == apply_appends(old(self)@, all.subrange(0, i as int)),
            decreases ops@.len() - i,
        {
            let (h, t) = &ops[i];
            self.append_if_absent(h, t);
            assert(all.subrange(0, i + 1).drop_last() =~= all.subrange(0, i as int));
            assert(all.subrange(0, i + 1).last() == (h@, t@));
            i = i + 1;
        }
        assert(all.subrange(0, i as int) =~= all);
    }

    /// Every host with its candidate list, for saving to a durable store.
    pub fn entries(&self) -> (r: Vec<(String, Vec<String>)>)
        requires
            self.wf(),
        ensures
            forall|i: int| 0 <= i < r@.len() ==> self@.contains_key(#[trigger] r@[i].0@)
                && self@[r@[i].0@] == r@[i].1.deep_view(),
            forall|h: Seq<char>| #[trigger] self@.contains_key(h) ==> exists|i: int|
                0 <= i < r@.len() && r@[i].0@ == h,
    {
        let mut r: Vec<(String, Vec<String>)> = Vec::new();
        let mut i: usize = 0;
        while i < self.hosts.len()
            invariant
                self.wf(),
                0 <= i <= self.hosts@.len(),
                r@.len() == i,
                forall|j: int| 0 <= j < i ==> (#[trigger] r@[j]).0@ == self.hosts@[j]@
                    && r@[j].1.deep_view() == self.lists@[j].deep_view(),
            decreases self.hosts@.len() - i,
        {
            let h = self.hosts[i].clone();
            let l = copy_list(&self.lists[i]);
            r.push((h, l));
            i = i + 1;
        }
        proof {
            assert forall|h: Seq<char>| #[trigger] self@.contains_key(h) implies exists|k: int|
                0 <= k < r@.len() && r@[k].0@ == h by {
                let k = choose|k: int| 0 <= k < self.hosts@.len() && self.hosts@[k]@ == h;
                assert(r@[k].0@ == h);
            }
        }
        r
    }
}

/// Pinned render tokens, one per preference key.
pub struct PreferenceRegistry {
    keys: Vec<String>,
    tokens: Vec<String>,
    model: Ghost<Map<Seq<char>, Seq<char>>>,
}

impl View for PreferenceRegistry {
    type V = Map<Seq<char>, Seq<char>>;

    closed spec fn view(&self) -> Self::V {
        self.model@
    }
}

impl PreferenceRegistry {
    /// The stored keys are distinct, each holds the token that the model gives
    /// it, and the model knows no other key.
    pub closed spec fn wf(&self) -> bool {
        &&& self.keys@.len() == self.tokens@.len()
        &&& forall|i: int, j: int|
            0 <= i < j < self.keys@.len() ==> self.keys@[i]@ != self.keys@[j]@
        &&& forall|i: int|
            0 <= i < self.keys@.len() ==> self.model@.contains_key(#[trigger] self.keys@[i]@)
                && self.model@[self.keys@[i]@] == self.tokens@[i]@
        &&& forall|h: Seq<char>|
            #[trigger] self.model@.contains_key(h) ==> exists|i: int|
                0 <= i < self.keys@.len() && self.keys@[i]@ == h
    }

    /// An empty registry.
    pub fn new() -> (r: PreferenceRegistry)
        ensures
            r.wf(),
            r@ == Map::<Seq<char>, Seq<char>>::empty(),
    {
        PreferenceRegistry { keys: Vec::new(), tokens: Vec::new(), model: Ghost(Map::empty()) }
    }

    fn find_key(&self, key: &String) -> (r: Option<usize>)
        requires
            self.wf(),
        ensures
            match r {
                Some(i) => i < self.keys@.len() && self.keys@[i as int]@ == key@,
                None => !self@.contains_key(key@),
            },
    {
        let mut i: usize = 0;
        while i < self.keys.len()
            invariant
                0 <= i <= self.keys@.len(),
                forall|j: int| 0 <= j < i ==> self.keys@[j]@ != key@,
            decreases self.keys@.len() - i,
        {
            if self.keys[i] == *key {
                return Some(i);
            }
            i = i + 1;
        }
        None
    }

    /// The token pinned under `key`, if any.
    pub fn get(&self, key: &String) -> (r: Option<String>)
        requires
            self.wf(),
        ensures
            match r {
                Some(t) => self@.contains_key(key@) && t@ == self@[key@],
                None => !self@.contains_key(key@),
            },
    {
        match self.find_key(key) {
            Some(i) => Some(self.tokens[i].clone()),
            None => None,
        }
    }

    /// Pins `token` under `key`, replacing what was pinned there.
    pub fn set(&mut self, key: &String, token: &String)
        requires
            old(self).wf(),
        ensures
            final(self).wf(),
            final(self)@ == old(self)@.insert(key@, token@),
    {
        let ghost m = self.model@;
        match self.find_key(key) {
            Some(i) => {
                self.tokens.set(i, token.clone());
                self.model = Ghost(m.insert(key@, token@));
                assert forall|j: int| 0 <= j < self.keys@.len() implies self.model@.contains_key(
                    #[trigger] self.keys@[j]@,
                ) && self.model@[self.keys@[j]@] == self.tokens@[j]@ by {
                    if j != i {
                        assert(self.keys@[j]@ != self.keys@[i as int]@);
                    }
                }
                assert forall|h: Seq<char>| #[trigger] self.model@.contains_key(h) implies exists|k: int|
                    0 <= k < self.keys@.len() && self.keys@[k]@ == h by {
                    if h == key@ {
                        assert(self.keys@[i as int]@ == h);
                    } else {
                        assert(m.contains_key(h));
                    }
                }
            },
            None => {
                self.keys.push(key.clone());
                self.tokens.push(token.clone());
                self.model = Ghost(m.insert(key@, token@));
                let ghost n = self.keys@.len() - 1;
                assert forall|j: int| 0 <= j < self.keys@.len() implies self.model@.contains_key(
                    #[trigger] self.keys@[j]@,
                ) && self.model@[self.keys@[j]@] == self.tokens@[j]@ by {
                    if j < n {
                        assert(m.contains_key(self.keys@[j]@));
                    }
                }
                assert forall|h: Seq<char>| #[trigger] self.model@.contains_key(h) implies exists|k: int|
                    0 <= k < self.keys@.len() && self.keys@[k]@ == h by {
                    if h == key@ {
                        assert(self.keys@[n]@ == h);
                    } else {
                        assert(m.contains_key(h));
                        let k = choose|k: int| 0 <= k < old(self).keys@.len() && old(self).keys@[k]@ == h;
                        assert(self.keys@[k]@ == h);
                    }
                }
            },
        }
    }

    /// Removes what is pinned under `key`, and returns it.
    pub fn delete(&mut self, key: &String) -> (r: Option<String>)
        requires
            old(self).wf(),
        ensures
            final(self).wf(),
            final(self)@ == old(self)@.remove(key@),
            match r {
                Some(t) => old(self)@.contains_key(key@) && t@ == old(self)@[key@],
                None => !old(self)@.contains_key(key@),
            },
    {
        let ghost m = self.model@;
        match self.find_key(key) {
            None => {
                assert(m.remove(key@) =~= m);
                None
            },
            Some(i) => {
                let ghost ok = self.keys@;
                let _k = self.keys.remove(i);
                let t = self.tokens.remove(i);
                self.model = Ghost(m.remove(key@));
                assert forall|j: int| 0 <= j < self.keys@.len() implies self.model@.contains_key(
                    #[trigger] self.keys@[j]@,
                ) && self.model@[self.keys@[j]@] == self.tokens@[j]@ by {
                    if j < i {
                        assert(ok[j]@ != ok[i as int]@);
                    } else {
                        assert(self.keys@[j] == ok[j + 1]);
                        assert(ok[j + 1]@ != ok[i as int]@);
                    }
                }
                assert forall|a: int, b: int| 0 <= a < b < self.keys@.len() implies self.keys@[a]@
                    != self.keys@[b]@ by {
                    let a1 = if a < i { a } else { a + 1 };
                    let b1 = if b < i { b } else { b + 1 };
                    assert(self.keys@[a] == ok[a1]);
                    assert(self.keys@[b] == ok[b1]);
                }
                assert forall|h: Seq<char>| #[trigger] self.model@.contains_key(h) implies exists|k: int|
                    0 <= k < self.keys@.len() && self.keys@[k]@ == h by {
                    assert(m.contains_key(h));
                    let k = choose|k: int| 0 <= k < ok.len() && ok[k]@ == h;
                    assert(k != i);
                    if k < i {
                        assert(self.keys@[k]@ == h);
                    } else {
                        assert(self.keys@[k - 1]@ == h);
                    }
                }
                Some(t)
            },
        }
    }

    /// Every key with its pinned token, for saving to a durable store.
    pub fn entries(&self) -> (r: Vec<(String, String)>)
        requires
            self.wf(),
        ensures
            forall|i: int| 0 <= i < r@.len() ==> self@.contains_key(#[trigger] r@[i].0@)
                && self@[r@[i].0@] == r@[i].1@,
            forall|h: Seq<char>| #[trigger] self@.contains_key(h) ==> exists|i: int|
                0 <= i < r@.len() && r@[i].0@ == h,
    {
        let mut r: Vec<(String, String)> = Vec::new();
        let mut i: usize = 0;
        while i < self.keys.len()
            invariant
                self.wf(),
                0 <= i <= self.keys@.len(),
                r@.len() == i,
                forall|j: int| 0 <= j < i ==> (#[trigger] r@[j]).0@ == self.keys@[j]@
                    && r@[j].1@ == self.tokens@[j]@,
            decreases self.keys@.len() - i,
        {
            let k = self.keys[i].clone();
            let t = self.tokens[i].clone();
            r.push((k, t));
            i = i + 1;
        }
        proof {
            assert forall|h: Seq<char>| #[trigger] self@.contains_key(h) implies exists|k: int|
                0 <= k < r@.len() && r@[k].0@ == h by {
                let k = choose|k: int| 0 <= k < self.keys@.len() && self.keys@[k]@ == h;
                assert(r@[k].0@ == h);
            }
        }
        r
    }
}

/// The registry after each (host, token) pair of `ops`, in order, was
/// appended if absent.
pub open spec fn apply_appends(m: Map<Seq<char>, Seq<Seq<char>>>, ops: Seq<(Seq<char>, Seq<char>)>) -> Map<
    Seq<char>,
    Seq<Seq<char>>,
>
    decreases ops.len(),
{
    if ops.len() == 0 {
        m
    } else {
        appended(apply_appends(m, ops.drop_last()), ops.last().0, ops.last().1)
    }
}

/// The (host, token) pairs of `ops` as values.
pub open spec fn pairs_view(ops: Seq<(String, String)>) -> Seq<(Seq<char>, Seq<char>)> {
    ops.map_values(|p: (String, String)| (p.0@, p.1@))
}

/// The tokens of `ops` appended to host `h`, in order.
pub open spec fn tokens_for(ops: Seq<(Seq<char>, Seq<char>)>, h: Seq<char>) -> Seq<Seq<char>>
    decreases ops.len(),
{
    if ops.len() == 0 {
        Seq::empty()
    } else if ops.last().0 == h {
        tokens_for(ops.drop_last(), h).push(ops.last().1)
    } else {
        tokens_for(ops.drop_last(), h)
    }
}

/// Appending a token twice to a host leaves the registry exactly as appending
/// it once: one entry for it, at the same position.
pub proof fn lemma_append_idempotent(m: Map<Seq<char>, Seq<Seq<char>>>, h: Seq<char>, t: Seq<char>)
    ensures
        appended(appended(m, h, t), h, t) == appended(m, h, t),
{
    let l = with_token(candidates_of(m, h), t);
    assert(l.contains(t)) by {
        if !candidates_of(m, h).contains(t) {
            assert(l[l.len() - 1] == t);
        }
    }
    assert(candidates_of(appended(m, h, t), h) == l);
    assert(appended(appended(m, h, t), h, t) =~= appended(m, h, t));
}

/// Order stability: distinct tokens appended to a host (as `append_all` does
/// for a sequence of pairs), interleaved with any appends to other hosts,
/// follow its earlier candidates in the order in which they were appended.
pub proof fn lemma_order_stable(m: Map<Seq<char>, Seq<Seq<char>>>, ops: Seq<(Seq<char>, Seq<char>)>, h: Seq<char>)
    requires
        (candidates_of(m, h) + tokens_for(ops, h)).no_duplicates(),
    ensures
        candidates_of(apply_appends(m, ops), h) == candidates_of(m, h) + tokens_for(ops, h),
    decreases ops.len(),
{
    if ops.len() > 0 {
        let prev = ops.drop_last();
        let base = candidates_of(m, h);
        let (oh, ot) = ops.last();
        if oh == h {
            let full = base + tokens_for(ops, h);
            let part = base + tokens_for(prev, h);
            assert(full =~= part.push(ot));
            assert(part.no_duplicates()) by {
                assert forall|a: int, b: int| 0 <= a < part.len() && 0 <= b < part.len() && a != b implies part[a]
                    != part[b] by {
                    assert(part[a] == full[a]);
                    assert(part[b] == full[b]);
                }
            }
            lemma_order_stable(m, prev, h);
            assert(!part.contains(ot)) by {
                if part.contains(ot) {
                    let a = choose|a: int| 0 <= a < part.len() && part[a] == ot;
                    assert(full[a] == full[full.len() - 1]);
                }
            }
        } else {
            lemma_order_stable(m, prev, h);
        }
    }
}

} // verus!

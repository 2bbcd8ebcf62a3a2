use vstd::prelude::*;
use vstd::string::StrSliceExecFns;

verus! {

/// The map that a sequence of `(key, value)` pairs denotes: later pairs
/// override earlier ones with the same key.
pub open spec fn pairs_map(s: Seq<(String, String)>) -> Map<Seq<char>, Seq<char>>
    decreases s.len(),
{
    if s.len() == 0 {
        Map::empty()
    } else {
        pairs_map(s.drop_last()).insert(s.last().0@, s.last().1@)
    }
}

/// No two pairs share a key.
pub open spec fn distinct_keys(s: Seq<(String, String)>) -> bool {
    forall|i: int, j: int| 0 <= i < j < s.len() ==> #[trigger] s[i].0@ != #[trigger] s[j].0@
}

/// Each pair of a sequence with distinct keys is found in its map, and the
/// map holds no other key.
pub proof fn lemma_pairs_map_lookup(s: Seq<(String, String)>)
    requires
        distinct_keys(s),
    ensures
        forall|j: int|
            0 <= j < s.len() ==> #[trigger] pairs_map(s).contains_key(s[j].0@) && pairs_map(s)[s[j].0@]
                == s[j].1@,
        forall|k: Seq<char>|
            #[trigger] pairs_map(s).contains_key(k) ==> exists|j: int| 0 <= j < s.len() && s[j].0@ == k,
        pairs_map(s).dom().finite(),
        pairs_map(s).len() == s.len(),
    decreases s.len(),
{
    if s.len() > 0 {
        let p = s.drop_last();
        assert(distinct_keys(p));
        lemma_pairs_map_lookup(p);
        assert forall|j: int| 0 <= j < s.len() implies #[trigger] pairs_map(s).contains_key(s[j].0@)
            && pairs_map(s)[s[j].0@] == s[j].1@ by {
            if j < s.len() - 1 {
                assert(s[j] == p[j]);
                assert(s[j].0@ != s[s.len() - 1].0@);
            }
        }
        assert forall|k: Seq<char>| #[trigger] pairs_map(s).contains_key(k) implies exists|j: int|
            0 <= j < s.len() && s[j].0@ == k by {
            if k != s.last().0@ {
                assert(pairs_map(p).contains_key(k));
                let j = choose|j: int| 0 <= j < p.len() && p[j].0@ == k;
                assert(s[j] == p[j]);
            } else {
                assert(s[s.len() - 1].0@ == k);
            }
        }
        assert(!pairs_map(p).contains_key(s.last().0@)) by {
            if pairs_map(p).contains_key(s.last().0@) {
                let j = choose|j: int| 0 <= j < p.len() && p[j].0@ == s.last().0@;
                assert(s[j] == p[j]);
                assert(s[j].0@ != s[s.len() - 1].0@);
            }
        }
    }
}

/// Replacing the pair that holds a key sets that key in the map.
pub proof fn lemma_pairs_map_update(s: Seq<(String, String)>, j: int, p: (String, String))
    requires
        distinct_keys(s),
        0 <= j < s.len(),
        s[j].0@ == p.0@,
    ensures
        pairs_map(s.update(j, p)) == pairs_map(s).insert(p.0@, p.1@),
        distinct_keys(s.update(j, p)),
    decreases s.len(),
{
    let u = s.update(j, p);
    assert(distinct_keys(u)) by {
        assert forall|a: int, b: int| 0 <= a < b < u.len() implies #[trigger] u[a].0@ != #[trigger] u[b].0@ by {
            assert(s[a].0@ != s[b].0@);
        }
    }
    if j == s.len() - 1 {
        assert(u.drop_last() =~= s.drop_last());
    } else {
        let d = s.drop_last();
        assert(distinct_keys(d));
        lemma_pairs_map_update(d, j, p);
        assert(u.drop_last() =~= d.update(j, p));
        assert(s[j].0@ != s[s.len() - 1].0@);
        assert(u.last() == s.last());
        assert(pairs_map(u) =~= pairs_map(s).insert(p.0@, p.1@));
    }
}

/// Lexicographic order of character strings by code point (the order in
/// which `BTreeMap<String, _>` keeps its keys): `a` comes strictly before `b`.
pub open spec fn key_lt(a: Seq<char>, b: Seq<char>) -> bool
    decreases a.len(),
{
    if a.len() == 0 {
        b.len() > 0
    } else if b.len() == 0 {
        false
    } else if a[0] == b[0] {
        key_lt(a.drop_first(), b.drop_first())
    } else {
        (a[0] as int) < (b[0] as int)
    }
}

/// `key_lt` is a strict total order.
pub proof fn lemma_key_lt_order(a: Seq<char>, b: Seq<char>)
    ensures
        !key_lt(a, a),
        key_lt(a, b) ==> !key_lt(b, a),
        a != b ==> key_lt(a, b) || key_lt(b, a),
    decreases a.len(),
{
    if a.len() > 0 && b.len() > 0 {
        lemma_key_lt_order(a.drop_first(), b.drop_first());
        lemma_key_lt_order(a.drop_first(), a.drop_first());
        if a[0] == b[0] && a != b {
            assert(a =~= seq![a[0]] + a.drop_first());
            assert(b =~= seq![b[0]] + b.drop_first());
        }
    } else if a.len() > 0 {
        lemma_key_lt_order(a.drop_first(), a.drop_first());
    } else if b.len() == 0 {
        assert(a =~= b);
    }
}

/// `key_lt` is transitive.
pub proof fn lemma_key_lt_transitive(a: Seq<char>, b: Seq<char>, c: Seq<char>)
    requires
        key_lt(a, b),
        key_lt(b, c),
    ensures
        key_lt(a, c),
    decreases a.len(),
{
    if a.len() > 0 && b.len() > 0 && c.len() > 0 && a[0] == b[0] && b[0] == c[0] {
        lemma_key_lt_transitive(a.drop_first(), b.drop_first(), c.drop_first());
    }
}

/// The pairs come in strictly increasing key order.
pub open spec fn sorted_keys(s: Seq<(String, String)>) -> bool {
    forall|i: int, j: int| 0 <= i < j < s.len() ==> key_lt(#[trigger] s[i].0@, #[trigger] s[j].0@)
}

/// Strictly increasing keys are distinct.
pub proof fn lemma_sorted_distinct(s: Seq<(String, String)>)
    requires
        sorted_keys(s),
    ensures
        distinct_keys(s),
{
    assert forall|i: int, j: int| 0 <= i < j < s.len() implies #[trigger] s[i].0@ != #[trigger] s[j].0@ by {
        lemma_key_lt_order(s[i].0@, s[i].0@);
    }
}

/// Whether `a` comes strictly before `b` in `key_lt` order.
pub fn key_less(a: &String, b: &String) -> (res: bool)
    ensures
        res == key_lt(a@, b@),
{
    let sa = a.as_str();
    let sb = b.as_str();
    let la = sa.unicode_len();
    let lb = sb.unicode_len();
    let mut i: usize = 0;
    assert(a@.skip(0) =~= a@);
    assert(b@.skip(0) =~= b@);
    while i < la && i < lb
        invariant
            la == a@.len(),
            lb == b@.len(),
            sa@ == a@,
            sb@ == b@,
            i <= la,
            i <= lb,
            key_lt(a@, b@) == key_lt(a@.skip(i as int), b@.skip(i as int)),
        decreases la - i,
    {
        let ca = sa.get_char(i);
        let cb = sb.get_char(i);
        proof {
            assert(a@.skip(i as int)[0] == ca);
            assert(b@.skip(i as int)[0] == cb);
            assert(a@.skip(i as int).drop_first() =~= a@.skip(i + 1));
            assert(b@.skip(i as int).drop_first() =~= b@.skip(i + 1));
        }
        if ca != cb {
            return (ca as u32) < (cb as u32);
        }
        i = i + 1;
    }
    proof {
        assert(a@.skip(i as int).len() == la - i);
        assert(b@.skip(i as int).len() == lb - i);
    }
    i == la && i < lb
}

/// Inserting a pair with a new key anywhere adds that key to the map.
pub proof fn lemma_pairs_map_insert_new(s: Seq<(String, String)>, i: int, p: (String, String))
    requires
        distinct_keys(s),
        0 <= i <= s.len(),
        forall|j: int| 0 <= j < s.len() ==> #[trigger] s[j].0@ != p.0@,
    ensures
        distinct_keys(s.insert(i, p)),
        pairs_map(s.insert(i, p)) == pairs_map(s).insert(p.0@, p.1@),
{
    let t = s.insert(i, p);
    assert(distinct_keys(t)) by {
        assert forall|a: int, b: int| 0 <= a < b < t.len() implies #[trigger] t[a].0@ != #[trigger] t[b].0@ by {
            if b < i {
                assert(t[a] == s[a] && t[b] == s[b]);
            } else if b == i {
                assert(t[a] == s[a]);
            } else if a < i {
                assert(t[a] == s[a] && t[b] == s[b - 1]);
            } else if a == i {
                assert(t[b] == s[b - 1]);
            } else {
                assert(t[a] == s[a - 1] && t[b] == s[b - 1]);
            }
        }
    }
    lemma_pairs_map_lookup(s);
    lemma_pairs_map_lookup(t);
    let m = pairs_map(s).insert(p.0@, p.1@);
    assert forall|k: Seq<char>| #[trigger] pairs_map(t).contains_key(k) <==> m.contains_key(k) by {
        if pairs_map(t).contains_key(k) && k != p.0@ {
            let j = choose|j: int| 0 <= j < t.len() && t[j].0@ == k;
            let jj = if j < i { j } else { j - 1 };
            assert(j != i);
            assert(t[j] == s[jj]);
            assert(pairs_map(s).contains_key(s[jj].0@));
        }
        if m.contains_key(k) {
            if k == p.0@ {
                assert(t[i] == p);
                assert(pairs_map(t).contains_key(t[i].0@));
            } else {
                let j = choose|j: int| 0 <= j < s.len() && s[j].0@ == k;
                let jj = if j < i { j } else { j + 1 };
                assert(t[jj] == s[j]);
                assert(pairs_map(t).contains_key(t[jj].0@));
            }
        }
    }
    assert forall|k: Seq<char>| #[trigger] pairs_map(t).contains_key(k) implies pairs_map(t)[k] == m[k] by {
        let j = choose|j: int| 0 <= j < t.len() && t[j].0@ == k;
        assert(pairs_map(t).contains_key(t[j].0@));
        if j == i {
            assert(t[i] == p);
        } else {
            let jj = if j < i { j } else { j - 1 };
            assert(t[j] == s[jj]);
            assert(pairs_map(s).contains_key(s[jj].0@));
        }
    }
    assert(pairs_map(t) =~= m);
}

/// A string-to-string map (labels of a metric). Keys are unique and kept in
/// increasing `key_lt` order, as in a `BTreeMap`.
pub struct Labels {
    entries: Vec<(String, String)>,
}

impl Labels {
    #[verifier::type_invariant]
    spec fn inv(self) -> bool {
        &&& sorted_keys(self.entries@)
        &&& distinct_keys(self.entries@)
    }

    /// The label map.
    pub closed spec fn view(&self) -> Map<Seq<char>, Seq<char>> {
        pairs_map(self.entries@)
    }

    /// An empty label set.
    pub fn new() -> (res: Labels)
        ensures
            res.view() == Map::<Seq<char>, Seq<char>>::empty(),
    {
        Labels { entries: Vec::new() }
    }

    /// Position of `key` among the entries.
    fn find(&self, key: &String) -> (res: Option<usize>)
        ensures
            match res {
                Some(j) => j < self.entries.len() && self.entries@[j as int].0@ == key@,
                None => forall|j: int| 0 <= j < self.entries.len() ==> #[trigger] self.entries@[j].0@ != key@,
            },
    {
        let mut i: usize = 0;
        while i < self.entries.len()
            invariant
                i <= self.entries.len(),
                forall|j: int| 0 <= j < i ==> #[trigger] self.entries@[j].0@ != key@,
            decreases self.entries.len() - i,
        {
            if self.entries[i].0 == *key {
                return Some(i);
            }
            i = i + 1;
        }
        None
    }

    /// Sets `key` to `value`, replacing an earlier value of that key; the
    /// entries stay in increasing key order.
    pub fn insert(&mut self, key: String, value: String)
        ensures
            final(self).view() == old(self).view().insert(key@, value@),
    {
        proof {
            use_type_invariant(&*self);
        }
        let n = self.entries.len();
        let mut i: usize = 0;
        let mut stop = false;
        while i < n && !stop
            invariant
                n == self.entries.len(),
                i <= n,
                forall|j: int| 0 <= j < i ==> key_lt(#[trigger] self.entries@[j].0@, key@),
                stop ==> i < n && !key_lt(self.entries@[i as int].0@, key@),
            decreases n - i + (if stop { 0int } else { 1int }),
        {
            if key_less(&self.entries[i].0, &key) {
                i = i + 1;
            } else {
                stop = true;
            }
        }
        let found = i < n && self.entries[i].0 == key;
        let mut entries: Vec<(String, String)> = Vec::new();
        std::mem::swap(&mut entries, &mut self.entries);
        let ghost s = entries@;
        if found {
            proof {
                lemma_pairs_map_update(s, i as int, (key, value));
                let u = s.update(i as int, (key, value));
                assert(sorted_keys(u)) by {
                    assert forall|a: int, b: int| 0 <= a < b < u.len() implies key_lt(#[trigger] u[a].0@, #[trigger] u[b].0@) by {
                        assert(u[a].0@ == s[a].0@);
                        assert(u[b].0@ == s[b].0@);
                    }
                }
            }
            entries.set(i, (key, value));
        } else {
            proof {
                assert forall|j: int| 0 <= j < s.len() implies #[trigger] s[j].0@ != key@ by {
                    if j < i {
                        lemma_key_lt_order(key@, key@);
                    } else {
                        lemma_key_lt_order(s[i as int].0@, key@);
                        if j > i {
                            lemma_key_lt_transitive(key@, s[i as int].0@, s[j].0@);
                            lemma_key_lt_order(key@, key@);
                        }
                    }
                }
                lemma_pairs_map_insert_new(s, i as int, (key, value));
                let t = s.insert(i as int, (key, value));
                assert(sorted_keys(t)) by {
                    assert forall|a: int, b: int| 0 <= a < b < t.len() implies key_lt(#[trigger] t[a].0@, #[trigger] t[b].0@) by {
                        if i < s.len() {
                            lemma_key_lt_order(s[i as int].0@, key@);
                        }
                        if b < i {
                            assert(t[a] == s[a] && t[b] == s[b]);
                        } else if b == i {
                            assert(t[a] == s[a]);
                        } else if a < i {
                            assert(t[a] == s[a] && t[b] == s[b - 1]);
                            if b - 1 > i {
                                lemma_key_lt_transitive(s[a].0@, key@, s[i as int].0@);
                                lemma_key_lt_transitive(s[a].0@, s[i as int].0@, s[b - 1].0@);
                            } else {
                                lemma_key_lt_transitive(s[a].0@, key@, s[b - 1].0@);
                            }
                        } else if a == i {
                            assert(t[b] == s[b - 1]);
                            if b - 1 > i {
                                lemma_key_lt_transitive(key@, s[i as int].0@, s[b - 1].0@);
                            }
                        } else {
                            assert(t[a] == s[a - 1] && t[b] == s[b - 1]);
                        }
                    }
                }
            }
            entries.insert(i, (key, value));
        }
        self.entries = entries;
    }

    /// The value of `key`, if it is present.
    pub fn get(&self, key: &str) -> (res: Option<&String>)
        ensures
            match res {
                Some(v) => self.view().contains_key(key@) && self.view()[key@] == v@,
                None => !self.view().contains_key(key@),
            },
    {
        proof {
            use_type_invariant(self);
            lemma_pairs_map_lookup(self.entries@);
        }
        let k = key.to_string();
        assert(k@ == key@);
        match self.find(&k) {
            Some(j) => {
                assert(self.entries@[j as int].0@ == key@);
                assert(pairs_map(self.entries@).contains_key(self.entries@[j as int].0@));
                Some(&self.entries[j].1)
            },
            None => None,
        }
    }

    /// Whether `key` is present.
    pub fn contains_key(&self, key: &str) -> (res: bool)
        ensures
            res == self.view().contains_key(key@),
    {
        self.get(key).is_some()
    }

    /// Number of labels.
    pub fn len(&self) -> (res: usize)
        ensures
            res == self.view().len(),
            self.view().dom().finite(),
    {
        proof {
            use_type_invariant(self);
            lemma_pairs_map_lookup(self.entries@);
        }
        self.entries.len()
    }

    /// Whether there are no labels.
    pub fn is_empty(&self) -> (res: bool)
        ensures
            res == (self.view().len() == 0),
    {
        self.len() == 0
    }

    /// The labels as `(key, value)` pairs, each key once, in increasing key order.
    pub fn pairs(&self) -> (res: &[(String, String)])
        ensures
            pairs_map(res@) == self.view(),
            distinct_keys(res@),
            sorted_keys(res@),
    {
        proof {
            use_type_invariant(self);
        }
        self.entries.as_slice()
    }

    /// Sets every label of `other` in `self`; `other` wins where both have a key.
    pub fn extend_from(&mut self, other: &Labels)
        ensures
            final(self).view() == old(self).view().union_prefer_right(other.view()),
    {
        proof {
            use_type_invariant(other);
        }
        let n = other.entries.len();
        let mut i: usize = 0;
        while i < n
            invariant
                n == other.entries.len(),
                i <= n,
                self.view() == old(self).view().union_prefer_right(pairs_map(other.entries@.take(i as int))),
            decreases n - i,
        {
            let k = other.entries[i].0.clone();
            let v = other.entries[i].1.clone();
            self.insert(k, v);
            proof {
                let t = other.entries@.take(i + 1);
                assert(t.drop_last() =~= other.entries@.take(i as int));
                assert(self.view() =~= old(self).view().union_prefer_right(pairs_map(t)));
            }
            i = i + 1;
        }
        assert(other.entries@.take(n as int) =~= other.entries@);
    }
}

impl Clone for Labels {
    fn clone(&self) -> (res: Labels)
        ensures
            res.view() == self.view(),
    {
        proof {
            use_type_invariant(self);
        }
        let mut entries: Vec<(String, String)> = Vec::new();
        let n = self.entries.len();
        let mut i: usize = 0;
        while i < n
            invariant
                n == self.entries.len(),
                i <= n,
                entries@ == self.entries@.take(i as int),
            decreases n - i,
        {
            let k = self.entries[i].0.clone();
            let v = self.entries[i].1.clone();
            entries.push((k, v));
            assert(entries@ =~= self.entries@.take(i + 1));
            i = i + 1;
        }
        assert(self.entries@.take(n as int) =~= self.entries@);
        Labels { entries }
    }
}

} // verus!

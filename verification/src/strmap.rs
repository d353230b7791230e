//! Maps keyed by strings, kept in key order.
//!
//! Keys are ordered the way `String` orders them: by the sequence of their characters, character
//! by character (which is also the order of their UTF-8 bytes). Iterating the entries of a
//! [`StrMap`] gives them in that order, as for an ordered tree map.

use vstd::prelude::*;

verus! {

/// Whether `a` comes before `b` in the order of strings.
pub open spec fn key_less(a: Seq<char>, b: Seq<char>) -> bool
    decreases a.len(),
{
    if a.len() == 0 {
        b.len() > 0
    } else if b.len() == 0 {
        false
    } else if a[0] != b[0] {
        a[0] < b[0]
    } else {
        key_less(a.drop_first(), b.drop_first())
    }
}

/// No string comes before itself.
pub proof fn lemma_key_less_irreflexive(a: Seq<char>)
    ensures
        !key_less(a, a),
    decreases a.len(),
{
    if a.len() > 0 {
        lemma_key_less_irreflexive(a.drop_first());
    }
}

/// The order of strings is transitive.
pub proof fn lemma_key_less_transitive(a: Seq<char>, b: Seq<char>, c: Seq<char>)
    requires
        key_less(a, b),
        key_less(b, c),
    ensures
        key_less(a, c),
    decreases a.len(),
{
    if a.len() > 0 && b.len() > 0 && c.len() > 0 && a[0] == b[0] && b[0] == c[0] {
        lemma_key_less_transitive(a.drop_first(), b.drop_first(), c.drop_first());
    }
}

/// Of two different strings, one comes before the other.
pub proof fn lemma_key_less_total(a: Seq<char>, b: Seq<char>)
    ensures
        a == b || key_less(a, b) || key_less(b, a),
    decreases a.len(),
{
    if a.len() > 0 && b.len() > 0 && a[0] == b[0] {
        lemma_key_less_total(a.drop_first(), b.drop_first());
        if a.drop_first() == b.drop_first() {
            assert(a =~= seq![a[0]] + a.drop_first());
            assert(b =~= seq![b[0]] + b.drop_first());
        }
    } else if a.len() == 0 && b.len() == 0 {
        assert(a =~= b);
    }
}

/// No string comes both before and after another.
pub proof fn lemma_key_less_asymmetric(a: Seq<char>, b: Seq<char>)
    requires
        key_less(a, b),
    ensures
        !key_less(b, a),
{
    if key_less(b, a) {
        lemma_key_less_transitive(a, b, a);
        lemma_key_less_irreflexive(a);
    }
}

proof fn lemma_key_less_skip(a: Seq<char>, b: Seq<char>, i: int)
    requires
        0 <= i <= a.len(),
        i <= b.len(),
        a.take(i) == b.take(i),
    ensures
        key_less(a, b) == key_less(a.skip(i), b.skip(i)),
    decreases i,
{
    if i > 0 {
        assert(a[0] == a.take(i)[0]);
        assert(b[0] == b.take(i)[0]);
        assert(a.drop_first().take(i - 1) =~= a.take(i).drop_first());
        assert(b.drop_first().take(i - 1) =~= b.take(i).drop_first());
        lemma_key_less_skip(a.drop_first(), b.drop_first(), i - 1);
        assert(a.drop_first().skip(i - 1) =~= a.skip(i));
        assert(b.drop_first().skip(i - 1) =~= b.skip(i));
    } else {
        assert(a.skip(0) =~= a);
        assert(b.skip(0) =~= b);
    }
}

/// Outcome of comparing two keys.
#[derive(Debug, Clone, Copy, PartialEq, Eq, Structural)]
pub enum KeyOrder {
    Less,
    Equal,
    Greater,
}

/// Compares the keys `a` and `b` in the order of strings.
pub fn compare_keys(a: &str, b: &str) -> (res: KeyOrder)
    ensures
        res == KeyOrder::Less <==> key_less(a@, b@),
        res == KeyOrder::Equal <==> a@ == b@,
        res == KeyOrder::Greater <==> key_less(b@, a@),
{
    let n = a.unicode_len();
    let m = b.unicode_len();
    let mut i: usize = 0;
    while i < n && i < m
        invariant
            n == a@.len(),
            m == b@.len(),
            i <= n,
            i <= m,
            a@.take(i as int) == b@.take(i as int),
        decreases n - i,
    {
        let x = a.get_char(i);
        let y = b.get_char(i);
        if x != y {
            proof {
                lemma_key_less_skip(a@, b@, i as int);
                lemma_key_less_skip(b@, a@, i as int);
                assert(a@.skip(i as int)[0] == x);
                assert(b@.skip(i as int)[0] == y);
                assert(a@[i as int] != b@[i as int]);
            }
            if x < y {
                return KeyOrder::Less;
            } else {
                return KeyOrder::Greater;
            }
        }
        assert(a@.take(i + 1) =~= a@.take(i as int).push(x));
        assert(b@.take(i + 1) =~= b@.take(i as int).push(y));
        i = i + 1;
    }
    proof {
        lemma_key_less_skip(a@, b@, i as int);
        lemma_key_less_skip(b@, a@, i as int);
        if n == m {
            assert(a@ =~= a@.take(i as int));
            assert(b@ =~= b@.take(i as int));
        } else {
            assert(a@.len() != b@.len());
        }
    }
    if n == m {
        proof {
            lemma_key_less_irreflexive(a@);
        }
        KeyOrder::Equal
    } else if n < m {
        KeyOrder::Less
    } else {
        KeyOrder::Greater
    }
}

/// Whether the keys of `e` are in strictly increasing order.
pub open spec fn sorted_keys<V>(e: Seq<(String, V)>) -> bool {
    forall|i: int, j: int| 0 <= i < j < e.len() ==> key_less(#[trigger] e[i].0@, #[trigger] e[j].0@)
}

/// Position of the last entry of `e` with key `k`, or -1 where there is none.
pub open spec fn key_index<V>(e: Seq<(String, V)>, k: Seq<char>) -> int
    decreases e.len(),
{
    if e.len() == 0 {
        -1
    } else if e.last().0@ == k {
        e.len() - 1
    } else {
        key_index(e.drop_last(), k)
    }
}

/// [`key_index`] finds an entry with the key, or there is none.
pub proof fn lemma_key_index<V>(e: Seq<(String, V)>, k: Seq<char>)
    ensures
        -1 <= key_index(e, k) < e.len(),
        key_index(e, k) >= 0 ==> e[key_index(e, k)].0@ == k,
        key_index(e, k) == -1 ==> forall|i: int| 0 <= i < e.len() ==> e[i].0@ != k,
    decreases e.len(),
{
    if e.len() > 0 {
        lemma_key_index(e.drop_last(), k);
        if e.last().0@ != k {
            assert forall|i: int| 0 <= i < e.len() && key_index(e, k) == -1 implies e[i].0@ != k by {
                if i < e.len() - 1 {
                    assert(e.drop_last()[i] == e[i]);
                }
            }
        }
    }
}

/// The map of the entries `e`.
pub open spec fn entries_map<V>(e: Seq<(String, V)>) -> Map<Seq<char>, V> {
    Map::new(|k: Seq<char>| key_index(e, k) >= 0, |k: Seq<char>| e[key_index(e, k)].1)
}

/// Map from strings to `V`, as a sequence of entries in key order.
#[derive(Debug, PartialEq)]
pub struct StrMap<V> {
    /// The entries, in increasing key order.
    pub entries: Vec<(String, V)>,
}

impl<V> View for StrMap<V> {
    type V = Map<Seq<char>, V>;

    open spec fn view(&self) -> Map<Seq<char>, V> {
        entries_map(self.entries@)
    }
}

/// In sorted entries, different positions hold different keys.
pub proof fn lemma_sorted_distinct<V>(e: Seq<(String, V)>, i: int, j: int)
    requires
        sorted_keys(e),
        0 <= i < e.len(),
        0 <= j < e.len(),
        i != j,
    ensures
        e[i].0@ != e[j].0@,
{
    if i < j {
        lemma_key_less_irreflexive(e[i].0@);
    } else {
        lemma_key_less_irreflexive(e[j].0@);
    }
}

/// Every entry of sorted entries is in their map, with its value.
pub proof fn lemma_entries_map_index<V>(e: Seq<(String, V)>, n: int)
    requires
        sorted_keys(e),
        0 <= n < e.len(),
    ensures
        entries_map(e).contains_key(e[n].0@),
        entries_map(e)[e[n].0@] == e[n].1,
{
    let k = e[n].0@;
    lemma_key_index(e, k);
    let j = key_index(e, k);
    if j != n && j >= 0 {
        lemma_sorted_distinct(e, n, j);
    }
}

/// The map of sorted entries is `m` when `m` holds each entry and nothing else.
pub proof fn lemma_entries_map_eq<V>(e: Seq<(String, V)>, m: Map<Seq<char>, V>)
    requires
        sorted_keys(e),
        forall|i: int| 0 <= i < e.len() ==> #[trigger] m.contains_key(e[i].0@) && m[e[i].0@] == e[i].1,
        forall|k: Seq<char>| #[trigger]
            m.contains_key(k) ==> exists|i: int| 0 <= i < e.len() && e[i].0@ == k,
    ensures
        entries_map(e) == m,
{
    assert forall|k: Seq<char>| #[trigger] entries_map(e).contains_key(k) implies m.contains_key(k)
        && entries_map(e)[k] == m[k] by {
        lemma_key_index(e, k);
        let i = key_index(e, k);
        lemma_entries_map_index(e, i);
        assert(m.contains_key(e[i].0@));
    }
    assert forall|k: Seq<char>| #[trigger] m.contains_key(k) implies entries_map(e).contains_key(k) by {
        let i = choose|i: int| 0 <= i < e.len() && e[i].0@ == k;
        lemma_key_index(e, k);
    }
    assert(entries_map(e) =~= m);
}

/// A prefix of sorted entries is sorted.
pub proof fn lemma_sorted_take<V>(e: Seq<(String, V)>, n: int)
    requires
        sorted_keys(e),
        0 <= n <= e.len(),
    ensures
        sorted_keys(e.take(n)),
{
    assert forall|i: int, j: int| 0 <= i < j < e.take(n).len() implies key_less(
        #[trigger] e.take(n)[i].0@,
        #[trigger] e.take(n)[j].0@,
    ) by {
        assert(e.take(n)[i] == e[i]);
        assert(e.take(n)[j] == e[j]);
    }
}

/// The map of a prefix grows by the next entry.
pub proof fn lemma_entries_map_take_step<V>(e: Seq<(String, V)>, n: int)
    requires
        sorted_keys(e),
        0 <= n < e.len(),
    ensures
        entries_map(e.take(n + 1)) == entries_map(e.take(n)).insert(e[n].0@, e[n].1),
{
    let p = e.take(n);
    let q = e.take(n + 1);
    lemma_sorted_take(e, n);
    lemma_sorted_take(e, n + 1);
    let m = entries_map(p).insert(e[n].0@, e[n].1);
    assert forall|i: int| 0 <= i < q.len() implies #[trigger] m.contains_key(q[i].0@) && m[q[i].0@]
        == q[i].1 by {
        if i < n {
            lemma_entries_map_index(p, i);
            assert(p[i] == q[i]);
            lemma_sorted_distinct(e, i, n);
        }
    }
    assert forall|k: Seq<char>| #[trigger] m.contains_key(k) implies exists|i: int|
        0 <= i < q.len() && q[i].0@ == k by {
        if k == e[n].0@ {
            assert(q[n].0@ == k);
        } else {
            lemma_key_index(p, k);
            let i = key_index(p, k);
            assert(q[i] == p[i]);
        }
    }
    lemma_entries_map_eq(q, m);
}

impl<V> StrMap<V> {
    /// Whether the entries are in strictly increasing key order.
    pub open spec fn wf(&self) -> bool {
        sorted_keys(self.entries@)
    }

    /// Empty map.
    pub fn new() -> (res: Self)
        ensures
            res.wf(),
            res@ == Map::<Seq<char>, V>::empty(),
            res.entries@.len() == 0,
    {
        let res = StrMap { entries: Vec::new() };
        assert(res@ =~= Map::<Seq<char>, V>::empty());
        res
    }

    /// Number of entries.
    pub fn len(&self) -> (res: usize)
        ensures
            res == self.entries@.len(),
    {
        self.entries.len()
    }

    /// Whether there are no entries.
    pub fn is_empty(&self) -> (res: bool)
        ensures
            res == (self.entries@.len() == 0),
            self.wf() ==> (res == (self@ == Map::<Seq<char>, V>::empty())),
    {
        proof {
            if self.entries@.len() > 0 && self.wf() {
                lemma_entries_map_index(self.entries@, 0);
                assert(self@.contains_key(self.entries@[0].0@));
            }
            if self.entries@.len() == 0 {
                assert(self@ =~= Map::<Seq<char>, V>::empty());
            }
        }
        self.entries.len() == 0
    }

    /// Finds `key`: its position, or where it belongs if it is not there.
    fn find(&self, key: &str) -> (res: Result<usize, usize>)
        requires
            self.wf(),
        ensures
            match res {
                Ok(i) => i < self.entries@.len() && self.entries@[i as int].0@ == key@,
                Err(i) => i <= self.entries@.len() && (forall|j: int|
                    0 <= j < i ==> key_less(#[trigger] self.entries@[j].0@, key@)) && (forall|j: int|
                    i <= j < self.entries@.len() ==> key_less(key@, #[trigger] self.entries@[j].0@)),
            },
    {
        let mut i: usize = 0;
        while i < self.entries.len()
            invariant
                self.wf(),
                i <= self.entries@.len(),
                forall|j: int| 0 <= j < i ==> key_less(#[trigger] self.entries@[j].0@, key@),
            decreases self.entries@.len() - i,
        {
            match compare_keys(self.entries[i].0.as_str(), key) {
                KeyOrder::Less => {},
                KeyOrder::Equal => {
                    return Ok(i);
                },
                KeyOrder::Greater => {
                    assert forall|j: int| i <= j < self.entries@.len() implies key_less(
                        key@,
                        #[trigger] self.entries@[j].0@,
                    ) by {
                        if j > i {
                            lemma_key_less_transitive(key@, self.entries@[i as int].0@,
                                self.entries@[j].0@);
                        }
                    }
                    return Err(i);
                },
            }
            i = i + 1;
        }
        Err(i)
    }

    /// The value for `key`.
    pub fn get(&self, key: &str) -> (res: Option<&V>)
        requires
            self.wf(),
        ensures
            match res {
                Some(v) => self@.contains_key(key@) && *v == self@[key@],
                None => !self@.contains_key(key@),
            },
    {
        match self.find(key) {
            Ok(i) => {
                proof {
                    lemma_entries_map_index(self.entries@, i as int);
                }
                Some(&self.entries[i].1)
            },
            Err(i) => {
                proof {
                    lemma_key_index(self.entries@, key@);
                    if self@.contains_key(key@) {
                        let j = key_index(self.entries@, key@);
                        lemma_key_less_irreflexive(key@);
                    }
                }
                None
            },
        }
    }

    /// Whether `key` has a value.
    pub fn contains_key(&self, key: &str) -> (res: bool)
        requires
            self.wf(),
        ensures
            res == self@.contains_key(key@),
    {
        self.get(key).is_some()
    }

    /// Sets the value of `key` to `value`, returning the value it had.
    pub fn insert(&mut self, key: String, value: V) -> (res: Option<V>)
        requires
            old(self).wf(),
        ensures
            final(self).wf(),
            final(self)@ == old(self)@.insert(key@, value),
            match res {
                Some(v) => old(self)@.contains_key(key@) && v == old(self)@[key@],
                None => !old(self)@.contains_key(key@),
            },
    {
        let ghost e = self.entries@;
        match self.find(key.as_str()) {
            Ok(i) => {
                let (_, v) = self.entries.remove(i);
                self.entries.insert(i, (key, value));
                proof {
                    let f = self.entries@;
                    assert(f =~= e.update(i as int, (key, value)));
                    assert(sorted_keys(f)) by {
                        assert forall|a: int, b: int| 0 <= a < b < f.len() implies key_less(
                            #[trigger] f[a].0@,
                            #[trigger] f[b].0@,
                        ) by {
                            assert(f[a].0@ == e[a].0@);
                            assert(f[b].0@ == e[b].0@);
                        }
                    }
                    lemma_entries_map_index(e, i as int);
                    let m = entries_map(e).insert(key@, value);
                    assert forall|j: int| 0 <= j < f.len() implies #[trigger] m.contains_key(
                        f[j].0@,
                    ) && m[f[j].0@] == f[j].1 by {
                        if j != i {
                            lemma_entries_map_index(e, j);
                            lemma_sorted_distinct(e, i as int, j);
                        }
                    }
                    assert forall|k: Seq<char>| #[trigger] m.contains_key(k) implies exists|j: int|
                        0 <= j < f.len() && f[j].0@ == k by {
                        if k != key@ {
                            lemma_key_index(e, k);
                            let j = key_index(e, k);
                            assert(f[j].0@ == k);
                        } else {
                            assert(f[i as int].0@ == k);
                        }
                    }
                    lemma_entries_map_eq(f, m);
                }
                Some(v)
            },
            Err(i) => {
                let ghost k = key@;
                self.entries.insert(i, (key, value));
                proof {
                    let f = self.entries@;
                    assert(f =~= e.insert(i as int, (key, value)));
                    assert(sorted_keys(f)) by {
                        assert forall|a: int, b: int| 0 <= a < b < f.len() implies key_less(
                            #[trigger] f[a].0@,
                            #[trigger] f[b].0@,
                        ) by {
                            if a < i && b == i {
                                assert(f[a] == e[a]);
                            } else if a < i && b > i {
                                assert(f[a] == e[a]);
                                assert(f[b] == e[b - 1]);
                                if a < b - 1 {
                                    assert(key_less(e[a].0@, e[b - 1].0@));
                                }
                            } else if a == i {
                                assert(f[b] == e[b - 1]);
                            } else if b < i {
                                assert(f[a] == e[a]);
                                assert(f[b] == e[b]);
                            } else {
                                assert(f[a] == e[a - 1]);
                                assert(f[b] == e[b - 1]);
                            }
                        }
                    }
                    let m = entries_map(e).insert(k, value);
                    assert forall|j: int| 0 <= j < f.len() implies #[trigger] m.contains_key(
                        f[j].0@,
                    ) && m[f[j].0@] == f[j].1 by {
                        if j < i {
                            lemma_entries_map_index(e, j);
                            assert(f[j] == e[j]);
                            lemma_key_less_irreflexive(k);
                        } else if j > i {
                            lemma_entries_map_index(e, j - 1);
                            assert(f[j] == e[j - 1]);
                            lemma_key_less_irreflexive(k);
                        }
                    }
                    assert forall|kk: Seq<char>| #[trigger] m.contains_key(kk) implies exists|j: int|
                        0 <= j < f.len() && f[j].0@ == kk by {
                        if kk != k {
                            lemma_key_index(e, kk);
                            let j = key_index(e, kk);
                            if j < i {
                                assert(f[j] == e[j]);
                            } else {
                                assert(f[j + 1] == e[j]);
                            }
                        } else {
                            assert(f[i as int].0@ == k);
                        }
                    }
                    lemma_entries_map_eq(f, m);
                    if entries_map(e).contains_key(k) {
                        lemma_key_index(e, k);
                            let j = key_index(e, k);
                        lemma_key_less_irreflexive(k);
                    }
                }
                None
            },
        }
    }

    /// Removes `key`, returning the value it had.
    pub fn remove(&mut self, key: &str) -> (res: Option<V>)
        requires
            old(self).wf(),
        ensures
            final(self).wf(),
            final(self)@ == old(self)@.remove(key@),
            match res {
                Some(v) => old(self)@.contains_key(key@) && v == old(self)@[key@],
                None => !old(self)@.contains_key(key@),
            },
    {
        let ghost e = self.entries@;
        match self.find(key) {
            Ok(i) => {
                let (_, v) = self.entries.remove(i);
                proof {
                    let f = self.entries@;
                    assert(f =~= e.remove(i as int));
                    assert(sorted_keys(f)) by {
                        assert forall|a: int, b: int| 0 <= a < b < f.len() implies key_less(
                            #[trigger] f[a].0@,
                            #[trigger] f[b].0@,
                        ) by {
                            if b < i {
                                assert(f[a] == e[a]);
                                assert(f[b] == e[b]);
                            } else if a < i {
                                assert(f[a] == e[a]);
                                assert(f[b] == e[b + 1]);
                            } else {
                                assert(f[a] == e[a + 1]);
                                assert(f[b] == e[b + 1]);
                            }
                        }
                    }
                    lemma_entries_map_index(e, i as int);
                    let m = entries_map(e).remove(key@);
                    assert forall|j: int| 0 <= j < f.len() implies #[trigger] m.contains_key(
                        f[j].0@,
                    ) && m[f[j].0@] == f[j].1 by {
                        if j < i {
                            assert(f[j] == e[j]);
                            lemma_entries_map_index(e, j);
                            lemma_sorted_distinct(e, i as int, j);
                        } else {
                            assert(f[j] == e[j + 1]);
                            lemma_entries_map_index(e, j + 1);
                            lemma_sorted_distinct(e, i as int, j + 1);
                        }
                    }
                    assert forall|k: Seq<char>| #[trigger] m.contains_key(k) implies exists|j: int|
                        0 <= j < f.len() && f[j].0@ == k by {
                        lemma_key_index(e, k);
                            let j = key_index(e, k);
                        if j < i {
                            assert(f[j] == e[j]);
                        } else {
                            assert(j != i);
                            assert(f[j - 1] == e[j]);
                        }
                    }
                    lemma_entries_map_eq(f, m);
                }
                Some(v)
            },
            Err(i) => {
                proof {
                    lemma_key_index(e, key@);
                    if entries_map(e).contains_key(key@) {
                        let j = key_index(e, key@);
                        lemma_key_less_irreflexive(key@);
                    }
                    assert(entries_map(e).remove(key@) =~= entries_map(e));
                }
                None
            },
        }
    }

    /// Adds all entries of `other`, whose values replace those of the same keys.
    pub fn extend(&mut self, other: StrMap<V>)
        requires
            old(self).wf(),
            other.wf(),
        ensures
            final(self).wf(),
            final(self)@ == old(self)@.union_prefer_right(other@),
    {
        let ghost o = other.entries@;
        let ghost start = self@;
        let mut rest = other.entries;
        let total = rest.len();
        let mut n: usize = 0;
        proof {
            assert(entries_map(o.take(0)) =~= Map::<Seq<char>, V>::empty());
            assert(start.union_prefer_right(Map::<Seq<char>, V>::empty()) =~= start);
            assert(rest@ =~= o.skip(0));
        }
        while rest.len() > 0
            invariant
                sorted_keys(o),
                self.wf(),
                o.len() == total,
                n + rest@.len() == o.len(),
                rest@ == o.skip(n as int),
                self@ == start.union_prefer_right(entries_map(o.take(n as int))),
            decreases rest@.len(),
        {
            let (k, v) = rest.remove(0);
            proof {
                assert(o[n as int] == (k, v));
                lemma_entries_map_take_step(o, n as int);
                assert(start.union_prefer_right(entries_map(o.take(n + 1))) =~= start.union_prefer_right(
                    entries_map(o.take(n as int)),
                ).insert(k@, v));
            }
            self.insert(k, v);
            n = n + 1;
            assert(rest@ =~= o.skip(n as int));
        }
        assert(o.take(n as int) =~= o);
    }
}

} // verus!

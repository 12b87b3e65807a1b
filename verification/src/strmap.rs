//! A map keyed by strings that keeps its entries in increasing key order, as
//! `BTreeMap<String, _>` does: code-point order, which is also byte order.
use vstd::prelude::*;
use vstd::string::StrSliceExecFns;

verus! {

/// `a` comes before `b` in lexicographic code-point order.
pub open spec fn str_less(a: Seq<char>, b: Seq<char>) -> bool
    decreases a.len(),
{
    if a.len() == 0 {
        b.len() > 0
    } else if b.len() == 0 {
        false
    } else if a[0] != b[0] {
        (a[0] as u32) < (b[0] as u32)
    } else {
        str_less(a.drop_first(), b.drop_first())
    }
}

/// No string comes before itself.
pub proof fn lemma_str_less_irreflexive(a: Seq<char>)
    ensures
        !str_less(a, a),
    decreases a.len(),
{
    if a.len() > 0 {
        lemma_str_less_irreflexive(a.drop_first());
    }
}

/// The order is transitive.
pub proof fn lemma_str_less_transitive(a: Seq<char>, b: Seq<char>, c: Seq<char>)
    requires
        str_less(a, b),
        str_less(b, c),
    ensures
        str_less(a, c),
    decreases a.len(),
{
    if a.len() > 0 && b.len() > 0 && c.len() > 0 && a[0] == b[0] && b[0] == c[0] {
        lemma_str_less_transitive(a.drop_first(), b.drop_first(), c.drop_first());
    }
}

/// Two different strings are ordered one way or the other, never both.
pub proof fn lemma_str_less_total(a: Seq<char>, b: Seq<char>)
    ensures
        a != b ==> (str_less(a, b) || str_less(b, a)),
        !(str_less(a, b) && str_less(b, a)),
    decreases a.len(),
{
    if a.len() > 0 && b.len() > 0 && a[0] == b[0] {
        lemma_str_less_total(a.drop_first(), b.drop_first());
        if a.drop_first() == b.drop_first() {
            assert(a =~= seq![a[0]] + a.drop_first());
            assert(b =~= seq![b[0]] + b.drop_first());
        }
    } else if a.len() == 0 && b.len() == 0 {
        assert(a =~= b);
    } else if a.len() > 0 && b.len() > 0 {
        vstd::utf8::char_u32_cast(a[0], a[0] as u32);
        vstd::utf8::char_u32_cast(b[0], b[0] as u32);
    }
}

proof fn lemma_str_less_skip(a: Seq<char>, b: Seq<char>, i: int)
    requires
        0 <= i < a.len(),
        i < b.len(),
        a[i] == b[i],
    ensures
        str_less(a.skip(i), b.skip(i)) == str_less(a.skip(i + 1), b.skip(i + 1)),
{
    assert(a.skip(i).drop_first() =~= a.skip(i + 1));
    assert(b.skip(i).drop_first() =~= b.skip(i + 1));
}

/// Compares two strings in code-point order.
pub fn str_less_exec(a: &str, b: &str) -> (res: bool)
    ensures
        res == str_less(a@, b@),
{
    let na = a.unicode_len();
    let nb = b.unicode_len();
    let mut i: usize = 0;
    assert(a@.skip(0) =~= a@);
    assert(b@.skip(0) =~= b@);
    while i < na && i < nb
        invariant
            na == a@.len(),
            nb == b@.len(),
            i <= na,
            i <= nb,
            str_less(a@, b@) == str_less(a@.skip(i as int), b@.skip(i as int)),
        decreases na - i,
    {
        let ca = a.get_char(i);
        let cb = b.get_char(i);
        if ca != cb {
            return (ca as u32) < (cb as u32);
        }
        proof {
            lemma_str_less_skip(a@, b@, i as int);
        }
        i = i + 1;
    }
    i == na && i < nb
}

/// Whether two strings are equal.
pub fn str_eq_exec(a: &str, b: &str) -> (res: bool)
    ensures
        res == (a@ == b@),
{
    proof {
        lemma_str_less_total(a@, b@);
        lemma_str_less_irreflexive(a@);
    }
    !str_less_exec(a, b) && !str_less_exec(b, a)
}

/// Keys strictly increase along the sequence.
pub open spec fn keys_sorted<W>(e: Seq<(Seq<char>, W)>) -> bool {
    forall|i: int, j: int| 0 <= i < j < e.len() ==> str_less(#[trigger] e[i].0, #[trigger] e[j].0)
}

/// Some entry has key `k`.
pub open spec fn has_key<W>(e: Seq<(Seq<char>, W)>, k: Seq<char>) -> bool {
    exists|i: int| 0 <= i < e.len() && #[trigger] e[i].0 == k
}

/// The position of the entry with key `k`.
pub open spec fn key_position<W>(e: Seq<(Seq<char>, W)>, k: Seq<char>) -> int {
    choose|i: int| 0 <= i < e.len() && #[trigger] e[i].0 == k
}

/// The value stored under `k`, if any.
pub open spec fn lookup<W>(e: Seq<(Seq<char>, W)>, k: Seq<char>) -> Option<W> {
    if has_key(e, k) {
        Some(e[key_position(e, k)].1)
    } else {
        None
    }
}

/// `i` splits the entries into those with keys below `k` and those above.
pub open spec fn is_insertion_point<W>(e: Seq<(Seq<char>, W)>, k: Seq<char>, i: int) -> bool {
    &&& 0 <= i <= e.len()
    &&& forall|j: int| 0 <= j < i ==> str_less(#[trigger] e[j].0, k)
    &&& forall|j: int| i <= j < e.len() ==> str_less(k, #[trigger] e[j].0)
}

/// Where a new key `k` goes.
pub open spec fn insertion_point<W>(e: Seq<(Seq<char>, W)>, k: Seq<char>) -> int {
    choose|i: int| is_insertion_point(e, k, i)
}

/// The entries after storing `v` under `k`: replaced in place, or inserted in key order.
pub open spec fn insert_entry<W>(e: Seq<(Seq<char>, W)>, k: Seq<char>, v: W) -> Seq<(Seq<char>, W)> {
    if has_key(e, k) {
        e.update(key_position(e, k), (k, v))
    } else {
        e.insert(insertion_point(e, k), (k, v))
    }
}

/// In sorted entries a key sits at one position only.
pub proof fn lemma_key_position_unique<W>(e: Seq<(Seq<char>, W)>, k: Seq<char>, i: int)
    requires
        keys_sorted(e),
        0 <= i < e.len(),
        e[i].0 == k,
    ensures
        has_key(e, k),
        key_position(e, k) == i,
        lookup(e, k) == Some(e[i].1),
{
    let p = key_position(e, k);
    assert(0 <= p < e.len() && e[p].0 == k);
    if p < i {
        assert(str_less(e[p].0, e[i].0));
        lemma_str_less_irreflexive(k);
    } else if i < p {
        assert(str_less(e[i].0, e[p].0));
        lemma_str_less_irreflexive(k);
    }
}

/// There is only one insertion point.
pub proof fn lemma_insertion_point_unique<W>(e: Seq<(Seq<char>, W)>, k: Seq<char>, i: int)
    requires
        is_insertion_point(e, k, i),
    ensures
        insertion_point(e, k) == i,
{
    let p = insertion_point(e, k);
    assert(is_insertion_point(e, k, p));
    if p < i {
        assert(str_less(e[p].0, k));
        assert(str_less(k, e[p].0));
        lemma_str_less_total(e[p].0, k);
    } else if i < p {
        assert(str_less(e[i].0, k));
        assert(str_less(k, e[i].0));
        lemma_str_less_total(e[i].0, k);
    }
}

/// Storing under a key keeps the keys in order, and reading that key back gives
/// what was stored.
pub proof fn lemma_insert_then_lookup<W>(e: Seq<(Seq<char>, W)>, k: Seq<char>, v: W)
    requires
        keys_sorted(e),
    ensures
        keys_sorted(insert_entry(e, k, v)),
        lookup(insert_entry(e, k, v), k) == Some(v),
        has_key(e, k) ==> insert_entry(e, k, v).len() == e.len(),
        !has_key(e, k) ==> insert_entry(e, k, v).len() == e.len() + 1,
{
    let r = insert_entry(e, k, v);
    if has_key(e, k) {
        let p = key_position(e, k);
        assert(0 <= p < e.len() && e[p].0 == k);
        assert forall|i: int, j: int| 0 <= i < j < r.len() implies str_less(
            #[trigger] r[i].0,
            #[trigger] r[j].0,
        ) by {
            assert(r[i].0 == e[i].0);
            assert(r[j].0 == e[j].0);
        }
        lemma_key_position_unique(r, k, p);
    } else {
        lemma_insertion_point_exists(e, k);
        let p = insertion_point(e, k);
        assert(is_insertion_point(e, k, p));
        assert forall|a: int, b: int| 0 <= a < b < r.len() implies str_less(
            #[trigger] r[a].0,
            #[trigger] r[b].0,
        ) by {
            if b == p {
                assert(str_less(e[a].0, k));
            } else if a == p {
                assert(str_less(k, e[b - 1].0));
            } else if b < p {
            } else if a > p {
                assert(str_less(e[a - 1].0, e[b - 1].0));
            } else {
                assert(str_less(e[a].0, e[b - 1].0));
            }
        }
        lemma_key_position_unique(r, k, p);
    }
}

/// Storing under one key leaves what every other key reads unchanged.
pub proof fn lemma_insert_keeps_others<W>(e: Seq<(Seq<char>, W)>, k: Seq<char>, v: W, other: Seq<char>)
    requires
        keys_sorted(e),
        other != k,
    ensures
        lookup(insert_entry(e, k, v), other) == lookup(e, other),
{
    lemma_insert_then_lookup(e, k, v);
    let r = insert_entry(e, k, v);
    if has_key(e, k) {
        let p = key_position(e, k);
        if has_key(e, other) {
            let q = key_position(e, other);
            assert(r[q].0 == other);
            lemma_key_position_unique(r, other, q);
        } else if has_key(r, other) {
            let q = key_position(r, other);
            assert(e[q].0 == other);
        }
    } else {
        lemma_insertion_point_exists(e, k);
        let p = insertion_point(e, k);
        if has_key(e, other) {
            let q = key_position(e, other);
            if q < p {
                assert(r[q] == e[q]);
                lemma_key_position_unique(r, other, q);
            } else {
                assert(r[q + 1] == e[q]);
                lemma_key_position_unique(r, other, q + 1);
            }
        } else if has_key(r, other) {
            let q = key_position(r, other);
            if q < p {
                assert(e[q].0 == other);
            } else if q > p {
                assert(e[q - 1].0 == other);
            }
        }
    }
}

/// A key that is absent has a place among sorted keys.
pub proof fn lemma_insertion_point_exists<W>(e: Seq<(Seq<char>, W)>, k: Seq<char>)
    requires
        keys_sorted(e),
        !has_key(e, k),
    ensures
        is_insertion_point(e, k, insertion_point(e, k)),
    decreases e.len(),
{
    if e.len() == 0 {
        assert(is_insertion_point(e, k, 0));
    } else {
        let d = e.drop_last();
        assert(keys_sorted(d));
        assert(!has_key(d, k)) by {
            if has_key(d, k) {
                let q = key_position(d, k);
                assert(e[q].0 == k);
            }
        }
        lemma_insertion_point_exists(d, k);
        let p = insertion_point(d, k);
        lemma_str_less_total(e.last().0, k);
        assert(e.last().0 != k) by {
            assert(e[e.len() - 1].0 == e.last().0);
        }
        if str_less(e.last().0, k) {
            assert(is_insertion_point(e, k, e.len() as int)) by {
                assert forall|j: int| 0 <= j < e.len() implies str_less(#[trigger] e[j].0, k) by {
                    if j < e.len() - 1 {
                        lemma_str_less_transitive(e[j].0, e.last().0, k);
                    }
                }
            }
        } else {
            assert(is_insertion_point(e, k, p)) by {
                assert forall|j: int| 0 <= j < p implies str_less(#[trigger] e[j].0, k) by {
                    assert(d[j] == e[j]);
                }
                assert forall|j: int| p <= j < e.len() implies str_less(k, #[trigger] e[j].0) by {
                    if j < e.len() - 1 {
                        assert(d[j] == e[j]);
                    }
                }
            }
        }
    }
}

/// A map from strings to values, kept in increasing key order.
pub struct StrMap<V> {
    entries: Vec<(String, V)>,
}

impl<V: View> View for StrMap<V> {
    type V = Seq<(Seq<char>, V::V)>;

    closed spec fn view(&self) -> Seq<(Seq<char>, V::V)> {
        self.entries@.map_values(|e: (String, V)| (e.0@, e.1@))
    }
}

impl<V: View> StrMap<V> {
    /// The entries are in strictly increasing key order.
    pub open spec fn wf(&self) -> bool {
        keys_sorted(self@)
    }

    /// An empty map.
    pub fn new() -> (m: Self)
        ensures
            m@ == Seq::<(Seq<char>, V::V)>::empty(),
            m.wf(),
    {
        let m = StrMap { entries: Vec::new() };
        assert(m@ =~= Seq::<(Seq<char>, V::V)>::empty());
        m
    }

    /// Number of entries.
    pub fn len(&self) -> (n: usize)
        ensures
            n == self@.len(),
    {
        self.entries.len()
    }

    /// The key of entry `i`.
    pub fn key_at(&self, i: usize) -> (k: &str)
        requires
            i < self@.len(),
        ensures
            k@ == self@[i as int].0,
    {
        self.entries[i].0.as_str()
    }

    /// The value of entry `i`.
    pub fn value_at(&self, i: usize) -> (v: &V)
        requires
            i < self@.len(),
        ensures
            v@ == self@[i as int].1,
    {
        &self.entries[i].1
    }

    /// Finds `key`: its position, or the position where it would go.
    pub fn find(&self, key: &str) -> (res: Result<usize, usize>)
        requires
            self.wf(),
        ensures
            match res {
                Ok(i) => i < self@.len() && self@[i as int].0 == key@ && key_position(self@, key@) == i
                    && has_key(self@, key@),
                Err(i) => !has_key(self@, key@) && i == insertion_point(self@, key@)
                    && is_insertion_point(self@, key@, i as int),
            },
    {
        let n = self.entries.len();
        let ghost e = self@;
        let mut i: usize = 0;
        while i < n
            invariant
                n == e.len(),
                e == self@,
                keys_sorted(e),
                i <= n,
                forall|j: int| 0 <= j < i ==> str_less(#[trigger] e[j].0, key@),
            decreases n - i,
        {
            let k = self.entries[i].0.as_str();
            assert(k@ == e[i as int].0);
            if str_eq_exec(k, key) {
                proof {
                    lemma_key_position_unique(e, key@, i as int);
                }
                return Ok(i);
            }
            if str_less_exec(key, k) {
                proof {
                    assert forall|j: int| i <= j < e.len() implies str_less(key@, #[trigger] e[j].0) by {
                        if j > i {
                            lemma_str_less_transitive(key@, e[i as int].0, e[j].0);
                        }
                    }
                    assert forall|j: int| 0 <= j < e.len() implies #[trigger] e[j].0 != key@ by {
                        lemma_str_less_irreflexive(key@);
                    }
                    lemma_insertion_point_unique(e, key@, i as int);
                }
                return Err(i);
            }
            proof {
                lemma_str_less_total(k@, key@);
            }
            i = i + 1;
        }
        proof {
            assert forall|j: int| 0 <= j < e.len() implies #[trigger] e[j].0 != key@ by {
                lemma_str_less_irreflexive(key@);
            }
            lemma_insertion_point_unique(e, key@, n as int);
        }
        Err(n)
    }

    /// The value stored under `key`.
    pub fn get(&self, key: &str) -> (res: Option<&V>)
        requires
            self.wf(),
        ensures
            match res {
                Some(v) => lookup(self@, key@) == Some(v@),
                None => lookup(self@, key@) is None,
            },
    {
        match self.find(key) {
            Ok(i) => Some(&self.entries[i].1),
            Err(_) => None,
        }
    }

    /// Stores `value` under `key`, replacing what was there.
    pub fn insert(&mut self, key: String, value: V)
        requires
            old(self).wf(),
        ensures
            final(self).wf(),
            final(self)@ == insert_entry(old(self)@, key@, value@),
    {
        let ghost e = self@;
        match self.find(key.as_str()) {
            Ok(i) => {
                self.entries.remove(i);
                self.entries.insert(i, (key, value));
                assert(self@ =~= e.update(i as int, (key@, value@)));
            },
            Err(i) => {
                self.entries.insert(i, (key, value));
                assert(self@ =~= e.insert(i as int, (key@, value@)));
                assert forall|a: int, b: int| 0 <= a < b < self@.len() implies str_less(
                    #[trigger] self@[a].0,
                    #[trigger] self@[b].0,
                ) by {
                    if b == i {
                        assert(str_less(e[a].0, key@));
                    } else if a == i {
                        assert(str_less(key@, e[b - 1].0));
                    } else if b < i {
                    } else if a > i {
                        assert(str_less(e[a - 1].0, e[b - 1].0));
                    } else {
                        assert(str_less(e[a].0, e[b - 1].0));
                    }
                }
            },
        }
    }

    /// Puts `value` in entry `i` in place of its value, which is handed back.
    pub fn replace_value_at(&mut self, i: usize, value: V) -> (prev: V)
        requires
            i < old(self)@.len(),
        ensures
            prev@ == old(self)@[i as int].1,
            final(self)@ == old(self)@.update(i as int, (old(self)@[i as int].0, value@)),
            final(self)@.len() == old(self)@.len(),
    {
        let ghost e = self@;
        let (k, prev) = self.entries.remove(i);
        self.entries.insert(i, (k, value));
        assert(self@ =~= e.update(i as int, (e[i as int].0, value@)));
        prev
    }

    /// Entry `i` as a pair of references.
    pub fn entry_at(&self, i: usize) -> (kv: (&str, &V))
        requires
            i < self@.len(),
        ensures
            kv.0@ == self@[i as int].0,
            kv.1@ == self@[i as int].1,
    {
        (self.entries[i].0.as_str(), &self.entries[i].1)
    }

    /// The entries, in key order.
    pub fn as_vec(&self) -> (v: &Vec<(String, V)>)
        ensures
            v@.map_values(|e: (String, V)| (e.0@, e.1@)) == self@,
    {
        &self.entries
    }
}

} // verus!

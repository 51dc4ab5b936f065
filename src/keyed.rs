//! An insertion-ordered map from text keys to values, with unique keys.
use vstd::prelude::*;

use crate::text::same_text;

verus! {

/// The position of the first entry whose key is `k`, or -1.
pub open spec fn index_of<W>(s: Seq<(Seq<char>, W)>, k: Seq<char>) -> int
    decreases s.len(),
{
    if s.len() == 0 {
        -1
    } else if s.last().0 == k {
        let i = index_of(s.drop_last(), k);
        if i >= 0 { i } else { s.len() - 1 }
    } else {
        index_of(s.drop_last(), k)
    }
}

/// Whether some entry has key `k`.
pub open spec fn has_key<W>(s: Seq<(Seq<char>, W)>, k: Seq<char>) -> bool {
    exists|i: int| 0 <= i < s.len() && #[trigger] s[i].0 == k
}

/// The value stored under `k`, if any.
pub open spec fn lookup<W>(s: Seq<(Seq<char>, W)>, k: Seq<char>) -> Option<W> {
    let i = index_of(s, k);
    if i >= 0 { Some(s[i].1) } else { None }
}

/// No two entries share a key.
pub open spec fn keys_unique<W>(s: Seq<(Seq<char>, W)>) -> bool {
    forall|i: int, j: int| 0 <= i < s.len() && 0 <= j < s.len() && i != j ==> s[i].0 != s[j].0
}

/// The keys, in order.
pub open spec fn keys_of<W>(s: Seq<(Seq<char>, W)>) -> Seq<Seq<char>> {
    s.map_values(|e: (Seq<char>, W)| e.0)
}

/// Writing `v` under `k`: an existing entry keeps its place, a new one goes last.
pub open spec fn insert_entry<W>(s: Seq<(Seq<char>, W)>, k: Seq<char>, v: W) -> Seq<(Seq<char>, W)> {
    let i = index_of(s, k);
    if i >= 0 { s.update(i, (k, v)) } else { s.push((k, v)) }
}

pub proof fn lemma_index_of<W>(s: Seq<(Seq<char>, W)>, k: Seq<char>)
    ensures
        -1 <= index_of(s, k) < s.len(),
        index_of(s, k) >= 0 ==> s[index_of(s, k)].0 == k,
        index_of(s, k) >= 0 ==> forall|j: int| 0 <= j < index_of(s, k) ==> s[j].0 != k,
        index_of(s, k) < 0 <==> !has_key(s, k),
    decreases s.len(),
{
    if s.len() > 0 {
        lemma_index_of(s.drop_last(), k);
        assert forall|j: int| 0 <= j < s.len() - 1 implies #[trigger] s[j] == s.drop_last()[j] by {}
        if has_key(s.drop_last(), k) {
            let j = choose|j: int| 0 <= j < s.drop_last().len() && #[trigger] s.drop_last()[j].0 == k;
            assert(s[j].0 == k);
        }
        if has_key(s, k) && !has_key(s.drop_last(), k) {
            let j = choose|j: int| 0 <= j < s.len() && #[trigger] s[j].0 == k;
            if j < s.len() - 1 {
                assert(s.drop_last()[j].0 == k);
            }
        }
    }
}

/// With unique keys, the entry at `i` is the one found under its key.
pub proof fn lemma_unique_index<W>(s: Seq<(Seq<char>, W)>, i: int)
    requires
        keys_unique(s),
        0 <= i < s.len(),
    ensures
        index_of(s, s[i].0) == i,
        lookup(s, s[i].0) == Some(s[i].1),
{
    lemma_index_of(s, s[i].0);
    assert(has_key(s, s[i].0));
}

pub proof fn lemma_insert_entry<W>(s: Seq<(Seq<char>, W)>, k: Seq<char>, v: W)
    requires
        keys_unique(s),
    ensures
        keys_unique(insert_entry(s, k, v)),
        lookup(insert_entry(s, k, v), k) == Some(v),
        has_key(insert_entry(s, k, v), k),
        forall|k2: Seq<char>| k2 != k ==> lookup(insert_entry(s, k, v), k2) == lookup(s, k2),
        forall|k2: Seq<char>| k2 != k ==> (has_key(insert_entry(s, k, v), k2) <==> has_key(s, k2)),
        has_key(s, k) ==> keys_of(insert_entry(s, k, v)) == keys_of(s),
        !has_key(s, k) ==> keys_of(insert_entry(s, k, v)) == keys_of(s).push(k),
        insert_entry(s, k, v).len() == if has_key(s, k) { s.len() } else { s.len() + 1 },
{
    lemma_index_of(s, k);
    let t = insert_entry(s, k, v);
    let i = index_of(s, k);
    if i >= 0 {
        assert(keys_of(t) =~= keys_of(s));
        assert(keys_unique(t)) by {
            assert forall|a: int, b: int| 0 <= a < t.len() && 0 <= b < t.len() && a != b implies t[a].0 != t[b].0 by {
                assert(keys_of(t)[a] == keys_of(s)[a] && keys_of(t)[b] == keys_of(s)[b]);
            }
        }
    } else {
        assert(keys_of(t) =~= keys_of(s).push(k));
        assert(keys_unique(t)) by {
            assert forall|a: int, b: int| 0 <= a < t.len() && 0 <= b < t.len() && a != b implies t[a].0 != t[b].0 by {
                if a == s.len() {
                    assert(s[b].0 != k);
                } else if b == s.len() {
                    assert(s[a].0 != k);
                }
            }
        }
    }
    let ik = if i >= 0 { i } else { s.len() as int };
    assert(t[ik].0 == k);
    lemma_unique_index(t, ik);
    assert forall|k2: Seq<char>| k2 != k implies lookup(t, k2) == lookup(s, k2) && (has_key(t, k2) <==> has_key(s, k2)) by {
        lemma_index_of(s, k2);
        lemma_index_of(t, k2);
        if has_key(s, k2) {
            let j = index_of(s, k2);
            assert(t[j] == s[j]);
            lemma_unique_index(s, j);
            lemma_unique_index(t, j);
        } else if has_key(t, k2) {
            let j = choose|j: int| 0 <= j < t.len() && #[trigger] t[j].0 == k2;
            assert(j != ik);
            assert(s[j].0 == k2);
        }
    }
}

/// Writing under a key twice leaves only the second value.
pub proof fn lemma_insert_twice<W>(s: Seq<(Seq<char>, W)>, k: Seq<char>, v1: W, v2: W)
    requires
        keys_unique(s),
    ensures
        insert_entry(insert_entry(s, k, v1), k, v2) == insert_entry(s, k, v2),
{
    lemma_index_of(s, k);
    lemma_insert_entry(s, k, v1);
    let t = insert_entry(s, k, v1);
    let ik = if index_of(s, k) >= 0 { index_of(s, k) } else { s.len() as int };
    assert(t[ik].0 == k);
    lemma_unique_index(t, ik);
    assert(insert_entry(t, k, v2) =~= insert_entry(s, k, v2));
}

/// The entries after writing each `(key, value)` of `ws`, in order.
pub open spec fn insert_all<W>(s: Seq<(Seq<char>, W)>, ws: Seq<(Seq<char>, W)>) -> Seq<(Seq<char>, W)>
    decreases ws.len(),
{
    if ws.len() == 0 {
        s
    } else {
        insert_entry(insert_all(s, ws.drop_last()), ws.last().0, ws.last().1)
    }
}

/// Whether `ws` writes under `k`.
pub open spec fn written<W>(ws: Seq<(Seq<char>, W)>, k: Seq<char>) -> bool {
    exists|j: int| 0 <= j < ws.len() && #[trigger] ws[j].0 == k
}

/// The last value that `ws` writes under `k`.
pub open spec fn last_write<W>(ws: Seq<(Seq<char>, W)>, k: Seq<char>) -> W
    recommends
        written(ws, k),
    decreases ws.len(),
{
    if ws.len() == 0 {
        arbitrary()
    } else if ws.last().0 == k {
        ws.last().1
    } else {
        last_write(ws.drop_last(), k)
    }
}

proof fn lemma_written_step<W>(ws: Seq<(Seq<char>, W)>, k: Seq<char>)
    requires
        ws.len() > 0,
    ensures
        written(ws, k) <==> (written(ws.drop_last(), k) || ws.last().0 == k),
{
    let p = ws.drop_last();
    if written(ws, k) {
        let j = choose|j: int| 0 <= j < ws.len() && #[trigger] ws[j].0 == k;
        if j < ws.len() - 1 {
            assert(p[j].0 == k);
        }
    }
    if written(p, k) {
        let j = choose|j: int| 0 <= j < p.len() && #[trigger] p[j].0 == k;
        assert(ws[j].0 == k);
    }
    assert(ws[ws.len() - 1] == ws.last());
}

/// Writing into entries that already hold every key written changes values only:
/// each entry holds the last value written under its key, or what it held.
pub proof fn lemma_insert_all_in_place<W>(t: Seq<(Seq<char>, W)>, ws: Seq<(Seq<char>, W)>)
    requires
        keys_unique(t),
        forall|j: int| 0 <= j < ws.len() ==> has_key(t, #[trigger] ws[j].0),
    ensures
        insert_all(t, ws).len() == t.len(),
        forall|i: int|
            0 <= i < t.len() ==> #[trigger] insert_all(t, ws)[i] == (
                t[i].0,
                if written(ws, t[i].0) {
                    last_write(ws, t[i].0)
                } else {
                    t[i].1
                },
            ),
    decreases ws.len(),
{
    if ws.len() > 0 {
        let p = ws.drop_last();
        assert forall|j: int| 0 <= j < p.len() implies has_key(t, #[trigger] p[j].0) by {
            assert(p[j] == ws[j]);
        }
        lemma_insert_all_in_place(t, p);
        let prev = insert_all(t, p);
        let (k, v) = ws.last();
        assert(ws[ws.len() - 1] == ws.last());
        assert(has_key(t, k));
        assert(keys_of(prev) =~= keys_of(t)) by {
            assert forall|i: int| 0 <= i < t.len() implies keys_of(prev)[i] == keys_of(t)[i] by {
                assert(prev[i].0 == t[i].0);
            }
        }
        assert(keys_unique(prev)) by {
            assert forall|a: int, b: int| 0 <= a < prev.len() && 0 <= b < prev.len() && a != b implies prev[a].0
                != prev[b].0 by {
                assert(prev[a].0 == t[a].0 && prev[b].0 == t[b].0);
            }
        }
        lemma_index_of(t, k);
        let i0 = index_of(t, k);
        assert(prev[i0].0 == k);
        lemma_unique_index(prev, i0);
        assert(insert_all(t, ws) == prev.update(i0, (k, v)));
        assert forall|i: int| 0 <= i < t.len() implies #[trigger] insert_all(t, ws)[i] == (
            t[i].0,
            if written(ws, t[i].0) {
                last_write(ws, t[i].0)
            } else {
                t[i].1
            },
        ) by {
            lemma_written_step(ws, t[i].0);
            if i != i0 {
                assert(t[i].0 != k);
                assert(prev[i] == (
                    t[i].0,
                    if written(p, t[i].0) {
                        last_write(p, t[i].0)
                    } else {
                        t[i].1
                    },
                ));
            }
        }
    }
}

/// Writing `ws` leaves every key written present, holding its last value written.
pub proof fn lemma_insert_all_lookup<W>(s: Seq<(Seq<char>, W)>, ws: Seq<(Seq<char>, W)>)
    requires
        keys_unique(s),
    ensures
        keys_unique(insert_all(s, ws)),
        forall|k: Seq<char>| #[trigger] has_key(insert_all(s, ws), k) <==> (has_key(s, k) || written(ws, k)),
        forall|k: Seq<char>| written(ws, k) ==> #[trigger] lookup(insert_all(s, ws), k) == Some(last_write(ws, k)),
    decreases ws.len(),
{
    if ws.len() > 0 {
        let p = ws.drop_last();
        lemma_insert_all_lookup(s, p);
        let prev = insert_all(s, p);
        let (k, v) = ws.last();
        lemma_insert_entry(prev, k, v);
        let t = insert_all(s, ws);
        assert(t == insert_entry(prev, k, v));
        assert(ws[ws.len() - 1] == ws.last());
        assert forall|k2: Seq<char>| #[trigger] has_key(t, k2) <==> (has_key(s, k2) || written(ws, k2)) by {
            lemma_written_step(ws, k2);
            assert(has_key(prev, k2) <==> (has_key(s, k2) || written(p, k2)));
            if k2 != k {
                assert(has_key(t, k2) <==> has_key(prev, k2));
            }
        }
        assert forall|k2: Seq<char>| written(ws, k2) implies #[trigger] lookup(t, k2) == Some(last_write(ws, k2)) by {
            lemma_written_step(ws, k2);
            if k2 != k {
                assert(written(p, k2));
                assert(lookup(prev, k2) == Some(last_write(p, k2)));
                assert(lookup(t, k2) == lookup(prev, k2));
            }
        }
    }
}

/// Writing the same sequence a second time changes nothing.
pub proof fn lemma_insert_all_twice<W>(s: Seq<(Seq<char>, W)>, ws: Seq<(Seq<char>, W)>)
    requires
        keys_unique(s),
    ensures
        insert_all(insert_all(s, ws), ws) == insert_all(s, ws),
{
    let t = insert_all(s, ws);
    lemma_insert_all_lookup(s, ws);
    assert forall|j: int| 0 <= j < ws.len() implies has_key(t, #[trigger] ws[j].0) by {
        assert(written(ws, ws[j].0));
    }
    lemma_insert_all_in_place(t, ws);
    assert forall|i: int| 0 <= i < t.len() implies #[trigger] insert_all(t, ws)[i] == t[i] by {
        if written(ws, t[i].0) {
            lemma_unique_index(t, i);
        }
    }
    assert(insert_all(t, ws) =~= t);
}

/// Writing two sequences one after the other is writing their concatenation.
pub proof fn lemma_insert_all_concat<W>(s: Seq<(Seq<char>, W)>, w1: Seq<(Seq<char>, W)>, w2: Seq<(Seq<char>, W)>)
    ensures
        insert_all(s, w1 + w2) == insert_all(insert_all(s, w1), w2),
    decreases w2.len(),
{
    if w2.len() == 0 {
        assert(w1 + w2 =~= w1);
    } else {
        lemma_insert_all_concat(s, w1, w2.drop_last());
        assert((w1 + w2).drop_last() =~= w1 + w2.drop_last());
        assert((w1 + w2).last() == w2.last());
    }
}

/// An ordered map from text keys to values; no key occurs twice.
#[derive(Debug)]
pub struct StrMap<V> {
    keys: Vec<String>,
    values: Vec<V>,
}

impl<V: View> View for StrMap<V> {
    type V = Seq<(Seq<char>, V::V)>;

    closed spec fn view(&self) -> Seq<(Seq<char>, V::V)> {
        Seq::new(self.keys@.len(), |i: int| (self.keys@[i]@, self.values@[i]@))
    }
}

impl<V> StrMap<V> {
    #[verifier::type_invariant]
    spec fn inv(&self) -> bool {
        &&& self.keys@.len() == self.values@.len()
        &&& forall|i: int, j: int|
            0 <= i < self.keys@.len() && 0 <= j < self.keys@.len() && i != j
                ==> self.keys@[i]@ != self.keys@[j]@
    }
}

impl<V: View> StrMap<V> {
    proof fn lemma_view(&self)
        requires
            self.inv(),
        ensures
            self@.len() == self.keys@.len(),
            self@.len() == self.values@.len(),
            forall|i: int| 0 <= i < self@.len() ==> #[trigger] self@[i] == (self.keys@[i]@, self.values@[i]@),
            keys_unique(self@),
    {
    }

    pub fn new() -> (r: Self)
        ensures
            r@ == Seq::<(Seq<char>, V::V)>::empty(),
    {
        let r = StrMap { keys: Vec::new(), values: Vec::new() };
        assert(r@ =~= Seq::<(Seq<char>, V::V)>::empty());
        r
    }

    /// Number of entries.
    pub fn len(&self) -> (r: usize)
        ensures
            r == self@.len(),
            keys_unique(self@),
    {
        proof {
            use_type_invariant(self);
            self.lemma_view();
        }
        self.keys.len()
    }

    /// Position of the entry under `k`, if there is one.
    pub fn position(&self, k: &str) -> (r: Option<usize>)
        ensures
            r is Some <==> has_key(self@, k@),
            r matches Some(i) ==> i == index_of(self@, k@) && i < self@.len() && self@[i as int].0 == k@,
    {
        proof {
            use_type_invariant(self);
            self.lemma_view();
            lemma_index_of(self@, k@);
        }
        let mut i: usize = 0;
        while i < self.keys.len()
            invariant
                i <= self.keys@.len(),
                self.inv(),
                forall|j: int| 0 <= j < i ==> self@[j].0 != k@,
            decreases self.keys@.len() - i,
        {
            proof {
                self.lemma_view();
            }
            if same_text(self.keys[i].as_str(), k) {
                proof {
                    assert(self@[i as int].0 == k@);
                    lemma_unique_index(self@, i as int);
                }
                return Some(i);
            }
            i = i + 1;
        }
        proof {
            self.lemma_view();
            if has_key(self@, k@) {
                let j = choose|j: int| 0 <= j < self@.len() && #[trigger] self@[j].0 == k@;
            }
        }
        None
    }

    /// Whether some entry has key `k`.
    pub fn contains_key(&self, k: &str) -> (r: bool)
        ensures
            r == has_key(self@, k@),
            keys_unique(self@),
    {
        proof {
            use_type_invariant(self);
            self.lemma_view();
        }
        self.position(k).is_some()
    }

    /// The value under `k`, if any.
    pub fn get(&self, k: &str) -> (r: Option<&V>)
        ensures
            r is Some <==> has_key(self@, k@),
            lookup(self@, k@) == (match r {
                Some(v) => Some(v@),
                None => None,
            }),
    {
        proof {
            use_type_invariant(self);
            self.lemma_view();
            lemma_index_of(self@, k@);
        }
        match self.position(k) {
            Some(i) => Some(&self.values[i]),
            None => None,
        }
    }

    /// The value under `k`, if any, for writing.
    pub fn get_mut(&mut self, k: &str) -> (r: Option<&mut V>)
        ensures
            r is Some <==> has_key(old(self)@, k@),
            r is None ==> final(self)@ == old(self)@,
            r matches Some(v) ==> lookup(old(self)@, k@) == Some(v@)
                && final(self)@ == insert_entry(old(self)@, k@, final(v)@),
    {
        proof {
            use_type_invariant(&*self);
            self.lemma_view();
            lemma_index_of(self@, k@);
        }
        match self.position(k) {
            Some(i) => Some(self.value_mut_at(i)),
            None => None,
        }
    }

    /// The key of the entry at `i`.
    pub fn key_at(&self, i: usize) -> (r: &String)
        requires
            i < self@.len(),
        ensures
            r@ == self@[i as int].0,
    {
        proof {
            use_type_invariant(self);
            self.lemma_view();
        }
        &self.keys[i]
    }

    /// The value of the entry at `i`.
    pub fn value_at(&self, i: usize) -> (r: &V)
        requires
            i < self@.len(),
        ensures
            r@ == self@[i as int].1,
    {
        proof {
            use_type_invariant(self);
            self.lemma_view();
        }
        &self.values[i]
    }

    /// The value of the entry at `i`, for writing.
    pub fn value_mut_at(&mut self, i: usize) -> (r: &mut V)
        requires
            i < old(self)@.len(),
        ensures
            r@ == old(self)@[i as int].1,
            final(self)@ == old(self)@.update(i as int, (old(self)@[i as int].0, final(r)@)),
        no_unwind
    {
        proof {
            use_type_invariant(&*self);
            self.lemma_view();
        }
        let r = &mut self.values[i];
        r
    }

    /// Writes `v` under `k`; an existing entry keeps its place, a new one goes last.
    pub fn insert(&mut self, k: String, v: V)
        ensures
            final(self)@ == insert_entry(old(self)@, k@, v@),
    {
        proof {
            use_type_invariant(&*self);
            self.lemma_view();
            lemma_index_of(self@, k@);
        }
        match self.position(k.as_str()) {
            Some(i) => {
                let r = self.value_mut_at(i);
                *r = v;
                proof {
                    assert(self@ =~= insert_entry(old(self)@, k@, v@));
                }
            },
            None => {
                let mut taken = StrMap::new();
                std::mem::swap(self, &mut taken);
                proof {
                    use_type_invariant(&taken);
                }
                let StrMap { mut keys, mut values } = taken;
                let ghost before = keys@;
                keys.push(k);
                values.push(v);
                proof {
                    assert forall|a: int, b: int|
                        0 <= a < keys@.len() && 0 <= b < keys@.len() && a != b
                        implies keys@[a]@ != keys@[b]@ by {
                        if a < before.len() && b < before.len() {
                            assert(keys@[a] == before[a] && keys@[b] == before[b]);
                        } else if a < before.len() {
                            assert(keys@[a] == before[a]);
                            assert(old(self)@[a].0 != k@);
                        } else {
                            assert(keys@[b] == before[b]);
                            assert(old(self)@[b].0 != k@);
                        }
                    }
                }
                *self = StrMap { keys, values };
                proof {
                    self.lemma_view();
                    assert(self@ =~= insert_entry(old(self)@, k@, v@));
                }
            },
        }
    }

    /// The keys, in order.
    pub fn keys(&self) -> (r: Vec<String>)
        ensures
            r@.map_values(|s: String| s@) == keys_of(self@),
    {
        proof {
            use_type_invariant(self);
            self.lemma_view();
        }
        let mut r: Vec<String> = Vec::new();
        let mut i: usize = 0;
        while i < self.keys.len()
            invariant
                i <= self.keys@.len(),
                self.inv(),
                r@.len() == i,
                forall|j: int| 0 <= j < i ==> #[trigger] r@[j]@ == self@[j].0,
            decreases self.keys@.len() - i,
        {
            proof {
                self.lemma_view();
            }
            r.push(self.keys[i].clone());
            i = i + 1;
        }
        proof {
            self.lemma_view();
        }
        assert(r@.map_values(|s: String| s@) =~= keys_of(self@));
        r
    }
}

} // verus!

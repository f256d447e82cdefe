//! The bounded in-memory key/value store with insertion-order FIFO eviction,
//! and the shared application state that owns it.

use crate::text::str_eq;
use std::collections::VecDeque;
use vstd::prelude::*;

verus! {

/// Keys of an association list are pairwise distinct.
pub open spec fn keys_distinct(s: Seq<(String, String)>) -> bool {
    forall|i: int, j: int|
        0 <= i < j < s.len() ==> (#[trigger] s[i].0@) != (#[trigger] s[j].0@)
}

/// The mapping that an association list denotes: later entries win.
pub open spec fn assoc_view(s: Seq<(String, String)>) -> Map<Seq<char>, Seq<char>>
    decreases s.len(),
{
    if s.len() == 0 {
        Map::empty()
    } else {
        assoc_view(s.drop_last()).insert(s.last().0@, s.last().1@)
    }
}

proof fn lemma_assoc_view_contains(s: Seq<(String, String)>, k: Seq<char>)
    ensures
        assoc_view(s).contains_key(k) <==> exists|i: int|
            0 <= i < s.len() && (#[trigger] s[i].0@) == k,
    decreases s.len(),
{
    if s.len() > 0 {
        lemma_assoc_view_contains(s.drop_last(), k);
        if s.last().0@ == k {
            assert(s[s.len() - 1].0@ == k);
        } else if assoc_view(s).contains_key(k) {
            let i = choose|i: int| 0 <= i < s.drop_last().len() && (#[trigger] s.drop_last()[i].0@)
                == k;
            assert(s[i].0@ == k);
        } else {
            assert forall|i: int| 0 <= i < s.len() implies (#[trigger] s[i].0@) != k by {
                if i < s.len() - 1 {
                    assert(s.drop_last()[i].0@ != k);
                }
            }
        }
    }
}

proof fn lemma_assoc_view_index(s: Seq<(String, String)>, i: int)
    requires
        keys_distinct(s),
        0 <= i < s.len(),
    ensures
        assoc_view(s).contains_key(s[i].0@),
        assoc_view(s)[s[i].0@] == s[i].1@,
    decreases s.len(),
{
    if i == s.len() - 1 {
    } else {
        lemma_assoc_view_index(s.drop_last(), i);
        assert(s.drop_last()[i] == s[i]);
        assert(s.last().0@ != s[i].0@);
    }
}

proof fn lemma_assoc_view_len(s: Seq<(String, String)>)
    requires
        keys_distinct(s),
    ensures
        assoc_view(s).dom().finite(),
        assoc_view(s).len() == s.len(),
    decreases s.len(),
{
    if s.len() > 0 {
        lemma_assoc_view_len(s.drop_last());
        lemma_assoc_view_contains(s.drop_last(), s.last().0@);
        assert forall|i: int| 0 <= i < s.drop_last().len() implies (#[trigger] s.drop_last()[i].0@)
            != s.last().0@ by {
            assert(s[i].0@ != s[s.len() - 1].0@);
        }
        assert(!assoc_view(s.drop_last()).contains_key(s.last().0@));
    }
}

proof fn lemma_assoc_update(s: Seq<(String, String)>, i: int, p: (String, String))
    requires
        keys_distinct(s),
        0 <= i < s.len(),
        p.0@ == s[i].0@,
    ensures
        assoc_view(s.update(i, p)) == assoc_view(s).insert(p.0@, p.1@),
        keys_distinct(s.update(i, p)),
    decreases s.len(),
{
    let n = s.len() - 1;
    if i == n {
        assert(s.update(i, p).drop_last() =~= s.drop_last());
        assert(assoc_view(s.update(i, p)) =~= assoc_view(s).insert(p.0@, p.1@));
    } else {
        lemma_assoc_update(s.drop_last(), i, p);
        assert(s.update(i, p).drop_last() =~= s.drop_last().update(i, p));
        assert(s.update(i, p).last() == s.last());
        assert(s[i].0@ != s[n].0@);
        assert(assoc_view(s.update(i, p)) =~= assoc_view(s).insert(p.0@, p.1@));
        assert forall|a: int, b: int| 0 <= a < b < s.len() implies (#[trigger] s.update(i, p)[a].0@)
            != (#[trigger] s.update(i, p)[b].0@) by {
            assert(s[a].0@ != s[b].0@);
        }
    }
}

proof fn lemma_assoc_remove(s: Seq<(String, String)>, i: int)
    requires
        keys_distinct(s),
        0 <= i < s.len(),
    ensures
        assoc_view(s.remove(i)) == assoc_view(s).remove(s[i].0@),
        keys_distinct(s.remove(i)),
    decreases s.len(),
{
    let n = s.len() - 1;
    assert forall|a: int, b: int| 0 <= a < b < s.remove(i).len() implies (#[trigger] s.remove(
        i,
    )[a].0@) != (#[trigger] s.remove(i)[b].0@) by {
        let a0 = if a < i { a } else { a + 1 };
        let b0 = if b < i { b } else { b + 1 };
        assert(s.remove(i)[a] == s[a0]);
        assert(s.remove(i)[b] == s[b0]);
        assert(s[a0].0@ != s[b0].0@);
    }
    if i == n {
        assert(s.remove(i) =~= s.drop_last());
        lemma_assoc_view_contains(s.drop_last(), s[i].0@);
        assert forall|a: int| 0 <= a < s.drop_last().len() implies (#[trigger] s.drop_last()[a].0@)
            != s[i].0@ by {
            assert(s[a].0@ != s[n].0@);
        }
        assert(!assoc_view(s.drop_last()).contains_key(s[i].0@));
        assert(assoc_view(s.remove(i)) =~= assoc_view(s).remove(s[i].0@));
    } else {
        lemma_assoc_remove(s.drop_last(), i);
        assert(s.remove(i).drop_last() =~= s.drop_last().remove(i));
        assert(s.remove(i).last() == s.last());
        assert(s[i].0@ != s[n].0@);
        assert(assoc_view(s.remove(i)) =~= assoc_view(s).remove(s[i].0@));
    }
}

/// The index of the first key in `o` that is still present in `m`, or -1 if
/// none is: the entry that FIFO eviction removes.
pub open spec fn first_live(o: Seq<Seq<char>>, m: Map<Seq<char>, Seq<char>>) -> int
    decreases o.len(),
{
    if o.len() == 0 {
        -1
    } else if m.contains_key(o[0]) {
        0
    } else if first_live(o.drop_first(), m) < 0 {
        -1
    } else {
        first_live(o.drop_first(), m) + 1
    }
}

proof fn lemma_first_live_skip(o: Seq<Seq<char>>, m: Map<Seq<char>, Seq<char>>, t: int)
    requires
        0 <= t <= o.len(),
        forall|s: int| 0 <= s < t ==> !m.contains_key(#[trigger] o[s]),
    ensures
        first_live(o, m) == if first_live(o.skip(t), m) >= 0 {
            first_live(o.skip(t), m) + t
        } else {
            -1
        },
    decreases t,
{
    if t == 0 {
        assert(o.skip(0) =~= o);
    } else {
        assert(!m.contains_key(o[0]));
        lemma_first_live_skip(o.drop_first(), m, t - 1);
        assert(o.drop_first().skip(t - 1) =~= o.skip(t));
    }
}

/// What one `set` call does to the store: the new mapping and the new
/// insertion-order sequence, for a store with mapping `m`, order `o` and
/// capacity `cap`. An existing key is overwritten in place; a new key first
/// evicts the oldest still-present key if the store is full, skipping order
/// entries that are no longer present.
pub open spec fn store_set_spec(
    m: Map<Seq<char>, Seq<char>>,
    o: Seq<Seq<char>>,
    cap: nat,
    k: Seq<char>,
    v: Seq<char>,
) -> (Map<Seq<char>, Seq<char>>, Seq<Seq<char>>) {
    if m.contains_key(k) {
        (m.insert(k, v), o)
    } else if m.len() < cap {
        (m.insert(k, v), o.push(k))
    } else {
        let j = first_live(o, m);
        if j < 0 {
            (m.insert(k, v), seq![k])
        } else {
            (m.remove(o[j]).insert(k, v), o.subrange(j + 1, o.len() as int).push(k))
        }
    }
}

/// The store: a bounded mapping from keys to values, plus the sequence of
/// first-insertion order that eviction follows.
pub struct HostStore {
    map: Vec<(String, String)>,
    order: VecDeque<String>,
    cap: usize,
}

impl View for HostStore {
    type V = Map<Seq<char>, Seq<char>>;

    closed spec fn view(&self) -> Map<Seq<char>, Seq<char>> {
        assoc_view(self.map@)
    }
}

/// Find the index of `key` in the association list, if present.
fn find_key(map: &Vec<(String, String)>, key: &str) -> (r: Option<usize>)
    ensures
        match r {
            Some(i) => i < map@.len() && map@[i as int].0@ == key@,
            None => forall|i: int| 0 <= i < map@.len() ==> (#[trigger] map@[i].0@) != key@,
        },
{
    let mut i: usize = 0;
    while i < map.len()
        invariant
            i <= map@.len(),
            forall|j: int| 0 <= j < i ==> (#[trigger] map@[j].0@) != key@,
        decreases map@.len() - i,
    {
        if str_eq(map[i].0.as_str(), key) {
            return Some(i);
        }
        i = i + 1;
    }
    None
}

impl HostStore {
    #[verifier::type_invariant]
    spec fn wf(&self) -> bool {
        keys_distinct(self.map@)
    }

    /// The keys still recorded as insertion order, oldest first.
    pub closed spec fn order_view(&self) -> Seq<Seq<char>> {
        self.order@.map_values(|s: String| s@)
    }

    /// The capacity bound the store was created with.
    pub closed spec fn capacity(&self) -> nat {
        self.cap as nat
    }

    /// A fresh, empty store with the given capacity.
    pub fn new(cap: usize) -> (s: Self)
        ensures
            s@ == Map::<Seq<char>, Seq<char>>::empty(),
            s.order_view() == Seq::<Seq<char>>::empty(),
            s.capacity() == cap as nat,
    {
        let s = HostStore { map: Vec::new(), order: VecDeque::new(), cap };
        proof {
            assert(s.order_view() =~= Seq::<Seq<char>>::empty());
        }
        s
    }

    /// Look a key up without touching the store. Returns the stored value
    /// exactly when the key is present.
    pub fn get(&self, key: &str) -> (r: Option<String>)
        ensures
            r is Some <==> self@.contains_key(key@),
            r matches Some(v) ==> v@ == self@[key@],
    {
        proof {
            use_type_invariant(self);
        }
        match find_key(&self.map, key) {
            Some(i) => {
                proof {
                    lemma_assoc_view_index(self.map@, i as int);
                }
                Some(self.map[i].1.clone())
            },
            None => {
                proof {
                    lemma_assoc_view_contains(self.map@, key@);
                }
                None
            },
        }
    }

    /// Insert or overwrite a key. A new key may first evict the oldest
    /// still-present key when the store is at capacity; overwriting never
    /// evicts and never changes the key's position in the order.
    pub fn set(&mut self, key: String, value: String)
        ensures
            final(self).capacity() == old(self).capacity(),
            ({
                let r = store_set_spec(
                    old(self)@,
                    old(self).order_view(),
                    old(self).capacity(),
                    key@,
                    value@,
                );
                final(self)@ == r.0 && final(self).order_view() == r.1
            }),
    {
        proof {
            use_type_invariant(&*self);
        }
        let ghost kview = key@;
        let ghost vview = value@;
        let mut map: Vec<(String, String)> = Vec::new();
        let mut order: VecDeque<String> = VecDeque::new();
        std::mem::swap(&mut map, &mut self.map);
        std::mem::swap(&mut order, &mut self.order);
        let cap = self.cap;
        let ghost mseq0 = map@;
        let ghost o0 = order@.map_values(|s: String| s@);
        let ghost m0 = assoc_view(mseq0);
        proof {
            lemma_assoc_view_len(mseq0);
            lemma_assoc_view_contains(mseq0, kview);
        }
        match find_key(&map, key.as_str()) {
            Some(i) => {
                proof {
                    assert(m0.contains_key(kview));
                }
                let _ = map.remove(i);
                map.insert(i, (key, value));
                proof {
                    assert(map@ =~= mseq0.update(i as int, map@[i as int]));
                    assert(map@[i as int].0@ == kview && map@[i as int].1@ == vview);
                    lemma_assoc_update(mseq0, i as int, map@[i as int]);
                }
            },
            None => {
                proof {
                    assert(!m0.contains_key(kview));
                }
                if map.len() >= cap {
                    let ghost mut t: int = 0;
                    proof {
                        assert(o0.skip(0) =~= o0);
                    }
                    loop
                        invariant_except_break
                            map@ == mseq0,
                            m0 == assoc_view(mseq0),
                            keys_distinct(mseq0),
                            0 <= t <= o0.len(),
                            order@.map_values(|s: String| s@) == o0.skip(t),
                            forall|s: int| 0 <= s < t ==> !m0.contains_key(#[trigger] o0[s]),
                        ensures
                            keys_distinct(map@),
                            ({
                                let j = first_live(o0, m0);
                                if j >= 0 {
                                    assoc_view(map@) == m0.remove(o0[j]) && order@.map_values(
                                        |s: String| s@,
                                    ) == o0.skip(j + 1)
                                } else {
                                    assoc_view(map@) == m0 && order@.len() == 0
                                }
                            }),
                        decreases o0.len() - t,
                    {
                        proof {
                            assert(order@.map_values(|s: String| s@) =~= o0.skip(t));
                        }
                        let ghost oseq_prev = order@;
                        match order.pop_front() {
                            None => {
                                proof {
                                    assert(oseq_prev.map_values(|s: String| s@).len()
                                        == oseq_prev.len());
                                    assert(o0.skip(t).len() == 0);
                                    lemma_first_live_skip(o0, m0, t);
                                    assert(first_live(o0, m0) == -1);
                                }
                                break ;
                            },
                            Some(oldest) => {
                                proof {
                                    assert(oseq_prev.map_values(|s: String| s@).len()
                                        == oseq_prev.len());
                                    assert(o0.skip(t).len() == o0.len() - t);
                                    assert(t < o0.len());
                                    assert(oldest@ == oseq_prev.map_values(|s: String| s@)[0]);
                                    assert(oldest@ == o0.skip(t)[0]);
                                    assert(oldest@ == o0[t]);
                                    assert forall|k: int|
                                        0 <= k < order@.len() implies (#[trigger] order@[k])@ == o0.skip(
                                        t + 1,
                                    )[k] by {
                                        assert(order@.len() == oseq_prev.len() - 1);
                                        assert(o0.skip(t + 1).len() == o0.len() - t - 1);
                                        assert(order@[k] == oseq_prev[k + 1]);
                                        assert(o0.skip(t + 1)[k] == o0[t + 1 + k]);
                                        assert(oseq_prev.map_values(|s: String| s@)[k + 1] == o0.skip(
                                            t,
                                        )[k + 1]);
                                    }
                                    assert(order@.map_values(|s: String| s@) =~= o0.skip(t + 1));
                                }
                                match find_key(&map, oldest.as_str()) {
                                    Some(i) => {
                                        proof {
                                            assert(mseq0[i as int].0@ == oldest@);
                                            lemma_assoc_view_index(mseq0, i as int);
                                            assert(m0.contains_key(o0[t]));
                                            assert(o0.skip(t)[0] == o0[t]);
                                            assert(first_live(o0.skip(t), m0) == 0);
                                            lemma_first_live_skip(o0, m0, t);
                                            assert(first_live(o0, m0) == t);
                                            lemma_assoc_remove(mseq0, i as int);
                                        }
                                        let _ = map.remove(i);
                                        break ;
                                    },
                                    None => {
                                        proof {
                                            lemma_assoc_view_contains(mseq0, oldest@);
                                            assert(!m0.contains_key(o0[t]));
                                            t = t + 1;
                                        }
                                    },
                                }
                            },
                        }
                    }
                }
                let ghost mseq1 = map@;
                let ghost oseq1 = order@;
                let ghost o1 = order@.map_values(|s: String| s@);
                order.push_back(key.clone());
                map.push((key, value));
                proof {
                    let p = map@.last();
                    assert(p.0@ == kview && p.1@ == vview);
                    assert(map@.drop_last() =~= mseq1);
                    assert(assoc_view(map@) == assoc_view(mseq1).insert(kview, vview));
                    assert(order@ == oseq1.push(order@.last()));
                    assert(order@.last()@ == kview);
                    assert forall|k: int|
                        0 <= k < order@.len() implies (#[trigger] order@[k])@ == o1.push(kview)[k] by {
                        if k < order@.len() - 1 {
                            assert(order@[k] == oseq1[k]);
                        }
                    }
                    assert(order@.map_values(|s: String| s@) =~= o1.push(kview));
                    assert forall|a: int|
                        0 <= a < mseq1.len() implies (#[trigger] mseq1[a].0@) != kview by {
                        lemma_assoc_view_index(mseq1, a);
                        assert(assoc_view(mseq1).contains_key(mseq1[a].0@));
                    }
                    assert forall|a: int, b: int|
                        0 <= a < b < map@.len() implies (#[trigger] map@[a].0@) != (
                    #[trigger] map@[b].0@) by {
                        if b < map@.len() - 1 {
                            assert(mseq1[a].0@ != mseq1[b].0@);
                        } else {
                            assert(map@[a] == mseq1[a]);
                        }
                    }
                    if m0.len() < cap as nat {
                        assert(o1 == o0);
                        assert(assoc_view(mseq1) == m0);
                    } else {
                        let j = first_live(o0, m0);
                        if j >= 0 {
                            assert(o1 == o0.skip(j + 1));
                            assert(o0.skip(j + 1) =~= o0.subrange(j + 1, o0.len() as int));
                        } else {
                            assert(o1.push(kview) =~= seq![kview]);
                        }
                    }
                }
            },
        }
        proof {
            assert(keys_distinct(map@));
        }
        self.map = map;
        self.order = order;
    }
}

#[verifier::external_type_specification]
#[verifier::external_body]
#[verifier::reject_recursive_types(T)]
pub struct ExMutex<T: ?Sized>(std::sync::Mutex<T>);

/// Relies on std::sync::Mutex::new: wraps the store in a lock that hands out
/// exclusive access.
#[verifier::external_body]
fn new_store_mutex(store: HostStore) -> std::sync::Mutex<HostStore> {
    std::sync::Mutex::new(store)
}

/// The shared application state: the one long-lived store, behind one
/// mutual-exclusion lock that the host runtime takes for the duration of
/// each store command.
pub struct HostState {
    pub store: std::sync::Mutex<HostStore>,
}

impl HostState {
    /// A state holding a fresh, empty store with the default capacity.
    pub fn new() -> Self {
        HostState { store: new_store_mutex(HostStore::new(crate::STORE_CAP)) }
    }
}

/// The store state reached from mapping `m` and order `o` after setting each
/// of `keys` to the value of the same position in `vals`, in order.
pub open spec fn run_store_sets(
    m: Map<Seq<char>, Seq<char>>,
    o: Seq<Seq<char>>,
    cap: nat,
    keys: Seq<Seq<char>>,
    vals: Seq<Seq<char>>,
) -> (Map<Seq<char>, Seq<char>>, Seq<Seq<char>>)
    decreases keys.len(),
{
    if keys.len() == 0 {
        (m, o)
    } else {
        let prev = run_store_sets(m, o, cap, keys.drop_last(), vals.drop_last());
        store_set_spec(prev.0, prev.1, cap, keys.last(), vals.last())
    }
}

proof fn lemma_fill_below_cap(cap: nat, keys: Seq<Seq<char>>, vals: Seq<Seq<char>>, j: int)
    requires
        keys.no_duplicates(),
        vals.len() == keys.len(),
        0 <= j <= keys.len(),
        j <= cap,
    ensures
        ({
            let r = run_store_sets(
                Map::empty(),
                Seq::empty(),
                cap,
                keys.take(j),
                vals.take(j),
            );
            &&& r.0.dom().finite()
            &&& r.0.len() == j
            &&& r.1 == keys.take(j)
            &&& forall|i: int|
                0 <= i < j ==> r.0.contains_key(#[trigger] keys[i]) && r.0[keys[i]] == vals[i]
            &&& forall|k: Seq<char>|
                #[trigger] r.0.contains_key(k) ==> exists|i: int| 0 <= i < j && keys[i] == k
        }),
    decreases j,
{
    if j > 0 {
        lemma_fill_below_cap(cap, keys, vals, j - 1);
        assert(keys.take(j).drop_last() =~= keys.take(j - 1));
        assert(vals.take(j).drop_last() =~= vals.take(j - 1));
        let prev = run_store_sets(Map::empty(), Seq::empty(), cap, keys.take(j - 1), vals.take(j - 1));
        let kj = keys[j - 1];
        assert(keys.take(j).last() == kj);
        assert(vals.take(j).last() == vals[j - 1]);
        assert(!prev.0.contains_key(kj)) by {
            if prev.0.contains_key(kj) {
                let i = choose|i: int| 0 <= i < j - 1 && keys[i] == kj;
                assert(keys[i] == keys[j - 1]);
            }
        }
        let r = run_store_sets(Map::empty(), Seq::empty(), cap, keys.take(j), vals.take(j));
        assert(r.0 == prev.0.insert(kj, vals[j - 1]));
        assert(r.1 =~= keys.take(j));
        assert forall|k: Seq<char>| #[trigger] r.0.contains_key(k) implies exists|i: int|
            0 <= i < j && keys[i] == k by {
            if k == kj {
                assert(keys[j - 1] == k);
            } else {
                assert(prev.0.contains_key(k));
            }
        }
    } else {
        assert(keys.take(0) =~= Seq::<Seq<char>>::empty());
        assert(vals.take(0) =~= Seq::<Seq<char>>::empty());
        assert(run_store_sets(Map::empty(), Seq::empty(), cap, keys.take(0), vals.take(0)).0
            =~= Map::<Seq<char>, Seq<char>>::empty());
    }
}

/// FIFO eviction order: filling an empty store of capacity `cap` with
/// `cap + 1` distinct keys, in order, evicts exactly the first key; every
/// later key is still present with the value it was given.
pub proof fn lemma_eviction_order(cap: nat, keys: Seq<Seq<char>>, vals: Seq<Seq<char>>)
    requires
        cap >= 1,
        keys.no_duplicates(),
        keys.len() == cap + 1,
        vals.len() == keys.len(),
    ensures
        ({
            let r = run_store_sets(Map::empty(), Seq::empty(), cap, keys, vals);
            &&& !r.0.contains_key(keys[0])
            &&& forall|i: int|
                1 <= i < keys.len() ==> r.0.contains_key(#[trigger] keys[i]) && r.0[keys[i]]
                    == vals[i]
        }),
{
    let n = cap as int;
    lemma_fill_below_cap(cap, keys, vals, n);
    let prev = run_store_sets(Map::empty(), Seq::empty(), cap, keys.take(n), vals.take(n));
    assert(keys.drop_last() =~= keys.take(n));
    assert(vals.drop_last() =~= vals.take(n));
    let r = run_store_sets(Map::empty(), Seq::empty(), cap, keys, vals);
    assert(r == store_set_spec(prev.0, prev.1, cap, keys.last(), vals.last()));
    let kn = keys[n];
    assert(keys.last() == kn);
    assert(!prev.0.contains_key(kn)) by {
        if prev.0.contains_key(kn) {
            let i = choose|i: int| 0 <= i < n && keys[i] == kn;
            assert(keys[i] == keys[n]);
        }
    }
    assert(prev.1[0] == keys.take(n)[0]);
    assert(prev.0.contains_key(keys[0]));
    assert(first_live(prev.1, prev.0) == 0);
    assert(r.0 == prev.0.remove(keys[0]).insert(kn, vals[n]));
    assert(keys[0] != kn);
    assert forall|i: int| 1 <= i < keys.len() implies r.0.contains_key(#[trigger] keys[i])
        && r.0[keys[i]] == vals[i] by {
        if i < n {
            assert(prev.0.contains_key(keys[i]));
            assert(keys[i] != keys[0]);
        }
    }
}

/// Update stability: setting a key that is already present changes neither
/// the set of stored keys, nor the store's size, nor the eviction order.
pub proof fn lemma_update_stability(
    m: Map<Seq<char>, Seq<char>>,
    o: Seq<Seq<char>>,
    cap: nat,
    k: Seq<char>,
    v: Seq<char>,
)
    requires
        m.contains_key(k),
    ensures
        ({
            let r = store_set_spec(m, o, cap, k, v);
            &&& r.1 == o
            &&& r.0.dom() == m.dom()
            &&& r.0.len() == m.len()
            &&& r.0[k] == v
        }),
{
    assert(m.insert(k, v).dom() =~= m.dom());
}

/// Round trip: immediately after a key is set, it is present and holds the
/// value it was set to, whatever the store held before.
pub proof fn lemma_set_get_round_trip(
    m: Map<Seq<char>, Seq<char>>,
    o: Seq<Seq<char>>,
    cap: nat,
    k: Seq<char>,
    v: Seq<char>,
)
    ensures
        ({
            let r = store_set_spec(m, o, cap, k, v);
            r.0.contains_key(k) && r.0[k] == v
        }),
{
}

} // verus!

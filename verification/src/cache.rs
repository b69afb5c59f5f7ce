//! The result cache: computed entries by query and resource path, with at
//! most one computation under way for each key.

use vstd::prelude::*;
use vstd::string::*;
use crate::assoc::{
    entries_map, has_key, keys_distinct, lemma_entries_map, lemma_push_entry, lemma_remove_entry,
    lemma_update_entry,
};
use crate::text::str_eq;

verus! {

/// What an entry is cached under: the query that was asked and the resource
/// that it was asked of. Two keys are the same when both parts are.
#[derive(Clone, Debug, PartialEq, Eq)]
pub struct CacheKey {
    pub query: String,
    pub path: String,
}

impl View for CacheKey {
    type V = (Seq<char>, Seq<char>);

    open spec fn view(&self) -> (Seq<char>, Seq<char>) {
        (self.query@, self.path@)
    }
}

impl CacheKey {
    /// Whether two keys are the same, part by part.
    pub fn same(&self, other: &CacheKey) -> (same: bool)
        ensures
            same == (self@ == other@),
    {
        str_eq(self.query.as_str(), other.query.as_str()) && str_eq(
            self.path.as_str(),
            other.path.as_str(),
        )
    }
}

/// What a caller is told who asks for the entry of a key.
#[derive(Clone, Copy, Debug, PartialEq, Eq, Structural)]
pub enum Lookup {
    /// The entry is cached.
    Hit,
    /// Nothing is cached and nobody computes it: the caller computes the
    /// entry and reports the outcome.
    Compute,
    /// Nothing is cached yet, and another caller computes the entry: the
    /// caller waits for that outcome.
    Wait,
}

/// The keys of a vector of keyed values.
pub open spec fn keyed<V>(v: Seq<(CacheKey, V)>) -> Seq<((Seq<char>, Seq<char>), V)> {
    Seq::new(v.len(), |i: int| (v[i].0@, v[i].1))
}

/// The keys of a vector of keys.
pub open spec fn key_views(v: Seq<CacheKey>) -> Seq<(Seq<char>, Seq<char>)> {
    Seq::new(v.len(), |i: int| v[i]@)
}

/// Whether `prefix` is how `text` starts.
pub open spec fn starts_with(text: Seq<char>, prefix: Seq<char>) -> bool {
    prefix.len() <= text.len() && text.subrange(0, prefix.len() as int) == prefix
}

/// Whether `prefix` is how `text` starts.
pub fn has_prefix(text: &str, prefix: &str) -> (yes: bool)
    ensures
        yes == starts_with(text@, prefix@),
{
    let n = prefix.unicode_len();
    if n > text.unicode_len() {
        return false;
    }
    let mut i: usize = 0;
    while i < n
        invariant
            n == prefix@.len(),
            n <= text@.len(),
            i <= n,
            forall|j: int| 0 <= j < i ==> text@[j] == prefix@[j],
        decreases n - i,
    {
        if text.get_char(i) != prefix.get_char(i) {
            proof {
                assert(text@.subrange(0, n as int)[i as int] == text@[i as int]);
            }
            return false;
        }
        i += 1;
    }
    proof {
        assert(text@.subrange(0, n as int) =~= prefix@);
    }
    true
}

/// Appending a key that a list without duplicates does not hold adds it
/// to the set of its keys; taking one position out removes its key.
pub proof fn lemma_key_list<K>(keys: Seq<K>, k: K, i: int)
    requires
        keys.no_duplicates(),
    ensures
        !keys.contains(k) ==> keys.push(k).no_duplicates() && keys.push(k).to_set()
            == keys.to_set().insert(k),
        0 <= i < keys.len() ==> keys.remove(i).no_duplicates() && keys.remove(i).to_set()
            == keys.to_set().remove(keys[i]),
{
    if !keys.contains(k) {
        let more = keys.push(k);
        assert forall|x: K| more.to_set().contains(x) <==> keys.to_set().insert(k).contains(
            x,
        ) by {
            if more.contains(x) {
                let j = choose|j: int| 0 <= j < more.len() && more[j] == x;
                if j < keys.len() {
                    assert(keys[j] == x);
                }
            }
            if keys.contains(x) {
                let j = choose|j: int| 0 <= j < keys.len() && keys[j] == x;
                assert(more[j] == x);
            }
            if x == k {
                assert(more[keys.len() as int] == x);
            }
        }
        assert(more.to_set() =~= keys.to_set().insert(k));
    }
    if 0 <= i < keys.len() {
        let less = keys.remove(i);
        assert forall|a: int, b: int| 0 <= a < less.len() && 0 <= b < less.len() && a
            != b implies less[a] != less[b] by {
            let a0 = if a < i {
                a
            } else {
                a + 1
            };
            let b0 = if b < i {
                b
            } else {
                b + 1
            };
            assert(less[a] == keys[a0] && less[b] == keys[b0]);
        }
        assert forall|x: K| less.to_set().contains(x) <==> keys.to_set().remove(keys[i]).contains(
            x,
        ) by {
            if less.contains(x) {
                let j = choose|j: int| 0 <= j < less.len() && less[j] == x;
                let j0 = if j < i {
                    j
                } else {
                    j + 1
                };
                assert(less[j] == keys[j0]);
            }
            if keys.contains(x) && x != keys[i] {
                let j = choose|j: int| 0 <= j < keys.len() && keys[j] == x;
                let j1 = if j < i {
                    j
                } else {
                    j - 1
                };
                assert(less[j1] == x);
            }
        }
        assert(less.to_set() =~= keys.to_set().remove(keys[i]));
    }
}

/// The keys whose resource path starts with `prefix`.
pub open spec fn under_prefix(prefix: Seq<char>) -> Set<(Seq<char>, Seq<char>)> {
    Set::new(|k: (Seq<char>, Seq<char>)| starts_with(k.1, prefix))
}

/// What a caller of `get_or_compute` gets.
pub enum Fetched<'a, V, E> {
    /// The entry, cached before or computed now.
    Ready(&'a V),
    /// The computation failed; nothing was cached.
    Failed(E),
    /// Another caller computes the entry; nothing was computed now.
    Pending,
}

/// Cached entries by key, and the keys whose entry is being computed.
pub struct ResultCache<V> {
    entries: Vec<(CacheKey, V)>,
    in_flight: Vec<CacheKey>,
}

impl<V> View for ResultCache<V> {
    type V = Map<(Seq<char>, Seq<char>), V>;

    closed spec fn view(&self) -> Map<(Seq<char>, Seq<char>), V> {
        entries_map(keyed(self.entries@))
    }
}

impl<V> ResultCache<V> {
    /// The keys whose entry is being computed.
    pub closed spec fn in_flight(&self) -> Set<(Seq<char>, Seq<char>)> {
        key_views(self.in_flight@).to_set()
    }

    /// The invariant of the type: no key is listed twice.
    #[verifier::type_invariant]
    pub closed spec fn wf(&self) -> bool {
        &&& keys_distinct(keyed(self.entries@))
        &&& key_views(self.in_flight@).no_duplicates()
    }

    /// An empty cache.
    pub fn new() -> (cache: ResultCache<V>)
        ensures
            cache@ == Map::<(Seq<char>, Seq<char>), V>::empty(),
            cache.in_flight() == Set::<(Seq<char>, Seq<char>)>::empty(),
    {
        let cache = ResultCache { entries: Vec::new(), in_flight: Vec::new() };
        proof {
            assert(cache@ =~= Map::<(Seq<char>, Seq<char>), V>::empty());
            assert(cache.in_flight() =~= Set::<(Seq<char>, Seq<char>)>::empty());
        }
        cache
    }

    fn position(&self, key: &CacheKey) -> (at: Option<usize>)
        ensures
            match at {
                Some(i) => i < self.entries@.len() && keyed(self.entries@)[i as int].0 == key@,
                None => !has_key(keyed(self.entries@), key@),
            },
    {
        let mut i: usize = 0;
        while i < self.entries.len()
            invariant
                i <= self.entries@.len(),
                forall|j: int| 0 <= j < i ==> (#[trigger] keyed(self.entries@)[j]).0 != key@,
            decreases self.entries@.len() - i,
        {
            if self.entries[i].0.same(key) {
                return Some(i);
            }
            i += 1;
        }
        None
    }

    fn flight_position(&self, key: &CacheKey) -> (at: Option<usize>)
        ensures
            match at {
                Some(i) => i < self.in_flight@.len() && self.in_flight@[i as int]@ == key@,
                None => !self.in_flight().contains(key@),
            },
    {
        let mut i: usize = 0;
        while i < self.in_flight.len()
            invariant
                i <= self.in_flight@.len(),
                forall|j: int| 0 <= j < i ==> (#[trigger] key_views(self.in_flight@)[j]) != key@,
            decreases self.in_flight@.len() - i,
        {
            if self.in_flight[i].same(key) {
                return Some(i);
            }
            i += 1;
        }
        proof {
            let ks = key_views(self.in_flight@);
            if ks.to_set().contains(key@) {
                let j = choose|j: int| 0 <= j < ks.len() && ks[j] == key@;
                assert(ks[j] != key@);
            }
        }
        None
    }

    /// The entry cached under `key`, if any.
    pub fn get(&self, key: &CacheKey) -> (entry: Option<&V>)
        ensures
            match entry {
                Some(v) => self@.contains_key(key@) && self@[key@] == *v,
                None => !self@.contains_key(key@),
            },
    {
        proof {
            use_type_invariant(self);
            lemma_entries_map(keyed(self.entries@));
        }
        match self.position(key) {
            Some(i) => Some(&self.entries[i].1),
            None => None,
        }
    }

    /// How `begin` changes a cache: only a miss on a key that nobody
    /// computes marks the key as being computed.
    pub open spec fn after_begin(
        &self,
        after: &ResultCache<V>,
        key: &CacheKey,
        answer: Lookup,
    ) -> bool {
        &&& after@ == self@
        &&& answer == (if self@.contains_key(key@) {
            Lookup::Hit
        } else if self.in_flight().contains(key@) {
            Lookup::Wait
        } else {
            Lookup::Compute
        })
        &&& after.in_flight() == (if answer == Lookup::Compute {
            self.in_flight().insert(key@)
        } else {
            self.in_flight()
        })
    }

    /// How `complete` changes a cache: the key is no longer being computed,
    /// and a computed entry is cached whole under it. A failure caches
    /// nothing.
    pub open spec fn after_complete(
        &self,
        after: &ResultCache<V>,
        key: &CacheKey,
        entry: Option<V>,
    ) -> bool {
        &&& after.in_flight() == self.in_flight().remove(key@)
        &&& after@ == (match entry {
            Some(v) => self@.insert(key@, v),
            None => self@,
        })
    }

    /// Asks for the entry of `key` on behalf of a caller that can compute
    /// it.
    pub fn begin(&mut self, key: &CacheKey) -> (answer: Lookup)
        ensures
            old(self).after_begin(final(self), key, answer),
    {
        proof {
            use_type_invariant(&*self);
            lemma_entries_map(keyed(self.entries@));
        }
        if self.position(key).is_some() {
            return Lookup::Hit;
        }
        if self.is_in_flight(key) {
            return Lookup::Wait;
        }
        let ghost marks = key_views(self.in_flight@);
        let mut in_flight: Vec<CacheKey> = Vec::new();
        std::mem::swap(&mut self.in_flight, &mut in_flight);
        in_flight.push(CacheKey { query: key.query.clone(), path: key.path.clone() });
        proof {
            lemma_key_list(marks, key@, 0);
            assert(key_views(in_flight@) =~= marks.push(key@));
        }
        self.in_flight = in_flight;
        Lookup::Compute
    }

    /// Reports how the computation for `key` ended: with an entry, which is
    /// cached whole in place of what was cached under the key, or with a
    /// failure, which is handed back for those who wait.
    pub fn complete<E>(&mut self, key: CacheKey, outcome: Result<V, E>) -> (failure: Option<E>)
        ensures
            match outcome {
                Ok(v) => failure is None && old(self).after_complete(final(self), &key, Some(v)),
                Err(e) => failure == Some(e) && old(self).after_complete(final(self), &key, None),
            },
    {
        proof {
            use_type_invariant(&*self);
            lemma_entries_map(keyed(self.entries@));
        }
        let ghost marks = key_views(self.in_flight@);
        match self.flight_position(&key) {
            Some(i) => {
                let mut in_flight: Vec<CacheKey> = Vec::new();
                std::mem::swap(&mut self.in_flight, &mut in_flight);
                in_flight.remove(i);
                proof {
                    lemma_key_list(marks, key@, i as int);
                    assert(key_views(in_flight@) =~= marks.remove(i as int));
                }
                self.in_flight = in_flight;
            },
            None => {
                proof {
                    assert(marks.to_set().remove(key@) =~= marks.to_set());
                }
            },
        }
        match outcome {
            Ok(v) => {
                self.store(key, v);
                None
            },
            Err(e) => Some(e),
        }
    }

    fn store(&mut self, key: CacheKey, value: V)
        ensures
            final(self)@ == old(self)@.insert(key@, value),
            final(self).in_flight() == old(self).in_flight(),
    {
        proof {
            use_type_invariant(&*self);
        }
        let ghost before = keyed(self.entries@);
        let ghost k = key@;
        let found = self.position(&key);
        let mut es: Vec<(CacheKey, V)> = Vec::new();
        std::mem::swap(&mut self.entries, &mut es);
        match found {
            Some(i) => {
                es.set(i, (key, value));
                proof {
                    lemma_update_entry(before, i as int, value);
                    assert(keyed(es@) =~= before.update(i as int, (k, value)));
                }
            },
            None => {
                es.push((key, value));
                proof {
                    lemma_push_entry(before, k, value);
                    assert(keyed(es@) =~= before.push((k, value)));
                }
            },
        }
        self.entries = es;
    }

    /// Removes the entry of `key`; the next read of the key misses. Returns
    /// whether an entry was cached.
    pub fn invalidate(&mut self, key: &CacheKey) -> (removed: bool)
        ensures
            removed == old(self)@.contains_key(key@),
            final(self)@ == old(self)@.remove(key@),
            final(self).in_flight() == old(self).in_flight(),
    {
        proof {
            use_type_invariant(&*self);
            lemma_entries_map(keyed(self.entries@));
        }
        let ghost before = keyed(self.entries@);
        match self.position(key) {
            Some(i) => {
                let mut es: Vec<(CacheKey, V)> = Vec::new();
                std::mem::swap(&mut self.entries, &mut es);
                es.remove(i);
                proof {
                    lemma_remove_entry(before, i as int);
                    assert(keyed(es@) =~= before.remove(i as int));
                }
                self.entries = es;
                true
            },
            None => {
                proof {
                    assert(self@.remove(key@) =~= self@);
                }
                false
            },
        }
    }

    /// Removes every entry whose resource path starts with `resource_path`;
    /// the next read of such a key misses. Returns how many entries went.
    pub fn invalidate_prefix(&mut self, resource_path: &str) -> (removed: usize)
        ensures
            final(self)@ == old(self)@.remove_keys(under_prefix(resource_path@)),
            final(self).in_flight() == old(self).in_flight(),
            removed == old(self)@.dom().intersect(under_prefix(resource_path@)).len(),
    {
        proof {
            use_type_invariant(&*self);
        }
        let ghost initial = self@;
        let ghost gone = under_prefix(resource_path@);
        let mut es: Vec<(CacheKey, V)> = Vec::new();
        std::mem::swap(&mut self.entries, &mut es);
        let total = es.len();
        let mut removed: usize = 0;
        let mut i: usize = 0;
        proof {
            lemma_entries_map(keyed(es@));
            assert(initial.dom().intersect(gone) =~= entries_map(keyed(es@)).dom().intersect(gone));
        }
        while i < es.len()
            invariant
                i <= es@.len(),
                keys_distinct(keyed(es@)),
                gone == under_prefix(resource_path@),
                forall|j: int| 0 <= j < i ==> !gone.contains((#[trigger] keyed(es@)[j]).0),
                entries_map(keyed(es@)).remove_keys(gone) == initial.remove_keys(gone),
                initial.dom().finite(),
                removed + es@.len() == total,
                removed + entries_map(keyed(es@)).dom().intersect(gone).len()
                    == initial.dom().intersect(gone).len(),
            decreases es@.len() - i,
        {
            let ghost current = keyed(es@);
            proof {
                lemma_entries_map(current);
            }
            if has_prefix(es[i].0.path.as_str(), resource_path) {
                es.remove(i);
                removed += 1;
                proof {
                    let k = current[i as int].0;
                    lemma_remove_entry(current, i as int);
                    assert(keyed(es@) =~= current.remove(i as int));
                    assert(entries_map(current).remove(k).remove_keys(gone) =~= entries_map(
                        current,
                    ).remove_keys(gone));
                    assert(entries_map(current).remove(k).dom().intersect(gone) =~= entries_map(
                        current,
                    ).dom().intersect(gone).remove(k));
                    assert(entries_map(current).dom().intersect(gone).contains(k));
                    assert forall|j: int| 0 <= j < i implies !gone.contains(
                        (#[trigger] keyed(es@)[j]).0,
                    ) by {
                        assert(keyed(es@)[j] == current[j]);
                    }
                }
            } else {
                i += 1;
            }
        }
        proof {
            let last = keyed(es@);
            lemma_entries_map(last);
            assert(entries_map(last).remove_keys(gone) =~= entries_map(last)) by {
                assert forall|k: (Seq<char>, Seq<char>)|
                    entries_map(last).contains_key(k) implies !gone.contains(k) by {
                    let j = choose|j: int| 0 <= j < last.len() && (#[trigger] last[j]).0 == k;
                }
            }
            assert(entries_map(last).dom().intersect(gone) =~= Set::<
                (Seq<char>, Seq<char>),
            >::empty()) by {
                assert forall|k: (Seq<char>, Seq<char>)|
                    entries_map(last).contains_key(k) implies !gone.contains(k) by {
                    let j = choose|j: int| 0 <= j < last.len() && (#[trigger] last[j]).0 == k;
                }
            }
        }
        self.entries = es;
        removed
    }

    /// The entry of `key`, computed by `compute` when it is not cached.
    /// A cached entry is returned as it is and `compute` is not called. On a
    /// miss `compute` is called once; its entry is cached and returned, its
    /// failure is returned and nothing is cached. While another caller
    /// computes the entry, nothing is computed and the caller is told to
    /// wait.
    pub fn get_or_compute<E, F: FnOnce(&CacheKey) -> Result<V, E>>(
        &mut self,
        key: CacheKey,
        compute: F,
    ) -> (fetched: Fetched<'_, V, E>)
        requires
            compute.requires((&key,)),
        ensures
            final(self).in_flight() == old(self).in_flight(),
            old(self)@.contains_key(key@) ==> final(self)@ == old(self)@ && fetched == Fetched::<
                V,
                E,
            >::Ready(&old(self)@[key@]),
            !old(self)@.contains_key(key@) && old(self).in_flight().contains(key@) ==> final(self)@
                == old(self)@ && fetched is Pending,
            !old(self)@.contains_key(key@) && !old(self).in_flight().contains(key@) ==> match fetched {
                Fetched::Ready(v) => compute.ensures((&key,), Ok(*v)) && final(self)@ == old(
                    self,
                )@.insert(key@, *v),
                Fetched::Failed(e) => compute.ensures((&key,), Err(e)) && final(self)@ == old(self)@,
                Fetched::Pending => false,
            },
    {
        proof {
            use_type_invariant(&*self);
            lemma_entries_map(keyed(self.entries@));
        }
        if self.position(&key).is_none() {
            if self.is_in_flight(&key) {
                return Fetched::Pending;
            }
            match compute(&key) {
                Err(e) => {
                    return Fetched::Failed(e);
                },
                Ok(v) => {
                    self.store(CacheKey { query: key.query.clone(), path: key.path.clone() }, v);
                },
            }
        }
        match self.get(&key) {
            Some(v) => Fetched::Ready(v),
            None => Fetched::Pending,
        }
    }

    /// Whether the entry of `key` is being computed.
    pub fn is_in_flight(&self, key: &CacheKey) -> (yes: bool)
        ensures
            yes == self.in_flight().contains(key@),
    {
        match self.flight_position(key) {
            Some(i) => {
                proof {
                    let ks = key_views(self.in_flight@);
                    assert(ks[i as int] == key@);
                    assert(ks.contains(key@));
                }
                true
            },
            None => false,
        }
    }
}

/// Entries change as a whole or not at all: whatever the cache does, an
/// entry that it holds afterwards is the entry that it held before under
/// the same key, or the entry that a computation was completed with.
pub proof fn lemma_entries_change_whole<V>(
    before: ResultCache<V>,
    after: ResultCache<V>,
    key: CacheKey,
    answer: Lookup,
    entry: Option<V>,
    prefix: Seq<char>,
)
    requires
        before.after_begin(&after, &key, answer) || before.after_complete(&after, &key, entry)
            || after@ == before@.remove(key@) || after@ == before@.remove_keys(
            under_prefix(prefix),
        ),
    ensures
        forall|k: (Seq<char>, Seq<char>)| #[trigger]
            after@.contains_key(k) ==> (before@.contains_key(k) && after@[k] == before@[k]) || (
            k == key@ && entry == Some(after@[k])),
{
}

/// Single flight: once a caller was told to compute the entry of a key,
/// the next caller for that key is told to wait, and the key stays marked.
pub proof fn lemma_second_caller_waits<V>(
    first: ResultCache<V>,
    second: ResultCache<V>,
    third: ResultCache<V>,
    key: CacheKey,
    answer: Lookup,
)
    requires
        first.after_begin(&second, &key, Lookup::Compute),
        second.after_begin(&third, &key, answer),
    ensures
        answer == Lookup::Wait,
        third.in_flight().contains(key@),
        third@ == first@,
{
}

/// A computed entry is shared: once a computation was completed with an
/// entry, every caller for that key finds that entry, and nobody is told to
/// compute it again.
pub proof fn lemma_completed_entry_is_shared<V>(
    first: ResultCache<V>,
    second: ResultCache<V>,
    third: ResultCache<V>,
    key: CacheKey,
    entry: V,
    answer: Lookup,
)
    requires
        first.after_complete(&second, &key, Some(entry)),
        second.after_begin(&third, &key, answer),
    ensures
        answer == Lookup::Hit,
        third@.contains_key(key@),
        third@[key@] == entry,
{
}

/// A failed computation leaves the key uncached and unmarked, so that the
/// next caller computes again.
pub proof fn lemma_failure_is_retried<V>(
    first: ResultCache<V>,
    second: ResultCache<V>,
    third: ResultCache<V>,
    key: CacheKey,
    answer: Lookup,
)
    requires
        !first@.contains_key(key@),
        first.after_complete(&second, &key, None),
        second.after_begin(&third, &key, answer),
    ensures
        answer == Lookup::Compute,
{
}

} // verus!

//! Transactional persistence primitives: a scalar register and a key-value
//! store, both with buffered writes, an explicit flush that commits them and
//! an explicit rollback that discards them. Reads observe the buffered writes
//! overlaid on the committed state.
use vstd::prelude::*;

verus! {

/// A key of the key-value store: identified by its mathematical view, with
/// executable comparison and copying.
pub trait StoreKey: View + Sized {
    /// Whether two keys denote the same slot.
    fn key_eq(&self, other: &Self) -> (r: bool)
        ensures
            r == (self@ == other@),
    ;

    /// An owned copy of the key.
    fn key_clone(&self) -> (r: Self)
        ensures
            r@ == self@,
    ;
}

impl StoreKey for u64 {
    fn key_eq(&self, other: &Self) -> (r: bool) {
        *self == *other
    }

    fn key_clone(&self) -> (r: Self) {
        *self
    }
}

impl StoreKey for String {
    fn key_eq(&self, other: &Self) -> (r: bool) {
        *self == *other
    }

    fn key_clone(&self) -> (r: Self) {
        self.clone()
    }
}

/// The map denoted by a write log: later entries override earlier ones.
pub open spec fn entries_map<K: View, V: View>(s: Seq<(K, V)>) -> Map<K::V, V::V>
    decreases s.len(),
{
    if s.len() == 0 {
        Map::empty()
    } else {
        entries_map(s.drop_last()).insert(s.last().0@, s.last().1@)
    }
}

/// A log's map holds a key exactly when some entry carries it.
pub proof fn lemma_entries_map_contains<K: View, V: View>(s: Seq<(K, V)>, k: K::V)
    ensures
        entries_map(s).contains_key(k) <==> exists|i: int| 0 <= i < s.len() && s[i].0@ == k,
    decreases s.len(),
{
    if s.len() > 0 {
        lemma_entries_map_contains(s.drop_last(), k);
        if s.last().0@ == k {
            assert(s[s.len() - 1].0@ == k);
        } else {
            if exists|i: int| 0 <= i < s.len() && s[i].0@ == k {
                let i = choose|i: int| 0 <= i < s.len() && s[i].0@ == k;
                assert(s.drop_last()[i].0@ == k);
            }
        }
    }
}

/// The value a log's map holds under a key is the one of the key's last entry.
pub proof fn lemma_entries_map_last<K: View, V: View>(s: Seq<(K, V)>, i: int)
    requires
        0 <= i < s.len(),
        forall|j: int| i < j < s.len() ==> s[j].0@ != s[i].0@,
    ensures
        entries_map(s).contains_key(s[i].0@),
        entries_map(s)[s[i].0@] == s[i].1@,
    decreases s.len(),
{
    if i < s.len() - 1 {
        lemma_entries_map_last(s.drop_last(), i);
    }
}

/// Concatenating two logs overlays the second log's map over the first's.
pub proof fn lemma_entries_map_concat<K: View, V: View>(a: Seq<(K, V)>, b: Seq<(K, V)>)
    ensures
        entries_map(a + b) == entries_map(a).union_prefer_right(entries_map(b)),
    decreases b.len(),
{
    if b.len() == 0 {
        assert(a + b =~= a);
        assert(entries_map(a).union_prefer_right(entries_map(b)) =~= entries_map(a));
    } else {
        lemma_entries_map_concat(a, b.drop_last());
        assert((a + b).drop_last() =~= a + b.drop_last());
        assert((a + b).last() == b.last());
        assert(entries_map(a).union_prefer_right(entries_map(b.drop_last())).insert(
            b.last().0@,
            b.last().1@,
        ) =~= entries_map(a).union_prefer_right(entries_map(b)));
    }
}

/// A scalar register with one buffered pending value.
pub struct Register<T> {
    committed_value: T,
    pending_value: Option<T>,
}

impl<T> Register<T> {
    /// The last flushed value.
    pub closed spec fn committed(&self) -> T {
        self.committed_value
    }

    /// The value a read observes: the pending value if one is buffered, else
    /// the committed one.
    pub closed spec fn visible(&self) -> T {
        match self.pending_value {
            Some(v) => v,
            None => self.committed_value,
        }
    }

    /// No write is buffered.
    pub closed spec fn synced(&self) -> bool {
        self.pending_value is None
    }

    /// Buffered reads and committed state agree while nothing is buffered.
    pub proof fn lemma_synced_visible(&self)
        requires
            self.synced(),
        ensures
            self.visible() == self.committed(),
    {
    }

    /// A register holding `initial`, with nothing buffered.
    pub fn new(initial: T) -> (r: Self)
        ensures
            r.committed() == initial,
            r.visible() == initial,
            r.synced(),
    {
        Register { committed_value: initial, pending_value: None }
    }

    /// Read the current, possibly buffered, value.
    pub fn get(&self) -> (r: &T)
        ensures
            *r == self.visible(),
    {
        match &self.pending_value {
            Some(v) => v,
            None => &self.committed_value,
        }
    }

    /// Buffer a pending write.
    pub fn set(&mut self, v: T)
        ensures
            final(self).visible() == v,
            final(self).committed() == old(self).committed(),
    {
        self.pending_value = Some(v);
    }

    /// Commit the pending value durably.
    pub fn flush(&mut self)
        ensures
            final(self).committed() == old(self).visible(),
            final(self).visible() == old(self).visible(),
            final(self).synced(),
    {
        match self.pending_value.take() {
            Some(v) => {
                self.committed_value = v;
            },
            None => {},
        }
    }

    /// Discard the pending value, reverting to the last flushed one.
    pub fn rollback(&mut self)
        ensures
            final(self).committed() == old(self).committed(),
            final(self).visible() == old(self).committed(),
            final(self).synced(),
    {
        self.pending_value = None;
    }
}

/// A key-value store held as a committed write log plus a pending write log;
/// reads observe the pending writes overlaid on the committed ones.
pub struct KvStore<K, V> {
    committed_log: Vec<(K, V)>,
    pending_log: Vec<(K, V)>,
}

impl<K: StoreKey, V: View> KvStore<K, V> {
    /// The map of the last flushed state.
    pub closed spec fn committed(&self) -> Map<K::V, V::V> {
        entries_map(self.committed_log@)
    }

    /// The map a read observes: committed state overlaid with pending writes.
    pub closed spec fn visible(&self) -> Map<K::V, V::V> {
        entries_map(self.committed_log@).union_prefer_right(entries_map(self.pending_log@))
    }

    /// No write is buffered.
    pub closed spec fn synced(&self) -> bool {
        self.pending_log@.len() == 0
    }

    /// Buffered reads and committed state agree while nothing is buffered.
    pub proof fn lemma_synced_visible(&self)
        requires
            self.synced(),
        ensures
            self.visible() == self.committed(),
    {
        assert(self.visible() =~= self.committed());
    }

    /// An empty store.
    pub fn new() -> (r: Self)
        ensures
            r.committed() == Map::<K::V, V::V>::empty(),
            r.visible() == Map::<K::V, V::V>::empty(),
            r.synced(),
    {
        let r = KvStore { committed_log: Vec::new(), pending_log: Vec::new() };
        proof {
            assert(r.visible() =~= Map::<K::V, V::V>::empty());
        }
        r
    }

    /// The value of the last entry of `log` carrying `key`, if any.
    fn find_last<'a>(log: &'a Vec<(K, V)>, key: &K) -> (r: Option<&'a V>)
        ensures
            match r {
                Some(v) => entries_map(log@).contains_key(key@) && v@ == entries_map(log@)[key@],
                None => !entries_map(log@).contains_key(key@),
            },
    {
        let mut i: usize = log.len();
        while i > 0
            invariant
                i <= log@.len(),
                forall|j: int| i <= j < log@.len() ==> log@[j].0@ != key@,
            decreases i,
        {
            i = i - 1;
            if log[i].0.key_eq(key) {
                proof {
                    lemma_entries_map_last(log@, i as int);
                }
                return Some(&log[i].1);
            }
        }
        proof {
            lemma_entries_map_contains(log@, key@);
        }
        None
    }

    /// Read the value under `key`, pending writes included.
    pub fn get<'a>(&'a self, key: &K) -> (r: Option<&'a V>)
        ensures
            match r {
                Some(v) => self.visible().contains_key(key@) && v@ == self.visible()[key@],
                None => !self.visible().contains_key(key@),
            },
    {
        match Self::find_last(&self.pending_log, key) {
            Some(v) => Some(v),
            None => Self::find_last(&self.committed_log, key),
        }
    }

    /// Whether a value is visible under `key`.
    pub fn contains_key(&self, key: &K) -> (r: bool)
        ensures
            r == self.visible().contains_key(key@),
    {
        self.get(key).is_some()
    }

    /// Buffer a write of `value` under `key`.
    pub fn insert(&mut self, key: K, value: V)
        ensures
            final(self).visible() == old(self).visible().insert(key@, value@),
            final(self).committed() == old(self).committed(),
    {
        self.pending_log.push((key, value));
        proof {
            assert(self.pending_log@.drop_last() =~= old(self).pending_log@);
            assert(self.visible() =~= old(self).visible().insert(key@, value@));
        }
    }

    /// Commit every pending write durably.
    pub fn flush(&mut self)
        ensures
            final(self).committed() == old(self).visible(),
            final(self).visible() == old(self).visible(),
            final(self).synced(),
    {
        self.committed_log.append(&mut self.pending_log);
        proof {
            lemma_entries_map_concat(old(self).committed_log@, old(self).pending_log@);
            assert(self.visible() =~= self.committed());
        }
    }

    /// Discard every pending write, reverting to the last flushed state.
    pub fn rollback(&mut self)
        ensures
            final(self).committed() == old(self).committed(),
            final(self).visible() == old(self).committed(),
            final(self).synced(),
    {
        self.pending_log.clear();
        proof {
            assert(self.visible() =~= self.committed());
        }
    }

    /// Purge the whole container, committed state included (teardown only).
    pub fn delete(&mut self)
        ensures
            final(self).committed() == Map::<K::V, V::V>::empty(),
            final(self).visible() == Map::<K::V, V::V>::empty(),
            final(self).synced(),
    {
        self.committed_log.clear();
        self.pending_log.clear();
        proof {
            assert(self.visible() =~= Map::<K::V, V::V>::empty());
        }
    }

    /// Whether some element of `v` has the view `k@`.
    fn keys_contain(v: &Vec<K>, k: &K) -> (r: bool)
        ensures
            r == seq_has_key(v@, k@),
    {
        let mut t: usize = 0;
        while t < v.len()
            invariant
                t <= v@.len(),
                forall|u: int| 0 <= u < t ==> v@[u]@ != k@,
            decreases v@.len() - t,
        {
            if v[t].key_eq(k) {
                assert(seq_has_key(v@, k@)) by {
                    assert(v@[t as int]@ == k@);
                }
                return true;
            }
            t += 1;
        }
        false
    }

    /// Every currently visible key, each exactly once, committed keys first.
    /// The enumeration is recomputed on each call.
    pub fn indices(&self) -> (r: Vec<K>)
        ensures
            keys_distinct(r@),
            forall|i: int|
                0 <= i < r@.len() ==> self.visible().contains_key(#[trigger] key_at(r@, i)),
            forall|k: K::V| #[trigger] self.visible().contains_key(k) ==> seq_has_key(r@, k),
    {
        let mut result: Vec<K> = Vec::new();
        Self::merge_keys(&self.committed_log, &mut result);
        Self::merge_keys(&self.pending_log, &mut result);
        proof {
            assert forall|t1: int, t2: int| 0 <= t1 < t2 < result@.len() implies #[trigger] key_at(
                result@,
                t1,
            ) != #[trigger] key_at(result@, t2) by {
                assert(key_at(result@, t1) == result@[t1]@);
                assert(key_at(result@, t2) == result@[t2]@);
            }
            assert forall|i: int| 0 <= i < result@.len() implies self.visible().contains_key(
                key_at(result@, i),
            ) by {
                assert(key_at(result@, i) == result@[i]@);
                lemma_entries_map_contains(self.committed_log@, result@[i]@);
                lemma_entries_map_contains(self.pending_log@, result@[i]@);
            }
            assert forall|k: K::V| #[trigger] self.visible().contains_key(k) implies seq_has_key(
                result@,
                k,
            ) by {
                lemma_entries_map_contains(self.committed_log@, k);
                lemma_entries_map_contains(self.pending_log@, k);
            }
        }
        result
    }

    /// Append to `result` the keys of `log` that it does not hold yet.
    fn merge_keys(log: &Vec<(K, V)>, result: &mut Vec<K>)
        requires
            forall|t1: int, t2: int|
                0 <= t1 < t2 < old(result)@.len() ==> #[trigger] old(result)@[t1]@
                    != #[trigger] old(result)@[t2]@,
        ensures
            forall|t1: int, t2: int|
                0 <= t1 < t2 < final(result)@.len() ==> #[trigger] final(result)@[t1]@
                    != #[trigger] final(result)@[t2]@,
            forall|t: int|
                0 <= t < final(result)@.len() ==> seq_has_key(old(result)@, #[trigger] final(result)@[t]@)
                    || has_log_key(log@, final(result)@[t]@),
            forall|k: K::V| seq_has_key(old(result)@, k) ==> seq_has_key(final(result)@, k),
            forall|j: int| 0 <= j < log@.len() ==> seq_has_key(final(result)@, #[trigger] log@[j].0@),
    {
        let mut i: usize = 0;
        while i < log.len()
            invariant
                i <= log@.len(),
                forall|t1: int, t2: int|
                    0 <= t1 < t2 < result@.len() ==> #[trigger] result@[t1]@
                        != #[trigger] result@[t2]@,
                forall|t: int|
                    0 <= t < result@.len() ==> seq_has_key(old(result)@, #[trigger] result@[t]@)
                        || has_log_key(log@, result@[t]@),
                forall|k: K::V| seq_has_key(old(result)@, k) ==> seq_has_key(result@, k),
                forall|j: int| 0 <= j < i ==> seq_has_key(result@, #[trigger] log@[j].0@),
            decreases log@.len() - i,
        {
            let ghost result0 = result@;
            let k = log[i].0.key_clone();
            let ghost kv = k@;
            if !Self::keys_contain(result, &k) {
                result.push(k);
                proof {
                    assert(result@.drop_last() =~= result0);
                    assert(result@[result@.len() - 1]@ == kv);
                    assert(has_log_key(log@, kv)) by {
                        assert(log@[i as int].0@ == kv);
                    }
                    lemma_seq_keys_extend(result0, result@);
                }
            }
            proof {
                assert(seq_has_key(result@, kv)) by {
                    if result@.len() > result0.len() {
                        assert(result@[result@.len() - 1]@ == kv);
                    }
                }
                assert(seq_has_key(result@, log@[i as int].0@));
            }
            i += 1;
        }
    }
}

/// Some element of `s` has the view `k`.
pub open spec fn seq_has_key<K: View>(s: Seq<K>, k: K::V) -> bool {
    exists|i: int| 0 <= i < s.len() && s[i]@ == k
}

/// The view of the key at position `i` of `s`.
pub open spec fn key_at<K: View>(s: Seq<K>, i: int) -> K::V {
    s[i]@
}

/// No two elements of `s` share a view.
pub open spec fn keys_distinct<K: View>(s: Seq<K>) -> bool {
    forall|t1: int, t2: int|
        0 <= t1 < t2 < s.len() ==> #[trigger] key_at(s, t1) != #[trigger] key_at(s, t2)
}

/// Some entry of the log `s` carries the key view `k`.
pub open spec fn has_log_key<K: View, V: View>(s: Seq<(K, V)>, k: K::V) -> bool {
    exists|j: int| 0 <= j < s.len() && s[j].0@ == k
}

/// Extending a key sequence at the end keeps every key it already had.
pub proof fn lemma_seq_keys_extend<K: View>(s1: Seq<K>, s2: Seq<K>)
    requires
        s1.len() <= s2.len(),
        forall|i: int| 0 <= i < s1.len() ==> s2[i] == s1[i],
    ensures
        forall|k: K::V| seq_has_key(s1, k) ==> seq_has_key(s2, k),
{
    assert forall|k: K::V| seq_has_key(s1, k) implies seq_has_key(s2, k) by {
        let i = choose|i: int| 0 <= i < s1.len() && s1[i]@ == k;
        assert(s2[i]@ == k);
    }
}

} // verus!

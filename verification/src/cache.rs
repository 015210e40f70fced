//! The cache of search results: each entry lives for a minute, and beyond a fixed number of
//! entries the oldest ones go first.
use vstd::prelude::*;
use crate::keyed::{TextMap, lemma_text_set_len, text_set};

verus! {

/// How long a cached result lives, in milliseconds.
pub const SEARCH_CACHE_TTL_MS: i64 = 60_000;

/// Results kept at most.
pub const SEARCH_CACHE_MAX_ENTRIES: usize = 256;

/// The entries, each with its expiry time, and the keys in the order they came.
pub struct CacheModel<V> {
    pub entries: Map<Seq<char>, (i64, V)>,
    pub order: Seq<Seq<char>>,
}

/// The oldest keys dropped while the oldest is gone, expired at `now`, or the cache is over
/// its size; the entry under each dropped key goes too.
pub open spec fn evicted<V>(entries: Map<Seq<char>, (i64, V)>, order: Seq<Seq<char>>, now: i64) -> CacheModel<V>
    decreases order.len(),
{
    if order.len() == 0 {
        CacheModel { entries, order }
    } else {
        let front = order[0];
        let stale = !entries.dom().contains(front) || entries[front].0 <= now;
        if !stale && entries.dom().len() <= SEARCH_CACHE_MAX_ENTRIES {
            CacheModel { entries, order }
        } else {
            evicted(entries.remove(front), order.drop_first(), now)
        }
    }
}

/// Cached search results under text keys.
pub struct SearchCache<V> {
    pub entries: TextMap<(i64, V)>,
    pub order: Vec<String>,
}

impl<V> SearchCache<V> {
    pub open spec fn wf(&self) -> bool {
        self.entries.wf()
    }

    pub open spec fn model(&self) -> CacheModel<V> {
        CacheModel { entries: self.entries@, order: crate::keyed::texts(self.order@) }
    }

    pub fn new() -> (r: SearchCache<V>)
        ensures
            r.wf(),
            r.model().entries == Map::<Seq<char>, (i64, V)>::empty(),
            r.model().order == Seq::<Seq<char>>::empty(),
    {
        let r = SearchCache { entries: TextMap::new(), order: Vec::new() };
        assert(r.model().order =~= Seq::<Seq<char>>::empty());
        r
    }

    fn entry_count(&self) -> (r: usize)
        requires
            self.wf(),
        ensures
            r == self.entries@.dom().len(),
    {
        proof {
            lemma_text_set_len(self.entries.keys@);
            assert(self.entries@.dom() =~= text_set(self.entries.keys@));
        }
        self.entries.keys.len()
    }

    /// The result under `key` while it lives at `now`; an expired one is dropped.
    pub fn get(&mut self, key: &str, now: i64) -> (r: Option<&V>)
        requires
            old(self).wf(),
        ensures
            final(self).wf(),
            ({
                let m = old(self).model();
                if m.entries.dom().contains(key@) && m.entries[key@].0 > now {
                    &&& r matches Some(v) && *v == m.entries[key@].1
                    &&& final(self).model() == m
                } else {
                    &&& r is None
                    &&& final(self).model() == (CacheModel { entries: m.entries.remove(key@), ..m })
                }
            }),
    {
        match self.entries.index_of(key) {
            Some(i) => {
                if self.entries.vals[i].0 > now {
                    return Some(&self.entries.vals[i].1);
                }
            },
            None => {},
        }
        self.entries.remove(key);
        None
    }

    /// Drops the oldest keys while the oldest is gone or expired at `now`, or the cache holds
    /// more than its size.
    pub fn evict(&mut self, now: i64)
        requires
            old(self).wf(),
        ensures
            final(self).wf(),
            final(self).model() == evicted(old(self).model().entries, old(self).model().order, now),
    {
        let ghost target = evicted(self.model().entries, self.model().order, now);
        // The keys, newest first, so that the oldest is popped first.
        let ghost all = self.model().order;
        let ghost e0 = self.entries@;
        let n = self.order.len();
        assert(all.len() == n);
        let mut stack: Vec<String> = Vec::new();
        while self.order.len() > 0
            invariant
                self.entries.wf(),
                self.entries@ == e0,
                target == evicted(e0, all, now),
                all.len() <= usize::MAX,
                self.order@.len() + stack@.len() == all.len(),
                forall|j: int| 0 <= j < self.order@.len() ==> (#[trigger] self.order@[j])@ == all[j],
                forall|j: int| 0 <= j < stack@.len() ==> (#[trigger] stack@[j])@ == all[all.len() - 1 - j],
            decreases self.order@.len(),
        {
            let x = self.order.pop().unwrap();
            stack.push(x);
        }
        assert(self.order@.len() == 0);
        let mut i: usize = 0;
        assert(all.skip(0) =~= all);
        while stack.len() > 0
            invariant
                self.entries.wf(),
                self.order@.len() == 0,
                all.len() <= usize::MAX,
                i + stack@.len() == all.len(),
                forall|j: int| 0 <= j < stack@.len() ==> (#[trigger] stack@[j])@ == all[all.len() - 1 - j],
                target == evicted(self.entries@, all.skip(i as int), now),
            ensures
                self.entries.wf(),
                self.order@.len() == 0,
                i + stack@.len() == all.len(),
                forall|j: int| 0 <= j < stack@.len() ==> (#[trigger] stack@[j])@ == all[all.len() - 1 - j],
                target == (CacheModel { entries: self.entries@, order: all.skip(i as int) }),
            decreases stack@.len(),
        {
            let front = stack.pop().unwrap();
            assert(front@ == all[i as int]);
            assert(all.skip(i as int)[0] == all[i as int]);
            let stale = match self.entries.get(front.as_str()) {
                Some(e) => e.0 <= now,
                None => true,
            };
            if !stale && self.entry_count() <= SEARCH_CACHE_MAX_ENTRIES {
                stack.push(front);
                assert(target == CacheModel { entries: self.entries@, order: all.skip(i as int) });
                break;
            }
            assert(all.skip(i as int).drop_first() =~= all.skip(i + 1));
            self.entries.remove(front.as_str());
            i = i + 1;
        }
        // What is left goes back, oldest first.
        let ghost left = all.skip(i as int);
        let ghost e1 = self.entries@;
        assert(stack@.len() == left.len());
        while stack.len() > 0
            invariant
                self.entries.wf(),
                self.entries@ == e1,
                left == all.skip(i as int),
                target == (CacheModel { entries: e1, order: left }),
                i + stack@.len() + self.order@.len() == all.len(),
                forall|j: int| 0 <= j < stack@.len() ==> (#[trigger] stack@[j])@ == all[all.len() - 1 - j],
                crate::keyed::texts(self.order@) == all.subrange(i as int, all.len() - stack@.len()),
            decreases stack@.len(),
        {
            let x = stack.pop().unwrap();
            let ghost before = crate::keyed::texts(self.order@);
            self.order.push(x);
            assert(crate::keyed::texts(self.order@) =~= before.push(all[all.len() - 1 - stack@.len()]));
        }
        assert(crate::keyed::texts(self.order@) =~= left);
    }

    /// Caches `value` under `key` at `now` for `SEARCH_CACHE_TTL_MS`; a new key goes to the
    /// back of the order. Then evicts.
    pub fn put(&mut self, key: String, value: V, now: i64)
        requires
            old(self).wf(),
            now + SEARCH_CACHE_TTL_MS <= i64::MAX,
        ensures
            final(self).wf(),
            ({
                let m = old(self).model();
                let order = if m.entries.dom().contains(key@) { m.order } else { m.order.push(key@) };
                final(self).model() == evicted(m.entries.insert(key@, ((now + SEARCH_CACHE_TTL_MS) as i64, value)), order, now)
            }),
    {
        let expires_at = now + SEARCH_CACHE_TTL_MS;
        if self.entries.index_of(key.as_str()).is_none() {
            let ghost before = crate::keyed::texts(self.order@);
            self.order.push(key.clone());
            assert(crate::keyed::texts(self.order@) =~= before.push(key@));
        }
        self.entries.insert(key, (expires_at, value));
        self.evict(now);
    }
}

} // verus!

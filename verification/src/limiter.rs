//! The limit on public writes: for each client key, the times of its recent requests,
//! counted over a sliding window.
use vstd::prelude::*;
use crate::keyed::{TextMap, distinct_texts, key_index, lemma_text_set_len, text_set};
use crate::text::append_text;
use crate::web::GuardRejection;

verus! {

/// The window over which requests are counted, in milliseconds.
pub const PUBLIC_WRITE_WINDOW_MILLIS: u64 = 60_000;

/// Above this many keys, the keys with no request inside the window are dropped.
pub const MAX_RATE_LIMIT_KEYS: usize = 4096;

/// A request at `t` lies outside the window that ends at `now`.
pub open spec fn stale_at(t: u64, now: u64) -> bool {
    now > t && now - t > PUBLIC_WRITE_WINDOW_MILLIS
}

/// How many requests at the front of `h` lie outside the window.
pub open spec fn stale_prefix(h: Seq<u64>, now: u64) -> nat
    decreases h.len(),
{
    if h.len() > 0 && stale_at(h[0], now) {
        1 + stale_prefix(h.drop_first(), now)
    } else {
        0
    }
}

/// `h` without the requests at its front that lie outside the window.
pub open spec fn recent_hits(h: Seq<u64>, now: u64) -> Seq<u64> {
    h.skip(stale_prefix(h, now) as int)
}

/// The last request of `h` lies inside the window.
pub open spec fn seen_recently(h: Seq<u64>, now: u64) -> bool {
    h.len() > 0 && !stale_at(h.last(), now)
}

/// The request times of each key.
pub open spec fn hit_view(m: Map<Seq<char>, Vec<u64>>) -> Map<Seq<char>, Seq<u64>> {
    Map::new(|k: Seq<char>| m.dom().contains(k), |k: Seq<char>| m[k]@)
}

/// The keys of `m` whose last request lies inside the window.
pub open spec fn recent_part(m: Map<Seq<char>, Seq<u64>>, now: u64) -> Map<Seq<char>, Seq<u64>> {
    Map::new(|k: Seq<char>| m.dom().contains(k) && seen_recently(m[k], now), |k: Seq<char>| m[k])
}

/// The table as a request at `now` finds it: over the key limit, only its recent part.
pub open spec fn pruned(m: Map<Seq<char>, Seq<u64>>, now: u64) -> Map<Seq<char>, Seq<u64>> {
    if m.dom().len() > MAX_RATE_LIMIT_KEYS {
        recent_part(m, now)
    } else {
        m
    }
}

/// The recent requests of `key` as a request at `now` finds them.
pub open spec fn window_hits(m: Map<Seq<char>, Seq<u64>>, key: Seq<char>, now: u64) -> Seq<u64> {
    let p = pruned(m, now);
    recent_hits(if p.dom().contains(key) { p[key] } else { Seq::empty() }, now)
}

/// A request of `key` at `now` is let through: fewer than `max` requests in the window.
pub open spec fn admits(m: Map<Seq<char>, Seq<u64>>, key: Seq<char>, now: u64, max: int) -> bool {
    window_hits(m, key, now).len() < max
}

/// The table after a request of `key` at `now`: pruned, the key's stale requests dropped,
/// and the request recorded when it is let through.
pub open spec fn after_request(m: Map<Seq<char>, Seq<u64>>, key: Seq<char>, now: u64, max: int) -> Map<Seq<char>, Seq<u64>> {
    let h = window_hits(m, key, now);
    if h.len() < max {
        pruned(m, now).insert(key, h.push(now))
    } else {
        pruned(m, now).insert(key, h)
    }
}

/// With one limit for a key, the window of that key never holds more than the limit: a
/// request let through adds one time to fewer than `max`, a refused one adds none.
pub proof fn law_window_stays_within_limit(m: Map<Seq<char>, Seq<u64>>, key: Seq<char>, now: u64, max: int)
    requires
        0 <= max,
    ensures
        after_request(m, key, now, max).dom().contains(key),
        after_request(m, key, now, max)[key].len() <= max || after_request(m, key, now, max)[key] == window_hits(m, key, now),
        window_hits(m, key, now).len() <= max ==> after_request(m, key, now, max)[key].len() <= max,
        admits(m, key, now, max) ==> after_request(m, key, now, max)[key] == window_hits(m, key, now).push(now),
        !admits(m, key, now, max) ==> after_request(m, key, now, max)[key] == window_hits(m, key, now),
{
}

/// Keys other than the one asked for keep their times, unless the table was pruned.
pub proof fn law_other_keys_untouched(m: Map<Seq<char>, Seq<u64>>, key: Seq<char>, other: Seq<char>, now: u64, max: int)
    requires
        other != key,
        m.dom().len() <= MAX_RATE_LIMIT_KEYS,
    ensures
        after_request(m, key, now, max).dom().contains(other) == m.dom().contains(other),
        m.dom().contains(other) ==> after_request(m, key, now, max)[other] == m[other],
{
}

/// The key under which the requests of `client` to `scope` are counted.
pub open spec fn write_key(scope: Seq<char>, client: Seq<char>) -> Seq<char> {
    scope + seq![':'] + client
}

pub fn public_write_key(scope: &str, client: &str) -> (r: String)
    ensures
        r@ == write_key(scope@, client@),
{
    let mut r = String::new();
    append_text(&mut r, scope);
    crate::text::push_char(&mut r, ':');
    append_text(&mut r, client);
    r
}

/// The requests of `h` from the first one inside the window on.
fn recent_of(h: &Vec<u64>, now: u64) -> (r: Vec<u64>)
    ensures
        r@ == recent_hits(h@, now),
{
    let mut k: usize = 0;
    assert(h@.skip(0) =~= h@);
    while k < h.len() && now > h[k] && now - h[k] > PUBLIC_WRITE_WINDOW_MILLIS
        invariant
            k <= h@.len(),
            stale_prefix(h@, now) == k + stale_prefix(h@.skip(k as int), now),
        decreases h@.len() - k,
    {
        assert(h@.skip(k as int).drop_first() =~= h@.skip(k + 1));
        assert(h@.skip(k as int)[0] == h@[k as int]);
        k = k + 1;
    }
    if k < h.len() {
        assert(h@.skip(k as int)[0] == h@[k as int]);
    }
    assert(stale_prefix(h@, now) == k);
    let mut r: Vec<u64> = Vec::new();
    let mut j: usize = k;
    while j < h.len()
        invariant
            k <= j <= h@.len(),
            r@ == h@.subrange(k as int, j as int),
        decreases h@.len() - j,
    {
        r.push(h[j]);
        assert(r@ =~= h@.subrange(k as int, j + 1));
        j = j + 1;
    }
    assert(h@.skip(k as int) =~= h@.subrange(k as int, h@.len() as int));
    r
}

/// The request times of each client key.
pub struct PublicWriteLimiter {
    pub hits: TextMap<Vec<u64>>,
}

impl View for PublicWriteLimiter {
    type V = Map<Seq<char>, Seq<u64>>;

    open spec fn view(&self) -> Map<Seq<char>, Seq<u64>> {
        hit_view(self.hits@)
    }
}

proof fn lemma_hit_view_insert(m: Map<Seq<char>, Vec<u64>>, k: Seq<char>, v: Vec<u64>)
    ensures
        hit_view(m.insert(k, v)) == hit_view(m).insert(k, v@),
{
    assert(hit_view(m.insert(k, v)) =~= hit_view(m).insert(k, v@));
}

proof fn lemma_text_set_step(keys: Seq<String>, n: int)
    requires
        1 <= n <= keys.len(),
    ensures
        text_set(keys.skip(n - 1)) == text_set(keys.skip(n)).insert(keys[n - 1]@),
{
    let a = keys.skip(n - 1);
    let b = keys.skip(n);
    assert forall|k: Seq<char>| #[trigger] text_set(a).contains(k) == text_set(b).insert(keys[n - 1]@).contains(k) by {
        if text_set(a).contains(k) {
            let i = choose|i: int| 0 <= i < a.len() && a[i]@ == k;
            if i > 0 {
                assert(b[i - 1] == a[i]);
            }
        }
        if text_set(b).contains(k) {
            let i = choose|i: int| 0 <= i < b.len() && b[i]@ == k;
            assert(a[i + 1] == b[i]);
        }
        if k == keys[n - 1]@ {
            assert(a[0] == keys[n - 1]);
        }
    }
    assert(text_set(a) =~= text_set(b).insert(keys[n - 1]@));
}

impl PublicWriteLimiter {
    pub open spec fn wf(&self) -> bool {
        self.hits.wf()
    }

    pub fn new() -> (r: PublicWriteLimiter)
        ensures
            r.wf(),
            r@ == Map::<Seq<char>, Seq<u64>>::empty(),
    {
        let r = PublicWriteLimiter { hits: TextMap::new() };
        assert(r@ =~= Map::<Seq<char>, Seq<u64>>::empty());
        r
    }

    /// The number of keys held.
    pub fn key_count(&self) -> (r: usize)
        requires
            self.wf(),
        ensures
            r == self@.dom().len(),
    {
        proof {
            lemma_text_set_len(self.hits.keys@);
            assert(self@.dom() =~= text_set(self.hits.keys@));
        }
        self.hits.keys.len()
    }

    /// Drops the keys whose last request lies outside the window that ends at `now`.
    fn retain_recent(&mut self, now: u64)
        requires
            old(self).wf(),
        ensures
            final(self).wf(),
            final(self)@ == recent_part(old(self)@, now),
    {
        let ghost m0 = self@;
        let ghost k0 = self.hits.keys@;
        let ghost v0 = self.hits.vals@;
        let ghost target = recent_part(m0, now);
        proof {
            assert forall|j: int| 0 <= j < k0.len() implies #[trigger] m0.dom().contains(k0[j]@) && m0[k0[j]@] == v0[j]@ by {
                assert(text_set(k0).contains(k0[j]@));
                let i = key_index(k0, k0[j]@);
                assert(0 <= i < k0.len() && k0[i]@ == k0[j]@);
                assert(i == j);
            }
            assert(k0.skip(k0.len() as int) =~= Seq::<String>::empty());
        }
        let mut out: TextMap<Vec<u64>> = TextMap::new();
        proof {
            assert(hit_view(out@) =~= Map::new(
                |k: Seq<char>| text_set(k0.skip(k0.len() as int)).contains(k) && seen_recently(m0[k], now),
                |k: Seq<char>| m0[k],
            ));
        }
        while self.hits.keys.len() > 0
            invariant
                out.wf(),
                k0.len() == v0.len(),
                distinct_texts(k0),
                self.hits.keys@.len() == self.hits.vals@.len(),
                self.hits.keys@.len() <= k0.len(),
                self.hits.keys@ == k0.take(self.hits.keys@.len() as int),
                self.hits.vals@ == v0.take(self.hits.keys@.len() as int),
                forall|j: int| 0 <= j < k0.len() ==> #[trigger] m0.dom().contains(k0[j]@) && m0[k0[j]@] == v0[j]@,
                hit_view(out@) == Map::new(
                    |k: Seq<char>| text_set(k0.skip(self.hits.keys@.len() as int)).contains(k) && seen_recently(m0[k], now),
                    |k: Seq<char>| m0[k],
                ),
            decreases self.hits.keys@.len(),
        {
            let ghost n = self.hits.keys@.len() as int;
            let key = self.hits.keys.pop().unwrap();
            let val = self.hits.vals.pop().unwrap();
            assert(key == k0[n - 1]);
            assert(val == v0[n - 1]);
            assert(self.hits.keys@ =~= k0.take(n - 1));
            assert(self.hits.vals@ =~= v0.take(n - 1));
            proof {
                lemma_text_set_step(k0, n);
            }
            let ghost kv = key@;
            let ghost prev = hit_view(out@);
            let ghost rest = text_set(k0.skip(n));
            assert(prev == Map::new(
                |k: Seq<char>| rest.contains(k) && seen_recently(m0[k], now),
                |k: Seq<char>| m0[k],
            ));
            assert(m0.dom().contains(k0[n - 1]@) && m0[k0[n - 1]@] == v0[n - 1]@);
            let recent = val.len() > 0 && !(now > val[val.len() - 1] && now - val[val.len() - 1] > PUBLIC_WRITE_WINDOW_MILLIS);
            assert(recent == seen_recently(m0[kv], now));
            if recent {
                let ghost before = out@;
                out.insert(key, val);
                proof {
                    lemma_hit_view_insert(before, kv, v0[n - 1]);
                }
                assert(hit_view(out@) == prev.insert(kv, m0[kv]));
            } else {
                assert(hit_view(out@) == prev);
            }
            proof {
                let now_out = hit_view(out@);
                let tgt = Map::new(
                    |k: Seq<char>| text_set(k0.skip(n - 1)).contains(k) && seen_recently(m0[k], now),
                    |k: Seq<char>| m0[k],
                );
                assert(text_set(k0.skip(n - 1)) == rest.insert(kv));
                assert forall|k: Seq<char>| #[trigger] now_out.dom().contains(k) == tgt.dom().contains(k) by {
                    if k != kv {
                        assert(rest.insert(kv).contains(k) == rest.contains(k));
                    }
                }
                assert forall|k: Seq<char>| now_out.dom().contains(k) implies #[trigger] now_out[k] == tgt[k] by {
                    if k != kv {
                        assert(prev.dom().contains(k));
                    }
                }
                assert(now_out =~= tgt);
            }
        }
        proof {
            assert(k0.skip(0) =~= k0);
            assert forall|k: Seq<char>| #[trigger] text_set(k0).contains(k) == m0.dom().contains(k) by {
                if m0.dom().contains(k) {
                    assert(old(self).hits@.dom().contains(k));
                }
            }
            assert(hit_view(out@) =~= target);
        }
        self.hits = out;
    }

    /// Counts a request of `client` to `scope` at `now_millis`: refused as too many when the
    /// key already has `max_per_minute` requests inside the window, recorded otherwise.
    pub fn enforce_public_write_limit(&mut self, scope: &str, client: &str, now_millis: u64, max_per_minute: usize) -> (r: Result<(), GuardRejection>)
        requires
            old(self).wf(),
        ensures
            final(self).wf(),
            final(self)@ == after_request(old(self)@, write_key(scope@, client@), now_millis, max_per_minute as int),
            r is Ok <==> admits(old(self)@, write_key(scope@, client@), now_millis, max_per_minute as int),
            r matches Err(e) ==> e.status == 429 && e.message@ == "too many requests, please retry later"@,
    {
        let key = public_write_key(scope, client);
        let ghost m0 = self@;
        let ghost kv = key@;
        if self.key_count() > MAX_RATE_LIMIT_KEYS {
            self.retain_recent(now_millis);
        }
        assert(self@ == pruned(m0, now_millis));
        let hits = match self.hits.index_of(key.as_str()) {
            Some(i) => recent_of(&self.hits.vals[i], now_millis),
            None => Vec::new(),
        };
        assert(hits@ == window_hits(m0, kv, now_millis)) by {
            if !self@.dom().contains(kv) {
                assert(Seq::<u64>::empty().skip(0) =~= Seq::<u64>::empty());
            }
        }
        let ghost before = self.hits@;
        if hits.len() >= max_per_minute {
            let ghost hv = hits;
            self.hits.insert(key, hits);
            proof {
                lemma_hit_view_insert(before, kv, hv);
            }
            let mut m = String::new();
            append_text(&mut m, "too many requests, please retry later");
            return Err(GuardRejection { status: 429, message: m });
        }
        let mut hits = hits;
        hits.push(now_millis);
        let ghost hv = hits;
        self.hits.insert(key, hits);
        proof {
            lemma_hit_view_insert(before, kv, hv);
        }
        Ok(())
    }
}

} // verus!

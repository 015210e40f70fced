//! Ordering what the full-text index found: by how well the names match the keyword, then by
//! the index's score, then by popularity, keeping the index's order among equals.
use vstd::prelude::*;
use crate::search::{character_bucket, character_relevance_bucket, subject_bucket, subject_relevance_bucket};

verus! {

/// What a hit is ordered by: the match bucket (lower first), the index's score (higher first,
/// as an integer of the same order) and the popularity (higher first).
#[derive(Clone, Copy)]
pub struct RankKey {
    pub bucket: u8,
    pub score: u64,
    pub popularity: u64,
}

/// A character found by the index, with what its rank depends on.
pub struct CharacterHit {
    pub name: String,
    pub name_cn: String,
    pub aliases: String,
    pub name_en: String,
    pub romaji: String,
    pub popularity: u64,
    /// The index's relevance score, as an integer that orders as the score does.
    pub score_key: u64,
}

/// A subject found by the index, with what its rank and its filtering depend on.
pub struct SubjectHit {
    pub name: String,
    pub name_cn: String,
    pub subject_type: i64,
    pub popularity: u64,
    /// The index's relevance score, as an integer that orders as the score does.
    pub score_key: u64,
}

/// Hit `a` comes before hit `b`: better bucket, then higher score, then higher popularity,
/// then the earlier of the two in the index's order.
pub open spec fn precedes(ks: Seq<RankKey>, a: int, b: int) -> bool {
    let x = ks[a];
    let y = ks[b];
    x.bucket < y.bucket || (x.bucket == y.bucket && (x.score > y.score || (x.score == y.score
        && (x.popularity > y.popularity || (x.popularity == y.popularity && a < b)))))
}

/// `order` lists the positions of the kept hits, each once, in the order `precedes` gives.
pub open spec fn ranking(ks: Seq<RankKey>, keep: Seq<bool>, order: Seq<usize>) -> bool {
    &&& forall|k: int| 0 <= k < order.len() ==> (#[trigger] order[k]) < ks.len() && keep[order[k] as int]
    &&& forall|i: int| 0 <= i < ks.len() && #[trigger] keep[i] ==> order.contains(i as usize)
    &&& forall|a: int, b: int| 0 <= a < b < order.len() ==> precedes(ks, #[trigger] order[a] as int, #[trigger] order[b] as int)
}

/// The part of `order` from `offset` on, at most `limit` long.
pub open spec fn window(order: Seq<usize>, offset: int, limit: int) -> Seq<usize> {
    if offset >= order.len() {
        Seq::empty()
    } else if order.len() - offset <= limit {
        order.skip(offset)
    } else {
        order.skip(offset).take(limit)
    }
}

/// There is one ranking only: two orders that both rank the same hits are equal.
pub proof fn law_ranking_is_unique(ks: Seq<RankKey>, keep: Seq<bool>, o1: Seq<usize>, o2: Seq<usize>)
    requires
        keep.len() == ks.len(),
        ranking(ks, keep, o1),
        ranking(ks, keep, o2),
    ensures
        o1 == o2,
{
    lemma_ranking_unique(ks, keep, o1, o2);
}

proof fn lemma_ranking_unique(ks: Seq<RankKey>, keep: Seq<bool>, o1: Seq<usize>, o2: Seq<usize>)
    requires
        keep.len() == ks.len(),
        ranking(ks, keep, o1),
        ranking(ks, keep, o2),
    ensures
        o1 == o2,
{
    // Each order holds exactly the kept positions, and the position of a hit in a ranking is
    // the number of kept hits before it.
    assert forall|k: int| 0 <= k < o1.len() implies o2.contains(#[trigger] o1[k]) by {
        assert(keep[o1[k] as int]);
    }
    assert forall|k: int| 0 <= k < o2.len() implies o1.contains(#[trigger] o2[k]) by {
        assert(keep[o2[k] as int]);
    }
    lemma_sorted_same(ks, o1, o2);
}

/// Two sequences strictly sorted by `precedes` with the same elements are equal.
proof fn lemma_sorted_same(ks: Seq<RankKey>, o1: Seq<usize>, o2: Seq<usize>)
    requires
        forall|k: int| 0 <= k < o1.len() ==> (#[trigger] o1[k]) < ks.len(),
        forall|k: int| 0 <= k < o2.len() ==> (#[trigger] o2[k]) < ks.len(),
        forall|a: int, b: int| 0 <= a < b < o1.len() ==> precedes(ks, #[trigger] o1[a] as int, #[trigger] o1[b] as int),
        forall|a: int, b: int| 0 <= a < b < o2.len() ==> precedes(ks, #[trigger] o2[a] as int, #[trigger] o2[b] as int),
        forall|k: int| 0 <= k < o1.len() ==> o2.contains(#[trigger] o1[k]),
        forall|k: int| 0 <= k < o2.len() ==> o1.contains(#[trigger] o2[k]),
    ensures
        o1 == o2,
    decreases o1.len() + o2.len(),
{
    if o1.len() == 0 {
        if o2.len() > 0 {
            assert(o1.contains(o2[0]));
        }
        assert(o1 =~= o2);
    } else if o2.len() == 0 {
        assert(o2.contains(o1[0]));
    } else {
        // The first elements agree: each is before every other element of its sequence.
        let x = o1[0];
        let y = o2[0];
        if x != y {
            let j = choose|j: int| 0 <= j < o2.len() && o2[j] == x;
            let i = choose|i: int| 0 <= i < o1.len() && o1[i] == y;
            assert(j > 0);
            assert(i > 0);
            assert(precedes(ks, y as int, x as int));
            assert(precedes(ks, x as int, y as int));
        }
        let t1 = o1.drop_first();
        let t2 = o2.drop_first();
        assert forall|k: int| 0 <= k < t1.len() implies t2.contains(#[trigger] t1[k]) by {
            assert(t1[k] == o1[k + 1]);
            let j = choose|j: int| 0 <= j < o2.len() && o2[j] == o1[k + 1];
            if j == 0 {
                assert(precedes(ks, o1[0] as int, o1[k + 1] as int));
            }
            assert(t2[j - 1] == o2[j]);
        }
        assert forall|k: int| 0 <= k < t2.len() implies t1.contains(#[trigger] t2[k]) by {
            assert(t2[k] == o2[k + 1]);
            let i = choose|i: int| 0 <= i < o1.len() && o1[i] == o2[k + 1];
            if i == 0 {
                assert(precedes(ks, o2[0] as int, o2[k + 1] as int));
            }
            assert(t1[i - 1] == o1[i]);
        }
        assert forall|a: int, b: int| 0 <= a < b < t1.len() implies precedes(ks, #[trigger] t1[a] as int, #[trigger] t1[b] as int) by {
            assert(t1[a] == o1[a + 1] && t1[b] == o1[b + 1]);
        }
        assert forall|a: int, b: int| 0 <= a < b < t2.len() implies precedes(ks, #[trigger] t2[a] as int, #[trigger] t2[b] as int) by {
            assert(t2[a] == o2[a + 1] && t2[b] == o2[b + 1]);
        }
        assert forall|k: int| 0 <= k < t1.len() implies (#[trigger] t1[k]) < ks.len() by {
            assert(t1[k] == o1[k + 1]);
        }
        assert forall|k: int| 0 <= k < t2.len() implies (#[trigger] t2[k]) < ks.len() by {
            assert(t2[k] == o2[k + 1]);
        }
        lemma_sorted_same(ks, t1, t2);
        assert(o1 =~= seq![x] + t1);
        assert(o2 =~= seq![y] + t2);
    }
}

fn before(ks: &Vec<RankKey>, a: usize, b: usize) -> (r: bool)
    requires
        a < ks@.len(),
        b < ks@.len(),
    ensures
        r == precedes(ks@, a as int, b as int),
{
    let x = ks[a];
    let y = ks[b];
    x.bucket < y.bucket || (x.bucket == y.bucket && (x.score > y.score || (x.score == y.score
        && (x.popularity > y.popularity || (x.popularity == y.popularity && a < b)))))
}

/// The positions of the kept hits in rank order.
pub fn rank_order(ks: &Vec<RankKey>, keep: &Vec<bool>) -> (order: Vec<usize>)
    requires
        keep@.len() == ks@.len(),
    ensures
        ranking(ks@, keep@, order@),
{
    let n = ks.len();
    let mut rest: Vec<usize> = Vec::new();
    let mut i: usize = 0;
    while i < n
        invariant
            i <= n,
            n == ks@.len(),
            keep@.len() == n,
            forall|k: int| 0 <= k < rest@.len() ==> (#[trigger] rest@[k]) < i && keep@[rest@[k] as int],
            forall|a: int, b: int| 0 <= a < b < rest@.len() ==> #[trigger] rest@[a] < #[trigger] rest@[b],
            forall|j: int| 0 <= j < i && #[trigger] keep@[j] ==> rest@.contains(j as usize),
        decreases n - i,
    {
        if keep[i] {
            let ghost before_push = rest@;
            rest.push(i);
            assert forall|j: int| 0 <= j < i && #[trigger] keep@[j] implies rest@.contains(j as usize) by {
                let k = choose|k: int| 0 <= k < before_push.len() && before_push[k] == j as usize;
                assert(rest@[k] == before_push[k]);
            }
            assert(rest@[rest@.len() - 1] == i);
        }
        i = i + 1;
    }
    let mut order: Vec<usize> = Vec::new();
    while rest.len() > 0
        invariant
            n == ks@.len(),
            keep@.len() == n,
            forall|k: int| 0 <= k < order@.len() ==> (#[trigger] order@[k]) < n && keep@[order@[k] as int],
            forall|k: int| 0 <= k < rest@.len() ==> (#[trigger] rest@[k]) < n && keep@[rest@[k] as int],
            forall|a: int, b: int| 0 <= a < b < rest@.len() ==> #[trigger] rest@[a] != #[trigger] rest@[b],
            forall|j: int| 0 <= j < n && #[trigger] keep@[j] ==> order@.contains(j as usize) || rest@.contains(j as usize),
            forall|a: int, b: int| 0 <= a < b < order@.len() ==> precedes(ks@, #[trigger] order@[a] as int, #[trigger] order@[b] as int),
            forall|a: int, k: int| 0 <= a < order@.len() && 0 <= k < rest@.len() ==> precedes(ks@, #[trigger] order@[a] as int, #[trigger] rest@[k] as int),
        decreases rest@.len(),
    {
        let mut mi: usize = 0;
        let mut j: usize = 1;
        while j < rest.len()
            invariant
                n == ks@.len(),
                mi < j <= rest@.len(),
                forall|k: int| 0 <= k < rest@.len() ==> (#[trigger] rest@[k]) < n,
                forall|a: int, b: int| 0 <= a < b < rest@.len() ==> #[trigger] rest@[a] != #[trigger] rest@[b],
                forall|k: int| 0 <= k < j && k != mi ==> precedes(ks@, rest@[mi as int] as int, #[trigger] rest@[k] as int),
            decreases rest@.len() - j,
        {
            if before(ks, rest[j], rest[mi]) {
                assert forall|k: int| 0 <= k < j + 1 && k != j implies precedes(ks@, rest@[j as int] as int, #[trigger] rest@[k] as int) by {
                    if k != mi {
                        assert(precedes(ks@, rest@[mi as int] as int, rest@[k] as int));
                    }
                }
                mi = j;
            } else {
                assert(rest@[j as int] != rest@[mi as int]);
            }
            j = j + 1;
        }
        let ghost r0 = rest@;
        let ghost o0 = order@;
        let m = rest.remove(mi);
        order.push(m);
        assert forall|k: int| 0 <= k < rest@.len() implies #[trigger] rest@[k] == (if k < mi { r0[k] } else { r0[k + 1] }) by {}
        assert forall|k: int| 0 <= k < rest@.len() implies precedes(ks@, m as int, #[trigger] rest@[k] as int) by {
            if k < mi {
                assert(rest@[k] == r0[k]);
            } else {
                assert(rest@[k] == r0[k + 1]);
            }
        }
        assert forall|a: int, k: int| 0 <= a < order@.len() && 0 <= k < rest@.len() implies precedes(ks@, #[trigger] order@[a] as int, #[trigger] rest@[k] as int) by {
            if a < o0.len() {
                assert(order@[a] == o0[a]);
                if k < mi {
                    assert(rest@[k] == r0[k]);
                } else {
                    assert(rest@[k] == r0[k + 1]);
                }
            }
        }
        assert forall|a: int, b: int| 0 <= a < b < order@.len() implies precedes(ks@, #[trigger] order@[a] as int, #[trigger] order@[b] as int) by {
            assert(order@[a] == o0[a]);
            if b < o0.len() {
                assert(order@[b] == o0[b]);
            }
        }
        assert forall|a: int, b: int| 0 <= a < b < rest@.len() implies #[trigger] rest@[a] != #[trigger] rest@[b] by {
            let a0 = if a < mi { a } else { a + 1 };
            let b0 = if b < mi { b } else { b + 1 };
            assert(rest@[a] == r0[a0] && rest@[b] == r0[b0]);
        }
        assert forall|jj: int| 0 <= jj < n && #[trigger] keep@[jj] implies order@.contains(jj as usize) || rest@.contains(jj as usize) by {
            if o0.contains(jj as usize) {
                let k = choose|k: int| 0 <= k < o0.len() && o0[k] == jj as usize;
                assert(order@[k] == o0[k]);
            } else {
                let k = choose|k: int| 0 <= k < r0.len() && r0[k] == jj as usize;
                if k == mi {
                    assert(order@[o0.len() as int] == jj as usize);
                } else if k < mi {
                    assert(rest@[k] == r0[k]);
                } else {
                    assert(rest@[k - 1] == r0[k]);
                }
            }
        }
        assert forall|k: int| 0 <= k < order@.len() implies (#[trigger] order@[k]) < n && keep@[order@[k] as int] by {
            if k < o0.len() {
                assert(order@[k] == o0[k]);
            }
        }
    }
    order
}

/// The part of `order` from `offset` on, at most `limit` long.
fn window_of(order: &Vec<usize>, offset: usize, limit: usize) -> (r: Vec<usize>)
    ensures
        r@ == window(order@, offset as int, limit as int),
{
    let mut out: Vec<usize> = Vec::new();
    if offset >= order.len() {
        return out;
    }
    let mut k: usize = offset;
    while k < order.len() && k - offset < limit
        invariant
            offset <= k <= order@.len(),
            k - offset <= limit,
            out@ == order@.subrange(offset as int, k as int),
        decreases order@.len() - k,
    {
        out.push(order[k]);
        k = k + 1;
    }
    proof {
        if order@.len() - offset <= limit {
            assert(out@ =~= order@.skip(offset as int));
        } else {
            assert(out@ =~= order@.skip(offset as int).take(limit as int));
        }
    }
    out
}

/// The rank keys of character hits for `keyword`.
pub open spec fn character_keys(hs: Seq<CharacterHit>, keyword: Seq<char>) -> Seq<RankKey> {
    Seq::new(hs.len(), |i: int| RankKey {
        bucket: character_bucket(hs[i].name@, hs[i].name_cn@, hs[i].aliases@, hs[i].name_en@, hs[i].romaji@, keyword),
        score: hs[i].score_key,
        popularity: hs[i].popularity,
    })
}

/// The rank keys of subject hits for `keyword`.
pub open spec fn subject_keys(hs: Seq<SubjectHit>, keyword: Seq<char>) -> Seq<RankKey> {
    Seq::new(hs.len(), |i: int| RankKey {
        bucket: subject_bucket(hs[i].name@, hs[i].name_cn@, keyword),
        score: hs[i].score_key,
        popularity: hs[i].popularity,
    })
}

/// The subject hits whose type is one of `types`.
pub open spec fn type_kept(hs: Seq<SubjectHit>, types: Seq<i64>) -> Seq<bool> {
    Seq::new(hs.len(), |i: int| types.contains(hs[i].subject_type))
}

/// The positions, in `hits`, of the characters to show for `keyword`: all hits ranked, then
/// from `offset` on, at most `limit`.
pub fn rank_character_hits(hits: &Vec<CharacterHit>, keyword: &str, offset: usize, limit: usize) -> (r: Vec<usize>)
    ensures
        exists|order: Seq<usize>| ranking(character_keys(hits@, keyword@), Seq::new(hits@.len(), |i: int| true), order)
            && r@ == window(order, offset as int, limit as int),
{
    let mut ks: Vec<RankKey> = Vec::new();
    let mut keep: Vec<bool> = Vec::new();
    let mut i: usize = 0;
    while i < hits.len()
        invariant
            i <= hits@.len(),
            ks@.len() == i && keep@.len() == i,
            forall|k: int| 0 <= k < i ==> #[trigger] ks@[k] == character_keys(hits@, keyword@)[k],
            forall|k: int| 0 <= k < i ==> #[trigger] keep@[k],
        decreases hits@.len() - i,
    {
        let h = &hits[i];
        let b = character_relevance_bucket(
            h.name.as_str(), h.name_cn.as_str(), h.aliases.as_str(), h.name_en.as_str(), h.romaji.as_str(), keyword,
        );
        ks.push(RankKey { bucket: b, score: h.score_key, popularity: h.popularity });
        keep.push(true);
        i = i + 1;
    }
    assert(ks@ =~= character_keys(hits@, keyword@));
    assert(keep@ =~= Seq::new(hits@.len(), |i: int| true));
    let order = rank_order(&ks, &keep);
    window_of(&order, offset, limit)
}

fn has_type(types: &Vec<i64>, t: i64) -> (r: bool)
    ensures
        r == types@.contains(t),
{
    let mut k: usize = 0;
    while k < types.len()
        invariant
            k <= types@.len(),
            forall|j: int| 0 <= j < k ==> types@[j] != t,
        decreases types@.len() - k,
    {
        if types[k] == t {
            return true;
        }
        k = k + 1;
    }
    false
}

/// The positions, in `hits`, of the subjects to show for `keyword`: the hits of one of
/// `types`, ranked, at most `limit`.
pub fn rank_subject_hits(hits: &Vec<SubjectHit>, keyword: &str, types: &Vec<i64>, limit: usize) -> (r: Vec<usize>)
    ensures
        exists|order: Seq<usize>| ranking(subject_keys(hits@, keyword@), type_kept(hits@, types@), order)
            && r@ == window(order, 0, limit as int),
{
    let mut ks: Vec<RankKey> = Vec::new();
    let mut keep: Vec<bool> = Vec::new();
    let mut i: usize = 0;
    while i < hits.len()
        invariant
            i <= hits@.len(),
            ks@.len() == i && keep@.len() == i,
            forall|k: int| 0 <= k < i ==> #[trigger] ks@[k] == subject_keys(hits@, keyword@)[k],
            forall|k: int| 0 <= k < i ==> #[trigger] keep@[k] == type_kept(hits@, types@)[k],
        decreases hits@.len() - i,
    {
        let h = &hits[i];
        let b = subject_relevance_bucket(h.name.as_str(), h.name_cn.as_str(), keyword);
        ks.push(RankKey { bucket: b, score: h.score_key, popularity: h.popularity });
        keep.push(has_type(types, h.subject_type));
        i = i + 1;
    }
    assert(ks@ =~= subject_keys(hits@, keyword@));
    assert(keep@ =~= type_kept(hits@, types@));
    let order = rank_order(&ks, &keep);
    window_of(&order, 0, limit)
}

} // verus!

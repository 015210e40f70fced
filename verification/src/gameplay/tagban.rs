//! Merging the tag bans revealed during a round into the room's ban list.
use vstd::prelude::*;
use crate::keyed::{IdSet, distinct_texts, sorted_texts_of, text_set, texts};
use crate::state::{TagBanEntry, TagBanModel, tag_bans_view};
use crate::text::{sorted_texts, text_eq, trim, trim_spec};

verus! {

/// `s` with a text appended has the text among its elements.
pub proof fn lemma_push_to_set(s: Seq<Seq<char>>, x: Seq<char>)
    ensures
        s.push(x).to_set() == s.to_set().insert(x),
{
    assert forall|k: Seq<char>| #[trigger] s.push(x).to_set().contains(k) == s.to_set().insert(x).contains(k) by {
        if s.push(x).to_set().contains(k) {
            let i = choose|i: int| 0 <= i < s.push(x).len() && s.push(x)[i] == k;
            if i < s.len() {
                assert(s[i] == k);
            }
        }
        if s.to_set().contains(k) {
            let i = choose|i: int| 0 <= i < s.len() && s[i] == k;
            assert(s.push(x)[i] == k);
        }
        if k == x {
            assert(s.push(x)[s.len() as int] == k);
        }
    }
    assert(s.push(x).to_set() =~= s.to_set().insert(x));
}


/// `s` with a number appended has the number among its elements.
pub proof fn lemma_push_to_set_int(s: Seq<i64>, x: i64)
    ensures
        s.push(x).to_set() == s.to_set().insert(x),
{
    assert forall|k: i64| #[trigger] s.push(x).to_set().contains(k) == s.to_set().insert(x).contains(k) by {
        if s.push(x).to_set().contains(k) {
            let i = choose|i: int| 0 <= i < s.push(x).len() && s.push(x)[i] == k;
            if i < s.len() {
                assert(s[i] == k);
            }
        }
        if s.to_set().contains(k) {
            let i = choose|i: int| 0 <= i < s.len() && s[i] == k;
            assert(s.push(x)[i] == k);
        }
        if k == x {
            assert(s.push(x)[s.len() as int] == k);
        }
    }
    assert(s.push(x).to_set() =~= s.to_set().insert(x));
}

pub proof fn lemma_text_set(v: Seq<String>)
    ensures
        text_set(v) == texts(v).to_set(),
{
    assert forall|k: Seq<char>| #[trigger] text_set(v).contains(k) == texts(v).to_set().contains(k) by {
        if text_set(v).contains(k) {
            let i = choose|i: int| 0 <= i < v.len() && v[i]@ == k;
            assert(texts(v)[i] == k);
        }
        if texts(v).to_set().contains(k) {
            let i = choose|i: int| 0 <= i < texts(v).len() && texts(v)[i] == k;
            assert(v[i]@ == k);
        }
    }
    assert(text_set(v) =~= texts(v).to_set());
}

/// The first entry of `state` for `tag`.
pub open spec fn tag_index(state: Seq<TagBanModel>, tag: Seq<char>) -> Option<int> {
    if exists|i: int| 0 <= i < state.len() && #[trigger] state[i].tag == tag {
        Some(choose|i: int| 0 <= i < state.len() && #[trigger] state[i].tag == tag && forall|j: int| 0 <= j < i ==> state[j].tag != tag)
    } else {
        None
    }
}


proof fn lemma_min_tag_exists(state: Seq<TagBanModel>, tag: Seq<char>, i: int)
    requires
        0 <= i < state.len(),
        state[i].tag == tag,
    ensures
        exists|k: int| 0 <= k < state.len() && #[trigger] state[k].tag == tag && forall|j: int| 0 <= j < k ==> state[j].tag != tag,
    decreases i,
{
    if exists|j: int| 0 <= j < i && #[trigger] state[j].tag == tag {
        let j = choose|j: int| 0 <= j < i && #[trigger] state[j].tag == tag;
        lemma_min_tag_exists(state, tag, j);
    } else {
        assert(forall|j: int| 0 <= j < i ==> state[j].tag != tag);
    }
}

/// `tag_index` gives a position in range holding the tag.
pub proof fn lemma_tag_index(state: Seq<TagBanModel>, tag: Seq<char>)
    ensures
        tag_index(state, tag) matches Some(k) ==> 0 <= k < state.len() && state[k].tag == tag,
{
    if exists|i: int| 0 <= i < state.len() && #[trigger] state[i].tag == tag {
        let i = choose|i: int| 0 <= i < state.len() && #[trigger] state[i].tag == tag;
        lemma_min_tag_exists(state, tag, i);
    }
}

/// One revealed tag merged into the list: its trimmed tag gets an entry (added at the end if
/// new), and where it brings revealers the entry lacks, the entry's revealers become the
/// union, sorted. The flag says whether the list changed.
pub open spec fn merge_entry(state: Seq<TagBanModel>, e: TagBanModel) -> (Seq<TagBanModel>, bool) {
    let tag = trim_spec(e.tag);
    if tag.len() == 0 {
        (state, false)
    } else {
        let created = tag_index(state, tag) is None;
        let idx: int = match tag_index(state, tag) { Some(i) => i, None => state.len() as int };
        let st1 = if created { state.push(TagBanModel { tag, revealer: Seq::empty() }) } else { state };
        let existing = st1[idx].revealer;
        if e.revealer.to_set().subset_of(existing.to_set()) {
            (st1, created)
        } else {
            (st1.update(idx, TagBanModel { tag: st1[idx].tag, revealer: sorted_texts(existing.to_set() + e.revealer.to_set()) }), true)
        }
    }
}

/// The pending tags merged into the list one after the other.
pub open spec fn merge_entries(state: Seq<TagBanModel>, pending: Seq<TagBanModel>) -> (Seq<TagBanModel>, bool)
    decreases pending.len(),
{
    if pending.len() == 0 {
        (state, false)
    } else {
        let (s1, c1) = merge_entries(state, pending.drop_last());
        let (s2, c2) = merge_entry(s1, pending.last());
        (s2, c1 || c2)
    }
}

fn find_tag(state: &Vec<TagBanEntry>, tag: &str) -> (r: Option<usize>)
    ensures
        match r {
            Some(i) => tag_index(tag_bans_view(state@), tag@) == Some(i as int) && i < state@.len(),
            None => tag_index(tag_bans_view(state@), tag@) is None,
        },
{
    let ghost sv = tag_bans_view(state@);
    let mut i: usize = 0;
    while i < state.len()
        invariant
            i <= state@.len(),
            sv == tag_bans_view(state@),
            forall|j: int| 0 <= j < i ==> sv[j].tag != tag@,
        decreases state@.len() - i,
    {
        if text_eq(state[i].tag.as_str(), tag) {
            assert(sv[i as int].tag == tag@);
            let ghost c = choose|k: int| 0 <= k < sv.len() && #[trigger] sv[k].tag == tag@ && forall|j: int| 0 <= j < k ==> sv[j].tag != tag@;
            assert(c == i as int) by {
                if c < i { assert(sv[c].tag != tag@); }
                if c > i { assert(sv[i as int].tag != tag@); }
            }
            return Some(i);
        }
        i = i + 1;
    }
    None
}

/// Whether `incoming` holds a text missing from `existing`.
fn brings_new(existing: &Vec<String>, incoming: &Vec<String>) -> (r: bool)
    ensures
        r == !texts(incoming@).to_set().subset_of(texts(existing@).to_set()),
{
    let mut have = IdSet::new();
    let mut i: usize = 0;
    while i < existing.len()
        invariant
            i <= existing@.len(),
            have.wf(),
            have@ == texts(existing@.take(i as int)).to_set(),
        decreases existing@.len() - i,
    {
        proof {
            assert(texts(existing@.take(i + 1)) =~= texts(existing@.take(i as int)).push(existing@[i as int]@));
            lemma_push_to_set(texts(existing@.take(i as int)), existing@[i as int]@);
        }
        have.insert(existing[i].clone());
        i = i + 1;
    }
    assert(existing@.take(existing@.len() as int) =~= existing@);
    let mut j: usize = 0;
    while j < incoming.len()
        invariant
            j <= incoming@.len(),
            have@ == texts(existing@).to_set(),
            forall|k: int| 0 <= k < j ==> have@.contains(#[trigger] texts(incoming@)[k]),
        decreases incoming@.len() - j,
    {
        if !have.contains(incoming[j].as_str()) {
            assert(texts(incoming@).to_set().contains(incoming@[j as int]@)) by {
                assert(texts(incoming@)[j as int] == incoming@[j as int]@);
            }
            return true;
        }
        assert(texts(incoming@)[j as int] == incoming@[j as int]@);
        j = j + 1;
    }
    assert(texts(incoming@).to_set().subset_of(texts(existing@).to_set())) by {
        assert forall|x: Seq<char>| texts(incoming@).to_set().contains(x) implies texts(existing@).to_set().contains(x) by {
            let k = choose|k: int| 0 <= k < texts(incoming@).len() && texts(incoming@)[k] == x;
        }
    }
    false
}

/// The texts of `a` and `b` together, without repetition, in increasing order.
fn sorted_union(a: &Vec<String>, b: &Vec<String>) -> (r: Vec<String>)
    ensures
        texts(r@) == sorted_texts(texts(a@).to_set() + texts(b@).to_set()),
{
    let mut set = IdSet::new();
    let mut i: usize = 0;
    while i < a.len()
        invariant
            i <= a@.len(),
            set.wf(),
            set@ == texts(a@.take(i as int)).to_set(),
        decreases a@.len() - i,
    {
        proof {
            assert(texts(a@.take(i + 1)) =~= texts(a@.take(i as int)).push(a@[i as int]@));
            lemma_push_to_set(texts(a@.take(i as int)), a@[i as int]@);
        }
        set.insert(a[i].clone());
        i = i + 1;
    }
    assert(a@.take(a@.len() as int) =~= a@);
    let mut j: usize = 0;
    while j < b.len()
        invariant
            j <= b@.len(),
            set.wf(),
            set@ == texts(a@).to_set() + texts(b@.take(j as int)).to_set(),
        decreases b@.len() - j,
    {
        proof {
            assert(texts(b@.take(j + 1)) =~= texts(b@.take(j as int)).push(b@[j as int]@));
            lemma_push_to_set(texts(b@.take(j as int)), b@[j as int]@);
        }
        set.insert(b[j].clone());
        assert(set@ =~= texts(a@).to_set() + texts(b@.take(j + 1)).to_set());
        j = j + 1;
    }
    assert(b@.take(b@.len() as int) =~= b@);
    proof { lemma_text_set(set.items@); }
    sorted_texts_of(&set.items)
}

/// Merges one revealed tag into `state` (see `merge_entry`).
fn merge_one(state: &mut Vec<TagBanEntry>, entry: &TagBanEntry) -> (changed: bool)
    ensures
        (tag_bans_view(final(state)@), changed) == merge_entry(tag_bans_view(old(state)@), entry@),
{
    let ghost s0 = tag_bans_view(state@);
    let tag = trim(entry.tag.as_str());
    let empty = "";
    proof { reveal_strlit(""); }
    if text_eq(tag.as_str(), empty) {
        return false;
    }
    assert(tag@.len() > 0) by {
        if tag@.len() == 0 { assert(tag@ =~= empty@); }
    }
    let mut created = false;
    let idx = match find_tag(state, tag.as_str()) {
        Some(i) => i,
        None => {
            state.push(TagBanEntry { tag: tag.clone(), revealer: Vec::new() });
            assert(tag_bans_view(state@) =~= s0.push(TagBanModel { tag: tag@, revealer: Seq::empty() })) by {
                assert(tag_bans_view(state@)[s0.len() as int].revealer =~= Seq::<Seq<char>>::empty());
            }
            created = true;
            state.len() - 1
        },
    };
    let ghost s1 = tag_bans_view(state@);
    if !brings_new(&state[idx].revealer, &entry.revealer) {
        return created;
    }
    let merged = sorted_union(&state[idx].revealer, &entry.revealer);
    let ghost old_tag = state@[idx as int].tag;
    state[idx].revealer = merged;
    assert(tag_bans_view(state@) =~= s1.update(idx as int, TagBanModel {
        tag: s1[idx as int].tag,
        revealer: sorted_texts(s1[idx as int].revealer.to_set() + texts(entry.revealer@).to_set()),
    }));
    true
}

/// Merges every pending tag into the list (see `merge_entries`); says whether the list changed.
pub fn merge_pending_tag_bans(state: &mut Vec<TagBanEntry>, pending: &Vec<TagBanEntry>) -> (changed: bool)
    ensures
        (tag_bans_view(final(state)@), changed) == merge_entries(tag_bans_view(old(state)@), tag_bans_view(pending@)),
{
    let ghost s0 = tag_bans_view(state@);
    let ghost pv = tag_bans_view(pending@);
    let mut changed = false;
    let mut i: usize = 0;
    while i < pending.len()
        invariant
            i <= pending@.len(),
            pv == tag_bans_view(pending@),
            (tag_bans_view(state@), changed) == merge_entries(s0, pv.take(i as int)),
        decreases pending@.len() - i,
    {
        assert(pv.take(i + 1).drop_last() =~= pv.take(i as int));
        assert(pv.take(i + 1).last() == pending@[i as int]@);
        let c = merge_one(state, &pending[i]);
        changed = changed || c;
        i = i + 1;
    }
    assert(pv.take(pending@.len() as int) =~= pv);
    changed
}


/// `s` without repetitions, each text where it first occurs.
pub open spec fn dedup_texts(s: Seq<Seq<char>>) -> Seq<Seq<char>>
    decreases s.len(),
{
    if s.len() == 0 {
        Seq::empty()
    } else {
        let prev = dedup_texts(s.drop_last());
        if prev.contains(s.last()) { prev } else { prev.push(s.last()) }
    }
}

/// The tags of the list.
pub open spec fn state_tags(state: Seq<TagBanModel>) -> Set<Seq<char>> {
    state.map_values(|e: TagBanModel| e.tag).to_set()
}

/// The tags known once the pending entries before the end have been looked at.
pub open spec fn seen_after(seen0: Set<Seq<char>>, pending: Seq<TagBanModel>) -> Set<Seq<char>>
    decreases pending.len(),
{
    if pending.len() == 0 {
        seen0
    } else {
        let s = seen_after(seen0, pending.drop_last());
        let t = trim_spec(pending.last().tag);
        if t.len() == 0 || s.contains(t) { s } else { s.insert(t) }
    }
}

/// The pending entries whose trimmed tag is not empty and not yet known, with their
/// revealers without repetition.
pub open spec fn fresh_entries(seen0: Set<Seq<char>>, pending: Seq<TagBanModel>) -> Seq<TagBanModel>
    decreases pending.len(),
{
    if pending.len() == 0 {
        Seq::empty()
    } else {
        let prev = fresh_entries(seen0, pending.drop_last());
        let s = seen_after(seen0, pending.drop_last());
        let e = pending.last();
        let t = trim_spec(e.tag);
        if t.len() == 0 || s.contains(t) {
            prev
        } else {
            prev.push(TagBanModel { tag: t, revealer: dedup_texts(e.revealer) })
        }
    }
}

fn dedup(v: &Vec<String>) -> (r: Vec<String>)
    ensures
        texts(r@) == dedup_texts(texts(v@)),
{
    let ghost tv = texts(v@);
    let mut out: Vec<String> = Vec::new();
    let mut set = IdSet::new();
    let mut i: usize = 0;
    while i < v.len()
        invariant
            i <= v@.len(),
            tv == texts(v@),
            set.wf(),
            texts(out@) == dedup_texts(tv.take(i as int)),
            set@ == texts(out@).to_set(),
        decreases v@.len() - i,
    {
        assert(tv.take(i + 1).drop_last() =~= tv.take(i as int));
        assert(tv.take(i + 1).last() == v@[i as int]@);
        if !set.contains(v[i].as_str()) {
            proof { lemma_push_to_set(texts(out@), v@[i as int]@); }
            out.push(v[i].clone());
            set.insert(v[i].clone());
            assert(texts(out@) =~= dedup_texts(tv.take(i as int)).push(v@[i as int]@));
        }
        i = i + 1;
    }
    assert(tv.take(v@.len() as int) =~= tv);
    out
}

/// The new list entries made from the pending tags (see `fresh_entries`), given the list.
pub fn new_tag_entries(state: &Vec<TagBanEntry>, pending: &Vec<TagBanEntry>) -> (r: Vec<TagBanEntry>)
    ensures
        tag_bans_view(r@) == fresh_entries(state_tags(tag_bans_view(state@)), tag_bans_view(pending@)),
{
    let ghost sv = tag_bans_view(state@);
    let ghost pv = tag_bans_view(pending@);
    let ghost seen0 = state_tags(sv);
    let mut seen = IdSet::new();
    let mut k: usize = 0;
    while k < state.len()
        invariant
            k <= state@.len(),
            sv == tag_bans_view(state@),
            seen.wf(),
            seen@ == state_tags(sv.take(k as int)),
        decreases state@.len() - k,
    {
        proof {
            assert(sv.take(k + 1).map_values(|e: TagBanModel| e.tag) =~= sv.take(k as int).map_values(|e: TagBanModel| e.tag).push(state@[k as int].tag@));
            lemma_push_to_set(sv.take(k as int).map_values(|e: TagBanModel| e.tag), state@[k as int].tag@);
        }
        seen.insert(state[k].tag.clone());
        k = k + 1;
    }
    assert(sv.take(state@.len() as int) =~= sv);
    let mut out: Vec<TagBanEntry> = Vec::new();
    let mut i: usize = 0;
    let empty = "";
    proof { reveal_strlit(""); }
    while i < pending.len()
        invariant
            i <= pending@.len(),
            pv == tag_bans_view(pending@),
            seen.wf(),
            seen@ == seen_after(seen0, pv.take(i as int)),
            tag_bans_view(out@) == fresh_entries(seen0, pv.take(i as int)),
            empty@ == Seq::<char>::empty(),
        decreases pending@.len() - i,
    {
        assert(pv.take(i + 1).drop_last() =~= pv.take(i as int));
        assert(pv.take(i + 1).last() == pending@[i as int]@);
        let tag = trim(pending[i].tag.as_str());
        let is_empty = text_eq(tag.as_str(), empty);
        assert(is_empty == (tag@.len() == 0)) by {
            if tag@.len() == 0 { assert(tag@ =~= empty@); }
        }
        if !is_empty && !seen.contains(tag.as_str()) {
            seen.insert(tag.clone());
            let e = TagBanEntry { tag, revealer: dedup(&pending[i].revealer) };
            let ghost before = tag_bans_view(out@);
            let ghost ev = e@;
            out.push(e);
            assert(tag_bans_view(out@) =~= before.push(ev));
        }
        i = i + 1;
    }
    assert(pv.take(pending@.len() as int) =~= pv);
    out
}

} // verus!

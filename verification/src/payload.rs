//! The character payload: which of a character's works count as its appearances, in what
//! order, the years they span, and the tags gathered from them.
use vstd::prelude::*;
use crate::catalog::{aliases_of, nonempty_tag, primary_tag, source_aliases, type_only, types_for};
use crate::gameplay::details::texts_contain;
use crate::keyed::texts;
use crate::settings::GameSettings;
use crate::text::{append_text, text_eq};

verus! {

/// A tag of a work with its vote count; the name is absent where the data holds none.
pub struct SubjectTag {
    pub name: Option<String>,
    pub count: i64,
}

/// A work a character appears in.
pub struct SubjectInfo {
    pub id: i64,
    /// 1 for a main role, 2 for a supporting one.
    pub role: i64,
    /// The subject type (2 anime, 4 game, ...).
    pub stype: i64,
    pub year: i32,
    pub popularity: i64,
    pub name: String,
    pub name_cn: String,
    pub tags: Vec<SubjectTag>,
    /// Meta tags; absent where the data holds something other than a text.
    pub meta_tags: Vec<Option<String>>,
}

/// One of the meta tags of `s` is `needle`.
pub open spec fn meta_has(s: SubjectInfo, needle: Seq<char>) -> bool {
    exists|i: int| 0 <= i < s.meta_tags@.len() && (#[trigger] s.meta_tags@[i] matches Some(t) && t@ == needle)
}

/// One of the tags of `s` is named by one of `needles`.
pub open spec fn tags_have_any(s: SubjectInfo, needles: Seq<Seq<char>>) -> bool {
    exists|i: int| 0 <= i < s.tags@.len() && (#[trigger] s.tags@[i].name matches Some(n) && needles.contains(n@))
}

/// The work passes the tag filters of the settings: the first meta tag (unless it only picks
/// the type), the source (by any of its aliases) and the genre (as meta tag or tag).
pub open spec fn subject_matches(tags: Seq<Seq<char>>, s: SubjectInfo) -> bool {
    &&& (type_only(primary_tag(tags)) || meta_has(s, primary_tag(tags)))
    &&& (match nonempty_tag(tags, 1) {
        Some(src) => tags_have_any(s, aliases_of(src)),
        None => true,
    })
    &&& (match nonempty_tag(tags, 2) {
        Some(g) => meta_has(s, g) || tags_have_any(s, seq![g]),
        None => true,
    })
}

fn meta_contains(s: &SubjectInfo, needle: &str) -> (r: bool)
    ensures
        r == meta_has(*s, needle@),
{
    let mut i: usize = 0;
    while i < s.meta_tags.len()
        invariant
            i <= s.meta_tags@.len(),
            forall|j: int| 0 <= j < i ==> !(#[trigger] s.meta_tags@[j] matches Some(t) && t@ == needle@),
        decreases s.meta_tags@.len() - i,
    {
        match &s.meta_tags[i] {
            Some(t) => if text_eq(t.as_str(), needle) {
                assert(s.meta_tags@[i as int] matches Some(t) && t@ == needle@);
                return true;
            },
            None => {},
        }
        i = i + 1;
    }
    false
}

fn tags_contain_any(s: &SubjectInfo, needles: &Vec<String>) -> (r: bool)
    ensures
        r == tags_have_any(*s, texts(needles@)),
{
    let mut i: usize = 0;
    while i < s.tags.len()
        invariant
            i <= s.tags@.len(),
            forall|j: int| 0 <= j < i ==> !(#[trigger] s.tags@[j].name matches Some(n) && texts(needles@).contains(n@)),
        decreases s.tags@.len() - i,
    {
        match &s.tags[i].name {
            Some(n) => if texts_contain(needles, n.as_str()) {
                assert(s.tags@[i as int].name matches Some(n) && texts(needles@).contains(n@));
                return true;
            },
            None => {},
        }
        i = i + 1;
    }
    false
}

impl GameSettings {
    /// The work passes the tag filters of these settings.
    pub fn matches_subject(&self, subject: &SubjectInfo) -> (r: bool)
        ensures
            r == subject_matches(texts(self.meta_tags@), *subject),
    {
        if let Some(primary) = self.primary_meta_filter() {
            if !meta_contains(subject, primary) {
                return false;
            }
        }
        if let Some(source) = self.source_filter() {
            let aliases = source_aliases(source);
            if !tags_contain_any(subject, &aliases) {
                return false;
            }
        }
        if let Some(genre) = self.genre_filter() {
            let mut one: Vec<String> = Vec::new();
            let mut g = String::new();
            append_text(&mut g, genre);
            one.push(g);
            assert(texts(one@) =~= seq![genre@]);
            if !meta_contains(subject, genre) && !tags_contain_any(subject, &one) {
                return false;
            }
        }
        true
    }
}

/// The work is of an allowed type, passes the tag filters, and lies within the years of the
/// settings and no later than `current_year`.
pub open spec fn subject_counts(settings: GameSettings, s: SubjectInfo, current_year: int) -> bool {
    &&& types_for(primary_tag(texts(settings.meta_tags@))).contains(s.stype)
    &&& subject_matches(texts(settings.meta_tags@), s)
    &&& 0 < s.year <= current_year
    &&& (settings.start_year matches Some(sy) ==> s.year >= sy)
    &&& (settings.end_year matches Some(ey) ==> s.year <= ey)
}

fn i64s_contain(v: &Vec<i64>, x: i64) -> (r: bool)
    ensures
        r == v@.contains(x),
{
    let mut i: usize = 0;
    while i < v.len()
        invariant
            i <= v@.len(),
            forall|j: int| 0 <= j < i ==> v@[j] != x,
        decreases v@.len() - i,
    {
        if v[i] == x {
            return true;
        }
        i = i + 1;
    }
    false
}

/// The positions of the works that count, in order.
pub open spec fn counted_positions(settings: GameSettings, subjects: Seq<SubjectInfo>, current_year: int) -> Seq<usize>
    decreases subjects.len(),
{
    if subjects.len() == 0 {
        Seq::empty()
    } else {
        let p = counted_positions(settings, subjects.drop_last(), current_year);
        if subject_counts(settings, subjects.last(), current_year) {
            p.push((subjects.len() - 1) as usize)
        } else {
            p
        }
    }
}

/// The positions `0..n`.
pub open spec fn all_positions(n: nat) -> Seq<usize> {
    Seq::new(n, |i: int| i as usize)
}

/// Every counted position lies within the works.
pub proof fn lemma_counted_in_range(settings: GameSettings, subjects: Seq<SubjectInfo>, current_year: int)
    ensures
        forall|k: int| 0 <= k < counted_positions(settings, subjects, current_year).len()
            ==> #[trigger] counted_positions(settings, subjects, current_year)[k] < subjects.len(),
    decreases subjects.len(),
{
    if subjects.len() > 0 {
        let init = subjects.drop_last();
        lemma_counted_in_range(settings, init, current_year);
        let p = counted_positions(settings, init, current_year);
        let c = counted_positions(settings, subjects, current_year);
        assert forall|k: int| 0 <= k < c.len() implies #[trigger] c[k] < subjects.len() by {
            if k < p.len() {
                assert(c[k] == p[k]);
            }
        }
    }
}

/// `i` comes before `j`: more popular first, the earlier one first among equals.
pub open spec fn goes_before(subjects: Seq<SubjectInfo>, i: usize, j: usize) -> bool {
    subjects[i as int].popularity > subjects[j as int].popularity
        || (subjects[i as int].popularity == subjects[j as int].popularity && i < j)
}

/// Positions in strictly increasing `goes_before` order.
pub open spec fn ordered_positions(subjects: Seq<SubjectInfo>, s: Seq<usize>) -> bool {
    forall|a: int, b: int| 0 <= a < b < s.len() ==> goes_before(subjects, #[trigger] s[a], #[trigger] s[b])
}

/// The works of a character that count as appearances, most popular first (a stable order
/// among equals); all of them when none passes the settings.
pub fn appearance_order(settings: &GameSettings, subjects: &Vec<SubjectInfo>, current_year: i32) -> (r: Vec<usize>)
    ensures
        ({
            let counted = counted_positions(*settings, subjects@, current_year as int);
            let chosen = if counted.len() == 0 {
                all_positions(subjects@.len())
            } else {
                counted
            };
            &&& r@.to_set() == chosen.to_set()
            &&& r@.len() == chosen.len()
            &&& ordered_positions(subjects@, r@)
        }),
{
    let allowed = settings.subject_types();
    let mut counted: Vec<usize> = Vec::new();
    let mut i: usize = 0;
    assert(subjects@.take(0) =~= Seq::<SubjectInfo>::empty());
    while i < subjects.len()
        invariant
            i <= subjects@.len(),
            allowed@ == types_for(primary_tag(texts(settings.meta_tags@))),
            counted@ == counted_positions(*settings, subjects@.take(i as int), current_year as int),
            forall|k: int| 0 <= k < counted@.len() ==> #[trigger] counted@[k] < i,
            forall|a: int, b: int| 0 <= a < b < counted@.len() ==> counted@[a] < counted@[b],
        decreases subjects@.len() - i,
    {
        let s = &subjects[i];
        assert(subjects@.take(i + 1).drop_last() =~= subjects@.take(i as int));
        assert(subjects@.take(i + 1).last() == *s);
        let mut keep = i64s_contain(&allowed, s.stype) && settings.matches_subject(s);
        if keep {
            keep = s.year > 0 && s.year <= current_year;
        }
        if keep {
            if let Some(sy) = settings.start_year {
                if s.year < sy {
                    keep = false;
                }
            }
        }
        if keep {
            if let Some(ey) = settings.end_year {
                if s.year > ey {
                    keep = false;
                }
            }
        }
        assert(keep == subject_counts(*settings, *s, current_year as int));
        if keep {
            counted.push(i);
        }
        i = i + 1;
    }
    assert(subjects@.take(subjects@.len() as int) =~= subjects@);
    let ghost counted_spec = counted@;
    let mut chosen: Vec<usize> = Vec::new();
    if counted.len() == 0 {
        let mut k: usize = 0;
        assert(chosen@ =~= all_positions(0));
        while k < subjects.len()
            invariant
                k <= subjects@.len(),
                chosen@ == all_positions(k as nat),
            decreases subjects@.len() - k,
        {
            chosen.push(k);
            assert(chosen@ =~= all_positions((k + 1) as nat));
            k = k + 1;
        }
        proof {
            lemma_positions_distinct(chosen@);
        }
    } else {
        chosen = counted;
        proof {
            lemma_positions_distinct(chosen@);
        }
    }
    sort_by_popularity(subjects, chosen)
}

proof fn lemma_positions_distinct(s: Seq<usize>)
    requires
        forall|a: int, b: int| 0 <= a < b < s.len() ==> s[a] < s[b],
    ensures
        s.no_duplicates(),
{
}

/// `chosen` sorted by `goes_before`: insertion sort.
fn sort_by_popularity(subjects: &Vec<SubjectInfo>, chosen: Vec<usize>) -> (r: Vec<usize>)
    requires
        forall|k: int| 0 <= k < chosen@.len() ==> #[trigger] chosen@[k] < subjects@.len(),
        chosen@.no_duplicates(),
    ensures
        r@.to_set() == chosen@.to_set(),
        r@.len() == chosen@.len(),
        ordered_positions(subjects@, r@),
{
    let mut out: Vec<usize> = Vec::new();
    let mut i: usize = 0;
    while i < chosen.len()
        invariant
            i <= chosen@.len(),
            chosen@.no_duplicates(),
            forall|k: int| 0 <= k < chosen@.len() ==> #[trigger] chosen@[k] < subjects@.len(),
            out@.to_set() == chosen@.take(i as int).to_set(),
            out@.len() == i,
            ordered_positions(subjects@, out@),
            forall|k: int| 0 <= k < out@.len() ==> #[trigger] out@[k] < subjects@.len(),
        decreases chosen@.len() - i,
    {
        let x = chosen[i];
        let mut pos: usize = 0;
        while pos < out.len() && goes_before_exec(subjects, out[pos], x)
            invariant
                pos <= out@.len(),
                x < subjects@.len(),
                forall|k: int| 0 <= k < out@.len() ==> #[trigger] out@[k] < subjects@.len(),
                forall|k: int| 0 <= k < pos ==> goes_before(subjects@, #[trigger] out@[k], x),
            decreases out@.len() - pos,
        {
            pos = pos + 1;
        }
        proof {
            assert(!chosen@.take(i as int).contains(x)) by {
                if chosen@.take(i as int).contains(x) {
                    let w = choose|w: int| 0 <= w < i && chosen@.take(i as int)[w] == x;
                    assert(chosen@[w] == chosen@[i as int]);
                }
            }
            assert(!out@.to_set().contains(x));
            // Everything from `pos` on goes after `x`.
            assert forall|k: int| pos <= k < out@.len() implies goes_before(subjects@, x, #[trigger] out@[k]) by {
                assert(!goes_before(subjects@, out@[pos as int], x));
                assert(out@[pos as int] != x) by {
                    assert(out@.to_set().contains(out@[pos as int]));
                }
                if k > pos {
                    assert(goes_before(subjects@, out@[pos as int], out@[k]));
                }
                assert(out@[k] != x) by {
                    assert(out@.to_set().contains(out@[k]));
                }
            }
        }
        let ghost before = out@;
        out.insert(pos, x);
        proof {
            assert(out@ =~= before.take(pos as int).push(x) + before.skip(pos as int));
            assert forall|a: int, b: int| 0 <= a < b < out@.len() implies goes_before(subjects@, #[trigger] out@[a], #[trigger] out@[b]) by {
                if b < pos {
                    assert(out@[a] == before[a] && out@[b] == before[b]);
                } else if b == pos {
                    assert(out@[a] == before[a]);
                } else if a < pos {
                    assert(out@[a] == before[a] && out@[b] == before[b - 1]);
                } else if a == pos {
                    assert(out@[b] == before[b - 1]);
                } else {
                    assert(out@[a] == before[a - 1] && out@[b] == before[b - 1]);
                }
            }
            assert(chosen@.take(i + 1) =~= chosen@.take(i as int).push(x));
            assert(out@.to_set() =~= before.to_set().insert(x)) by {
                assert forall|y: usize| #[trigger] out@.to_set().contains(y) == before.to_set().insert(x).contains(y) by {
                    if out@.to_set().contains(y) {
                        let w = choose|w: int| 0 <= w < out@.len() && out@[w] == y;
                        if w < pos {
                            assert(before[w] == y);
                        } else if w > pos {
                            assert(before[w - 1] == y);
                        }
                    }
                    if before.to_set().contains(y) {
                        let w = choose|w: int| 0 <= w < before.len() && before[w] == y;
                        if w < pos {
                            assert(out@[w] == y);
                        } else {
                            assert(out@[w + 1] == y);
                        }
                    }
                    if y == x {
                        assert(out@[pos as int] == x);
                    }
                }
            }
            assert(chosen@.take(i + 1).to_set() =~= chosen@.take(i as int).to_set().insert(x)) by {
                let t1 = chosen@.take(i + 1);
                let t0 = chosen@.take(i as int);
                assert forall|y: usize| #[trigger] t1.to_set().contains(y) == t0.to_set().insert(x).contains(y) by {
                    if t1.contains(y) {
                        let w = choose|w: int| 0 <= w < t1.len() && t1[w] == y;
                        if w < i {
                            assert(t0[w] == y);
                        }
                    }
                    if t0.contains(y) {
                        let w = choose|w: int| 0 <= w < t0.len() && t0[w] == y;
                        assert(t1[w] == y);
                    }
                    if y == x {
                        assert(t1[i as int] == x);
                    }
                }
            }
            assert forall|k: int| 0 <= k < out@.len() implies #[trigger] out@[k] < subjects@.len() by {
                if k < pos {
                    assert(out@[k] == before[k]);
                } else if k > pos {
                    assert(out@[k] == before[k - 1]);
                }
            }
        }
        i = i + 1;
    }
    assert(chosen@.take(chosen@.len() as int) =~= chosen@);
    out
}

/// The name a work is listed under: its Chinese name where it has one.
pub open spec fn listed_name(s: SubjectInfo) -> Seq<char> {
    if s.name_cn@.len() > 0 { s.name_cn@ } else { s.name@ }
}

/// The latest positive year among the works at `order`, -1 for none.
pub open spec fn latest_year(subjects: Seq<SubjectInfo>, order: Seq<usize>) -> int
    decreases order.len(),
{
    if order.len() == 0 {
        -1
    } else {
        let prev = latest_year(subjects, order.drop_last());
        let y = subjects[order.last() as int].year as int;
        if y > 0 && (prev == -1 || y > prev) { y } else { prev }
    }
}

/// The earliest positive year among the works at `order`, -1 for none.
pub open spec fn earliest_year(subjects: Seq<SubjectInfo>, order: Seq<usize>) -> int
    decreases order.len(),
{
    if order.len() == 0 {
        -1
    } else {
        let prev = earliest_year(subjects, order.drop_last());
        let y = subjects[order.last() as int].year as int;
        if y > 0 && (prev == -1 || y < prev) { y } else { prev }
    }
}

/// The appearances of a character: names and ids in order, and the years they span.
pub struct Appearances {
    pub names: Vec<String>,
    pub ids: Vec<i64>,
    /// -1 when no work has a year.
    pub latest: i32,
    /// -1 when no work has a year.
    pub earliest: i32,
}

/// The appearances listed from the works at `order`.
pub fn list_appearances(subjects: &Vec<SubjectInfo>, order: &Vec<usize>) -> (r: Appearances)
    requires
        forall|k: int| 0 <= k < order@.len() ==> #[trigger] order@[k] < subjects@.len(),
    ensures
        r.names@.len() == order@.len(),
        r.ids@.len() == order@.len(),
        forall|k: int| 0 <= k < order@.len() ==> #[trigger] r.names@[k]@ == listed_name(subjects@[order@[k] as int]),
        forall|k: int| 0 <= k < order@.len() ==> #[trigger] r.ids@[k] == subjects@[order@[k] as int].id,
        r.latest == latest_year(subjects@, order@),
        r.earliest == earliest_year(subjects@, order@),
{
    let mut names: Vec<String> = Vec::new();
    let mut ids: Vec<i64> = Vec::new();
    let mut latest: i32 = -1;
    let mut earliest: i32 = -1;
    let mut i: usize = 0;
    assert(order@.take(0) =~= Seq::<usize>::empty());
    while i < order.len()
        invariant
            i <= order@.len(),
            forall|k: int| 0 <= k < order@.len() ==> #[trigger] order@[k] < subjects@.len(),
            names@.len() == i,
            ids@.len() == i,
            forall|k: int| 0 <= k < i ==> #[trigger] names@[k]@ == listed_name(subjects@[order@[k] as int]),
            forall|k: int| 0 <= k < i ==> #[trigger] ids@[k] == subjects@[order@[k] as int].id,
            latest == latest_year(subjects@, order@.take(i as int)),
            earliest == earliest_year(subjects@, order@.take(i as int)),
        decreases order@.len() - i,
    {
        let s = &subjects[order[i]];
        assert(order@.take(i + 1).drop_last() =~= order@.take(i as int));
        assert(order@.take(i + 1).last() == order@[i as int]);
        let y = s.year;
        if y > 0 {
            if latest == -1 || y > latest {
                latest = y;
            }
            if earliest == -1 || y < earliest {
                earliest = y;
            }
        }
        let mut n = String::new();
        if crate::text::chars_of(s.name_cn.as_str()).len() > 0 {
            append_text(&mut n, s.name_cn.as_str());
        } else {
            append_text(&mut n, s.name.as_str());
        }
        names.push(n);
        ids.push(s.id);
        i = i + 1;
    }
    assert(order@.take(order@.len() as int) =~= order@);
    Appearances { names, ids, latest, earliest }
}

fn goes_before_exec(subjects: &Vec<SubjectInfo>, i: usize, j: usize) -> (r: bool)
    requires
        i < subjects@.len(),
        j < subjects@.len(),
    ensures
        r == goes_before(subjects@, i, j),
{
    let pi = subjects[i].popularity;
    let pj = subjects[j].popularity;
    pi > pj || (pi == pj && i < j)
}

} // verus!

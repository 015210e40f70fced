//! Limits that public rooms put on their settings.
use vstd::prelude::*;
use crate::keyed::texts;
use crate::settings::{AddedSubject, AddedSubjectModel, GameSettings, SettingsModel, opt_text};
use crate::text::trim_spec;
use crate::web::truncate_chars;

verus! {

pub const MAX_META_TAGS: usize = 8;
pub const MAX_META_TAG_CHARS: usize = 48;
pub const MAX_ADDED_SUBJECTS: usize = 100;
pub const MAX_ADDED_SUBJECT_NAME_CHARS: usize = 120;
pub const MAX_USE_HINTS: usize = 20;

pub open spec fn clamp_int(v: int, lo: int, hi: int) -> int {
    if v < lo { lo } else if v > hi { hi } else { v }
}

pub open spec fn cut(s: Seq<char>, n: int) -> Seq<char> {
    if s.len() <= n { s } else { s.take(n) }
}

/// The years in order, each between 1800 and 2038.
pub open spec fn bounded_years(s: Option<i32>, e: Option<i32>) -> (Option<i32>, Option<i32>) {
    let swap = s is Some && e is Some && s->0 > e->0;
    let a = if swap { e } else { s };
    let b = if swap { s } else { e };
    (
        match a { Some(y) => Some(clamp_int(y as int, 1800, 2038) as i32), None => None },
        match b { Some(y) => Some(clamp_int(y as int, 1800, 2038) as i32), None => None },
    )
}

/// `s` without its trailing empty texts.
pub open spec fn drop_trailing_empty(s: Seq<Seq<char>>) -> Seq<Seq<char>>
    decreases s.len(),
{
    if s.len() > 0 && s.last().len() == 0 { drop_trailing_empty(s.drop_last()) } else { s }
}

/// The first eight tags, trimmed and cut to 48 characters, without trailing empty ones.
#[verifier::opaque]
pub open spec fn tidy_tags(tags: Seq<Seq<char>>) -> Seq<Seq<char>> {
    let first = if tags.len() <= 8 { tags } else { tags.take(8) };
    drop_trailing_empty(first.map_values(|t: Seq<char>| cut(trim_spec(t), 48)))
}

/// The positive values, in order.
pub open spec fn positives(s: Seq<i64>) -> Seq<i64>
    decreases s.len(),
{
    if s.len() == 0 {
        Seq::empty()
    } else {
        let prev = positives(s.drop_last());
        if s.last() > 0 { prev.push(s.last()) } else { prev }
    }
}

/// The subjects with a positive id, the first of each id only.
pub open spec fn first_subjects(s: Seq<AddedSubjectModel>) -> Seq<AddedSubjectModel>
    decreases s.len(),
{
    if s.len() == 0 {
        Seq::empty()
    } else {
        let prev = first_subjects(s.drop_last());
        let x = s.last();
        if x.id > 0 && !prev.map_values(|a: AddedSubjectModel| a.id).contains(x.id) { prev.push(x) } else { prev }
    }
}

pub open spec fn tidy_subject(a: AddedSubjectModel) -> AddedSubjectModel {
    AddedSubjectModel { name: cut(trim_spec(a.name), 120), name_cn: cut(trim_spec(a.name_cn), 120), ..a }
}

/// At most 100 distinct subjects with positive ids, names trimmed and cut to 120 characters.
#[verifier::opaque]
pub open spec fn tidy_subjects(s: Seq<AddedSubjectModel>) -> Seq<AddedSubjectModel> {
    let f = first_subjects(s);
    let t = if f.len() <= 100 { f } else { f.take(100) };
    t.map_values(|a: AddedSubjectModel| tidy_subject(a))
}

pub open spec fn increasing(s: Seq<i64>) -> bool {
    forall|i: int, j: int| 0 <= i < j < s.len() ==> #[trigger] s[i] < #[trigger] s[j]
}

/// The numbers of a finite set in increasing order.
pub open spec fn sorted_ids(s: Set<i64>) -> Seq<i64> {
    choose|r: Seq<i64>| increasing(r) && r.to_set() == s
}

proof fn lemma_increasing_unique(a: Seq<i64>, b: Seq<i64>)
    requires
        increasing(a),
        increasing(b),
        a.to_set() == b.to_set(),
    ensures
        a == b,
    decreases a.len(),
{
    if a.len() == 0 {
        if b.len() > 0 {
            assert(b.to_set().contains(b[0]));
        }
        assert(a =~= b);
    } else {
        assert(a.to_set().contains(a[0]));
        if b.len() == 0 {
            assert(false);
        }
        assert(b.to_set().contains(b[0]));
        let i = choose|i: int| 0 <= i < b.len() && b[i] == a[0];
        let j = choose|j: int| 0 <= j < a.len() && a[j] == b[0];
        if i > 0 {
            assert(b[0] < b[i]);
            if j > 0 {
                assert(a[0] < a[j]);
            }
        }
        assert(b[0] == a[0]);
        let a1 = a.drop_first();
        let b1 = b.drop_first();
        assert forall|x: i64| a1.to_set().contains(x) <==> b1.to_set().contains(x) by {
            if a1.to_set().contains(x) {
                let k = choose|k: int| 0 <= k < a1.len() && a1[k] == x;
                assert(a[k + 1] == x);
                assert(a[0] < a[k + 1]);
                assert(a.to_set().contains(x));
                let m = choose|m: int| 0 <= m < b.len() && b[m] == x;
                assert(m != 0);
                assert(b1[m - 1] == x);
            }
            if b1.to_set().contains(x) {
                let k = choose|k: int| 0 <= k < b1.len() && b1[k] == x;
                assert(b[k + 1] == x);
                assert(b[0] < b[k + 1]);
                assert(b.to_set().contains(x));
                let m = choose|m: int| 0 <= m < a.len() && a[m] == x;
                assert(m != 0);
                assert(a1[m - 1] == x);
            }
        }
        assert(a1.to_set() =~= b1.to_set());
        lemma_increasing_unique(a1, b1);
        assert(a =~= seq![a[0]] + a1);
        assert(b =~= seq![b[0]] + b1);
    }
}

/// The subject ids: those of the kept subjects and the extra ids, positive, distinct and
/// increasing, at most 100.
#[verifier::opaque]
pub open spec fn tidy_ids(subjects: Seq<AddedSubjectModel>, ids: Seq<i64>) -> Seq<i64> {
    let all = subjects.map_values(|a: AddedSubjectModel| a.id) + ids;
    let s = sorted_ids(positives(all).to_set());
    if s.len() <= 100 { s } else { s.take(100) }
}

/// The settings once bounded for a public room.
pub open spec fn bounded_settings(s: SettingsModel) -> SettingsModel {
    let years = bounded_years(s.start_year, s.end_year);
    let subjects = tidy_subjects(s.added_subjects);
    let hints = positives(s.use_hints);
    SettingsModel {
        start_year: years.0,
        end_year: years.1,
        meta_tags: tidy_tags(s.meta_tags),
        top_n_subjects: match s.top_n_subjects { Some(v) => if v > 0 { Some(if v < 3000 { v } else { 3000 }) } else { None }, None => None },
        subject_tag_num: if s.subject_tag_num > 10 { 10 } else { s.subject_tag_num },
        character_tag_num: if s.character_tag_num > 10 { 10 } else { s.character_tag_num },
        character_num: clamp_int(s.character_num as int, 1, 50) as usize,
        max_attempts: clamp_int(s.max_attempts as int, 1, 15) as usize,
        use_hints: if hints.len() <= 20 { hints } else { hints.take(20) },
        use_image_hint: match s.use_image_hint { Some(v) => if v > 0 { Some(v) } else { None }, None => None },
        time_limit: match s.time_limit { Some(v) => if v <= 0 { None } else { Some(clamp_int(v as int, 15, 120) as i64) }, None => None },
        added_subjects: subjects,
        added_subject_ids: tidy_ids(subjects, s.added_subject_ids),
        ..s
    }
}

fn clamp_year(y: i32) -> (r: i32)
    ensures
        r == clamp_int(y as int, 1800, 2038),
{
    if y < 1800 { 1800 } else if y > 2038 { 2038 } else { y }
}

fn tidy_tag_list(tags: &Vec<String>) -> (r: Vec<String>)
    ensures
        texts(r@) == tidy_tags(texts(tags@)),
{
    reveal(tidy_tags);
    let ghost tv = texts(tags@);
    let ghost first = if tv.len() <= 8 { tv } else { tv.take(8) };
    let n = if tags.len() <= MAX_META_TAGS { tags.len() } else { MAX_META_TAGS };
    let mut out: Vec<String> = Vec::new();
    let mut i: usize = 0;
    while i < n
        invariant
            i <= n,
            n == first.len(),
            n <= tags@.len(),
            tv == texts(tags@),
            first == (if tv.len() <= 8 { tv } else { tv.take(8) }),
            texts(out@) == first.take(i as int).map_values(|t: Seq<char>| cut(trim_spec(t), 48)),
        decreases n - i,
    {
        let t = crate::text::trim(tags[i].as_str());
        let c = truncate_chars(t.as_str(), MAX_META_TAG_CHARS);
        let ghost before = texts(out@);
        let ghost cv = c@;
        out.push(c);
        assert(texts(out@) =~= before.push(cv));
        assert(first[i as int] == tags@[i as int]@);
        assert(texts(out@) =~= first.take(i + 1).map_values(|t: Seq<char>| cut(trim_spec(t), 48)));
        i = i + 1;
    }
    assert(first.take(n as int) =~= first);
    let ghost full = texts(out@);
    while out.len() > 0 && crate::text::text_eq(out[out.len() - 1].as_str(), "")
        invariant
            drop_trailing_empty(texts(out@)) == drop_trailing_empty(full),
        decreases out@.len(),
    {
        proof { reveal_strlit(""); }
        assert(texts(out@).last().len() == 0);
        assert(texts(out@).drop_last() =~= texts(out@.drop_last()));
        out.pop();
    }
    proof {
        if out@.len() > 0 {
            reveal_strlit("");
            assert(texts(out@).last().len() != 0) by {
                if texts(out@).last().len() == 0 { assert(out@[out@.len() - 1]@ =~= ""@); }
            }
        }
    }
    out
}

proof fn lemma_positives_len(s: Seq<i64>)
    ensures
        positives(s).len() <= s.len(),
    decreases s.len(),
{
    if s.len() > 0 {
        lemma_positives_len(s.drop_last());
    }
}

fn positive_values(v: &Vec<i64>, limit: usize) -> (r: Vec<i64>)
    ensures
        r@ == (if positives(v@).len() <= limit { positives(v@) } else { positives(v@).take(limit as int) }),
{
    let mut out: Vec<i64> = Vec::new();
    let mut i: usize = 0;
    while i < v.len()
        invariant
            i <= v@.len(),
            out@ == (if positives(v@.take(i as int)).len() <= limit { positives(v@.take(i as int)) } else { positives(v@.take(i as int)).take(limit as int) }),
        decreases v@.len() - i,
    {
        assert(v@.take(i + 1).drop_last() =~= v@.take(i as int));
        assert(v@.take(i + 1).last() == v@[i as int]);
        if v[i] > 0 {
            if out.len() < limit {
                out.push(v[i]);
            }
            proof {
                let p = positives(v@.take(i as int));
                if p.len() >= limit {
                    assert(p.push(v@[i as int]).take(limit as int) =~= p.take(limit as int));
                }
            }
        }
        i = i + 1;
    }
    assert(v@.take(v@.len() as int) =~= v@);
    out
}

fn copy_subject(a: &AddedSubject) -> (r: AddedSubject)
    ensures
        r@ == a@,
{
    AddedSubject { id: a.id, name: a.name.clone(), name_cn: a.name_cn.clone(), type_json: crate::state::dup_opt_text(&a.type_json) }
}

pub open spec fn subjects_view(v: Seq<AddedSubject>) -> Seq<AddedSubjectModel> {
    v.map_values(|a: AddedSubject| a@)
}

fn has_subject_id(v: &Vec<AddedSubject>, id: i64) -> (r: bool)
    ensures
        r == subjects_view(v@).map_values(|a: AddedSubjectModel| a.id).contains(id),
{
    let ghost ids = subjects_view(v@).map_values(|a: AddedSubjectModel| a.id);
    let mut i: usize = 0;
    while i < v.len()
        invariant
            i <= v@.len(),
            ids == subjects_view(v@).map_values(|a: AddedSubjectModel| a.id),
            forall|j: int| 0 <= j < i ==> ids[j] != id,
        decreases v@.len() - i,
    {
        if v[i].id == id {
            assert(ids[i as int] == id);
            return true;
        }
        i = i + 1;
    }
    false
}

fn tidy_subject_list(v: &Vec<AddedSubject>) -> (r: Vec<AddedSubject>)
    ensures
        subjects_view(r@) == tidy_subjects(subjects_view(v@)),
{
    reveal(tidy_subjects);
    let ghost sv = subjects_view(v@);
    let mut firsts: Vec<AddedSubject> = Vec::new();
    let mut i: usize = 0;
    while i < v.len()
        invariant
            i <= v@.len(),
            sv == subjects_view(v@),
            subjects_view(firsts@) == first_subjects(sv.take(i as int)),
        decreases v@.len() - i,
    {
        assert(sv.take(i + 1).drop_last() =~= sv.take(i as int));
        assert(sv.take(i + 1).last() == v@[i as int]@);
        if v[i].id > 0 && !has_subject_id(&firsts, v[i].id) {
            let ghost before = subjects_view(firsts@);
            firsts.push(copy_subject(&v[i]));
            assert(subjects_view(firsts@) =~= before.push(v@[i as int]@));
        }
        i = i + 1;
    }
    assert(sv.take(v@.len() as int) =~= sv);
    let ghost f = subjects_view(firsts@);
    let n = if firsts.len() <= MAX_ADDED_SUBJECTS { firsts.len() } else { MAX_ADDED_SUBJECTS };
    let ghost t = if f.len() <= 100 { f } else { f.take(100) };
    let mut out: Vec<AddedSubject> = Vec::new();
    let mut k: usize = 0;
    while k < n
        invariant
            k <= n,
            n == t.len(),
            n <= firsts@.len(),
            f == subjects_view(firsts@),
            t == (if f.len() <= 100 { f } else { f.take(100) }),
            subjects_view(out@) == t.take(k as int).map_values(|a: AddedSubjectModel| tidy_subject(a)),
        decreases n - k,
    {
        let a = &firsts[k];
        let name = truncate_chars(crate::text::trim(a.name.as_str()).as_str(), MAX_ADDED_SUBJECT_NAME_CHARS);
        let name_cn = truncate_chars(crate::text::trim(a.name_cn.as_str()).as_str(), MAX_ADDED_SUBJECT_NAME_CHARS);
        let ghost before = subjects_view(out@);
        let item = AddedSubject { id: a.id, name, name_cn, type_json: crate::state::dup_opt_text(&a.type_json) };
        let ghost iv = item@;
        out.push(item);
        assert(subjects_view(out@) =~= before.push(iv));
        assert(t[k as int] == firsts@[k as int]@);
        assert(subjects_view(out@) =~= t.take(k + 1).map_values(|a: AddedSubjectModel| tidy_subject(a)));
        k = k + 1;
    }
    assert(t.take(n as int) =~= t);
    out
}

/// The distinct values of `v` in increasing order.
fn sorted_distinct(v: &Vec<i64>) -> (r: Vec<i64>)
    ensures
        r@ == sorted_ids(v@.to_set()),
{
    let mut out: Vec<i64> = Vec::new();
    let mut i: usize = 0;
    while i < v.len()
        invariant
            i <= v@.len(),
            increasing(out@),
            out@.to_set() == v@.take(i as int).to_set(),
        decreases v@.len() - i,
    {
        let x = v[i];
        let ghost o = out@;
        let mut p: usize = 0;
        while p < out.len() && out[p] < x
            invariant
                p <= out@.len(),
                o == out@,
                increasing(o),
                forall|k: int| 0 <= k < p ==> #[trigger] o[k] < x,
            decreases out@.len() - p,
        {
            p = p + 1;
        }
        assert(v@.take(i + 1) =~= v@.take(i as int).push(x));
        proof { crate::gameplay::tagban::lemma_push_to_set_int(v@.take(i as int), x); }
        if p < out.len() && out[p] == x {
            assert(o.to_set().contains(x));
            assert(o.to_set().insert(x) =~= o.to_set());
        } else {
            out.insert(p, x);
            proof {
                let n = out@;
                assert(n =~= o.insert(p as int, x));
                assert forall|a: int, b: int| 0 <= a < b < n.len() implies #[trigger] n[a] < #[trigger] n[b] by {
                    if a < p && b > p { assert(o[a] < o[b - 1]); }
                    if a == p && b > p { assert(x < o[p as int] || p == o.len()); if b - 1 > p { assert(o[p as int] < o[b - 1]); } }
                    if a > p { assert(o[a - 1] < o[b - 1]); }
                    if a < p && b < p { assert(o[a] < o[b]); }
                }
                assert forall|y: i64| n.to_set().contains(y) <==> o.to_set().insert(x).contains(y) by {
                    if n.to_set().contains(y) {
                        let j = choose|j: int| 0 <= j < n.len() && n[j] == y;
                        if j < p { assert(o[j] == y); } else if j > p { assert(o[j - 1] == y); }
                    }
                    if o.to_set().contains(y) {
                        let j = choose|j: int| 0 <= j < o.len() && o[j] == y;
                        if j < p { assert(n[j] == y); } else { assert(n[j + 1] == y); }
                    }
                    if y == x { assert(n[p as int] == y); }
                }
                assert(n.to_set() =~= o.to_set().insert(x));
            }
        }
        i = i + 1;
    }
    assert(v@.take(v@.len() as int) =~= v@);
    proof {
        let q = sorted_ids(v@.to_set());
        assert(increasing(q) && q.to_set() == v@.to_set());
        lemma_increasing_unique(q, out@);
    }
    out
}

fn tidy_id_list(subjects: &Vec<AddedSubject>, ids_in: &Vec<i64>) -> (r: Vec<i64>)
    ensures
        r@ == tidy_ids(subjects_view(subjects@), ids_in@),
{
    reveal(tidy_ids);
        let mut all: Vec<i64> = Vec::new();
        let mut i: usize = 0;
        while i < subjects.len()
            invariant
                i <= subjects@.len(),
                all@ == subjects_view(subjects@).map_values(|a: AddedSubjectModel| a.id).take(i as int),
            decreases subjects@.len() - i,
        {
            all.push(subjects[i].id);
            i = i + 1;
        }
        let mut j: usize = 0;
        let ghost sids = subjects_view(subjects@).map_values(|a: AddedSubjectModel| a.id);
        assert(sids.take(sids.len() as int) =~= sids);
        while j < ids_in.len()
            invariant
                j <= ids_in@.len(),
                all@ == sids + ids_in@.take(j as int),
            decreases ids_in@.len() - j,
        {
            all.push(ids_in[j]);
            assert(all@ =~= sids + ids_in@.take(j + 1));
            j = j + 1;
        }
        assert(ids_in@.take(ids_in@.len() as int) =~= ids_in@);
        proof { lemma_positives_len(all@); }
        let pos = positive_values(&all, all.len());
        assert(pos@ == positives(sids + ids_in@));
        let sorted = sorted_distinct(&pos);
        let mut ids = sorted;
        if ids.len() > MAX_ADDED_SUBJECTS {
            ids.truncate(MAX_ADDED_SUBJECTS);
        }
            ids
}

impl GameSettings {
    /// Bounds the settings of a public room (see `bounded_settings`).
    #[verifier::rlimit(80)]
    pub fn normalize_public_bounds(&mut self)
        ensures
            final(self)@ == bounded_settings(old(self)@),
    {
        let swap = match (self.start_year, self.end_year) {
            (Some(s), Some(e)) => s > e,
            _ => false,
        };
        let (a, b) = if swap { (self.end_year, self.start_year) } else { (self.start_year, self.end_year) };
        let start_year = match a { Some(y) => Some(clamp_year(y)), None => None };
        let end_year = match b { Some(y) => Some(clamp_year(y)), None => None };
        let meta_tags = tidy_tag_list(&self.meta_tags);
        let top_n_subjects = match self.top_n_subjects {
            Some(v) => if v > 0 { Some(if v < 3000 { v } else { 3000 }) } else { None },
            None => None,
        };
        let subject_tag_num = if self.subject_tag_num > 10 { 10 } else { self.subject_tag_num };
        let character_tag_num = if self.character_tag_num > 10 { 10 } else { self.character_tag_num };
        let character_num = if self.character_num < 1 { 1 } else if self.character_num > 50 { 50 } else { self.character_num };
        let max_attempts = if self.max_attempts < 1 { 1 } else if self.max_attempts > 15 { 15 } else { self.max_attempts };
        let use_hints = positive_values(&self.use_hints, MAX_USE_HINTS);
        let use_image_hint = match self.use_image_hint { Some(v) => if v > 0 { Some(v) } else { None }, None => None };
        let time_limit = match self.time_limit {
            Some(v) => if v <= 0 { None } else if v < 15 { Some(15) } else if v > 120 { Some(120) } else { Some(v) },
            None => None,
        };
        let added_subjects = tidy_subject_list(&self.added_subjects);
        let added_subject_ids = tidy_id_list(&added_subjects, &self.added_subject_ids);
        let next = GameSettings {
            start_year,
            end_year,
            meta_tags,
            top_n_subjects,
            common_tags: self.common_tags,
            subject_tag_num,
            character_tag_num,
            main_character_only: self.main_character_only,
            character_num,
            use_subject_per_year: self.use_subject_per_year,
            added_subjects,
            added_subject_ids,
            max_attempts,
            sync_mode: self.sync_mode,
            nonstop_mode: self.nonstop_mode,
            global_pick: self.global_pick,
            tag_ban: self.tag_ban,
            use_hints,
            use_image_hint,
            time_limit,
            subject_search: self.subject_search,
            use_index: self.use_index,
            index_id: crate::state::dup_opt_text(&self.index_id),
            extra: self.extra.clone(),
        };
        *self = next;
    }
}

} // verus!

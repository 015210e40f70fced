//! The tags gathered from a character's works: vote counts per tag, weighted three times for
//! works where the character has a main role, sorted into source, region and other tags.
use vstd::prelude::*;
use crate::keyed::{IdSet, TextMap};
use crate::payload::{SubjectInfo, SubjectTag};
use crate::text::{chars_of, text_eq};

verus! {

/// `m` with `d` added to the count of `k` (from 0); counts wrap around as 64-bit integers do.
pub open spec fn added(m: Map<Seq<char>, i64>, k: Seq<char>, d: i64) -> Map<Seq<char>, i64> {
    m.insert(k, vstd::wrapping::i64_specs::wrapping_add(if m.dom().contains(k) { m[k] } else { 0 }, d))
}

/// The source tags: 原创 (made for the screen), and game, novel and manga adaptations.
pub open spec fn is_source_tag(t: Seq<char>) -> bool {
    t == "原创"@ || t == "游戏改"@ || t == "小说改"@ || t == "漫画改"@
}

/// The source tag that another name of a source stands for.
pub open spec fn source_alias(t: Seq<char>) -> Option<Seq<char>> {
    if t == "GAL改"@ || t == "游戏改编"@ {
        Some("游戏改"@)
    } else if t == "轻小说改"@ || t == "轻改"@ || t == "网文改"@ || t == "小说改编"@ {
        Some("小说改"@)
    } else if t == "原创动画"@ {
        Some("原创"@)
    } else if t == "漫改"@ || t == "漫画改编"@ {
        Some("漫画改"@)
    } else {
        None
    }
}

/// The region tags.
pub open spec fn is_region_tag(t: Seq<char>) -> bool {
    t == "日本"@ || t == "欧美"@ || t == "美国"@ || t == "中国"@ || t == "法国"@ || t == "韩国"@
        || t == "英国"@ || t == "俄罗斯"@ || t == "中国香港"@ || t == "苏联"@ || t == "捷克"@
        || t == "中国台湾"@ || t == "马来西亚"@
}

/// The text holds "20", as year tags do.
pub open spec fn has_year_digits(t: Seq<char>) -> bool {
    exists|i: int| 0 <= i && i + 1 < t.len() && #[trigger] t[i] == '2' && t[i + 1] == '0'
}

/// The name of a tag, empty where it has none.
pub open spec fn tag_name(t: SubjectTag) -> Seq<char> {
    match t.name {
        Some(n) => n@,
        None => Seq::empty(),
    }
}

/// A meta tag as text, empty where it is none.
pub open spec fn meta_text(m: Option<String>) -> Seq<char> {
    match m {
        Some(s) => s@,
        None => Seq::empty(),
    }
}

/// The weight of a work: 3 where the character has a main role.
pub open spec fn weight(s: SubjectInfo) -> i64 {
    if s.role == 1 { 3 } else { 1 }
}

/// The tables gathered so far.
pub struct TallyModel {
    pub source: Map<Seq<char>, i64>,
    pub raw: Map<Seq<char>, i64>,
    pub meta: Map<Seq<char>, i64>,
    pub plain: Map<Seq<char>, i64>,
    pub regions: Set<Seq<char>>,
}

/// One tag of a work counted when common tags are compared: year tags skipped, sources
/// (under their main name) apart from the raw tags.
pub open spec fn count_common_tag(t: TallyModel, name: Seq<char>, amount: i64) -> TallyModel {
    if has_year_digits(name) {
        t
    } else if source_alias(name) is Some {
        TallyModel { source: added(t.source, source_alias(name)->0, amount), ..t }
    } else if is_source_tag(name) {
        TallyModel { source: added(t.source, name, amount), ..t }
    } else {
        TallyModel { raw: added(t.raw, name, amount), ..t }
    }
}

/// One tag of a work counted when meta tags are shown: year tags skipped, sources, regions
/// and other tags apart.
pub open spec fn count_plain_tag(t: TallyModel, name: Seq<char>, amount: i64) -> TallyModel {
    if has_year_digits(name) {
        t
    } else if is_source_tag(name) {
        TallyModel { source: added(t.source, name, amount), ..t }
    } else if source_alias(name) is Some {
        TallyModel { source: added(t.source, source_alias(name)->0, amount), ..t }
    } else if is_region_tag(name) {
        TallyModel { regions: t.regions.insert(name), ..t }
    } else {
        TallyModel { plain: added(t.plain, name, amount), ..t }
    }
}

/// One meta tag of a work counted: sources skipped, regions apart.
pub open spec fn count_meta(t: TallyModel, m: Seq<char>, w: i64) -> TallyModel {
    if is_source_tag(m) {
        t
    } else if is_region_tag(m) {
        TallyModel { regions: t.regions.insert(m), ..t }
    } else {
        TallyModel { meta: added(t.meta, m, w), ..t }
    }
}

/// The tags of a work counted with weight `w`.
pub open spec fn count_tags(t: TallyModel, tags: Seq<SubjectTag>, w: i64, common: bool) -> TallyModel
    decreases tags.len(),
{
    if tags.len() == 0 {
        t
    } else {
        let prev = count_tags(t, tags.drop_last(), w, common);
        let amount = vstd::wrapping::i64_specs::wrapping_mul(w, tags.last().count);
        if common {
            count_common_tag(prev, tag_name(tags.last()), amount)
        } else {
            count_plain_tag(prev, tag_name(tags.last()), amount)
        }
    }
}

/// The meta tags of a work counted with weight `w`.
pub open spec fn count_metas(t: TallyModel, metas: Seq<Option<String>>, w: i64) -> TallyModel
    decreases metas.len(),
{
    if metas.len() == 0 {
        t
    } else {
        count_meta(count_metas(t, metas.drop_last(), w), meta_text(metas.last()), w)
    }
}

/// A work counted: its tags when common tags are compared, else its meta tags then its tags.
pub open spec fn count_subject(t: TallyModel, s: SubjectInfo, common: bool) -> TallyModel {
    if common {
        count_tags(t, s.tags@, weight(s), true)
    } else {
        count_tags(count_metas(t, s.meta_tags@, weight(s)), s.tags@, weight(s), false)
    }
}

/// The empty tables.
pub open spec fn empty_tally() -> TallyModel {
    TallyModel { source: Map::empty(), raw: Map::empty(), meta: Map::empty(), plain: Map::empty(), regions: Set::empty() }
}

/// The works at `order` counted in turn.
pub open spec fn tally_of(subjects: Seq<SubjectInfo>, order: Seq<usize>, common: bool) -> TallyModel
    decreases order.len(),
{
    if order.len() == 0 {
        empty_tally()
    } else {
        count_subject(tally_of(subjects, order.drop_last(), common), subjects[order.last() as int], common)
    }
}

/// The tables of tag counts.
pub struct TagTally {
    pub source: TextMap<i64>,
    pub raw: TextMap<i64>,
    pub meta: TextMap<i64>,
    pub plain: TextMap<i64>,
    pub regions: IdSet,
}

impl TagTally {
    pub open spec fn wf(&self) -> bool {
        self.source.wf() && self.raw.wf() && self.meta.wf() && self.plain.wf() && self.regions.wf()
    }

    pub open spec fn model(&self) -> TallyModel {
        TallyModel {
            source: self.source@,
            raw: self.raw@,
            meta: self.meta@,
            plain: self.plain@,
            regions: self.regions@,
        }
    }
}

fn add_count(m: &mut TextMap<i64>, key: &str, d: i64)
    requires
        old(m).wf(),
    ensures
        final(m).wf(),
        final(m)@ == added(old(m)@, key@, d),
{
    let cur: i64 = match m.get(key) {
        Some(v) => *v,
        None => 0,
    };
    let mut k = String::new();
    crate::text::append_text(&mut k, key);
    m.insert(k, cur.wrapping_add(d));
}

fn year_digits(t: &str) -> (r: bool)
    ensures
        r == has_year_digits(t@),
{
    let cs = chars_of(t);
    let mut i: usize = 0;
    while i < cs.len() && i + 1 < cs.len()
        invariant
            cs@ == t@,
            i <= cs@.len(),
            forall|j: int| 0 <= j < i && j + 1 < cs@.len() ==> !(#[trigger] cs@[j] == '2' && cs@[j + 1] == '0'),
        decreases cs@.len() - i,
    {
        if cs[i] == '2' && cs[i + 1] == '0' {
            return true;
        }
        i = i + 1;
    }
    false
}

fn source_tag(t: &str) -> (r: bool)
    ensures
        r == is_source_tag(t@),
{
    text_eq(t, "原创") || text_eq(t, "游戏改") || text_eq(t, "小说改") || text_eq(t, "漫画改")
}

fn alias_of(t: &str) -> (r: Option<&'static str>)
    ensures
        match r {
            Some(m) => source_alias(t@) == Some(m@),
            None => source_alias(t@) is None,
        },
{
    if text_eq(t, "GAL改") || text_eq(t, "游戏改编") {
        Some("游戏改")
    } else if text_eq(t, "轻小说改") || text_eq(t, "轻改") || text_eq(t, "网文改") || text_eq(t, "小说改编") {
        Some("小说改")
    } else if text_eq(t, "原创动画") {
        Some("原创")
    } else if text_eq(t, "漫改") || text_eq(t, "漫画改编") {
        Some("漫画改")
    } else {
        None
    }
}

fn region_tag(t: &str) -> (r: bool)
    ensures
        r == is_region_tag(t@),
{
    text_eq(t, "日本") || text_eq(t, "欧美") || text_eq(t, "美国") || text_eq(t, "中国") || text_eq(t, "法国")
        || text_eq(t, "韩国") || text_eq(t, "英国") || text_eq(t, "俄罗斯") || text_eq(t, "中国香港")
        || text_eq(t, "苏联") || text_eq(t, "捷克") || text_eq(t, "中国台湾") || text_eq(t, "马来西亚")
}

fn tag_text(t: &SubjectTag) -> (r: &str)
    ensures
        r@ == tag_name(*t),
{
    match &t.name {
        Some(n) => n.as_str(),
        None => {
            proof { reveal_strlit(""); }
            ""
        },
    }
}

fn meta_str(m: &Option<String>) -> (r: &str)
    ensures
        r@ == meta_text(*m),
{
    match m {
        Some(s) => s.as_str(),
        None => {
            proof { reveal_strlit(""); }
            ""
        },
    }
}

fn insert_region(regions: &mut IdSet, t: &str)
    requires
        old(regions).wf(),
    ensures
        final(regions).wf(),
        final(regions)@ == old(regions)@.insert(t@),
{
    let mut k = String::new();
    crate::text::append_text(&mut k, t);
    regions.insert(k);
}

impl TagTally {
    pub fn new() -> (r: TagTally)
        ensures
            r.wf(),
            r.model() == empty_tally(),
    {
        let r = TagTally {
            source: TextMap::new(),
            raw: TextMap::new(),
            meta: TextMap::new(),
            plain: TextMap::new(),
            regions: IdSet::new(),
        };
        assert(r.model() == empty_tally());
        r
    }

    fn count_tag(&mut self, name: &str, amount: i64, common: bool)
        requires
            old(self).wf(),
        ensures
            final(self).wf(),
            final(self).model() == (if common {
                count_common_tag(old(self).model(), name@, amount)
            } else {
                count_plain_tag(old(self).model(), name@, amount)
            }),
    {
        if year_digits(name) {
            return;
        }
        if common {
            match alias_of(name) {
                Some(m) => add_count(&mut self.source, m, amount),
                None => if source_tag(name) {
                    add_count(&mut self.source, name, amount);
                } else {
                    add_count(&mut self.raw, name, amount);
                },
            }
        } else if source_tag(name) {
            add_count(&mut self.source, name, amount);
        } else {
            match alias_of(name) {
                Some(m) => add_count(&mut self.source, m, amount),
                None => if region_tag(name) {
                    insert_region(&mut self.regions, name);
                } else {
                    add_count(&mut self.plain, name, amount);
                },
            }
        }
    }

    fn count_meta_tag(&mut self, m: &str, w: i64)
        requires
            old(self).wf(),
        ensures
            final(self).wf(),
            final(self).model() == count_meta(old(self).model(), m@, w),
    {
        if source_tag(m) {
            return;
        }
        if region_tag(m) {
            insert_region(&mut self.regions, m);
        } else {
            add_count(&mut self.meta, m, w);
        }
    }

    /// Counts one work.
    pub fn count_subject(&mut self, s: &SubjectInfo, common: bool)
        requires
            old(self).wf(),
        ensures
            final(self).wf(),
            final(self).model() == count_subject(old(self).model(), *s, common),
    {
        let w: i64 = if s.role == 1 { 3 } else { 1 };
        let ghost start = self.model();
        if !common {
            let mut i: usize = 0;
            assert(s.meta_tags@.take(0) =~= Seq::<Option<String>>::empty());
            while i < s.meta_tags.len()
                invariant
                    self.wf(),
                    i <= s.meta_tags@.len(),
                    w == weight(*s),
                    self.model() == count_metas(start, s.meta_tags@.take(i as int), w),
                decreases s.meta_tags@.len() - i,
            {
                assert(s.meta_tags@.take(i + 1).drop_last() =~= s.meta_tags@.take(i as int));
                assert(s.meta_tags@.take(i + 1).last() == s.meta_tags@[i as int]);
                self.count_meta_tag(meta_str(&s.meta_tags[i]), w);
                i = i + 1;
            }
            assert(s.meta_tags@.take(s.meta_tags@.len() as int) =~= s.meta_tags@);
        }
        let ghost mid = self.model();
        let mut j: usize = 0;
        assert(s.tags@.take(0) =~= Seq::<SubjectTag>::empty());
        while j < s.tags.len()
            invariant
                self.wf(),
                j <= s.tags@.len(),
                w == weight(*s),
                self.model() == count_tags(mid, s.tags@.take(j as int), w, common),
            decreases s.tags@.len() - j,
        {
            assert(s.tags@.take(j + 1).drop_last() =~= s.tags@.take(j as int));
            assert(s.tags@.take(j + 1).last() == s.tags@[j as int]);
            let t = &s.tags[j];
            let amount = w.wrapping_mul(t.count);
            self.count_tag(tag_text(t), amount, common);
            j = j + 1;
        }
        assert(s.tags@.take(s.tags@.len() as int) =~= s.tags@);
    }
}

/// The entries with their keys as texts.
pub open spec fn entry_views(v: Seq<(String, i64)>) -> Seq<(Seq<char>, i64)> {
    v.map_values(|e: (String, i64)| (e.0@, e.1))
}

/// `s` lists the entries of `m`, each key once, by nonincreasing count.
pub open spec fn lists_by_count(s: Seq<(Seq<char>, i64)>, m: Map<Seq<char>, i64>) -> bool {
    &&& forall|i: int, j: int| 0 <= i < j < s.len() ==> (#[trigger] s[i]).0 != (#[trigger] s[j]).0 && s[i].1 >= s[j].1
    &&& forall|i: int| 0 <= i < s.len() ==> m.dom().contains((#[trigger] s[i]).0) && m[s[i].0] == s[i].1
    &&& forall|k: Seq<char>| #[trigger] m.dom().contains(k) ==> exists|i: int| 0 <= i < s.len() && (#[trigger] s[i]).0 == k
}

/// The part of `m` under the keys among `keys`.
pub open spec fn under_keys(m: Map<Seq<char>, i64>, keys: Set<Seq<char>>) -> Map<Seq<char>, i64> {
    Map::new(|k: Seq<char>| m.dom().contains(k) && keys.contains(k), |k: Seq<char>| m[k])
}

/// The entries of `m`, most counted first; among equal counts in the order the keys came.
pub fn sort_by_count(m: &TextMap<i64>) -> (r: Vec<(String, i64)>)
    requires
        m.wf(),
    ensures
        lists_by_count(entry_views(r@), m@),
{
    let ghost keys = m.keys@;
    let ghost vals = m.vals@;
    proof {
        assert forall|j: int| 0 <= j < keys.len() implies #[trigger] m@.dom().contains(keys[j]@) && m@[keys[j]@] == vals[j] by {
            assert(crate::keyed::text_set(keys).contains(keys[j]@));
            let i = crate::keyed::key_index(keys, keys[j]@);
            assert(keys[i]@ == keys[j]@);
            assert(i == j);
        }
    }
    let mut out: Vec<(String, i64)> = Vec::new();
    let mut i: usize = 0;
    proof {
        assert(under_keys(m@, crate::keyed::text_set(keys.take(0))) =~= Map::<Seq<char>, i64>::empty());
        assert(entry_views(out@) =~= Seq::<(Seq<char>, i64)>::empty());
    }
    while i < m.keys.len()
        invariant
            m.wf(),
            keys == m.keys@,
            vals == m.vals@,
            i <= keys.len(),
            forall|j: int| 0 <= j < keys.len() ==> #[trigger] m@.dom().contains(keys[j]@) && m@[keys[j]@] == vals[j],
            lists_by_count(entry_views(out@), under_keys(m@, crate::keyed::text_set(keys.take(i as int)))),
            out@.len() == i,
        decreases keys.len() - i,
    {
        let key = m.keys[i].clone();
        let val = m.vals[i];
        let ghost ov = entry_views(out@);
        let ghost kv = keys[i as int]@;
        let ghost before_keys = crate::keyed::text_set(keys.take(i as int));
        let ghost after_keys = crate::keyed::text_set(keys.take(i + 1));
        proof {
            let t1 = keys.take(i + 1);
            let t0 = keys.take(i as int);
            assert(after_keys =~= before_keys.insert(kv)) by {
                assert forall|k: Seq<char>| #[trigger] after_keys.contains(k) == before_keys.insert(kv).contains(k) by {
                    if after_keys.contains(k) {
                        let w = choose|w: int| 0 <= w < t1.len() && (#[trigger] t1[w])@ == k;
                        if w < i {
                            assert(t0[w] == t1[w]);
                        }
                    }
                    if before_keys.contains(k) {
                        let w = choose|w: int| 0 <= w < t0.len() && (#[trigger] t0[w])@ == k;
                        assert(t1[w] == t0[w]);
                    }
                    if k == kv {
                        assert(t1[i as int] == keys[i as int]);
                    }
                }
            }
            assert(!before_keys.contains(kv)) by {
                if before_keys.contains(kv) {
                    let w = choose|w: int| 0 <= w < t0.len() && (#[trigger] t0[w])@ == kv;
                    assert(keys[w] == t0[w]);
                }
            }
        }
        let mut pos: usize = 0;
        while pos < out.len() && out[pos].1 >= val
            invariant
                pos <= out@.len(),
                ov == entry_views(out@),
                forall|k: int| 0 <= k < pos ==> (#[trigger] out@[k]).1 >= val,
            decreases out@.len() - pos,
        {
            pos = pos + 1;
        }
        let ghost before = out@;
        out.insert(pos, (key, val));
        proof {
            let nv = entry_views(out@);
            let target = under_keys(m@, after_keys);
            let old_map = under_keys(m@, before_keys);
            assert(out@ =~= before.take(pos as int).push((key, val)) + before.skip(pos as int));
            assert forall|k: int| 0 <= k < nv.len() implies #[trigger] nv[k] == (if k < pos { ov[k] } else if k == pos { (kv, val) } else { ov[k - 1] }) by {
                if k < pos {
                    assert(out@[k] == before[k]);
                } else if k > pos {
                    assert(out@[k] == before[k - 1]);
                }
            }
            // Every later entry counts less than the new one.
            assert forall|k: int| pos <= k < ov.len() implies (#[trigger] ov[k]).1 < val by {
                assert(ov[pos as int].1 < val) by {
                    assert(ov[pos as int] == (before[pos as int].0@, before[pos as int].1));
                }
                if k > pos {
                    assert(ov[pos as int].1 >= ov[k].1);
                }
            }
            assert forall|k: int| 0 <= k < pos implies (#[trigger] ov[k]).1 >= val by {
                assert(ov[k] == (before[k].0@, before[k].1));
            }
            assert forall|k: int| 0 <= k < ov.len() implies (#[trigger] ov[k]).0 != kv by {
                assert(old_map.dom().contains(ov[k].0));
            }
            assert forall|a: int, b: int| 0 <= a < b < nv.len() implies (#[trigger] nv[a]).0 != (#[trigger] nv[b]).0 && nv[a].1 >= nv[b].1 by {
                if b < pos {
                } else if b == pos {
                } else if a < pos {
                } else if a == pos {
                } else {
                    assert(ov[a - 1].0 != ov[b - 1].0 && ov[a - 1].1 >= ov[b - 1].1);
                }
            }
            assert forall|k: int| 0 <= k < nv.len() implies target.dom().contains((#[trigger] nv[k]).0) && target[nv[k].0] == nv[k].1 by {
                if k < pos {
                    assert(old_map.dom().contains(ov[k].0));
                } else if k > pos {
                    assert(old_map.dom().contains(ov[k - 1].0));
                } else {
                    assert(m@.dom().contains(keys[i as int]@) && m@[keys[i as int]@] == vals[i as int]);
                }
            }
            assert forall|k: Seq<char>| #[trigger] target.dom().contains(k) implies exists|w: int| 0 <= w < nv.len() && (#[trigger] nv[w]).0 == k by {
                if k == kv {
                    assert(nv[pos as int].0 == k);
                } else {
                    assert(old_map.dom().contains(k));
                    let w = choose|w: int| 0 <= w < ov.len() && (#[trigger] ov[w]).0 == k;
                    if w < pos {
                        assert(nv[w].0 == k);
                    } else {
                        assert(nv[w + 1].0 == k);
                    }
                }
            }
        }
        i = i + 1;
    }
    proof {
        assert(keys.take(keys.len() as int) =~= keys);
        assert(under_keys(m@, crate::keyed::text_set(keys)) =~= m@);
    }
    out
}

/// The keys of `s`, in order.
pub open spec fn entry_keys(s: Seq<(Seq<char>, i64)>) -> Seq<Seq<char>> {
    s.map_values(|e: (Seq<char>, i64)| e.0)
}

/// The entries of `s` whose key holds no year digits, in order.
pub open spec fn without_year_entries(s: Seq<(Seq<char>, i64)>) -> Seq<(Seq<char>, i64)>
    decreases s.len(),
{
    if s.len() == 0 {
        s
    } else {
        let p = without_year_entries(s.drop_last());
        if has_year_digits(s.last().0) { p } else { p.push(s.last()) }
    }
}

/// `v` without the entries whose key holds "20".
pub fn drop_year_entries(v: Vec<(String, i64)>) -> (r: Vec<(String, i64)>)
    ensures
        entry_views(r@) == without_year_entries(entry_views(v@)),
{
    let ghost ev = entry_views(v@);
    let mut out: Vec<(String, i64)> = Vec::new();
    let mut i: usize = 0;
    assert(ev.take(0) =~= Seq::<(Seq<char>, i64)>::empty());
    assert(entry_views(out@) =~= Seq::<(Seq<char>, i64)>::empty());
    while i < v.len()
        invariant
            i <= v@.len(),
            ev == entry_views(v@),
            entry_views(out@) == without_year_entries(ev.take(i as int)),
        decreases v@.len() - i,
    {
        assert(ev.take(i + 1).drop_last() =~= ev.take(i as int));
        assert(ev.take(i + 1).last() == ev[i as int]);
        if !year_digits(v[i].0.as_str()) {
            let ghost before = entry_views(out@);
            out.push((v[i].0.clone(), v[i].1));
            assert(entry_views(out@) =~= before.push(ev[i as int]));
        }
        i = i + 1;
    }
    assert(ev.take(v@.len() as int) =~= ev);
    out
}

/// The position of the first entry counted below `threshold`; the length when none is.
pub open spec fn first_below(s: Seq<(Seq<char>, i64)>, threshold: i64) -> int
    decreases s.len(),
{
    if s.len() == 0 {
        0
    } else if s[0].1 < threshold {
        0
    } else {
        1 + first_below(s.drop_first(), threshold)
    }
}

/// How many raw tags are kept: those up to the first one counted below `threshold`, and at
/// least `subject_tag_num`.
pub fn raw_tags_take(sorted: &Vec<(String, i64)>, threshold: i64, subject_tag_num: usize) -> (r: usize)
    ensures
        r == (if first_below(entry_views(sorted@), threshold) >= subject_tag_num {
            first_below(entry_views(sorted@), threshold)
        } else {
            subject_tag_num as int
        }),
{
    let ghost ev = entry_views(sorted@);
    let mut i: usize = 0;
    assert(ev.skip(0) =~= ev);
    while i < sorted.len() && sorted[i].1 >= threshold
        invariant
            i <= sorted@.len(),
            ev == entry_views(sorted@),
            first_below(ev, threshold) == i + first_below(ev.skip(i as int), threshold),
        decreases sorted@.len() - i,
    {
        assert(ev.skip(i as int).drop_first() =~= ev.skip(i + 1));
        assert(ev.skip(i as int)[0] == ev[i as int]);
        i = i + 1;
    }
    if i < sorted.len() {
        assert(ev.skip(i as int)[0] == ev[i as int]);
    }
    if i >= subject_tag_num { i } else { subject_tag_num }
}

/// Adds the top entry of `sorted_source`, if any, to the raw tags.
pub fn merge_top_source(raw: &mut TextMap<i64>, sorted_source: &Vec<(String, i64)>)
    requires
        old(raw).wf(),
    ensures
        final(raw).wf(),
        final(raw)@ == (if sorted_source@.len() > 0 {
            added(old(raw)@, sorted_source@[0].0@, sorted_source@[0].1)
        } else {
            old(raw)@
        }),
{
    if sorted_source.len() > 0 {
        add_count(raw, sorted_source[0].0.as_str(), sorted_source[0].1);
    }
}

/// `t` extended by the entries of `cand` it lacks, in order, until it holds `n`.
pub open spec fn fill_unique(t: Seq<Seq<char>>, cand: Seq<Seq<char>>, n: int) -> Seq<Seq<char>>
    decreases cand.len(),
{
    if cand.len() == 0 || t.len() >= n {
        t
    } else {
        fill_unique(if t.contains(cand[0]) { t } else { t.push(cand[0]) }, cand.drop_first(), n)
    }
}

fn fill_from(target: &mut Vec<String>, cand: &Vec<(String, i64)>, n: usize)
    ensures
        crate::keyed::texts(final(target)@) == fill_unique(crate::keyed::texts(old(target)@), entry_keys(entry_views(cand@)), n as int),
{
    let ghost ck = entry_keys(entry_views(cand@));
    let ghost goal = fill_unique(crate::keyed::texts(target@), ck, n as int);
    let mut i: usize = 0;
    assert(ck.skip(0) =~= ck);
    while i < cand.len()
        invariant_except_break
            i <= cand@.len(),
            ck == entry_keys(entry_views(cand@)),
            goal == fill_unique(crate::keyed::texts(target@), ck.skip(i as int), n as int),
        ensures
            goal == crate::keyed::texts(target@),
        decreases cand@.len() - i,
    {
        if target.len() >= n {
            break;
        }
        assert(ck.skip(i as int).drop_first() =~= ck.skip(i + 1));
        assert(ck.skip(i as int)[0] == cand@[i as int].0@);
        if !crate::gameplay::details::texts_contain(target, cand[i].0.as_str()) {
            let ghost before = crate::keyed::texts(target@);
            target.push(cand[i].0.clone());
            assert(crate::keyed::texts(target@) =~= before.push(cand@[i as int].0@));
        }
        i = i + 1;
        proof {
            if i == cand@.len() {
                assert(ck.skip(i as int) =~= Seq::<Seq<char>>::empty());
            }
        }
    }
}

/// The meta tags shown for a character: the top source, then meta tags and other tags by
/// count until `n` are shown, then every region tag.
pub open spec fn meta_selection(
    sorted_source: Seq<(Seq<char>, i64)>,
    sorted_meta: Seq<(Seq<char>, i64)>,
    sorted_plain: Seq<(Seq<char>, i64)>,
    regions: Seq<Seq<char>>,
    n: int,
) -> Seq<Seq<char>> {
    let t0 = if sorted_source.len() > 0 { seq![sorted_source[0].0] } else { Seq::empty() };
    let t1 = fill_unique(t0, entry_keys(sorted_meta), n);
    let t2 = fill_unique(t1, entry_keys(sorted_plain), n);
    crate::catalog::with_unique(t2, regions)
}

/// The meta tags shown, from the sorted counts and the region tags.
pub fn select_meta_tags(
    sorted_source: &Vec<(String, i64)>,
    sorted_meta: &Vec<(String, i64)>,
    sorted_plain: &Vec<(String, i64)>,
    regions: &Vec<String>,
    n: usize,
) -> (r: Vec<String>)
    ensures
        crate::keyed::texts(r@) == meta_selection(
            entry_views(sorted_source@), entry_views(sorted_meta@), entry_views(sorted_plain@),
            crate::keyed::texts(regions@), n as int,
        ),
{
    let mut out: Vec<String> = Vec::new();
    if sorted_source.len() > 0 {
        out.push(sorted_source[0].0.clone());
        assert(crate::keyed::texts(out@) =~= seq![entry_views(sorted_source@)[0].0]);
    } else {
        assert(crate::keyed::texts(out@) =~= Seq::<Seq<char>>::empty());
    }
    fill_from(&mut out, sorted_meta, n);
    fill_from(&mut out, sorted_plain, n);
    crate::catalog::push_unique(&mut out, crate::keyed::clone_texts(regions));
    out
}

/// The meta tags shown for a character from the works at `order`: counted, sorted by count
/// (equal counts in some order), and selected.
pub fn meta_tags_for(subjects: &Vec<SubjectInfo>, order: &Vec<usize>, subject_tag_num: usize) -> (r: Vec<String>)
    requires
        forall|k: int| 0 <= k < order@.len() ==> #[trigger] order@[k] < subjects@.len(),
    ensures
        ({
            let t = tally_of(subjects@, order@, false);
            exists|ss: Seq<(Seq<char>, i64)>, sm: Seq<(Seq<char>, i64)>, sp: Seq<(Seq<char>, i64)>, rg: Seq<Seq<char>>|
                lists_by_count(ss, t.source) && lists_by_count(sm, t.meta) && lists_by_count(sp, t.plain)
                && rg.no_duplicates() && rg.to_set() == t.regions
                && #[trigger] meta_selection(ss, sm, sp, rg, subject_tag_num as int) == crate::keyed::texts(r@)
        }),
{
    let tally = tally_tags(subjects, order, false);
    let ss = sort_by_count(&tally.source);
    let sm = sort_by_count(&tally.meta);
    let sp = sort_by_count(&tally.plain);
    let r = select_meta_tags(&ss, &sm, &sp, &tally.regions.items, subject_tag_num);
    proof {
        let rg = crate::keyed::texts(tally.regions.items@);
        assert(rg.no_duplicates()) by {
            assert forall|a: int, b: int| 0 <= a < rg.len() && 0 <= b < rg.len() && a != b implies rg[a] != rg[b] by {
                assert(rg[a] == tally.regions.items@[a]@);
                assert(rg[b] == tally.regions.items@[b]@);
            }
        }
        assert(rg.to_set() =~= tally.regions@) by {
            assert forall|k: Seq<char>| #[trigger] rg.to_set().contains(k) == tally.regions@.contains(k) by {
                if rg.to_set().contains(k) {
                    let w = choose|w: int| 0 <= w < rg.len() && rg[w] == k;
                    assert(tally.regions.items@[w]@ == k);
                }
                if tally.regions@.contains(k) {
                    let w = choose|w: int| 0 <= w < tally.regions.items@.len() && tally.regions.items@[w]@ == k;
                    assert(rg[w] == k);
                }
            }
        }
        assert(meta_selection(entry_views(ss@), entry_views(sm@), entry_views(sp@), rg, subject_tag_num as int) == crate::keyed::texts(r@));
    }
    r
}

/// The raw tags of a character from the works at `order`, when common tags are compared: the
/// top source merged in, year tags dropped, most counted first (equal counts in some order).
pub fn raw_tags_for(subjects: &Vec<SubjectInfo>, order: &Vec<usize>) -> (r: Vec<(String, i64)>)
    requires
        forall|k: int| 0 <= k < order@.len() ==> #[trigger] order@[k] < subjects@.len(),
    ensures
        ({
            let t = tally_of(subjects@, order@, true);
            exists|ss: Seq<(Seq<char>, i64)>|
                #[trigger] lists_by_count(ss, t.source)
                && lists_by_count(entry_views(r@), without_year_keys(
                    if ss.len() > 0 { added(t.raw, ss[0].0, ss[0].1) } else { t.raw }))
        }),
{
    let mut tally = tally_tags(subjects, order, true);
    let ss = sort_by_count(&tally.source);
    let ghost t = tally.model();
    merge_top_source(&mut tally.raw, &ss);
    let ghost ev = entry_views(ss@);
    proof {
        if ss@.len() > 0 {
            assert(ev[0] == (ss@[0].0@, ss@[0].1));
        }
        assert(tally.raw@ == (if ev.len() > 0 { added(t.raw, ev[0].0, ev[0].1) } else { t.raw }));
    }
    let sorted = sort_by_count(&tally.raw);
    let r = drop_year_entries(sorted);
    proof {
        lemma_without_year_lists(entry_views(sorted@), tally.raw@);
        assert(lists_by_count(ev, t.source));
    }
    r
}

/// The part of `m` under keys without year digits.
pub open spec fn without_year_keys(m: Map<Seq<char>, i64>) -> Map<Seq<char>, i64> {
    Map::new(|k: Seq<char>| m.dom().contains(k) && !has_year_digits(k), |k: Seq<char>| m[k])
}

proof fn without_year_positions(s: Seq<(Seq<char>, i64)>) -> (idx: Seq<int>)
    ensures
        idx.len() == without_year_entries(s).len(),
        forall|i: int| 0 <= i < idx.len() ==> 0 <= #[trigger] idx[i] < s.len() && without_year_entries(s)[i] == s[idx[i]],
        forall|i: int, j: int| 0 <= i < j < idx.len() ==> #[trigger] idx[i] < #[trigger] idx[j],
        forall|k: int| 0 <= k < s.len() && !has_year_digits(s[k].0) ==> without_year_entries(s).contains(#[trigger] s[k]),
    decreases s.len(),
{
    if s.len() == 0 {
        Seq::empty()
    } else {
        let init = s.drop_last();
        let p = without_year_positions(init);
        let w = without_year_entries(s);
        assert forall|k: int| 0 <= k < s.len() && !has_year_digits(s[k].0) implies w.contains(#[trigger] s[k]) by {
            if k < s.len() - 1 {
                assert(init[k] == s[k]);
                let c = choose|c: int| 0 <= c < without_year_entries(init).len() && without_year_entries(init)[c] == init[k];
                assert(w[c] == s[k]);
            } else {
                assert(w[w.len() - 1] == s[k]);
            }
        }
        if has_year_digits(s.last().0) {
            p
        } else {
            let idx = p.push(s.len() - 1);
            assert forall|i: int| 0 <= i < idx.len() implies 0 <= #[trigger] idx[i] < s.len() && w[i] == s[idx[i]] by {
                if i < p.len() {
                    assert(init[p[i]] == s[p[i]]);
                }
            }
            idx
        }
    }
}

proof fn lemma_without_year_lists(s: Seq<(Seq<char>, i64)>, m: Map<Seq<char>, i64>)
    requires
        lists_by_count(s, m),
    ensures
        lists_by_count(without_year_entries(s), without_year_keys(m)),
{
    let w = without_year_entries(s);
    let idx = without_year_positions(s);
    let target = without_year_keys(m);
    assert forall|i: int, j: int| 0 <= i < j < w.len() implies (#[trigger] w[i]).0 != (#[trigger] w[j]).0 && w[i].1 >= w[j].1 by {
        assert(idx[i] < idx[j]);
        assert(w[i] == s[idx[i]] && w[j] == s[idx[j]]);
    }
    assert forall|i: int| 0 <= i < w.len() implies target.dom().contains((#[trigger] w[i]).0) && target[w[i].0] == w[i].1 by {
        assert(w[i] == s[idx[i]]);
        lemma_kept_entry_has_no_year(s, i);
    }
    assert forall|k: Seq<char>| #[trigger] target.dom().contains(k) implies exists|i: int| 0 <= i < w.len() && (#[trigger] w[i]).0 == k by {
        assert(m.dom().contains(k));
        let a = choose|a: int| 0 <= a < s.len() && (#[trigger] s[a]).0 == k;
        assert(w.contains(s[a]));
        let c = choose|c: int| 0 <= c < w.len() && w[c] == s[a];
        assert(w[c].0 == k);
    }
}

proof fn lemma_kept_entry_has_no_year(s: Seq<(Seq<char>, i64)>, i: int)
    requires
        0 <= i < without_year_entries(s).len(),
    ensures
        !has_year_digits(without_year_entries(s)[i].0),
    decreases s.len(),
{
    let init = s.drop_last();
    let p = without_year_entries(init);
    if i < p.len() {
        lemma_kept_entry_has_no_year(init, i);
    }
}

/// What a character payload gathers from its works: the works that count, in order, their
/// names, ids and years, and the tags shown (meta tags, or raw tags by count when common tags
/// are compared).
pub struct PayloadParts {
    pub order: Vec<usize>,
    pub appearances: crate::payload::Appearances,
    pub meta_tags: Vec<String>,
    pub raw_tags: Vec<(String, i64)>,
}

/// The parts of a character payload that come from its works, `current_year` being this year.
pub fn payload_parts(settings: &crate::settings::GameSettings, subjects: &Vec<SubjectInfo>, current_year: i32) -> (r: PayloadParts)
    ensures
        ({
            let counted = crate::payload::counted_positions(*settings, subjects@, current_year as int);
            let chosen = if counted.len() == 0 { crate::payload::all_positions(subjects@.len()) } else { counted };
            &&& r.order@.to_set() == chosen.to_set()
            &&& r.order@.len() == chosen.len()
            &&& crate::payload::ordered_positions(subjects@, r.order@)
        }),
        forall|k: int| 0 <= k < r.order@.len() ==> #[trigger] r.order@[k] < subjects@.len(),
        r.appearances.names@.len() == r.order@.len(),
        r.appearances.ids@.len() == r.order@.len(),
        forall|k: int| 0 <= k < r.order@.len() ==> #[trigger] r.appearances.names@[k]@ == crate::payload::listed_name(subjects@[r.order@[k] as int]),
        forall|k: int| 0 <= k < r.order@.len() ==> #[trigger] r.appearances.ids@[k] == subjects@[r.order@[k] as int].id,
        r.appearances.latest == crate::payload::latest_year(subjects@, r.order@),
        r.appearances.earliest == crate::payload::earliest_year(subjects@, r.order@),
        settings.common_tags ==> r.meta_tags@.len() == 0,
        !settings.common_tags ==> r.raw_tags@.len() == 0,
        settings.common_tags ==> ({
            let t = tally_of(subjects@, r.order@, true);
            exists|ss: Seq<(Seq<char>, i64)>|
                #[trigger] lists_by_count(ss, t.source)
                && lists_by_count(entry_views(r.raw_tags@), without_year_keys(
                    if ss.len() > 0 { added(t.raw, ss[0].0, ss[0].1) } else { t.raw }))
        }),
        !settings.common_tags ==> ({
            let t = tally_of(subjects@, r.order@, false);
            exists|ss: Seq<(Seq<char>, i64)>, sm: Seq<(Seq<char>, i64)>, sp: Seq<(Seq<char>, i64)>, rg: Seq<Seq<char>>|
                lists_by_count(ss, t.source) && lists_by_count(sm, t.meta) && lists_by_count(sp, t.plain)
                && rg.no_duplicates() && rg.to_set() == t.regions
                && #[trigger] meta_selection(ss, sm, sp, rg, settings.subject_tag_num as int) == crate::keyed::texts(r.meta_tags@)
        }),
{
    let order = crate::payload::appearance_order(settings, subjects, current_year);
    proof {
        assert forall|k: int| 0 <= k < order@.len() implies #[trigger] order@[k] < subjects@.len() by {
            let counted = crate::payload::counted_positions(*settings, subjects@, current_year as int);
            let chosen = if counted.len() == 0 { crate::payload::all_positions(subjects@.len()) } else { counted };
            assert(order@.to_set().contains(order@[k]));
            assert(chosen.to_set().contains(order@[k]));
            let w = choose|w: int| 0 <= w < chosen.len() && chosen[w] == order@[k];
            crate::payload::lemma_counted_in_range(*settings, subjects@, current_year as int);
        }
    }
    let appearances = crate::payload::list_appearances(subjects, &order);
    if settings.common_tags {
        let raw_tags = raw_tags_for(subjects, &order);
        PayloadParts { order, appearances, meta_tags: Vec::new(), raw_tags }
    } else {
        let meta_tags = meta_tags_for(subjects, &order, settings.subject_tag_num);
        PayloadParts { order, appearances, meta_tags, raw_tags: Vec::new() }
    }
}

/// The tags of the works at `order`, counted in turn.
pub fn tally_tags(subjects: &Vec<SubjectInfo>, order: &Vec<usize>, common: bool) -> (r: TagTally)
    requires
        forall|k: int| 0 <= k < order@.len() ==> #[trigger] order@[k] < subjects@.len(),
    ensures
        r.wf(),
        r.model() == tally_of(subjects@, order@, common),
{
    let mut t = TagTally::new();
    let mut i: usize = 0;
    assert(order@.take(0) =~= Seq::<usize>::empty());
    while i < order.len()
        invariant
            t.wf(),
            i <= order@.len(),
            forall|k: int| 0 <= k < order@.len() ==> #[trigger] order@[k] < subjects@.len(),
            t.model() == tally_of(subjects@, order@.take(i as int), common),
        decreases order@.len() - i,
    {
        assert(order@.take(i + 1).drop_last() =~= order@.take(i as int));
        assert(order@.take(i + 1).last() == order@[i as int]);
        t.count_subject(&subjects[order[i]], common);
        i = i + 1;
    }
    assert(order@.take(order@.len() as int) =~= order@);
    t
}

} // verus!

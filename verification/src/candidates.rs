//! The pools of candidate answers: the key a pool is cached under, and the filter the
//! settings put on the works its characters are drawn from.
use vstd::prelude::*;
use crate::catalog::{aliases_of, nonempty_tag, primary_tag, source_aliases, type_only};
use crate::keyed::texts;
use crate::settings::GameSettings;
use crate::text::append_text;

verus! {

/// Pools cached at most.
pub const CANDIDATE_CACHE_MAX_ENTRIES: usize = 128;

/// `n` placeholders, separated by commas.
pub open spec fn placeholders(n: nat) -> Seq<char>
    decreases n,
{
    if n == 0 {
        Seq::empty()
    } else if n == 1 {
        seq!['?']
    } else {
        placeholders((n - 1) as nat) + seq![',', '?']
    }
}

/// The SQL conditions the tag filters of the settings add, in order: first meta tag, source
/// (one placeholder per alias), genre.
pub open spec fn filter_sql(tags: Seq<Seq<char>>) -> Seq<char> {
    let a = if type_only(primary_tag(tags)) { Seq::empty() } else { " AND EXISTS (\n                    SELECT 1\n                    FROM json_each(COALESCE(d.meta_tags_json, '[]')) mt\n                    WHERE mt.value = ?\n                )"@ };
    let b = match nonempty_tag(tags, 1) {
        Some(src) => " AND EXISTS (\n                    SELECT 1\n                    FROM json_each(COALESCE(d.tags_json, '[]')) tg\n                    WHERE json_extract(tg.value, '$.name') IN ("@ + placeholders(aliases_of(src).len()) + ")\n                )"@,
        None => Seq::empty(),
    };
    let c = match nonempty_tag(tags, 2) {
        Some(g) => " AND (\n                    EXISTS (\n                        SELECT 1\n                        FROM json_each(COALESCE(d.meta_tags_json, '[]')) mt\n                        WHERE mt.value = ?\n                    )\n                    OR EXISTS (\n                        SELECT 1\n                        FROM json_each(COALESCE(d.tags_json, '[]')) tg\n                        WHERE json_extract(tg.value, '$.name') = ?\n                    )\n                )"@,
        None => Seq::empty(),
    };
    a + b + c
}

/// The values for the placeholders of `filter_sql`, in order.
pub open spec fn filter_values(tags: Seq<Seq<char>>) -> Seq<Seq<char>> {
    let a = if type_only(primary_tag(tags)) { Seq::empty() } else { seq![primary_tag(tags)] };
    let b = match nonempty_tag(tags, 1) {
        Some(src) => aliases_of(src),
        None => Seq::empty(),
    };
    let c = match nonempty_tag(tags, 2) {
        Some(g) => seq![g, g],
        None => Seq::empty(),
    };
    a + b + c
}

fn push_placeholders(out: &mut String, n: usize)
    ensures
        final(out)@ == old(out)@ + placeholders(n as nat),
{
    let mut i: usize = 0;
    while i < n
        invariant
            i <= n,
            out@ == old(out)@ + placeholders(i as nat),
        decreases n - i,
    {
        if i == 0 {
            crate::text::push_char(out, '?');
            assert(out@ =~= old(out)@ + placeholders(1));
        } else {
            let ghost before = out@;
            crate::text::push_char(out, ',');
            crate::text::push_char(out, '?');
            assert(out@ =~= old(out)@ + placeholders((i + 1) as nat));
        }
        i = i + 1;
    }
}

fn append_texts(values: &mut Vec<String>, more: Vec<String>)
    ensures
        texts(final(values)@) == texts(old(values)@) + texts(more@),
{
    let mut more = more;
    let mut rest: Vec<String> = Vec::new();
    let ghost m = texts(more@);
    // Moved over from the back, then pushed in order.
    while more.len() > 0
        invariant
            m.len() == more@.len() + rest@.len(),
            forall|k: int| 0 <= k < more@.len() ==> (#[trigger] more@[k])@ == m[k],
            forall|k: int| 0 <= k < rest@.len() ==> (#[trigger] rest@[k])@ == m[m.len() - 1 - k],
        decreases more@.len(),
    {
        let x = more.pop().unwrap();
        rest.push(x);
    }
    let ghost start = texts(values@);
    assert(more@.len() == 0);
    let mut i: usize = rest.len();
    while i > 0
        invariant
            i == rest@.len(),
            i <= m.len(),
            forall|k: int| 0 <= k < rest@.len() ==> (#[trigger] rest@[k])@ == m[m.len() - 1 - k],
            texts(values@) == start + m.take(m.len() - i),
        decreases i,
    {
        let x = rest.pop().unwrap();
        let ghost before = texts(values@);
        values.push(x);
        assert(m.take(m.len() - i + 1) =~= m.take(m.len() - i).push(m[m.len() - i]));
        assert(texts(values@) =~= before.push(m[m.len() - i]));
        i = i - 1;
    }
    assert(m.take(m.len() as int) =~= m);
}

impl GameSettings {
    /// The SQL conditions on a work for the tag filters of these settings.
    pub fn subject_filter_sql(&self) -> (r: String)
        ensures
            r@ == filter_sql(texts(self.meta_tags@)),
    {
        let mut sql = String::new();
        let ghost tags = texts(self.meta_tags@);
        if self.primary_meta_filter().is_some() {
            append_text(&mut sql, " AND EXISTS (\n                    SELECT 1\n                    FROM json_each(COALESCE(d.meta_tags_json, '[]')) mt\n                    WHERE mt.value = ?\n                )");
        }
        let ghost a = sql@;
        assert(a == (if type_only(primary_tag(tags)) { Seq::<char>::empty() } else { " AND EXISTS (\n                    SELECT 1\n                    FROM json_each(COALESCE(d.meta_tags_json, '[]')) mt\n                    WHERE mt.value = ?\n                )"@ }));
        if let Some(source) = self.source_filter() {
            let n = source_aliases(source).len();
            append_text(&mut sql, " AND EXISTS (\n                    SELECT 1\n                    FROM json_each(COALESCE(d.tags_json, '[]')) tg\n                    WHERE json_extract(tg.value, '$.name') IN (");
            push_placeholders(&mut sql, n);
            append_text(&mut sql, ")\n                )");
        }
        let ghost ab = sql@;
        if self.genre_filter().is_some() {
            append_text(&mut sql, " AND (\n                    EXISTS (\n                        SELECT 1\n                        FROM json_each(COALESCE(d.meta_tags_json, '[]')) mt\n                        WHERE mt.value = ?\n                    )\n                    OR EXISTS (\n                        SELECT 1\n                        FROM json_each(COALESCE(d.tags_json, '[]')) tg\n                        WHERE json_extract(tg.value, '$.name') = ?\n                    )\n                )");
        }
        proof {
            let b = match nonempty_tag(tags, 1) {
                Some(src) => " AND EXISTS (\n                    SELECT 1\n                    FROM json_each(COALESCE(d.tags_json, '[]')) tg\n                    WHERE json_extract(tg.value, '$.name') IN ("@ + placeholders(aliases_of(src).len()) + ")\n                )"@,
                None => Seq::<char>::empty(),
            };
            assert(ab =~= a + b);
        }
        assert(sql@ =~= filter_sql(tags));
        sql
    }

    /// The values for the placeholders of `subject_filter_sql`, in order.
    pub fn subject_filter_values(&self) -> (r: Vec<String>)
        ensures
            texts(r@) == filter_values(texts(self.meta_tags@)),
    {
        let mut values: Vec<String> = Vec::new();
        let ghost tags = texts(self.meta_tags@);
        if let Some(primary) = self.primary_meta_filter() {
            let mut p = String::new();
            append_text(&mut p, primary);
            values.push(p);
        }
        let ghost a = texts(values@);
        assert(a =~= (if type_only(primary_tag(tags)) { Seq::<Seq<char>>::empty() } else { seq![primary_tag(tags)] }));
        if let Some(source) = self.source_filter() {
            append_texts(&mut values, source_aliases(source));
        }
        let ghost ab = texts(values@);
        if let Some(genre) = self.genre_filter() {
            let mut g1 = String::new();
            append_text(&mut g1, genre);
            let mut g2 = String::new();
            append_text(&mut g2, genre);
            values.push(g1);
            values.push(g2);
            assert(texts(values@) =~= ab + seq![genre@, genre@]);
        }
        proof {
            let b = match nonempty_tag(tags, 1) {
                Some(src) => aliases_of(src),
                None => Seq::<Seq<char>>::empty(),
            };
            assert(ab =~= a + b);
        }
        assert(texts(values@) =~= filter_values(tags));
        values
    }
}

/// `s` is strictly increasing.
pub open spec fn strictly_increasing(s: Seq<i64>) -> bool {
    forall|a: int, b: int| 0 <= a < b < s.len() ==> #[trigger] s[a] < #[trigger] s[b]
}

/// The values of `v`, sorted, each once.
pub fn sorted_unique_ids(v: &Vec<i64>) -> (r: Vec<i64>)
    ensures
        strictly_increasing(r@),
        r@.to_set() == v@.to_set(),
{
    let mut out: Vec<i64> = Vec::new();
    let mut i: usize = 0;
    assert(out@.to_set() =~= v@.take(0).to_set());
    while i < v.len()
        invariant
            i <= v@.len(),
            strictly_increasing(out@),
            out@.to_set() == v@.take(i as int).to_set(),
        decreases v@.len() - i,
    {
        let x = v[i];
        let mut pos: usize = 0;
        while pos < out.len() && out[pos] < x
            invariant
                pos <= out@.len(),
                forall|k: int| 0 <= k < pos ==> #[trigger] out@[k] < x,
            decreases out@.len() - pos,
        {
            pos = pos + 1;
        }
        let ghost before = out@;
        proof {
            let t1 = v@.take(i + 1);
            let t0 = v@.take(i as int);
            assert(t1.to_set() =~= t0.to_set().insert(x)) by {
                assert forall|y: i64| #[trigger] t1.to_set().contains(y) == t0.to_set().insert(x).contains(y) by {
                    if t1.contains(y) {
                        let w = choose|w: int| 0 <= w < t1.len() && t1[w] == y;
                        if w < i {
                            assert(t0[w] == y);
                        }
                    }
                    if t0.contains(y) {
                        let w = choose|w: int| 0 <= w < t0.len() && t0[w] == y;
                        assert(t1[w] == y);
                    }
                    if y == x {
                        assert(t1[i as int] == x);
                    }
                }
            }
        }
        if pos < out.len() && out[pos] == x {
            assert(out@.to_set() =~= before.to_set().insert(x)) by {
                assert(before.to_set().contains(x)) by {
                    assert(before[pos as int] == x);
                }
            }
        } else {
            proof {
                assert forall|k: int| pos <= k < before.len() implies x < #[trigger] before[k] by {
                    assert(before[pos as int] > x);
                    if k > pos {
                        assert(before[pos as int] < before[k]);
                    }
                }
            }
            out.insert(pos, x);
            proof {
                assert(out@ =~= before.take(pos as int).push(x) + before.skip(pos as int));
                assert forall|a: int, b: int| 0 <= a < b < out@.len() implies #[trigger] out@[a] < #[trigger] out@[b] by {
                    if b < pos {
                        assert(out@[a] == before[a] && out@[b] == before[b]);
                    } else if b == pos {
                        assert(out@[a] == before[a]);
                    } else if a < pos {
                        assert(out@[a] == before[a] && out@[b] == before[b - 1]);
                    } else if a == pos {
                        assert(out@[b] == before[b - 1]);
                    } else {
                        assert(out@[a] == before[a - 1] && out@[b] == before[b - 1]);
                    }
                }
                assert forall|y: i64| #[trigger] out@.to_set().contains(y) == before.to_set().insert(x).contains(y) by {
                    if out@.contains(y) {
                        let w = choose|w: int| 0 <= w < out@.len() && out@[w] == y;
                        if w < pos {
                            assert(before[w] == y);
                        } else if w > pos {
                            assert(before[w - 1] == y);
                        }
                    }
                    if before.contains(y) {
                        let w = choose|w: int| 0 <= w < before.len() && before[w] == y;
                        if w < pos {
                            assert(out@[w] == y);
                        } else {
                            assert(out@[w + 1] == y);
                        }
                    }
                    if y == x {
                        assert(out@[pos as int] == x);
                    }
                }
                assert(out@.to_set() =~= before.to_set().insert(x));
            }
        }
        i = i + 1;
    }
    assert(v@.take(v@.len() as int) =~= v@);
    out
}

/// The settings that decide a pool of candidates: two settings with equal keys share a pool.
pub struct CandidateCacheKey {
    pub start_year: Option<i32>,
    pub end_year: Option<i32>,
    pub meta_tags: Vec<String>,
    pub top_n_subjects: Option<i64>,
    pub main_character_only: bool,
    pub character_num: usize,
    pub use_subject_per_year: bool,
    pub added_subject_ids: Vec<i64>,
}

/// The number of top works drawn from: positive values, at most 3000.
pub open spec fn capped_top_n(top: Option<i64>) -> Option<i64> {
    match top {
        Some(n) => if n > 0 { Some(if n < 3000 { n } else { 3000 }) } else { None },
        None => None,
    }
}

/// Characters drawn per work: between 1 and 50.
pub open spec fn clamped_character_num(n: usize) -> usize {
    if n < 1 { 1 } else if n > 50 { 50 } else { n }
}

pub fn top_n_limit(top: Option<i64>) -> (r: Option<i64>)
    ensures
        r == capped_top_n(top),
{
    match top {
        Some(n) => if n > 0 { Some(if n < 3000 { n } else { 3000 }) } else { None },
        None => None,
    }
}

pub fn characters_per_subject(n: usize) -> (r: usize)
    ensures
        r == clamped_character_num(n),
{
    if n < 1 { 1 } else if n > 50 { 50 } else { n }
}

impl CandidateCacheKey {
    /// The key of the pool for `settings`: the added works sorted and deduplicated, the top
    /// count and characters per work bounded as the pool query bounds them.
    pub fn from_settings(settings: &GameSettings) -> (r: CandidateCacheKey)
        ensures
            r.start_year == settings.start_year,
            r.end_year == settings.end_year,
            r.meta_tags@ == settings.meta_tags@,
            r.top_n_subjects == capped_top_n(settings.top_n_subjects),
            r.main_character_only == settings.main_character_only,
            r.character_num == clamped_character_num(settings.character_num),
            r.use_subject_per_year == settings.use_subject_per_year,
            strictly_increasing(r.added_subject_ids@),
            r.added_subject_ids@.to_set() == settings.added_subject_ids@.to_set(),
    {
        CandidateCacheKey {
            start_year: settings.start_year,
            end_year: settings.end_year,
            meta_tags: crate::keyed::clone_texts(&settings.meta_tags),
            top_n_subjects: top_n_limit(settings.top_n_subjects),
            main_character_only: settings.main_character_only,
            character_num: characters_per_subject(settings.character_num),
            use_subject_per_year: settings.use_subject_per_year,
            added_subject_ids: sorted_unique_ids(&settings.added_subject_ids),
        }
    }
}

/// The added works of a pool key do not depend on their order or repeats in the settings:
/// two strictly increasing lists with the same members are the same list.
pub proof fn law_added_ids_determined(a: Seq<i64>, b: Seq<i64>)
    requires
        strictly_increasing(a),
        strictly_increasing(b),
        a.to_set() == b.to_set(),
    ensures
        a == b,
    decreases a.len(),
{
    if a.len() == 0 {
        if b.len() > 0 {
            assert(b.to_set().contains(b[0]));
        }
        assert(a =~= b);
    } else {
        assert(a.to_set().contains(a[0]));
        assert(b.len() > 0);
        assert(b.to_set().contains(b[0]));
        let j = choose|j: int| 0 <= j < b.len() && b[j] == a[0];
        let i = choose|i: int| 0 <= i < a.len() && a[i] == b[0];
        if j > 0 {
            assert(b[0] < b[j]);
        }
        if i > 0 {
            assert(a[0] < a[i]);
        }
        assert(a[0] == b[0]);
        let a1 = a.drop_first();
        let b1 = b.drop_first();
        assert(a1.to_set() =~= a.to_set().remove(a[0])) by {
            assert forall|y: i64| #[trigger] a1.to_set().contains(y) == a.to_set().remove(a[0]).contains(y) by {
                if a1.contains(y) {
                    let w = choose|w: int| 0 <= w < a1.len() && a1[w] == y;
                    assert(a[w + 1] == y);
                    assert(a[0] < a[w + 1]);
                }
                if a.contains(y) && y != a[0] {
                    let w = choose|w: int| 0 <= w < a.len() && a[w] == y;
                    assert(a1[w - 1] == y);
                }
            }
        }
        assert(b1.to_set() =~= b.to_set().remove(b[0])) by {
            assert forall|y: i64| #[trigger] b1.to_set().contains(y) == b.to_set().remove(b[0]).contains(y) by {
                if b1.contains(y) {
                    let w = choose|w: int| 0 <= w < b1.len() && b1[w] == y;
                    assert(b[w + 1] == y);
                    assert(b[0] < b[w + 1]);
                }
                if b.contains(y) && y != b[0] {
                    let w = choose|w: int| 0 <= w < b.len() && b[w] == y;
                    assert(b1[w - 1] == y);
                }
            }
        }
        assert(strictly_increasing(a1)) by {
            assert forall|x: int, y: int| 0 <= x < y < a1.len() implies #[trigger] a1[x] < #[trigger] a1[y] by {
                assert(a[x + 1] < a[y + 1]);
            }
        }
        assert(strictly_increasing(b1)) by {
            assert forall|x: int, y: int| 0 <= x < y < b1.len() implies #[trigger] b1[x] < #[trigger] b1[y] by {
                assert(b[x + 1] < b[y + 1]);
            }
        }
        law_added_ids_determined(a1, b1);
        assert(a =~= seq![a[0]] + a1);
        assert(b =~= seq![b[0]] + b1);
    }
}

} // verus!

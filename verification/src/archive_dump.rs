//! Reading the data dump for the archive: which works are kept, with what they hold, and
//! which roles of which characters.
use vstd::prelude::*;
use crate::builder::keeps_subject;
use crate::dump::opt_text_view;
use crate::keyed::texts;
use crate::text::{blank, chars_of, is_blank};
use crate::web::{parse_i64, parsed_i64};

verus! {

/// The numbers of a work line that the builder reads, each as the JSON value gives it: by
/// `as_i64`, `nsfw` by `as_bool`, the collection counts under `favorite`.
#[derive(Clone, Copy)]
pub struct SubjectNumbers {
    pub id: Option<i64>,
    pub type_id: Option<i64>,
    pub nsfw: Option<bool>,
    pub rank: Option<i64>,
    pub wish: Option<i64>,
    pub done: Option<i64>,
    pub doing: Option<i64>,
    pub on_hold: Option<i64>,
    pub dropped: Option<i64>,
}

/// The texts of a work line that the builder reads: names and date by `as_str`, the score as
/// the text of the number it is, the tag lists as their JSON text.
pub struct SubjectTexts {
    pub name: Option<String>,
    pub name_cn: Option<String>,
    pub date: Option<String>,
    pub score: Option<String>,
    pub tags: Option<String>,
    pub meta_tags: Option<String>,
}

pub struct SubjectTextsModel {
    pub name: Option<Seq<char>>,
    pub name_cn: Option<Seq<char>>,
    pub date: Option<Seq<char>>,
    pub score: Option<Seq<char>>,
    pub tags: Option<Seq<char>>,
    pub meta_tags: Option<Seq<char>>,
}

impl View for SubjectTexts {
    type V = SubjectTextsModel;

    open spec fn view(&self) -> SubjectTextsModel {
        SubjectTextsModel {
            name: opt_text_view(self.name),
            name_cn: opt_text_view(self.name_cn),
            date: opt_text_view(self.date),
            score: opt_text_view(self.score),
            tags: opt_text_view(self.tags),
            meta_tags: opt_text_view(self.meta_tags),
        }
    }
}

pub open spec fn opt_subject_texts(r: Option<SubjectTexts>) -> Option<SubjectTextsModel> {
    match r {
        Some(x) => Some(x@),
        None => None,
    }
}

/// The fields of a role line that the builder reads, each by `as_i64`.
#[derive(Clone, Copy)]
pub struct RelationRow {
    pub subject_id: Option<i64>,
    pub character_id: Option<i64>,
    pub role_type: Option<i64>,
    pub order: Option<i64>,
}

/// The numbers of a work line, when it is JSON.
pub uninterp spec fn subject_numbers(line: Seq<char>) -> Option<SubjectNumbers>;

/// The texts of a work line, when it is JSON.
pub uninterp spec fn subject_texts(line: Seq<char>) -> Option<SubjectTextsModel>;

/// What a role line holds, when it is JSON.
pub uninterp spec fn relation_row(line: Seq<char>) -> Option<RelationRow>;

/// `serde_json::from_str` of a work line into a `serde_json::Value`, then its numbers as
/// `SubjectNumbers` says. `None` when the line is not JSON. The claim is that the result
/// depends on the line alone, named `subject_numbers`.
#[verifier::external_body]
fn parse_subject_numbers(line: &str) -> (r: Option<SubjectNumbers>)
    ensures
        r == subject_numbers(line@),
{
    let v: serde_json::Value = serde_json::from_str(line).ok()?;
    let (n, f) = (|k: &str| v[k].as_i64(), |k: &str| v["favorite"][k].as_i64());
    Some(SubjectNumbers {
        id: n("id"), type_id: n("type"), nsfw: v["nsfw"].as_bool(), rank: n("rank"),
        wish: f("wish"), done: f("done"), doing: f("doing"), on_hold: f("on_hold"), dropped: f("dropped"),
    })
}

/// `serde_json::from_str` of a work line into a `serde_json::Value`, then its texts as
/// `SubjectTexts` says (the score only when it is a JSON number). `None` when the line is
/// not JSON. The claim is that the result depends on the line alone, named `subject_texts`.
#[verifier::external_body]
fn parse_subject_texts(line: &str) -> (r: Option<SubjectTexts>)
    ensures
        opt_subject_texts(r) == subject_texts(line@),
{
    let v: serde_json::Value = serde_json::from_str(line).ok()?;
    let t = |k: &str| v[k].as_str().map(|s| s.to_string());
    let score = match &v["score"] {
        serde_json::Value::Number(x) => Some(x.to_string()),
        _ => None,
    };
    let j = |k: &str| v.get(k).map(|x| x.to_string());
    Some(SubjectTexts { name: t("name"), name_cn: t("name_cn"), date: t("date"), score, tags: j("tags"), meta_tags: j("meta_tags") })
}

/// `serde_json::from_str` of a role line into a `serde_json::Value`, then `subject_id`,
/// `character_id`, `type` and `order`, each by `as_i64`. `None` when the line is not JSON.
/// The claim is that the result depends on the line alone, named `relation_row`.
#[verifier::external_body]
fn parse_relation_line(line: &str) -> (r: Option<RelationRow>)
    ensures
        r == relation_row(line@),
{
    let v: serde_json::Value = match serde_json::from_str(line) {
        Ok(v) => v,
        Err(_) => return None,
    };
    Some(RelationRow {
        subject_id: v["subject_id"].as_i64(),
        character_id: v["character_id"].as_i64(),
        role_type: v["type"].as_i64(),
        order: v["order"].as_i64(),
    })
}

pub open spec fn or_zero(x: Option<i64>) -> i64 {
    match x {
        Some(v) => v,
        None => 0,
    }
}

pub open spec fn or_empty(x: Option<Seq<char>>) -> Seq<char> {
    match x {
        Some(v) => v,
        None => Seq::empty(),
    }
}

/// The part of a date before its first `-` (all of it without one).
pub open spec fn before_dash(s: Seq<char>) -> Seq<char>
    decreases s.len(),
{
    if s.len() == 0 || s[0] == '-' {
        Seq::empty()
    } else {
        seq![s[0]] + before_dash(s.drop_first())
    }
}

/// The year of a date: the number before the first `-`, or -1.
pub open spec fn year_of(date: Seq<char>) -> i64 {
    match parsed_i64(before_dash(date)) {
        Some(y) => y,
        None => -1i64,
    }
}

fn year_of_date(date: &str) -> (r: i64)
    ensures
        r == year_of(date@),
{
    let cs = chars_of(date);
    let mut k: usize = 0;
    while k < cs.len() && cs[k] != '-'
        invariant
            k <= cs@.len(),
            cs@ == date@,
            forall|j: int| 0 <= j < k ==> cs@[j] != '-',
        decreases cs@.len() - k,
    {
        k = k + 1;
    }
    proof { lemma_before_dash(cs@, k as int); }
    let head = crate::text::string_of_range(&cs, 0, k);
    match parse_i64(head.as_str()) {
        Some(y) => y,
        None => -1,
    }
}

proof fn lemma_before_dash(s: Seq<char>, k: int)
    requires
        0 <= k <= s.len(),
        forall|j: int| 0 <= j < k ==> s[j] != '-',
        k == s.len() || s[k] == '-',
    ensures
        before_dash(s) == s.subrange(0, k),
    decreases s.len(),
{
    if s.len() > 0 && s[0] != '-' {
        assert(k > 0);
        lemma_before_dash(s.drop_first(), k - 1);
        assert(seq![s[0]] + s.drop_first().subrange(0, k - 1) =~= s.subrange(0, k));
    } else {
        assert(s.subrange(0, k) =~= Seq::<char>::empty());
    }
}

/// A kept work, as it is written to the archive.
pub struct KeptSubject {
    pub id: i64,
    pub type_id: i64,
    pub name: String,
    pub name_cn: String,
    pub date: String,
    pub year: i64,
    /// The collection counts added up, wrapping on overflow.
    pub collects: i64,
    /// The score's number as text, when the line has one.
    pub score: Option<String>,
    pub tags_json: String,
    pub meta_tags_json: String,
}

pub struct KeptSubjectModel {
    pub id: i64,
    pub type_id: i64,
    pub name: Seq<char>,
    pub name_cn: Seq<char>,
    pub date: Seq<char>,
    pub year: i64,
    pub collects: i64,
    pub score: Option<Seq<char>>,
    pub tags_json: Seq<char>,
    pub meta_tags_json: Seq<char>,
}

impl View for KeptSubject {
    type V = KeptSubjectModel;

    open spec fn view(&self) -> KeptSubjectModel {
        KeptSubjectModel {
            id: self.id,
            type_id: self.type_id,
            name: self.name@,
            name_cn: self.name_cn@,
            date: self.date@,
            year: self.year,
            collects: self.collects,
            score: opt_text_view(self.score),
            tags_json: self.tags_json@,
            meta_tags_json: self.meta_tags_json@,
        }
    }
}

/// The collection counts of a work added up as `i64` addition with wrap-around does.
pub open spec fn wrapped_collects(r: SubjectNumbers) -> i64 {
    let w = vstd::wrapping::i64_specs::wrapping_add(or_zero(r.wish), or_zero(r.done));
    let w = vstd::wrapping::i64_specs::wrapping_add(w, or_zero(r.doing));
    let w = vstd::wrapping::i64_specs::wrapping_add(w, or_zero(r.on_hold));
    vstd::wrapping::i64_specs::wrapping_add(w, or_zero(r.dropped))
}

/// The work a line's numbers and texts stand for, when it is kept (see `keeps_subject`).
pub open spec fn subject_entry(r: SubjectNumbers, x: SubjectTextsModel) -> Option<KeptSubjectModel> {
    let type_id = or_zero(r.type_id);
    let nsfw = match r.nsfw { Some(b) => b, None => false };
    let collects = wrapped_collects(r);
    if !keeps_subject(type_id, nsfw, or_zero(r.rank), collects) {
        None
    } else {
        Some(KeptSubjectModel {
            id: or_zero(r.id),
            type_id,
            name: or_empty(x.name),
            name_cn: or_empty(x.name_cn),
            date: or_empty(x.date),
            year: year_of(or_empty(x.date)),
            collects,
            score: x.score,
            tags_json: match x.tags { Some(t) => t, None => "[]"@ },
            meta_tags_json: match x.meta_tags { Some(t) => t, None => "[]"@ },
        })
    }
}

pub open spec fn bad_subject_line(lines: Seq<Seq<char>>, k: int) -> bool {
    !is_blank(lines[k]) && (subject_numbers(lines[k]) is None || subject_texts(lines[k]) is None)
}

/// The kept works of the work lines, in order.
pub open spec fn subject_entries(lines: Seq<Seq<char>>) -> Seq<KeptSubjectModel>
    decreases lines.len(),
{
    if lines.len() == 0 {
        Seq::empty()
    } else {
        let prev = subject_entries(lines.drop_last());
        let l = lines.last();
        if is_blank(l) {
            prev
        } else {
            match (subject_numbers(l), subject_texts(l)) {
                (Some(r), Some(x)) => match subject_entry(r, x) {
                    Some(e) => prev.push(e),
                    None => prev,
                },
                _ => prev,
            }
        }
    }
}

fn or_text(x: &Option<String>, d: &str) -> (r: String)
    ensures
        r@ == (match x { Some(s) => s@, None => d@ }),
{
    match x {
        Some(s) => s.clone(),
        None => d.to_string(),
    }
}

fn z(x: Option<i64>) -> (v: i64)
    ensures
        v == or_zero(x),
{
    match x {
        Some(v) => v,
        None => 0,
    }
}

fn subject_of(r: &SubjectNumbers, x: &SubjectTexts) -> (out: Option<KeptSubject>)
    ensures
        match subject_entry(*r, x@) {
            Some(e) => out matches Some(x) && x@ == e,
            None => out is None,
        },
{
    let type_id = z(r.type_id);
    let nsfw = match r.nsfw { Some(b) => b, None => false };
    let collects = z(r.wish).wrapping_add(z(r.done)).wrapping_add(z(r.doing)).wrapping_add(z(r.on_hold)).wrapping_add(z(r.dropped));
    if !crate::builder::keep_subject(type_id, nsfw, z(r.rank), collects) {
        return None;
    }
    assert(collects == wrapped_collects(*r));
    proof { reveal_strlit(""); reveal_strlit("[]"); }
    assert(""@ == Seq::<char>::empty());
    let date = or_text(&x.date, "");
    assert(date@ == or_empty(x@.date));
    let year = year_of_date(date.as_str());
    let score = match &x.score { Some(s) => Some(s.clone()), None => None };
    Some(KeptSubject {
        id: z(r.id),
        type_id,
        name: or_text(&x.name, ""),
        name_cn: or_text(&x.name_cn, ""),
        date,
        year,
        collects,
        score,
        tags_json: or_text(&x.tags, "[]"),
        meta_tags_json: or_text(&x.meta_tags, "[]"),
    })
}

/// The works of the work lines that the archive keeps, or the first line that is neither
/// blank nor JSON.
pub fn kept_subjects(lines: &Vec<String>) -> (r: Result<Vec<KeptSubject>, usize>)
    ensures
        match r {
            Ok(v) => (forall|k: int| 0 <= k < lines@.len() ==> !bad_subject_line(texts(lines@), k))
                && v@.map_values(|x: KeptSubject| x@) == subject_entries(texts(lines@)),
            Err(k) => k < lines@.len() && bad_subject_line(texts(lines@), k as int)
                && forall|j: int| 0 <= j < k ==> !bad_subject_line(texts(lines@), j),
        },
{
    let ghost ls = texts(lines@);
    let mut out: Vec<KeptSubject> = Vec::new();
    let mut i: usize = 0;
    while i < lines.len()
        invariant
            i <= lines@.len(),
            ls == texts(lines@),
            forall|k: int| 0 <= k < i ==> !bad_subject_line(ls, k),
            out@.map_values(|x: KeptSubject| x@) == subject_entries(ls.take(i as int)),
        decreases lines@.len() - i,
    {
        assert(ls.take(i + 1).drop_last() =~= ls.take(i as int));
        assert(ls.take(i + 1).last() == lines@[i as int]@);
        let line = lines[i].as_str();
        if !blank(line) {
            let numbers = parse_subject_numbers(line);
            let words = parse_subject_texts(line);
            match (numbers, words) {
                (Some(row), Some(t)) => match subject_of(&row, &t) {
                    Some(x) => {
                        let ghost before = out@.map_values(|x: KeptSubject| x@);
                        out.push(x);
                        assert(out@.map_values(|x: KeptSubject| x@) =~= before.push(out@.last()@));
                    },
                    None => {},
                },
                _ => return Err(i),
            }
        }
        i = i + 1;
    }
    assert(ls.take(lines@.len() as int) =~= ls);
    Ok(out)
}

/// A kept role: the work, the character, main (1) or supporting (2), and its order.
#[derive(Clone, Copy)]
pub struct KeptRelation {
    pub subject_id: i64,
    pub character_id: i64,
    pub role_type: i64,
    pub order: i64,
}

/// The role a row stands for, when its work is kept and it is a main or supporting role.
pub open spec fn relation_entry(r: RelationRow, vs: Set<i64>) -> Option<KeptRelation> {
    let s = or_zero(r.subject_id);
    let t = or_zero(r.role_type);
    if vs.contains(s) && (t == 1 || t == 2) {
        Some(KeptRelation { subject_id: s, character_id: or_zero(r.character_id), role_type: t, order: or_zero(r.order) })
    } else {
        None
    }
}

pub open spec fn bad_relation_line(lines: Seq<Seq<char>>, k: int) -> bool {
    !is_blank(lines[k]) && relation_row(lines[k]) is None
}

/// The kept roles of the role lines, in order.
pub open spec fn relation_entries(lines: Seq<Seq<char>>, vs: Set<i64>) -> Seq<KeptRelation>
    decreases lines.len(),
{
    if lines.len() == 0 {
        Seq::empty()
    } else {
        let prev = relation_entries(lines.drop_last(), vs);
        let l = lines.last();
        if is_blank(l) {
            prev
        } else {
            match relation_row(l) {
                Some(r) => match relation_entry(r, vs) {
                    Some(e) => prev.push(e),
                    None => prev,
                },
                None => prev,
            }
        }
    }
}

/// The roles of the role lines that the archive keeps, given the kept works, or the first
/// line that is neither blank nor JSON. The kept characters are the characters of these roles.
pub fn kept_relations(lines: &Vec<String>, valid_subjects: &Vec<i64>) -> (r: Result<Vec<KeptRelation>, usize>)
    ensures
        match r {
            Ok(v) => (forall|k: int| 0 <= k < lines@.len() ==> !bad_relation_line(texts(lines@), k))
                && v@ == relation_entries(texts(lines@), valid_subjects@.to_set()),
            Err(k) => k < lines@.len() && bad_relation_line(texts(lines@), k as int)
                && forall|j: int| 0 <= j < k ==> !bad_relation_line(texts(lines@), j),
        },
{
    let ghost ls = texts(lines@);
    let ghost vs = valid_subjects@.to_set();
    let mut out: Vec<KeptRelation> = Vec::new();
    let mut i: usize = 0;
    while i < lines.len()
        invariant
            i <= lines@.len(),
            ls == texts(lines@),
            vs == valid_subjects@.to_set(),
            forall|k: int| 0 <= k < i ==> !bad_relation_line(ls, k),
            out@ == relation_entries(ls.take(i as int), vs),
        decreases lines@.len() - i,
    {
        assert(ls.take(i + 1).drop_last() =~= ls.take(i as int));
        assert(ls.take(i + 1).last() == lines@[i as int]@);
        let line = lines[i].as_str();
        if !blank(line) {
            match parse_relation_line(line) {
                None => return Err(i),
                Some(row) => {
                    let s: i64 = match row.subject_id { Some(x) => x, None => 0 };
                    let t: i64 = match row.role_type { Some(x) => x, None => 0 };
                    let kept = crate::dump::contains_id(valid_subjects, s);
                    assert(kept == vs.contains(s));
                    if kept && (t == 1 || t == 2) {
                        let c: i64 = match row.character_id { Some(x) => x, None => 0 };
                        let o: i64 = match row.order { Some(x) => x, None => 0 };
                        out.push(KeptRelation { subject_id: s, character_id: c, role_type: t, order: o });
                    }
                },
            }
        }
        i = i + 1;
    }
    assert(ls.take(lines@.len() as int) =~= ls);
    Ok(out)
}

} // verus!

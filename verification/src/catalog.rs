//! How the settings pick subjects, and how a guess compares with the answer.
use vstd::prelude::*;
use crate::keyed::texts;
use crate::settings::GameSettings;
use crate::text::text_eq;

verus! {

/// The first meta tag, empty without one.
pub open spec fn primary_tag(tags: Seq<Seq<char>>) -> Seq<char> {
    if tags.len() > 0 { tags[0] } else { Seq::empty() }
}

/// Subject types to draw from for the first meta tag: books 1, games 4, real life 6, all of
/// them, or anime (2) by default.
pub open spec fn types_for(primary: Seq<char>) -> Seq<i64> {
    if primary == "书籍"@ {
        seq![1]
    } else if primary == "游戏"@ || primary == "Galgame"@ {
        seq![4]
    } else if primary == "三次元"@ {
        seq![6]
    } else if primary == "全部"@ {
        seq![1, 2, 4, 6]
    } else {
        seq![2]
    }
}

/// First meta tags that only choose the subject type, not a tag filter.
pub open spec fn type_only(primary: Seq<char>) -> bool {
    primary == ""@ || primary == "全部"@ || primary == "游戏"@ || primary == "书籍"@ || primary == "三次元"@ || primary == "Galgame"@
}

pub open spec fn nonempty_tag(tags: Seq<Seq<char>>, i: int) -> Option<Seq<char>> {
    if i < tags.len() && tags[i].len() > 0 { Some(tags[i]) } else { None }
}

fn first_tag(s: &GameSettings) -> (r: &str)
    ensures
        r@ == primary_tag(texts(s.meta_tags@)),
{
    proof { reveal_strlit(""); }
    if s.meta_tags.len() > 0 { s.meta_tags[0].as_str() } else { "" }
}

fn tag_at(s: &GameSettings, i: usize) -> (r: Option<&str>)
    ensures
        crate::settings::opt_str(r) == nonempty_tag(texts(s.meta_tags@), i as int),
{
    if i < s.meta_tags.len() {
        let t = s.meta_tags[i].as_str();
        proof { reveal_strlit(""); }
        if text_eq(t, "") {
            None
        } else {
            assert(t@.len() > 0) by { if t@.len() == 0 { assert(t@ =~= ""@); } }
            Some(t)
        }
    } else {
        None
    }
}

impl GameSettings {
    pub fn subject_types(&self) -> (r: Vec<i64>)
        ensures
            r@ == types_for(primary_tag(texts(self.meta_tags@))),
    {
        let p = first_tag(self);
        if text_eq(p, "书籍") {
            vec![1]
        } else if text_eq(p, "游戏") || text_eq(p, "Galgame") {
            vec![4]
        } else if text_eq(p, "三次元") {
            vec![6]
        } else if text_eq(p, "全部") {
            vec![1, 2, 4, 6]
        } else {
            vec![2]
        }
    }

    /// The first meta tag as a tag filter, unless it only chooses the subject type.
    pub fn primary_meta_filter(&self) -> (r: Option<&str>)
        ensures
            crate::settings::opt_str(r) == (if type_only(primary_tag(texts(self.meta_tags@))) { None } else {
                Some(primary_tag(texts(self.meta_tags@)))
            }),
    {
        let p = first_tag(self);
        if text_eq(p, "") || text_eq(p, "全部") || text_eq(p, "游戏") || text_eq(p, "书籍") || text_eq(p, "三次元")
            || text_eq(p, "Galgame") {
            None
        } else {
            Some(p)
        }
    }

    /// The second meta tag, the source filter, when not empty.
    pub fn source_filter(&self) -> (r: Option<&str>)
        ensures
            crate::settings::opt_str(r) == nonempty_tag(texts(self.meta_tags@), 1),
    {
        tag_at(self, 1)
    }

    /// The third meta tag, the genre filter, when not empty.
    pub fn genre_filter(&self) -> (r: Option<&str>)
        ensures
            crate::settings::opt_str(r) == nonempty_tag(texts(self.meta_tags@), 2),
    {
        tag_at(self, 2)
    }
}

/// The names a source tag goes by in the catalogue.
pub open spec fn aliases_of(source: Seq<char>) -> Seq<Seq<char>> {
    if source == "原创"@ {
        seq!["原创"@, "原创动画"@]
    } else if source == "漫画改"@ {
        seq!["漫画改"@, "漫改"@, "漫画改编"@]
    } else if source == "游戏改"@ {
        seq!["游戏改"@, "游戏改编"@, "GAL改"@]
    } else if source == "小说改"@ {
        seq!["小说改"@, "小说改编"@, "轻小说改"@, "轻改"@, "网文改"@]
    } else {
        seq![source]
    }
}

fn texts_of(words: &[&str]) -> (r: Vec<String>)
    ensures
        texts(r@) == words@.map_values(|w: &str| w@),
{
    let mut out: Vec<String> = Vec::new();
    let mut i: usize = 0;
    while i < words.len()
        invariant
            i <= words@.len(),
            texts(out@) == words@.take(i as int).map_values(|w: &str| w@),
        decreases words@.len() - i,
    {
        let ghost before = texts(out@);
        let w = words[i].to_string();
        assert(w@ == words@[i as int]@);
        out.push(w);
        assert(texts(out@) =~= before.push(words@[i as int]@));
        assert(words@.take(i + 1).map_values(|w: &str| w@) =~= words@.take(i as int).map_values(|w: &str| w@).push(words@[i as int]@));
        i = i + 1;
    }
    assert(words@.take(words@.len() as int) =~= words@);
    out
}

pub fn source_aliases(source: &str) -> (r: Vec<String>)
    ensures
        texts(r@) == aliases_of(source@),
{
    if text_eq(source, "原创") {
        let r = texts_of(&["原创", "原创动画"]);
        assert(texts(r@) =~= aliases_of(source@));
        r
    } else if text_eq(source, "漫画改") {
        let r = texts_of(&["漫画改", "漫改", "漫画改编"]);
        assert(texts(r@) =~= aliases_of(source@));
        r
    } else if text_eq(source, "游戏改") {
        let r = texts_of(&["游戏改", "游戏改编", "GAL改"]);
        assert(texts(r@) =~= aliases_of(source@));
        r
    } else if text_eq(source, "小说改") {
        let r = texts_of(&["小说改", "小说改编", "轻小说改", "轻改", "网文改"]);
        assert(texts(r@) =~= aliases_of(source@));
        r
    } else {
        let mut r: Vec<String> = Vec::new();
        r.push(source.to_string());
        assert(texts(r@) =~= aliases_of(source@));
        r
    }
}

/// How a guessed count compares with the answer's: equal, a little or a lot (more than 2)
/// higher or lower.
pub open spec fn count_feedback(guess: int, answer: int) -> Seq<char> {
    let diff = guess - answer;
    if diff == 0 {
        "="@
    } else if diff > 0 {
        if diff <= 2 { "+"@ } else { "++"@ }
    } else if diff >= -2 {
        "-"@
    } else {
        "--"@
    }
}

pub fn compare_count(guess: i64, answer: i64) -> (r: &'static str)
    requires
        i64::MIN <= guess - answer <= i64::MAX,
    ensures
        r@ == count_feedback(guess as int, answer as int),
{
    let diff = guess - answer;
    if diff == 0 {
        "="
    } else if diff > 0 {
        if diff <= 2 { "+" } else { "++" }
    } else if diff >= -2 {
        "-"
    } else {
        "--"
    }
}

/// Years compare like counts; an unknown year (-1) matches only another unknown one.
pub open spec fn year_feedback(guess: int, answer: int) -> Seq<char> {
    if guess == -1 || answer == -1 {
        if guess == -1 && answer == -1 { "="@ } else { "?"@ }
    } else {
        count_feedback(guess, answer)
    }
}

pub fn compare_year(guess: i64, answer: i64) -> (r: &'static str)
    requires
        i64::MIN <= guess - answer <= i64::MAX,
    ensures
        r@ == year_feedback(guess as int, answer as int),
{
    if guess == -1 || answer == -1 {
        if guess == -1 && answer == -1 { "=" } else { "?" }
    } else {
        compare_count(guess, answer)
    }
}

/// `target` with each value it lacks appended, in order, once.
pub open spec fn with_unique(target: Seq<Seq<char>>, values: Seq<Seq<char>>) -> Seq<Seq<char>>
    decreases values.len(),
{
    if values.len() == 0 {
        target
    } else {
        let t = with_unique(target, values.drop_last());
        if t.contains(values.last()) { t } else { t.push(values.last()) }
    }
}

pub fn push_unique(target: &mut Vec<String>, values: Vec<String>)
    ensures
        texts(final(target)@) == with_unique(texts(old(target)@), texts(values@)),
{
    let ghost t0 = texts(target@);
    let ghost vv = texts(values@);
    let mut i: usize = 0;
    while i < values.len()
        invariant
            i <= values@.len(),
            vv == texts(values@),
            texts(target@) == with_unique(t0, vv.take(i as int)),
        decreases values@.len() - i,
    {
        assert(vv.take(i + 1).drop_last() =~= vv.take(i as int));
        assert(vv.take(i + 1).last() == values@[i as int]@);
        if !crate::gameplay::details::texts_contain(target, values[i].as_str()) {
            let ghost before = texts(target@);
            target.push(values[i].clone());
            assert(texts(target@) =~= before.push(values@[i as int]@));
        }
        i = i + 1;
    }
    assert(vv.take(values@.len() as int) =~= vv);
}

} // verus!

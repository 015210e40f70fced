//! Reading character infoboxes and making search terms out of names.
use vstd::prelude::*;
use crate::keyed::texts;
use crate::text::{text_eq, chars_of, is_white_space, is_white_space_spec, push_char, string_of, string_of_range, trim, trim_spec};

verus! {

/// Characters that separate the words of a name.
pub open spec fn separator(c: char) -> bool {
    is_white_space_spec(c) || c == ',' || c == '，' || c == '、' || c == '/' || c == '\\' || c == '／'
        || c == '|' || c == ';' || c == '；' || c == ':' || c == '：' || c == '(' || c == ')' || c == '（'
        || c == '）' || c == '[' || c == ']' || c == '【' || c == '】' || c == '・' || c == '·' || c == '「'
        || c == '」' || c == '"' || c == '\''
}

fn is_separator(c: char) -> (r: bool)
    ensures
        r == separator(c),
{
    is_white_space(c) || c == ',' || c == '，' || c == '、' || c == '/' || c == '\\' || c == '／' || c == '|'
        || c == ';' || c == '；' || c == ':' || c == '：' || c == '(' || c == ')' || c == '（' || c == '）'
        || c == '[' || c == ']' || c == '【' || c == '】' || c == '・' || c == '·' || c == '「' || c == '」'
        || c == '"' || c == '\''
}

/// The pieces of `s` between the characters where `sep` holds (as `str::split` gives them).
pub open spec fn pieces(s: Seq<char>, sep: spec_fn(char) -> bool) -> Seq<Seq<char>>
    decreases s.len(),
{
    if s.len() == 0 {
        seq![Seq::empty()]
    } else {
        let p = pieces(s.drop_last(), sep);
        if sep(s.last()) { p.push(Seq::empty()) } else { p.update(p.len() - 1, p.last().push(s.last())) }
    }
}

proof fn lemma_pieces_nonempty(s: Seq<char>, sep: spec_fn(char) -> bool)
    ensures
        pieces(s, sep).len() >= 1,
    decreases s.len(),
{
    if s.len() > 0 {
        lemma_pieces_nonempty(s.drop_last(), sep);
    }
}

/// The words of a name: its pieces between separators, trimmed, without the empty ones.
pub open spec fn words_of(ps: Seq<Seq<char>>) -> Seq<Seq<char>>
    decreases ps.len(),
{
    if ps.len() == 0 {
        Seq::empty()
    } else {
        let prev = words_of(ps.drop_last());
        let w = trim_spec(ps.last());
        if w.len() > 0 { prev.push(w) } else { prev }
    }
}

pub open spec fn token_list(s: Seq<char>) -> Seq<Seq<char>> {
    words_of(pieces(s, |c: char| separator(c)))
}

/// The pieces of `s` split where `sep` holds, as strings (see `pieces`).
fn split_pieces(cs: &Vec<char>) -> (r: Vec<String>)
    ensures
        texts(r@) == pieces(cs@, |c: char| separator(c)),
{
    let ghost sep = |c: char| separator(c);
    let mut done: Vec<String> = Vec::new();
    let mut cur = String::new();
    let mut i: usize = 0;
    while i < cs.len()
        invariant
            i <= cs@.len(),
            sep == (|c: char| separator(c)),
            texts(done@).push(cur@) == pieces(cs@.take(i as int), sep),
        decreases cs@.len() - i,
    {
        assert(cs@.take(i + 1).drop_last() =~= cs@.take(i as int));
        assert(cs@.take(i + 1).last() == cs@[i as int]);
        let ghost before = texts(done@).push(cur@);
        proof { lemma_pieces_nonempty(cs@.take(i as int), sep); }
        if is_separator(cs[i]) {
            let finished = cur;
            cur = String::new();
            done.push(finished);
            assert(texts(done@).push(cur@) =~= before.push(Seq::<char>::empty()));
        } else {
            push_char(&mut cur, cs[i]);
            assert(texts(done@).push(cur@) =~= before.update(before.len() - 1, before.last().push(cs@[i as int])));
        }
        i = i + 1;
    }
    assert(cs@.take(cs@.len() as int) =~= cs@);
    done.push(cur);
    done
}

/// The words of a name (see `token_list`).
pub fn search_tokens(value: &str) -> (r: Vec<String>)
    ensures
        texts(r@) == token_list(value@),
{
    let cs = chars_of(value);
    let ps = split_pieces(&cs);
    let ghost pv = texts(ps@);
    let mut out: Vec<String> = Vec::new();
    let mut i: usize = 0;
    while i < ps.len()
        invariant
            i <= ps@.len(),
            pv == texts(ps@),
            texts(out@) == words_of(pv.take(i as int)),
        decreases ps@.len() - i,
    {
        assert(pv.take(i + 1).drop_last() =~= pv.take(i as int));
        assert(pv.take(i + 1).last() == ps@[i as int]@);
        let w = trim(ps[i].as_str());
        let wc = chars_of(w.as_str());
        if wc.len() > 0 {
            let ghost before = texts(out@);
            let ghost wv = w@;
            out.push(w);
            assert(texts(out@) =~= before.push(wv));
        }
        i = i + 1;
    }
    assert(pv.take(ps@.len() as int) =~= pv);
    out
}

/// CJK ideographs and kana.
pub open spec fn cjk(c: char) -> bool {
    ('\u{3400}' <= c && c <= '\u{9fff}') || ('\u{f900}' <= c && c <= '\u{faff}') || ('\u{3040}' <= c && c <= '\u{30ff}')
}

pub fn is_cjk(ch: char) -> (r: bool)
    ensures
        r == cjk(ch),
{
    ('\u{3400}' <= ch && ch <= '\u{9fff}') || ('\u{f900}' <= ch && ch <= '\u{faff}') || ('\u{3040}' <= ch && ch <= '\u{30ff}')
}

/// The two- and three-character runs starting at each position from `start` on, in order.
pub open spec fn grams_from(cs: Seq<char>, start: int) -> Seq<Seq<char>>
    decreases cs.len() - start,
{
    if start >= cs.len() {
        Seq::empty()
    } else {
        let two = if start + 2 <= cs.len() { seq![cs.subrange(start, start + 2)] } else { Seq::empty() };
        let three = if start + 3 <= cs.len() { seq![cs.subrange(start, start + 3)] } else { Seq::empty() };
        two + three + grams_from(cs, start + 1)
    }
}

/// The suffixes of `cs` starting at positions `start` up to the one before last.
pub open spec fn suffixes_from(cs: Seq<char>, start: int) -> Seq<Seq<char>>
    decreases cs.len() - start,
{
    if start >= cs.len() - 1 {
        Seq::empty()
    } else {
        seq![cs.skip(start)] + suffixes_from(cs, start + 1)
    }
}

/// Extra search terms for a word with CJK characters: its two- and three-character runs,
/// then (for words longer than two) its suffixes from the second to the one before last.
pub open spec fn sub_terms(cs: Seq<char>) -> Seq<Seq<char>> {
    if cs.len() < 2 || !(exists|i: int| 0 <= i < cs.len() && #[trigger] cjk(cs[i])) {
        Seq::empty()
    } else {
        grams_from(cs, 0) + if cs.len() > 2 { suffixes_from(cs, 1) } else { Seq::empty() }
    }
}

pub fn cjk_sub_terms(token: &str) -> (r: Vec<String>)
    ensures
        texts(r@) == sub_terms(token@),
{
    let cs = chars_of(token);
    let n = cs.len();
    let mut any = false;
    let mut k: usize = 0;
    while k < n
        invariant
            k <= n,
            n == cs@.len(),
            any == exists|i: int| 0 <= i < k && #[trigger] cjk(cs@[i]),
        decreases n - k,
    {
        if is_cjk(cs[k]) {
            any = true;
        }
        proof {
            if !any {
                assert forall|i: int| 0 <= i < k + 1 implies !#[trigger] cjk(cs@[i]) by {}
            } else if cjk(cs@[k as int]) {
                assert(cjk(cs@[k as int]));
            }
        }
        k = k + 1;
    }
    let mut terms: Vec<String> = Vec::new();
    if n < 2 || !any {
        assert(texts(terms@) =~= sub_terms(token@));
        return terms;
    }
    let mut start: usize = 0;
    while start < n
        invariant
            start <= n,
            n == cs@.len(),
            texts(terms@) + grams_from(cs@, start as int) == grams_from(cs@, 0),
        decreases n - start,
    {
        let ghost before = texts(terms@);
        if n - start >= 2 {
            terms.push(string_of_range(&cs, start, start + 2));
        }
        if n - start >= 3 {
            terms.push(string_of_range(&cs, start, start + 3));
        }
        assert(texts(terms@) + grams_from(cs@, start + 1) =~= before + grams_from(cs@, start as int));
        start = start + 1;
    }
    assert(texts(terms@) =~= grams_from(cs@, 0));
    let ghost grams = texts(terms@);
    if n > 2 {
        let mut s: usize = 1;
        while s < n - 1
            invariant
                1 <= s <= n - 1,
                n == cs@.len(),
                n > 2,
                texts(terms@) + suffixes_from(cs@, s as int) == grams + suffixes_from(cs@, 1),
            decreases n - s,
        {
            let ghost before = texts(terms@);
            terms.push(string_of_range(&cs, s, n));
            assert(cs@.subrange(s as int, n as int) =~= cs@.skip(s as int));
            assert(texts(terms@) + suffixes_from(cs@, s + 1) =~= before + suffixes_from(cs@, s as int));
            s = s + 1;
        }
        assert(texts(terms@) =~= grams + suffixes_from(cs@, 1));
    } else {
        assert(texts(terms@) =~= grams + Seq::<Seq<char>>::empty());
    }
    terms
}


/// `pat` occurs in `s` at position `i`.
pub open spec fn occurs_at(s: Seq<char>, pat: Seq<char>, i: int) -> bool {
    0 <= i && i + pat.len() <= s.len() && s.subrange(i, i + pat.len()) == pat
}

/// The first position where `pat` occurs in `s`, as `str::find` gives it.
#[verifier::opaque]
pub open spec fn find_text(s: Seq<char>, pat: Seq<char>) -> Option<int> {
    if exists|i: int| #[trigger] occurs_at(s, pat, i) {
        Some(choose|i: int| #[trigger] occurs_at(s, pat, i) && forall|j: int| 0 <= j < i ==> !occurs_at(s, pat, j))
    } else {
        None
    }
}

fn matches_at(cs: &Vec<char>, pat: &Vec<char>, i: usize) -> (r: bool)
    requires
        i + pat@.len() <= cs@.len(),
    ensures
        r == occurs_at(cs@, pat@, i as int),
{
    let n = cs.len();
    let mut k: usize = 0;
    while k < pat.len()
        invariant
            k <= pat@.len(),
            n == cs@.len(),
            i + pat@.len() <= cs@.len(),
            forall|j: int| 0 <= j < k ==> cs@[i + j] == pat@[j],
        decreases pat@.len() - k,
    {
        if cs[i + k] != pat[k] {
            assert(cs@.subrange(i as int, i + pat@.len())[k as int] != pat@[k as int]);
            return false;
        }
        k = k + 1;
    }
    assert(cs@.subrange(i as int, i + pat@.len()) =~= pat@);
    true
}

proof fn lemma_found_first(s: Seq<char>, pat: Seq<char>, i: int)
    requires
        occurs_at(s, pat, i),
        forall|j: int| 0 <= j < i ==> !occurs_at(s, pat, j),
    ensures
        find_text(s, pat) == Some(i),
{
    reveal(find_text);
    let c = choose|c: int| #[trigger] occurs_at(s, pat, c) && forall|j: int| 0 <= j < c ==> !occurs_at(s, pat, j);
    assert(c == i) by {
        if c < i { assert(!occurs_at(s, pat, c)); }
        if c > i { assert(!occurs_at(s, pat, i)); }
    }
}

proof fn lemma_not_found(s: Seq<char>, pat: Seq<char>)
    requires
        forall|j: int| 0 <= j && j + pat.len() <= s.len() ==> !occurs_at(s, pat, j),
    ensures
        find_text(s, pat) is None,
{
    reveal(find_text);
    assert(!exists|j: int| #[trigger] occurs_at(s, pat, j)) by {
        if exists|j: int| #[trigger] occurs_at(s, pat, j) {
            let j = choose|j: int| #[trigger] occurs_at(s, pat, j);
            assert(!occurs_at(s, pat, j));
        }
    }
}

/// The first position of `pat` in `cs` (see `find_text`).
pub fn find_chars(cs: &Vec<char>, pat: &Vec<char>) -> (r: Option<usize>)
    ensures
        match r {
            Some(i) => find_text(cs@, pat@) == Some(i as int) && i + pat@.len() <= cs@.len(),
            None => find_text(cs@, pat@) is None,
        },
{
    if pat.len() > cs.len() {
        proof { lemma_not_found(cs@, pat@); }
        return None;
    }
    let bound = cs.len() - pat.len();
    let mut i: usize = 0;
    while i <= bound
        invariant
            bound == cs@.len() - pat@.len(),
            bound < usize::MAX || i <= bound,
            forall|j: int| 0 <= j < i ==> !occurs_at(cs@, pat@, j),
        decreases bound + 1 - i,
    {
        if matches_at(cs, pat, i) {
            proof { lemma_found_first(cs@, pat@, i as int); }
            return Some(i);
        }
        if i == bound {
            proof { lemma_not_found(cs@, pat@); }
            return None;
        }
        i = i + 1;
    }
    proof { lemma_not_found(cs@, pat@); }
    None
}

/// The end of the line that starts `rest`: its first `\n`, else its first `\r`, else its end.
pub open spec fn line_end(rest: Seq<char>) -> int {
    match find_text(rest, seq!['\n']) {
        Some(e) => e,
        None => match find_text(rest, seq!['\r']) {
            Some(e) => e,
            None => rest.len() as int,
        },
    }
}

/// The value of `|key=` in an infobox: the rest of that line, trimmed, when not empty.
pub open spec fn field_value(s: Seq<char>, key: Seq<char>) -> Option<Seq<char>> {
    let pat = seq!['|'] + key + seq!['='];
    match find_text(s, pat) {
        None => None,
        Some(i) => {
            let rest = s.skip(i + pat.len());
            let v = trim_spec(rest.take(line_end(rest)));
            if v.len() > 0 { Some(v) } else { None }
        },
    }
}

proof fn lemma_find_in_range(s: Seq<char>, pat: Seq<char>)
    ensures
        find_text(s, pat) matches Some(i) ==> 0 <= i && i + pat.len() <= s.len(),
{
    reveal(find_text);
    if exists|i: int| #[trigger] occurs_at(s, pat, i) {
        let i = choose|i: int| #[trigger] occurs_at(s, pat, i);
        lemma_first_occurrence(s, pat, i);
    }
}

proof fn lemma_first_occurrence(s: Seq<char>, pat: Seq<char>, i: int)
    requires
        occurs_at(s, pat, i),
    ensures
        exists|c: int| #[trigger] occurs_at(s, pat, c) && forall|j: int| 0 <= j < c ==> !occurs_at(s, pat, j),
    decreases i,
{
    if exists|j: int| 0 <= j < i && #[trigger] occurs_at(s, pat, j) {
        let j = choose|j: int| 0 <= j < i && #[trigger] occurs_at(s, pat, j);
        lemma_first_occurrence(s, pat, j);
    } else {
        assert(forall|j: int| 0 <= j < i ==> !occurs_at(s, pat, j));
    }
}

fn line_end_of(rest: &Vec<char>) -> (e: usize)
    ensures
        e as int == line_end(rest@),
        e <= rest@.len(),
{
    let nl = vec!['\n'];
    let cr = vec!['\r'];
    assert(nl@ =~= seq!['\n']);
    assert(cr@ =~= seq!['\r']);
    proof {
        lemma_find_in_range(rest@, seq!['\n']);
        lemma_find_in_range(rest@, seq!['\r']);
    }
    match find_chars(rest, &nl) {
        Some(e) => e,
        None => match find_chars(rest, &cr) {
            Some(e) => e,
            None => rest.len(),
        },
    }
}

fn sub_vec(cs: &Vec<char>, lo: usize, hi: usize) -> (r: Vec<char>)
    requires
        lo <= hi <= cs@.len(),
    ensures
        r@ == cs@.subrange(lo as int, hi as int),
{
    let mut out: Vec<char> = Vec::new();
    let mut i = lo;
    while i < hi
        invariant
            lo <= i <= hi <= cs@.len(),
            out@ == cs@.subrange(lo as int, i as int),
        decreases hi - i,
    {
        out.push(cs[i]);
        assert(cs@.subrange(lo as int, i + 1) =~= cs@.subrange(lo as int, i as int).push(cs@[i as int]));
        i = i + 1;
    }
    out
}

pub fn extract_infobox_field(infobox: &str, key: &str) -> (r: Option<String>)
    ensures
        crate::settings::opt_text(r) == field_value(infobox@, key@),
{
    let cs = chars_of(infobox);
    let mut pat: Vec<char> = Vec::new();
    pat.push('|');
    let kc = chars_of(key);
    let mut k: usize = 0;
    while k < kc.len()
        invariant
            k <= kc@.len(),
            pat@ == seq!['|'] + kc@.take(k as int),
        decreases kc@.len() - k,
    {
        pat.push(kc[k]);
        assert(pat@ =~= seq!['|'] + kc@.take(k + 1));
        k = k + 1;
    }
    pat.push('=');
    assert(pat@ =~= seq!['|'] + key@ + seq!['=']);
    proof { lemma_find_in_range(cs@, pat@); }
    let total = cs.len();
    let plen = pat.len();
    let start = match find_chars(&cs, &pat) {
        Some(i) => {
            assert(i + plen <= total);
            i + plen
        },
        None => { return None; },
    };
    let rest = sub_vec(&cs, start, cs.len());
    assert(rest@ =~= infobox@.skip(start as int));
    let e = line_end_of(&rest);
    let line = string_of_range(&rest, 0, e);
    assert(line@ =~= rest@.take(e as int));
    let v = trim(line.as_str());
    let vc = chars_of(v.as_str());
    if vc.len() == 0 {
        None
    } else {
        Some(v)
    }
}


/// The pieces of `s` between occurrences of `ch`.
pub open spec fn split_by(s: Seq<char>, ch: char) -> Seq<Seq<char>>
    decreases s.len(),
{
    if s.len() == 0 {
        seq![Seq::empty()]
    } else {
        let p = split_by(s.drop_last(), ch);
        if s.last() == ch { p.push(Seq::empty()) } else { p.update(p.len() - 1, p.last().push(s.last())) }
    }
}

proof fn lemma_split_nonempty(s: Seq<char>, ch: char)
    ensures
        split_by(s, ch).len() >= 1,
    decreases s.len(),
{
    if s.len() > 0 {
        lemma_split_nonempty(s.drop_last(), ch);
    }
}

fn split_char(cs: &Vec<char>, ch: char) -> (r: Vec<String>)
    ensures
        texts(r@) == split_by(cs@, ch),
        r@.len() >= 1,
{
    let mut done: Vec<String> = Vec::new();
    let mut cur = String::new();
    let mut i: usize = 0;
    while i < cs.len()
        invariant
            i <= cs@.len(),
            texts(done@).push(cur@) == split_by(cs@.take(i as int), ch),
        decreases cs@.len() - i,
    {
        assert(cs@.take(i + 1).drop_last() =~= cs@.take(i as int));
        assert(cs@.take(i + 1).last() == cs@[i as int]);
        let ghost before = texts(done@).push(cur@);
        proof { lemma_split_nonempty(cs@.take(i as int), ch); }
        if cs[i] == ch {
            let finished = cur;
            cur = String::new();
            done.push(finished);
            assert(texts(done@).push(cur@) =~= before.push(Seq::<char>::empty()));
        } else {
            push_char(&mut cur, cs[i]);
            assert(texts(done@).push(cur@) =~= before.update(before.len() - 1, before.last().push(cs@[i as int])));
        }
        i = i + 1;
    }
    assert(cs@.take(cs@.len() as int) =~= cs@);
    done.push(cur);
    done
}

pub struct AliasEntry {
    pub value: String,
    pub alias_type: String,
    pub priority: i64,
}

pub struct AliasModel {
    pub value: Seq<char>,
    pub alias_type: Seq<char>,
    pub priority: i64,
}

impl View for AliasEntry {
    type V = AliasModel;

    open spec fn view(&self) -> AliasModel {
        AliasModel { value: self.value@, alias_type: self.alias_type@, priority: self.priority }
    }
}

pub open spec fn aliases_view(v: Seq<AliasEntry>) -> Seq<AliasModel> {
    v.map_values(|a: AliasEntry| a@)
}

/// The kind of an alias key, with its priority (lower comes first).
pub open spec fn alias_kind(key: Seq<char>) -> (Seq<char>, i64) {
    if key == "简体中文名"@ || key == "中文名"@ || key == "第二中文名"@ || key == "第三中文名"@ || key == "繁体中文名"@ {
        ("cn_secondary"@, 20)
    } else if key == "英文名"@ || key == "英文名二"@ || key == "第二英文名"@ {
        ("en"@, 30)
    } else if key == "罗马字"@ {
        ("romaji"@, 35)
    } else if key == "日文名"@ || key == "第二日文名"@ || key == "原名"@ {
        ("jp"@, 40)
    } else if key == "纯假名"@ {
        ("kana"@, 45)
    } else if key == "昵称"@ || key == "昵称2"@ || key == "外号"@ || key == "称号"@ || key == "重要绰号"@ {
        ("nickname"@, 50)
    } else if key == "代号"@ {
        ("code_name"@, 55)
    } else if key == "本名"@ || key == "真名"@ || key == "全名"@ {
        ("real_name"@, 55)
    } else if key == ""@ {
        ("unkeyed"@, 60)
    } else {
        ("other"@, 90)
    }
}

pub fn normalize_alias_type(key: &str) -> (r: (&'static str, i64))
    ensures
        (r.0@, r.1) == alias_kind(key@),
{
    if text_eq(key, "简体中文名") || text_eq(key, "中文名") || text_eq(key, "第二中文名") || text_eq(key, "第三中文名") || text_eq(key, "繁体中文名") {
        ("cn_secondary", 20)
    } else if text_eq(key, "英文名") || text_eq(key, "英文名二") || text_eq(key, "第二英文名") {
        ("en", 30)
    } else if text_eq(key, "罗马字") {
        ("romaji", 35)
    } else if text_eq(key, "日文名") || text_eq(key, "第二日文名") || text_eq(key, "原名") {
        ("jp", 40)
    } else if text_eq(key, "纯假名") {
        ("kana", 45)
    } else if text_eq(key, "昵称") || text_eq(key, "昵称2") || text_eq(key, "外号") || text_eq(key, "称号") || text_eq(key, "重要绰号") {
        ("nickname", 50)
    } else if text_eq(key, "代号") {
        ("code_name", 55)
    } else if text_eq(key, "本名") || text_eq(key, "真名") || text_eq(key, "全名") {
        ("real_name", 55)
    } else if text_eq(key, "") {
        ("unkeyed", 60)
    } else {
        ("other", 90)
    }
}

/// The list with the trimmed value added, unless it is empty or already listed with that kind.
pub open spec fn pushed_alias(aliases: Seq<AliasModel>, value: Seq<char>, kind: Seq<char>, priority: i64) -> Seq<AliasModel> {
    let v = trim_spec(value);
    if v.len() == 0 || exists|i: int| 0 <= i < aliases.len() && #[trigger] aliases[i].value == v && aliases[i].alias_type == kind {
        aliases
    } else {
        aliases.push(AliasModel { value: v, alias_type: kind, priority })
    }
}

pub fn push_alias(aliases: &mut Vec<AliasEntry>, value: &str, alias_type: &str, priority: i64)
    ensures
        aliases_view(final(aliases)@) == pushed_alias(aliases_view(old(aliases)@), value@, alias_type@, priority),
{
    let ghost av = aliases_view(aliases@);
    let v = trim(value);
    if chars_of(v.as_str()).len() == 0 {
        return;
    }
    let mut i: usize = 0;
    while i < aliases.len()
        invariant
            i <= aliases@.len(),
            av == aliases_view(aliases@),
            v@ == trim_spec(value@),
            forall|j: int| 0 <= j < i ==> !(#[trigger] av[j].value == v@ && av[j].alias_type == alias_type@),
        decreases aliases@.len() - i,
    {
        if crate::text::text_eq(aliases[i].value.as_str(), v.as_str()) && crate::text::text_eq(aliases[i].alias_type.as_str(), alias_type) {
            assert(av[i as int].value == v@ && av[i as int].alias_type == alias_type@);
            return;
        }
        i = i + 1;
    }
    let e = AliasEntry { value: v, alias_type: alias_type.to_string(), priority };
    let ghost ev = e@;
    aliases.push(e);
    assert(aliases_view(aliases@) =~= av.push(ev));
}

/// The region of an infobox that lists the aliases: what follows `|别名={` up to the first
/// line that starts with `}` (or to the end).
pub open spec fn alias_region(s: Seq<char>) -> Option<Seq<char>> {
    let open = "|别名={"@;
    match find_text(s, open) {
        None => None,
        Some(i) => {
            let rest = s.skip(i + open.len());
            let end = match find_text(rest, seq!['\n', '}']) {
                Some(e) => e,
                None => match find_text(rest, seq!['\r', '\n', '}']) {
                    Some(e) => e,
                    None => rest.len() as int,
                },
            };
            Some(rest.take(end))
        },
    }
}

fn text_chars(t: &str) -> (r: Vec<char>)
    ensures
        r@ == t@,
{
    chars_of(t)
}

fn alias_region_of(cs: &Vec<char>) -> (r: Option<Vec<char>>)
    ensures
        match r {
            Some(v) => alias_region(cs@) == Some(v@),
            None => alias_region(cs@) is None,
        },
{
    let open = text_chars("|别名={");
    let total = cs.len();
    let olen = open.len();
    let start = match find_chars(cs, &open) {
        Some(i) => {
            assert(i + olen <= total);
            i + olen
        },
        None => { return None; },
    };
    let rest = sub_vec(cs, start, cs.len());
    assert(rest@ =~= cs@.skip(start as int));
    let a = vec!['\n', '}'];
    let b = vec!['\r', '\n', '}'];
    assert(a@ =~= seq!['\n', '}']);
    assert(b@ =~= seq!['\r', '\n', '}']);
    let rlen = rest.len();
    let end = match find_chars(&rest, &a) {
        Some(e) => e,
        None => match find_chars(&rest, &b) {
            Some(e) => e,
            None => rlen,
        },
    };
    let region = sub_vec(&rest, 0, end);
    assert(region@ =~= rest@.take(end as int));
    Some(region)
}


/// One `[key|value]` item of the alias list: the trimmed key and value (no key without `|`).
pub open spec fn alias_item(part: Seq<char>) -> Option<(Seq<char>, Seq<char>)> {
    match find_text(part, seq![']']) {
        None => None,
        Some(e) => {
            let raw = trim_spec(part.take(e));
            if raw.len() == 0 {
                None
            } else {
                let kv = match find_text(raw, seq!['|']) {
                    Some(b) => (trim_spec(raw.take(b)), trim_spec(raw.skip(b + 1))),
                    None => (Seq::<char>::empty(), raw),
                };
                if kv.1.len() == 0 { None } else { Some(kv) }
            }
        },
    }
}

pub open spec fn collected_aliases(aliases: Seq<AliasModel>, parts: Seq<Seq<char>>) -> Seq<AliasModel>
    decreases parts.len(),
{
    if parts.len() == 0 {
        aliases
    } else {
        let a = collected_aliases(aliases, parts.drop_last());
        match alias_item(parts.last()) {
            Some(kv) => pushed_alias(a, kv.1, alias_kind(kv.0).0, alias_kind(kv.0).1),
            None => a,
        }
    }
}

/// The aliases of the infobox's alias list added to `aliases`.
pub open spec fn alias_block(aliases: Seq<AliasModel>, s: Seq<char>) -> Seq<AliasModel> {
    match alias_region(s) {
        None => aliases,
        Some(r) => collected_aliases(aliases, split_by(r, '[')),
    }
}

fn item_of(part: &str) -> (r: Option<(String, String)>)
    ensures
        match r {
            Some(kv) => alias_item(part@) == Some((kv.0@, kv.1@)),
            None => alias_item(part@) is None,
        },
{
    let cs = chars_of(part);
    let close = vec![']'];
    assert(close@ =~= seq![']']);
    let total = cs.len();
    proof { lemma_find_in_range(cs@, seq![']']); }
    let e = match find_chars(&cs, &close) {
        Some(e) => e,
        None => { return None; },
    };
    let head = string_of_range(&cs, 0, e);
    assert(head@ =~= part@.take(e as int));
    let raw = trim(head.as_str());
    let rc = chars_of(raw.as_str());
    if rc.len() == 0 {
        return None;
    }
    let bar = vec!['|'];
    assert(bar@ =~= seq!['|']);
    proof { lemma_find_in_range(rc@, seq!['|']); }
    let rlen = rc.len();
    let (key, value) = match find_chars(&rc, &bar) {
        Some(b) => {
            assert(b + 1 <= rlen);
            let k = string_of_range(&rc, 0, b);
            let v = string_of_range(&rc, b + 1, rlen);
            assert(k@ =~= raw@.take(b as int));
            assert(v@ =~= raw@.skip(b + 1));
            (trim(k.as_str()), trim(v.as_str()))
        },
        None => (String::new(), raw),
    };
    if chars_of(value.as_str()).len() == 0 {
        return None;
    }
    Some((key, value))
}

/// Adds the aliases of the infobox's alias list (see `alias_block`).
pub fn collect_alias_block(infobox: &str, aliases: &mut Vec<AliasEntry>)
    ensures
        aliases_view(final(aliases)@) == alias_block(aliases_view(old(aliases)@), infobox@),
{
    let cs = chars_of(infobox);
    let region = match alias_region_of(&cs) {
        Some(r) => r,
        None => { return; },
    };
    let parts = split_char(&region, '[');
    let ghost pv = texts(parts@);
    let ghost a0 = aliases_view(aliases@);
    let mut i: usize = 0;
    while i < parts.len()
        invariant
            i <= parts@.len(),
            pv == texts(parts@),
            aliases_view(aliases@) == collected_aliases(a0, pv.take(i as int)),
        decreases parts@.len() - i,
    {
        assert(pv.take(i + 1).drop_last() =~= pv.take(i as int));
        assert(pv.take(i + 1).last() == parts@[i as int]@);
        match item_of(parts[i].as_str()) {
            Some((key, value)) => {
                let (kind, priority) = normalize_alias_type(key.as_str());
                push_alias(aliases, value.as_str(), kind, priority);
            },
            None => {},
        }
        i = i + 1;
    }
    assert(pv.take(parts@.len() as int) =~= pv);
}

/// The name an alias item shows: what follows its last `|`, trimmed, when not empty.
pub open spec fn alias_word(part: Seq<char>) -> Option<Seq<char>> {
    match find_text(part, seq![']']) {
        None => None,
        Some(e) => {
            let w = trim_spec(split_by(part.take(e), '|').last());
            if w.len() > 0 { Some(w) } else { None }
        },
    }
}

pub open spec fn alias_words(parts: Seq<Seq<char>>) -> Seq<Seq<char>>
    decreases parts.len(),
{
    if parts.len() == 0 {
        Seq::empty()
    } else {
        let prev = alias_words(parts.drop_last());
        match alias_word(parts.last()) {
            Some(w) => prev.push(w),
            None => prev,
        }
    }
}

/// Texts joined by single spaces.
pub open spec fn join_space(ws: Seq<Seq<char>>) -> Seq<char>
    decreases ws.len(),
{
    if ws.len() == 0 {
        Seq::empty()
    } else if ws.len() == 1 {
        ws[0]
    } else {
        join_space(ws.drop_last()) + seq![' '] + ws.last()
    }
}

fn join_with_space(ws: &Vec<String>) -> (r: String)
    ensures
        r@ == join_space(texts(ws@)),
{
    let ghost wv = texts(ws@);
    let mut out = String::new();
    let mut i: usize = 0;
    while i < ws.len()
        invariant
            i <= ws@.len(),
            wv == texts(ws@),
            out@ == join_space(wv.take(i as int)),
        decreases ws@.len() - i,
    {
        assert(wv.take(i + 1).drop_last() =~= wv.take(i as int));
        assert(wv.take(i + 1).last() == ws@[i as int]@);
        if i > 0 {
            push_char(&mut out, ' ');
        }
        crate::text::append_text(&mut out, ws[i].as_str());
        proof {
            if i == 0 {
                assert(wv.take(1) =~= seq![wv[0]]);
                assert(out@ =~= wv[0]);
            }
        }
        assert(out@ =~= join_space(wv.take(i + 1)));
        i = i + 1;
    }
    assert(wv.take(ws@.len() as int) =~= wv);
    out
}

fn word_of(part: &str) -> (r: Option<String>)
    ensures
        crate::settings::opt_text(r) == alias_word(part@),
{
    let cs = chars_of(part);
    let close = vec![']'];
    assert(close@ =~= seq![']']);
    let e = match find_chars(&cs, &close) {
        Some(e) => e,
        None => { return None; },
    };
    let head = sub_vec(&cs, 0, e);
    assert(head@ =~= part@.take(e as int));
    let pieces_of = split_char(&head, '|');
    let last = &pieces_of[pieces_of.len() - 1];
    let w = trim(last.as_str());
    if chars_of(w.as_str()).len() == 0 {
        None
    } else {
        Some(w)
    }
}

/// The names of the infobox's alias list, joined by spaces (empty without a list).
pub fn infobox_aliases(infobox: &str) -> (r: String)
    ensures
        r@ == (match alias_region(infobox@) {
            None => Seq::empty(),
            Some(region) => join_space(alias_words(split_by(region, '['))),
        }),
{
    let cs = chars_of(infobox);
    let region = match alias_region_of(&cs) {
        Some(r) => r,
        None => { return String::new(); },
    };
    let parts = split_char(&region, '[');
    let ghost pv = texts(parts@);
    let mut words: Vec<String> = Vec::new();
    let mut i: usize = 0;
    while i < parts.len()
        invariant
            i <= parts@.len(),
            pv == texts(parts@),
            texts(words@) == alias_words(pv.take(i as int)),
        decreases parts@.len() - i,
    {
        assert(pv.take(i + 1).drop_last() =~= pv.take(i as int));
        assert(pv.take(i + 1).last() == parts@[i as int]@);
        match word_of(parts[i].as_str()) {
            Some(w) => {
                let ghost before = texts(words@);
                let ghost wv = w@;
                words.push(w);
                assert(texts(words@) =~= before.push(wv));
            },
            None => {},
        }
        i = i + 1;
    }
    assert(pv.take(parts@.len() as int) =~= pv);
    join_with_space(&words)
}

/// The year of a date written `year-month-day`: the number before the first `-`, or -1.
pub fn parse_year(date: &str) -> (r: i64)
    ensures
        r == (match crate::web::parsed_i64(split_by(date@, '-')[0]) { Some(y) => y, None => -1i64 }),
{
    let cs = chars_of(date);
    let parts = split_char(&cs, '-');
    match crate::web::parse_i64(parts[0].as_str()) {
        Some(y) => y,
        None => -1,
    }
}


/// Position of the first alias of one of `kinds` with the lowest priority among them.
pub open spec fn best_alias(aliases: Seq<AliasModel>, kinds: Seq<Seq<char>>) -> Option<int>
    decreases aliases.len(),
{
    if aliases.len() == 0 {
        None
    } else {
        let prev = best_alias(aliases.drop_last(), kinds);
        let a = aliases.last();
        if kinds.contains(a.alias_type) && (prev is None || a.priority < aliases[prev->0].priority) {
            Some(aliases.len() - 1)
        } else {
            prev
        }
    }
}

proof fn lemma_best_alias_range(aliases: Seq<AliasModel>, kinds: Seq<Seq<char>>)
    ensures
        best_alias(aliases, kinds) matches Some(i) ==> 0 <= i < aliases.len(),
    decreases aliases.len(),
{
    if aliases.len() > 0 {
        lemma_best_alias_range(aliases.drop_last(), kinds);
    }
}

/// The value of the best alias of one of `kinds` (see `best_alias`).
pub fn first_alias_value(aliases: &Vec<AliasEntry>, kinds: &Vec<&str>) -> (r: Option<String>)
    ensures
        crate::settings::opt_text(r) == (match best_alias(aliases_view(aliases@), kinds@.map_values(|k: &str| k@)) {
            Some(i) => Some(aliases@[i]@.value),
            None => None,
        }),
{
    let ghost av = aliases_view(aliases@);
    let ghost kv = kinds@.map_values(|k: &str| k@);
    let mut best: Option<usize> = None;
    let mut i: usize = 0;
    while i < aliases.len()
        invariant
            i <= aliases@.len(),
            av == aliases_view(aliases@),
            kv == kinds@.map_values(|k: &str| k@),
            match best { Some(b) => best_alias(av.take(i as int), kv) == Some(b as int) && b < i, None => best_alias(av.take(i as int), kv) is None },
        decreases aliases@.len() - i,
    {
        assert(av.take(i + 1).drop_last() =~= av.take(i as int));
        assert(av.take(i + 1).last() == aliases@[i as int]@);
        let mut listed = false;
        let mut k: usize = 0;
        while k < kinds.len()
            invariant
                k <= kinds@.len(),
                i < aliases@.len(),
                kv == kinds@.map_values(|k: &str| k@),
                listed == exists|j: int| 0 <= j < k && #[trigger] kv[j] == aliases@[i as int].alias_type@,
            decreases kinds@.len() - k,
        {
            if text_eq(kinds[k], aliases[i].alias_type.as_str()) {
                listed = true;
            }
            proof {
                if listed {
                    if kv[k as int] == aliases@[i as int].alias_type@ { assert(kv[k as int] == aliases@[i as int].alias_type@); }
                } else {
                    assert forall|j: int| 0 <= j < k + 1 implies !(#[trigger] kv[j] == aliases@[i as int].alias_type@) by {}
                }
            }
            k = k + 1;
        }
        assert(listed == kv.contains(aliases@[i as int].alias_type@));
        if listed {
            let better = match best {
                None => true,
                Some(b) => aliases[i].priority < aliases[b].priority,
            };
            if better {
                best = Some(i);
            }
        }
        proof {
            match best {
                Some(b) => assert(av.take(i + 1)[b as int] == av[b as int]),
                None => {},
            }
        }
        i = i + 1;
    }
    assert(av.take(aliases@.len() as int) =~= av);
    match best {
        Some(b) => Some(aliases[b].value.clone()),
        None => None,
    }
}

pub struct ParsedCharacterInfobox {
    pub name_cn: Option<String>,
    pub name_en: Option<String>,
    pub romaji: Option<String>,
    pub gender: String,
    pub aliases: Vec<AliasEntry>,
}

/// The gender the infobox states, as the catalogue writes it.
pub open spec fn gender_of(v: Option<Seq<char>>) -> Seq<char> {
    if v == Some("男"@) { "male"@ } else if v == Some("女"@) { "female"@ } else { "?"@ }
}

pub open spec fn best_value(aliases: Seq<AliasModel>, kind: Seq<char>) -> Option<Seq<char>> {
    match best_alias(aliases, seq![kind]) {
        Some(i) => Some(aliases[i].value),
        None => None,
    }
}

/// What a character's infobox says: the Chinese name, the English and romaji names (the best
/// aliases of those kinds), the gender, and the aliases with the names added (Chinese name at
/// priority 10, English 30, romaji 35).
pub open spec fn parsed_infobox(s: Seq<char>) -> (Option<Seq<char>>, Option<Seq<char>>, Option<Seq<char>>, Seq<char>, Seq<AliasModel>) {
    let cn = field_value(s, "简体中文名"@);
    let block = alias_block(Seq::empty(), s);
    let en = best_value(block, "en"@);
    let romaji = best_value(block, "romaji"@);
    let a1 = match cn { Some(v) => pushed_alias(block, v, "cn"@, 10), None => block };
    let a2 = match en { Some(v) => pushed_alias(a1, v, "en"@, 30), None => a1 };
    let a3 = match romaji { Some(v) => pushed_alias(a2, v, "romaji"@, 35), None => a2 };
    (cn, en, romaji, gender_of(field_value(s, "性别"@)), a3)
}

fn one_kind(k: &'static str) -> (r: Vec<&'static str>)
    ensures
        r@.map_values(|x: &str| x@) == seq![k@],
{
    let mut v: Vec<&'static str> = Vec::new();
    v.push(k);
    assert(v@.map_values(|x: &str| x@) =~= seq![k@]);
    v
}

pub fn parse_character_infobox(infobox: &str) -> (r: ParsedCharacterInfobox)
    ensures
        ({
            let p = parsed_infobox(infobox@);
            &&& crate::settings::opt_text(r.name_cn) == p.0
            &&& crate::settings::opt_text(r.name_en) == p.1
            &&& crate::settings::opt_text(r.romaji) == p.2
            &&& r.gender@ == p.3
            &&& aliases_view(r.aliases@) == p.4
        }),
{
    let name_cn = extract_infobox_field(infobox, "简体中文名");
    let sex = extract_infobox_field(infobox, "性别");
    let gender = match &sex {
        Some(g) => if text_eq(g.as_str(), "男") { "male" } else if text_eq(g.as_str(), "女") { "female" } else { "?" },
        None => "?",
    };
    let mut aliases: Vec<AliasEntry> = Vec::new();
    assert(aliases_view(aliases@) =~= Seq::<AliasModel>::empty());
    collect_alias_block(infobox, &mut aliases);
    proof {
        lemma_best_alias_range(aliases_view(aliases@), seq!["en"@]);
        lemma_best_alias_range(aliases_view(aliases@), seq!["romaji"@]);
    }
    let name_en = first_alias_value(&aliases, &one_kind("en"));
    let romaji = first_alias_value(&aliases, &one_kind("romaji"));
    match &name_cn {
        Some(v) => push_alias(&mut aliases, v.as_str(), "cn", 10),
        None => {},
    }
    match &name_en {
        Some(v) => push_alias(&mut aliases, v.as_str(), "en", 30),
        None => {},
    }
    match &romaji {
        Some(v) => push_alias(&mut aliases, v.as_str(), "romaji", 35),
        None => {},
    }
    let ghost p = parsed_infobox(infobox@);
    assert(crate::settings::opt_text(name_cn) == p.0);
    assert(crate::settings::opt_text(name_en) == p.1);
    assert(crate::settings::opt_text(romaji) == p.2);
    assert(gender@ == p.3);
    assert(aliases_view(aliases@) == p.4);
    ParsedCharacterInfobox { name_cn, name_en, romaji, gender: gender.to_string(), aliases }
}

/// The words and their CJK sub-terms, as a set.
pub open spec fn word_terms(ws: Seq<Seq<char>>) -> Set<Seq<char>>
    decreases ws.len(),
{
    if ws.len() == 0 {
        Set::empty()
    } else {
        word_terms(ws.drop_last()).insert(ws.last()) + sub_terms(ws.last()).to_set()
    }
}

/// The search terms of some names: their words and the words' CJK sub-terms.
pub open spec fn terms_of(values: Seq<Seq<char>>) -> Set<Seq<char>>
    decreases values.len(),
{
    if values.len() == 0 {
        Set::empty()
    } else {
        terms_of(values.drop_last()) + word_terms(token_list(values.last()))
    }
}

/// The distinct search terms of the names, in increasing order, joined by spaces.
pub fn expanded_tantivy_search_terms(values: &Vec<&str>) -> (r: String)
    ensures
        r@ == join_space(crate::text::sorted_texts(terms_of(values@.map_values(|v: &str| v@)))),
{
    let ghost vv = values@.map_values(|v: &str| v@);
    let mut set = crate::keyed::IdSet::new();
    let mut i: usize = 0;
    while i < values.len()
        invariant
            i <= values@.len(),
            vv == values@.map_values(|v: &str| v@),
            set.wf(),
            set@ == terms_of(vv.take(i as int)),
        decreases values@.len() - i,
    {
        assert(vv.take(i + 1).drop_last() =~= vv.take(i as int));
        assert(vv.take(i + 1).last() == values@[i as int]@);
        let tokens = search_tokens(values[i]);
        let ghost tv = texts(tokens@);
        let ghost base = set@;
        let mut k: usize = 0;
        while k < tokens.len()
            invariant
                k <= tokens@.len(),
                tv == texts(tokens@),
                set.wf(),
                set@ == base + word_terms(tv.take(k as int)),
            decreases tokens@.len() - k,
        {
            assert(tv.take(k + 1).drop_last() =~= tv.take(k as int));
            assert(tv.take(k + 1).last() == tokens@[k as int]@);
            set.insert(tokens[k].clone());
            let subs = cjk_sub_terms(tokens[k].as_str());
            let ghost sv = texts(subs@);
            let ghost mid = set@;
            let mut j: usize = 0;
            while j < subs.len()
                invariant
                    j <= subs@.len(),
                    sv == texts(subs@),
                    set.wf(),
                    set@ == mid + sv.take(j as int).to_set(),
                decreases subs@.len() - j,
            {
                set.insert(subs[j].clone());
                proof {
                    assert(sv.take(j + 1) =~= sv.take(j as int).push(sv[j as int]));
                    crate::gameplay::tagban::lemma_push_to_set(sv.take(j as int), sv[j as int]);
                }
                assert(set@ =~= mid + sv.take(j + 1).to_set());
                j = j + 1;
            }
            assert(sv.take(subs@.len() as int) =~= sv);
            assert(set@ =~= base + word_terms(tv.take(k + 1)));
            k = k + 1;
        }
        assert(tv.take(tokens@.len() as int) =~= tv);
        i = i + 1;
    }
    assert(vv.take(values@.len() as int) =~= vv);
    proof { crate::gameplay::tagban::lemma_text_set(set.items@); }
    let sorted = crate::keyed::sorted_texts_of(&set.items);
    join_with_space(&sorted)
}

/// The gender an infobox states: its 性别 field 男 gives "male", 女 gives "female", and
/// anything else, or no such field, gives "?".
pub proof fn law_infobox_gender(s: Seq<char>)
    ensures
        field_value(s, "性别"@) == Some(seq!['男']) ==> parsed_infobox(s).3 == seq!['m', 'a', 'l', 'e'],
        field_value(s, "性别"@) == Some(seq!['女']) ==> parsed_infobox(s).3 == seq!['f', 'e', 'm', 'a', 'l', 'e'],
        field_value(s, "性别"@) != Some(seq!['男']) && field_value(s, "性别"@) != Some(seq!['女'])
            ==> parsed_infobox(s).3 == seq!['?'],
{
    reveal_strlit("男");
    reveal_strlit("女");
    reveal_strlit("male");
    reveal_strlit("female");
    reveal_strlit("?");
    assert("男"@ =~= seq!['男']);
    assert("女"@ =~= seq!['女']);
    assert("male"@ =~= seq!['m', 'a', 'l', 'e']);
    assert("female"@ =~= seq!['f', 'e', 'm', 'a', 'l', 'e']);
    assert("?"@ =~= seq!['?']);
    assert(seq!['女'][0] != seq!['男'][0]);
    assert(seq!['女'] != seq!['男']);
    assert(Some(seq!['女']) != Some(seq!['男']));
}

} // verus!

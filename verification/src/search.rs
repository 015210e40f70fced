//! Cleaning search keywords and ranking what a search found.
use vstd::prelude::*;
use crate::infobox::{find_chars, find_text, join_space};
use crate::keyed::texts;
use crate::text::{
    append_text, char_is_alphanumeric, chars_of, is_ascii_alphanumeric, is_ascii_alphanumeric_spec, is_white_space,
    is_white_space_spec, push_char, string_of_range, trim, trim_spec, unicode_alphanumeric,
};

verus! {

/// Characters the full-text query syntax gives a meaning to.
pub open spec fn query_special(c: char) -> bool {
    c == '"' || c == '\'' || c == ':' || c == '^' || c == '(' || c == ')' || c == '{' || c == '}' || c == '[' || c == ']'
}

/// `s` without the query-special characters.
pub open spec fn without_special(s: Seq<char>) -> Seq<char>
    decreases s.len(),
{
    if s.len() == 0 {
        Seq::empty()
    } else {
        let prev = without_special(s.drop_last());
        if query_special(s.last()) { prev } else { prev.push(s.last()) }
    }
}

fn strip_special(s: &str, limit: usize) -> (r: String)
    ensures
        r@ == (if without_special(trim_spec(s@)).len() <= limit { without_special(trim_spec(s@)) } else {
            without_special(trim_spec(s@)).take(limit as int)
        }),
{
    let t = trim(s);
    let cs = chars_of(t.as_str());
    let mut out = String::new();
    let mut n: usize = 0;
    let mut i: usize = 0;
    while i < cs.len()
        invariant
            i <= cs@.len(),
            cs@ == trim_spec(s@),
            n == out@.len(),
            out@ == (if without_special(cs@.take(i as int)).len() <= limit { without_special(cs@.take(i as int)) } else {
                without_special(cs@.take(i as int)).take(limit as int)
            }),
        decreases cs@.len() - i,
    {
        assert(cs@.take(i + 1).drop_last() =~= cs@.take(i as int));
        assert(cs@.take(i + 1).last() == cs@[i as int]);
        let c = cs[i];
        if !(c == '"' || c == '\'' || c == ':' || c == '^' || c == '(' || c == ')' || c == '{' || c == '}' || c == '[' || c == ']') {
            if n < limit {
                push_char(&mut out, c);
                n = n + 1;
            }
            proof {
                let p = without_special(cs@.take(i as int));
                if p.len() >= limit {
                    assert(p.push(c).take(limit as int) =~= p.take(limit as int));
                }
            }
        }
        i = i + 1;
    }
    assert(cs@.take(cs@.len() as int) =~= cs@);
    out
}

proof fn lemma_without_len(s: Seq<char>)
    ensures
        without_special(s).len() <= s.len(),
    decreases s.len(),
{
    if s.len() > 0 {
        lemma_without_len(s.drop_last());
    }
}

/// The keyword trimmed and without the query-special characters.
pub fn sanitize_query(keyword: &str) -> (r: String)
    ensures
        r@ == without_special(trim_spec(keyword@)),
{
    let t = trim(keyword);
    proof { lemma_without_len(trim_spec(keyword@)); }
    strip_special(keyword, chars_of(t.as_str()).len())
}

/// The keyword trimmed, without the query-special characters, at most 64 characters long.
pub fn normalize_search_keyword(keyword: &str) -> (r: String)
    ensures
        r@ == (if without_special(trim_spec(keyword@)).len() <= 64 { without_special(trim_spec(keyword@)) } else {
            without_special(trim_spec(keyword@)).take(64)
        }),
{
    strip_special(keyword, 64)
}

/// Characters that end a query word: white space, and characters other than letters, digits
/// and `_` (ASCII ones only when `ascii`).
pub open spec fn word_break(c: char, ascii: bool) -> bool {
    is_white_space_spec(c) || !((if ascii { is_ascii_alphanumeric_spec(c) } else { unicode_alphanumeric(c) }) || c == '_')
}

/// The non-empty runs of `s` between word breaks, in order.
pub open spec fn query_words(s: Seq<char>, ascii: bool) -> Seq<Seq<char>>
    decreases s.len(),
{
    words_from(s, ascii, 0, Seq::empty())
}

/// The words of `s` from position `i` on, `cur` being the word under way.
pub open spec fn words_from(s: Seq<char>, ascii: bool, i: int, cur: Seq<char>) -> Seq<Seq<char>>
    decreases s.len() - i,
{
    if i >= s.len() {
        if cur.len() > 0 { seq![cur] } else { Seq::empty() }
    } else if word_break(s[i], ascii) {
        (if cur.len() > 0 { seq![cur] } else { Seq::empty() }) + words_from(s, ascii, i + 1, Seq::empty())
    } else {
        words_from(s, ascii, i + 1, cur.push(s[i]))
    }
}

/// Each word with a trailing `*`, joined by ` AND `.
pub open spec fn and_prefixes(ws: Seq<Seq<char>>) -> Seq<char>
    decreases ws.len(),
{
    if ws.len() == 0 {
        Seq::empty()
    } else if ws.len() == 1 {
        ws[0] + seq!['*']
    } else {
        and_prefixes(ws.drop_last()) + " AND "@ + ws.last() + seq!['*']
    }
}

fn is_break(c: char, ascii: bool) -> (r: bool)
    ensures
        r == word_break(c, ascii),
{
    let alnum = if ascii { is_ascii_alphanumeric(c) } else { char_is_alphanumeric(c) };
    is_white_space(c) || !(alnum || c == '_')
}

fn words_of_query(s: &str, ascii: bool) -> (r: Vec<String>)
    ensures
        texts(r@) == query_words(s@, ascii),
{
    let cs = chars_of(s);
    let mut out: Vec<String> = Vec::new();
    let mut cur = String::new();
    let mut i: usize = 0;
    while i < cs.len()
        invariant
            i <= cs@.len(),
            cs@ == s@,
            texts(out@) + words_from(cs@, ascii, i as int, cur@) == query_words(s@, ascii),
        decreases cs@.len() - i,
    {
        let ghost before = texts(out@);
        if is_break(cs[i], ascii) {
            if chars_of(cur.as_str()).len() > 0 {
                let w = cur;
                cur = String::new();
                let ghost wv = w@;
                out.push(w);
                assert(texts(out@) =~= before.push(wv));
                assert(texts(out@) + words_from(cs@, ascii, i + 1, cur@) =~= before + (seq![wv] + words_from(cs@, ascii, i + 1, Seq::empty())));
            } else {
                cur = String::new();
                assert(before + (Seq::<Seq<char>>::empty() + words_from(cs@, ascii, i + 1, Seq::empty())) =~= before + words_from(cs@, ascii, i + 1, Seq::empty()));
            }
        } else {
            push_char(&mut cur, cs[i]);
        }
        i = i + 1;
    }
    if chars_of(cur.as_str()).len() > 0 {
        let ghost before = texts(out@);
        let ghost wv = cur@;
        out.push(cur);
        assert(texts(out@) =~= before + seq![wv]);
    } else {
        assert(texts(out@) + Seq::<Seq<char>>::empty() =~= texts(out@));
    }
    out
}

fn join_and(ws: &Vec<String>) -> (r: String)
    ensures
        r@ == and_prefixes(texts(ws@)),
{
    let ghost wv = texts(ws@);
    let mut out = String::new();
    let mut i: usize = 0;
    while i < ws.len()
        invariant
            i <= ws@.len(),
            wv == texts(ws@),
            out@ == and_prefixes(wv.take(i as int)),
        decreases ws@.len() - i,
    {
        assert(wv.take(i + 1).drop_last() =~= wv.take(i as int));
        assert(wv.take(i + 1).last() == ws@[i as int]@);
        if i > 0 {
            append_text(&mut out, " AND ");
        }
        append_text(&mut out, ws[i].as_str());
        push_char(&mut out, '*');
        proof {
            if i == 0 {
                assert(wv.take(1) =~= seq![wv[0]]);
                assert(out@ =~= wv[0] + seq!['*']);
            }
        }
        assert(out@ =~= and_prefixes(wv.take(i + 1)));
        i = i + 1;
    }
    assert(wv.take(ws@.len() as int) =~= wv);
    out
}

/// The full-text query of a subject keyword: each ASCII word as a prefix, all required.
pub fn subject_fts_query(keyword: &str) -> (r: String)
    ensures
        r@ == and_prefixes(query_words(keyword@, true)),
{
    join_and(&words_of_query(keyword, true))
}

/// The full-text query of a keyword: each word (letters and digits of any script) as a
/// prefix, all required.
pub fn fts_query_with_char_fallback(keyword: &str) -> (r: String)
    ensures
        r@ == and_prefixes(query_words(keyword@, false)),
{
    join_and(&words_of_query(keyword, false))
}

pub fn character_fts_query(keyword: &str) -> (r: String)
    ensures
        r@ == and_prefixes(query_words(keyword@, false)),
{
    fts_query_with_char_fallback(keyword)
}

/// A row found by a subject search: id, type, and three texts.
pub type SubjectSearchRow = (i64, i64, String, String, String);

pub open spec fn row_ids(rows: Seq<SubjectSearchRow>) -> Seq<i64> {
    rows.map_values(|r: SubjectSearchRow| r.0)
}

/// The rows with the fallback rows added in order, skipping ids already present and
/// stopping once `limit` rows are there.
pub open spec fn merged_rows(rows: Seq<SubjectSearchRow>, fallback: Seq<SubjectSearchRow>, limit: int) -> Seq<SubjectSearchRow>
    decreases fallback.len(),
{
    if fallback.len() == 0 {
        rows
    } else if row_ids(rows).contains(fallback[0].0) {
        merged_rows(rows, fallback.drop_first(), limit)
    } else if rows.len() + 1 >= limit {
        rows.push(fallback[0])
    } else {
        merged_rows(rows.push(fallback[0]), fallback.drop_first(), limit)
    }
}

fn has_row(rows: &Vec<SubjectSearchRow>, id: i64) -> (r: bool)
    ensures
        r == row_ids(rows@).contains(id),
{
    let mut i: usize = 0;
    while i < rows.len()
        invariant
            i <= rows@.len(),
            forall|j: int| 0 <= j < i ==> rows@[j].0 != id,
        decreases rows@.len() - i,
    {
        if rows[i].0 == id {
            assert(row_ids(rows@)[i as int] == id);
            return true;
        }
        i = i + 1;
    }
    assert(!row_ids(rows@).contains(id)) by {
        if row_ids(rows@).contains(id) {
            let j = choose|j: int| 0 <= j < row_ids(rows@).len() && row_ids(rows@)[j] == id;
            assert(rows@[j].0 == id);
        }
    }
    false
}

pub fn merge_subject_rows(rows: &mut Vec<SubjectSearchRow>, fallback_rows: Vec<SubjectSearchRow>, limit: usize)
    ensures
        final(rows)@ == merged_rows(old(rows)@, fallback_rows@, limit as int),
{
    let ghost target = merged_rows(rows@, fallback_rows@, limit as int);
    let mut i: usize = 0;
    assert(fallback_rows@.skip(0) =~= fallback_rows@);
    while i < fallback_rows.len()
        invariant
            i <= fallback_rows@.len(),
            merged_rows(rows@, fallback_rows@.skip(i as int), limit as int) == target,
            target == merged_rows(old(rows)@, fallback_rows@, limit as int),
        decreases fallback_rows@.len() - i,
    {
        let row = &fallback_rows[i];
        assert(fallback_rows@.skip(i as int)[0] == fallback_rows@[i as int]);
        assert(fallback_rows@.skip(i as int).drop_first() =~= fallback_rows@.skip(i + 1));
        if !has_row(rows, row.0) {
            let ghost before = rows@;
            let copy = (row.0, row.1, row.2.clone(), row.3.clone(), row.4.clone());
            assert(copy == fallback_rows@[i as int]);
            rows.push(copy);
            assert(rows@ == before.push(fallback_rows@[i as int]));
            if rows.len() >= limit {
                assert(!row_ids(before).contains(fallback_rows@.skip(i as int)[0].0));
                assert(before.len() + 1 >= limit);
                assert(merged_rows(before, fallback_rows@.skip(i as int), limit as int) == before.push(fallback_rows@.skip(i as int)[0]));
                return;
            }
        }
        i = i + 1;
    }
    assert(fallback_rows@.skip(i as int) =~= Seq::<SubjectSearchRow>::empty());
}


pub open spec fn starts_with(s: Seq<char>, p: Seq<char>) -> bool {
    p.len() <= s.len() && s.take(p.len() as int) == p
}

/// The white-space separated words of `s` from position `i` on, `cur` being the word under way.
pub open spec fn spaced_from(s: Seq<char>, i: int, cur: Seq<char>) -> Seq<Seq<char>>
    decreases s.len() - i,
{
    if i >= s.len() {
        if cur.len() > 0 { seq![cur] } else { Seq::empty() }
    } else if is_white_space_spec(s[i]) {
        (if cur.len() > 0 { seq![cur] } else { Seq::empty() }) + spaced_from(s, i + 1, Seq::empty())
    } else {
        spaced_from(s, i + 1, cur.push(s[i]))
    }
}

fn has_spaced_word(s: &str, w: &str) -> (r: bool)
    ensures
        r == spaced_from(s@, 0, Seq::empty()).contains(w@),
{
    let cs = chars_of(s);
    let mut found = false;
    let mut cur = String::new();
    let mut i: usize = 0;
    while i < cs.len()
        invariant
            i <= cs@.len(),
            cs@ == s@,
            spaced_from(s@, 0, Seq::empty()).contains(w@) == (found || spaced_from(cs@, i as int, cur@).contains(w@)),
        decreases cs@.len() - i,
    {
        let ghost rest = spaced_from(cs@, i as int, cur@);
        if is_white_space(cs[i]) {
            if chars_of(cur.as_str()).len() > 0 {
                if crate::text::text_eq(cur.as_str(), w) {
                    found = true;
                }
                proof {
                    let tail = spaced_from(cs@, i + 1, Seq::empty());
                    assert(rest =~= seq![cur@] + tail);
                    assert(rest.contains(w@) == (cur@ == w@ || tail.contains(w@))) by {
                        if rest.contains(w@) {
                            let j = choose|j: int| 0 <= j < rest.len() && rest[j] == w@;
                            if j > 0 { assert(tail[j - 1] == w@); }
                        }
                        if tail.contains(w@) {
                            let j = choose|j: int| 0 <= j < tail.len() && tail[j] == w@;
                            assert(rest[j + 1] == w@);
                        }
                        if cur@ == w@ { assert(rest[0] == w@); }
                    }
                }
            } else {
                assert(rest =~= Seq::<Seq<char>>::empty() + spaced_from(cs@, i + 1, Seq::empty()));
            }
            cur = String::new();
        } else {
            push_char(&mut cur, cs[i]);
        }
        i = i + 1;
    }
    let last = chars_of(cur.as_str()).len() > 0 && crate::text::text_eq(cur.as_str(), w);
    proof {
        let rest = spaced_from(cs@, i as int, cur@);
        if cur@.len() > 0 {
            assert(rest =~= seq![cur@]);
            assert(rest.contains(w@) == (cur@ == w@)) by {
                if rest.contains(w@) { let j = choose|j: int| 0 <= j < rest.len() && rest[j] == w@; }
                if cur@ == w@ { assert(rest[0] == w@); }
            }
        } else {
            assert(rest =~= Seq::<Seq<char>>::empty());
        }
    }
    found || last
}

fn text_starts_with(s: &str, p: &str) -> (r: bool)
    ensures
        r == starts_with(s@, p@),
{
    let a = chars_of(s);
    let b = chars_of(p);
    if b.len() > a.len() {
        return false;
    }
    let mut i: usize = 0;
    while i < b.len()
        invariant
            i <= b@.len() <= a@.len(),
            a@ == s@,
            b@ == p@,
            forall|j: int| 0 <= j < i ==> a@[j] == b@[j],
        decreases b@.len() - i,
    {
        if a[i] != b[i] {
            assert(s@.take(p@.len() as int)[i as int] != p@[i as int]);
            return false;
        }
        i = i + 1;
    }
    assert(s@.take(p@.len() as int) =~= p@);
    true
}

fn text_contains(s: &str, p: &str) -> (r: bool)
    ensures
        r == find_text(s@, p@) is Some,
{
    let a = chars_of(s);
    let b = chars_of(p);
    find_chars(&a, &b).is_some()
}

/// How well a character matches a keyword (lower is better): 0 for the name, 1 for a name
/// prefix, 2 for one of the aliases, 3 inside the aliases, 4 for an English or romaji name
/// prefix, 5 otherwise, and 9 for a blank keyword.
pub open spec fn character_bucket(name: Seq<char>, name_cn: Seq<char>, aliases: Seq<char>, name_en: Seq<char>, romaji: Seq<char>, keyword: Seq<char>) -> u8 {
    let k = trim_spec(keyword);
    if k.len() == 0 {
        9
    } else if name == k || name_cn == k {
        0
    } else if starts_with(name, k) || starts_with(name_cn, k) {
        1
    } else if spaced_from(aliases, 0, Seq::empty()).contains(k) {
        2
    } else if find_text(aliases, k) is Some {
        3
    } else if starts_with(name_en, k) || starts_with(romaji, k) {
        4
    } else {
        5
    }
}

pub fn character_relevance_bucket(name: &str, name_cn: &str, aliases: &str, name_en: &str, romaji: &str, keyword: &str) -> (r: u8)
    ensures
        r == character_bucket(name@, name_cn@, aliases@, name_en@, romaji@, keyword@),
{
    let k = trim(keyword);
    let k = k.as_str();
    if chars_of(k).len() == 0 {
        return 9;
    }
    if crate::text::text_eq(name, k) || crate::text::text_eq(name_cn, k) {
        0
    } else if text_starts_with(name, k) || text_starts_with(name_cn, k) {
        1
    } else if has_spaced_word(aliases, k) {
        2
    } else if text_contains(aliases, k) {
        3
    } else if text_starts_with(name_en, k) || text_starts_with(romaji, k) {
        4
    } else {
        5
    }
}

/// How well a subject matches a keyword: 0 for the name, 1 for a name prefix, 2 inside a
/// name, 3 otherwise, and 9 for a blank keyword.
pub open spec fn subject_bucket(name: Seq<char>, name_cn: Seq<char>, keyword: Seq<char>) -> u8 {
    let k = trim_spec(keyword);
    if k.len() == 0 {
        9
    } else if name == k || name_cn == k {
        0
    } else if starts_with(name, k) || starts_with(name_cn, k) {
        1
    } else if find_text(name, k) is Some || find_text(name_cn, k) is Some {
        2
    } else {
        3
    }
}

pub fn subject_relevance_bucket(name: &str, name_cn: &str, keyword: &str) -> (r: u8)
    ensures
        r == subject_bucket(name@, name_cn@, keyword@),
{
    let k = trim(keyword);
    let k = k.as_str();
    if chars_of(k).len() == 0 {
        return 9;
    }
    if crate::text::text_eq(name, k) || crate::text::text_eq(name_cn, k) {
        0
    } else if text_starts_with(name, k) || text_starts_with(name_cn, k) {
        1
    } else if text_contains(name, k) || text_contains(name_cn, k) {
        2
    } else {
        3
    }
}

/// How well a character matches a keyword `k` (trimmed, not blank), with the numbers, from
/// best to worst: a name equal to it 0, a name it starts 1, an alias word equal to it 2, the
/// aliases holding it 3, an English or romaji name it starts 4, none of these 5; a blank
/// keyword gives 9. Each case comes only when no better one holds.
pub proof fn law_character_bucket_order(
    name: Seq<char>, name_cn: Seq<char>, aliases: Seq<char>, name_en: Seq<char>, romaji: Seq<char>, keyword: Seq<char>,
)
    ensures
        ({
            let k = trim_spec(keyword);
            let b = character_bucket(name, name_cn, aliases, name_en, romaji, keyword);
            let equal = name == k || name_cn == k;
            let prefix = starts_with(name, k) || starts_with(name_cn, k);
            let alias_word = spaced_from(aliases, 0, Seq::empty()).contains(k);
            let inside = find_text(aliases, k) is Some;
            let other_prefix = starts_with(name_en, k) || starts_with(romaji, k);
            &&& k.len() == 0 ==> b == 9
            &&& k.len() > 0 && equal ==> b == 0
            &&& k.len() > 0 && !equal && prefix ==> b == 1
            &&& k.len() > 0 && !equal && !prefix && alias_word ==> b == 2
            &&& k.len() > 0 && !equal && !prefix && !alias_word && inside ==> b == 3
            &&& k.len() > 0 && !equal && !prefix && !alias_word && !inside && other_prefix ==> b == 4
            &&& k.len() > 0 && !equal && !prefix && !alias_word && !inside && !other_prefix ==> b == 5
        }),
{
}

/// How well a subject matches a keyword `k` (trimmed, not blank), with the numbers: a name
/// equal to it 0, a name it starts 1, a name holding it 2, none of these 3; a blank keyword 9.
pub proof fn law_subject_bucket_order(name: Seq<char>, name_cn: Seq<char>, keyword: Seq<char>)
    ensures
        ({
            let k = trim_spec(keyword);
            let b = subject_bucket(name, name_cn, keyword);
            let equal = name == k || name_cn == k;
            let prefix = starts_with(name, k) || starts_with(name_cn, k);
            let inside = find_text(name, k) is Some || find_text(name_cn, k) is Some;
            &&& k.len() == 0 ==> b == 9
            &&& k.len() > 0 && equal ==> b == 0
            &&& k.len() > 0 && !equal && prefix ==> b == 1
            &&& k.len() > 0 && !equal && !prefix && inside ==> b == 2
            &&& k.len() > 0 && !equal && !prefix && !inside ==> b == 3
        }),
{
}

} // verus!

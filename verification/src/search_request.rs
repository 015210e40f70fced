//! What a search request asks for: the keyword, how many results, from where, and of which
//! kinds of work.
use vstd::prelude::*;
use crate::candidates::{sorted_unique_ids, strictly_increasing};
use crate::search::{normalize_search_keyword, without_special};
use crate::text::{chars_of, integer_text_value, string_of_range, trim, trim_spec};
use crate::web::{parse_i64, parsed_i64};

verus! {

/// What `str::parse::<u64>` gives for a text: the number it writes, where that fits.
pub open spec fn parsed_u64(s: Seq<char>) -> Option<u64> {
    match integer_text_value(s, false) {
        Some(v) => if 0 <= v <= u64::MAX { Some(v as u64) } else { None },
        None => None,
    }
}

/// `str::parse::<u64>`: as its documentation has it, an optional `+` sign followed by ASCII
/// digits and nothing else, within the range of `u64`; `None` otherwise.
#[verifier::external_body]
fn parse_u64(s: &str) -> (r: Option<u64>)
    ensures
        r == parsed_u64(s@),
{
    s.parse::<u64>().ok()
}

/// A character search: keyword, number of results, and how many to pass over.
pub struct CharacterSearchRequest {
    pub keyword: String,
    pub limit: usize,
    pub offset: usize,
}

/// A subject search: keyword, number of results, and the kinds of work, increasing.
pub struct SubjectSearchRequest {
    pub keyword: String,
    pub limit: usize,
    pub types: Vec<i64>,
}

/// The keyword as searched: trimmed, without query-special characters, at most 64 long.
pub open spec fn search_keyword(k: Seq<char>) -> Seq<char> {
    let w = without_special(trim_spec(trim_spec(k)));
    if w.len() <= 64 { w } else { w.take(64) }
}

pub open spec fn opt_text_of(v: Option<&str>) -> Seq<char> {
    match v {
        Some(s) => s@,
        None => Seq::empty(),
    }
}

/// The number of results asked for: 10 unless a number is given, at most 50.
pub open spec fn result_limit(v: Option<&str>) -> int {
    let n: int = match v {
        Some(s) => match parsed_u64(s@) {
            Some(x) => x as int,
            None => 10,
        },
        None => 10,
    };
    if n < 50 { n } else { 50 }
}

/// The number of results passed over: 0 unless a number is given.
pub open spec fn result_offset(v: Option<&str>) -> int {
    match v {
        Some(s) => match parsed_u64(s@) {
            Some(x) => x as int,
            None => 0,
        },
        None => 0,
    }
}

fn limit_of(v: Option<&str>) -> (r: usize)
    ensures
        r == result_limit(v),
{
    let n: u64 = match v {
        Some(s) => match parse_u64(s) {
            Some(x) => x,
            None => 10,
        },
        None => 10,
    };
    if n < 50 { n as usize } else { 50 }
}

/// The keyword as searched, or `None` when it is blank before or after cleaning.
fn keyword_of(v: Option<&str>) -> (r: Option<String>)
    ensures
        match r {
            Some(k) => trim_spec(opt_text_of(v)).len() > 0 && search_keyword(opt_text_of(v)).len() > 0
                && k@ == search_keyword(opt_text_of(v)),
            None => trim_spec(opt_text_of(v)).len() == 0 || search_keyword(opt_text_of(v)).len() == 0,
        },
{
    let raw: &str = match v {
        Some(s) => s,
        None => "",
    };
    proof { reveal_strlit(""); }
    assert(raw@ == opt_text_of(v));
    let t = trim(raw);
    if chars_of(t.as_str()).len() == 0 {
        return None;
    }
    let k = normalize_search_keyword(t.as_str());
    if chars_of(k.as_str()).len() == 0 {
        return None;
    }
    Some(k)
}

/// A character search from its query values; `None` (an empty answer) for a blank keyword,
/// before or after cleaning, and for an offset over 100.
pub fn character_search_request(keyword: Option<&str>, limit: Option<&str>, offset: Option<&str>) -> (r: Option<CharacterSearchRequest>)
    ensures
        match r {
            Some(q) => trim_spec(opt_text_of(keyword)).len() > 0 && result_offset(offset) <= 100
                && search_keyword(opt_text_of(keyword)).len() > 0
                && q.keyword@ == search_keyword(opt_text_of(keyword))
                && q.limit == result_limit(limit) && q.offset == result_offset(offset),
            None => trim_spec(opt_text_of(keyword)).len() == 0 || result_offset(offset) > 100
                || search_keyword(opt_text_of(keyword)).len() == 0,
        },
{
    let raw: &str = match keyword {
        Some(s) => s,
        None => "",
    };
    proof { reveal_strlit(""); }
    assert(raw@ == opt_text_of(keyword));
    if chars_of(trim(raw).as_str()).len() == 0 {
        return None;
    }
    let lim = limit_of(limit);
    let off: u64 = match offset {
        Some(s) => match parse_u64(s) {
            Some(x) => x,
            None => 0,
        },
        None => 0,
    };
    if off > 100 {
        return None;
    }
    match keyword_of(keyword) {
        Some(k) => Some(CharacterSearchRequest { keyword: k, limit: lim, offset: off as usize }),
        None => None,
    }
}

/// The pieces of `s` between commas, in order (one piece when there is no comma).
pub open spec fn comma_fields(s: Seq<char>) -> Seq<Seq<char>>
    decreases s.len(),
{
    if s.len() == 0 {
        seq![Seq::empty()]
    } else {
        let prev = comma_fields(s.drop_last());
        if s.last() == ',' {
            prev.push(Seq::empty())
        } else {
            prev.update(prev.len() - 1, prev.last().push(s.last()))
        }
    }
}


/// The numbers written by the trimmed fields, in order; fields that are no number are passed over.
pub open spec fn field_numbers(fs: Seq<Seq<char>>) -> Seq<i64>
    decreases fs.len(),
{
    if fs.len() == 0 {
        Seq::empty()
    } else {
        let prev = field_numbers(fs.drop_last());
        match parsed_i64(trim_spec(fs.last())) {
            Some(x) => prev.push(x),
            None => prev,
        }
    }
}

/// The kinds of work asked for: the numbers in the comma-separated `type` value, or 2 and 4
/// when it is missing or holds none.
pub open spec fn requested_types(v: Option<&str>) -> Set<i64> {
    match v {
        Some(s) => if field_numbers(comma_fields(s@)).len() > 0 {
            field_numbers(comma_fields(s@)).to_set()
        } else {
            set![2i64, 4i64]
        },
        None => set![2i64, 4i64],
    }
}

fn comma_split(s: &str) -> (r: Vec<String>)
    ensures
        r@.map_values(|x: String| x@) == comma_fields(s@),
{
    let cs = chars_of(s);
    let mut out: Vec<String> = Vec::new();
    let mut start: usize = 0;
    let mut i: usize = 0;
    assert(cs@.take(0) =~= Seq::<char>::empty());
    assert(out@.map_values(|x: String| x@).push(cs@.subrange(0, 0)) =~= seq![Seq::<char>::empty()]);
    while i < cs.len()
        invariant
            start <= i <= cs@.len(),
            cs@ == s@,
            out@.map_values(|x: String| x@).push(cs@.subrange(start as int, i as int)) == comma_fields(cs@.take(i as int)),
        decreases cs@.len() - i,
    {
        let ghost prev = comma_fields(cs@.take(i as int));
        let ghost ov = out@.map_values(|x: String| x@);
        let ghost cur = cs@.subrange(start as int, i as int);
        assert(cs@.take(i + 1).drop_last() =~= cs@.take(i as int));
        assert(cs@.take(i + 1).last() == cs@[i as int]);
        assert(prev == ov.push(cur));
        if cs[i] == ',' {
            let piece = string_of_range(&cs, start, i);
            out.push(piece);
            start = i + 1;
            assert(out@.map_values(|x: String| x@) =~= ov.push(cur));
            assert(cs@.subrange(start as int, i + 1) =~= Seq::<char>::empty());
            assert(out@.map_values(|x: String| x@).push(cs@.subrange(start as int, i + 1))
                =~= prev.push(Seq::empty()));
        } else {
            assert(cs@.subrange(start as int, i + 1) =~= cur.push(cs@[i as int]));
            assert(ov.push(cur.push(cs@[i as int])) =~= prev.update(prev.len() - 1, prev.last().push(cs@[i as int])));
        }
        i = i + 1;
    }
    assert(cs@.take(cs@.len() as int) =~= cs@);
    let ghost ov = out@.map_values(|x: String| x@);
    let last = string_of_range(&cs, start, cs.len());
    out.push(last);
    assert(out@.map_values(|x: String| x@) =~= ov.push(cs@.subrange(start as int, cs@.len() as int)));
    out
}

fn numbers_of(fields: &Vec<String>) -> (r: Vec<i64>)
    ensures
        r@ == field_numbers(fields@.map_values(|x: String| x@)),
{
    let ghost fs = fields@.map_values(|x: String| x@);
    let mut out: Vec<i64> = Vec::new();
    let mut i: usize = 0;
    while i < fields.len()
        invariant
            i <= fields@.len(),
            fs == fields@.map_values(|x: String| x@),
            out@ == field_numbers(fs.take(i as int)),
        decreases fields@.len() - i,
    {
        assert(fs.take(i + 1).drop_last() =~= fs.take(i as int));
        assert(fs.take(i + 1).last() == fields@[i as int]@);
        let t = trim(fields[i].as_str());
        match parse_i64(t.as_str()) {
            Some(x) => out.push(x),
            None => {},
        }
        i = i + 1;
    }
    assert(fs.take(fields@.len() as int) =~= fs);
    out
}

/// A subject search from its query values; `None` (an empty answer) for a blank keyword,
/// before or after cleaning.
pub fn subject_search_request(keyword: Option<&str>, limit: Option<&str>, types: Option<&str>) -> (r: Option<SubjectSearchRequest>)
    ensures
        match r {
            Some(q) => trim_spec(opt_text_of(keyword)).len() > 0 && search_keyword(opt_text_of(keyword)).len() > 0
                && q.keyword@ == search_keyword(opt_text_of(keyword))
                && q.limit == result_limit(limit)
                && strictly_increasing(q.types@) && q.types@.to_set() == requested_types(types),
            None => trim_spec(opt_text_of(keyword)).len() == 0 || search_keyword(opt_text_of(keyword)).len() == 0,
        },
{
    let raw: &str = match keyword {
        Some(s) => s,
        None => "",
    };
    proof { reveal_strlit(""); }
    assert(raw@ == opt_text_of(keyword));
    if chars_of(trim(raw).as_str()).len() == 0 {
        return None;
    }
    let lim = limit_of(limit);
    let asked: Vec<i64> = match types {
        Some(s) => numbers_of(&comma_split(s)),
        None => Vec::new(),
    };
    let chosen: Vec<i64> = if asked.len() > 0 { asked } else { vec![2i64, 4i64] };
    proof {
        if !(asked@.len() > 0) {
            assert(chosen@.to_set() =~= set![2i64, 4i64]) by {
                assert(chosen@ == seq![2i64, 4i64]);
                assert forall|x: i64| chosen@.to_set().contains(x) == set![2i64, 4i64].contains(x) by {
                    if x == 2 { assert(chosen@[0] == 2); }
                    if x == 4 { assert(chosen@[1] == 4); }
                }
            }
        }
    }
    let sorted = sorted_unique_ids(&chosen);
    match keyword_of(keyword) {
        Some(k) => Some(SubjectSearchRequest { keyword: k, limit: lim, types: sorted }),
        None => None,
    }
}

} // verus!

//! Reading the data dump for the application database: who is a voice actor, which voice
//! actors each kept character has, and the image sources of the kept characters.
use vstd::prelude::*;
use crate::builder::has_name;
use crate::keyed::texts;
use crate::text::{blank, is_blank, text_eq, trim, trim_spec};

verus! {

/// The fields of a person line that the builder reads, each as the JSON value gives it.
pub struct PersonRow {
    pub id: Option<i64>,
    pub careers: Option<Vec<Option<String>>>,
    pub name: Option<String>,
}

pub struct PersonRowModel {
    pub id: Option<i64>,
    pub careers: Option<Seq<Option<Seq<char>>>>,
    pub name: Option<Seq<char>>,
}

pub open spec fn opt_text_view(o: Option<String>) -> Option<Seq<char>> {
    match o {
        Some(s) => Some(s@),
        None => None,
    }
}

impl View for PersonRow {
    type V = PersonRowModel;

    open spec fn view(&self) -> PersonRowModel {
        PersonRowModel {
            id: self.id,
            careers: match self.careers {
                Some(v) => Some(v@.map_values(|o: Option<String>| opt_text_view(o))),
                None => None,
            },
            name: opt_text_view(self.name),
        }
    }
}

/// The fields of a person-character line that the builder reads.
#[derive(Clone, Copy)]
pub struct LinkRow {
    pub link_type: Option<i64>,
    pub subject_id: Option<i64>,
    pub character_id: Option<i64>,
    pub person_id: Option<i64>,
}

pub open spec fn opt_person(r: Option<PersonRow>) -> Option<PersonRowModel> {
    match r {
        Some(p) => Some(p@),
        None => None,
    }
}

/// What a person line holds, when it is JSON.
pub uninterp spec fn person_row(line: Seq<char>) -> Option<PersonRowModel>;

/// What a person-character line holds, when it is JSON.
pub uninterp spec fn link_row(line: Seq<char>) -> Option<LinkRow>;

/// `serde_json::from_str` of a person line into a `serde_json::Value`, then the fields the
/// builder reads, each as the value gives it: `id` by `as_i64`, `career` by `as_array` with
/// each entry by `as_str`, `name` by `as_str`. `None` when the line is not JSON. The claim is
/// that the result depends on the line alone, named `person_row`.
#[verifier::external_body]
fn parse_person_line(line: &str) -> (r: Option<PersonRow>)
    ensures
        opt_person(r) == person_row(line@),
{
    let v: serde_json::Value = match serde_json::from_str(line) {
        Ok(v) => v,
        Err(_) => return None,
    };
    Some(PersonRow {
        id: v["id"].as_i64(),
        careers: v.get("career").and_then(|c| c.as_array()).map(|a| a.iter().map(|c| c.as_str().map(|s| s.to_string())).collect()),
        name: v["name"].as_str().map(|s| s.to_string()),
    })
}

/// `serde_json::from_str` of a person-character line into a `serde_json::Value`, then the
/// fields `type`, `subject_id`, `character_id` and `person_id`, each by `as_i64`. `None` when
/// the line is not JSON. The claim is that the result depends on the line alone, named
/// `link_row`.
#[verifier::external_body]
fn parse_link_line(line: &str) -> (r: Option<LinkRow>)
    ensures
        r == link_row(line@),
{
    let v: serde_json::Value = match serde_json::from_str(line) {
        Ok(v) => v,
        Err(_) => return None,
    };
    Some(LinkRow {
        link_type: v["type"].as_i64(),
        subject_id: v["subject_id"].as_i64(),
        character_id: v["character_id"].as_i64(),
        person_id: v["person_id"].as_i64(),
    })
}

/// The voice actor a person row names: a non-zero id, "seiyu" among the careers, and a name
/// that is not blank, trimmed.
pub open spec fn seiyu_entry(p: PersonRowModel) -> Option<(i64, Seq<char>)> {
    let id = match p.id { Some(x) => x, None => 0 };
    let seiyu = match p.careers { Some(cs) => cs.contains(Some("seiyu"@)), None => false };
    let name = trim_spec(match p.name { Some(n) => n, None => Seq::empty() });
    if id == 0 || !seiyu || name.len() == 0 { None } else { Some((id, name)) }
}

/// Line `k` is not blank and not JSON.
pub open spec fn bad_person_line(lines: Seq<Seq<char>>, k: int) -> bool {
    !is_blank(lines[k]) && person_row(lines[k]) is None
}

pub open spec fn bad_link_line(lines: Seq<Seq<char>>, k: int) -> bool {
    !is_blank(lines[k]) && link_row(lines[k]) is None
}

/// The voice actors of the person lines by id; a later line for an id replaces an earlier one.
pub open spec fn seiyu_map(lines: Seq<Seq<char>>) -> Map<i64, Seq<char>>
    decreases lines.len(),
{
    if lines.len() == 0 {
        Map::empty()
    } else {
        let prev = seiyu_map(lines.drop_last());
        let l = lines.last();
        if is_blank(l) {
            prev
        } else {
            match person_row(l) {
                Some(p) => match seiyu_entry(p) {
                    Some((id, n)) => prev.insert(id, n),
                    None => prev,
                },
                None => prev,
            }
        }
    }
}

/// The voice actor a link row names: a voice link (type 0) with non-zero ids, between a kept
/// subject and a kept character, to a known voice actor.
pub open spec fn link_name(row: LinkRow, m: Map<i64, Seq<char>>, vs: Set<i64>, vc: Set<i64>) -> Option<Seq<char>> {
    let t: i64 = match row.link_type { Some(x) => x, None => -1i64 };
    let s = match row.subject_id { Some(x) => x, None => 0 };
    let c = match row.character_id { Some(x) => x, None => 0 };
    let p = match row.person_id { Some(x) => x, None => 0 };
    if t != 0 || s == 0 || c == 0 || p == 0 || !vs.contains(s) || !vc.contains(c) || !m.dom().contains(p) {
        None
    } else {
        Some(m[p])
    }
}

pub open spec fn row_character(row: LinkRow) -> i64 {
    match row.character_id { Some(x) => x, None => 0 }
}

/// `names` with `n` added, unless there are 8 already or `n` is among them.
pub open spec fn name_added(names: Seq<Seq<char>>, n: Seq<char>) -> Seq<Seq<char>> {
    if names.len() >= 8 || names.contains(n) { names } else { names.push(n) }
}

/// The voice actor names of character `c` from the link lines in order.
pub open spec fn names_for(lines: Seq<Seq<char>>, c: i64, m: Map<i64, Seq<char>>, vs: Set<i64>, vc: Set<i64>) -> Seq<Seq<char>>
    decreases lines.len(),
{
    if lines.len() == 0 {
        Seq::empty()
    } else {
        let prev = names_for(lines.drop_last(), c, m, vs, vc);
        let l = lines.last();
        if is_blank(l) {
            prev
        } else {
            match link_row(l) {
                Some(row) => if row_character(row) == c {
                    match link_name(row, m, vs, vc) {
                        Some(n) => name_added(prev, n),
                        None => prev,
                    }
                } else {
                    prev
                },
                None => prev,
            }
        }
    }
}

/// A character has at most 8 voice actors, and has some only when it is kept.
pub proof fn lemma_names_for(lines: Seq<Seq<char>>, c: i64, m: Map<i64, Seq<char>>, vs: Set<i64>, vc: Set<i64>)
    ensures
        names_for(lines, c, m, vs, vc).len() <= 8,
        names_for(lines, c, m, vs, vc).len() > 0 ==> vc.contains(c),
    decreases lines.len(),
{
    if lines.len() > 0 {
        lemma_names_for(lines.drop_last(), c, m, vs, vc);
    }
}

/// Where reading the dump stopped: the first line, of the person file or of the
/// person-character file, that is neither blank nor JSON.
#[derive(Clone, Copy, PartialEq, Eq, Structural, Debug)]
pub enum DumpLineError {
    PersonLine(usize),
    LinkLine(usize),
}

/// The voice actor a person row names, as `seiyu_entry` says: its id and trimmed name.
pub fn seiyu_of(p: &PersonRow) -> (r: Option<(i64, String)>)
    ensures
        match seiyu_entry(p@) {
            Some((id, n)) => r matches Some(x) && x.0 == id && x.1@ == n,
            None => r is None,
        },
{
    let id: i64 = match p.id {
        Some(x) => x,
        None => 0,
    };
    let mut seiyu = false;
    match &p.careers {
        Some(cs) => {
            let ghost v = cs@.map_values(|o: Option<String>| opt_text_view(o));
            let mut k: usize = 0;
            while k < cs.len()
                invariant
                    k <= cs@.len(),
                    v == cs@.map_values(|o: Option<String>| opt_text_view(o)),
                    seiyu == v.take(k as int).contains(Some("seiyu"@)),
                decreases cs@.len() - k,
            {
                let hit = match &cs[k] {
                    Some(s) => text_eq(s.as_str(), "seiyu"),
                    None => false,
                };
                proof {
                    let a = v.take(k as int);
                    let b = v.take(k + 1);
                    assert(b =~= a.push(v[k as int]));
                    assert(v[k as int] == opt_text_view(cs@[k as int]));
                    if b.contains(Some("seiyu"@)) && !a.contains(Some("seiyu"@)) {
                        let j = choose|j: int| 0 <= j < b.len() && #[trigger] b[j] == Some("seiyu"@);
                        if j < k { assert(a[j] == b[j]); }
                    }
                    if a.contains(Some("seiyu"@)) {
                        let j = choose|j: int| 0 <= j < a.len() && #[trigger] a[j] == Some("seiyu"@);
                        assert(b[j] == a[j]);
                    }
                    if hit {
                        assert(b[k as int] == Some("seiyu"@));
                    }
                }
                seiyu = seiyu || hit;
                k = k + 1;
            }
            assert(v.take(cs@.len() as int) =~= v);
        },
        None => {},
    }
    let raw: &str = match &p.name {
        Some(n) => n.as_str(),
        None => "",
    };
    proof { reveal_strlit(""); }
    let name = trim(raw);
    if id == 0 || !seiyu || crate::text::chars_of(name.as_str()).len() == 0 {
        return None;
    }
    Some((id, name))
}

/// `t` lists the entries of `m`, each key once.
pub open spec fn table_of(t: Seq<(i64, String)>, m: Map<i64, Seq<char>>) -> bool {
    &&& forall|a: int, b: int| 0 <= a < b < t.len() ==> (#[trigger] t[a]).0 != (#[trigger] t[b]).0
    &&& forall|k: int| 0 <= k < t.len() ==> m.dom().contains((#[trigger] t[k]).0) && m[t[k].0] == t[k].1@
    &&& forall|id: i64| #[trigger] m.dom().contains(id) ==> exists|k: int| 0 <= k < t.len() && t[k].0 == id
}

/// The voice actors by id of the person lines (each id once), or the first line that is
/// neither blank nor JSON.
fn seiyu_table(lines: &Vec<String>) -> (r: Result<Vec<(i64, String)>, usize>)
    ensures
        match r {
            Ok(t) => (forall|k: int| 0 <= k < lines@.len() ==> !bad_person_line(texts(lines@), k))
                && table_of(t@, seiyu_map(texts(lines@))),
            Err(k) => k < lines@.len() && bad_person_line(texts(lines@), k as int)
                && forall|j: int| 0 <= j < k ==> !bad_person_line(texts(lines@), j),
        },
{
    let ghost ls = texts(lines@);
    let mut t: Vec<(i64, String)> = Vec::new();
    let mut i: usize = 0;
    while i < lines.len()
        invariant
            i <= lines@.len(),
            ls == texts(lines@),
            forall|k: int| 0 <= k < i ==> !bad_person_line(ls, k),
            forall|a: int, b: int| 0 <= a < b < t@.len() ==> (#[trigger] t@[a]).0 != (#[trigger] t@[b]).0,
            forall|k: int| 0 <= k < t@.len() ==> seiyu_map(ls.take(i as int)).dom().contains((#[trigger] t@[k]).0)
                && seiyu_map(ls.take(i as int))[t@[k].0] == t@[k].1@,
            forall|id: i64| #[trigger] seiyu_map(ls.take(i as int)).dom().contains(id) ==> exists|k: int| 0 <= k < t@.len() && t@[k].0 == id,
        decreases lines@.len() - i,
    {
        let ghost m0 = seiyu_map(ls.take(i as int));
        assert(ls.take(i + 1).drop_last() =~= ls.take(i as int));
        assert(ls.take(i + 1).last() == lines@[i as int]@);
        let line = lines[i].as_str();
        if !blank(line) {
            match parse_person_line(line) {
                None => return Err(i),
                Some(p) => match seiyu_of(&p) {
                    None => {},
                    Some((id, name)) => {
                        let ghost t0 = t@;
                        let mut k: usize = 0;
                        while k < t.len() && t[k].0 != id
                            invariant
                                k <= t@.len(),
                                forall|j: int| 0 <= j < k ==> t@[j].0 != id,
                            decreases t@.len() - k,
                        {
                            k = k + 1;
                        }
                        if k < t.len() {
                            let _ = t.remove(k);
                            t.insert(k, (id, name));
                            assert forall|j: int| 0 <= j < t@.len() && j != k implies #[trigger] t@[j] == t0[j] by {}
                        } else {
                            t.push((id, name));
                            assert forall|j: int| 0 <= j < t0.len() implies #[trigger] t@[j] == t0[j] by {}
                        }
                        assert forall|x: i64| #[trigger] seiyu_map(ls.take(i + 1)).dom().contains(x) implies exists|j: int| 0 <= j < t@.len() && t@[j].0 == x by {
                            if x != id {
                                assert(m0.dom().contains(x));
                                let j = choose|j: int| 0 <= j < t0.len() && t0[j].0 == x;
                                assert(t@[j] == t0[j]);
                            } else {
                                assert(t@[k as int].0 == id);
                            }
                        }
                        assert forall|j: int| 0 <= j < t@.len() implies seiyu_map(ls.take(i + 1)).dom().contains((#[trigger] t@[j]).0)
                            && seiyu_map(ls.take(i + 1))[t@[j].0] == t@[j].1@ by {
                            if j != k as int {
                                assert(t@[j] == t0[j]);
                            }
                        }
                    },
                },
            }
        }
        i = i + 1;
    }
    assert(ls.take(lines@.len() as int) =~= ls);
    assert(table_of(t@, seiyu_map(texts(lines@))));
    Ok(t)
}

fn lookup(t: &Vec<(i64, String)>, id: i64) -> (r: Option<String>)
    ensures
        match r {
            Some(n) => exists|k: int| 0 <= k < t@.len() && t@[k].0 == id && t@[k].1@ == n@,
            None => forall|k: int| 0 <= k < t@.len() ==> t@[k].0 != id,
        },
{
    let mut k: usize = 0;
    while k < t.len()
        invariant
            k <= t@.len(),
            forall|j: int| 0 <= j < k ==> t@[j].0 != id,
        decreases t@.len() - k,
    {
        if t[k].0 == id {
            return Some(t[k].1.clone());
        }
        k = k + 1;
    }
    None
}

pub(crate) fn contains_id(v: &Vec<i64>, x: i64) -> (r: bool)
    ensures
        r == v@.contains(x),
{
    let mut k: usize = 0;
    while k < v.len()
        invariant
            k <= v@.len(),
            forall|j: int| 0 <= j < k ==> v@[j] != x,
        decreases v@.len() - k,
    {
        if v[k] == x {
            return true;
        }
        k = k + 1;
    }
    false
}

/// The voice actor a link row names, looked up in the table of voice actors.
fn name_of_link(
    row: LinkRow,
    t: &Vec<(i64, String)>,
    valid_subjects: &Vec<i64>,
    valid_chars: &Vec<i64>,
    Ghost(m): Ghost<Map<i64, Seq<char>>>,
) -> (r: Option<String>)
    requires
        table_of(t@, m),
    ensures
        match link_name(row, m, valid_subjects@.to_set(), valid_chars@.to_set()) {
            Some(n) => r matches Some(x) && x@ == n,
            None => r is None,
        },
{
    let ty: i64 = match row.link_type { Some(x) => x, None => -1 };
    let s: i64 = match row.subject_id { Some(x) => x, None => 0 };
    let c: i64 = match row.character_id { Some(x) => x, None => 0 };
    let p: i64 = match row.person_id { Some(x) => x, None => 0 };
    if ty != 0 || s == 0 || c == 0 || p == 0 {
        return None;
    }
    let sv = contains_id(valid_subjects, s);
    let cv = contains_id(valid_chars, c);
    assert(sv == valid_subjects@.to_set().contains(s));
    assert(cv == valid_chars@.to_set().contains(c));
    if !sv || !cv {
        return None;
    }
    let found = lookup(t, p);
    proof {
        if found is Some {
            let k = choose|k: int| 0 <= k < t@.len() && t@[k].0 == p && t@[k].1@ == found->0@;
            assert(m.dom().contains(t@[k].0));
        } else if m.dom().contains(p) {
            let k = choose|k: int| 0 <= k < t@.len() && t@[k].0 == p;
            assert(t@[k].0 != p);
        }
    }
    found
}

/// `out` lists each character that has voice actors in the link lines once, with its names.
pub open spec fn voice_table(out: Seq<(i64, Vec<String>)>, lines: Seq<Seq<char>>, m: Map<i64, Seq<char>>, vs: Set<i64>, vc: Set<i64>) -> bool {
    &&& forall|a: int, b: int| 0 <= a < b < out.len() ==> (#[trigger] out[a]).0 != (#[trigger] out[b]).0
    &&& forall|k: int| 0 <= k < out.len() ==> texts((#[trigger] out[k]).1@) == names_for(lines, out[k].0, m, vs, vc)
        && out[k].1@.len() > 0
    &&& forall|c: i64| #[trigger] names_for(lines, c, m, vs, vc).len() > 0 ==> exists|k: int| 0 <= k < out.len() && out[k].0 == c
}

/// The voice actors of the kept characters, from the person lines and the person-character
/// lines of the dump and the ids of the kept subjects and characters. Each character with
/// voice actors comes once, with its names in the order of the links, each once and at most
/// 8. Reading stops at the first line, of the person lines first, that is neither blank nor
/// JSON.
pub fn character_voice_actors(
    person_lines: &Vec<String>,
    link_lines: &Vec<String>,
    valid_subjects: &Vec<i64>,
    valid_chars: &Vec<i64>,
) -> (r: Result<Vec<(i64, Vec<String>)>, DumpLineError>)
    ensures
        match r {
            Ok(out) => {
                &&& forall|k: int| 0 <= k < person_lines@.len() ==> !bad_person_line(texts(person_lines@), k)
                &&& forall|k: int| 0 <= k < link_lines@.len() ==> !bad_link_line(texts(link_lines@), k)
                &&& voice_table(out@, texts(link_lines@), seiyu_map(texts(person_lines@)), valid_subjects@.to_set(), valid_chars@.to_set())
                &&& forall|k: int| 0 <= k < out@.len() ==> valid_chars@.contains((#[trigger] out@[k]).0) && out@[k].1@.len() <= 8
            },
            Err(DumpLineError::PersonLine(k)) => k < person_lines@.len() && bad_person_line(texts(person_lines@), k as int)
                && forall|j: int| 0 <= j < k ==> !bad_person_line(texts(person_lines@), j),
            Err(DumpLineError::LinkLine(k)) => k < link_lines@.len()
                && (forall|j: int| 0 <= j < person_lines@.len() ==> !bad_person_line(texts(person_lines@), j))
                && bad_link_line(texts(link_lines@), k as int)
                && forall|j: int| 0 <= j < k ==> !bad_link_line(texts(link_lines@), j),
        },
{
    let t = match seiyu_table(person_lines) {
        Ok(t) => t,
        Err(k) => return Err(DumpLineError::PersonLine(k)),
    };
    let ghost m = seiyu_map(texts(person_lines@));
    let ghost vs = valid_subjects@.to_set();
    let ghost vc = valid_chars@.to_set();
    let ghost lk = texts(link_lines@);
    let mut out: Vec<(i64, Vec<String>)> = Vec::new();
    let mut i: usize = 0;
    assert(lk.take(0) =~= Seq::<Seq<char>>::empty());
    while i < link_lines.len()
        invariant
            i <= link_lines@.len(),
            lk == texts(link_lines@),
            m == seiyu_map(texts(person_lines@)),
            vs == valid_subjects@.to_set(),
            vc == valid_chars@.to_set(),
            forall|k: int| 0 <= k < person_lines@.len() ==> !bad_person_line(texts(person_lines@), k),
            table_of(t@, m),
            forall|k: int| 0 <= k < i ==> !bad_link_line(lk, k),
            voice_table(out@, lk.take(i as int), m, vs, vc),
        decreases link_lines@.len() - i,
    {
        let ghost prev = lk.take(i as int);
        let ghost next = lk.take(i + 1);
        assert(next.drop_last() =~= prev);
        assert(next.last() == link_lines@[i as int]@);
        let line = link_lines[i].as_str();
        if !blank(line) {
            let row = match parse_link_line(line) {
                Some(row) => row,
                None => {
                    assert(bad_link_line(lk, i as int));
                    return Err(DumpLineError::LinkLine(i));
                },
            };
            assert(!is_blank(next.last()) && link_row(next.last()) == Some(row));
            let c0: i64 = match row.character_id { Some(x) => x, None => 0 };
            match name_of_link(row, &t, valid_subjects, valid_chars, Ghost(m)) {
                None => {
                    assert(link_name(row, m, vs, vc) is None);
                    assert forall|c: i64| names_for(next, c, m, vs, vc) == names_for(prev, c, m, vs, vc) by {
                        assert(next.len() > 0);
                    }
                },
                Some(n) => {
                    assert forall|c: i64| c != c0 implies names_for(next, c, m, vs, vc) == names_for(prev, c, m, vs, vc) by {}
                    assert(names_for(next, c0, m, vs, vc) == name_added(names_for(prev, c0, m, vs, vc), n@));
                    let ghost o0 = out@;
                    let mut k: usize = 0;
                    while k < out.len() && out[k].0 != c0
                        invariant
                            k <= out@.len(),
                            forall|j: int| 0 <= j < k ==> out@[j].0 != c0,
                        decreases out@.len() - k,
                    {
                        k = k + 1;
                    }
                    if k < out.len() {
                        let (c, mut names) = out.remove(k);
                        let ghost before = texts(names@);
                        if names.len() < 8 && !has_name(&names, n.as_str()) {
                            names.push(n);
                            assert(texts(names@) =~= before.push(n@));
                        }
                        out.insert(k, (c, names));
                        assert forall|j: int| 0 <= j < out@.len() && j != k implies #[trigger] out@[j] == o0[j] by {}
                        assert(texts(out@[k as int].1@) == names_for(next, c0, m, vs, vc));
                    } else {
                        proof {
                            if names_for(prev, c0, m, vs, vc).len() > 0 {
                                let j = choose|j: int| 0 <= j < o0.len() && o0[j].0 == c0;
                                assert(o0[j].0 != c0);
                            }
                        }
                        let mut names: Vec<String> = Vec::new();
                        names.push(n);
                        out.push((c0, names));
                        assert forall|j: int| 0 <= j < o0.len() implies #[trigger] out@[j] == o0[j] by {}
                        assert(texts(out@[k as int].1@) =~= names_for(next, c0, m, vs, vc));
                    }
                    assert forall|c: i64| #[trigger] names_for(next, c, m, vs, vc).len() > 0 implies exists|j: int| 0 <= j < out@.len() && out@[j].0 == c by {
                        if c == c0 {
                            assert(out@[k as int].0 == c0);
                        } else {
                            let j = choose|j: int| 0 <= j < o0.len() && o0[j].0 == c;
                            if j < k as int || o0.len() == k {
                                assert(out@[j] == o0[j]);
                            } else {
                                assert(out@[j] == o0[j]);
                            }
                        }
                    }
                },
            }
        } else {
            assert forall|c: i64| names_for(next, c, m, vs, vc) == names_for(prev, c, m, vs, vc) by {}
        }
        i = i + 1;
    }
    assert(lk.take(link_lines@.len() as int) =~= lk);
    assert forall|k: int| 0 <= k < out@.len() implies valid_chars@.contains((#[trigger] out@[k]).0) && out@[k].1@.len() <= 8 by {
        lemma_names_for(lk, out@[k].0, m, vs, vc);
        assert(vc.contains(out@[k].0));
        assert(texts(out@[k].1@).len() == out@[k].1@.len());
    }
    Ok(out)
}

/// The fields of an image-source item that the builder reads: `id` by `as_i64`, and the first
/// entry of the `image_medium` and `image_grid` arrays by `as_str`.
pub struct ImageRow {
    pub id: Option<i64>,
    pub medium: Option<String>,
    pub grid: Option<String>,
}

pub struct ImageRowModel {
    pub id: Option<i64>,
    pub medium: Option<Seq<char>>,
    pub grid: Option<Seq<char>>,
}

impl View for ImageRow {
    type V = ImageRowModel;

    open spec fn view(&self) -> ImageRowModel {
        ImageRowModel { id: self.id, medium: opt_text_view(self.medium), grid: opt_text_view(self.grid) }
    }
}

pub open spec fn opt_image(r: Option<ImageRow>) -> Option<ImageRowModel> {
    match r {
        Some(x) => Some(x@),
        None => None,
    }
}

pub open spec fn opt_images(r: Option<Option<Vec<ImageRow>>>) -> Option<Option<Seq<ImageRowModel>>> {
    match r {
        Some(Some(v)) => Some(Some(v@.map_values(|x: ImageRow| x@))),
        Some(None) => Some(None),
        None => None,
    }
}

/// What an image-source line holds, when it is JSON.
pub uninterp spec fn image_row(line: Seq<char>) -> Option<ImageRowModel>;

/// What an image-source file holds, when it is JSON: its items when it is an array.
pub uninterp spec fn image_file(text: Seq<char>) -> Option<Option<Seq<ImageRowModel>>>;

/// `serde_json::from_str` of an image-source line into a `serde_json::Value`, then its fields
/// as `ImageRow` says. `None` when the line is not JSON. The claim is that the result depends
/// on the line alone, named `image_row`.
#[verifier::external_body]
fn parse_image_line(line: &str) -> (r: Option<ImageRow>)
    ensures
        opt_image(r) == image_row(line@),
{
    let v: serde_json::Value = match serde_json::from_str(line) {
        Ok(v) => v,
        Err(_) => return None,
    };
    let first = |key: &str| v.get(key).and_then(|x| x.as_array()).and_then(|a| a.first()).and_then(|x| x.as_str()).map(|s| s.to_string());
    Some(ImageRow { id: v.get("id").and_then(|x| x.as_i64()), medium: first("image_medium"), grid: first("image_grid") })
}

/// `serde_json::from_str` of a whole image-source file into a `serde_json::Value`, then, when it
/// is an array (`as_array`), each item's fields as `ImageRow` says. `None` when the text is
/// not JSON. The claim is that the result depends on the text alone, named `image_file`.
#[verifier::external_body]
fn parse_image_file(text: &str) -> (r: Option<Option<Vec<ImageRow>>>)
    ensures
        opt_images(r) == image_file(text@),
{
    let v: serde_json::Value = match serde_json::from_str(text) {
        Ok(v) => v,
        Err(_) => return None,
    };
    let item = |v: &serde_json::Value| {
        let first = |key: &str| v.get(key).and_then(|x| x.as_array()).and_then(|a| a.first()).and_then(|x| x.as_str()).map(|s| s.to_string());
        ImageRow { id: v.get("id").and_then(|x| x.as_i64()), medium: first("image_medium"), grid: first("image_grid") }
    };
    Some(v.as_array().map(|a| a.iter().map(item).collect()))
}

/// An image source to record: the character and its medium and grid images, trimmed.
pub struct ImageSource {
    pub character_id: i64,
    pub medium: String,
    pub grid: String,
}

/// The source an image item gives: a kept character with a medium or a grid image.
pub open spec fn image_entry(row: ImageRowModel, vc: Set<i64>) -> Option<(i64, Seq<char>, Seq<char>)> {
    let medium = trim_spec(match row.medium { Some(x) => x, None => Seq::empty() });
    let grid = trim_spec(match row.grid { Some(x) => x, None => Seq::empty() });
    match row.id {
        None => None,
        Some(id) => if !vc.contains(id) || (medium.len() == 0 && grid.len() == 0) { None } else { Some((id, medium, grid)) },
    }
}

pub open spec fn source_view(x: ImageSource) -> (i64, Seq<char>, Seq<char>) {
    (x.character_id, x.medium@, x.grid@)
}

/// The sources of the items in order.
pub open spec fn image_entries(rows: Seq<ImageRowModel>, vc: Set<i64>) -> Seq<(i64, Seq<char>, Seq<char>)>
    decreases rows.len(),
{
    if rows.len() == 0 {
        Seq::empty()
    } else {
        let prev = image_entries(rows.drop_last(), vc);
        match image_entry(rows.last(), vc) {
            Some(e) => prev.push(e),
            None => prev,
        }
    }
}

/// The items of image-source lines: each line not blank once trimmed, in order.
pub open spec fn line_items(lines: Seq<Seq<char>>) -> Seq<ImageRowModel>
    decreases lines.len(),
{
    if lines.len() == 0 {
        Seq::empty()
    } else {
        let prev = line_items(lines.drop_last());
        let t = trim_spec(lines.last());
        if t.len() == 0 {
            prev
        } else {
            match image_row(t) {
                Some(x) => prev.push(x),
                None => prev,
            }
        }
    }
}

pub open spec fn bad_image_line(lines: Seq<Seq<char>>, k: int) -> bool {
    trim_spec(lines[k]).len() > 0 && image_row(trim_spec(lines[k])) is None
}

fn image_source_of(row: &ImageRow, valid_chars: &Vec<i64>) -> (r: Option<ImageSource>)
    ensures
        match image_entry(row@, valid_chars@.to_set()) {
            Some(e) => r matches Some(x) && source_view(x) == e,
            None => r is None,
        },
{
    let id = match row.id {
        Some(x) => x,
        None => return None,
    };
    let raw_medium: &str = match &row.medium { Some(x) => x.as_str(), None => "" };
    let raw_grid: &str = match &row.grid { Some(x) => x.as_str(), None => "" };
    proof { reveal_strlit(""); }
    let medium = trim(raw_medium);
    let grid = trim(raw_grid);
    let kept = contains_id(valid_chars, id);
    assert(kept == valid_chars@.to_set().contains(id));
    if !kept || (crate::text::chars_of(medium.as_str()).len() == 0 && crate::text::chars_of(grid.as_str()).len() == 0) {
        return None;
    }
    Some(ImageSource { character_id: id, medium, grid })
}

fn sources_of_rows(rows: &Vec<ImageRow>, valid_chars: &Vec<i64>) -> (r: Vec<ImageSource>)
    ensures
        r@.map_values(|x: ImageSource| source_view(x)) == image_entries(rows@.map_values(|x: ImageRow| x@), valid_chars@.to_set()),
{
    let ghost rv = rows@.map_values(|x: ImageRow| x@);
    let mut out: Vec<ImageSource> = Vec::new();
    let mut i: usize = 0;
    while i < rows.len()
        invariant
            i <= rows@.len(),
            rv == rows@.map_values(|x: ImageRow| x@),
            out@.map_values(|x: ImageSource| source_view(x)) == image_entries(rv.take(i as int), valid_chars@.to_set()),
        decreases rows@.len() - i,
    {
        assert(rv.take(i + 1).drop_last() =~= rv.take(i as int));
        assert(rv.take(i + 1).last() == rows@[i as int]@);
        let ghost before = out@.map_values(|x: ImageSource| source_view(x));
        match image_source_of(&rows[i], valid_chars) {
            Some(x) => {
                out.push(x);
                assert(out@.map_values(|x: ImageSource| source_view(x)) =~= before.push(source_view(out@.last())));
            },
            None => {},
        }
        i = i + 1;
    }
    assert(rv.take(rows@.len() as int) =~= rv);
    out
}

/// The image sources of an image-source file read line by line (one JSON item per line), or
/// the first line that is neither blank nor JSON.
pub fn image_sources_from_lines(lines: &Vec<String>, valid_chars: &Vec<i64>) -> (r: Result<Vec<ImageSource>, usize>)
    ensures
        match r {
            Ok(v) => (forall|k: int| 0 <= k < lines@.len() ==> !bad_image_line(texts(lines@), k))
                && v@.map_values(|x: ImageSource| source_view(x)) == image_entries(line_items(texts(lines@)), valid_chars@.to_set()),
            Err(k) => k < lines@.len() && bad_image_line(texts(lines@), k as int)
                && forall|j: int| 0 <= j < k ==> !bad_image_line(texts(lines@), j),
        },
{
    let ghost ls = texts(lines@);
    let mut rows: Vec<ImageRow> = Vec::new();
    let mut i: usize = 0;
    while i < lines.len()
        invariant
            i <= lines@.len(),
            ls == texts(lines@),
            forall|k: int| 0 <= k < i ==> !bad_image_line(ls, k),
            rows@.map_values(|x: ImageRow| x@) == line_items(ls.take(i as int)),
        decreases lines@.len() - i,
    {
        assert(ls.take(i + 1).drop_last() =~= ls.take(i as int));
        assert(ls.take(i + 1).last() == lines@[i as int]@);
        let t = trim(lines[i].as_str());
        if crate::text::chars_of(t.as_str()).len() > 0 {
            match parse_image_line(t.as_str()) {
                None => return Err(i),
                Some(x) => {
                    let ghost before = rows@.map_values(|x: ImageRow| x@);
                    rows.push(x);
                    assert(rows@.map_values(|x: ImageRow| x@) =~= before.push(rows@.last()@));
                },
            }
        }
        i = i + 1;
    }
    assert(ls.take(lines@.len() as int) =~= ls);
    Ok(sources_of_rows(&rows, valid_chars))
}

/// The image sources of an image-source file that holds one JSON array (anything but an
/// array holds none); `None` when the text is not JSON.
pub fn image_sources_from_json(text: &str, valid_chars: &Vec<i64>) -> (r: Option<Vec<ImageSource>>)
    ensures
        match image_file(text@) {
            None => r is None,
            Some(None) => r matches Some(v) && v@.len() == 0,
            Some(Some(items)) => r matches Some(v) && v@.map_values(|x: ImageSource| source_view(x)) == image_entries(items, valid_chars@.to_set()),
        },
{
    match parse_image_file(text) {
        None => None,
        Some(None) => Some(Vec::new()),
        Some(Some(rows)) => Some(sources_of_rows(&rows, valid_chars)),
    }
}

} // verus!

//! Small keyed collections with text keys: sets of ids and per-team tables.
use vstd::prelude::*;
use crate::text::{strictly_sorted, text_lt};

verus! {

/// The set of texts held by `items`.
pub open spec fn text_set(items: Seq<String>) -> Set<Seq<char>> {
    Set::new(|k: Seq<char>| exists|i: int| 0 <= i < items.len() && items[i]@ == k)
}

/// No two entries of `items` hold the same text.
pub open spec fn distinct_texts(items: Seq<String>) -> bool {
    forall|i: int, j: int|
        0 <= i < items.len() && 0 <= j < items.len() && i != j ==> items[i]@ != items[j]@
}

/// A set of ids (socket ids, player ids), kept without repetition.
pub struct IdSet {
    pub items: Vec<String>,
}

impl View for IdSet {
    type V = Set<Seq<char>>;

    open spec fn view(&self) -> Set<Seq<char>> {
        text_set(self.items@)
    }
}

impl IdSet {
    pub open spec fn wf(&self) -> bool {
        distinct_texts(self.items@)
    }

    pub fn new() -> (r: IdSet)
        ensures
            r.wf(),
            r@ == Set::<Seq<char>>::empty(),
    {
        let r = IdSet { items: Vec::new() };
        assert(r@ =~= Set::<Seq<char>>::empty());
        r
    }

    pub fn index_of(&self, id: &str) -> (r: Option<usize>)
        ensures
            match r {
                Some(i) => i < self.items@.len() && self.items@[i as int]@ == id@,
                None => !self@.contains(id@),
            },
    {
        let mut i: usize = 0;
        while i < self.items.len()
            invariant
                i <= self.items@.len(),
                forall|j: int| 0 <= j < i ==> self.items@[j]@ != id@,
            decreases self.items@.len() - i,
        {
            if crate::text::text_eq(self.items[i].as_str(), id) {
                return Some(i);
            }
            i = i + 1;
        }
        None
    }

    pub fn contains(&self, id: &str) -> (r: bool)
        ensures
            r == self@.contains(id@),
    {
        match self.index_of(id) {
            Some(_) => true,
            None => false,
        }
    }

    pub fn insert(&mut self, id: String)
        requires
            old(self).wf(),
        ensures
            final(self).wf(),
            final(self)@ == old(self)@.insert(id@),
    {
        if self.contains(id.as_str()) {
            assert(self@ =~= old(self)@.insert(id@));
            return;
        }
        let ghost old_items = self.items@;
        self.items.push(id);
        assert forall|k: Seq<char>| #[trigger] self@.contains(k) == old(self)@.insert(id@).contains(k) by {
            if old(self)@.contains(k) {
                let i = choose|i: int| 0 <= i < old_items.len() && old_items[i]@ == k;
                assert(self.items@[i] == old_items[i]);
            }
            if k == id@ {
                assert(self.items@[old_items.len() as int]@ == k);
            }
        }
        assert(self@ =~= old(self)@.insert(id@));
    }

    pub fn remove(&mut self, id: &str)
        requires
            old(self).wf(),
        ensures
            final(self).wf(),
            final(self)@ == old(self)@.remove(id@),
    {
        match self.index_of(id) {
            None => {
                assert(self@ =~= old(self)@.remove(id@));
            },
            Some(i) => {
                let ghost old_items = self.items@;
                self.items.remove(i);
                assert forall|k: Seq<char>| #[trigger] self@.contains(k) == old(self)@.remove(id@).contains(k) by {
                    if old(self)@.remove(id@).contains(k) {
                        let j = choose|j: int| 0 <= j < old_items.len() && old_items[j]@ == k;
                        assert(j != i);
                        if j < i {
                            assert(self.items@[j] == old_items[j]);
                        } else {
                            assert(self.items@[j - 1] == old_items[j]);
                        }
                    }
                    if self@.contains(k) {
                        let j = choose|j: int| 0 <= j < self.items@.len() && self.items@[j]@ == k;
                        if j < i {
                            assert(self.items@[j] == old_items[j]);
                        } else {
                            assert(self.items@[j] == old_items[j + 1]);
                        }
                    }
                }
                assert(self@ =~= old(self)@.remove(id@));
            },
        }
    }

    pub fn clear(&mut self)
        ensures
            final(self).wf(),
            final(self)@ == Set::<Seq<char>>::empty(),
    {
        self.items.clear();
        assert(self@ =~= Set::<Seq<char>>::empty());
    }

    pub fn len(&self) -> (r: usize)
        requires
            self.wf(),
        ensures
            r == self.items@.len(),
    {
        self.items.len()
    }
}

/// The texts of `v`, in order.
pub open spec fn texts(v: Seq<String>) -> Seq<Seq<char>> {
    v.map_values(|x: String| x@)
}

/// The position of key `k` in `keys` (meaningful when `k` occurs there).
pub open spec fn key_index(keys: Seq<String>, k: Seq<char>) -> int {
    choose|i: int| 0 <= i < keys.len() && keys[i]@ == k
}

/// Distinct texts make a finite set with as many members as there are entries.
pub proof fn lemma_text_set_len(items: Seq<String>)
    requires
        distinct_texts(items),
    ensures
        text_set(items).finite(),
        text_set(items).len() == items.len(),
    decreases items.len(),
{
    if items.len() == 0 {
        assert(text_set(items) =~= Set::<Seq<char>>::empty());
    } else {
        let init = items.drop_last();
        let last = items.last()@;
        assert(distinct_texts(init)) by {
            assert forall|i: int, j: int|
                0 <= i < init.len() && 0 <= j < init.len() && i != j implies init[i]@ != init[j]@ by {
                assert(init[i] == items[i] && init[j] == items[j]);
            }
        }
        lemma_text_set_len(init);
        assert forall|k: Seq<char>| #[trigger] text_set(items).contains(k) == text_set(init).insert(last).contains(k) by {
            if text_set(items).contains(k) {
                let i = choose|i: int| 0 <= i < items.len() && items[i]@ == k;
                if i < items.len() - 1 {
                    assert(init[i] == items[i]);
                }
            }
            if text_set(init).contains(k) {
                let i = choose|i: int| 0 <= i < init.len() && init[i]@ == k;
                assert(init[i] == items[i]);
            }
            if k == last {
                assert(items[items.len() - 1]@ == k);
            }
        }
        assert(text_set(items) =~= text_set(init).insert(last));
        assert(!text_set(init).contains(last)) by {
            if text_set(init).contains(last) {
                let i = choose|i: int| 0 <= i < init.len() && init[i]@ == last;
                assert(init[i] == items[i]);
                assert(items[i]@ == items[items.len() - 1]@);
            }
        }
    }
}

/// Copies of `v`, element for element.
pub fn clone_texts(v: &Vec<String>) -> (r: Vec<String>)
    ensures
        r@ == v@,
{
    let mut out: Vec<String> = Vec::new();
    let mut i: usize = 0;
    while i < v.len()
        invariant
            i <= v@.len(),
            out@ == v@.take(i as int),
        decreases v@.len() - i,
    {
        out.push(v[i].clone());
        assert(v@.take(i + 1) =~= v@.take(i as int).push(v@[i as int]));
        i = i + 1;
    }
    assert(v@.take(v@.len() as int) =~= v@);
    out
}


/// The distinct texts of `v` in increasing order.
pub fn sorted_texts_of(v: &Vec<String>) -> (r: Vec<String>)
    requires
        distinct_texts(v@),
    ensures
        texts(r@) == crate::text::sorted_texts(text_set(v@)),
        strictly_sorted(texts(r@)),
{
    let mut out: Vec<String> = Vec::new();
    let mut i: usize = 0;
    while i < v.len()
        invariant
            i <= v@.len(),
            distinct_texts(v@),
            strictly_sorted(texts(out@)),
            texts(out@).to_set() == text_set(v@.take(i as int)),
        decreases v@.len() - i,
    {
        let x = &v[i];
        let ghost o = texts(out@);
        assert(!o.to_set().contains(x@)) by {
            if o.to_set().contains(x@) {
                let j = choose|j: int| 0 <= j < i && v@.take(i as int)[j]@ == x@;
                assert(v@[j]@ == v@[i as int]@);
            }
        }
        let mut p: usize = 0;
        while p < out.len() && !crate::text::text_less(x.as_str(), out[p].as_str())
            invariant
                p <= out@.len(),
                o == texts(out@),
                strictly_sorted(o),
                !o.to_set().contains(x@),
                forall|k: int| 0 <= k < p ==> text_lt(#[trigger] o[k], x@),
            decreases out@.len() - p,
        {
            proof {
                crate::text::lemma_text_lt_total(x@, o[p as int]);
                assert(o.to_set().contains(o[p as int]));
            }
            p = p + 1;
        }
        out.insert(p, x.clone());
        proof {
            let n = texts(out@);
            assert(n =~= o.insert(p as int, x@));
            assert forall|a: int, b: int| 0 <= a < b < n.len() implies text_lt(#[trigger] n[a], #[trigger] n[b]) by {
                if p < o.len() {
                    assert(text_lt(x@, o[p as int]));
                }
                if a < p && b == p {
                } else if a < p && b > p {
                    assert(text_lt(o[a], o[b - 1]));
                } else if a == p && b > p {
                    if b - 1 > p {
                        assert(text_lt(o[p as int], o[b - 1]));
                        crate::text::lemma_text_lt_strict(x@, o[p as int], o[b - 1]);
                    }
                } else if a > p {
                    assert(text_lt(o[a - 1], o[b - 1]));
                }
            }
            assert(v@.take(i + 1) =~= v@.take(i as int).push(v@[i as int]));
            assert forall|k: Seq<char>| n.to_set().contains(k) <==> text_set(v@.take(i + 1)).contains(k) by {
                if n.to_set().contains(k) {
                    let j = choose|j: int| 0 <= j < n.len() && n[j] == k;
                    if j < p {
                        assert(o[j] == k && o.to_set().contains(k));
                    } else if j > p {
                        assert(o[j - 1] == k && o.to_set().contains(k));
                    } else {
                        assert(v@.take(i + 1)[i as int]@ == k);
                    }
                    if o.to_set().contains(k) {
                        let m = choose|m: int| 0 <= m < i && v@.take(i as int)[m]@ == k;
                        assert(v@.take(i + 1)[m]@ == k);
                    }
                }
                if text_set(v@.take(i + 1)).contains(k) {
                    let vi = v@.take(i + 1);
                    let m = choose|m: int| 0 <= m < vi.len() && vi[m]@ == k;
                    if m < i {
                        assert(v@.take(i as int)[m]@ == k);
                        assert(text_set(v@.take(i as int)).contains(k));
                        assert(o.to_set().contains(k));
                        let j = choose|j: int| 0 <= j < o.len() && o[j] == k;
                        if j < p {
                            assert(n[j] == k);
                        } else {
                            assert(n[j + 1] == k);
                        }
                    } else {
                        assert(n[p as int] == k);
                    }
                }
            }
            assert(n.to_set() =~= text_set(v@.take(i + 1)));
        }
        i = i + 1;
    }
    assert(v@.take(v@.len() as int) =~= v@);
    proof { crate::text::lemma_sorted_texts(texts(out@), text_set(v@)); }
    out
}

/// Per-team attempt marks: team id to the marks of that team, in order.
pub struct TeamMarks {
    pub keys: Vec<String>,
    pub marks: Vec<Vec<String>>,
}

impl View for TeamMarks {
    type V = Map<Seq<char>, Seq<Seq<char>>>;

    open spec fn view(&self) -> Map<Seq<char>, Seq<Seq<char>>> {
        Map::new(
            |k: Seq<char>| text_set(self.keys@).contains(k),
            |k: Seq<char>| texts(self.marks@[key_index(self.keys@, k)]@),
        )
    }
}

/// The marks of `team` in `m`, or none.
pub open spec fn marks_of(m: Map<Seq<char>, Seq<Seq<char>>>, team: Seq<char>) -> Seq<Seq<char>> {
    if m.dom().contains(team) { m[team] } else { Seq::empty() }
}

impl TeamMarks {
    pub open spec fn wf(&self) -> bool {
        &&& distinct_texts(self.keys@)
        &&& self.keys@.len() == self.marks@.len()
    }

    pub fn new() -> (r: TeamMarks)
        ensures
            r.wf(),
            r@ == Map::<Seq<char>, Seq<Seq<char>>>::empty(),
    {
        let r = TeamMarks { keys: Vec::new(), marks: Vec::new() };
        assert(r@ =~= Map::<Seq<char>, Seq<Seq<char>>>::empty());
        r
    }

    fn index_of(&self, team: &str) -> (r: Option<usize>)
        requires
            self.wf(),
        ensures
            match r {
                Some(i) => i < self.keys@.len() && self.keys@[i as int]@ == team@
                    && key_index(self.keys@, team@) == i,
                None => !self@.dom().contains(team@),
            },
    {
        let mut i: usize = 0;
        while i < self.keys.len()
            invariant
                self.wf(),
                i <= self.keys@.len(),
                forall|j: int| 0 <= j < i ==> self.keys@[j]@ != team@,
            decreases self.keys@.len() - i,
        {
            if crate::text::text_eq(self.keys[i].as_str(), team) {
                let ghost k = key_index(self.keys@, team@);
                assert(text_set(self.keys@).contains(team@));
                assert(k == i);
                return Some(i);
            }
            i = i + 1;
        }
        None
    }

    pub fn contains_key(&self, team: &str) -> (r: bool)
        requires
            self.wf(),
        ensures
            r == self@.dom().contains(team@),
    {
        match self.index_of(team) {
            Some(_) => true,
            None => false,
        }
    }

    /// Number of marks recorded for `team` (0 for an unknown team).
    pub fn count(&self, team: &str) -> (r: usize)
        requires
            self.wf(),
        ensures
            r == marks_of(self@, team@).len(),
    {
        match self.index_of(team) {
            Some(i) => {
                assert(self@.dom().contains(team@));
                self.marks[i].len()
            },
            None => 0,
        }
    }

    /// Copies of the marks of `team` (none for an unknown team).
    pub fn marks_cloned(&self, team: &str) -> (r: Vec<String>)
        requires
            self.wf(),
        ensures
            texts(r@) == marks_of(self@, team@),
    {
        match self.index_of(team) {
            Some(i) => {
                assert(self@.dom().contains(team@));
                clone_texts(&self.marks[i])
            },
            None => {
                let r: Vec<String> = Vec::new();
                assert(texts(r@) =~= Seq::<Seq<char>>::empty());
                r
            },
        }
    }

    /// Appends `mark` to the marks of `team`, creating the team's entry if needed.
    pub fn push(&mut self, team: &str, mark: String)
        requires
            old(self).wf(),
        ensures
            final(self).wf(),
            final(self)@ == old(self)@.insert(team@, marks_of(old(self)@, team@).push(mark@)),
    {
        let ghost new_marks = marks_of(old(self)@, team@).push(mark@);
        match self.index_of(team) {
            Some(i) => {
                let mut row = clone_texts(&self.marks[i]);
                row.push(mark);
                self.marks.set(i, row);
                assert forall|k: Seq<char>| #[trigger] self@.dom().contains(k) implies self@[k] == old(self)@.insert(team@, new_marks)[k] by {
                    let j = key_index(self.keys@, k);
                    if k == team@ {
                        assert(j == i);
                        assert(texts(self.marks@[j]@) =~= new_marks);
                    } else {
                        assert(j != i);
                    }
                }
                assert(self@.dom() =~= old(self)@.insert(team@, new_marks).dom());
                assert(self@ =~= old(self)@.insert(team@, new_marks));
            },
            None => {
                let ghost old_keys = self.keys@;
                let ghost old_marks = self.marks@;
                let mut row: Vec<String> = Vec::new();
                row.push(mark);
                self.keys.push(team.to_string());
                self.marks.push(row);
                let ghost n = old_keys.len() as int;
                assert forall|k: Seq<char>| #[trigger] self@.dom().contains(k) == old(self)@.insert(team@, new_marks).dom().contains(k) by {
                    if old(self)@.dom().contains(k) {
                        let j = choose|j: int| 0 <= j < old_keys.len() && old_keys[j]@ == k;
                        assert(self.keys@[j] == old_keys[j]);
                    }
                    if k == team@ {
                        assert(self.keys@[n]@ == k);
                    }
                    if self@.dom().contains(k) {
                        let j = choose|j: int| 0 <= j < self.keys@.len() && self.keys@[j]@ == k;
                        if j < n {
                            assert(self.keys@[j] == old_keys[j]);
                        }
                    }
                }
                assert forall|k: Seq<char>| #[trigger] self@.dom().contains(k) implies self@[k] == old(self)@.insert(team@, new_marks)[k] by {
                    let j = key_index(self.keys@, k);
                    if k == team@ {
                        assert(self.keys@[n]@ == k);
                        assert(j == n);
                        assert(texts(self.marks@[j]@) =~= new_marks);
                    } else {
                        let oj = key_index(old_keys, k);
                        assert(self.keys@[oj] == old_keys[oj]);
                        assert(j == oj);
                        assert(self.marks@[j] == old_marks[oj]);
                    }
                }
                assert(self@.dom() =~= old(self)@.insert(team@, new_marks).dom());
                assert(self@ =~= old(self)@.insert(team@, new_marks));
            },
        }
    }

    /// Makes sure `team` has an entry, empty if it had none.
    pub fn ensure_team(&mut self, team: &str)
        requires
            old(self).wf(),
        ensures
            final(self).wf(),
            final(self)@ == (if old(self)@.dom().contains(team@) { old(self)@ } else {
                old(self)@.insert(team@, Seq::empty())
            }),
    {
        if self.contains_key(team) {
            return;
        }
        let ghost old_keys = self.keys@;
        let ghost old_marks = self.marks@;
        let ghost target = old(self)@.insert(team@, Seq::<Seq<char>>::empty());
        self.keys.push(team.to_string());
        self.marks.push(Vec::new());
        let ghost n = old_keys.len() as int;
        assert forall|k: Seq<char>| #[trigger] self@.dom().contains(k) == target.dom().contains(k) by {
            if old(self)@.dom().contains(k) {
                let j = choose|j: int| 0 <= j < old_keys.len() && old_keys[j]@ == k;
                assert(self.keys@[j] == old_keys[j]);
            }
            if k == team@ {
                assert(self.keys@[n]@ == k);
            }
            if self@.dom().contains(k) {
                let j = choose|j: int| 0 <= j < self.keys@.len() && self.keys@[j]@ == k;
                if j < n {
                    assert(self.keys@[j] == old_keys[j]);
                }
            }
        }
        assert forall|k: Seq<char>| #[trigger] self@.dom().contains(k) implies self@[k] == target[k] by {
            let j = key_index(self.keys@, k);
            if k == team@ {
                assert(self.keys@[n]@ == k);
                assert(j == n);
                assert(texts(self.marks@[j]@) =~= Seq::<Seq<char>>::empty());
            } else {
                let oj = key_index(old_keys, k);
                assert(self.keys@[oj] == old_keys[oj]);
                assert(j == oj);
                assert(self.marks@[j] == old_marks[oj]);
            }
        }
        assert(self@.dom() =~= target.dom());
        assert(self@ =~= target);
    }
}

/// Per-team round results: team id to that team's result.
pub struct TeamResults {
    pub keys: Vec<String>,
    pub results: Vec<String>,
}

impl View for TeamResults {
    type V = Map<Seq<char>, Seq<char>>;

    open spec fn view(&self) -> Map<Seq<char>, Seq<char>> {
        Map::new(
            |k: Seq<char>| text_set(self.keys@).contains(k),
            |k: Seq<char>| self.results@[key_index(self.keys@, k)]@,
        )
    }
}

impl TeamResults {
    pub open spec fn wf(&self) -> bool {
        &&& distinct_texts(self.keys@)
        &&& self.keys@.len() == self.results@.len()
    }

    pub fn new() -> (r: TeamResults)
        ensures
            r.wf(),
            r@ == Map::<Seq<char>, Seq<char>>::empty(),
    {
        let r = TeamResults { keys: Vec::new(), results: Vec::new() };
        assert(r@ =~= Map::<Seq<char>, Seq<char>>::empty());
        r
    }

    fn index_of(&self, team: &str) -> (r: Option<usize>)
        requires
            self.wf(),
        ensures
            match r {
                Some(i) => i < self.keys@.len() && self.keys@[i as int]@ == team@
                    && key_index(self.keys@, team@) == i,
                None => !self@.dom().contains(team@),
            },
    {
        let mut i: usize = 0;
        while i < self.keys.len()
            invariant
                self.wf(),
                i <= self.keys@.len(),
                forall|j: int| 0 <= j < i ==> self.keys@[j]@ != team@,
            decreases self.keys@.len() - i,
        {
            if crate::text::text_eq(self.keys[i].as_str(), team) {
                let ghost k = key_index(self.keys@, team@);
                assert(text_set(self.keys@).contains(team@));
                assert(k == i);
                return Some(i);
            }
            i = i + 1;
        }
        None
    }

    pub fn contains_key(&self, team: &str) -> (r: bool)
        requires
            self.wf(),
        ensures
            r == self@.dom().contains(team@),
    {
        match self.index_of(team) {
            Some(_) => true,
            None => false,
        }
    }

    /// Sets the result of `team`, replacing any earlier one.
    pub fn insert(&mut self, team: &str, result: String)
        requires
            old(self).wf(),
        ensures
            final(self).wf(),
            final(self)@ == old(self)@.insert(team@, result@),
    {
        let ghost target = old(self)@.insert(team@, result@);
        match self.index_of(team) {
            Some(i) => {
                self.results.set(i, result);
                assert forall|k: Seq<char>| #[trigger] self@.dom().contains(k) implies self@[k] == target[k] by {
                    let j = key_index(self.keys@, k);
                    if k == team@ {
                        assert(j == i);
                    } else {
                        assert(j != i);
                    }
                }
                assert(self@.dom() =~= target.dom());
                assert(self@ =~= target);
            },
            None => {
                let ghost old_keys = self.keys@;
                let ghost old_results = self.results@;
                self.keys.push(team.to_string());
                self.results.push(result);
                let ghost n = old_keys.len() as int;
                assert forall|k: Seq<char>| #[trigger] self@.dom().contains(k) == target.dom().contains(k) by {
                    if old(self)@.dom().contains(k) {
                        let j = choose|j: int| 0 <= j < old_keys.len() && old_keys[j]@ == k;
                        assert(self.keys@[j] == old_keys[j]);
                    }
                    if k == team@ {
                        assert(self.keys@[n]@ == k);
                    }
                    if self@.dom().contains(k) {
                        let j = choose|j: int| 0 <= j < self.keys@.len() && self.keys@[j]@ == k;
                        if j < n {
                            assert(self.keys@[j] == old_keys[j]);
                        }
                    }
                }
                assert forall|k: Seq<char>| #[trigger] self@.dom().contains(k) implies self@[k] == target[k] by {
                    let j = key_index(self.keys@, k);
                    if k == team@ {
                        assert(self.keys@[n]@ == k);
                        assert(j == n);
                    } else {
                        let oj = key_index(old_keys, k);
                        assert(self.keys@[oj] == old_keys[oj]);
                        assert(j == oj);
                        assert(self.results@[j] == old_results[oj]);
                    }
                }
                assert(self@.dom() =~= target.dom());
                assert(self@ =~= target);
            },
        }
    }

    /// Forgets the result of `team`.
    pub fn remove(&mut self, team: &str)
        requires
            old(self).wf(),
        ensures
            final(self).wf(),
            final(self)@ == old(self)@.remove(team@),
    {
        let ghost target = old(self)@.remove(team@);
        match self.index_of(team) {
            None => {
                assert(self@ =~= target);
            },
            Some(i) => {
                let ghost old_keys = self.keys@;
                let ghost old_results = self.results@;
                self.keys.remove(i);
                self.results.remove(i);
                assert forall|k: Seq<char>| #[trigger] self@.dom().contains(k) == target.dom().contains(k) by {
                    if target.dom().contains(k) {
                        let j = choose|j: int| 0 <= j < old_keys.len() && old_keys[j]@ == k;
                        assert(j != i);
                        if j < i {
                            assert(self.keys@[j] == old_keys[j]);
                        } else {
                            assert(self.keys@[j - 1] == old_keys[j]);
                        }
                    }
                    if self@.dom().contains(k) {
                        let j = choose|j: int| 0 <= j < self.keys@.len() && self.keys@[j]@ == k;
                        if j < i {
                            assert(self.keys@[j] == old_keys[j]);
                        } else {
                            assert(self.keys@[j] == old_keys[j + 1]);
                        }
                    }
                }
                assert forall|k: Seq<char>| #[trigger] self@.dom().contains(k) implies self@[k] == target[k] by {
                    let j = key_index(self.keys@, k);
                    let oj = key_index(old_keys, k);
                    if oj < i {
                        assert(self.keys@[oj] == old_keys[oj]);
                        assert(j == oj);
                        assert(self.results@[j] == old_results[oj]);
                    } else {
                        assert(oj != i);
                        assert(self.keys@[oj - 1] == old_keys[oj]);
                        assert(j == oj - 1);
                        assert(self.results@[j] == old_results[oj]);
                    }
                }
                assert(self@.dom() =~= target.dom());
                assert(self@ =~= target);
            },
        }
    }
}

/// A map from texts to values, in insertion order.
pub struct TextMap<V> {
    pub keys: Vec<String>,
    pub vals: Vec<V>,
}

impl<V> View for TextMap<V> {
    type V = Map<Seq<char>, V>;

    open spec fn view(&self) -> Map<Seq<char>, V> {
        Map::new(
            |k: Seq<char>| text_set(self.keys@).contains(k),
            |k: Seq<char>| self.vals@[key_index(self.keys@, k)],
        )
    }
}

impl<V> TextMap<V> {
    pub open spec fn wf(&self) -> bool {
        &&& distinct_texts(self.keys@)
        &&& self.keys@.len() == self.vals@.len()
    }

    pub fn new() -> (r: TextMap<V>)
        ensures
            r.wf(),
            r@ == Map::<Seq<char>, V>::empty(),
    {
        let r = TextMap { keys: Vec::new(), vals: Vec::new() };
        assert(r@ =~= Map::<Seq<char>, V>::empty());
        r
    }

    pub fn index_of(&self, key: &str) -> (r: Option<usize>)
        requires
            self.wf(),
        ensures
            match r {
                Some(i) => i < self.keys@.len() && self.keys@[i as int]@ == key@
                    && key_index(self.keys@, key@) == i && self@.dom().contains(key@)
                    && self@[key@] == self.vals@[i as int],
                None => !self@.dom().contains(key@),
            },
    {
        let mut i: usize = 0;
        while i < self.keys.len()
            invariant
                self.wf(),
                i <= self.keys@.len(),
                forall|j: int| 0 <= j < i ==> self.keys@[j]@ != key@,
            decreases self.keys@.len() - i,
        {
            if crate::text::text_eq(self.keys[i].as_str(), key) {
                let ghost k = key_index(self.keys@, key@);
                assert(text_set(self.keys@).contains(key@));
                assert(k == i);
                return Some(i);
            }
            i = i + 1;
        }
        None
    }

    pub fn get(&self, key: &str) -> (r: Option<&V>)
        requires
            self.wf(),
        ensures
            match r {
                Some(v) => self@.dom().contains(key@) && self@[key@] == *v,
                None => !self@.dom().contains(key@),
            },
    {
        match self.index_of(key) {
            Some(i) => Some(&self.vals[i]),
            None => None,
        }
    }

    /// Removes `key` and its value, if present.
    pub fn remove(&mut self, key: &str)
        requires
            old(self).wf(),
        ensures
            final(self).wf(),
            final(self)@ == old(self)@.remove(key@),
    {
        let ghost target = old(self)@.remove(key@);
        match self.index_of(key) {
            None => {
                assert(self@ =~= target);
            },
            Some(i) => {
                let ghost ok = self.keys@;
                let ghost ov = self.vals@;
                self.keys.remove(i);
                self.vals.remove(i);
                let ghost nk = self.keys@;
                let ghost nv = self.vals@;
                assert(distinct_texts(nk)) by {
                    assert forall|a: int, b: int| 0 <= a < nk.len() && 0 <= b < nk.len() && a != b implies nk[a]@ != nk[b]@ by {
                        let oa = if a < i { a } else { a + 1 };
                        let ob = if b < i { b } else { b + 1 };
                        assert(nk[a] == ok[oa] && nk[b] == ok[ob]);
                    }
                }
                assert forall|k: Seq<char>| #[trigger] self@.dom().contains(k) == target.dom().contains(k) by {
                    if target.dom().contains(k) {
                        let j = choose|j: int| 0 <= j < ok.len() && ok[j]@ == k;
                        assert(j != i);
                        if j < i {
                            assert(nk[j] == ok[j]);
                        } else {
                            assert(nk[j - 1] == ok[j]);
                        }
                    }
                    if self@.dom().contains(k) {
                        let j = choose|j: int| 0 <= j < nk.len() && nk[j]@ == k;
                        let oj = if j < i { j } else { j + 1 };
                        assert(nk[j] == ok[oj]);
                        assert(oj != i);
                    }
                }
                assert forall|k: Seq<char>| #[trigger] self@.dom().contains(k) implies self@[k] == target[k] by {
                    let j = key_index(nk, k);
                    let oj = if j < i { j } else { j + 1 };
                    assert(nk[j] == ok[oj]);
                    assert(nv[j] == ov[oj]);
                    let oi = key_index(ok, k);
                    assert(ok[oi]@ == k);
                    assert(oi == oj);
                }
                assert(self@ =~= target);
            },
        }
    }

    /// Sets the value of `key`, replacing any earlier one.
    pub fn insert(&mut self, key: String, value: V)
        requires
            old(self).wf(),
        ensures
            final(self).wf(),
            final(self)@ == old(self)@.insert(key@, value),
    {
        let ghost target = old(self)@.insert(key@, value);
        match self.index_of(key.as_str()) {
            Some(i) => {
                self.vals.set(i, value);
                assert forall|k: Seq<char>| #[trigger] self@.dom().contains(k) implies self@[k] == target[k] by {
                    let j = key_index(self.keys@, k);
                    if k == key@ {
                        assert(j == i);
                    } else {
                        assert(j != i);
                    }
                }
                assert(self@.dom() =~= target.dom());
                assert(self@ =~= target);
            },
            None => {
                let ghost old_keys = self.keys@;
                let ghost old_vals = self.vals@;
                let ghost kv = key@;
                self.keys.push(key);
                self.vals.push(value);
                let ghost n = old_keys.len() as int;
                assert forall|k: Seq<char>| #[trigger] self@.dom().contains(k) == target.dom().contains(k) by {
                    if old(self)@.dom().contains(k) {
                        let j = choose|j: int| 0 <= j < old_keys.len() && old_keys[j]@ == k;
                        assert(self.keys@[j] == old_keys[j]);
                    }
                    if k == kv {
                        assert(self.keys@[n]@ == k);
                    }
                    if self@.dom().contains(k) {
                        let j = choose|j: int| 0 <= j < self.keys@.len() && self.keys@[j]@ == k;
                        if j < n {
                            assert(self.keys@[j] == old_keys[j]);
                        }
                    }
                }
                assert forall|k: Seq<char>| #[trigger] self@.dom().contains(k) implies self@[k] == target[k] by {
                    let j = key_index(self.keys@, k);
                    if k == kv {
                        assert(self.keys@[n]@ == k);
                        assert(j == n);
                    } else {
                        let oj = key_index(old_keys, k);
                        assert(self.keys@[oj] == old_keys[oj]);
                        assert(j == oj);
                        assert(self.vals@[j] == old_vals[oj]);
                    }
                }
                assert(self@.dom() =~= target.dom());
                assert(self@ =~= target);
            },
        }
    }
}

} // verus!

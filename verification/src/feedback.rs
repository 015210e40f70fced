//! The feedback on a guess: how the guessed character compares with the answer in
//! appearances, years and tags.
use vstd::prelude::*;
use crate::catalog::{compare_count, compare_year, count_feedback, push_unique, with_unique, year_feedback};
use crate::gameplay::details::texts_contain;
use crate::keyed::texts;
use crate::settings::GameSettings;

verus! {

/// The entries of `g` that `a` holds (`inside`) or lacks (`!inside`), in the order of `g`.
pub open spec fn kept_by(g: Seq<Seq<char>>, a: Seq<Seq<char>>, inside: bool) -> Seq<Seq<char>>
    decreases g.len(),
{
    if g.len() == 0 {
        Seq::empty()
    } else {
        let p = kept_by(g.drop_last(), a, inside);
        if a.contains(g.last()) == inside { p.push(g.last()) } else { p }
    }
}

/// The entries of `g` that `a` holds too, in the order of `g`.
pub open spec fn shared_with(g: Seq<Seq<char>>, a: Seq<Seq<char>>) -> Seq<Seq<char>> {
    kept_by(g, a, true)
}

/// The entries of `g` that `a` lacks, in the order of `g`.
pub open spec fn missing_from(g: Seq<Seq<char>>, a: Seq<Seq<char>>) -> Seq<Seq<char>> {
    kept_by(g, a, false)
}

/// At most the first `n` entries of `s`.
pub open spec fn first_n(s: Seq<Seq<char>>, n: int) -> Seq<Seq<char>> {
    if s.len() <= n { s } else { s.take(n) }
}

/// The tags shown for a guess out of one source: the shared ones first, then the others,
/// `limit` at most.
pub open spec fn picked_tags(g: Seq<Seq<char>>, a: Seq<Seq<char>>, limit: int) -> Seq<Seq<char>> {
    let shared = first_n(shared_with(g, a), limit);
    shared + first_n(missing_from(g, a), limit - shared.len())
}

proof fn lemma_kept_prefix(g: Seq<Seq<char>>, a: Seq<Seq<char>>, inside: bool, i: int)
    requires
        0 <= i <= g.len(),
    ensures
        kept_by(g.take(i), a, inside).len() <= kept_by(g, a, inside).len(),
        forall|k: int| 0 <= k < kept_by(g.take(i), a, inside).len()
            ==> #[trigger] kept_by(g.take(i), a, inside)[k] == kept_by(g, a, inside)[k],
    decreases g.len() - i,
{
    if i == g.len() {
        assert(g.take(i) =~= g);
    } else {
        lemma_kept_prefix(g, a, inside, i + 1);
        assert(g.take(i + 1).drop_last() =~= g.take(i));
        let p = kept_by(g.take(i), a, inside);
        let q = kept_by(g.take(i + 1), a, inside);
        assert forall|k: int| 0 <= k < p.len() implies #[trigger] p[k] == kept_by(g, a, inside)[k] by {
            assert(p[k] == q[k]);
        }
    }
}

/// Every shared entry lies in both lists; every missing one lies in the guess and not in
/// the answer.
pub proof fn law_shared_entries_lie_in_both(g: Seq<Seq<char>>, a: Seq<Seq<char>>)
    ensures
        forall|k: int| 0 <= k < shared_with(g, a).len()
            ==> g.contains(#[trigger] shared_with(g, a)[k]) && a.contains(shared_with(g, a)[k]),
        forall|k: int| 0 <= k < missing_from(g, a).len()
            ==> g.contains(#[trigger] missing_from(g, a)[k]) && !a.contains(missing_from(g, a)[k]),
    decreases g.len(),
{
    if g.len() > 0 {
        let init = g.drop_last();
        law_shared_entries_lie_in_both(init, a);
        assert forall|k: int| 0 <= k < shared_with(g, a).len() implies
            g.contains(#[trigger] shared_with(g, a)[k]) && a.contains(shared_with(g, a)[k]) by {
            let p = shared_with(init, a);
            if k < p.len() {
                let x = p[k];
                assert(init.contains(x));
                let w = choose|w: int| 0 <= w < init.len() && init[w] == x;
                assert(g[w] == x);
            } else {
                assert(g[g.len() - 1] == g.last());
            }
        }
        assert forall|k: int| 0 <= k < missing_from(g, a).len() implies
            g.contains(#[trigger] missing_from(g, a)[k]) && !a.contains(missing_from(g, a)[k]) by {
            let p = missing_from(init, a);
            if k < p.len() {
                let x = p[k];
                assert(init.contains(x));
                let w = choose|w: int| 0 <= w < init.len() && init[w] == x;
                assert(g[w] == x);
            } else {
                assert(g[g.len() - 1] == g.last());
            }
        }
    }
}

/// The tags shown from one source never exceed its limit, and the shared ones come first.
pub proof fn law_picked_tags_within_limit(g: Seq<Seq<char>>, a: Seq<Seq<char>>, limit: int)
    requires
        0 <= limit,
    ensures
        picked_tags(g, a, limit).len() <= limit,
        picked_tags(g, a, limit).take(first_n(shared_with(g, a), limit).len() as int)
            == first_n(shared_with(g, a), limit),
{
    let shared = first_n(shared_with(g, a), limit);
    assert(picked_tags(g, a, limit).take(shared.len() as int) =~= shared);
}

/// The entries of `g` that `a` holds, in order.
fn shared_tags(g: &Vec<String>, a: &Vec<String>) -> (r: Vec<String>)
    ensures
        texts(r@) == shared_with(texts(g@), texts(a@)),
{
    let mut r: Vec<String> = Vec::new();
    let mut i: usize = 0;
    assert(texts(g@).take(0) =~= Seq::<Seq<char>>::empty());
    while i < g.len()
        invariant
            i <= g@.len(),
            texts(r@) == shared_with(texts(g@).take(i as int), texts(a@)),
        decreases g@.len() - i,
    {
        assert(texts(g@).take(i + 1).drop_last() =~= texts(g@).take(i as int));
        assert(texts(g@).take(i + 1).last() == g@[i as int]@);
        if texts_contain(a, g[i].as_str()) {
            let ghost before = texts(r@);
            r.push(g[i].clone());
            assert(texts(r@) =~= before.push(g@[i as int]@));
        }
        i = i + 1;
    }
    assert(texts(g@).take(g@.len() as int) =~= texts(g@));
    r
}

/// The tags of one source for a guess, and the shared ones among them.
fn pick_tags(g: &Vec<String>, a: &Vec<String>, limit: usize) -> (r: (Vec<String>, Vec<String>))
    ensures
        texts(r.0@) == picked_tags(texts(g@), texts(a@), limit as int),
        texts(r.1@) == first_n(shared_with(texts(g@), texts(a@)), limit as int),
{
    let ghost gs = texts(g@);
    let ghost av = texts(a@);
    let mut picked: Vec<String> = Vec::new();
    let mut i: usize = 0;
    assert(gs.take(0) =~= Seq::<Seq<char>>::empty());
    while i < g.len()
        invariant
            i <= g@.len(),
            gs == texts(g@),
            av == texts(a@),
            texts(picked@) == first_n(shared_with(gs.take(i as int), av), limit as int),
        decreases g@.len() - i,
    {
        assert(gs.take(i + 1).drop_last() =~= gs.take(i as int));
        assert(gs.take(i + 1).last() == g@[i as int]@);
        let ghost p = shared_with(gs.take(i as int), av);
        if texts_contain(a, g[i].as_str()) {
            if picked.len() < limit {
                let ghost before = texts(picked@);
                picked.push(g[i].clone());
                assert(texts(picked@) =~= before.push(g@[i as int]@));
                assert(first_n(p.push(g@[i as int]@), limit as int) == p.push(g@[i as int]@));
            } else {
                assert(p.push(g@[i as int]@).take(limit as int) =~= p.take(limit as int));
            }
        }
        i = i + 1;
    }
    assert(gs.take(g@.len() as int) =~= gs);
    let shared = crate::keyed::clone_texts(&picked);
    let ghost s = texts(picked@);
    assert(s.len() <= limit);
    let mut j: usize = 0;
    assert(gs.take(g@.len() as int) =~= gs);
    assert(missing_from(gs.take(0), av) =~= Seq::<Seq<char>>::empty());
    assert(s + first_n(Seq::<Seq<char>>::empty(), limit - s.len()) =~= s);
    while j < g.len()
        invariant_except_break
            j <= g@.len(),
            gs == texts(g@),
            av == texts(a@),
            s.len() <= limit,
            gs.take(g@.len() as int) == gs,
            texts(picked@) == s + first_n(missing_from(gs.take(j as int), av), limit - s.len()),
        ensures
            texts(picked@) == s + first_n(missing_from(gs, av), limit - s.len()),
        decreases g@.len() - j,
    {
        let ghost m = missing_from(gs.take(j as int), av);
        if picked.len() >= limit {
            proof {
                assert(texts(picked@).len() == picked@.len());
                assert(first_n(m, limit - s.len()).len() == limit - s.len());
                lemma_kept_prefix(gs, av, false, j as int);
                assert(first_n(missing_from(gs, av), limit - s.len()) =~= first_n(m, limit - s.len()));
            }
            break;
        }
        assert(gs.take(j + 1).drop_last() =~= gs.take(j as int));
        assert(gs.take(j + 1).last() == g@[j as int]@);
        if !texts_contain(a, g[j].as_str()) {
            let ghost before = texts(picked@);
            picked.push(g[j].clone());
            assert(texts(picked@) =~= before.push(g@[j as int]@));
            assert(first_n(m, limit - s.len()) == m);
            assert(first_n(m.push(g@[j as int]@), limit - s.len()) == m.push(g@[j as int]@));
            assert(texts(picked@) =~= s + first_n(m.push(g@[j as int]@), limit - s.len()));
        }
        j = j + 1;
    }
    (picked, shared)
}

/// The tags shown for a guess when tags of works, of the character and of voice actors are
/// compared: each source's picks, joined without repeats.
pub open spec fn common_guess_tags(
    gs: Seq<Seq<char>>, as_: Seq<Seq<char>>, gc: Seq<Seq<char>>, ac: Seq<Seq<char>>,
    gv: Seq<Seq<char>>, sn: int, cn: int,
) -> Seq<Seq<char>> {
    with_unique(with_unique(with_unique(Seq::empty(), picked_tags(gs, as_, sn)), picked_tags(gc, ac, cn)), gv)
}

/// The shared tags of each source, joined without repeats.
pub open spec fn common_shared_tags(
    gs: Seq<Seq<char>>, as_: Seq<Seq<char>>, gc: Seq<Seq<char>>, ac: Seq<Seq<char>>,
    gv: Seq<Seq<char>>, av: Seq<Seq<char>>, sn: int, cn: int,
) -> Seq<Seq<char>> {
    with_unique(
        with_unique(with_unique(Seq::empty(), first_n(shared_with(gs, as_), sn)), first_n(shared_with(gc, ac), cn)),
        shared_with(gv, av),
    )
}

/// What the comparison reads of a character.
pub struct CharacterFacts {
    pub id: i64,
    pub appearances: Vec<String>,
    pub latest_appearance: i64,
    pub earliest_appearance: i64,
    /// Tags of its works as the payload lists them.
    pub meta_tags: Vec<String>,
    /// The raw tags of its works.
    pub raw_tags: Vec<String>,
    /// The tags of the character itself.
    pub character_tags: Vec<String>,
    /// Its voice actors.
    pub anime_vas: Vec<String>,
}

/// The feedback on a guess, but for gender, popularity and rating.
pub struct GuessFeedback {
    pub is_correct: bool,
    pub is_partial_correct: bool,
    pub shared_appearances: Vec<String>,
    pub appearances_count: &'static str,
    pub meta_tags_guess: Vec<String>,
    pub meta_tags_shared: Vec<String>,
    pub latest_appearance: &'static str,
    pub earliest_appearance: &'static str,
}

/// The tags shown for a guess and the shared ones, by the common-tags rule.
pub fn common_tag_feedback(guess: &CharacterFacts, answer: &CharacterFacts, settings: &GameSettings) -> (r: (Vec<String>, Vec<String>))
    ensures
        texts(r.0@) == common_guess_tags(
            texts(guess.raw_tags@), texts(answer.raw_tags@), texts(guess.character_tags@),
            texts(answer.character_tags@), texts(guess.anime_vas@),
            settings.subject_tag_num as int, settings.character_tag_num as int,
        ),
        texts(r.1@) == common_shared_tags(
            texts(guess.raw_tags@), texts(answer.raw_tags@), texts(guess.character_tags@),
            texts(answer.character_tags@), texts(guess.anime_vas@), texts(answer.anime_vas@),
            settings.subject_tag_num as int, settings.character_tag_num as int,
        ),
{
    let (subject_tags, shared_subject_tags) = pick_tags(&guess.raw_tags, &answer.raw_tags, settings.subject_tag_num);
    let (character_tags, shared_character_tags) = pick_tags(&guess.character_tags, &answer.character_tags, settings.character_tag_num);
    let shared_cv_tags = shared_tags(&guess.anime_vas, &answer.anime_vas);
    let mut final_guess: Vec<String> = Vec::new();
    assert(texts(final_guess@) =~= Seq::<Seq<char>>::empty());
    push_unique(&mut final_guess, subject_tags);
    push_unique(&mut final_guess, character_tags);
    push_unique(&mut final_guess, crate::keyed::clone_texts(&guess.anime_vas));
    let mut final_shared: Vec<String> = Vec::new();
    assert(texts(final_shared@) =~= Seq::<Seq<char>>::empty());
    push_unique(&mut final_shared, shared_subject_tags);
    push_unique(&mut final_shared, shared_character_tags);
    push_unique(&mut final_shared, shared_cv_tags);
    (final_guess, final_shared)
}

/// Compares a guess with the answer. Gender, popularity and rating are compared by the caller.
pub fn build_feedback(guess: &CharacterFacts, answer: &CharacterFacts, settings: &GameSettings) -> (r: GuessFeedback)
    requires
        guess.appearances@.len() <= i64::MAX,
        answer.appearances@.len() <= i64::MAX,
        i64::MIN <= guess.latest_appearance - answer.latest_appearance <= i64::MAX,
        i64::MIN <= guess.earliest_appearance - answer.earliest_appearance <= i64::MAX,
    ensures
        r.is_correct == (guess.id != 0 && guess.id == answer.id),
        texts(r.shared_appearances@) == shared_with(texts(guess.appearances@), texts(answer.appearances@)),
        r.is_partial_correct == (guess.id != answer.id && r.shared_appearances@.len() > 0),
        r.appearances_count@ == count_feedback(guess.appearances@.len() as int, answer.appearances@.len() as int),
        settings.common_tags ==> texts(r.meta_tags_guess@) == common_guess_tags(
            texts(guess.raw_tags@), texts(answer.raw_tags@), texts(guess.character_tags@),
            texts(answer.character_tags@), texts(guess.anime_vas@),
            settings.subject_tag_num as int, settings.character_tag_num as int,
        ),
        settings.common_tags ==> texts(r.meta_tags_shared@) == common_shared_tags(
            texts(guess.raw_tags@), texts(answer.raw_tags@), texts(guess.character_tags@),
            texts(answer.character_tags@), texts(guess.anime_vas@), texts(answer.anime_vas@),
            settings.subject_tag_num as int, settings.character_tag_num as int,
        ),
        !settings.common_tags ==> texts(r.meta_tags_guess@) == texts(guess.meta_tags@),
        !settings.common_tags ==> texts(r.meta_tags_shared@) == shared_with(texts(guess.meta_tags@), texts(answer.meta_tags@)),
        r.latest_appearance@ == year_feedback(guess.latest_appearance as int, answer.latest_appearance as int),
        r.earliest_appearance@ == year_feedback(guess.earliest_appearance as int, answer.earliest_appearance as int),
{
    let shared_appearances = shared_tags(&guess.appearances, &answer.appearances);
    let guess_count = guess.appearances.len() as i64;
    let answer_count = answer.appearances.len() as i64;
    let appearances_count = compare_count(guess_count, answer_count);
    let (meta_tags_guess, meta_tags_shared) = if settings.common_tags {
        common_tag_feedback(guess, answer, settings)
    } else {
        (crate::keyed::clone_texts(&guess.meta_tags), shared_tags(&guess.meta_tags, &answer.meta_tags))
    };
    let is_partial_correct = guess.id != answer.id && shared_appearances.len() > 0;
    GuessFeedback {
        is_correct: guess.id != 0 && guess.id == answer.id,
        is_partial_correct,
        shared_appearances,
        appearances_count,
        meta_tags_guess,
        meta_tags_shared,
        latest_appearance: compare_year(guess.latest_appearance, answer.latest_appearance),
        earliest_appearance: compare_year(guess.earliest_appearance, answer.earliest_appearance),
    }
}

} // verus!

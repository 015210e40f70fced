//! Score formulas for winners and answer setters.
use vstd::prelude::*;

verus! {

pub struct ScoreResult {
    pub total_score: i32,
    pub guess_count: i32,
    pub is_big_win: bool,
    pub bonuses: ScoreBonuses,
}

#[derive(Clone, Copy)]
pub struct ScoreBonuses {
    pub big_win: i32,
    pub quick_guess: i32,
}

/// The crown that marks a big win in a guess record.
pub open spec fn crown() -> char { '\u{1F451}' }

/// Characters that close a guess record rather than stand for a guess:
/// victory hand, crown, skull, white flag, emoji selector, trophy.
pub open spec fn is_end_mark(c: char) -> bool {
    c == '\u{270C}' || c == '\u{1F451}' || c == '\u{1F480}' || c == '\u{1F3F3}' || c
        == '\u{FE0F}' || c == '\u{1F3C6}'
}

/// Number of characters of `s` that are not end marks.
pub open spec fn guess_chars(s: Seq<char>) -> nat
    decreases s.len(),
{
    if s.len() == 0 {
        0
    } else {
        guess_chars(s.drop_last()) + if is_end_mark(s.last()) { 0nat } else { 1nat }
    }
}

/// `ceil(n / 2)` over the integers.
pub open spec fn half_up(n: int) -> int {
    if n >= 0 { (n + 1) / 2 } else { -((-n) / 2) }
}

/// Rust's `/ 2` on integers: the quotient rounded toward zero.
pub open spec fn half_toward_zero(n: int) -> int {
    if n >= 0 { n / 2 } else { -((-n) / 2) }
}

/// The quick-guess bonus of a winner that needed `guess_count` guesses out of `total_rounds`.
pub open spec fn quick_guess_bonus(guess_count: int, total_rounds: int) -> int {
    if 2 <= guess_count <= 3 {
        2
    } else if 4 <= guess_count && guess_count <= half_up(total_rounds) {
        1
    } else {
        0
    }
}

/// Score of a winner: the base score, plus 12 for a big win, or else plus the quick-guess bonus.
pub open spec fn winner_total(guess_count: int, is_big_win: bool, base_score: int, total_rounds: int) -> int {
    if is_big_win {
        base_score + 12
    } else {
        base_score + quick_guess_bonus(guess_count, total_rounds)
    }
}

pub fn half_up_i32(n: i32) -> (r: i32)
    ensures
        r == half_up(n as int),
{
    if n >= 0 {
        ((n as i64 + 1) / 2) as i32
    } else {
        let m: i64 = -(n as i64);
        (-(m / 2)) as i32
    }
}

pub fn half_toward_zero_i32(n: i32) -> (r: i32)
    ensures
        r == half_toward_zero(n as int),
{
    if n >= 0 {
        n / 2
    } else {
        let m: i64 = -(n as i64);
        (-(m / 2)) as i32
    }
}

/// Winner score from a guess count and big-win flag.
pub fn winner_score(guess_count: i32, is_big_win: bool, base_score: i32, total_rounds: i32) -> (r: ScoreResult)
    requires
        base_score <= i32::MAX - 12,
    ensures
        r.total_score == winner_total(guess_count as int, is_big_win, base_score as int, total_rounds as int),
        r.guess_count == guess_count,
        r.is_big_win == is_big_win,
        r.bonuses.big_win == (if is_big_win { 12int } else { 0int }),
        r.bonuses.quick_guess == (if is_big_win { 0int } else { quick_guess_bonus(guess_count as int, total_rounds as int) }),
{
    let mut total_score = base_score;
    let mut bonuses = ScoreBonuses { big_win: 0, quick_guess: 0 };
    if is_big_win {
        bonuses.big_win = 12;
        total_score = total_score + bonuses.big_win;
    }
    if !is_big_win {
        if 2 <= guess_count && guess_count <= 3 {
            bonuses.quick_guess = 2;
        } else {
            let half_rounds = half_up_i32(total_rounds);
            if guess_count >= 4 && guess_count <= half_rounds {
                bonuses.quick_guess = 1;
            }
        }
        total_score = total_score + bonuses.quick_guess;
    }
    ScoreResult { total_score, guess_count, is_big_win, bonuses }
}

/// Whether `s` holds the crown.
pub fn has_crown(s: &str) -> (r: bool)
    ensures
        r == s@.contains(crown()),
{
    let cs = crate::text::chars_of(s);
    let mut i: usize = 0;
    while i < cs.len()
        invariant
            i <= cs@.len(),
            cs@ == s@,
            forall|j: int| 0 <= j < i ==> cs@[j] != crown(),
        decreases cs@.len() - i,
    {
        if cs[i] == '\u{1F451}' {
            return true;
        }
        i = i + 1;
    }
    false
}

/// Number of characters of `s` that stand for guesses (end marks left out).
pub fn count_guess_chars(s: &str) -> (r: usize)
    ensures
        r == guess_chars(s@),
{
    let cs = crate::text::chars_of(s);
    let mut n: usize = 0;
    let mut i: usize = 0;
    while i < cs.len()
        invariant
            i <= cs@.len(),
            cs@ == s@,
            n == guess_chars(cs@.take(i as int)),
            n <= i,
        decreases cs@.len() - i,
    {
        assert(cs@.take(i + 1).drop_last() =~= cs@.take(i as int));
        let c = cs[i];
        if !(c == '\u{270C}' || c == '\u{1F451}' || c == '\u{1F480}' || c == '\u{1F3F3}' || c
            == '\u{FE0F}' || c == '\u{1F3C6}') {
            n = n + 1;
        }
        i = i + 1;
    }
    assert(cs@.take(cs@.len() as int) =~= cs@);
    n
}

/// Winner score from a guess record: a crown in the record makes a big win, and the guess
/// count is the number of characters of the record that are not end marks.
pub fn calculate_winner_score(guesses: &str, base_score: i32, total_rounds: i32) -> (r: ScoreResult)
    requires
        base_score <= i32::MAX - 12,
    ensures
        r.is_big_win == guesses@.contains(crown()),
        r.guess_count == guess_chars(guesses@) as i32,
        r.total_score == winner_total(r.guess_count as int, r.is_big_win, base_score as int, total_rounds as int),
        r.bonuses.big_win == (if r.is_big_win { 12int } else { 0int }),
        r.bonuses.quick_guess == (if r.is_big_win { 0int } else { quick_guess_bonus(r.guess_count as int, total_rounds as int) }),
{
    let is_big_win = has_crown(guesses);
    let guess_count = count_guess_chars(guesses) as i32;
    winner_score(guess_count, is_big_win, base_score, total_rounds)
}

/// Score change of the answer setter in a standard game.
pub open spec fn setter_score_value(winner_guess_count: int, has_big_winner: bool, big_winner_score: int, total_rounds: int) -> int {
    if has_big_winner {
        -(if half_toward_zero(big_winner_score) > 1 { half_toward_zero(big_winner_score) } else { 1 })
    } else if winner_guess_count > 0 {
        if winner_guess_count <= 3 {
            -1
        } else if 2 * winner_guess_count > total_rounds {
            1
        } else {
            0
        }
    } else {
        -1
    }
}

/// Setter score from the winner's guess count and whether the winner won big.
pub fn setter_score(winner_guess_count: i32, has_big_winner: bool, big_winner_score: i32, total_rounds: i32) -> (r: i32)
    ensures
        r == setter_score_value(winner_guess_count as int, has_big_winner, big_winner_score as int, total_rounds as int),
{
    if has_big_winner {
        let half = half_toward_zero_i32(big_winner_score);
        let penalty = if half > 1 { half } else { 1 };
        return -penalty;
    }
    if winner_guess_count > 0 {
        if winner_guess_count <= 3 {
            return -1;
        }
        if 2 * (winner_guess_count as i64) > total_rounds as i64 {
            return 1;
        }
        return 0;
    }
    -1
}

/// Setter score of a standard game; a crown in the winner's guess record marks a big winner.
pub fn calculate_setter_score(
    winner_guesses: &str,
    winner_guess_count: i32,
    big_winner_score: i32,
    total_rounds: i32,
) -> (r: i32)
    ensures
        r == setter_score_value(winner_guess_count as int, winner_guesses@.contains(crown()), big_winner_score as int, total_rounds as int),
{
    let has_big_winner = has_crown(winner_guesses);
    setter_score(winner_guess_count, has_big_winner, big_winner_score, total_rounds)
}

/// Players counted in non-stop scoring: at least one.
pub open spec fn counted_players(total_players_count: int) -> int {
    if total_players_count > 1 { total_players_count } else { 1 }
}

/// Multiplier of the non-stop setter score: half the players, rounded up, at least one.
pub open spec fn player_multiplier(total_players_count: int) -> int {
    let h = half_up(counted_players(total_players_count));
    if h > 1 { h } else { 1 }
}

/// Score change of the answer setter in a non-stop game.
pub open spec fn nonstop_setter_score_value(has_big_winner: bool, big_winner_score: int, winners_count: int, total_players_count: int) -> int {
    let total = counted_players(total_players_count);
    let mult = player_multiplier(total_players_count);
    if has_big_winner {
        -(if half_toward_zero(big_winner_score) > 1 { half_toward_zero(big_winner_score) } else { 1 })
    } else if winners_count == 0 {
        -2 * mult
    } else if 4 * winners_count <= total || 4 * winners_count >= 3 * total {
        mult
    } else {
        2 * mult
    }
}

pub fn calculate_nonstop_setter_score(
    has_big_winner: bool,
    big_winner_score: i32,
    winners_count: i32,
    total_players_count: i32,
) -> (r: i32)
    requires
        total_players_count < i32::MAX,
    ensures
        r == nonstop_setter_score_value(has_big_winner, big_winner_score as int, winners_count as int, total_players_count as int),
{
    let total_players: i32 = if total_players_count > 1 { total_players_count } else { 1 };
    let h = half_up_i32(total_players);
    let player_multiplier: i32 = if h > 1 { h } else { 1 };
    if has_big_winner {
        let half = half_toward_zero_i32(big_winner_score);
        let penalty = if half > 1 { half } else { 1 };
        return -penalty;
    }
    assert(player_multiplier <= 0x3FFF_FFFF);
    if winners_count == 0 {
        let doubled: i32 = player_multiplier + player_multiplier;
        return -doubled;
    }
    let w: i64 = winners_count as i64;
    let t: i64 = total_players as i64;
    let base_score: i32 = if 4 * w <= t {
        1
    } else if 4 * w >= 3 * t {
        1
    } else {
        2
    };
    base_score * player_multiplier
}

/// What a winner scores, with the numbers: a big win adds 12 and no quick-guess bonus;
/// otherwise 2 or 3 guesses add 2, from 4 guesses up to half the rounds rounded up
/// (`2 * g <= total_rounds + 1`) add 1, and any other count adds nothing.
pub proof fn law_winner_score_bonuses(g: int, base: int, total_rounds: int)
    ensures
        winner_total(g, true, base, total_rounds) == base + 12,
        2 <= g <= 3 ==> quick_guess_bonus(g, total_rounds) == 2 && winner_total(g, false, base, total_rounds) == base + 2,
        4 <= g && 2 * g <= total_rounds + 1 ==> quick_guess_bonus(g, total_rounds) == 1
            && winner_total(g, false, base, total_rounds) == base + 1,
        (g < 2 || (g >= 4 && 2 * g > total_rounds + 1)) ==> quick_guess_bonus(g, total_rounds) == 0
            && winner_total(g, false, base, total_rounds) == base,
{
    if total_rounds >= 0 {
        assert(half_up(total_rounds) == (total_rounds + 1) / 2);
        assert((4 <= g && 2 * g <= total_rounds + 1) == (4 <= g && g <= (total_rounds + 1) / 2));
    } else {
        assert(half_up(total_rounds) <= 0);
    }
}

/// The answer setter's score in a non-stop round, with the numbers. With `T` the players
/// counted (at least one) and `m` half of them rounded up (`2 * m - 1 <= T <= 2 * m`): a big
/// winner costs the setter half the big winner's score, at least 1; nobody winning costs
/// `2 * m`; a quarter of the players or fewer winning, or three quarters or more, gives `m`;
/// anything in between gives `2 * m`.
pub proof fn law_nonstop_setter_score(big: bool, big_score: int, w: int, t: int)
    ensures
        ({
            let tt = if t > 1 { t } else { 1 };
            let v = nonstop_setter_score_value(big, big_score, w, t);
            &&& big && big_score <= 3 ==> v == -1
            &&& big && big_score >= 4 ==> v == -(big_score / 2)
            &&& !big && w == 0 ==> -v >= tt && -v <= tt + 1 && (-v) % 2 == 0
            &&& !big && w != 0 && (4 * w <= tt || 4 * w >= 3 * tt) ==> 2 * v - 1 <= tt && tt <= 2 * v
            &&& !big && w != 0 && tt < 4 * w && 4 * w < 3 * tt ==> v >= tt && v <= tt + 1 && v % 2 == 0
        }),
{
    let tt = if t > 1 { t } else { 1 };
    assert(counted_players(t) == tt);
    assert(half_up(tt) == (tt + 1) / 2);
    assert(player_multiplier(t) == (tt + 1) / 2);
    if big_score < 0 {
        assert(half_toward_zero(big_score) <= 0);
    }
}

/// The answer setter's score in a standard round, with the numbers: a big winner costs the
/// setter half the big winner's score, at least 1; a winner in 1 to 3 guesses costs 1; a
/// winner who needed more than half the rounds gives 1; any other winner gives 0; no winner
/// costs 1.
pub proof fn law_setter_score(w: int, big: bool, big_score: int, total_rounds: int)
    ensures
        big && big_score <= 3 ==> setter_score_value(w, big, big_score, total_rounds) == -1,
        big && big_score >= 4 ==> setter_score_value(w, big, big_score, total_rounds) == -(big_score / 2),
        !big && 1 <= w <= 3 ==> setter_score_value(w, big, big_score, total_rounds) == -1,
        !big && w >= 4 && 2 * w > total_rounds ==> setter_score_value(w, big, big_score, total_rounds) == 1,
        !big && w >= 4 && 2 * w <= total_rounds ==> setter_score_value(w, big, big_score, total_rounds) == 0,
        !big && w <= 0 ==> setter_score_value(w, big, big_score, total_rounds) == -1,
{
    if big_score < 0 {
        assert(half_toward_zero(big_score) <= 0);
    }
}

} // verus!

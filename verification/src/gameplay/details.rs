//! The score details listed when a round ends: team groups, single players, the setter.
use vstd::prelude::*;
use crate::gameplay::events::{PlayerDetail, ScoreDetail, SetterDetail};
use crate::gameplay::rules::{is_spectator, is_spectator_team};
use crate::gameplay::scores::{ScoreBreakdown, ScoreChange, ScoreChangeModel, changes_view, empty_breakdown};
use crate::keyed::TextMap;
use crate::settings::opt_text;
use crate::state::{Player, PlayerModel, dup_opt_text, players_view};
use crate::text::text_eq;

verus! {

pub struct PlayerDetailModel {
    pub id: Seq<char>,
    pub username: Seq<char>,
    pub team: Option<Seq<char>>,
    pub score: i32,
    pub breakdown: ScoreBreakdown,
    pub result: Seq<char>,
}

impl View for PlayerDetail {
    type V = PlayerDetailModel;

    open spec fn view(&self) -> PlayerDetailModel {
        PlayerDetailModel {
            id: self.id@,
            username: self.username@,
            team: opt_text(self.team),
            score: self.score,
            breakdown: self.breakdown,
            result: self.result@,
        }
    }
}

pub enum DetailModel {
    Team { team_id: Seq<char>, team_score: i64, members: Seq<PlayerDetailModel> },
    Player(PlayerDetailModel),
    Setter { username: Seq<char>, score: i32, reason: Seq<char> },
}

pub open spec fn member_views(ms: Seq<PlayerDetail>) -> Seq<PlayerDetailModel> {
    ms.map_values(|m: PlayerDetail| m@)
}

impl View for ScoreDetail {
    type V = DetailModel;

    open spec fn view(&self) -> DetailModel {
        match self {
            ScoreDetail::Team { team_id, team_score, members } => DetailModel::Team {
                team_id: team_id@,
                team_score: *team_score,
                members: member_views(members@),
            },
            ScoreDetail::Player(d) => DetailModel::Player(d@),
            ScoreDetail::Setter(s) => DetailModel::Setter { username: s.username@, score: s.score, reason: s.reason@ },
        }
    }
}

pub open spec fn details_view(ds: Seq<ScoreDetail>) -> Seq<DetailModel> {
    ds.map_values(|d: ScoreDetail| d@)
}

/// Players listed in the details: everyone but spectators and the answer setter.
pub open spec fn listed(p: PlayerModel) -> bool {
    !is_spectator_team(p.team) && !p.is_answer_setter
}

/// The team a listed player is grouped under; none for an empty or missing team.
pub open spec fn group_of(p: PlayerModel) -> Option<Seq<char>> {
    match p.team {
        Some(t) => if t.len() > 0 { Some(t) } else { None },
        None => None,
    }
}

/// The score line of `id`, or an empty line where there is none.
pub open spec fn change_or_default(m: Map<Seq<char>, ScoreChangeModel>, id: Seq<char>) -> ScoreChangeModel {
    if m.dom().contains(id) {
        m[id]
    } else {
        ScoreChangeModel { score: 0, breakdown: empty_breakdown(), result: Seq::empty() }
    }
}

pub open spec fn player_detail(p: PlayerModel, m: Map<Seq<char>, ScoreChangeModel>) -> PlayerDetailModel {
    let c = change_or_default(m, p.id);
    PlayerDetailModel { id: p.id, username: p.username, team: p.team, score: c.score, breakdown: c.breakdown, result: c.result }
}

/// The teams of the listed players, in order of first appearance.
pub open spec fn team_order(ps: Seq<PlayerModel>) -> Seq<Seq<char>>
    decreases ps.len(),
{
    if ps.len() == 0 {
        Seq::empty()
    } else {
        let prev = team_order(ps.drop_last());
        let p = ps.last();
        if listed(p) && group_of(p) is Some && !prev.contains(group_of(p)->0) {
            prev.push(group_of(p)->0)
        } else {
            prev
        }
    }
}

/// The lines of the listed members of team `t`, in player order.
pub open spec fn team_members(ps: Seq<PlayerModel>, t: Seq<char>, m: Map<Seq<char>, ScoreChangeModel>) -> Seq<PlayerDetailModel>
    decreases ps.len(),
{
    if ps.len() == 0 {
        Seq::empty()
    } else {
        let prev = team_members(ps.drop_last(), t, m);
        let p = ps.last();
        if listed(p) && group_of(p) == Some(t) { prev.push(player_detail(p, m)) } else { prev }
    }
}

/// The lines of the listed players without a team, in player order.
pub open spec fn solo_details(ps: Seq<PlayerModel>, m: Map<Seq<char>, ScoreChangeModel>) -> Seq<PlayerDetailModel>
    decreases ps.len(),
{
    if ps.len() == 0 {
        Seq::empty()
    } else {
        let prev = solo_details(ps.drop_last(), m);
        let p = ps.last();
        if listed(p) && group_of(p) is None { prev.push(player_detail(p, m)) } else { prev }
    }
}

pub open spec fn member_total(ms: Seq<PlayerDetailModel>) -> int
    decreases ms.len(),
{
    if ms.len() == 0 { 0 } else { member_total(ms.drop_last()) + ms.last().score }
}

/// One group line per team with more than one member.
pub open spec fn team_entries(ps: Seq<PlayerModel>, order: Seq<Seq<char>>, m: Map<Seq<char>, ScoreChangeModel>) -> Seq<DetailModel>
    decreases order.len(),
{
    if order.len() == 0 {
        Seq::empty()
    } else {
        let prev = team_entries(ps, order.drop_last(), m);
        let t = order.last();
        let ms = team_members(ps, t, m);
        if ms.len() > 1 {
            prev.push(DetailModel::Team { team_id: t, team_score: member_total(ms) as i64, members: ms })
        } else {
            prev
        }
    }
}

/// A plain line for the only member of each one-member team.
pub open spec fn singleton_entries(ps: Seq<PlayerModel>, order: Seq<Seq<char>>, m: Map<Seq<char>, ScoreChangeModel>) -> Seq<DetailModel>
    decreases order.len(),
{
    if order.len() == 0 {
        Seq::empty()
    } else {
        let prev = singleton_entries(ps, order.drop_last(), m);
        let ms = team_members(ps, order.last(), m);
        if ms.len() == 1 { prev.push(DetailModel::Player(ms[0])) } else { prev }
    }
}

pub open spec fn as_player_lines(ds: Seq<PlayerDetailModel>) -> Seq<DetailModel> {
    ds.map_values(|d: PlayerDetailModel| DetailModel::Player(d))
}

/// The details of a finished round: team groups, then the players without a team, then the
/// only members of one-member teams, then the setter's line if there is one.
pub open spec fn score_details(ps: Seq<PlayerModel>, m: Map<Seq<char>, ScoreChangeModel>, setter: Option<DetailModel>) -> Seq<DetailModel> {
    let order = team_order(ps);
    let body = team_entries(ps, order, m) + as_player_lines(solo_details(ps, m)) + singleton_entries(ps, order, m);
    match setter {
        Some(s) => body.push(s),
        None => body,
    }
}

pub open spec fn setter_line(s: Option<SetterDetail>) -> Option<DetailModel> {
    match s {
        Some(x) => Some(DetailModel::Setter { username: x.username@, score: x.score, reason: x.reason@ }),
        None => None,
    }
}

fn is_listed(p: &Player) -> (r: bool)
    ensures
        r == listed(p@),
{
    !is_spectator(&p.team) && !p.is_answer_setter
}

fn grouped_team(p: &Player) -> (r: Option<&String>)
    ensures
        match r {
            Some(t) => group_of(p@) == Some(t@),
            None => group_of(p@) is None,
        },
{
    match &p.team {
        Some(t) => {
            let empty = "";
            proof { reveal_strlit(""); }
            if text_eq(t.as_str(), empty) {
                assert(t@ =~= Seq::<char>::empty());
                None
            } else {
                assert(t@.len() > 0) by {
                    if t@.len() == 0 { assert(t@ =~= empty@); }
                }
                Some(t)
            }
        },
        None => None,
    }
}

fn detail_for(p: &Player, changes: &TextMap<ScoreChange>) -> (r: PlayerDetail)
    requires
        changes.wf(),
    ensures
        r@ == player_detail(p@, changes_view(changes@)),
{
    proof { reveal_strlit(""); }
    match changes.get(p.id.as_str()) {
        Some(c) => PlayerDetail {
            id: p.id.clone(),
            username: p.username.clone(),
            team: dup_opt_text(&p.team),
            score: c.score,
            breakdown: c.breakdown,
            result: c.result.clone(),
        },
        None => {
            let r = PlayerDetail {
                id: p.id.clone(),
                username: p.username.clone(),
                team: dup_opt_text(&p.team),
                score: 0,
                breakdown: ScoreBreakdown { rank: None, base: None, big_win: None, quick_guess: None, partial: None },
                result: "".to_string(),
            };
            assert(r@.result =~= Seq::<char>::empty());
            r
        },
    }
}

pub fn texts_contain(v: &Vec<String>, x: &str) -> (r: bool)
    ensures
        r == crate::keyed::texts(v@).contains(x@),
{
    let mut i: usize = 0;
    while i < v.len()
        invariant
            i <= v@.len(),
            forall|j: int| 0 <= j < i ==> v@[j]@ != x@,
        decreases v@.len() - i,
    {
        if text_eq(v[i].as_str(), x) {
            assert(crate::keyed::texts(v@)[i as int] == x@);
            return true;
        }
        i = i + 1;
    }
    assert(!crate::keyed::texts(v@).contains(x@)) by {
        if crate::keyed::texts(v@).contains(x@) {
            let j = choose|j: int| 0 <= j < v@.len() && crate::keyed::texts(v@)[j] == x@;
            assert(v@[j]@ == x@);
        }
    }
    false
}

fn collect_team_order(players: &Vec<Player>) -> (r: Vec<String>)
    ensures
        crate::keyed::texts(r@) == team_order(players_view(players@)),
{
    let ghost ps = players_view(players@);
    let mut out: Vec<String> = Vec::new();
    let mut i: usize = 0;
    while i < players.len()
        invariant
            i <= players@.len(),
            ps == players_view(players@),
            crate::keyed::texts(out@) == team_order(ps.take(i as int)),
        decreases players@.len() - i,
    {
        assert(ps.take(i + 1).drop_last() =~= ps.take(i as int));
        assert(ps.take(i + 1).last() == players@[i as int]@);
        let p = &players[i];
        if is_listed(p) {
            match grouped_team(p) {
                Some(t) => {
                    if !texts_contain(&out, t.as_str()) {
                        out.push(t.clone());
                        assert(crate::keyed::texts(out@) =~= team_order(ps.take(i + 1)));
                    }
                },
                None => {},
            }
        }
        i = i + 1;
    }
    assert(ps.take(players@.len() as int) =~= ps);
    out
}

fn collect_members(players: &Vec<Player>, t: &str, changes: &TextMap<ScoreChange>) -> (r: Vec<PlayerDetail>)
    requires
        changes.wf(),
    ensures
        member_views(r@) == team_members(players_view(players@), t@, changes_view(changes@)),
        r@.len() <= players@.len(),
{
    let ghost ps = players_view(players@);
    let ghost m = changes_view(changes@);
    let mut out: Vec<PlayerDetail> = Vec::new();
    let mut i: usize = 0;
    while i < players.len()
        invariant
            i <= players@.len(),
            ps == players_view(players@),
            m == changes_view(changes@),
            changes.wf(),
            member_views(out@) == team_members(ps.take(i as int), t@, m),
            out@.len() <= i,
        decreases players@.len() - i,
    {
        assert(ps.take(i + 1).drop_last() =~= ps.take(i as int));
        assert(ps.take(i + 1).last() == players@[i as int]@);
        let p = &players[i];
        if is_listed(p) {
            match grouped_team(p) {
                Some(g) => {
                    if text_eq(g.as_str(), t) {
                        let d = detail_for(p, changes);
                        out.push(d);
                        assert(member_views(out@) =~= team_members(ps.take(i + 1), t@, m));
                    }
                },
                None => {},
            }
        }
        i = i + 1;
    }
    assert(ps.take(players@.len() as int) =~= ps);
    out
}

fn total_of(ms: &Vec<PlayerDetail>) -> (r: i64)
    requires
        ms@.len() <= i32::MAX,
    ensures
        r == member_total(member_views(ms@)),
{
    let ghost v = member_views(ms@);
    let mut sum: i64 = 0;
    let mut i: usize = 0;
    while i < ms.len()
        invariant
            i <= ms@.len(),
            ms@.len() <= i32::MAX,
            v == member_views(ms@),
            sum == member_total(v.take(i as int)),
            -(i as int) * 0x8000_0000 <= sum <= (i as int) * 0x8000_0000,
        decreases ms@.len() - i,
    {
        assert(v.take(i + 1).drop_last() =~= v.take(i as int));
        assert(v.take(i + 1).last() == ms@[i as int]@);
        proof {
            assert(0x8000_0000 * (i as int) <= 0x8000_0000 * 0x7fff_ffff) by (nonlinear_arith)
                requires i < 0x7fff_ffff;
        }
        sum = sum + ms[i].score as i64;
        i = i + 1;
    }
    assert(v.take(ms@.len() as int) =~= v);
    sum
}

/// The score details of a finished round (see `score_details`).
pub fn generate_score_details(players: &Vec<Player>, score_changes: &TextMap<ScoreChange>, setter_info: Option<SetterDetail>) -> (r: Vec<ScoreDetail>)
    requires
        score_changes.wf(),
        players@.len() <= i32::MAX,
    ensures
        details_view(r@) == score_details(players_view(players@), changes_view(score_changes@), setter_line(setter_info)),
{
    let ghost ps = players_view(players@);
    let ghost m = changes_view(score_changes@);
    let order = collect_team_order(players);
    let ghost ord = crate::keyed::texts(order@);
    let mut details: Vec<ScoreDetail> = Vec::new();
    let mut k: usize = 0;
    while k < order.len()
        invariant
            k <= order@.len(),
            ord == crate::keyed::texts(order@),
            ps == players_view(players@),
            m == changes_view(score_changes@),
            score_changes.wf(),
            players@.len() <= i32::MAX,
            details_view(details@) == team_entries(ps, ord.take(k as int), m),
        decreases order@.len() - k,
    {
        assert(ord.take(k + 1).drop_last() =~= ord.take(k as int));
        let members = collect_members(players, order[k].as_str(), score_changes);
        if members.len() > 1 {
            let total = total_of(&members);
            details.push(ScoreDetail::Team { team_id: order[k].clone(), team_score: total, members });
            assert(details_view(details@) =~= team_entries(ps, ord.take(k + 1), m));
        }
        k = k + 1;
    }
    assert(ord.take(order@.len() as int) =~= ord);
    let ghost teams_part = details_view(details@);
    let mut i: usize = 0;
    while i < players.len()
        invariant
            i <= players@.len(),
            ps == players_view(players@),
            m == changes_view(score_changes@),
            score_changes.wf(),
            details_view(details@) == teams_part + as_player_lines(solo_details(ps.take(i as int), m)),
        decreases players@.len() - i,
    {
        assert(ps.take(i + 1).drop_last() =~= ps.take(i as int));
        assert(ps.take(i + 1).last() == players@[i as int]@);
        let p = &players[i];
        if is_listed(p) {
            match grouped_team(p) {
                Some(_) => {},
                None => {
                    let d = detail_for(p, score_changes);
                    let ghost before = details_view(details@);
                    let ghost dv = d@;
                    details.push(ScoreDetail::Player(d));
                    assert(details_view(details@) =~= before.push(DetailModel::Player(dv)));
                    assert(as_player_lines(solo_details(ps.take(i + 1), m)) =~= as_player_lines(solo_details(ps.take(i as int), m)).push(DetailModel::Player(player_detail(ps[i as int], m))));
                    assert(details_view(details@) =~= teams_part + as_player_lines(solo_details(ps.take(i + 1), m)));
                },
            }
        }
        i = i + 1;
    }
    assert(ps.take(players@.len() as int) =~= ps);
    let ghost body = details_view(details@);
    let mut k: usize = 0;
    while k < order.len()
        invariant
            k <= order@.len(),
            ord == crate::keyed::texts(order@),
            ps == players_view(players@),
            m == changes_view(score_changes@),
            score_changes.wf(),
            details_view(details@) == body + singleton_entries(ps, ord.take(k as int), m),
        decreases order@.len() - k,
    {
        assert(ord.take(k + 1).drop_last() =~= ord.take(k as int));
        let mut members = collect_members(players, order[k].as_str(), score_changes);
        if members.len() == 1 {
            let ghost mv = member_views(members@);
            let d = members.remove(0);
            assert(d@ == mv[0]);
            assert(ord.take(k + 1).last() == ord[k as int]);
            assert(singleton_entries(ps, ord.take(k + 1), m) == singleton_entries(ps, ord.take(k as int), m).push(DetailModel::Player(mv[0])));
            let ghost before = details_view(details@);
            let ghost dv = d@;
            details.push(ScoreDetail::Player(d));
            assert(details_view(details@) =~= before.push(DetailModel::Player(dv)));
            assert(details_view(details@) =~= body + singleton_entries(ps, ord.take(k + 1), m));
        }
        k = k + 1;
    }
    assert(ord.take(order@.len() as int) =~= ord);
    match setter_info {
        Some(s) => {
            details.push(ScoreDetail::Setter(s));
        },
        None => {},
    }
    assert(details_view(details@) =~= score_details(ps, m, setter_line(setter_info)));
    details
}

} // verus!

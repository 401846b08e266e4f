use vstd::prelude::*;
use crate::geom::{Pos2, Size2, sat_add_i64, spec_sat_add_i64};
use crate::input_ext::{OperateInput, dir_x, dir_y, dir_x_of, dir_y_of};
use crate::rules::GameRules;

verus! {

/// A match participant. Created once at match setup and never destroyed;
/// the Movement Resolver mutates its position and the Score Aggregator its
/// score. A player's identity is its index in the match's player table.
pub struct Player {
    /// Display name, for the presentation collaborator only.
    pub name: String,
    /// Grouping key: team aggregates are summed over this id.
    pub team_id: usize,
    /// Cumulative score; never decreases within a match.
    pub score: usize,
    /// Center of the player's bounding box.
    pub pos: Pos2,
    /// Extent of the player's bounding box.
    pub size: Size2,
    /// Movement speed, in plane units per second.
    pub speed: u32,
    /// Offset accumulated from input this tick; applied and cleared exactly
    /// once per tick by the Movement Resolver.
    pub pending_offset: Pos2,
}

/// Score-delta record: consumed once by the Score Aggregator, then discarded.
#[derive(Clone, Copy, PartialEq, Eq, Structural, Debug)]
pub struct IncreasePlayerScoreEvent {
    pub player: usize,
    pub score_to_increase: usize,
}

/// Emitted only for teams whose aggregate total changed within a tick.
#[derive(Clone, Copy, PartialEq, Eq, Structural, Debug)]
pub struct TeamScoreChangedEvent {
    pub team_score: usize,
    pub team_id: usize,
}

/// The initial player roster: one player on team 1, standing at the bottom
/// of the play area with no score and no pending movement.
pub fn setup(rules: &GameRules) -> (players: Vec<Player>)
    ensures
        players@.len() == 1,
        players@[0].name@ == "Player 0"@,
        players@[0].team_id == 1,
        players@[0].score == 0,
        players@[0].pos == (Pos2 { x: 0i64, y: -215i64 }),
        players@[0].size == rules.player_brick_size,
        players@[0].speed == 500,
        players@[0].pending_offset == (Pos2 { x: 0, y: 0 }),
{
    let mut players: Vec<Player> = Vec::new();
    players.push(
        Player {
            name: "Player 0".to_string(),
            team_id: 1,
            score: 0,
            pos: Pos2 { x: 0, y: -215 },
            size: rules.player_brick_size,
            speed: 500,
            pending_offset: Pos2 { x: 0, y: 0 },
        },
    );
    players
}

/// Distance covered in `dt_ms` milliseconds at `speed` units per second.
pub open spec fn spec_move_delta(speed: u32, dt_ms: u32) -> int {
    (speed * dt_ms) / 1000
}

/// The controlled player with one tick of held input folded into its
/// pending offset.
pub open spec fn input_player(p: Player, st: OperateInput, dt_ms: u32) -> Player {
    Player {
        pending_offset: Pos2 {
            x: spec_sat_add_i64(
                p.pending_offset.x as int,
                dir_x(st) * spec_move_delta(p.speed, dt_ms),
            ) as i64,
            y: spec_sat_add_i64(
                p.pending_offset.y as int,
                dir_y(st) * spec_move_delta(p.speed, dt_ms),
            ) as i64,
        },
        ..p
    }
}

/// The player table after the input step: held intents feed the controlled
/// player's pending offset; everyone else is untouched.
pub open spec fn spec_input_applied(players: Seq<Player>, st: OperateInput, dt_ms: u32) -> Seq<
    Player,
> {
    if players.len() == 0 {
        players
    } else {
        players.update(0, input_player(players[0], st, dt_ms))
    }
}

/// A player with its pending offset applied to its position and cleared.
pub open spec fn moved_player(p: Player) -> Player {
    Player {
        pos: Pos2 {
            x: spec_sat_add_i64(p.pos.x as int, p.pending_offset.x as int) as i64,
            y: spec_sat_add_i64(p.pos.y as int, p.pending_offset.y as int) as i64,
        },
        pending_offset: Pos2 { x: 0, y: 0 },
        ..p
    }
}

/// The player table after the movement step.
pub open spec fn spec_moved(players: Seq<Player>) -> Seq<Player> {
    players.map(|i: int, p: Player| moved_player(p))
}

/// Movement accumulation step: scale the held direction by
/// `speed x elapsed time` and fold it into the controlled player's pending
/// offset. The controlled player is the first of the table.
pub fn player_input_update(players: &mut Vec<Player>, st: &OperateInput, dt_ms: u32)
    ensures
        final(players)@ == spec_input_applied(old(players)@, *st, dt_ms),
{
    if players.len() > 0 {
        let dx: i64 = dir_x_of(st);
        let dy: i64 = dir_y_of(st);
        let speed: u32 = players[0].speed;
        proof {
            assert((speed as u64) * (dt_ms as u64) < 0x10000000000000000u128) by (nonlinear_arith)
                requires
                    speed < 0x100000000,
                    dt_ms < 0x100000000,
            ;
        }
        let prod: u64 = (speed as u64) * (dt_ms as u64);
        let delta: u64 = prod / 1000;
        assert(delta <= i64::MAX) by {
            assert(prod / 1000 <= prod) by (nonlinear_arith);
        }
        let d: i64 = delta as i64;
        let step_x: i64 = if dx == 1 {
            d
        } else if dx == -1 {
            -d
        } else {
            0
        };
        let step_y: i64 = if dy == 1 {
            d
        } else if dy == -1 {
            -d
        } else {
            0
        };
        let p = &mut players[0];
        p.pending_offset = Pos2 {
            x: sat_add_i64(p.pending_offset.x, step_x),
            y: sat_add_i64(p.pending_offset.y, step_y),
        };
        proof {
            assert(players@.len() == old(players)@.len());
            assert(forall|j: int|
                1 <= j < players@.len() ==> players@[j] == old(players)@[j]);
            assert(step_x == dir_x(*st) * spec_move_delta(speed, dt_ms)) by (nonlinear_arith)
                requires
                    dir_x(*st) == dx as int,
                    -1 <= dx <= 1,
                    step_x as int == (if dx == 1i64 {
                        d as int
                    } else if dx == -1i64 {
                        -(d as int)
                    } else {
                        0
                    }),
                    d == spec_move_delta(speed, dt_ms),
                    0 <= d,
            ;
            assert(step_y == dir_y(*st) * spec_move_delta(speed, dt_ms)) by (nonlinear_arith)
                requires
                    dir_y(*st) == dy as int,
                    -1 <= dy <= 1,
                    step_y as int == (if dy == 1i64 {
                        d as int
                    } else if dy == -1i64 {
                        -(d as int)
                    } else {
                        0
                    }),
                    d == spec_move_delta(speed, dt_ms),
                    0 <= d,
            ;
            assert(players@[0] == input_player(old(players)@[0], *st, dt_ms));
            assert(players@ =~= spec_input_applied(old(players)@, *st, dt_ms));
        }
    }
}

/// Movement application step: atomically apply and clear each player's
/// pending offset, so the tick moves every player exactly once.
pub fn player_movement_update(players: &mut Vec<Player>)
    ensures
        final(players)@ == spec_moved(old(players)@),
{
    let mut i: usize = 0;
    while i < players.len()
        invariant
            i <= players@.len(),
            players@.len() == old(players)@.len(),
            forall|j: int| 0 <= j < i ==> players@[j] == moved_player(old(players)@[j]),
            forall|j: int| i <= j < players@.len() ==> players@[j] == old(players)@[j],
        decreases players@.len() - i,
    {
        let p = &mut players[i];
        p.pos = Pos2 {
            x: sat_add_i64(p.pos.x, p.pending_offset.x),
            y: sat_add_i64(p.pos.y, p.pending_offset.y),
        };
        p.pending_offset = Pos2 { x: 0, y: 0 };
        i = i + 1;
    }
    proof {
        assert(players@ =~= spec_moved(old(players)@));
    }
}

/// Sum of all players' current scores.
pub open spec fn total_scores(players: Seq<Player>) -> int
    decreases players.len(),
{
    if players.len() == 0 {
        0
    } else {
        total_scores(players.drop_last()) + players.last().score
    }
}

/// Sum of the amounts of all score-delta events.
pub open spec fn total_event_value(events: Seq<IncreasePlayerScoreEvent>) -> int
    decreases events.len(),
{
    if events.len() == 0 {
        0
    } else {
        total_event_value(events.drop_last()) + events.last().score_to_increase
    }
}

/// Total increase owed to one player: all its deltas of the tick summed,
/// never overwritten.
pub open spec fn increase_for(events: Seq<IncreasePlayerScoreEvent>, pid: int) -> int
    decreases events.len(),
{
    if events.len() == 0 {
        0
    } else {
        increase_for(events.drop_last(), pid) + if events.last().player == pid {
            events.last().score_to_increase as int
        } else {
            0
        }
    }
}

/// Sum of the current scores of one team's members.
pub open spec fn team_total(players: Seq<Player>, team: usize) -> int
    decreases players.len(),
{
    if players.len() == 0 {
        0
    } else {
        team_total(players.drop_last(), team) + if players.last().team_id == team {
            players.last().score as int
        } else {
            0
        }
    }
}

pub proof fn lemma_total_scores_nonneg(players: Seq<Player>)
    ensures
        total_scores(players) >= 0,
    decreases players.len(),
{
    if players.len() > 0 {
        lemma_total_scores_nonneg(players.drop_last());
    }
}

pub proof fn lemma_score_le_total(players: Seq<Player>, i: int)
    requires
        0 <= i < players.len(),
    ensures
        players[i].score <= total_scores(players),
    decreases players.len(),
{
    if i == players.len() - 1 {
        lemma_total_scores_nonneg(players.drop_last());
    } else {
        lemma_score_le_total(players.drop_last(), i);
    }
}

pub proof fn lemma_increase_le_total(events: Seq<IncreasePlayerScoreEvent>, pid: int)
    ensures
        0 <= increase_for(events, pid) <= total_event_value(events),
    decreases events.len(),
{
    if events.len() > 0 {
        lemma_increase_le_total(events.drop_last(), pid);
    }
}

pub proof fn lemma_increase_take_le(events: Seq<IncreasePlayerScoreEvent>, pid: int, j: int)
    requires
        0 <= j <= events.len(),
    ensures
        increase_for(events.take(j), pid) <= increase_for(events, pid),
    decreases events.len() - j,
{
    if j == events.len() {
        assert(events.take(j) =~= events);
    } else {
        assert(events.take(j + 1).drop_last() =~= events.take(j));
        lemma_increase_take_le(events, pid, j + 1);
    }
}

pub proof fn lemma_team_total_le_total(players: Seq<Player>, team: usize)
    ensures
        0 <= team_total(players, team) <= total_scores(players),
    decreases players.len(),
{
    if players.len() > 0 {
        lemma_team_total_le_total(players.drop_last(), team);
    }
}

/// Two tables with pointwise equal scores have equal sums.
pub proof fn lemma_total_scores_pointwise(a: Seq<Player>, b: Seq<Player>)
    requires
        a.len() == b.len(),
        forall|i: int| 0 <= i < a.len() ==> a[i].score == b[i].score,
    ensures
        total_scores(a) == total_scores(b),
    decreases a.len(),
{
    if a.len() > 0 {
        lemma_total_scores_pointwise(a.drop_last(), b.drop_last());
    }
}

pub proof fn lemma_total_scores_take_le(players: Seq<Player>, j: int)
    requires
        0 <= j <= players.len(),
    ensures
        total_scores(players.take(j)) <= total_scores(players),
    decreases players.len() - j,
{
    if j == players.len() {
        assert(players.take(j) =~= players);
    } else {
        assert(players.take(j + 1).drop_last() =~= players.take(j));
        lemma_total_scores_take_le(players, j + 1);
    }
}

/// A player credited with a tick's increase, the cast exact whenever the
/// caller keeps the sums within range.
pub open spec fn scored_player(p: Player, inc: int) -> Player {
    Player { score: (p.score + inc) as usize, ..p }
}

/// The player table after the Score Aggregator applies one tick's deltas.
pub open spec fn spec_scored(players: Seq<Player>, events: Seq<IncreasePlayerScoreEvent>) -> Seq<
    Player,
> {
    players.map(|i: int, p: Player| scored_player(p, increase_for(events, i)))
}

/// Team ids in first-appearance order over the player table: the order in
/// which team aggregates are scanned and reported.
pub open spec fn teams_in_order(players: Seq<Player>) -> Seq<usize>
    decreases players.len(),
{
    if players.len() == 0 {
        Seq::<usize>::empty()
    } else {
        let rest = teams_in_order(players.drop_last());
        if rest.contains(players.last().team_id) {
            rest
        } else {
            rest.push(players.last().team_id)
        }
    }
}

/// Whether some member of the team gained score this tick.
pub open spec fn team_changed(
    players: Seq<Player>,
    events: Seq<IncreasePlayerScoreEvent>,
    team: usize,
) -> bool {
    exists|i: int|
        0 <= i < players.len() && players[i].team_id == team && increase_for(events, i) > 0
}

/// The notifications for the given teams, in order: one per team whose
/// aggregate changed, carrying the team's recomputed current total.
pub open spec fn events_for_teams(
    teams: Seq<usize>,
    players: Seq<Player>,
    events: Seq<IncreasePlayerScoreEvent>,
) -> Seq<TeamScoreChangedEvent>
    decreases teams.len(),
{
    if teams.len() == 0 {
        Seq::<TeamScoreChangedEvent>::empty()
    } else {
        let rest = events_for_teams(teams.drop_last(), players, events);
        if team_changed(players, events, teams.last()) {
            rest.push(
                TeamScoreChangedEvent {
                    team_id: teams.last(),
                    team_score: team_total(players, teams.last()) as usize,
                },
            )
        } else {
            rest
        }
    }
}

/// The tick's team notifications over the updated player table.
pub open spec fn spec_team_events(
    players_after: Seq<Player>,
    events: Seq<IncreasePlayerScoreEvent>,
) -> Seq<TeamScoreChangedEvent> {
    events_for_teams(teams_in_order(players_after), players_after, events)
}

/// The scan order holds exactly the team ids present in the table.
pub proof fn lemma_teams_contains(players: Seq<Player>, t: usize)
    ensures
        teams_in_order(players).contains(t) <==> exists|i: int|
            0 <= i < players.len() && (#[trigger] players[i]).team_id == t,
    decreases players.len(),
{
    if players.len() > 0 {
        let d = players.drop_last();
        lemma_teams_contains(d, t);
        let rest = teams_in_order(d);
        let full = teams_in_order(players);
        if players.last().team_id == t {
            if rest.contains(t) {
            } else {
                assert(full.last() == t);
                assert(full.contains(t));
            }
            assert(players[players.len() - 1].team_id == t);
        } else {
            if full.contains(t) {
                if !rest.contains(t) {
                    let k = choose|k: int| 0 <= k < full.len() && full[k] == t;
                    assert(k < rest.len() || full[k] == players.last().team_id);
                    assert(rest[k] == t);
                }
                let i = choose|i: int| 0 <= i < d.len() && (#[trigger] d[i]).team_id == t;
                assert(players[i].team_id == t);
            }
            if exists|i: int| 0 <= i < players.len() && (#[trigger] players[i]).team_id == t {
                let i = choose|i: int|
                    0 <= i < players.len() && (#[trigger] players[i]).team_id == t;
                assert(i < d.len() && d[i].team_id == t);
                assert(rest.contains(t));
                if !rest.contains(t) {
                } else {
                    let k = choose|k: int| 0 <= k < rest.len() && rest[k] == t;
                    if full != rest {
                        assert(full[k] == rest[k]);
                    }
                    assert(full.contains(t));
                }
            }
        }
    }
}

/// Every emitted team notification reports the team's recomputed aggregate
/// and only teams whose aggregate changed.
pub proof fn lemma_team_events_sound(
    teams: Seq<usize>,
    players: Seq<Player>,
    events: Seq<IncreasePlayerScoreEvent>,
)
    ensures
        forall|k: int|
            0 <= k < events_for_teams(teams, players, events).len() ==> {
                let ev = #[trigger] events_for_teams(teams, players, events)[k];
                ev.team_score == team_total(players, ev.team_id) as usize && team_changed(
                    players,
                    events,
                    ev.team_id,
                )
            },
    decreases teams.len(),
{
    if teams.len() > 0 {
        lemma_team_events_sound(teams.drop_last(), players, events);
        let rest = events_for_teams(teams.drop_last(), players, events);
        let full = events_for_teams(teams, players, events);
        assert forall|k: int| 0 <= k < full.len() implies {
            let ev = #[trigger] full[k];
            ev.team_score == team_total(players, ev.team_id) as usize && team_changed(
                players,
                events,
                ev.team_id,
            )
        } by {
            if k < rest.len() {
                assert(full[k] == rest[k]);
            }
        }
    }
}

/// A tick without a single positive delta emits no team notification.
pub proof fn lemma_no_change_no_team_events(
    teams: Seq<usize>,
    players: Seq<Player>,
    events: Seq<IncreasePlayerScoreEvent>,
)
    requires
        forall|i: int| 0 <= i < players.len() ==> increase_for(events, i) <= 0,
    ensures
        events_for_teams(teams, players, events) == Seq::<TeamScoreChangedEvent>::empty(),
    decreases teams.len(),
{
    if teams.len() > 0 {
        lemma_no_change_no_team_events(teams.drop_last(), players, events);
    }
}

/// Totals of two tables that differ by `v` at one index.
proof fn lemma_total_scores_add_at(a: Seq<Player>, b: Seq<Player>, idx: int, v: int)
    requires
        a.len() == b.len(),
        0 <= idx < a.len(),
        forall|i: int| 0 <= i < a.len() && i != idx ==> a[i].score == b[i].score,
        b[idx].score == a[idx].score + v,
    ensures
        total_scores(b) == total_scores(a) + v,
    decreases a.len(),
{
    if idx == a.len() - 1 {
        lemma_total_scores_pointwise(a.drop_last(), b.drop_last());
    } else {
        lemma_total_scores_add_at(a.drop_last(), b.drop_last(), idx, v);
    }
}

/// Applying a tick's deltas never grows the grand total by more than the
/// batch hands out.
pub proof fn lemma_total_scored_le(players: Seq<Player>, events: Seq<IncreasePlayerScoreEvent>)
    requires
        total_scores(players) + total_event_value(events) <= usize::MAX,
    ensures
        total_scores(spec_scored(players, events)) <= total_scores(players) + total_event_value(
            events,
        ),
    decreases events.len(),
{
    let scored = spec_scored(players, events);
    if events.len() == 0 {
        assert forall|i: int| 0 <= i < players.len() implies scored[i].score
            == players[i].score by {
            assert(increase_for(events, i) == 0);
        }
        lemma_total_scores_pointwise(players, scored);
    } else {
        let d = events.drop_last();
        let e = events.last();
        assert(total_event_value(d) <= total_event_value(events));
        lemma_total_scored_le(players, d);
        let sd = spec_scored(players, d);
        if 0 <= e.player < players.len() {
            let idx = e.player as int;
            assert forall|i: int| 0 <= i < players.len() && i != idx implies sd[i].score
                == scored[i].score by {
                assert(increase_for(events, i) == increase_for(d, i));
            }
            assert(increase_for(events, idx) == increase_for(d, idx) + e.score_to_increase);
            lemma_score_le_total(players, idx);
            lemma_increase_le_total(events, idx);
            lemma_increase_le_total(d, idx);
            assert(scored[idx].score == sd[idx].score + e.score_to_increase);
            lemma_total_scores_add_at(sd, scored, idx, e.score_to_increase as int);
        } else {
            assert forall|i: int| 0 <= i < players.len() implies sd[i].score
                == scored[i].score by {
                assert(increase_for(events, i) == increase_for(d, i));
            }
            lemma_total_scores_pointwise(sd, scored);
        }
    }
}

/// Score Aggregator step: fold the tick's score-delta batch into a
/// per-player increase, apply each increase to the player's stored score,
/// then recompute and report the aggregate of every team whose total
/// changed, by summing its members' current scores. Deltas naming an
/// unknown player are skipped.
pub fn player_score_update(
    players: &mut Vec<Player>,
    events: &Vec<IncreasePlayerScoreEvent>,
) -> (team_events: Vec<TeamScoreChangedEvent>)
    requires
        total_scores(old(players)@) + total_event_value(events@) <= usize::MAX,
    ensures
        final(players)@ == spec_scored(old(players)@, events@),
        team_events@ == spec_team_events(final(players)@, events@),
        forall|i: int|
            0 <= i < old(players)@.len() ==> (#[trigger] final(players)@[i]).score >= old(
                players,
            )@[i].score,
        forall|k: int|
            0 <= k < team_events@.len() ==> (#[trigger] team_events@[k]).team_score == team_total(
                final(players)@,
                team_events@[k].team_id,
            ) as usize && team_changed(final(players)@, events@, team_events@[k].team_id),
{
    let n: usize = players.len();
    // first pass: fold the batch into one pending increase per player
    let mut increases: Vec<usize> = Vec::new();
    let mut i: usize = 0;
    while i < n
        invariant
            i <= n,
            n == players@.len(),
            players@ == old(players)@,
            total_scores(players@) + total_event_value(events@) <= usize::MAX,
            increases@.len() == i,
            forall|j: int| 0 <= j < i ==> increases@[j] == increase_for(events@, j),
        decreases n - i,
    {
        let mut acc: usize = 0;
        let mut k: usize = 0;
        while k < events.len()
            invariant
                k <= events@.len(),
                players@ == old(players)@,
                total_scores(players@) + total_event_value(events@) <= usize::MAX,
                acc == increase_for(events@.take(k as int), i as int),
            decreases events@.len() - k,
        {
            proof {
                assert(events@.take(k + 1 as int).drop_last() =~= events@.take(k as int));
                lemma_increase_take_le(events@, i as int, k + 1);
                lemma_increase_le_total(events@, i as int);
                lemma_total_scores_nonneg(players@);
            }
            if events[k].player == i {
                acc = acc + events[k].score_to_increase;
            }
            k = k + 1;
        }
        proof {
            assert(events@.take(events@.len() as int) =~= events@);
        }
        increases.push(acc);
        i = i + 1;
    }
    // second pass: apply the increases to the stored scores
    i = 0;
    while i < n
        invariant
            i <= n,
            n == players@.len(),
            players@.len() == old(players)@.len(),
            total_scores(old(players)@) + total_event_value(events@) <= usize::MAX,
            increases@.len() == n,
            forall|j: int| 0 <= j < n ==> increases@[j] == increase_for(events@, j),
            forall|j: int|
                0 <= j < i ==> players@[j] == scored_player(
                    old(players)@[j],
                    increase_for(events@, j),
                ),
            forall|j: int| i <= j < n ==> players@[j] == old(players)@[j],
        decreases n - i,
    {
        let inc: usize = increases[i];
        let cur: usize = players[i].score;
        proof {
            lemma_score_le_total(old(players)@, i as int);
            lemma_increase_le_total(events@, i as int);
            lemma_total_scores_nonneg(old(players)@);
        }
        let new_score: usize = cur + inc;
        let p = &mut players[i];
        p.score = new_score;
        i = i + 1;
    }
    proof {
        assert(players@ =~= spec_scored(old(players)@, events@));
    }
    // third pass: recompute and report the aggregate of each changed team,
    // in the order teams are first seen
    let ghost newp = players@;
    let mut team_events: Vec<TeamScoreChangedEvent> = Vec::new();
    i = 0;
    while i < n
        invariant
            i <= n,
            n == players@.len(),
            players@ == newp,
            newp == spec_scored(old(players)@, events@),
            total_scores(old(players)@) + total_event_value(events@) <= usize::MAX,
            increases@.len() == n,
            forall|j: int| 0 <= j < n ==> increases@[j] == increase_for(events@, j),
            team_events@ == events_for_teams(teams_in_order(newp.take(i as int)), newp, events@),
        decreases n - i,
    {
        let t: usize = players[i].team_id;
        proof {
            assert(newp.take(i + 1 as int).drop_last() =~= newp.take(i as int));
            lemma_teams_contains(newp.take(i as int), t);
        }
        let mut seen = false;
        let mut j: usize = 0;
        while j < i
            invariant
                j <= i,
                i < n,
                n == players@.len(),
                players@ == newp,
                t == newp[i as int].team_id,
                seen == exists|j2: int|
                    0 <= j2 < j && (#[trigger] newp[j2]).team_id == t,
            decreases i - j,
        {
            if players[j].team_id == t {
                seen = true;
            }
            j = j + 1;
        }
        if !seen {
            let ghost teams_now = teams_in_order(newp.take(i as int));
            proof {
                assert(teams_in_order(newp.take(i + 1 as int)) == teams_now.push(t));
                assert(teams_now.push(t).drop_last() =~= teams_now);
            }
            let mut changed = false;
            let mut k: usize = 0;
            while k < n
                invariant
                    k <= n,
                    n == players@.len(),
                    players@ == newp,
                    increases@.len() == n,
                    forall|j2: int| 0 <= j2 < n ==> increases@[j2] == increase_for(events@, j2),
                    changed == exists|k2: int|
                        0 <= k2 < k && (#[trigger] newp[k2]).team_id == t && increase_for(
                            events@,
                            k2,
                        ) > 0,
                decreases n - k,
            {
                if players[k].team_id == t && increases[k] > 0 {
                    changed = true;
                }
                k = k + 1;
            }
            if changed {
                let mut tot: usize = 0;
                let mut k2: usize = 0;
                while k2 < n
                    invariant
                        k2 <= n,
                        n == players@.len(),
                        players@ == newp,
                        newp == spec_scored(old(players)@, events@),
                        total_scores(old(players)@) + total_event_value(events@) <= usize::MAX,
                        tot == team_total(newp.take(k2 as int), t),
                    decreases n - k2,
                {
                    proof {
                        assert(newp.take(k2 + 1 as int).drop_last() =~= newp.take(k2 as int));
                        lemma_team_total_le_total(newp.take(k2 + 1 as int), t);
                        lemma_total_scores_take_le(newp, k2 + 1);
                        lemma_total_scored_le(old(players)@, events@);
                    }
                    if players[k2].team_id == t {
                        tot = tot + players[k2].score;
                    }
                    k2 = k2 + 1;
                }
                proof {
                    assert(newp.take(newp.len() as int) =~= newp);
                }
                team_events.push(TeamScoreChangedEvent { team_id: t, team_score: tot });
            } else {
                proof {
                    assert(!team_changed(newp, events@, t));
                }
            }
        } else {
            proof {
                let pre = newp.take(i as int);
                let j2 = choose|j2: int| 0 <= j2 < i && (#[trigger] newp[j2]).team_id == t;
                assert(pre[j2].team_id == t);
                assert(teams_in_order(pre).contains(t));
                assert(teams_in_order(newp.take(i + 1 as int)) == teams_in_order(pre));
            }
        }
        i = i + 1;
    }
    proof {
        assert(newp.take(n as int) =~= newp);
        lemma_team_events_sound(teams_in_order(newp), newp, events@);
        assert forall|i2: int| 0 <= i2 < old(players)@.len() implies (#[trigger] players@[i2]).score
            >= old(players)@[i2].score by {
            lemma_score_le_total(old(players)@, i2);
            lemma_increase_le_total(events@, i2);
            lemma_total_scores_nonneg(old(players)@);
        }
    }
    team_events
}

} // verus!

use vstd::prelude::*;
use crate::geom::{sat_add_u64, spec_sat_add_u64};
use crate::player::TeamScoreChangedEvent;
use crate::rules::GameRules;

verus! {

/// The match's macro-state. Transitions only move forward:
/// `WaitingForBegin -> Playing -> GameOver`, and `GameOver` is terminal.
#[derive(Clone, Copy, PartialEq, Eq, Structural, Debug)]
pub enum MatchState {
    WaitingForBegin,
    Playing,
    GameOver,
}

/// Mutable match outcome: the winning team once the match is decided.
pub struct GameState {
    win_team_id: usize,
}

impl GameState {
    pub closed spec fn spec_win_team_id(self) -> usize {
        self.win_team_id
    }

    pub fn new() -> (r: Self)
        ensures
            r.spec_win_team_id() == 0,
    {
        GameState { win_team_id: 0 }
    }

    pub fn get_win_team_id(&self) -> (r: usize)
        ensures
            r == self.spec_win_team_id(),
    {
        self.win_team_id
    }
}

/// One-shot countdown that gates `WaitingForBegin -> Playing`, driven by
/// real elapsed time so it stays independent of the tick rate.
pub struct GameDelayStart {
    pub duration_millis: u64,
    pub elapsed_millis: u64,
    pub finished: bool,
}

impl GameDelayStart {
    pub fn new(duration_millis: u64) -> (r: Self)
        ensures
            r.duration_millis == duration_millis,
            r.elapsed_millis == 0,
            !r.finished,
    {
        GameDelayStart { duration_millis, elapsed_millis: 0, finished: false }
    }

    /// Advance the countdown by one tick's real elapsed time. Returns true
    /// exactly once: on the tick the accumulated time first reaches the
    /// configured duration.
    pub fn tick(&mut self, dt_ms: u32) -> (just_finished: bool)
        ensures
            final(self).duration_millis == old(self).duration_millis,
            old(self).finished ==> *final(self) == *old(self) && !just_finished,
            !old(self).finished ==> {
                &&& final(self).elapsed_millis == spec_sat_add_u64(
                    old(self).elapsed_millis as int,
                    dt_ms as int,
                )
                &&& just_finished == (old(self).elapsed_millis + dt_ms
                    >= old(self).duration_millis)
                &&& final(self).finished == just_finished
            },
    {
        if self.finished {
            return false;
        }
        self.elapsed_millis = sat_add_u64(self.elapsed_millis, dt_ms as u64);
        if self.elapsed_millis >= self.duration_millis {
            self.finished = true;
            true
        } else {
            false
        }
    }
}

/// The first notification of the batch whose total reaches the target, if
/// any: ties within one tick resolve to the first scanned.
pub open spec fn first_winner(events: Seq<TeamScoreChangedEvent>, target: usize) -> Option<usize>
    decreases events.len(),
{
    if events.len() == 0 {
        None
    } else if events.first().team_score >= target {
        Some(events.first().team_id)
    } else {
        first_winner(events.drop_first(), target)
    }
}

/// Appending a notification only matters when no earlier one already won.
pub proof fn lemma_first_winner_push(events: Seq<TeamScoreChangedEvent>, e: TeamScoreChangedEvent, target: usize)
    ensures
        first_winner(events, target) is Some ==> first_winner(events.push(e), target)
            == first_winner(events, target),
        first_winner(events, target) is None && e.team_score >= target ==> first_winner(
            events.push(e),
            target,
        ) == Some(e.team_id),
        first_winner(events, target) is None && e.team_score < target ==> first_winner(
            events.push(e),
            target,
        ) is None,
    decreases events.len(),
{
    if events.len() == 0 {
        assert(events.push(e).first() == e);
        assert(events.push(e).drop_first() =~= Seq::<TeamScoreChangedEvent>::empty());
        assert(first_winner(events.push(e).drop_first(), target) is None);
    } else {
        assert(events.push(e).first() == events.first());
        assert(events.push(e).drop_first() =~= events.drop_first().push(e));
        lemma_first_winner_push(events.drop_first(), e, target);
        if events.first().team_score >= target {
            assert(first_winner(events.push(e), target) == Some(events.first().team_id));
        } else {
            assert(first_winner(events.push(e), target) == first_winner(
                events.drop_first().push(e),
                target,
            ));
            assert(first_winner(events, target) == first_winner(events.drop_first(), target));
        }
    }
}

/// Match State Machine step: while Playing, scan the tick's team
/// notifications in order; the first team whose total reaches the target is
/// recorded as winner and the match moves to GameOver. In any other phase
/// the step does nothing.
pub fn game_state_update(
    state: &mut MatchState,
    game_state: &mut GameState,
    rules: &GameRules,
    team_score_events: &Vec<TeamScoreChangedEvent>,
)
    ensures
        *old(state) != MatchState::Playing ==> *final(state) == *old(state) && *final(game_state)
            == *old(game_state),
        *old(state) == MatchState::Playing ==> match first_winner(
            team_score_events@,
            rules.target_score,
        ) {
            Some(t) => *final(state) == MatchState::GameOver
                && final(game_state).spec_win_team_id() == t,
            None => *final(state) == MatchState::Playing && *final(game_state) == *old(game_state),
        },
{
    if *state != MatchState::Playing {
        return ;
    }
    let mut i: usize = 0;
    while i < team_score_events.len()
        invariant
            i <= team_score_events@.len(),
            *old(state) == MatchState::Playing,
            *state == MatchState::Playing,
            *game_state == *old(game_state),
            first_winner(team_score_events@.take(i as int), rules.target_score) is None,
        decreases team_score_events@.len() - i,
    {
        proof {
            assert(team_score_events@.take(i + 1 as int).drop_last() =~= team_score_events@.take(
                i as int,
            ));
            assert(team_score_events@.take(i + 1 as int).last() == team_score_events@[i as int]);
            lemma_first_winner_push(
                team_score_events@.take(i as int),
                team_score_events@[i as int],
                rules.target_score,
            );
            assert(team_score_events@.take(i as int).push(team_score_events@[i as int])
                =~= team_score_events@.take(i + 1 as int));
        }
        if team_score_events[i].team_score >= rules.target_score {
            game_state.win_team_id = team_score_events[i].team_id;
            *state = MatchState::GameOver;
            proof {
                assert(first_winner(team_score_events@.take(i + 1 as int), rules.target_score)
                    == Some(team_score_events@[i as int].team_id));
                lemma_first_winner_take_stable(team_score_events@, rules.target_score, i + 1);
            }
            return ;
        }
        i = i + 1;
    }
    proof {
        assert(team_score_events@.take(team_score_events@.len() as int) =~= team_score_events@);
    }
}

/// Once a prefix of the batch has produced a winner, the whole batch
/// produces the same winner.
proof fn lemma_first_winner_take_stable(events: Seq<TeamScoreChangedEvent>, target: usize, j: int)
    requires
        0 <= j <= events.len(),
        first_winner(events.take(j), target) is Some,
    ensures
        first_winner(events, target) == first_winner(events.take(j), target),
    decreases events.len() - j,
{
    if j == events.len() {
        assert(events.take(j) =~= events);
    } else {
        assert(events.take(j + 1).drop_last() =~= events.take(j));
        assert(events.take(j + 1).last() == events[j]);
        lemma_first_winner_push(events.take(j), events[j], target);
        assert(events.take(j).push(events[j]) =~= events.take(j + 1));
        lemma_first_winner_take_stable(events, target, j + 1);
    }
}

} // verus!

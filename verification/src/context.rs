use vstd::prelude::*;
use crate::coin::{
    Coin, CoinPickedupEvent, NewCoinSpawnedEvent, beginplay_requests, coin_ids_below,
    coin_ids_distinct, despawn_picked, process_spawn_requests, replacement_requests, spawned_ok,
    survivors, total_coin_value,
};
use crate::collision::{
    detect_pickups, lemma_at_most_once_pickup, lemma_no_overlap_no_pickups,
    lemma_pickups_value_bound, lemma_survivors_empty, lemma_survivors_ids, lemma_survivors_len,
    score_events_of, spec_pickups, spec_score_events,
};
use crate::elapsed_time::{ElapsedClock, ElapsedSecondChangedEvent};
use crate::game::{GameDelayStart, GameState, MatchState, first_winner, game_state_update};
use crate::geom::{Pos2, overlaps, spec_sat_add_u64};
use crate::input_ext::{
    OperateInput, PlayerInputSettings, dir_x, dir_y, spec_after_keys,
};
use crate::player::{
    IncreasePlayerScoreEvent, Player, TeamScoreChangedEvent, increase_for,
    lemma_no_change_no_team_events, lemma_total_scores_pointwise, player_input_update,
    player_movement_update, player_score_update, spec_input_applied, spec_moved, spec_scored,
    spec_team_events, team_changed, team_total, teams_in_order, total_scores,
};
use crate::rules::GameRules;

verus! {

/// The notifications one tick hands to the presentation collaborator. All
/// queues are tick-scoped: populated by one tick and never carried over.
pub struct TickOutput {
    pub pickup_events: Vec<CoinPickedupEvent>,
    pub score_events: Vec<IncreasePlayerScoreEvent>,
    pub team_score_events: Vec<TeamScoreChangedEvent>,
    pub elapsed_events: Vec<ElapsedSecondChangedEvent>,
    /// The phase entered this tick, if the tick changed it; the winning
    /// team on GameOver is read from the match's `GameState`.
    pub phase_changed: Option<MatchState>,
}

/// One match's entire simulation state, passed explicitly into each tick:
/// rules, phase, entity tables, tick-scoped spawn queue, timers and input.
pub struct MatchContext {
    pub rules: GameRules,
    pub state: MatchState,
    pub game_state: GameState,
    pub players: Vec<Player>,
    pub coins: Vec<Coin>,
    /// Spawn requests carried to the next tick's lifecycle step.
    pub pending_spawns: Vec<NewCoinSpawnedEvent>,
    pub next_coin_id: u64,
    pub delay_start: GameDelayStart,
    pub clock: ElapsedClock,
    pub input: OperateInput,
    pub input_settings: PlayerInputSettings,
}

impl MatchContext {
    /// Well-formedness, preserved by every tick: coin identifiers are
    /// unique and below the id counter, the clock accumulator sits under
    /// one second, and the coin population matches the phase - empty
    /// outside Playing, and during Playing the live coins plus the queued
    /// replacements always account for exactly `max_coin_num`.
    pub open spec fn wf(self) -> bool {
        &&& self.rules.wf()
        &&& coin_ids_distinct(self.coins@)
        &&& coin_ids_below(self.coins@, self.next_coin_id)
        &&& self.clock.accum_millis < 1000
        &&& (self.state == MatchState::WaitingForBegin ==> self.coins@.len() == 0
            && self.pending_spawns@.len() == 0)
        &&& (self.state == MatchState::Playing ==> self.coins@.len()
            + self.pending_spawns@.len() == self.rules.max_coin_num)
        &&& (self.state == MatchState::GameOver ==> self.coins@.len() == 0
            && self.pending_spawns@.len() == 0)
    }

    /// Machine headroom one tick needs: scores plus live coin value stay
    /// summable, the second counter cannot wrap, and fresh coin ids remain.
    pub open spec fn tick_fits(self, dt_ms: u32) -> bool {
        &&& total_scores(self.players@) + total_coin_value(self.coins@) <= usize::MAX
        &&& self.clock.seconds + (self.clock.accum_millis + dt_ms) / 1000 <= usize::MAX
        &&& self.next_coin_id + self.pending_spawns@.len() <= u64::MAX
    }

    /// A fresh match: rules injected once, the given roster, no coins, and
    /// the delay countdown armed from the rules.
    pub fn new(rules: GameRules, players: Vec<Player>, input_settings: PlayerInputSettings) -> (m:
        Self)
        requires
            rules.wf(),
            rules.min_player_num <= players@.len() <= rules.max_player_num,
        ensures
            m.wf(),
            m.rules == rules,
            m.state == MatchState::WaitingForBegin,
            m.game_state.spec_win_team_id() == 0,
            m.players == players,
            m.coins@.len() == 0,
            m.pending_spawns@.len() == 0,
            m.next_coin_id == 0,
            m.delay_start.duration_millis == rules.delay_millis,
            m.delay_start.elapsed_millis == 0,
            !m.delay_start.finished,
            m.clock.accum_millis == 0,
            m.clock.seconds == 0,
            m.input == (OperateInput { frond: false, back: false, right: false, left: false }),
            m.input_settings == input_settings,
    {
        let delay_millis: u64 = rules.delay_millis;
        MatchContext {
            rules,
            state: MatchState::WaitingForBegin,
            game_state: GameState::new(),
            players,
            coins: Vec::new(),
            pending_spawns: Vec::new(),
            next_coin_id: 0,
            delay_start: GameDelayStart::new(delay_millis),
            clock: ElapsedClock::new(),
            input: OperateInput::new(),
            input_settings,
        }
    }
}

/// The held intent set after the tick's input-mapper step.
pub open spec fn input_after(m: MatchContext, jp: Seq<u32>, jr: Seq<u32>) -> OperateInput {
    spec_after_keys(m.input, m.input_settings.entries(), jp, jr)
}

/// The player table after the tick's movement steps.
pub open spec fn moved_players(m: MatchContext, dt_ms: u32, jp: Seq<u32>, jr: Seq<u32>) -> Seq<
    Player,
> {
    spec_moved(spec_input_applied(m.players@, input_after(m, jp, jr), dt_ms))
}

/// The tick's pickup batch: detection runs against the moved players and
/// the coins live at the start of the tick.
pub open spec fn tick_pickups(m: MatchContext, dt_ms: u32, jp: Seq<u32>, jr: Seq<u32>) -> Seq<
    CoinPickedupEvent,
> {
    spec_pickups(m.coins@, moved_players(m, dt_ms, jp, jr))
}

/// The tick's score-delta batch, one delta per pickup.
pub open spec fn tick_score_events(m: MatchContext, dt_ms: u32, jp: Seq<u32>, jr: Seq<u32>) -> Seq<
    IncreasePlayerScoreEvent,
> {
    spec_score_events(tick_pickups(m, dt_ms, jp, jr))
}

/// The player table at the end of the tick.
pub open spec fn scored_players(m: MatchContext, dt_ms: u32, jp: Seq<u32>, jr: Seq<u32>) -> Seq<
    Player,
> {
    spec_scored(moved_players(m, dt_ms, jp, jr), tick_score_events(m, dt_ms, jp, jr))
}

/// The tick's team notifications, over the updated table.
pub open spec fn tick_team_events(m: MatchContext, dt_ms: u32, jp: Seq<u32>, jr: Seq<u32>) -> Seq<
    TeamScoreChangedEvent,
> {
    spec_team_events(scored_players(m, dt_ms, jp, jr), tick_score_events(m, dt_ms, jp, jr))
}

/// The phase at the end of the tick: the delay countdown gates
/// `WaitingForBegin -> Playing`, the first team notification that reaches
/// the target gates `Playing -> GameOver`, and `GameOver` is terminal.
pub open spec fn tick_next_state(m: MatchContext, dt_ms: u32, jp: Seq<u32>, jr: Seq<u32>) -> MatchState {
    match m.state {
        MatchState::WaitingForBegin => if !m.delay_start.finished
            && m.delay_start.elapsed_millis + dt_ms >= m.delay_start.duration_millis {
            MatchState::Playing
        } else {
            MatchState::WaitingForBegin
        },
        MatchState::Playing => if first_winner(
            tick_team_events(m, dt_ms, jp, jr),
            m.rules.target_score,
        ) is Some {
            MatchState::GameOver
        } else {
            MatchState::Playing
        },
        MatchState::GameOver => MatchState::GameOver,
    }
}

impl MatchContext {
    /// One simulation tick, its steps in a fixed order: input mapping, movement,
    /// collision detection, score aggregation with coin lifecycle, the
    /// match state machine, and the elapsed clock.
    #[verifier::rlimit(60)]
    pub fn tick(&mut self, dt_ms: u32, just_pressed: &Vec<u32>, just_released: &Vec<u32>) -> (out:
        TickOutput)
        requires
            old(self).wf(),
            old(self).tick_fits(dt_ms),
        ensures
            final(self).wf(),
            final(self).rules == old(self).rules,
            final(self).input_settings == old(self).input_settings,
            final(self).input == input_after(*old(self), just_pressed@, just_released@),
            out.pickup_events@ == tick_pickups(*old(self), dt_ms, just_pressed@, just_released@),
            out.score_events@ == tick_score_events(
                *old(self),
                dt_ms,
                just_pressed@,
                just_released@,
            ),
            out.team_score_events@ == tick_team_events(
                *old(self),
                dt_ms,
                just_pressed@,
                just_released@,
            ),
            final(self).players@ == scored_players(
                *old(self),
                dt_ms,
                just_pressed@,
                just_released@,
            ),
            final(self).state == tick_next_state(*old(self), dt_ms, just_pressed@, just_released@),
            // a winner is recorded exactly when the match ends this tick
            (old(self).state == MatchState::Playing && final(self).state == MatchState::GameOver)
                ==> first_winner(
                tick_team_events(*old(self), dt_ms, just_pressed@, just_released@),
                old(self).rules.target_score,
            ) == Some(final(self).game_state.spec_win_team_id()),
            !(old(self).state == MatchState::Playing && final(self).state == MatchState::GameOver)
                ==> final(self).game_state == old(self).game_state,
            // the elapsed clock emits one ordered notification per second crossed
            final(self).clock.seconds == old(self).clock.seconds + (old(self).clock.accum_millis
                + dt_ms) / 1000,
            final(self).clock.accum_millis == (old(self).clock.accum_millis + dt_ms) % 1000,
            out.elapsed_events@.len() == (old(self).clock.accum_millis + dt_ms) / 1000,
            forall|k: int|
                0 <= k < out.elapsed_events@.len() ==> (#[trigger] out.elapsed_events@[k]).seconds
                    == old(self).clock.seconds + k + 1,
            // the delay countdown runs only while waiting for the match to begin
            old(self).state != MatchState::WaitingForBegin ==> final(self).delay_start == old(self).delay_start,
            old(self).state == MatchState::WaitingForBegin ==> final(self).delay_start.duration_millis == old(self).delay_start.duration_millis && (old(self).delay_start.finished ==> final(self).delay_start == old(self).delay_start) && (!old(self).delay_start.finished ==> final(self).delay_start.elapsed_millis == spec_sat_add_u64(
                old(self).delay_start.elapsed_millis as int,
                dt_ms as int,
            ) && final(self).delay_start.finished == (old(self).delay_start.elapsed_millis + dt_ms
                >= old(self).delay_start.duration_millis)),
            // coin lifecycle: steady state while Playing
            (old(self).state == MatchState::Playing && final(self).state == MatchState::Playing)
                ==> ({
                let surv = survivors(
                    old(self).coins@,
                    tick_pickups(*old(self), dt_ms, just_pressed@, just_released@),
                );
                &&& final(self).coins@.len() == surv.len() + old(self).pending_spawns@.len()
                &&& final(self).coins@.subrange(0, surv.len() as int) == surv
                &&& (forall|k: int|
                    surv.len() <= k < final(self).coins@.len() ==> spawned_ok(
                        #[trigger] final(self).coins@[k],
                        old(self).rules,
                    ))
                &&& (forall|k: int|
                    surv.len() <= k < final(self).coins@.len() ==> (#[trigger] final(self).coins@[k]).id == old(self).next_coin_id + k - surv.len())
                &&& final(self).pending_spawns@.len() == tick_pickups(
                    *old(self),
                    dt_ms,
                    just_pressed@,
                    just_released@,
                ).len()
                &&& final(self).next_coin_id == old(self).next_coin_id + old(self).pending_spawns@.len()
            }),
            final(self).state == MatchState::GameOver ==> final(self).coins@.len() == 0 && final(self).pending_spawns@.len() == 0,
            old(self).state == MatchState::WaitingForBegin ==> final(self).coins@ == old(self).coins@ && final(self).next_coin_id == old(self).next_coin_id,
            (old(self).state == MatchState::WaitingForBegin && final(self).state
                == MatchState::Playing) ==> final(self).pending_spawns@.len() == old(self).rules.max_coin_num,
            (old(self).state == MatchState::WaitingForBegin && final(self).state
                == MatchState::WaitingForBegin) ==> final(self).pending_spawns@ == old(self).pending_spawns@,
            old(self).state == MatchState::GameOver ==> final(self).coins@ == old(self).coins@
                && final(self).pending_spawns@ == old(self).pending_spawns@ && final(self).next_coin_id == old(self).next_coin_id,
            // scores only ever grow
            final(self).players@.len() == old(self).players@.len(),
            forall|i: int|
                0 <= i < old(self).players@.len() ==> (#[trigger] final(self).players@[i]).score
                    >= old(self).players@[i].score,
            // every reported team total is the recomputed member sum, and
            // only changed teams report
            forall|k: int|
                0 <= k < out.team_score_events@.len() ==> (#[trigger] out.team_score_events@[k]).team_score
                    == team_total(
                    final(self).players@,
                    out.team_score_events@[k].team_id,
                ) as usize && team_changed(
                    final(self).players@,
                    tick_score_events(*old(self), dt_ms, just_pressed@, just_released@),
                    out.team_score_events@[k].team_id,
                ),
            // the presentation collaborator hears of each phase change
            out.phase_changed == (if tick_next_state(*old(self), dt_ms, just_pressed@, just_released@)
                == old(self).state {
                Option::<MatchState>::None
            } else {
                Some(tick_next_state(*old(self), dt_ms, just_pressed@, just_released@))
            }),
            // at most one pickup notification per coin within one tick
            forall|k1: int, k2: int|
                0 <= k1 < k2 < out.pickup_events@.len() ==> out.pickup_events@[k1].coin
                    != out.pickup_events@[k2].coin,
            // a tick owed nothing changes nothing and emits nothing
            noop_tick(*old(self), dt_ms, just_pressed@, just_released@) ==> ({
                &&& out.pickup_events@.len() == 0
                &&& out.score_events@.len() == 0
                &&& out.team_score_events@.len() == 0
                &&& out.elapsed_events@.len() == 0
                &&& final(self).players@ == old(self).players@
                &&& final(self).coins@ == old(self).coins@
                &&& final(self).pending_spawns@ == old(self).pending_spawns@
                &&& final(self).state == old(self).state
                &&& final(self).game_state == old(self).game_state
                &&& final(self).input == old(self).input
                &&& final(self).clock.seconds == old(self).clock.seconds
            }),
    {
        let ghost m = *old(self);
        let prev_state: MatchState = self.state;
        // input mapper step
        self.input.update_from_keys(&self.input_settings, just_pressed, just_released);
        // movement accumulation and application
        player_input_update(&mut self.players, &self.input, dt_ms);
        player_movement_update(&mut self.players);
        proof {
            assert(self.players@ == moved_players(m, dt_ms, just_pressed@, just_released@));
            let ap = spec_input_applied(
                m.players@,
                input_after(m, just_pressed@, just_released@),
                dt_ms,
            );
            assert forall|i: int| 0 <= i < m.players@.len() implies (#[trigger] self.players@[i]).score
                == m.players@[i].score && self.players@[i].team_id == m.players@[i].team_id by {
                assert(spec_moved(ap)[i] == moved_player_at(ap, i));
            }
            lemma_total_scores_pointwise(m.players@, self.players@);
        }
        // collision detection
        let pickup_events = detect_pickups(&self.coins, &self.players);
        let score_events = score_events_of(&pickup_events);
        proof {
            lemma_pickups_value_bound(m.coins@, self.players@);
        }
        // score aggregation
        let team_score_events = player_score_update(&mut self.players, &score_events);
        // coin lifecycle, gated on Playing
        let ghost pk = pickup_events@;
        let playing = match self.state {
            MatchState::Playing => true,
            _ => false,
        };
        if playing {
            proof {
                lemma_survivors_len(m.coins@, moved_players(m, dt_ms, just_pressed@, just_released@));
                lemma_survivors_ids(m.coins@, pk, m.next_coin_id);
            }
            despawn_picked(&mut self.coins, &pickup_events);
            process_spawn_requests(
                &self.rules,
                &self.pending_spawns,
                &mut self.coins,
                &mut self.next_coin_id,
            );
            self.pending_spawns = replacement_requests(&pickup_events);
            proof {
                let surv = survivors(m.coins@, pk);
                assert forall|i: int, j: int|
                    0 <= i < j < self.coins@.len() implies (#[trigger] self.coins@[i]).id
                    != (#[trigger] self.coins@[j]).id by {
                    if i < surv.len() {
                        assert(self.coins@[i] == surv[i]);
                    }
                    if j < surv.len() {
                        assert(self.coins@[j] == surv[j]);
                    }
                }
                assert forall|i: int|
                    0 <= i < self.coins@.len() implies (#[trigger] self.coins@[i]).id
                    < self.next_coin_id by {
                    if i < surv.len() {
                        assert(self.coins@[i] == surv[i]);
                    }
                }
            }
        }
        // match state machine
        match self.state {
            MatchState::WaitingForBegin => {
                let began = self.delay_start.tick(dt_ms);
                if began {
                    self.state = MatchState::Playing;
                    self.pending_spawns = beginplay_requests(&self.rules);
                }
            },
            MatchState::Playing => {
                game_state_update(
                    &mut self.state,
                    &mut self.game_state,
                    &self.rules,
                    &team_score_events,
                );
                let over = match self.state {
                    MatchState::GameOver => true,
                    _ => false,
                };
                if over {
                    self.coins = Vec::new();
                    self.pending_spawns = Vec::new();
                }
            },
            MatchState::GameOver => {},
        }
        let phase_changed: Option<MatchState> = if self.state != prev_state {
            Some(self.state)
        } else {
            None
        };
        // elapsed clock
        let elapsed_events = self.clock.advance(dt_ms);
        let out = TickOutput {
            pickup_events,
            score_events,
            team_score_events,
            elapsed_events,
            phase_changed,
        };
        proof {
            lemma_at_most_once_pickup(
                m.coins@,
                moved_players(m, dt_ms, just_pressed@, just_released@),
            );
            if noop_tick(m, dt_ms, just_pressed@, just_released@) {
                lemma_noop_preserves(m, dt_ms, just_pressed@, just_released@);
                assert(self.coins@ =~= m.coins@);
                assert(self.pending_spawns@ =~= m.pending_spawns@);
                assert(self.players@ == m.players@);
            }
        }
        out
    }
}

/// The entry of the moved table: the movement steps touch position and
/// pending offset alone.
pub open spec fn moved_player_at(ap: Seq<Player>, i: int) -> Player {
    crate::player::moved_player(ap[i])
}

/// Under the no-op conditions the whole pipeline computes identities: the
/// intent set, the player table and every event batch stay as they were.
pub proof fn lemma_noop_preserves(m: MatchContext, dt_ms: u32, jp: Seq<u32>, jr: Seq<u32>)
    requires
        noop_tick(m, dt_ms, jp, jr),
    ensures
        input_after(m, jp, jr) == m.input,
        moved_players(m, dt_ms, jp, jr) == m.players@,
        tick_pickups(m, dt_ms, jp, jr) == Seq::<CoinPickedupEvent>::empty(),
        tick_score_events(m, dt_ms, jp, jr) == Seq::<IncreasePlayerScoreEvent>::empty(),
        scored_players(m, dt_ms, jp, jr) == m.players@,
        tick_team_events(m, dt_ms, jp, jr) == Seq::<TeamScoreChangedEvent>::empty(),
        tick_next_state(m, dt_ms, jp, jr) == m.state,
        survivors(m.coins@, tick_pickups(m, dt_ms, jp, jr)) == m.coins@,
{
    let st2 = input_after(m, jp, jr);
    assert(st2 == m.input);
    let ap = spec_input_applied(m.players@, st2, dt_ms);
    assert forall|i: int| 0 <= i < m.players@.len() implies ap[i] == m.players@[i] by {
        if i == 0 {
            assert(dir_x(st2) * crate::player::spec_move_delta(m.players@[0].speed, dt_ms) == 0);
            assert(dir_y(st2) * crate::player::spec_move_delta(m.players@[0].speed, dt_ms) == 0);
            assert(crate::player::input_player(m.players@[0], st2, dt_ms) == m.players@[0]);
        }
    }
    assert(ap =~= m.players@);
    let mv = moved_players(m, dt_ms, jp, jr);
    assert forall|i: int| 0 <= i < m.players@.len() implies mv[i] == m.players@[i] by {
        assert(mv[i] == crate::player::moved_player(ap[i]));
    }
    assert(mv =~= m.players@);
    lemma_no_overlap_no_pickups(m.coins@, mv);
    let sc = scored_players(m, dt_ms, jp, jr);
    assert forall|i: int| 0 <= i < m.players@.len() implies sc[i] == m.players@[i] by {
        assert(sc[i] == crate::player::scored_player(
            mv[i],
            increase_for(tick_score_events(m, dt_ms, jp, jr), i),
        ));
        assert(increase_for(tick_score_events(m, dt_ms, jp, jr), i) == 0);
    }
    assert(sc =~= m.players@);
    assert forall|i: int|
        0 <= i < sc.len() implies increase_for(tick_score_events(m, dt_ms, jp, jr), i) <= 0 by {}
    lemma_no_change_no_team_events(
        teams_in_order(sc),
        sc,
        tick_score_events(m, dt_ms, jp, jr),
    );
    lemma_survivors_empty(m.coins@);
    match m.state {
        MatchState::WaitingForBegin => {},
        MatchState::Playing => {},
        MatchState::GameOver => {},
    }
}

/// A tick owed nothing: no key transitions, no held intent, no pending
/// movement, no contact between any coin and any player, no queued spawn,
/// no second boundary crossed, and no delay expiry due.
pub open spec fn noop_tick(m: MatchContext, dt_ms: u32, jp: Seq<u32>, jr: Seq<u32>) -> bool {
    &&& jp.len() == 0
    &&& jr.len() == 0
    &&& dir_x(m.input) == 0
    &&& dir_y(m.input) == 0
    &&& forall|i: int|
        0 <= i < m.players@.len() ==> (#[trigger] m.players@[i]).pending_offset == (Pos2 {
            x: 0i64,
            y: 0i64,
        })
    &&& forall|j: int, p: int|
        0 <= j < m.coins@.len() && 0 <= p < m.players@.len() ==> !overlaps(
            (#[trigger] m.players@[p]).pos,
            m.players@[p].size,
            (#[trigger] m.coins@[j]).pos,
            m.coins@[j].size,
        )
    &&& m.pending_spawns@.len() == 0
    &&& m.clock.accum_millis + dt_ms < 1000
    &&& (m.state == MatchState::WaitingForBegin ==> m.delay_start.finished
        || m.delay_start.elapsed_millis + dt_ms < m.delay_start.duration_millis)
}

} // verus!

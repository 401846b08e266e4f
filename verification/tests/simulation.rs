use coin_match::coin::{Coin, CoinInfo};
use coin_match::context::MatchContext;
use coin_match::elapsed_time::ElapsedClock;
use coin_match::game::{game_state_update, GameDelayStart, GameState, MatchState};
use coin_match::geom::{Pos2, Size2};
use coin_match::input_ext::{OperateInput, PlayerInputSettings, PlayerOperate};
use coin_match::player::{setup, Player, TeamScoreChangedEvent};
use coin_match::rules::GameRules;

fn test_rules(max_coin_num: usize, target_score: usize, delay_millis: u64) -> GameRules {
    GameRules {
        max_coin_num,
        min_player_num: 1,
        max_player_num: 4,
        target_score,
        min_coin_score_value: 1,
        max_coin_score_value: 5,
        delay_millis,
        player_brick_size: Size2 { x: 50, y: 50 },
        coin_brick_size: Size2 { x: 25, y: 25 },
    }
}

fn player_at(team_id: usize, score: usize, x: i64, y: i64) -> Player {
    Player {
        name: String::from("p"),
        team_id,
        score,
        pos: Pos2 { x, y },
        size: Size2 { x: 50, y: 50 },
        speed: 500,
        pending_offset: Pos2 { x: 0, y: 0 },
    }
}

fn coin_at(id: u64, value: usize, x: i64, y: i64) -> Coin {
    Coin {
        id,
        info: CoinInfo { score_value: value },
        pos: Pos2 { x, y },
        size: Size2 { x: 25, y: 25 },
    }
}

/// A context already in the Playing phase, holding the given coins.
fn playing_context(rules: GameRules, players: Vec<Player>, coins: Vec<Coin>) -> MatchContext {
    let next_coin_id = coins.iter().map(|c| c.id + 1).max().unwrap_or(0);
    MatchContext {
        rules,
        state: MatchState::Playing,
        game_state: GameState::new(),
        players,
        coins,
        pending_spawns: Vec::new(),
        next_coin_id,
        delay_start: GameDelayStart::new(0),
        clock: ElapsedClock::new(),
        input: OperateInput::new(),
        input_settings: PlayerInputSettings::from_array(&Vec::new()),
    }
}

#[test]
fn dedup_example_one_coin_two_players() {
    // coin C (value 5) overlaps players P1 and P2 in the same tick
    let players = vec![player_at(1, 0, 0, 0), player_at(2, 0, 10, 0)];
    let coins = vec![coin_at(0, 5, 5, 0)];
    let mut m = playing_context(test_rules(1, 30, 0), players, coins);
    let out = m.tick(16, &Vec::new(), &Vec::new());
    // exactly one pickup notification and one score increase
    assert_eq!(out.pickup_events.len(), 1);
    assert_eq!(out.score_events.len(), 1);
    // exactly one of the two players receives +5 (the first in order)
    assert_eq!(m.players[0].score, 5);
    assert_eq!(m.players[1].score, 0);
    assert_eq!(out.team_score_events.len(), 1);
    assert_eq!(out.team_score_events[0].team_id, 1);
    assert_eq!(out.team_score_events[0].team_score, 5);
    // C is destroyed and exactly one replacement spawn request is enqueued
    assert_eq!(m.coins.len(), 0);
    assert_eq!(m.pending_spawns.len(), 1);
}

#[test]
fn steady_state_coin_count_recovers_after_each_pickup() {
    let players = vec![player_at(1, 0, 0, 0)];
    let coins = vec![coin_at(0, 2, 0, 0)];
    let mut m = playing_context(test_rules(1, 1000, 0), players, coins);
    for _ in 0..20 {
        m.tick(16, &Vec::new(), &Vec::new());
        // live coins plus queued replacements always account for the
        // configured population
        assert_eq!(m.coins.len() + m.pending_spawns.len(), 1);
    }
    // a tick after any pickup the replacement is live again; each
    // replacement is drawn from the configured value and position ranges
    for c in m.coins.iter() {
        assert!(1 <= c.info.score_value && c.info.score_value < 5);
        assert!(-300 <= c.pos.x && c.pos.x < 300);
        assert!(-300 <= c.pos.y && c.pos.y < 300);
    }
}

#[test]
fn monotonic_score_across_ticks() {
    let players = vec![player_at(1, 0, 0, 0), player_at(2, 3, 40, 0)];
    let coins = vec![coin_at(0, 3, 0, 0), coin_at(1, 4, 40, 0)];
    let mut m = playing_context(test_rules(2, 1000, 0), players, coins);
    let mut last = vec![m.players[0].score, m.players[1].score];
    for _ in 0..12 {
        m.tick(16, &Vec::new(), &Vec::new());
        for (i, p) in m.players.iter().enumerate() {
            assert!(p.score >= last[i]);
            last[i] = p.score;
        }
    }
}

#[test]
fn phase_transition_example_reaching_the_target_ends_the_match() {
    // team 1 reaches target_score = 30 through a pickup
    let players = vec![player_at(1, 25, 0, 0)];
    let coins = vec![coin_at(0, 5, 0, 0)];
    let mut m = playing_context(test_rules(1, 30, 0), players, coins);
    let out = m.tick(16, &Vec::new(), &Vec::new());
    assert_eq!(m.players[0].score, 30);
    assert_eq!(out.team_score_events.len(), 1);
    assert_eq!(out.team_score_events[0].team_score, 30);
    // the match is over, team 1 is recorded as winner, the coins are gone
    assert_eq!(out.phase_changed, Some(MatchState::GameOver));
    assert!(matches!(m.state, MatchState::GameOver));
    assert_eq!(m.game_state.get_win_team_id(), 1);
    assert_eq!(m.coins.len(), 0);
    assert_eq!(m.pending_spawns.len(), 0);
    // no further coin spawns occur afterwards
    for _ in 0..5 {
        let later = m.tick(16, &Vec::new(), &Vec::new());
        assert_eq!(m.coins.len(), 0);
        assert_eq!(later.pickup_events.len(), 0);
    }
}

#[test]
fn first_team_scanned_wins_a_tie() {
    let mut state = MatchState::Playing;
    let mut game_state = GameState::new();
    let rules = test_rules(1, 30, 0);
    let events = vec![
        TeamScoreChangedEvent { team_id: 2, team_score: 29 },
        TeamScoreChangedEvent { team_id: 1, team_score: 30 },
        TeamScoreChangedEvent { team_id: 3, team_score: 35 },
    ];
    game_state_update(&mut state, &mut game_state, &rules, &events);
    assert!(matches!(state, MatchState::GameOver));
    assert_eq!(game_state.get_win_team_id(), 1);
}

#[test]
fn delay_start_example_three_seconds_regardless_of_tick_rate() {
    // fine ticks: the match begins only once three simulated seconds passed
    let rules = test_rules(0, 30, 3000);
    let mut m = MatchContext::new(
        rules,
        vec![player_at(1, 0, 0, 0)],
        PlayerInputSettings::from_array(&Vec::new()),
    );
    for _ in 0..29 {
        m.tick(100, &Vec::new(), &Vec::new());
        // 2.9 simulated seconds: still waiting
        assert!(matches!(m.state, MatchState::WaitingForBegin));
    }
    m.tick(100, &Vec::new(), &Vec::new());
    assert!(matches!(m.state, MatchState::Playing));
    // the transition happened exactly once; the phase never goes back
    for _ in 0..5 {
        m.tick(100, &Vec::new(), &Vec::new());
        assert!(matches!(m.state, MatchState::Playing));
    }

    // one coarse tick: the same delay elapses at a completely different rate
    let rules2 = test_rules(0, 30, 3000);
    let mut m2 = MatchContext::new(
        rules2,
        vec![player_at(1, 0, 0, 0)],
        PlayerInputSettings::from_array(&Vec::new()),
    );
    m2.tick(2999, &Vec::new(), &Vec::new());
    assert!(matches!(m2.state, MatchState::WaitingForBegin));
    m2.tick(1, &Vec::new(), &Vec::new());
    assert!(matches!(m2.state, MatchState::Playing));
}

#[test]
fn elapsed_clock_example_ten_seconds_gives_ten_ordered_notifications() {
    let rules = test_rules(0, 30, 0);
    let mut m = MatchContext::new(
        rules,
        vec![player_at(1, 0, 0, 0)],
        PlayerInputSettings::from_array(&Vec::new()),
    );
    // 10.0 seconds of simulated time at an uneven tick rate
    let deltas: [u32; 7] = [1428, 1428, 1428, 1428, 1428, 1428, 1432];
    let mut seen: Vec<usize> = Vec::new();
    for dt in deltas {
        let out = m.tick(dt, &Vec::new(), &Vec::new());
        for ev in out.elapsed_events.iter() {
            seen.push(ev.seconds);
        }
    }
    assert_eq!(seen.len(), 10);
    for (k, s) in seen.iter().enumerate() {
        assert_eq!(*s, k + 1);
    }
}

#[test]
fn noop_tick_emits_nothing_and_changes_nothing() {
    let players = vec![player_at(1, 12, 0, 0)];
    let mut m = playing_context(test_rules(0, 30, 0), players, Vec::new());
    let out = m.tick(500, &Vec::new(), &Vec::new());
    assert_eq!(out.pickup_events.len(), 0);
    assert_eq!(out.score_events.len(), 0);
    assert_eq!(out.team_score_events.len(), 0);
    assert_eq!(out.elapsed_events.len(), 0);
    assert_eq!(out.phase_changed, None);
    assert!(matches!(m.state, MatchState::Playing));
    assert_eq!(m.players[0].score, 12);
    assert_eq!(m.players[0].pos, Pos2 { x: 0, y: 0 });
    assert_eq!(m.coins.len(), 0);
}

#[test]
fn held_input_moves_the_controlled_player_each_tick() {
    let mapping = vec![
        (87, PlayerOperate::MoveFrond),
        (83, PlayerOperate::MoveBack),
        (65, PlayerOperate::MoveLeft),
        (68, PlayerOperate::MoveRight),
    ];
    let players = vec![player_at(1, 0, 0, 0)];
    let mut m = playing_context(test_rules(0, 30, 0), players, Vec::new());
    m.input_settings = PlayerInputSettings::from_array(&mapping);
    // press right: speed 500 for one simulated second
    m.tick(999, &vec![68], &Vec::new());
    assert_eq!(m.players[0].pos.x, 499);
    // the key stays held: movement continues without new input events
    m.tick(500, &Vec::new(), &Vec::new());
    assert_eq!(m.players[0].pos.x, 749);
    // releasing stops movement within the same tick
    m.tick(999, &Vec::new(), &vec![68]);
    assert_eq!(m.players[0].pos.x, 749);
    // diagonal: forward and left together
    m.tick(1000, &vec![87, 65], &Vec::new());
    assert_eq!(m.players[0].pos.x, 249);
    assert_eq!(m.players[0].pos.y, 500);
}

#[test]
fn setup_creates_the_initial_roster() {
    let rules = GameRules::default();
    let players = setup(&rules);
    assert_eq!(players.len(), 1);
    assert_eq!(players[0].name, "Player 0");
    assert_eq!(players[0].team_id, 1);
    assert_eq!(players[0].score, 0);
    assert_eq!(players[0].pos, Pos2 { x: 0, y: -215 });
    assert_eq!(players[0].speed, 500);
}

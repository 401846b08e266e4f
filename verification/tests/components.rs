use coin_match::coin::{Coin, CoinInfo, CoinPickedupEvent};
use coin_match::collision::detect_pickups;
use coin_match::elapsed_time::ElapsedClock;
use coin_match::game::{GameDelayStart, GameState, MatchState};
use coin_match::geom::{boxes_overlap, sat_add_i64, sat_add_u64, Pos2, Size2};
use coin_match::input_ext::{OperateInput, PlayerInputSettings, PlayerOperate};
use coin_match::player::{player_score_update, IncreasePlayerScoreEvent, Player};
use coin_match::rules::GameRules;

fn player_at(team_id: usize, score: usize, x: i64, y: i64) -> Player {
    Player {
        name: String::from("p"),
        team_id,
        score,
        pos: Pos2 { x, y },
        size: Size2 { x: 50, y: 50 },
        speed: 500,
        pending_offset: Pos2 { x: 0, y: 0 },
    }
}

fn coin_at(id: u64, value: usize, x: i64, y: i64) -> Coin {
    Coin {
        id,
        info: CoinInfo { score_value: value },
        pos: Pos2 { x, y },
        size: Size2 { x: 25, y: 25 },
    }
}

#[test]
fn default_rules_match_the_configured_thresholds() {
    let rules = GameRules::default();
    assert_eq!(rules.max_coin_num, 3);
    assert_eq!(rules.min_player_num, 1);
    assert_eq!(rules.max_player_num, 2);
    assert_eq!(rules.target_score, 30);
    assert_eq!(rules.min_coin_score_value, 1);
    assert_eq!(rules.max_coin_score_value, 5);
    assert_eq!(rules.delay_millis, 0);
    assert_eq!(rules.player_brick_size, Size2 { x: 50, y: 50 });
    assert_eq!(rules.coin_brick_size, Size2 { x: 25, y: 25 });
}

#[test]
fn boxes_overlap_is_strict_on_the_boundary() {
    let a = Pos2 { x: 0, y: 0 };
    let sa = Size2 { x: 50, y: 50 };
    let sb = Size2 { x: 50, y: 50 };
    // centers exactly one full extent apart: edges touch, no overlap
    assert!(!boxes_overlap(a, sa, Pos2 { x: 50, y: 0 }, sb));
    // one unit closer: overlap
    assert!(boxes_overlap(a, sa, Pos2 { x: 49, y: 0 }, sb));
    // overlap must hold on both axes
    assert!(!boxes_overlap(a, sa, Pos2 { x: 49, y: 50 }, sb));
    assert!(boxes_overlap(a, sa, Pos2 { x: 0, y: 0 }, sb));
}

#[test]
fn saturating_adds_clamp_at_the_ends() {
    assert_eq!(sat_add_i64(1, 2), 3);
    assert_eq!(sat_add_i64(i64::MAX, 1), i64::MAX);
    assert_eq!(sat_add_i64(i64::MIN, -1), i64::MIN);
    assert_eq!(sat_add_i64(-5, 3), -2);
    assert_eq!(sat_add_u64(7, 8), 15);
    assert_eq!(sat_add_u64(u64::MAX, 2), u64::MAX);
}

#[test]
fn input_mapping_last_entry_wins_and_transitions_toggle_held_state() {
    let mapping: Vec<(u32, PlayerOperate)> = vec![
        (87, PlayerOperate::MoveFrond),
        (83, PlayerOperate::MoveBack),
        (65, PlayerOperate::MoveLeft),
        (68, PlayerOperate::MoveRight),
        (65, PlayerOperate::MoveRight),
    ];
    let settings = PlayerInputSettings::from_array(&mapping);
    // the later entry for key 65 shadows the earlier one
    assert_eq!(settings.lookup(65), Some(PlayerOperate::MoveRight));
    assert_eq!(settings.lookup(87), Some(PlayerOperate::MoveFrond));
    assert_eq!(settings.lookup(99), None);

    let mut held = OperateInput::new();
    held.update_from_keys(&settings, &vec![87, 68], &vec![]);
    assert!(held.pressed(PlayerOperate::MoveFrond));
    assert!(held.pressed(PlayerOperate::MoveRight));
    assert!(!held.pressed(PlayerOperate::MoveBack));
    // releasing one key leaves the other held
    held.update_from_keys(&settings, &vec![], &vec![87]);
    assert!(!held.pressed(PlayerOperate::MoveFrond));
    assert!(held.pressed(PlayerOperate::MoveRight));
    // a press and a release of the same key in one tick ends released
    held.update_from_keys(&settings, &vec![68], &vec![68]);
    assert!(!held.pressed(PlayerOperate::MoveRight));
}

#[test]
fn collision_reports_first_player_and_at_most_one_pickup_per_coin() {
    let players = vec![player_at(1, 0, 0, 0), player_at(2, 0, 10, 0)];
    // one coin overlapping both players: exactly one notification, for the
    // first player in iteration order
    let coins = vec![coin_at(7, 5, 5, 0)];
    let pickups = detect_pickups(&coins, &players);
    assert_eq!(pickups.len(), 1);
    assert_eq!(pickups[0].coin, 7);
    assert_eq!(pickups[0].player, 0);
    assert_eq!(pickups[0].value, 5);
    // a far-away coin is never reported
    let far = vec![coin_at(8, 3, 5000, 5000)];
    assert_eq!(detect_pickups(&far, &players).len(), 0);
}

#[test]
fn score_update_sums_deltas_and_reports_only_changed_teams() {
    let mut players = vec![
        player_at(1, 10, 0, 0),
        player_at(1, 0, 100, 0),
        player_at(2, 7, 200, 0),
    ];
    let events = vec![
        IncreasePlayerScoreEvent { player: 0, score_to_increase: 3 },
        IncreasePlayerScoreEvent { player: 0, score_to_increase: 2 },
        // a delta for an unknown player is skipped, not fatal
        IncreasePlayerScoreEvent { player: 9, score_to_increase: 5 },
    ];
    let team_events = player_score_update(&mut players, &events);
    // the two deltas for player 0 sum, they do not overwrite
    assert_eq!(players[0].score, 15);
    assert_eq!(players[1].score, 0);
    assert_eq!(players[2].score, 7);
    // only team 1 changed; its total is the recomputed member sum
    assert_eq!(team_events.len(), 1);
    assert_eq!(team_events[0].team_id, 1);
    assert_eq!(team_events[0].team_score, 15);
}

#[test]
fn score_update_without_deltas_reports_nothing() {
    let mut players = vec![player_at(1, 4, 0, 0), player_at(2, 9, 100, 0)];
    let team_events = player_score_update(&mut players, &vec![]);
    assert_eq!(team_events.len(), 0);
    assert_eq!(players[0].score, 4);
    assert_eq!(players[1].score, 9);
}

#[test]
fn delay_timer_fires_exactly_once_when_the_duration_elapses() {
    let mut timer = GameDelayStart::new(3000);
    assert!(!timer.tick(1000));
    assert!(!timer.tick(1999));
    assert!(timer.tick(1));
    // one-shot: it never fires again
    assert!(!timer.tick(5000));

    // a zero duration fires on the very first tick
    let mut at_once = GameDelayStart::new(0);
    assert!(at_once.tick(0));
    assert!(!at_once.tick(100));
}

#[test]
fn elapsed_clock_emits_one_ordered_notification_per_second() {
    let mut clock = ElapsedClock::new();
    let first = clock.advance(2500);
    assert_eq!(first.len(), 2);
    assert_eq!(first[0].seconds, 1);
    assert_eq!(first[1].seconds, 2);
    let none = clock.advance(400);
    assert_eq!(none.len(), 0);
    let rest = clock.advance(7100);
    assert_eq!(rest.len(), 8);
    for (k, ev) in rest.iter().enumerate() {
        assert_eq!(ev.seconds, 3 + k);
    }
    assert_eq!(clock.seconds, 10);
}

#[test]
fn win_team_id_defaults_to_zero() {
    let state = GameState::new();
    assert_eq!(state.get_win_team_id(), 0);
}

#[test]
fn pickup_event_carries_coin_player_and_value() {
    let ev = CoinPickedupEvent { coin: 3, player: 1, value: 4 };
    assert_eq!(ev.coin, 3);
    assert_eq!(ev.player, 1);
    assert_eq!(ev.value, 4);
    assert_eq!(MatchState::Playing, MatchState::Playing);
    assert_ne!(MatchState::Playing, MatchState::GameOver);
}

use vstd::prelude::*;
use crate::geom::Size2;

verus! {

/// Immutable per-match configuration: the single source of truth for every
/// threshold the simulation reads. Read-only after initialization.
pub struct GameRules {
    /// Greatest number of coins that may be live at once.
    pub max_coin_num: usize,
    /// Fewest players a match may begin with.
    pub min_player_num: usize,
    /// Most players a match may hold.
    pub max_player_num: usize,
    /// A team whose aggregate score reaches this total wins the match.
    pub target_score: usize,
    /// Coin values are drawn from `min_coin_score_value .. max_coin_score_value`.
    pub min_coin_score_value: usize,
    pub max_coin_score_value: usize,
    /// Delay before the match begins, in milliseconds; 0 starts at once.
    pub delay_millis: u64,
    /// Visual extent of a player's bounding box.
    pub player_brick_size: Size2,
    /// Visual extent of a coin's bounding box.
    pub coin_brick_size: Size2,
}

impl GameRules {
    /// Configurations the simulation accepts: a non-empty coin value range
    /// and a sensible player-count window.
    pub open spec fn wf(self) -> bool {
        &&& self.min_coin_score_value < self.max_coin_score_value
        &&& 1 <= self.min_player_num <= self.max_player_num
    }
}

impl Default for GameRules {
    fn default() -> (r: Self)
        ensures
            r.wf(),
            r.max_coin_num == 3,
            r.min_player_num == 1,
            r.max_player_num == 2,
            r.target_score == 30,
            r.min_coin_score_value == 1,
            r.max_coin_score_value == 5,
            r.delay_millis == 0,
            r.player_brick_size == (Size2 { x: 50, y: 50 }),
            r.coin_brick_size == (Size2 { x: 25, y: 25 }),
    {
        GameRules {
            max_coin_num: 3,
            min_player_num: 1,
            max_player_num: 2,
            target_score: 30,
            min_coin_score_value: 1,
            max_coin_score_value: 5,
            delay_millis: 0,
            player_brick_size: Size2 { x: 50, y: 50 },
            coin_brick_size: Size2 { x: 25, y: 25 },
        }
    }
}

} // verus!

use vstd::prelude::*;
use crate::coin::{
    Coin, CoinPickedupEvent, coin_ids_distinct, picked, survivors, total_coin_value,
};
use crate::geom::{boxes_overlap, overlaps};
use crate::player::{IncreasePlayerScoreEvent, Player, total_event_value};

verus! {

/// Index of the first player, from `i` on, whose bounding box overlaps the
/// coin: first-found wins, in player iteration order.
pub open spec fn first_overlap_from(players: Seq<Player>, c: Coin, i: int) -> Option<int>
    decreases players.len() - i,
{
    if i < 0 || i >= players.len() {
        None
    } else if overlaps(players[i].pos, players[i].size, c.pos, c.size) {
        Some(i)
    } else {
        first_overlap_from(players, c, i + 1)
    }
}

/// The pickup batch of one tick: for each coin, in order, one notification
/// against the first overlapping player, or none.
pub open spec fn spec_pickups(coins: Seq<Coin>, players: Seq<Player>) -> Seq<CoinPickedupEvent>
    decreases coins.len(),
{
    if coins.len() == 0 {
        Seq::<CoinPickedupEvent>::empty()
    } else {
        let rest = spec_pickups(coins.drop_last(), players);
        let c = coins.last();
        match first_overlap_from(players, c, 0) {
            Some(p) => rest.push(
                CoinPickedupEvent { coin: c.id, player: p as usize, value: c.info.score_value },
            ),
            None => rest,
        }
    }
}

/// The score-delta batch a pickup batch folds into: one delta per pickup,
/// crediting the collecting player with the coin's value.
pub open spec fn spec_score_events(pickups: Seq<CoinPickedupEvent>) -> Seq<IncreasePlayerScoreEvent>
    decreases pickups.len(),
{
    if pickups.len() == 0 {
        Seq::<IncreasePlayerScoreEvent>::empty()
    } else {
        spec_score_events(pickups.drop_last()).push(
            IncreasePlayerScoreEvent {
                player: pickups.last().player,
                score_to_increase: pickups.last().value,
            },
        )
    }
}

/// First overlapping player for one coin, or none.
fn find_first_overlap(players: &Vec<Player>, c: &Coin) -> (r: Option<usize>)
    ensures
        match r {
            Some(p) => first_overlap_from(players@, *c, 0) == Some(p as int),
            None => first_overlap_from(players@, *c, 0) is None,
        },
{
    let mut i: usize = 0;
    while i < players.len()
        invariant
            i <= players@.len(),
            first_overlap_from(players@, *c, 0) == first_overlap_from(players@, *c, i as int),
        decreases players@.len() - i,
    {
        if boxes_overlap(players[i].pos, players[i].size, c.pos, c.size) {
            return Some(i);
        }
        i = i + 1;
    }
    None
}

/// Collision Detector step: test every live coin against every live player
/// and emit at most one pickup notification per coin.
pub fn detect_pickups(coins: &Vec<Coin>, players: &Vec<Player>) -> (pickups: Vec<
    CoinPickedupEvent,
>)
    ensures
        pickups@ == spec_pickups(coins@, players@),
{
    let mut pickups: Vec<CoinPickedupEvent> = Vec::new();
    let mut i: usize = 0;
    while i < coins.len()
        invariant
            i <= coins@.len(),
            pickups@ == spec_pickups(coins@.take(i as int), players@),
        decreases coins@.len() - i,
    {
        proof {
            assert(coins@.take(i + 1 as int).drop_last() =~= coins@.take(i as int));
            assert(coins@.take(i + 1 as int).last() == coins@[i as int]);
        }
        match find_first_overlap(players, &coins[i]) {
            Some(p) => {
                pickups.push(
                    CoinPickedupEvent {
                        coin: coins[i].id,
                        player: p,
                        value: coins[i].info.score_value,
                    },
                );
            },
            None => (),
        }
        i = i + 1;
    }
    proof {
        assert(coins@.take(coins@.len() as int) =~= coins@);
    }
    pickups
}

/// Derive the tick's score-delta batch from its pickup batch.
pub fn score_events_of(pickups: &Vec<CoinPickedupEvent>) -> (events: Vec<IncreasePlayerScoreEvent>)
    ensures
        events@ == spec_score_events(pickups@),
{
    let mut events: Vec<IncreasePlayerScoreEvent> = Vec::new();
    let mut i: usize = 0;
    while i < pickups.len()
        invariant
            i <= pickups@.len(),
            events@ == spec_score_events(pickups@.take(i as int)),
        decreases pickups@.len() - i,
    {
        proof {
            assert(pickups@.take(i + 1 as int).drop_last() =~= pickups@.take(i as int));
        }
        events.push(
            IncreasePlayerScoreEvent {
                player: pickups[i].player,
                score_to_increase: pickups[i].value,
            },
        );
        i = i + 1;
    }
    proof {
        assert(pickups@.take(pickups@.len() as int) =~= pickups@);
    }
    events
}

/// Each pickup folds into exactly one score delta, crediting its player
/// with its value: a collected coin scores once and only once.
pub proof fn lemma_one_delta_per_pickup(pickups: Seq<CoinPickedupEvent>)
    ensures
        spec_score_events(pickups).len() == pickups.len(),
        forall|k: int|
            0 <= k < pickups.len() ==> (#[trigger] spec_score_events(pickups)[k]).player
                == pickups[k].player && spec_score_events(pickups)[k].score_to_increase
                == pickups[k].value,
    decreases pickups.len(),
{
    if pickups.len() > 0 {
        lemma_one_delta_per_pickup(pickups.drop_last());
        let rest = spec_score_events(pickups.drop_last());
        assert forall|k: int| 0 <= k < pickups.len() implies (#[trigger] spec_score_events(
            pickups,
        )[k]).player == pickups[k].player && spec_score_events(pickups)[k].score_to_increase
            == pickups[k].value by {
            if k < pickups.len() - 1 {
                assert(spec_score_events(pickups)[k] == rest[k]);
                assert(pickups.drop_last()[k] == pickups[k]);
            }
        }
    }
}

/// Every pickup of the batch names a live coin, with that coin's value and
/// a player the coin overlaps.
pub proof fn lemma_pickups_from_coins(coins: Seq<Coin>, players: Seq<Player>)
    ensures
        forall|k: int|
            0 <= k < spec_pickups(coins, players).len() ==> exists|j: int|
                0 <= j < coins.len() && (#[trigger] spec_pickups(coins, players)[k]).coin
                    == coins[j].id && spec_pickups(coins, players)[k].value
                    == coins[j].info.score_value,
    decreases coins.len(),
{
    if coins.len() > 0 {
        lemma_pickups_from_coins(coins.drop_last(), players);
        let rest = spec_pickups(coins.drop_last(), players);
        assert forall|k: int| 0 <= k < spec_pickups(coins, players).len() implies exists|j: int|
            0 <= j < coins.len() && (#[trigger] spec_pickups(coins, players)[k]).coin
                == coins[j].id && spec_pickups(coins, players)[k].value
                == coins[j].info.score_value by {
            if k < rest.len() {
                let j = choose|j: int|
                    0 <= j < coins.drop_last().len() && rest[k].coin == coins.drop_last()[j].id
                        && rest[k].value == coins.drop_last()[j].info.score_value;
                assert(coins[j] == coins.drop_last()[j]);
            } else {
                assert(spec_pickups(coins, players)[k].coin == coins[coins.len() - 1].id);
            }
        }
    }
}

/// At-most-once pickup: when live coins have distinct identifiers, no two
/// pickups of one tick name the same coin, and a coin is named exactly when
/// some player's bounding box overlaps it.
pub proof fn lemma_at_most_once_pickup(coins: Seq<Coin>, players: Seq<Player>)
    requires
        coin_ids_distinct(coins),
    ensures
        forall|k1: int, k2: int|
            0 <= k1 < k2 < spec_pickups(coins, players).len() ==> spec_pickups(coins, players)[k1]
                .coin != spec_pickups(coins, players)[k2].coin,
        forall|j: int|
            0 <= j < coins.len() ==> (picked(
                spec_pickups(coins, players),
                (#[trigger] coins[j]).id,
            ) <==> first_overlap_from(players, coins[j], 0) is Some),
    decreases coins.len(),
{
    if coins.len() > 0 {
        let d = coins.drop_last();
        assert(coin_ids_distinct(d)) by {
            assert(forall|i: int, j: int|
                0 <= i < j < d.len() ==> d[i] == coins[i] && d[j] == coins[j]);
        }
        lemma_at_most_once_pickup(d, players);
        lemma_pickups_from_coins(d, players);
        let rest = spec_pickups(d, players);
        let c = coins.last();
        let full = spec_pickups(coins, players);
        // the last coin's id never occurs in the earlier part of the batch
        assert forall|k: int| 0 <= k < rest.len() implies rest[k].coin != c.id by {
            let j = choose|j: int|
                0 <= j < d.len() && rest[k].coin == d[j].id && rest[k].value
                    == d[j].info.score_value;
            assert(coins[j].id != coins[coins.len() - 1].id);
        }
        assert forall|j: int|
            0 <= j < coins.len() implies (picked(full, (#[trigger] coins[j]).id)
            <==> first_overlap_from(players, coins[j], 0) is Some) by {
            if j < coins.len() - 1 {
                assert(coins[j] == d[j]);
                if picked(rest, coins[j].id) {
                    let k = choose|k: int| 0 <= k < rest.len() && rest[k].coin == coins[j].id;
                    assert(full[k] == rest[k]);
                }
                if picked(full, coins[j].id) {
                    let k = choose|k: int| 0 <= k < full.len() && full[k].coin == coins[j].id;
                    if k < rest.len() {
                        assert(rest[k] == full[k]);
                    } else {
                        assert(full[k].coin == c.id);
                        assert(coins[j].id != coins[coins.len() - 1].id);
                    }
                }
            } else {
                match first_overlap_from(players, c, 0) {
                    Some(p) => {
                        assert(full.last().coin == c.id);
                        assert(picked(full, c.id));
                    },
                    None => {
                        if picked(full, c.id) {
                            let k = choose|k: int| 0 <= k < full.len() && full[k].coin == c.id;
                            assert(rest[k].coin != c.id);
                        }
                    },
                }
            }
        }
    }
}

/// A tick's score-delta batch never hands out more than the total value of
/// the live coins it was detected against.
pub proof fn lemma_pickups_value_bound(coins: Seq<Coin>, players: Seq<Player>)
    ensures
        0 <= total_event_value(spec_score_events(spec_pickups(coins, players)))
            <= total_coin_value(coins),
    decreases coins.len(),
{
    if coins.len() == 0 {
    } else {
        lemma_pickups_value_bound(coins.drop_last(), players);
        lemma_coin_value_nonneg(coins.drop_last());
        let rest = spec_pickups(coins.drop_last(), players);
        let full = spec_pickups(coins, players);
        match first_overlap_from(players, coins.last(), 0) {
            Some(p) => {
                assert(full.drop_last() =~= rest);
                let se_full = spec_score_events(full);
                let se_rest = spec_score_events(rest);
                assert(se_full.drop_last() == se_rest);
                assert(se_full.last().score_to_increase == coins.last().info.score_value);
                assert(total_event_value(se_full) == total_event_value(se_rest)
                    + coins.last().info.score_value);
            },
            None => {
                assert(full == rest);
            },
        }
    }
}

pub proof fn lemma_coin_value_nonneg(coins: Seq<Coin>)
    ensures
        total_coin_value(coins) >= 0,
    decreases coins.len(),
{
    if coins.len() > 0 {
        lemma_coin_value_nonneg(coins.drop_last());
    }
}

/// Adding a pickup that names none of the coins leaves the survivor set as
/// it was.
pub proof fn lemma_survivors_extra_event(
    coins: Seq<Coin>,
    pickups: Seq<CoinPickedupEvent>,
    e: CoinPickedupEvent,
)
    requires
        forall|j: int| 0 <= j < coins.len() ==> (#[trigger] coins[j]).id != e.coin,
    ensures
        survivors(coins, pickups.push(e)) == survivors(coins, pickups),
    decreases coins.len(),
{
    if coins.len() > 0 {
        let d = coins.drop_last();
        assert(forall|j: int| 0 <= j < d.len() ==> (#[trigger] d[j]).id != e.coin) by {
            assert(forall|j: int| 0 <= j < d.len() ==> d[j] == coins[j]);
        }
        lemma_survivors_extra_event(d, pickups, e);
        let id = coins.last().id;
        assert(picked(pickups.push(e), id) == picked(pickups, id)) by {
            if picked(pickups, id) {
                let k = choose|k: int| 0 <= k < pickups.len() && pickups[k].coin == id;
                assert(pickups.push(e)[k].coin == id);
            }
            if picked(pickups.push(e), id) {
                let k = choose|k: int|
                    0 <= k < pickups.push(e).len() && pickups.push(e)[k].coin == id;
                if k < pickups.len() {
                    assert(pickups[k].coin == id);
                } else {
                    assert(e.coin == id);
                }
            }
        }
    }
}

/// One tick of detection and despawn balances exactly: survivors plus the
/// tick's pickups account for every live coin.
pub proof fn lemma_survivors_len(coins: Seq<Coin>, players: Seq<Player>)
    requires
        coin_ids_distinct(coins),
    ensures
        survivors(coins, spec_pickups(coins, players)).len() + spec_pickups(coins, players).len()
            == coins.len(),
    decreases coins.len(),
{
    if coins.len() > 0 {
        let d = coins.drop_last();
        let c = coins.last();
        assert(coin_ids_distinct(d)) by {
            assert(forall|i: int, j: int|
                0 <= i < j < d.len() ==> d[i] == coins[i] && d[j] == coins[j]);
        }
        lemma_survivors_len(d, players);
        lemma_at_most_once_pickup(coins, players);
        lemma_pickups_from_coins(d, players);
        let rest = spec_pickups(d, players);
        let full = spec_pickups(coins, players);
        assert(forall|j: int| 0 <= j < d.len() ==> (#[trigger] d[j]).id != c.id) by {
            assert(forall|j: int| 0 <= j < d.len() ==> d[j] == coins[j]);
            assert(forall|j: int|
                0 <= j < d.len() ==> (#[trigger] coins[j]).id != coins[coins.len() - 1].id);
        }
        match first_overlap_from(players, c, 0) {
            Some(p) => {
                let e = CoinPickedupEvent {
                    coin: c.id,
                    player: p as usize,
                    value: c.info.score_value,
                };
                assert(full == rest.push(e));
                lemma_survivors_extra_event(d, rest, e);
                assert(picked(full, c.id)) by {
                    assert(full.last().coin == c.id);
                }
                assert(survivors(coins, full) == survivors(d, full));
                assert(survivors(d, full) == survivors(d, rest));
            },
            None => {
                assert(full == rest);
                assert(!picked(full, c.id)) by {
                    lemma_at_most_once_pickup(coins, players);
                    assert(coins[coins.len() - 1] == c);
                }
                assert(survivors(coins, full) == survivors(d, rest).push(c));
            },
        }
    }
}

/// A survivor table invents nothing: each of its entries is one of the
/// coins it was filtered from.
pub proof fn lemma_survivors_sub(coins: Seq<Coin>, pickups: Seq<CoinPickedupEvent>)
    ensures
        forall|k: int|
            0 <= k < survivors(coins, pickups).len() ==> exists|j: int|
                0 <= j < coins.len() && #[trigger] survivors(coins, pickups)[k] == coins[j],
    decreases coins.len(),
{
    if coins.len() > 0 {
        let d = coins.drop_last();
        lemma_survivors_sub(d, pickups);
        let rest = survivors(d, pickups);
        assert forall|k: int| 0 <= k < survivors(coins, pickups).len() implies exists|j: int|
            0 <= j < coins.len() && #[trigger] survivors(coins, pickups)[k] == coins[j] by {
            if k < rest.len() {
                let j = choose|j: int| 0 <= j < d.len() && rest[k] == d[j];
                assert(survivors(coins, pickups)[k] == coins[j]);
            } else {
                assert(survivors(coins, pickups)[k] == coins[coins.len() - 1]);
            }
        }
    }
}

/// Despawning keeps identifiers unique and below any bound they were
/// below.
pub proof fn lemma_survivors_ids(coins: Seq<Coin>, pickups: Seq<CoinPickedupEvent>, bound: u64)
    requires
        coin_ids_distinct(coins),
        forall|i: int| 0 <= i < coins.len() ==> (#[trigger] coins[i]).id < bound,
    ensures
        coin_ids_distinct(survivors(coins, pickups)),
        forall|k: int|
            0 <= k < survivors(coins, pickups).len() ==> (#[trigger] survivors(coins, pickups)[k]).id
                < bound,
    decreases coins.len(),
{
    lemma_survivors_sub(coins, pickups);
    let surv = survivors(coins, pickups);
    assert forall|k: int| 0 <= k < surv.len() implies (#[trigger] surv[k]).id < bound by {
        let j = choose|j: int| 0 <= j < coins.len() && surv[k] == coins[j];
    }
    if coins.len() > 0 {
        let d = coins.drop_last();
        assert(coin_ids_distinct(d)) by {
            assert(forall|i: int, j: int|
                0 <= i < j < d.len() ==> d[i] == coins[i] && d[j] == coins[j]);
        }
        assert(forall|i: int| 0 <= i < d.len() ==> (#[trigger] d[i]).id < bound) by {
            assert(forall|i: int| 0 <= i < d.len() ==> d[i] == coins[i]);
        }
        lemma_survivors_ids(d, pickups, bound);
        lemma_survivors_sub(d, pickups);
        let rest = survivors(d, pickups);
        if !picked(pickups, coins.last().id) {
            assert forall|i: int, j: int| 0 <= i < j < surv.len() implies surv[i].id
                != surv[j].id by {
                if j < rest.len() {
                    assert(surv[i] == rest[i] && surv[j] == rest[j]);
                } else {
                    assert(surv[j] == coins.last());
                    assert(surv[i] == rest[i]);
                    let j2 = choose|j2: int| 0 <= j2 < d.len() && rest[i] == d[j2];
                    assert(coins[j2].id != coins[coins.len() - 1].id);
                }
            }
        }
    }
}

/// An empty pickup batch despawns nothing.
pub proof fn lemma_survivors_empty(coins: Seq<Coin>)
    ensures
        survivors(coins, Seq::<CoinPickedupEvent>::empty()) == coins,
    decreases coins.len(),
{
    if coins.len() > 0 {
        lemma_survivors_empty(coins.drop_last());
        assert(survivors(coins, Seq::<CoinPickedupEvent>::empty()) =~= coins);
    }
}

/// When no coin overlaps any player, the tick detects nothing.
pub proof fn lemma_no_overlap_no_pickups(coins: Seq<Coin>, players: Seq<Player>)
    requires
        forall|j: int, p: int|
            0 <= j < coins.len() && 0 <= p < players.len() ==> !overlaps(
                (#[trigger] players[p]).pos,
                players[p].size,
                (#[trigger] coins[j]).pos,
                coins[j].size,
            ),
    ensures
        spec_pickups(coins, players) == Seq::<CoinPickedupEvent>::empty(),
    decreases coins.len(),
{
    if coins.len() > 0 {
        let d = coins.drop_last();
        assert(forall|j: int| 0 <= j < d.len() ==> d[j] == coins[j]);
        lemma_no_overlap_no_pickups(d, players);
        lemma_no_overlap_first_none(players, coins.last(), 0);
    }
}

proof fn lemma_no_overlap_first_none(players: Seq<Player>, c: Coin, i: int)
    requires
        forall|p: int|
            0 <= p < players.len() ==> !overlaps(
                (#[trigger] players[p]).pos,
                players[p].size,
                c.pos,
                c.size,
            ),
    ensures
        first_overlap_from(players, c, i) is None,
    decreases players.len() - i,
{
    if 0 <= i < players.len() {
        lemma_no_overlap_first_none(players, c, i + 1);
    }
}

} // verus!

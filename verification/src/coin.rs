use vstd::prelude::*;
use rand::Rng;
use crate::geom::{Pos2, Size2};
use crate::rules::GameRules;

verus! {

/// Least x and y coordinate (inclusive) at which a coin may spawn.
pub const COIN_POS_MIN: i64 = -300;

/// Greatest x and y coordinate (exclusive) at which a coin may spawn.
pub const COIN_POS_MAX: i64 = 300;

/// A collectible entity: spawned by the Coin Lifecycle Manager, destroyed
/// exactly once upon pickup.
#[derive(Clone, Copy, PartialEq, Eq, Structural, Debug)]
pub struct Coin {
    /// Stable identifier, unique among all coins of a match.
    pub id: u64,
    pub info: CoinInfo,
    /// Center of the coin's bounding box.
    pub pos: Pos2,
    /// Extent of the coin's bounding box.
    pub size: Size2,
}

/// The score a coin is worth when picked up.
#[derive(Clone, Copy, PartialEq, Eq, Structural, Debug)]
pub struct CoinInfo {
    pub score_value: usize,
}

/// Pickup notification: at most one per coin per tick, carrying the coin,
/// the collecting player and the coin's value.
#[derive(Clone, Copy, PartialEq, Eq, Structural, Debug)]
pub struct CoinPickedupEvent {
    pub coin: u64,
    pub player: usize,
    pub value: usize,
}

/// Request to spawn one coin at the next tick's lifecycle step.
#[derive(Clone, Copy, PartialEq, Eq, Structural, Debug)]
pub struct NewCoinSpawnedEvent {}

/// No two coins of the table share an identifier.
pub open spec fn coin_ids_distinct(coins: Seq<Coin>) -> bool {
    forall|i: int, j: int| 0 <= i < j < coins.len() ==> coins[i].id != coins[j].id
}

/// Every coin identifier of the table is below `bound`.
pub open spec fn coin_ids_below(coins: Seq<Coin>, bound: u64) -> bool {
    forall|i: int| 0 <= i < coins.len() ==> coins[i].id < bound
}

/// Whether some pickup of the batch names the given coin.
pub open spec fn picked(pickups: Seq<CoinPickedupEvent>, id: u64) -> bool {
    exists|k: int| 0 <= k < pickups.len() && pickups[k].coin == id
}

/// The coins that survive a pickup batch, in their original order.
pub open spec fn survivors(coins: Seq<Coin>, pickups: Seq<CoinPickedupEvent>) -> Seq<Coin>
    decreases coins.len(),
{
    if coins.len() == 0 {
        coins
    } else {
        let rest = survivors(coins.drop_last(), pickups);
        if picked(pickups, coins.last().id) {
            rest
        } else {
            rest.push(coins.last())
        }
    }
}

/// Sum of the score values of all live coins.
pub open spec fn total_coin_value(coins: Seq<Coin>) -> int
    decreases coins.len(),
{
    if coins.len() == 0 {
        0
    } else {
        total_coin_value(coins.drop_last()) + coins.last().info.score_value
    }
}

/// A freshly spawned coin obeys the rules: its value was drawn from the
/// configured range, its position from the play bounds, and it carries the
/// configured visual size.
pub open spec fn spawned_ok(c: Coin, rules: GameRules) -> bool {
    &&& rules.min_coin_score_value <= c.info.score_value < rules.max_coin_score_value
    &&& COIN_POS_MIN <= c.pos.x < COIN_POS_MAX
    &&& COIN_POS_MIN <= c.pos.y < COIN_POS_MAX
    &&& c.size == rules.coin_brick_size
}

/// Relies on rand's `Rng::gen_range` over `lo..hi`: it returns a value of
/// the half-open range, and panics only when the range is empty.
#[verifier::external_body]
fn random_in_range(lo: usize, hi: usize) -> (r: usize)
    requires
        lo < hi,
    ensures
        lo <= r < hi,
{
    rand::thread_rng().gen_range(lo..hi)
}

/// One coin with randomized value and position, as the lifecycle manager
/// creates it for each spawn request.
pub fn spawn_coin(rules: &GameRules, id: u64) -> (c: Coin)
    requires
        rules.wf(),
    ensures
        c.id == id,
        spawned_ok(c, *rules),
{
    let value: usize = random_in_range(rules.min_coin_score_value, rules.max_coin_score_value);
    let span: usize = 600;
    let rx: usize = random_in_range(0, span);
    let ry: usize = random_in_range(0, span);
    Coin {
        id,
        info: CoinInfo { score_value: value },
        pos: Pos2 { x: COIN_POS_MIN + (rx as i64), y: COIN_POS_MIN + (ry as i64) },
        size: rules.coin_brick_size,
    }
}

/// Lifecycle step, spawn half: create one coin per pending request, each
/// with a fresh sequential identifier, appended after the live coins.
pub fn process_spawn_requests(
    rules: &GameRules,
    requests: &Vec<NewCoinSpawnedEvent>,
    coins: &mut Vec<Coin>,
    next_coin_id: &mut u64,
)
    requires
        rules.wf(),
        *old(next_coin_id) + requests@.len() <= u64::MAX,
    ensures
        final(coins)@.len() == old(coins)@.len() + requests@.len(),
        final(coins)@.subrange(0, old(coins)@.len() as int) == old(coins)@,
        forall|k: int|
            old(coins)@.len() <= k < final(coins)@.len() ==> spawned_ok(
                #[trigger] final(coins)@[k],
                *rules,
            ),
        forall|k: int|
            old(coins)@.len() <= k < final(coins)@.len() ==> (#[trigger] final(coins)@[k]).id
                == *old(next_coin_id) + (k - old(coins)@.len()),
        *final(next_coin_id) == *old(next_coin_id) + requests@.len(),
{
    let base: usize = coins.len();
    let mut i: usize = 0;
    while i < requests.len()
        invariant
            rules.wf(),
            i <= requests@.len(),
            *next_coin_id == *old(next_coin_id) + i,
            *old(next_coin_id) + requests@.len() <= u64::MAX,
            base == old(coins)@.len(),
            coins@.len() == base + i,
            coins@.subrange(0, base as int) == old(coins)@,
            forall|k: int| base <= k < coins@.len() ==> spawned_ok(#[trigger] coins@[k], *rules),
            forall|k: int|
                base <= k < coins@.len() ==> (#[trigger] coins@[k]).id == *old(next_coin_id) + (k
                    - base),
        decreases requests@.len() - i,
    {
        let c = spawn_coin(rules, *next_coin_id);
        coins.push(c);
        *next_coin_id = *next_coin_id + 1;
        proof {
            assert(coins@.subrange(0, base as int) =~= old(coins)@);
        }
        i = i + 1;
    }
}

/// On entering Playing: schedule exactly `max_coin_num` spawn requests,
/// one per coin of the initial population.
pub fn beginplay_requests(rules: &GameRules) -> (requests: Vec<NewCoinSpawnedEvent>)
    ensures
        requests@.len() == rules.max_coin_num,
{
    let mut requests: Vec<NewCoinSpawnedEvent> = Vec::new();
    let mut i: usize = 0;
    while i < rules.max_coin_num
        invariant
            i <= rules.max_coin_num,
            requests@.len() == i,
        decreases rules.max_coin_num - i,
    {
        requests.push(NewCoinSpawnedEvent {  });
        i = i + 1;
    }
    requests
}

/// On pickup: enqueue exactly one replacement spawn request per collected
/// coin, restoring the steady-state population one tick later.
pub fn replacement_requests(pickups: &Vec<CoinPickedupEvent>) -> (requests: Vec<
    NewCoinSpawnedEvent,
>)
    ensures
        requests@.len() == pickups@.len(),
{
    let mut requests: Vec<NewCoinSpawnedEvent> = Vec::new();
    let mut i: usize = 0;
    while i < pickups.len()
        invariant
            i <= pickups@.len(),
            requests@.len() == i,
        decreases pickups@.len() - i,
    {
        requests.push(NewCoinSpawnedEvent {  });
        i = i + 1;
    }
    requests
}

/// Whether the pickup batch names the given coin.
pub fn is_picked(pickups: &Vec<CoinPickedupEvent>, id: u64) -> (r: bool)
    ensures
        r == picked(pickups@, id),
{
    let mut k: usize = 0;
    while k < pickups.len()
        invariant
            k <= pickups@.len(),
            forall|k2: int| 0 <= k2 < k ==> pickups@[k2].coin != id,
        decreases pickups@.len() - k,
    {
        if pickups[k].coin == id {
            return true;
        }
        k = k + 1;
    }
    false
}

/// Lifecycle step, despawn half: destroy every coin a pickup of the batch
/// names, keeping the rest in order.
pub fn despawn_picked(coins: &mut Vec<Coin>, pickups: &Vec<CoinPickedupEvent>)
    ensures
        final(coins)@ == survivors(old(coins)@, pickups@),
{
    let mut kept: Vec<Coin> = Vec::new();
    let mut i: usize = 0;
    while i < coins.len()
        invariant
            i <= coins@.len(),
            coins@ == old(coins)@,
            kept@ == survivors(coins@.take(i as int), pickups@),
        decreases coins@.len() - i,
    {
        proof {
            assert(coins@.take(i + 1 as int).drop_last() =~= coins@.take(i as int));
        }
        if !is_picked(pickups, coins[i].id) {
            kept.push(coins[i]);
        }
        i = i + 1;
    }
    proof {
        assert(coins@.take(coins@.len() as int) =~= coins@);
    }
    *coins = kept;
}

} // verus!

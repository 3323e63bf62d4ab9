//! The epoch and pool coordinator: whether an epoch reset is due and who
//! sends it, and which reward pool a round's submission targets.
use vstd::prelude::*;

verus! {

/// One in this many coordinators sends the reset transaction of a due epoch.
pub const RESET_ODDS: u64 = 20;

/// A pool is only targeted while its balance exceeds this many times the
/// reward rate.
pub const HEADROOM_FACTOR: u64 = 4;

/// The ledger's state at the start of a round.
#[derive(Clone, Copy, Debug)]
pub struct ChainState {
    pub difficulty: [u8; 32],
    pub reward_rate: u64,
    pub last_reset_at: i64,
    pub epoch_duration: i64,
}

/// A shared reward pool and its balance.
#[derive(Clone, Copy, Debug, PartialEq, Eq)]
pub struct Pool {
    pub id: u64,
    pub rewards: u64,
}

/// Why no pool could be chosen.
#[derive(Clone, Copy, Debug, PartialEq, Eq)]
pub enum CoordError {
    /// Every allowed draw hit a pool without enough headroom.
    Exhausted,
}

/// What the coordinator decides for one attempt of a round.
#[derive(Clone, Copy, Debug, PartialEq, Eq)]
pub enum Attempt {
    /// The epoch is due: the round is abandoned, and the reset is sent by this
    /// coordinator only when `submit` holds.
    ResetEpoch { submit: bool },
    /// No reset is due: go on and target a pool.
    Mine,
}

/// `a + b`, held within the range of `i64`.
pub open spec fn sat_add_i64(a: i64, b: i64) -> int {
    let s = a + b;
    if s > i64::MAX {
        i64::MAX as int
    } else if s < i64::MIN {
        i64::MIN as int
    } else {
        s
    }
}

/// The moment from which the epoch is due for a reset.
pub fn reset_threshold(last_reset_at: i64, epoch_duration: i64) -> (r: i64)
    ensures
        r == sat_add_i64(last_reset_at, epoch_duration),
{
    let s: i128 = last_reset_at as i128 + epoch_duration as i128;
    if s > i64::MAX as i128 {
        i64::MAX
    } else if s < i64::MIN as i128 {
        i64::MIN
    } else {
        s as i64
    }
}

/// Whether the epoch is due for a reset at ledger time `clock`.
pub fn epoch_reset_due(state: &ChainState, clock: i64) -> (r: bool)
    ensures
        r == (clock >= sat_add_i64(state.last_reset_at, state.epoch_duration)),
{
    clock >= reset_threshold(state.last_reset_at, state.epoch_duration)
}

/// Whether a reset sample drawn from `0..RESET_ODDS` selects this
/// coordinator to send the reset.
pub fn reset_selected(sample: u64) -> (r: bool)
    ensures
        r == (sample == 0),
{
    sample == 0
}

/// Relies on `rand::Rng::gen_range` over the thread-local generator: a value
/// in `0..bound`, which panics on an empty range.
#[verifier::external_body]
fn draw_below(bound: u64) -> (r: u64)
    requires
        bound > 0,
    ensures
        r < bound,
{
    rand::Rng::gen_range(&mut rand::thread_rng(), 0..bound)
}

/// Draws the sample that decides whether this coordinator sends a due reset.
pub fn draw_reset_sample() -> (r: u64)
    ensures
        r < RESET_ODDS,
{
    draw_below(RESET_ODDS)
}

/// The decision for one attempt: reset when the epoch is due, with the sample
/// deciding whether this coordinator sends it; otherwise mine.
pub fn plan_attempt(state: &ChainState, clock: i64, sample: u64) -> (r: Attempt)
    ensures
        r == if clock >= sat_add_i64(state.last_reset_at, state.epoch_duration) {
            Attempt::ResetEpoch { submit: sample == 0 }
        } else {
            Attempt::Mine
        },
{
    if epoch_reset_due(state, clock) {
        Attempt::ResetEpoch { submit: reset_selected(sample) }
    } else {
        Attempt::Mine
    }
}

/// The headroom a pool's balance must exceed: four times the reward rate,
/// held at `u64::MAX`.
pub open spec fn headroom(reward_rate: u64) -> int {
    if HEADROOM_FACTOR * reward_rate > u64::MAX {
        u64::MAX as int
    } else {
        HEADROOM_FACTOR * reward_rate
    }
}

/// A pool with this balance may be targeted.
pub open spec fn eligible(rewards: u64, reward_rate: u64) -> bool {
    rewards > headroom(reward_rate)
}

/// Whether a pool with balance `rewards` may be targeted at `reward_rate`.
pub fn pool_has_headroom(rewards: u64, reward_rate: u64) -> (r: bool)
    ensures
        r == eligible(rewards, reward_rate),
{
    let limit: u64 = if reward_rate > u64::MAX / HEADROOM_FACTOR {
        u64::MAX
    } else {
        reward_rate * HEADROOM_FACTOR
    };
    rewards > limit
}

/// The pool that was fetched for a drawn id, if it may be targeted.
pub fn accept_pool(pool: Pool, reward_rate: u64) -> (r: Option<Pool>)
    ensures
        r == if eligible(pool.rewards, reward_rate) {
            Some(pool)
        } else {
            None
        },
{
    if pool_has_headroom(pool.rewards, reward_rate) {
        Some(pool)
    } else {
        None
    }
}

/// Draws a pool id among `pool_count` pools.
pub fn draw_pool_id(pool_count: u64) -> (r: u64)
    requires
        pool_count > 0,
    ensures
        r < pool_count,
{
    draw_below(pool_count)
}

/// The ids of the pools in `balances` that may be targeted, in order.
pub fn eligible_pools(balances: &Vec<u64>, reward_rate: u64) -> (r: Vec<usize>)
    ensures
        forall|k: int| 0 <= k < r.len() ==> #[trigger] r[k] < balances.len() && eligible(
            balances[r[k] as int],
            reward_rate,
        ),
        forall|i: int|
            0 <= i < balances.len() && eligible(#[trigger] balances[i], reward_rate) ==> r@.contains(
                i as usize,
            ),
        forall|k: int, l: int| 0 <= k < l < r.len() ==> r[k] < r[l],
{
    let mut out: Vec<usize> = Vec::new();
    let mut i: usize = 0;
    while i < balances.len()
        invariant
            i <= balances.len(),
            forall|k: int| 0 <= k < out.len() ==> #[trigger] out[k] < i && eligible(
                balances[out[k] as int],
                reward_rate,
            ),
            forall|j: int|
                0 <= j < i && eligible(#[trigger] balances[j], reward_rate) ==> out@.contains(
                    j as usize,
                ),
            forall|k: int, l: int| 0 <= k < l < out.len() ==> out[k] < out[l],
        decreases balances.len() - i,
    {
        if pool_has_headroom(balances[i], reward_rate) {
            let ghost prev = out@;
            out.push(i);
            assert forall|j: int|
                0 <= j < i && eligible(#[trigger] balances[j], reward_rate) implies out@.contains(
                    j as usize,
                ) by {
                assert(prev.contains(j as usize));
                let k = choose|k: int| 0 <= k < prev.len() && prev[k] == j as usize;
                assert(out@[k] == j as usize);
            }
            assert(out@[out.len() - 1] == i);
            assert(out@.contains(i));
        }
        i = i + 1;
    }
    out
}

/// How many pool draws a round makes before it gives up and starts over.
pub const MAX_POOL_DRAWS: u64 = 64;

/// The next move of the pool search once a draw has been made and its pool
/// fetched (or not).
#[derive(Clone, Copy, Debug, PartialEq, Eq)]
pub enum PoolStep {
    /// Target this pool.
    Accept { pool: Pool },
    /// Draw again; this is the number of the next draw, counted from zero.
    Retry { attempt: u64 },
    /// The allowed draws are used up.
    GiveUp,
}

/// The move after draw number `attempt` (counted from zero) of at most
/// `max_attempts`: a fetched pool with headroom is accepted; otherwise the
/// search draws again while draws are left.
pub open spec fn next_pool_step(
    attempt: u64,
    max_attempts: u64,
    fetched: Option<Pool>,
    reward_rate: u64,
) -> PoolStep {
    if fetched is Some && eligible(fetched.unwrap().rewards, reward_rate) {
        PoolStep::Accept { pool: fetched.unwrap() }
    } else if attempt + 1 < max_attempts {
        PoolStep::Retry { attempt: (attempt + 1) as u64 }
    } else {
        PoolStep::GiveUp
    }
}

/// Decides the move after one draw of the pool search; `fetched` is `None`
/// when the drawn pool could not be read.
pub fn pool_step(attempt: u64, max_attempts: u64, fetched: Option<Pool>, reward_rate: u64) -> (r:
    PoolStep)
    requires
        attempt < max_attempts,
    ensures
        r == next_pool_step(attempt, max_attempts, fetched, reward_rate),
{
    match fetched {
        Some(p) => {
            if pool_has_headroom(p.rewards, reward_rate) {
                return PoolStep::Accept { pool: p };
            }
        },
        None => {},
    }
    if attempt + 1 < max_attempts {
        PoolStep::Retry { attempt: attempt + 1 }
    } else {
        PoolStep::GiveUp
    }
}

/// Draws pool ids among `balances` at most `max_attempts` times and returns
/// the first drawn pool that may be targeted.
pub fn select_pool(balances: &Vec<u64>, reward_rate: u64, max_attempts: u64) -> (r: Result<
    Pool,
    CoordError,
>)
    ensures
        match r {
            Ok(p) => p.id < balances.len() && p.rewards == balances[p.id as int] && eligible(
                p.rewards,
                reward_rate,
            ),
            Err(e) => e == CoordError::Exhausted,
        },
        (forall|i: int| 0 <= i < balances.len() ==> !eligible(#[trigger] balances[i], reward_rate))
            ==> r == Err::<Pool, CoordError>(CoordError::Exhausted),
        max_attempts == 0 ==> r == Err::<Pool, CoordError>(CoordError::Exhausted),
        (max_attempts > 0 && balances.len() > 0 && forall|i: int|
            0 <= i < balances.len() ==> eligible(#[trigger] balances[i], reward_rate)) ==> r is Ok,
{
    let n = balances.len();
    if n == 0 || n as u128 > u64::MAX as u128 || max_attempts == 0 {
        return Err(CoordError::Exhausted);
    }
    let ghost all_eligible = forall|i: int|
        0 <= i < balances.len() ==> eligible(#[trigger] balances[i], reward_rate);
    let mut attempt: u64 = 0;
    loop
        invariant
            n == balances.len(),
            0 < n <= u64::MAX,
            attempt < max_attempts,
            all_eligible == forall|i: int|
                0 <= i < balances.len() ==> eligible(#[trigger] balances[i], reward_rate),
        decreases max_attempts - attempt,
    {
        let id = draw_pool_id(n as u64);
        let pool = Pool { id, rewards: balances[id as usize] };
        match pool_step(attempt, max_attempts, Some(pool), reward_rate) {
            PoolStep::Accept { pool: p } => {
                return Ok(p);
            },
            PoolStep::Retry { attempt: next } => {
                attempt = next;
            },
            PoolStep::GiveUp => {
                return Err(CoordError::Exhausted);
            },
        }
    }
}

/// A pool returned by the coordinator always has headroom: its balance
/// exceeds four times the reward rate.
pub proof fn lemma_selected_pool_has_headroom(p: Pool, reward_rate: u64)
    requires
        eligible(p.rewards, reward_rate),
    ensures
        p.rewards > HEADROOM_FACTOR * reward_rate,
{
}

} // verus!

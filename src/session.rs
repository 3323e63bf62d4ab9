//! The mining session: the miner's configuration, how a failed submission is
//! classified, and the round-level state machine that the runtime drives.
use vstd::prelude::*;
use crate::coord::Pool;
use crate::search::Solution;

verus! {

/// The configuration of a miner: where it connects and how it pays.
pub struct Miner {
    pub auth_filepath: Option<String>,
    pub feepayer_filepath: Option<String>,
    pub cluster: String,
    pub jito_fee: u64,
    pub jito_enable: bool,
    pub be_url: String,
}

impl Miner {
    /// A miner with the given endpoints, key sources and tip settings.
    pub fn new(
        cluster: String,
        be_url: String,
        feepayer_filepath: Option<String>,
        auth_filepath: Option<String>,
        jito_fee: u64,
        jito_enable: bool,
    ) -> (r: Self)
        ensures
            r.cluster@ == cluster@,
            r.be_url@ == be_url@,
            r.feepayer_filepath == feepayer_filepath,
            r.auth_filepath == auth_filepath,
            r.jito_fee == jito_fee,
            r.jito_enable == jito_enable,
    {
        Miner { auth_filepath, feepayer_filepath, cluster, jito_fee, jito_enable, be_url }
    }

    /// Whether a submission error names the stale-state program error, after
    /// which the round must start again from fresh state.
    pub fn should_break_loop(err_msg: &str) -> (r: bool)
        ensures
            r == has_substring(err_msg@, stale_state_marker()),
    {
        contains_str(err_msg, "custom program error: 0x3")
    }
}

/// The text by which the ledger reports that a submission used stale state.
pub open spec fn stale_state_marker() -> Seq<char> {
    "custom program error: 0x3"@
}

/// `p` occurs in `s` as a contiguous run.
pub open spec fn has_substring(s: Seq<char>, p: Seq<char>) -> bool {
    exists|i: int| 0 <= i && i + p.len() <= s.len() && #[trigger] s.subrange(i, i + p.len()) == p
}

/// The characters of a string, in order.
pub fn chars_of(s: &str) -> (r: Vec<char>)
    ensures
        r@ == s@,
{
    let n = s.unicode_len();
    let mut out: Vec<char> = Vec::new();
    let mut i: usize = 0;
    while i < n
        invariant
            n == s@.len(),
            i <= n,
            out@ == s@.subrange(0, i as int),
        decreases n - i,
    {
        out.push(s.get_char(i));
        i = i + 1;
        assert(out@ =~= s@.subrange(0, i as int));
    }
    assert(out@ =~= s@);
    out
}

/// Whether `p` occurs in `s` at position `i`.
fn occurs_at(s: &Vec<char>, p: &Vec<char>, i: usize) -> (r: bool)
    requires
        i + p.len() <= s.len(),
    ensures
        r == (s@.subrange(i as int, i + p.len()) == p@),
{
    let mut j: usize = 0;
    while j < p.len()
        invariant
            i + p.len() <= s.len(),
            j <= p.len(),
            s@.subrange(i as int, i + j) =~= p@.subrange(0, j as int),
        decreases p.len() - j,
    {
        if s[i + j] != p[j] {
            assert(s@.subrange(i as int, i + p.len())[j as int] != p@[j as int]);
            return false;
        }
        j = j + 1;
        assert(s@.subrange(i as int, i + j) =~= p@.subrange(0, j as int));
    }
    assert(p@ =~= p@.subrange(0, p.len() as int));
    true
}

/// Whether `p` occurs in `s`.
pub fn contains_str(s: &str, p: &str) -> (r: bool)
    ensures
        r == has_substring(s@, p@),
{
    let sc = chars_of(s);
    let pc = chars_of(p);
    if pc.len() > sc.len() {
        return false;
    }
    let last = sc.len() - pc.len();
    let mut i: usize = 0;
    loop
        invariant
            last == sc.len() - pc.len(),
            pc.len() <= sc.len(),
            i <= last,
            sc@ == s@,
            pc@ == p@,
            forall|k: int| 0 <= k < i ==> #[trigger] sc@.subrange(k, k + pc@.len()) != pc@,
        decreases last - i,
    {
        if occurs_at(&sc, &pc, i) {
            assert(s@.subrange(i as int, i + p@.len()) == p@);
            return true;
        }
        if i == last {
            return false;
        }
        i = i + 1;
    }
}

/// Where a mining session stands.
#[derive(Clone, Copy, Debug, PartialEq, Eq)]
pub enum Phase {
    Idle,
    Registering,
    RoundStart,
    Searching,
    Targeting,
    Submitting,
    Halted,
}

/// What the coordinator found for the current round.
#[derive(Clone, Copy, Debug, PartialEq, Eq)]
pub enum Targeting {
    /// The epoch is due; `submit` says whether this miner sends the reset.
    ResetDue { submit: bool },
    /// A pool with headroom was chosen.
    Chosen { pool: Pool },
    /// No pool with headroom was found within the allowed draws.
    NoPool,
}

/// What the runtime reports back after carrying out an action.
#[derive(Clone, Copy, Debug, PartialEq, Eq)]
pub enum Event {
    Start,
    Registered { ok: bool },
    SnapshotReady,
    SearchDone,
    Targeted { outcome: Targeting },
    Submitted { ok: bool, stale: bool },
}

/// What the runtime is to do next.
#[derive(Clone, Copy, Debug, PartialEq, Eq)]
pub enum Action {
    /// Make sure that every wallet has its proof account.
    Register,
    /// Fetch the chain state and the wallets' proofs.
    FetchSnapshot,
    /// Run one search per wallet.
    RunSearch,
    /// Ask the coordinator for a reset decision or a pool.
    Coordinate,
    /// Send the reset transactions, then fetch a fresh snapshot.
    SendReset,
    /// Submit the round's solutions against this pool.
    SubmitBundle { pool: Pool },
    /// Stop the session.
    Stop,
    /// The event does not belong to this phase: nothing to do.
    Ignore,
}

/// The session's transitions: from a phase and the event that ended its
/// work, the next phase and the action that starts it. Every submission,
/// accepted or not, and every due epoch lead to a fresh round, because
/// solutions serve once and the chain's parameters may have changed.
pub open spec fn transition(phase: Phase, event: Event) -> (Phase, Action) {
    match (phase, event) {
        (Phase::Idle, Event::Start) => (Phase::Registering, Action::Register),
        (Phase::Registering, Event::Registered { ok }) => if ok {
            (Phase::RoundStart, Action::FetchSnapshot)
        } else {
            (Phase::Halted, Action::Stop)
        },
        (Phase::RoundStart, Event::SnapshotReady) => (Phase::Searching, Action::RunSearch),
        (Phase::Searching, Event::SearchDone) => (Phase::Targeting, Action::Coordinate),
        (Phase::Targeting, Event::Targeted { outcome }) => match outcome {
            Targeting::ResetDue { submit } => if submit {
                (Phase::RoundStart, Action::SendReset)
            } else {
                (Phase::RoundStart, Action::FetchSnapshot)
            },
            Targeting::Chosen { pool } => (Phase::Submitting, Action::SubmitBundle { pool }),
            Targeting::NoPool => (Phase::RoundStart, Action::FetchSnapshot),
        },
        (Phase::Submitting, Event::Submitted { ok, stale }) => (
            Phase::RoundStart,
            Action::FetchSnapshot,
        ),
        _ => (phase, Action::Ignore),
    }
}

/// Takes one step of the session.
pub fn step(phase: Phase, event: Event) -> (r: (Phase, Action))
    ensures
        r == transition(phase, event),
{
    match (phase, event) {
        (Phase::Idle, Event::Start) => (Phase::Registering, Action::Register),
        (Phase::Registering, Event::Registered { ok }) => {
            if ok {
                (Phase::RoundStart, Action::FetchSnapshot)
            } else {
                (Phase::Halted, Action::Stop)
            }
        },
        (Phase::RoundStart, Event::SnapshotReady) => (Phase::Searching, Action::RunSearch),
        (Phase::Searching, Event::SearchDone) => (Phase::Targeting, Action::Coordinate),
        (Phase::Targeting, Event::Targeted { outcome }) => match outcome {
            Targeting::ResetDue { submit } => {
                if submit {
                    (Phase::RoundStart, Action::SendReset)
                } else {
                    (Phase::RoundStart, Action::FetchSnapshot)
                }
            },
            Targeting::Chosen { pool } => (Phase::Submitting, Action::SubmitBundle { pool }),
            Targeting::NoPool => (Phase::RoundStart, Action::FetchSnapshot),
        },
        (Phase::Submitting, Event::Submitted { ok: _, stale: _ }) => (
            Phase::RoundStart,
            Action::FetchSnapshot,
        ),
        _ => (phase, Action::Ignore),
    }
}

/// A submission is only ever made against a pool that the coordinator
/// chose, and once the session has halted it stays halted.
pub proof fn lemma_session_safety(phase: Phase, event: Event)
    ensures
        transition(phase, event).1 matches Action::SubmitBundle { pool } ==> event
            == (Event::Targeted { outcome: Targeting::Chosen { pool } }),
        phase == Phase::Halted ==> transition(phase, event).0 == Phase::Halted,
        (phase == Phase::Submitting && (event matches Event::Submitted { .. })) ==> transition(
            phase,
            event,
        ).0 == Phase::RoundStart,
{
}

/// One wallet's mine instruction: its solution, against the chosen pool.
#[derive(Clone, Copy, Debug, PartialEq, Eq)]
pub struct MineRequest {
    pub wallet: usize,
    pub pool_id: u64,
    pub hash: [u8; 32],
    pub nonce: u64,
}

/// The mine instructions of a round, one per wallet in wallet order, each
/// carrying that wallet's hash and nonce and the chosen pool.
pub fn mine_requests(solutions: &Vec<Solution>, pool: Pool) -> (r: Vec<MineRequest>)
    ensures
        r.len() == solutions.len(),
        forall|i: int|
            0 <= i < r.len() ==> (#[trigger] r[i]) == (MineRequest {
                wallet: i as usize,
                pool_id: pool.id,
                hash: solutions[i].hash,
                nonce: solutions[i].nonce,
            }),
{
    let mut out: Vec<MineRequest> = Vec::new();
    let mut i: usize = 0;
    while i < solutions.len()
        invariant
            i <= solutions.len(),
            out.len() == i,
            forall|j: int|
                0 <= j < i ==> (#[trigger] out[j]) == (MineRequest {
                    wallet: j as usize,
                    pool_id: pool.id,
                    hash: solutions[j].hash,
                    nonce: solutions[j].nonce,
                }),
        decreases solutions.len() - i,
    {
        let s = solutions[i];
        out.push(MineRequest { wallet: i, pool_id: pool.id, hash: s.hash, nonce: s.nonce });
        i = i + 1;
    }
    out
}

/// The indices of the wallets that still need a proof account, in order,
/// given for each wallet whether its account was found.
pub fn wallets_to_register(registered: &Vec<bool>) -> (r: Vec<usize>)
    ensures
        forall|k: int| 0 <= k < r.len() ==> #[trigger] r[k] < registered.len() && !registered[r[k] as int],
        forall|i: int| 0 <= i < registered.len() && !#[trigger] registered[i] ==> r@.contains(i as usize),
        forall|k: int, l: int| 0 <= k < l < r.len() ==> r[k] < r[l],
{
    let mut out: Vec<usize> = Vec::new();
    let mut i: usize = 0;
    while i < registered.len()
        invariant
            i <= registered.len(),
            forall|k: int| 0 <= k < out.len() ==> #[trigger] out[k] < i && !registered[out[k] as int],
            forall|j: int| 0 <= j < i && !#[trigger] registered[j] ==> out@.contains(j as usize),
            forall|k: int, l: int| 0 <= k < l < out.len() ==> out[k] < out[l],
        decreases registered.len() - i,
    {
        if !registered[i] {
            let ghost prev = out@;
            out.push(i);
            assert forall|j: int| 0 <= j < i && !#[trigger] registered[j] implies out@.contains(j as usize) by {
                assert(prev.contains(j as usize));
                let k = choose|k: int| 0 <= k < prev.len() && prev[k] == j as usize;
                assert(out@[k] == j as usize);
            }
            assert(out@[out.len() - 1] == i);
            assert(out@.contains(i));
        }
        i = i + 1;
    }
    out
}

} // verus!

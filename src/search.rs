//! The hash search engine: difficulty comparison, the partition of the nonce
//! space among workers, and the search itself.
use vstd::prelude::*;
use vstd::arithmetic::div_mod::{lemma_fundamental_div_mod, lemma_mod_pos_bound};
use vstd::arithmetic::mul::lemma_mul_inequality;

verus! {

/// Length in bytes of a digest, of a challenge and of a public key.
pub const DIGEST_LEN: usize = 32;

/// `a` is less than or equal to `b` in lexicographic byte order: the two are
/// equal, or they agree up to some position where `a` holds the smaller byte.
pub open spec fn digest_le(a: Seq<u8>, b: Seq<u8>) -> bool {
    a =~= b || exists|i: int|
        0 <= i < a.len() && i < b.len() && a.subrange(0, i) =~= b.subrange(0, i) && #[trigger] a[i]
            < b[i]
}

/// Compares two digests the way the ledger does: as 256-bit big-endian values.
pub fn hash_le(a: &[u8; 32], b: &[u8; 32]) -> (r: bool)
    ensures
        r == digest_le(a@, b@),
{
    let mut i: usize = 0;
    while i < DIGEST_LEN
        invariant
            0 <= i <= DIGEST_LEN,
            a@.len() == DIGEST_LEN,
            b@.len() == DIGEST_LEN,
            a@.subrange(0, i as int) =~= b@.subrange(0, i as int),
        decreases DIGEST_LEN - i,
    {
        if a[i] != b[i] {
            if a[i] < b[i] {
                return true;
            }
            assert(a@ != b@) by {
                assert(a@[i as int] != b@[i as int]);
            }
            assert forall|j: int|
                0 <= j < a@.len() && j < b@.len() && a@.subrange(0, j) =~= b@.subrange(0, j)
                    implies !(#[trigger] a@[j] < b@[j]) by {
                if j < i {
                    assert(a@[j] == a@.subrange(0, i as int)[j]);
                    assert(b@[j] == b@.subrange(0, i as int)[j]);
                } else if j > i {
                    assert(a@[i as int] == a@.subrange(0, j)[i as int]);
                    assert(b@[i as int] == b@.subrange(0, j)[i as int]);
                }
            }
            return false;
        }
        assert(a@.subrange(0, i + 1) =~= a@.subrange(0, i as int).push(a@[i as int]));
        assert(b@.subrange(0, i + 1) =~= b@.subrange(0, i as int).push(b@[i as int]));
        i = i + 1;
    }
    assert(a@ =~= a@.subrange(0, 32));
    assert(b@ =~= b@.subrange(0, 32));
    true
}

/// The digest that the ledger computes over a byte string: Keccak-256.
pub uninterp spec fn keccak256_of(data: Seq<u8>) -> Seq<u8>;

/// Relies on `solana_program::keccak::hashv`: the Keccak-256 digest of the
/// concatenation of the slices, a function of their bytes alone.
#[verifier::external_body]
fn keccak_hashv(a: &[u8], b: &[u8], c: &[u8]) -> (r: [u8; 32])
    ensures
        r@ == keccak256_of(a@ + b@ + c@),
{
    solana_program::keccak::hashv(&[a, b, c]).to_bytes()
}

/// The first `k` little-endian bytes of `n`.
pub open spec fn le_bytes_of(n: nat, k: nat) -> Seq<u8>
    decreases k,
{
    if k == 0 {
        Seq::empty()
    } else {
        seq![(n % 256) as u8] + le_bytes_of(n / 256, (k - 1) as nat)
    }
}

/// The eight little-endian bytes of a nonce.
pub open spec fn nonce_bytes(n: u64) -> Seq<u8> {
    le_bytes_of(n as nat, 8)
}

/// The hash of a candidate: the digest of challenge, public key and nonce.
pub open spec fn candidate_hash(challenge: Seq<u8>, pubkey: Seq<u8>, nonce: u64) -> Seq<u8> {
    keccak256_of(challenge + pubkey + nonce_bytes(nonce))
}

/// A nonce that solves the challenge for this key under the difficulty.
pub open spec fn solves(challenge: Seq<u8>, pubkey: Seq<u8>, difficulty: Seq<u8>, nonce: u64) -> bool {
    digest_le(candidate_hash(challenge, pubkey, nonce), difficulty)
}

/// A nonce together with the hash it produces.
#[derive(Clone, Copy, Debug, PartialEq, Eq)]
pub struct Solution {
    pub hash: [u8; 32],
    pub nonce: u64,
}

/// `s` is an accepted solution: its hash is the candidate hash of its nonce
/// and lies under the difficulty.
pub open spec fn valid_solution(
    challenge: Seq<u8>,
    pubkey: Seq<u8>,
    difficulty: Seq<u8>,
    s: Solution,
) -> bool {
    s.hash@ == candidate_hash(challenge, pubkey, s.nonce) && digest_le(s.hash@, difficulty)
}

/// Encodes a nonce as eight little-endian bytes.
pub fn nonce_to_le_bytes(nonce: u64) -> (r: Vec<u8>)
    ensures
        r@ == nonce_bytes(nonce),
{
    let mut out: Vec<u8> = Vec::new();
    let mut x: u64 = nonce;
    let mut i: usize = 0;
    while i < 8
        invariant
            0 <= i <= 8,
            out@ + le_bytes_of(x as nat, (8 - i) as nat) == le_bytes_of(nonce as nat, 8),
        decreases 8 - i,
    {
        let ghost before = out@;
        assert(le_bytes_of(x as nat, (8 - i) as nat) == seq![(x % 256) as u8] + le_bytes_of(
            (x / 256) as nat,
            (8 - i - 1) as nat,
        ));
        out.push((x % 256) as u8);
        assert(out@ + le_bytes_of((x / 256) as nat, (8 - i - 1) as nat) =~= before + (seq![
            (x % 256) as u8,
        ] + le_bytes_of((x / 256) as nat, (8 - i - 1) as nat)));
        x = x / 256;
        i = i + 1;
    }
    assert(le_bytes_of(x as nat, 0) =~= Seq::<u8>::empty());
    assert(out@ =~= out@ + le_bytes_of(x as nat, 0));
    out
}

/// Hashes one candidate nonce for a challenge and a public key.
pub fn hash_nonce(challenge: &[u8; 32], pubkey: &[u8; 32], nonce: u64) -> (r: [u8; 32])
    ensures
        r@ == candidate_hash(challenge@, pubkey@, nonce),
{
    let bytes = nonce_to_le_bytes(nonce);
    keccak_hashv(challenge.as_slice(), pubkey.as_slice(), bytes.as_slice())
}

/// Checks a solution afresh: hashes its nonce again and compares both the
/// hash and the difficulty.
pub fn verify_solution(challenge: &[u8; 32], pubkey: &[u8; 32], difficulty: &[u8; 32], s: &Solution) -> (r: bool)
    ensures
        r == valid_solution(challenge@, pubkey@, difficulty@, *s),
{
    let h = hash_nonce(challenge, pubkey, s.nonce);
    let mut same = true;
    let mut i: usize = 0;
    assert(h@.subrange(0, 0) =~= s.hash@.subrange(0, 0));
    while i < DIGEST_LEN
        invariant
            0 <= i <= DIGEST_LEN,
            h@.len() == DIGEST_LEN,
            s.hash@.len() == DIGEST_LEN,
            same == (h@.subrange(0, i as int) == s.hash@.subrange(0, i as int)),
        decreases DIGEST_LEN - i,
    {
        proof {
            assert(h@.subrange(0, i + 1) =~= h@.subrange(0, i as int).push(h@[i as int]));
            assert(s.hash@.subrange(0, i + 1) =~= s.hash@.subrange(0, i as int).push(s.hash@[i as int]));
            if h@.subrange(0, i + 1) == s.hash@.subrange(0, i + 1) {
                assert(h@.subrange(0, i + 1)[i as int] == s.hash@.subrange(0, i + 1)[i as int]);
                assert(h@.subrange(0, i as int) =~= h@.subrange(0, i + 1).drop_last());
                assert(s.hash@.subrange(0, i as int) =~= s.hash@.subrange(0, i + 1).drop_last());
            }
        }
        if h[i] != s.hash[i] {
            same = false;
        }
        i = i + 1;
    }
    assert(h@ =~= h@.subrange(0, 32));
    assert(s.hash@ =~= s.hash@.subrange(0, 32));
    same && hash_le(&s.hash, difficulty)
}

/// Searches the nonces `first..=last` in increasing order and returns the
/// first one whose hash lies under the difficulty, or `None` when none does.
pub fn search_range(
    challenge: &[u8; 32],
    pubkey: &[u8; 32],
    difficulty: &[u8; 32],
    first: u64,
    last: u64,
) -> (r: Option<Solution>)
    requires
        first <= last,
    ensures
        match r {
            Some(s) => {
                &&& first <= s.nonce <= last
                &&& valid_solution(challenge@, pubkey@, difficulty@, s)
                &&& forall|m: u64|
                    first <= m < s.nonce ==> !#[trigger] solves(challenge@, pubkey@, difficulty@, m)
            },
            None => forall|m: u64|
                first <= m <= last ==> !#[trigger] solves(challenge@, pubkey@, difficulty@, m),
        },
        difficulty@ == max_difficulty() ==> r.is_some() && r.unwrap().nonce == first,
{
    let mut nonce: u64 = first;
    loop
        invariant
            first <= nonce <= last,
            difficulty@ == max_difficulty() ==> nonce == first,
            forall|m: u64| first <= m < nonce ==> !#[trigger] solves(challenge@, pubkey@, difficulty@, m),
        decreases last - nonce,
    {
        let h = hash_nonce(challenge, pubkey, nonce);
        proof {
            if difficulty@ == max_difficulty() {
                lemma_every_digest_under_max(h@);
            }
        }
        if hash_le(&h, difficulty) {
            return Some(Solution { hash: h, nonce });
        }
        if nonce == last {
            return None;
        }
        nonce = nonce + 1;
    }
}

/// Searches the whole nonce space from zero upward.
pub fn find_next_hash(challenge: &[u8; 32], pubkey: &[u8; 32], difficulty: &[u8; 32]) -> (r: Option<
    Solution,
>)
    ensures
        match r {
            Some(s) => {
                &&& valid_solution(challenge@, pubkey@, difficulty@, s)
                &&& forall|m: u64| m < s.nonce ==> !#[trigger] solves(challenge@, pubkey@, difficulty@, m)
            },
            None => forall|m: u64| !#[trigger] solves(challenge@, pubkey@, difficulty@, m),
        },
        difficulty@ == max_difficulty() ==> r.is_some() && r.unwrap().nonce == 0,
{
    search_range(challenge, pubkey, difficulty, 0, u64::MAX)
}

/// The largest difficulty: thirty-two bytes of `0xff`.
pub open spec fn max_difficulty() -> Seq<u8> {
    Seq::new(32, |i: int| 0xffu8)
}

proof fn lemma_le_max_from(h: Seq<u8>, k: int)
    requires
        h.len() == 32,
        0 <= k <= 32,
        h.subrange(0, k) =~= max_difficulty().subrange(0, k),
    ensures
        digest_le(h, max_difficulty()),
    decreases 32 - k,
{
    if k == 32 {
        assert(h =~= h.subrange(0, 32));
        assert(max_difficulty() =~= max_difficulty().subrange(0, 32));
    } else if h[k] < 0xff {
        assert(h[k] < max_difficulty()[k]);
    } else {
        assert(h.subrange(0, k + 1) =~= h.subrange(0, k).push(h[k]));
        assert(max_difficulty().subrange(0, k + 1) =~= max_difficulty().subrange(0, k).push(0xffu8));
        lemma_le_max_from(h, k + 1);
    }
}

/// Width of the share of the nonce space that each of `threads` workers starts in.
pub open spec fn worker_stride(threads: int) -> int {
    u64::MAX as int / threads
}

/// The nonce that worker `index` of `threads` starts from.
pub open spec fn worker_first(index: int, threads: int) -> int {
    worker_stride(threads) * index
}

/// The last nonce of worker `index`'s range: the one before the next
/// worker's start, or the largest nonce for the last worker.
pub open spec fn worker_last(index: int, threads: int) -> int {
    if index + 1 < threads {
        worker_first(index + 1, threads) - 1
    } else {
        u64::MAX as int
    }
}

proof fn lemma_stride_bounds(threads: int, index: int)
    requires
        1 <= threads <= u64::MAX,
        0 <= index <= threads,
    ensures
        1 <= worker_stride(threads),
        0 <= worker_first(index, threads) <= u64::MAX,
{
    let w = worker_stride(threads);
    lemma_fundamental_div_mod(u64::MAX as int, threads);
    lemma_mod_pos_bound(u64::MAX as int, threads);
    assert(w >= 1) by (nonlinear_arith)
        requires
            w == u64::MAX as int / threads,
            1 <= threads <= u64::MAX,
    ;
    lemma_mul_inequality(index, threads, w);
    assert(index * w == w * index) by (nonlinear_arith);
    assert(threads * w == w * threads) by (nonlinear_arith);
    assert(0 <= w * index) by (nonlinear_arith)
        requires
            w >= 1,
            index >= 0,
    ;
}

/// The nonce that worker `index` of `threads` starts its search from.
pub fn worker_start(index: u64, threads: u64) -> (r: u64)
    requires
        1 <= threads,
        index < threads,
    ensures
        r == worker_first(index as int, threads as int),
{
    proof {
        lemma_stride_bounds(threads as int, index as int);
    }
    (u64::MAX / threads) * index
}

/// The last nonce of worker `index`'s range.
pub fn worker_end(index: u64, threads: u64) -> (r: u64)
    requires
        1 <= threads,
        index < threads,
    ensures
        r == worker_last(index as int, threads as int),
{
    if index + 1 < threads {
        proof {
            lemma_stride_bounds(threads as int, (index + 1) as int);
            lemma_stride_bounds(threads as int, index as int);
            assert(worker_first(index + 1, threads as int) == worker_first(index as int, threads as int)
                + worker_stride(threads as int)) by (nonlinear_arith);
        }
        worker_start(index + 1, threads) - 1
    } else {
        u64::MAX
    }
}

/// The workers' ranges cover every nonce: each nonce lies in the range of
/// some worker.
pub proof fn lemma_worker_ranges_cover(threads: u64, n: u64)
    requires
        threads >= 1,
    ensures
        exists|i: int|
            0 <= i < threads && worker_first(i, threads as int) <= n <= #[trigger] worker_last(
                i,
                threads as int,
            ),
{
    let t = threads as int;
    let w = worker_stride(t);
    lemma_stride_bounds(t, 0);
    let q = n as int / w;
    lemma_fundamental_div_mod(n as int, w);
    lemma_mod_pos_bound(n as int, w);
    assert(q >= 0) by (nonlinear_arith)
        requires
            q == n as int / w,
            w >= 1,
            n >= 0,
    ;
    let i = if q < t - 1 { q } else { t - 1 };
    assert(w * i <= w * q) by (nonlinear_arith)
        requires
            i <= q,
            w >= 1,
    ;
    if i + 1 < t {
        assert(w * (i + 1) == w * i + w) by (nonlinear_arith);
    }
    assert(worker_first(i, t) <= n <= worker_last(i, t));
}

/// The workers' ranges do not overlap: no nonce lies in two of them.
pub proof fn lemma_worker_ranges_disjoint(threads: u64, i: int, j: int, n: u64)
    requires
        threads >= 1,
        0 <= i < j < threads,
    ensures
        !(worker_first(i, threads as int) <= n <= worker_last(i, threads as int)
            && worker_first(j, threads as int) <= n <= worker_last(j, threads as int)),
{
    let t = threads as int;
    let w = worker_stride(t);
    lemma_stride_bounds(t, 0);
    assert(w * (i + 1) <= w * j) by (nonlinear_arith)
        requires
            i + 1 <= j,
            w >= 1,
    ;
}

/// How many nonces a worker tries between two looks at the shared slot.
pub const POLL_INTERVAL: u64 = 10_000;

/// The last nonce of the next batch that a worker at `cursor` searches
/// before it looks at the shared slot again; it never passes `last`.
pub fn batch_end(cursor: u64, last: u64) -> (r: u64)
    requires
        cursor <= last,
    ensures
        cursor <= r <= last,
        r == if last - cursor < POLL_INTERVAL {
            last as int
        } else {
            cursor + POLL_INTERVAL - 1
        },
{
    if last - cursor < POLL_INTERVAL {
        last
    } else {
        cursor + (POLL_INTERVAL - 1)
    }
}

/// A worker's position in its range of the nonce space.
#[derive(Clone, Copy, Debug, PartialEq, Eq)]
pub struct WorkerState {
    /// The next nonce to try.
    pub cursor: u64,
    /// The last nonce of the worker's range.
    pub last: u64,
}

/// What one batch of a worker's search came to.
#[derive(Clone, Copy, Debug, PartialEq, Eq)]
pub enum BatchOutcome {
    /// A solution was found in the batch.
    Found { solution: Solution },
    /// The batch held no solution; the worker goes on from its new cursor.
    Continue,
    /// The batch held no solution and the worker's range is used up.
    Exhausted,
}

/// The starting state of worker `index` of `threads`.
pub fn worker_init(index: u64, threads: u64) -> (r: WorkerState)
    requires
        1 <= threads,
        index < threads,
    ensures
        r.cursor == worker_first(index as int, threads as int),
        r.last == worker_last(index as int, threads as int),
        r.cursor <= r.last,
{
    let first = worker_start(index, threads);
    let last = worker_end(index, threads);
    proof {
        lemma_stride_bounds(threads as int, index as int);
        if index + 1 < threads {
            assert(worker_first(index + 1, threads as int) == worker_first(index as int, threads as int)
                + worker_stride(threads as int)) by (nonlinear_arith);
        }
    }
    WorkerState { cursor: first, last }
}

/// Searches the next batch of a worker's range, from its cursor up to at
/// most `POLL_INTERVAL` nonces, and moves the cursor past the batch.
pub fn run_batch(
    state: &mut WorkerState,
    challenge: &[u8; 32],
    pubkey: &[u8; 32],
    difficulty: &[u8; 32],
) -> (r: BatchOutcome)
    requires
        old(state).cursor <= old(state).last,
    ensures
        final(state).last == old(state).last,
        match r {
            BatchOutcome::Found { solution } => {
                &&& old(state).cursor <= solution.nonce <= old(state).last
                &&& valid_solution(challenge@, pubkey@, difficulty@, solution)
                &&& forall|m: u64|
                    old(state).cursor <= m < solution.nonce ==> !#[trigger] solves(
                        challenge@,
                        pubkey@,
                        difficulty@,
                        m,
                    )
            },
            BatchOutcome::Continue => {
                &&& final(state).cursor == old(state).cursor + POLL_INTERVAL
                &&& final(state).cursor <= final(state).last
                &&& forall|m: u64|
                    old(state).cursor <= m < final(state).cursor ==> !#[trigger] solves(
                        challenge@,
                        pubkey@,
                        difficulty@,
                        m,
                    )
            },
            BatchOutcome::Exhausted => forall|m: u64|
                old(state).cursor <= m <= old(state).last ==> !#[trigger] solves(
                    challenge@,
                    pubkey@,
                    difficulty@,
                    m,
                ),
        },
{
    let end = batch_end(state.cursor, state.last);
    match search_range(challenge, pubkey, difficulty, state.cursor, end) {
        Some(s) => BatchOutcome::Found { solution: s },
        None => {
            if end == state.last {
                BatchOutcome::Exhausted
            } else {
                state.cursor = end + 1;
                BatchOutcome::Continue
            }
        },
    }
}

/// The place where the workers of one search leave their result. The first
/// solution offered is kept; any later one is turned away.
pub struct SolutionSlot {
    winner: Option<Solution>,
}

impl View for SolutionSlot {
    type V = Option<Solution>;

    closed spec fn view(&self) -> Option<Solution> {
        self.winner
    }
}

impl SolutionSlot {
    /// An empty slot.
    pub fn new() -> (r: Self)
        ensures
            r@.is_none(),
    {
        SolutionSlot { winner: None }
    }

    /// Offers a solution: it is kept if and only if the slot was empty.
    pub fn offer(&mut self, s: Solution) -> (accepted: bool)
        ensures
            accepted == old(self)@.is_none(),
            final(self)@ == if old(self)@.is_none() {
                Some(s)
            } else {
                old(self)@
            },
    {
        if self.winner.is_none() {
            self.winner = Some(s);
            true
        } else {
            false
        }
    }

    /// Whether some worker has already left a solution.
    pub fn is_found(&self) -> (r: bool)
        ensures
            r == self@.is_some(),
    {
        self.winner.is_some()
    }

    /// The solution kept, if any.
    pub fn winner(&self) -> (r: Option<Solution>)
        ensures
            r == self@,
    {
        self.winner
    }
}

/// A returned solution checks again off the search: hashing its nonce anew
/// gives its hash, which lies under the difficulty, so `verify_solution`
/// accepts it.
pub proof fn lemma_solution_rehash(challenge: Seq<u8>, pubkey: Seq<u8>, difficulty: Seq<u8>, s: Solution)
    requires
        valid_solution(challenge, pubkey, difficulty, s),
    ensures
        candidate_hash(challenge, pubkey, s.nonce) == s.hash@,
        solves(challenge, pubkey, difficulty, s.nonce),
{
}

/// Every 32-byte digest lies under the largest difficulty.
pub proof fn lemma_every_digest_under_max(h: Seq<u8>)
    requires
        h.len() == 32,
    ensures
        digest_le(h, max_difficulty()),
{
    lemma_le_max_from(h, 0);
}

} // verus!

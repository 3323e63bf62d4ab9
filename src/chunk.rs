//! Packing of instructions and their signers into transaction chunks of a
//! bounded size, each paid by the fee payer, the last one carrying the tip.
use vstd::prelude::*;
use vstd::arithmetic::div_mod::{lemma_fundamental_div_mod, lemma_mod_pos_bound};

verus! {

/// The most instructions (and miner signers) that one chunk carries,
/// the tip aside.
pub const CHUNK_SIZE: usize = 5;

/// One transaction's worth of instructions with the identities that sign it.
pub struct Chunk<I, S> {
    pub instructions: Vec<I>,
    pub signers: Vec<S>,
}

/// How many chunks `n` instructions fill: `n / CHUNK_SIZE`, rounded up.
pub open spec fn chunk_count(n: int) -> int {
    (n + CHUNK_SIZE - 1) / CHUNK_SIZE as int
}

/// Index of the first instruction of chunk `k`.
pub open spec fn chunk_lo(k: int) -> int {
    CHUNK_SIZE * k
}

/// Index one past the last instruction of chunk `k`, out of `n`.
pub open spec fn chunk_hi(k: int, n: int) -> int {
    if CHUNK_SIZE * k + CHUNK_SIZE < n {
        CHUNK_SIZE * k + CHUNK_SIZE
    } else {
        n
    }
}

/// Chunk `k` of the partition of `ixs` and `signers`, as described by
/// `chunk_transactions`.
pub open spec fn chunk_matches<I, S>(
    c: Chunk<I, S>,
    k: int,
    ixs: Seq<I>,
    signers: Seq<S>,
    feepayer: S,
    tip: I,
) -> bool {
    let lo = chunk_lo(k);
    let hi = chunk_hi(k, ixs.len() as int);
    let last = k == chunk_count(ixs.len() as int) - 1;
    &&& c.signers@ == seq![feepayer] + signers.subrange(lo, hi)
    &&& c.instructions@ == if last {
        ixs.subrange(lo, hi).push(tip)
    } else {
        ixs.subrange(lo, hi)
    }
}

/// Chunk `k` exists for `n` instructions exactly when it starts before `n`.
proof fn lemma_chunk_exists(n: int, k: int)
    requires
        n >= 0,
        k >= 0,
    ensures
        k < chunk_count(n) <==> CHUNK_SIZE * k < n,
{
    let c = chunk_count(n);
    lemma_fundamental_div_mod(n + 4, 5);
    lemma_mod_pos_bound(n + 4, 5);
    let r = (n + 4) % 5;
    assert(k < c <==> 5 * k < n) by (nonlinear_arith)
        requires
            n + 4 == 5 * c + r,
            0 <= r < 5,
            k >= 0,
    ;
}

/// Index of the first instruction not yet placed once `k` chunks are built.
pub open spec fn placed(k: int, n: int) -> int {
    if CHUNK_SIZE * k < n {
        CHUNK_SIZE * k
    } else {
        n
    }
}

/// The chunks of `n` instructions tile them in order: each chunk holds
/// between one and `CHUNK_SIZE` of them, each begins where the one before
/// ended, and the last ends at `n`.
pub proof fn lemma_chunk_sizes(n: int, k: int)
    requires
        n >= 0,
        0 <= k < chunk_count(n),
    ensures
        1 <= chunk_hi(k, n) - chunk_lo(k) <= CHUNK_SIZE,
        k + 1 < chunk_count(n) ==> chunk_hi(k, n) == chunk_lo(k + 1),
        k + 1 == chunk_count(n) ==> chunk_hi(k, n) == n,
{
    lemma_chunk_exists(n, k);
    lemma_chunk_exists(n, k + 1);
}

/// Number of chunks for `n` instructions.
pub fn total_chunks(n: usize) -> (r: usize)
    ensures
        r == chunk_count(n as int),
{
    n / CHUNK_SIZE + if n % CHUNK_SIZE == 0 {
        0
    } else {
        1
    }
}

/// Splits `ixs` and the matching `signers` into consecutive chunks of at most
/// `CHUNK_SIZE`, keeping their order. Every chunk's signers start with the fee
/// payer; the last chunk's instructions end with the tip.
pub fn chunk_transactions<I, S: Copy>(ixs: Vec<I>, signers: Vec<S>, feepayer: S, tip: I) -> (r: Vec<
    Chunk<I, S>,
>)
    requires
        ixs.len() == signers.len(),
    ensures
        r.len() == chunk_count(ixs.len() as int),
        forall|k: int|
            0 <= k < r.len() ==> chunk_matches(#[trigger] r[k], k, ixs@, signers@, feepayer, tip),
{
    let n = ixs.len();
    let total = total_chunks(n);
    let ghost all_ixs = ixs@;
    let ghost all_signers = signers@;
    let mut rest_ixs = ixs;
    let mut rest_signers = signers;
    let mut chunks: Vec<Chunk<I, S>> = Vec::new();
    let mut k: usize = 0;
    while k < total
        invariant
            n == all_ixs.len(),
            n == all_signers.len(),
            total == chunk_count(n as int),
            k <= total,
            chunks.len() == k,
            rest_ixs@ == all_ixs.subrange(placed(k as int, n as int), n as int),
            rest_signers@ == all_signers.subrange(placed(k as int, n as int), n as int),
            forall|j: int|
                0 <= j < k ==> (#[trigger] chunks[j]).signers@ == seq![feepayer]
                    + all_signers.subrange(chunk_lo(j), chunk_hi(j, n as int))
                    && chunks[j].instructions@ == all_ixs.subrange(
                    chunk_lo(j),
                    chunk_hi(j, n as int),
                ),
        decreases total - k,
    {
        proof {
            lemma_chunk_exists(n as int, k as int);
            lemma_chunk_exists(n as int, k + 1);
        }
        let lo: usize = CHUNK_SIZE * k;
        let mut part_ixs: Vec<I> = Vec::new();
        let mut part_signers: Vec<S> = vec![feepayer];
        let mut m: usize = 0;
        while m < CHUNK_SIZE && rest_ixs.len() > 0
            invariant
                n == all_ixs.len(),
                n == all_signers.len(),
                lo == CHUNK_SIZE * k,
                m <= CHUNK_SIZE,
                lo + m <= n,
                part_ixs@ == all_ixs.subrange(lo as int, lo + m),
                part_signers@ == seq![feepayer] + all_signers.subrange(lo as int, lo + m),
                rest_ixs@ == all_ixs.subrange(lo + m, n as int),
                rest_signers@ == all_signers.subrange(lo + m, n as int),
            decreases CHUNK_SIZE - m,
        {
            let ix = rest_ixs.remove(0);
            let sg = rest_signers.remove(0);
            part_ixs.push(ix);
            part_signers.push(sg);
            m = m + 1;
            assert(part_ixs@ =~= all_ixs.subrange(lo as int, lo + m));
            assert(part_signers@ =~= seq![feepayer] + all_signers.subrange(lo as int, lo + m));
            assert(rest_ixs@ =~= all_ixs.subrange(lo + m, n as int));
            assert(rest_signers@ =~= all_signers.subrange(lo + m, n as int));
        }
        assert(lo + m == chunk_hi(k as int, n as int));
        assert(lo + m == placed(k + 1, n as int));
        chunks.push(Chunk { instructions: part_ixs, signers: part_signers });
        k = k + 1;
    }
    if total > 0 {
        let mut last = chunks.pop().unwrap();
        last.instructions.push(tip);
        chunks.push(last);
    }
    chunks
}

/// Length in bytes of one transaction signature.
pub const SIGNATURE_LEN: usize = 64;

/// Bytes taken by the compact (variable-length) encoding of a count of
/// signatures: seven bits per byte.
pub open spec fn compact_count_len(n: int) -> int {
    if n < 0x80 {
        1
    } else if n < 0x4000 {
        2
    } else {
        3
    }
}

/// Encoded size of a transaction whose message encodes to `message_len`
/// bytes and which carries `signatures` signatures.
pub open spec fn encoded_transaction_len(message_len: int, signatures: int) -> int {
    compact_count_len(signatures) + SIGNATURE_LEN * signatures + message_len
}

/// Whether a chunk's transaction, with its message encoded in `message_len`
/// bytes and signed by `signatures` signers, fits within `limit` bytes.
pub fn transaction_fits(message_len: usize, signatures: usize, limit: usize) -> (r: bool)
    ensures
        r == (encoded_transaction_len(message_len as int, signatures as int) <= limit),
{
    let count_len: u128 = if signatures < 0x80 {
        1
    } else if signatures < 0x4000 {
        2
    } else {
        3
    };
    assert((SIGNATURE_LEN as u128) * (signatures as u128) <= 64 * (usize::MAX as int)) by (nonlinear_arith)
        requires
            signatures <= usize::MAX,
    ;
    let total: u128 = count_len + (SIGNATURE_LEN as u128) * (signatures as u128) + message_len as u128;
    total <= limit as u128
}

} // verus!

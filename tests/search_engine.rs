use ore_miner::search::{
    batch_end, find_next_hash, hash_le, hash_nonce, nonce_to_le_bytes, run_batch, search_range,
    verify_solution, worker_end, worker_init, worker_start, BatchOutcome, Solution, SolutionSlot,
    POLL_INTERVAL,
};

fn challenge() -> [u8; 32] {
    let mut c = [0u8; 32];
    for (i, b) in c.iter_mut().enumerate() {
        *b = (i as u8).wrapping_mul(7).wrapping_add(3);
    }
    c
}

fn pubkey() -> [u8; 32] {
    let mut p = [0u8; 32];
    for (i, b) in p.iter_mut().enumerate() {
        *b = 200u8.wrapping_sub(i as u8);
    }
    p
}

fn easy_difficulty() -> [u8; 32] {
    let mut d = [0xffu8; 32];
    d[0] = 0x0f;
    d
}

#[test]
fn hash_le_orders_bytes_lexicographically() {
    let a = [1u8; 32];
    let mut b = [1u8; 32];
    assert!(hash_le(&a, &b));
    b[31] = 0;
    assert!(!hash_le(&a, &b));
    assert!(hash_le(&b, &a));
    let mut c = [0u8; 32];
    c[0] = 2;
    assert!(hash_le(&a, &c));
    assert!(!hash_le(&c, &a));
}

#[test]
fn nonce_bytes_are_little_endian() {
    assert_eq!(nonce_to_le_bytes(0x0102030405060708), vec![8, 7, 6, 5, 4, 3, 2, 1]);
    assert_eq!(nonce_to_le_bytes(0), vec![0; 8]);
    assert_eq!(nonce_to_le_bytes(u64::MAX), vec![0xff; 8]);
}

#[test]
fn hash_nonce_is_a_digest_of_its_inputs() {
    let c = challenge();
    let p = pubkey();
    let h0 = hash_nonce(&c, &p, 0);
    let h1 = hash_nonce(&c, &p, 1);
    assert_ne!(h0, c);
    assert_ne!(h0, p);
    assert_ne!(h0, h1);
    assert_eq!(h0, hash_nonce(&c, &p, 0));
}

#[test]
fn search_finds_a_valid_solution() {
    let c = challenge();
    let p = pubkey();
    let d = easy_difficulty();
    let s = search_range(&c, &p, &d, 0, 100_000).expect("a solution under an easy target");
    assert!(hash_le(&s.hash, &d));
    assert_eq!(s.hash, hash_nonce(&c, &p, s.nonce));
    for m in 0..s.nonce {
        assert!(!hash_le(&hash_nonce(&c, &p, m), &d));
    }
}

#[test]
fn rehashing_the_result_reproduces_it() {
    let c = challenge();
    let p = pubkey();
    let d = easy_difficulty();
    let s = find_next_hash(&c, &p, &d).expect("a solution under an easy target");
    assert!(verify_solution(&c, &p, &d, &s));
    let forged = Solution { hash: [0u8; 32], nonce: s.nonce };
    assert!(!verify_solution(&c, &p, &d, &forged));
}

#[test]
fn maximal_difficulty_accepts_first_nonce() {
    let c = challenge();
    let p = pubkey();
    let d = [0xffu8; 32];
    let s = find_next_hash(&c, &p, &d).unwrap();
    assert_eq!(s.nonce, 0);
    let t = search_range(&c, &p, &d, 77, 1000).unwrap();
    assert_eq!(t.nonce, 77);
}

#[test]
fn zero_difficulty_finds_nothing_in_a_small_range() {
    let c = challenge();
    let p = pubkey();
    let d = [0u8; 32];
    assert_eq!(search_range(&c, &p, &d, 10, 500), None);
}

#[test]
fn worker_ranges_partition_the_nonce_space() {
    for threads in [1u64, 2, 3, 4, 7, 16] {
        assert_eq!(worker_start(0, threads), 0);
        assert_eq!(worker_end(threads - 1, threads), u64::MAX);
        for i in 0..threads {
            assert_eq!(worker_start(i, threads), (u64::MAX / threads) * i);
            assert!(worker_start(i, threads) <= worker_end(i, threads));
            if i + 1 < threads {
                assert_eq!(worker_end(i, threads) + 1, worker_start(i + 1, threads));
            }
        }
    }
    assert_eq!(worker_end(0, 1), u64::MAX);
    assert_eq!(worker_start(1, 2), u64::MAX / 2);
}

#[test]
fn batches_stop_at_the_poll_interval_and_the_range_end() {
    assert_eq!(batch_end(0, u64::MAX), POLL_INTERVAL - 1);
    assert_eq!(batch_end(5, 10), 10);
    assert_eq!(batch_end(u64::MAX, u64::MAX), u64::MAX);
}

#[test]
fn worker_batches_advance_and_find() {
    let c = challenge();
    let p = pubkey();
    let mut st = worker_init(1, 4);
    assert_eq!(st.cursor, (u64::MAX / 4) * 1);
    let zero = [0u8; 32];
    let start = st.cursor;
    assert_eq!(run_batch(&mut st, &c, &p, &zero), BatchOutcome::Continue);
    assert_eq!(st.cursor, start + POLL_INTERVAL);
    assert_eq!(st.last, (u64::MAX / 4) * 2 - 1);
    let d = easy_difficulty();
    match run_batch(&mut st, &c, &p, &d) {
        BatchOutcome::Found { solution } => {
            assert!(verify_solution(&c, &p, &d, &solution));
            assert!(solution.nonce >= start + POLL_INTERVAL);
        }
        other => panic!("expected a solution, got {:?}", other),
    }
    let mut tail = worker_init(0, 1);
    tail.cursor = u64::MAX - 3;
    assert_eq!(run_batch(&mut tail, &c, &p, &zero), BatchOutcome::Exhausted);
}

#[test]
fn slot_keeps_the_first_solution() {
    let mut slot = SolutionSlot::new();
    assert!(!slot.is_found());
    let a = Solution { hash: [1u8; 32], nonce: 5 };
    let b = Solution { hash: [2u8; 32], nonce: 9 };
    assert!(slot.offer(a));
    assert!(!slot.offer(b));
    assert!(slot.is_found());
    assert_eq!(slot.winner(), Some(a));
}

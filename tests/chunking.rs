use ore_miner::chunk::{chunk_transactions, total_chunks, transaction_fits, CHUNK_SIZE};

#[test]
fn twelve_instructions_make_chunks_of_five_five_two() {
    let ixs: Vec<u32> = (0..12).collect();
    let signers: Vec<u32> = (100..112).collect();
    let chunks = chunk_transactions(ixs, signers, 999u32, 7777u32);
    assert_eq!(chunks.len(), 3);
    assert_eq!(chunks[0].instructions, vec![0, 1, 2, 3, 4]);
    assert_eq!(chunks[1].instructions, vec![5, 6, 7, 8, 9]);
    assert_eq!(chunks[2].instructions, vec![10, 11, 7777]);
    assert_eq!(chunks[0].signers, vec![999, 100, 101, 102, 103, 104]);
    assert_eq!(chunks[1].signers, vec![999, 105, 106, 107, 108, 109]);
    assert_eq!(chunks[2].signers, vec![999, 110, 111]);
    let tips: usize = chunks
        .iter()
        .map(|c| c.instructions.iter().filter(|&&i| i == 7777).count())
        .sum();
    assert_eq!(tips, 1);
}

#[test]
fn chunk_counts_round_up() {
    assert_eq!(CHUNK_SIZE, 5);
    assert_eq!(total_chunks(0), 0);
    assert_eq!(total_chunks(1), 1);
    assert_eq!(total_chunks(5), 1);
    assert_eq!(total_chunks(6), 2);
    assert_eq!(total_chunks(12), 3);
    assert_eq!(total_chunks(usize::MAX), usize::MAX / 5);
    assert_eq!(total_chunks(usize::MAX - 1), usize::MAX / 5);
    assert_eq!(total_chunks(usize::MAX - 5), usize::MAX / 5 - 1);
}

#[test]
fn chunker_sizes_for_many_lengths() {
    for n in 0..23usize {
        let ixs: Vec<usize> = (0..n).collect();
        let signers: Vec<usize> = (0..n).map(|i| 1000 + i).collect();
        let chunks = chunk_transactions(ixs, signers, 0usize, usize::MAX);
        assert_eq!(chunks.len(), (n + 4) / 5);
        for (k, c) in chunks.iter().enumerate() {
            assert_eq!(c.signers[0], 0);
            let last = k + 1 == chunks.len();
            let own = c.instructions.len() - if last { 1 } else { 0 };
            assert!(own >= 1 && own <= 5);
            assert_eq!(c.signers.len(), own + 1);
            assert_eq!(*c.instructions.last().unwrap() == usize::MAX, last);
        }
    }
}

#[test]
fn no_instructions_make_no_chunk() {
    let chunks = chunk_transactions(Vec::<u8>::new(), Vec::<u8>::new(), 1u8, 2u8);
    assert!(chunks.is_empty());
}

#[test]
fn exactly_five_instructions_carry_the_tip_in_their_only_chunk() {
    let chunks = chunk_transactions(vec![1, 2, 3, 4, 5], vec![6, 7, 8, 9, 10], 0, 42);
    assert_eq!(chunks.len(), 1);
    assert_eq!(chunks[0].instructions, vec![1, 2, 3, 4, 5, 42]);
    assert_eq!(chunks[0].signers, vec![0, 6, 7, 8, 9, 10]);
}

#[test]
fn transaction_size_counts_signatures_and_message() {
    // one count byte, six signatures of 64 bytes, and the message
    assert!(transaction_fits(1232 - 1 - 6 * 64, 6, 1232));
    assert!(!transaction_fits(1232 - 6 * 64, 6, 1232));
    assert!(transaction_fits(0, 0, 1));
    assert!(!transaction_fits(0, 0, 0));
    // a count of 128 takes two bytes
    assert!(transaction_fits(0, 128, 2 + 128 * 64));
    assert!(!transaction_fits(0, 128, 1 + 128 * 64));
    assert!(!transaction_fits(usize::MAX, usize::MAX, usize::MAX));
}

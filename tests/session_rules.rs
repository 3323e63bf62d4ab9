use ore_miner::coord::Pool;
use ore_miner::keys::{decode_key_line, decode_key_lines, KeyError, KEYPAIR_LEN};
use ore_miner::search::Solution;
use ore_miner::session::{
    chars_of, contains_str, mine_requests, step, Action, Event, MineRequest, Miner, Phase,
    Targeting, wallets_to_register,
};

const GOOD_KEY: &str =
    "2Ana1pUpv2ZbMVkwF5FXapYeBEjdxDatLn7nvJkhgTSXbs59SyZSx866bXirPgj8QQVB57uxHJBG1YFvkRbFj4T";

#[test]
fn miner_keeps_its_configuration() {
    let m = Miner::new(
        "http://rpc".to_string(),
        "https://be".to_string(),
        Some("fee.json".to_string()),
        None,
        10_000,
        true,
    );
    assert_eq!(m.cluster, "http://rpc");
    assert_eq!(m.be_url, "https://be");
    assert_eq!(m.feepayer_filepath, Some("fee.json".to_string()));
    assert_eq!(m.auth_filepath, None);
    assert_eq!(m.jito_fee, 10_000);
    assert!(m.jito_enable);
}

#[test]
fn stale_state_error_breaks_the_round() {
    assert!(Miner::should_break_loop(
        "Transaction simulation failed: Error processing Instruction 0: custom program error: 0x3"
    ));
    assert!(Miner::should_break_loop("custom program error: 0x3"));
    assert!(!Miner::should_break_loop("custom program error: 0x1"));
    assert!(!Miner::should_break_loop(""));
    assert!(!Miner::should_break_loop("connection refused"));
}

#[test]
fn substring_search() {
    assert!(contains_str("abcdef", "cde"));
    assert!(contains_str("abc", ""));
    assert!(!contains_str("ab", "abc"));
    assert!(!contains_str("abcdef", "ce"));
    assert_eq!(chars_of("héllo"), vec!['h', 'é', 'l', 'l', 'o']);
}

#[test]
fn session_walks_through_a_round() {
    let pool = Pool { id: 3, rewards: 500 };
    assert_eq!(step(Phase::Idle, Event::Start), (Phase::Registering, Action::Register));
    assert_eq!(
        step(Phase::Registering, Event::Registered { ok: true }),
        (Phase::RoundStart, Action::FetchSnapshot)
    );
    assert_eq!(step(Phase::Registering, Event::Registered { ok: false }), (Phase::Halted, Action::Stop));
    assert_eq!(step(Phase::RoundStart, Event::SnapshotReady), (Phase::Searching, Action::RunSearch));
    assert_eq!(step(Phase::Searching, Event::SearchDone), (Phase::Targeting, Action::Coordinate));
    assert_eq!(
        step(Phase::Targeting, Event::Targeted { outcome: Targeting::Chosen { pool } }),
        (Phase::Submitting, Action::SubmitBundle { pool })
    );
    assert_eq!(
        step(Phase::Targeting, Event::Targeted { outcome: Targeting::ResetDue { submit: true } }),
        (Phase::RoundStart, Action::SendReset)
    );
    assert_eq!(
        step(Phase::Targeting, Event::Targeted { outcome: Targeting::ResetDue { submit: false } }),
        (Phase::RoundStart, Action::FetchSnapshot)
    );
    assert_eq!(
        step(Phase::Targeting, Event::Targeted { outcome: Targeting::NoPool }),
        (Phase::RoundStart, Action::FetchSnapshot)
    );
    assert_eq!(
        step(Phase::Submitting, Event::Submitted { ok: true, stale: false }),
        (Phase::RoundStart, Action::FetchSnapshot)
    );
    assert_eq!(
        step(Phase::Submitting, Event::Submitted { ok: false, stale: true }),
        (Phase::RoundStart, Action::FetchSnapshot)
    );
    assert_eq!(step(Phase::Halted, Event::Start), (Phase::Halted, Action::Ignore));
    assert_eq!(step(Phase::Searching, Event::SnapshotReady), (Phase::Searching, Action::Ignore));
}

#[test]
fn mine_requests_carry_each_wallets_solution() {
    let sols = vec![
        Solution { hash: [1u8; 32], nonce: 11 },
        Solution { hash: [2u8; 32], nonce: 22 },
    ];
    let pool = Pool { id: 6, rewards: 1000 };
    let reqs = mine_requests(&sols, pool);
    assert_eq!(
        reqs,
        vec![
            MineRequest { wallet: 0, pool_id: 6, hash: [1u8; 32], nonce: 11 },
            MineRequest { wallet: 1, pool_id: 6, hash: [2u8; 32], nonce: 22 },
        ]
    );
}

#[test]
fn key_lines_decode_to_keypair_bytes() {
    let expected: Vec<u8> = (1..=64).collect();
    assert_eq!(KEYPAIR_LEN, 64);
    assert_eq!(decode_key_line(GOOD_KEY, 0), Ok(expected.clone()));
    assert_eq!(decode_key_line("he11owor1d", 4), Err(KeyError::BadLength { line: 4 }));
    assert_eq!(decode_key_line("0OIl", 2), Err(KeyError::BadEncoding { line: 2 }));
    assert_eq!(decode_key_line("", 1), Err(KeyError::BadLength { line: 1 }));
}

#[test]
fn key_file_reports_the_first_bad_line() {
    let good = GOOD_KEY.to_string();
    let lines = vec![good.clone(), good.clone()];
    let keys = decode_key_lines(&lines).unwrap();
    assert_eq!(keys.len(), 2);
    assert_eq!(keys[1], (1..=64).collect::<Vec<u8>>());
    let bad = vec![good.clone(), "zz0".to_string(), "abc".to_string()];
    assert_eq!(decode_key_lines(&bad), Err(KeyError::BadEncoding { line: 1 }));
    assert_eq!(decode_key_lines(&Vec::new()), Ok(Vec::new()));
}

#[test]
fn only_unregistered_wallets_are_registered() {
    assert_eq!(wallets_to_register(&vec![true, false, true, false, false]), vec![1, 3, 4]);
    assert_eq!(wallets_to_register(&vec![true, true]), Vec::<usize>::new());
    assert_eq!(wallets_to_register(&Vec::new()), Vec::<usize>::new());
}

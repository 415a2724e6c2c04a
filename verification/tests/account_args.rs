use migrator::account::ChrysalisAccount;
use migrator::args::ParallelMode;

#[test]
fn parallel_modes_decompose() {
    assert!(!ParallelMode::NoParallel.is_parallel_seed());
    assert!(!ParallelMode::NoParallel.is_parallel_search());
    assert!(ParallelMode::ParallelSeeds.is_parallel_seed());
    assert!(!ParallelMode::ParallelSeeds.is_parallel_search());
    assert!(!ParallelMode::ParallelSearch.is_parallel_seed());
    assert!(ParallelMode::ParallelSearch.is_parallel_search());
    assert!(ParallelMode::ParallelAll.is_parallel_seed());
    assert!(ParallelMode::ParallelAll.is_parallel_search());
}

#[test]
fn malformed_bech32_addresses_are_rejected() {
    assert!(ChrysalisAccount::from_bech32_address("not an address").is_err());
    assert!(ChrysalisAccount::from_bech32_address("").is_err());
    assert!(ChrysalisAccount::from_bech32_address("iota1qqqqq").is_err());
}

#[test]
fn valid_bech32_address_is_accepted_and_kept() {
    // a 32-byte Ed25519 address under the `iota` human-readable part
    let encoded = bee_message::address::Address::Ed25519(
        bee_message::address::Ed25519Address::new([7u8; 32]),
    )
    .to_bech32("iota");
    let account = ChrysalisAccount::from_bech32_address(&encoded).expect("valid address");
    assert_eq!(account.bech32_target_address(), encoded);
}

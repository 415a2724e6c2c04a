use migrator::addrs::AddrInfo;
use migrator::verify::{derive_address, filter_verified, verify_address, SecurityLevel};

fn test_seed() -> String {
    "9".repeat(81)
}

#[test]
fn security_levels_are_one_to_three() {
    assert!(matches!(SecurityLevel::from_u8(1), Some(SecurityLevel::Low)));
    assert!(matches!(SecurityLevel::from_u8(2), Some(SecurityLevel::Medium)));
    assert!(matches!(SecurityLevel::from_u8(3), Some(SecurityLevel::High)));
    assert!(SecurityLevel::from_u8(0).is_none());
    assert!(SecurityLevel::from_u8(4).is_none());
}

#[test]
fn derived_address_is_81_trytes_and_not_the_seed() {
    let seed = test_seed();
    let addr = derive_address(&seed, 0, SecurityLevel::Medium).expect("valid seed derives");
    assert_eq!(addr.len(), 81);
    assert!(addr.chars().all(|c| c == '9' || c.is_ascii_uppercase()));
    assert_ne!(addr, seed);
    // derivation is deterministic
    let again = derive_address(&seed, 0, SecurityLevel::Medium).expect("valid seed derives");
    assert_eq!(addr, again);
    // different indices and levels give different addresses
    let other_index = derive_address(&seed, 1, SecurityLevel::Medium).expect("derives");
    assert_ne!(addr, other_index);
    let other_level = derive_address(&seed, 0, SecurityLevel::Low).expect("derives");
    assert_ne!(addr, other_level);
}

#[test]
fn malformed_seed_derives_nothing() {
    assert!(derive_address("9AB", 0, SecurityLevel::Medium).is_none());
    assert!(derive_address("", 0, SecurityLevel::Low).is_none());
}

#[test]
fn regenerated_address_is_accepted() {
    let seed = test_seed();
    let addr = derive_address(&seed, 3, SecurityLevel::Low).expect("valid seed derives");
    let cand = AddrInfo { addr, idx: 3, bal: 42 };
    let got = verify_address(&seed, cand.clone(), SecurityLevel::Low).expect("must accept");
    assert_eq!(got.addr, cand.addr);
    assert_eq!(got.idx, 3);
}

#[test]
fn mutated_address_is_rejected() {
    let seed = test_seed();
    let addr = derive_address(&seed, 0, SecurityLevel::Medium).expect("valid seed derives");
    let mut chars: Vec<char> = addr.chars().collect();
    chars[0] = if chars[0] == 'A' { 'B' } else { 'A' };
    let mutated: String = chars.into_iter().collect();
    let cand = AddrInfo { addr: mutated, idx: 0, bal: 0 };
    assert!(verify_address(&seed, cand, SecurityLevel::Medium).is_err());
}

#[test]
fn wrong_index_is_rejected() {
    let seed = test_seed();
    let addr = derive_address(&seed, 0, SecurityLevel::Medium).expect("valid seed derives");
    let cand = AddrInfo { addr, idx: 1, bal: 0 };
    assert!(verify_address(&seed, cand, SecurityLevel::Medium).is_err());
}

#[test]
fn filtering_splits_matching_from_foreign_addresses() {
    let seed = test_seed();
    let a0 = derive_address(&seed, 0, SecurityLevel::Medium).expect("derives");
    let a1 = derive_address(&seed, 1, SecurityLevel::Medium).expect("derives");
    let cands = vec![
        AddrInfo { addr: a0.clone(), idx: 0, bal: 10 },
        AddrInfo { addr: "F".repeat(81), idx: 0, bal: 11 },
        AddrInfo { addr: a1.clone(), idx: 1, bal: 12 },
    ];
    let (accepted, rejected) = filter_verified(&seed, cands, SecurityLevel::Medium);
    assert_eq!(accepted.len(), 2);
    assert_eq!(accepted[0].addr, a0);
    assert_eq!(accepted[1].addr, a1);
    assert_eq!(rejected.len(), 1);
    assert_eq!(rejected[0].bal, 11);
}

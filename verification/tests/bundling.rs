use migrator::bundler::{partition_inputs, sort_by_balance, LedgerInput};
use migrator::DUST_THRESHOLD;

fn input(tag: char, balance: u64) -> LedgerInput {
    LedgerInput { address: tag.to_string().repeat(81), index: 0, balance, spent: false }
}

fn balances(groups: &Vec<Vec<LedgerInput>>) -> Vec<Vec<u64>> {
    groups.iter().map(|g| g.iter().map(|i| i.balance).collect()).collect()
}

#[test]
fn threshold_is_one_mi() {
    assert_eq!(DUST_THRESHOLD, 1_000_000);
}

#[test]
fn sorting_is_ascending_by_balance() {
    let v = vec![input('A', 5), input('B', 1), input('C', 3)];
    let sorted = sort_by_balance(v);
    let bals: Vec<u64> = sorted.iter().map(|i| i.balance).collect();
    assert_eq!(bals, vec![1, 3, 5]);
}

#[test]
fn two_small_inputs_share_one_bundle() {
    // the running sum before adding the second input (300000) does not
    // exceed the threshold, so both inputs join the same group
    let v = vec![input('A', 300_000), input('B', 2_000_000)];
    let (bundles, dust) = partition_inputs(v);
    assert_eq!(balances(&bundles), vec![vec![300_000, 2_000_000]]);
    assert!(dust.is_empty());
}

#[test]
fn group_closes_only_after_sum_exceeds_threshold() {
    // sorted: [600000, 600000, 600000]; the first two reach 1200000, which
    // exceeds the threshold, so the third opens a new group that stays dust
    let v = vec![input('A', 600_000), input('B', 600_000), input('C', 600_000)];
    let (bundles, dust) = partition_inputs(v);
    assert_eq!(balances(&bundles), vec![vec![600_000, 600_000]]);
    assert_eq!(balances(&dust), vec![vec![600_000]]);
}

#[test]
fn group_at_exactly_threshold_stays_open() {
    // a group holding exactly the threshold has not exceeded it, so the next
    // input still joins it
    let v = vec![input('A', 1_000_000), input('B', 7)];
    let (bundles, dust) = partition_inputs(v);
    assert_eq!(balances(&bundles), vec![vec![7, 1_000_000]]);
    assert!(dust.is_empty());
}

#[test]
fn dust_only_input_yields_no_bundle() {
    let v = vec![input('A', 3)];
    let (bundles, dust) = partition_inputs(v);
    assert!(bundles.is_empty());
    assert_eq!(balances(&dust), vec![vec![3]]);
}

#[test]
fn empty_input_yields_nothing() {
    let (bundles, dust) = partition_inputs(Vec::new());
    assert!(bundles.is_empty());
    assert!(dust.is_empty());
}

#[test]
fn partition_conserves_every_input() {
    let v = vec![
        input('A', 600_000),
        input('B', 1),
        input('C', 2_000_000),
        input('D', 600_000),
        input('E', 2),
    ];
    let total: u64 = v.iter().map(|i| i.balance).sum();
    let n = v.len();
    let (bundles, dust) = partition_inputs(v);
    let mut seen: usize = 0;
    let mut sum: u64 = 0;
    for g in bundles.iter().chain(dust.iter()) {
        for i in g.iter() {
            seen += 1;
            sum += i.balance;
        }
    }
    assert_eq!(seen, n);
    assert_eq!(sum, total);
    for g in bundles.iter() {
        let s: u64 = g.iter().map(|i| i.balance).sum();
        assert!(s >= DUST_THRESHOLD);
        assert!(!g.is_empty());
    }
    for g in dust.iter() {
        let s: u64 = g.iter().map(|i| i.balance).sum();
        assert!(s < DUST_THRESHOLD);
    }
}

#[test]
fn partition_ignores_arrival_order() {
    let a = vec![input('A', 600_000), input('B', 1), input('C', 2_000_000)];
    let b = vec![input('C', 2_000_000), input('A', 600_000), input('B', 1)];
    let (ba, da) = partition_inputs(a);
    let (bb, db) = partition_inputs(b);
    assert_eq!(balances(&ba), balances(&bb));
    assert_eq!(balances(&da), balances(&db));
}

#[test]
fn equal_balances_partition_alike() {
    // balance order leaves ties open; the balance structure is still the same
    let a = vec![input('A', 500_000), input('B', 500_000), input('C', 500_000)];
    let b = vec![input('C', 500_000), input('B', 500_000), input('A', 500_000)];
    let (ba, da) = partition_inputs(a);
    let (bb, db) = partition_inputs(b);
    assert_eq!(balances(&ba), balances(&bb));
    assert_eq!(balances(&da), balances(&db));
    assert_eq!(balances(&ba), vec![vec![500_000, 500_000, 500_000]]);
    assert!(da.is_empty());
}

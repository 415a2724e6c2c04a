use migrator::addrs::AddrInfo;
use migrator::bundler::{partition_inputs, LedgerInput};
use migrator::confirm::{ConfirmationEngine, PollAction, REATTACH_WINDOW_SECS};
use migrator::orchestrate::{
    build_report, plan_submission, split_outcomes, split_sent, SignOutcome, SignedBundle,
    SubmissionPlan,
};
use migrator::reconcile::reconcile_inputs;
use migrator::verify::{derive_address, filter_verified, SecurityLevel};

fn ledger_input(addr: &str, index: u64, balance: u64, spent: bool) -> LedgerInput {
    LedgerInput { address: addr.to_string(), index, balance, spent }
}

#[test]
fn reconciliation_drops_spent_and_disagreeing_inputs() {
    let verified = vec![
        AddrInfo { addr: "A".repeat(81), idx: 0, bal: 100 },
        AddrInfo { addr: "B".repeat(81), idx: 1, bal: 200 },
        AddrInfo { addr: "C".repeat(81), idx: 2, bal: 300 },
    ];
    let inputs = vec![
        ledger_input(&"A".repeat(81), 0, 100, false), // kept
        ledger_input(&"B".repeat(81), 1, 999, false), // balance disagrees
        ledger_input(&"C".repeat(81), 2, 300, true),  // spent
        ledger_input(&"D".repeat(81), 3, 400, false), // unknown address
    ];
    let (kept, dropped) = reconcile_inputs(&verified, inputs);
    assert_eq!(kept.len(), 1);
    assert_eq!(kept[0].balance, 100);
    assert_eq!(dropped.len(), 3);
}

#[test]
fn sign_outcomes_are_split_and_reported_by_position() {
    let outcomes = vec![
        SignOutcome::Signed(SignedBundle { hash: "H0".to_string(), trytes: vec![] }),
        SignOutcome::BuildFailed,
        SignOutcome::SignFailed,
        SignOutcome::Signed(SignedBundle { hash: "H3".to_string(), trytes: vec![] }),
    ];
    let (signed, build_failed, sign_failed) = split_outcomes(outcomes);
    assert_eq!(signed.len(), 2);
    assert_eq!(signed[0].hash, "H0");
    assert_eq!(signed[1].hash, "H3");
    assert_eq!(build_failed, vec![1]);
    assert_eq!(sign_failed, vec![2]);
}

#[test]
fn send_results_are_split_and_reported_by_position() {
    let results = vec![Some("H0".to_string()), None, Some("H2".to_string())];
    let (sent, failed) = split_sent(results);
    assert_eq!(sent, vec!["H0".to_string(), "H2".to_string()]);
    assert_eq!(failed, vec![1]);
}

#[test]
fn confirmation_window_triggers_exactly_one_reattachment_sweep() {
    let mut engine = ConfirmationEngine::new(vec!["H1".to_string()]);
    // within the window: keep waiting
    engine.advance(REATTACH_WINDOW_SECS);
    let confirmed = vec![false];
    engine.apply_poll(&confirmed);
    assert!(matches!(engine.next_action(), PollAction::KeepWaiting));
    // window exceeded: reattach every pending bundle once
    engine.advance(10);
    engine.apply_poll(&confirmed);
    assert!(matches!(engine.next_action(), PollAction::ReattachAll));
    engine.apply_reattach(vec![Some("H2".to_string())]);
    assert_eq!(engine.pending.len(), 1);
    assert_eq!(engine.pending[0].hash, "H2");
    assert_eq!(engine.pending[0].reattachments, 1);
    // the window restarted, so polling continues against the new hash
    assert!(matches!(engine.next_action(), PollAction::KeepWaiting));
    engine.apply_poll(&vec![true]);
    assert!(matches!(engine.next_action(), PollAction::AllConfirmed));
}

#[test]
fn failed_reattachment_keeps_the_old_identity() {
    let mut engine = ConfirmationEngine::new(vec!["H1".to_string(), "H2".to_string()]);
    engine.advance(200);
    assert!(matches!(engine.next_action(), PollAction::ReattachAll));
    engine.apply_reattach(vec![None, Some("H9".to_string())]);
    assert_eq!(engine.pending[0].hash, "H1");
    assert_eq!(engine.pending[0].reattachments, 0);
    assert_eq!(engine.pending[1].hash, "H9");
    assert_eq!(engine.pending[1].reattachments, 1);
    assert_eq!(engine.elapsed_secs, 0);
}

#[test]
fn one_verified_address_migrates_in_one_bundle() {
    // one address at index 0 with balance 2,000,000, unspent and verified,
    // confirmed after one poll; the report shows the full amount
    let seed = "9".repeat(81);
    let addr = derive_address(&seed, 0, SecurityLevel::Medium).expect("derives");
    let cands = vec![AddrInfo { addr: addr.clone(), idx: 0, bal: 2_000_000 }];
    let (verified, rejected) = filter_verified(&seed, cands, SecurityLevel::Medium);
    assert!(rejected.is_empty());
    let inputs = vec![ledger_input(&addr, 0, 2_000_000, false)];
    let (kept, dropped) = reconcile_inputs(&verified, inputs);
    assert!(dropped.is_empty());
    let (bundles, dust) = partition_inputs(kept);
    assert_eq!(bundles.len(), 1);
    assert!(dust.is_empty());
    let sum: u64 = bundles[0].iter().map(|i| i.balance).sum();
    assert_eq!(sum, 2_000_000);

    let outcomes = vec![SignOutcome::Signed(SignedBundle {
        hash: "HASH".to_string(),
        trytes: vec!["TX".to_string()],
    })];
    let (signed, b_failed, s_failed) = split_outcomes(outcomes);
    assert!(b_failed.is_empty() && s_failed.is_empty());
    let plan = plan_submission(false, signed);
    let sent_hashes = match plan {
        SubmissionPlan::Broadcast(bs) => bs.into_iter().map(|b| Some(b.hash)).collect(),
        SubmissionPlan::DryRun => panic!("not a dry run"),
    };
    let (sent, send_failed) = split_sent(sent_hashes);
    assert!(send_failed.is_empty());
    let mut engine = ConfirmationEngine::new(sent.clone());
    engine.advance(10);
    engine.apply_poll(&vec![true]);
    assert!(matches!(engine.next_action(), PollAction::AllConfirmed));

    let report = build_report(
        seed,
        bundles.into_iter().flatten().collect(),
        "LEGACY9ADDRESS".to_string(),
        "iota1example".to_string(),
        Some(sent),
    );
    assert_eq!(report.amount, 2_000_000);
    assert_eq!(report.sources.len(), 1);
    assert_eq!(report.sources[0].1, 2_000_000);
    assert_eq!(report.bundle_hashes, Some(vec!["HASH".to_string()]));
}

#[test]
fn dry_run_broadcasts_nothing_and_reports_without_confirmation() {
    let signed = vec![SignedBundle { hash: "H".to_string(), trytes: vec![] }];
    let plan = plan_submission(true, signed);
    assert!(matches!(plan, SubmissionPlan::DryRun));

    let inputs = vec![ledger_input(&"A".repeat(81), 0, 2_300_000, false)];
    let report = build_report(
        "9".repeat(81),
        inputs,
        "LEGACY".to_string(),
        "iota1x".to_string(),
        None,
    );
    assert_eq!(report.amount, 2_300_000);
    assert!(report.bundle_hashes.is_none());
    assert_eq!(report.sources.len(), 1);
}

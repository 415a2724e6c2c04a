//! Per-seed sequencing around the outside collaborators: accounting for the
//! two-phase build-then-sign protocol, the dry-run gate before broadcast,
//! submission accounting, and the migration report.
//!
//! Bundles are handled independently: one bundle failing to build, sign or
//! send never blocks its siblings, and every dropped bundle is reported by
//! its position so an operator can reconcile funds.

use vstd::prelude::*;

use crate::bundler::sum_bal;
use crate::bundler::LedgerInput;

verus! {

/// A bundle that passed both the build and the sign phase: its bundle hash
/// and the encoded transactions to broadcast.
pub struct SignedBundle {
    pub hash: String,
    pub trytes: Vec<String>,
}

/// How one bundle fared in the build-then-sign protocol.
pub enum SignOutcome {
    BuildFailed,
    SignFailed,
    Signed(SignedBundle),
}

/// The bundles that passed both phases, in order.
pub open spec fn signed_of(os: Seq<SignOutcome>) -> Seq<SignedBundle>
    decreases os.len(),
{
    if os.len() == 0 {
        Seq::empty()
    } else {
        let rest = signed_of(os.drop_last());
        match os.last() {
            SignOutcome::Signed(b) => rest.push(b),
            _ => rest,
        }
    }
}

/// Positions of the bundles whose build failed.
pub open spec fn build_failures_of(os: Seq<SignOutcome>) -> Seq<int>
    decreases os.len(),
{
    if os.len() == 0 {
        Seq::empty()
    } else {
        let rest = build_failures_of(os.drop_last());
        if os.last() is BuildFailed {
            rest.push(os.len() - 1)
        } else {
            rest
        }
    }
}

/// Positions of the bundles whose signature failed.
pub open spec fn sign_failures_of(os: Seq<SignOutcome>) -> Seq<int>
    decreases os.len(),
{
    if os.len() == 0 {
        Seq::empty()
    } else {
        let rest = sign_failures_of(os.drop_last());
        if os.last() is SignFailed {
            rest.push(os.len() - 1)
        } else {
            rest
        }
    }
}

/// Splits the outcomes of the build-then-sign phase: the signed bundles go
/// forward, and each dropped bundle is reported by its position, so that no
/// bundle is lost silently.
pub fn split_outcomes(outcomes: Vec<SignOutcome>) -> (r: (
    Vec<SignedBundle>,
    Vec<usize>,
    Vec<usize>,
))
    ensures
        r.0@ == signed_of(outcomes@),
        r.1@.map_values(|u: usize| u as int) == build_failures_of(outcomes@),
        r.2@.map_values(|u: usize| u as int) == sign_failures_of(outcomes@),
{
    let ghost full = outcomes@;
    let mut src = outcomes;
    let total = src.len();
    proof {
        assert(full.len() == total);
    }
    let mut signed: Vec<SignedBundle> = Vec::new();
    let mut build_failed: Vec<usize> = Vec::new();
    let mut sign_failed: Vec<usize> = Vec::new();
    let mut i: usize = 0;
    while src.len() > 0
        invariant
            0 <= i <= full.len(),
            full.len() <= usize::MAX,
            src@ =~= full.skip(i as int),
            signed@ == signed_of(full.take(i as int)),
            build_failed@.map_values(|u: usize| u as int) == build_failures_of(
                full.take(i as int),
            ),
            sign_failed@.map_values(|u: usize| u as int) == sign_failures_of(full.take(i as int)),
        decreases src@.len(),
    {
        proof {
            assert(full.skip(i as int).len() == full.len() - i);
            assert(i < full.len());
        }
        let o = src.remove(0);
        proof {
            assert(o == full[i as int]);
            assert(full.skip(i as int).skip(1) =~= full.skip(i + 1));
            assert(full.take(i + 1).drop_last() =~= full.take(i as int));
            assert(full.take(i + 1).last() == full[i as int]);
        }
        let ghost pb = build_failed@.map_values(|u: usize| u as int);
        let ghost pf = sign_failed@.map_values(|u: usize| u as int);
        match o {
            SignOutcome::Signed(b) => {
                signed.push(b);
            },
            SignOutcome::BuildFailed => {
                build_failed.push(i);
                proof {
                    assert(build_failed@.map_values(|u: usize| u as int) =~= pb.push(i as int));
                }
            },
            SignOutcome::SignFailed => {
                sign_failed.push(i);
                proof {
                    assert(sign_failed@.map_values(|u: usize| u as int) =~= pf.push(i as int));
                }
            },
        }
        i = i + 1;
    }
    proof {
        assert(full.take(i as int) =~= full);
    }
    (signed, build_failed, sign_failed)
}

/// What the submission phase is to do with the signed bundles.
pub enum SubmissionPlan {
    /// Dry run: nothing is broadcast; the signed bundles are set aside and
    /// the report carries no confirmation section.
    DryRun,
    /// Broadcast every signed bundle.
    Broadcast(Vec<SignedBundle>),
}

/// Decides the submission phase: in dry-run mode nothing may be broadcast;
/// otherwise exactly the signed bundles are.
pub fn plan_submission(dry_run: bool, signed: Vec<SignedBundle>) -> (r: SubmissionPlan)
    ensures
        dry_run <==> r is DryRun,
        match r {
            SubmissionPlan::DryRun => dry_run,
            SubmissionPlan::Broadcast(b) => !dry_run && b@ == signed@,
        },
{
    if dry_run {
        SubmissionPlan::DryRun
    } else {
        SubmissionPlan::Broadcast(signed)
    }
}

/// The hashes of the sends that succeeded, in order.
pub open spec fn sent_of(rs: Seq<Option<String>>) -> Seq<String>
    decreases rs.len(),
{
    if rs.len() == 0 {
        Seq::empty()
    } else {
        let rest = sent_of(rs.drop_last());
        match rs.last() {
            Some(h) => rest.push(h),
            None => rest,
        }
    }
}

/// Positions of the bundles whose send failed.
pub open spec fn send_failures_of(rs: Seq<Option<String>>) -> Seq<int>
    decreases rs.len(),
{
    if rs.len() == 0 {
        Seq::empty()
    } else {
        let rest = send_failures_of(rs.drop_last());
        if rs.last() is None {
            rest.push(rs.len() - 1)
        } else {
            rest
        }
    }
}

/// Splits the per-bundle broadcast results: `results[i]` holds the bundle
/// hash now tracked for bundle `i`, or `None` where the send failed and the
/// bundle is dropped from tracking (reported by position, never retried
/// here).
pub fn split_sent(results: Vec<Option<String>>) -> (r: (Vec<String>, Vec<usize>))
    ensures
        r.0@ == sent_of(results@),
        r.1@.map_values(|u: usize| u as int) == send_failures_of(results@),
{
    let ghost full = results@;
    let mut src = results;
    let total = src.len();
    proof {
        assert(full.len() == total);
    }
    let mut sent: Vec<String> = Vec::new();
    let mut failed: Vec<usize> = Vec::new();
    let mut i: usize = 0;
    while src.len() > 0
        invariant
            0 <= i <= full.len(),
            full.len() <= usize::MAX,
            src@ =~= full.skip(i as int),
            sent@ == sent_of(full.take(i as int)),
            failed@.map_values(|u: usize| u as int) == send_failures_of(full.take(i as int)),
        decreases src@.len(),
    {
        proof {
            assert(full.skip(i as int).len() == full.len() - i);
            assert(i < full.len());
        }
        let o = src.remove(0);
        proof {
            assert(o == full[i as int]);
            assert(full.skip(i as int).skip(1) =~= full.skip(i + 1));
            assert(full.take(i + 1).drop_last() =~= full.take(i as int));
            assert(full.take(i + 1).last() == full[i as int]);
        }
        let ghost pf = failed@.map_values(|u: usize| u as int);
        match o {
            Some(h) => {
                sent.push(h);
            },
            None => {
                failed.push(i);
                proof {
                    assert(failed@.map_values(|u: usize| u as int) =~= pf.push(i as int));
                }
            },
        }
        i = i + 1;
    }
    proof {
        assert(full.take(i as int) =~= full);
    }
    (sent, failed)
}

/// The migration report for one seed: the source addresses with their
/// balances, the destination in both textual encodings, the total amount
/// moved, and — unless the run was a dry run — the bundle hashes that were
/// broadcast.
pub struct Report {
    pub seed: String,
    pub sources: Vec<(String, u64)>,
    pub to_legacy: String,
    pub to_bech32: String,
    pub amount: u128,
    pub bundle_hashes: Option<Vec<String>>,
}

/// Builds the report: every source address appears with its balance, the
/// amount is the exact sum of the inputs, and the confirmation section holds
/// the sent hashes, or is absent after a dry run (the caller passes `None`).
pub fn build_report(
    seed: String,
    inputs: Vec<LedgerInput>,
    to_legacy: String,
    to_bech32: String,
    sent_hashes: Option<Vec<String>>,
) -> (r: Report)
    ensures
        r.seed == seed,
        r.to_legacy == to_legacy,
        r.to_bech32 == to_bech32,
        r.amount == sum_bal(inputs@),
        r.sources@.len() == inputs@.len(),
        forall|i: int|
            0 <= i < inputs@.len() ==> #[trigger] r.sources@[i].0@ == inputs@[i].address@
                && r.sources@[i].1 == inputs@[i].balance,
        r.bundle_hashes == sent_hashes,
{
    let ghost full = inputs@;
    let mut src = inputs;
    let total = src.len();
    proof {
        assert(full.len() == total);
    }
    let mut sources: Vec<(String, u64)> = Vec::new();
    let mut amount: u128 = 0;
    let ghost mut k: int = 0;
    while src.len() > 0
        invariant
            0 <= k <= full.len(),
            full.len() <= usize::MAX,
            src@ =~= full.skip(k),
            sources@.len() == k,
            forall|i: int|
                0 <= i < k ==> #[trigger] sources@[i].0@ == full[i].address@ && sources@[i].1
                    == full[i].balance,
            amount == sum_bal(full.take(k)),
            amount <= k * (u64::MAX as int),
        decreases src@.len(),
    {
        let inp = src.remove(0);
        proof {
            assert(inp == full[k]);
            assert(full.skip(k).skip(1) =~= full.skip(k + 1));
            assert(full.take(k + 1).drop_last() =~= full.take(k));
            assert(full.take(k + 1).last() == full[k]);
            vstd::arithmetic::mul::lemma_mul_inequality(k + 1, u64::MAX as int, u64::MAX as int);
        }
        amount = amount + inp.balance as u128;
        sources.push((inp.address, inp.balance));
        proof {
            k = k + 1;
        }
    }
    proof {
        assert(full.take(k) =~= full);
    }
    Report { seed, sources, to_legacy, to_bech32, amount, bundle_hashes: sent_hashes }
}

} // verus!

//! Reconciliation of ledger answers against the verified candidates.
//!
//! A ledger input may be spent only if it names a verified address, agrees
//! with that candidate's derivation index and claimed balance, and is not
//! already spent on the ledger; every other input is set aside and reported.

use vstd::prelude::*;

use crate::addrs::AddrInfo;
use crate::bundler::bundles_of;
use crate::bundler::is_bundle;
use crate::bundler::{lemma_filter_member, lemma_flatten_member};
use crate::bundler::spec_bundles;
use crate::bundler::spec_groups;
use crate::bundler::spec_sort;
use crate::bundler::LedgerInput;
use crate::bundler::{lemma_flatten_groups, lemma_sort_ensures};

verus! {

/// The ledger input restates candidate `a`: same address, same derivation
/// index, same balance.
pub open spec fn matches_candidate(inp: LedgerInput, a: AddrInfo) -> bool {
    inp.address@ == a.addr@ && inp.index == a.idx as u64 && inp.balance == a.bal as u64
}

/// The input is safe to spend: unspent, and in agreement with one of the
/// verified candidates.
pub open spec fn reconciled(inp: LedgerInput, verified: Seq<AddrInfo>) -> bool {
    !inp.spent && exists|j: int|
        0 <= j < verified.len() && matches_candidate(inp, #[trigger] verified[j])
}

/// Looks for a verified candidate that the input restates.
fn find_match(inp: &LedgerInput, verified: &Vec<AddrInfo>) -> (b: bool)
    ensures
        b == exists|j: int|
            0 <= j < verified@.len() && matches_candidate(*inp, #[trigger] verified@[j]),
{
    let mut i: usize = 0;
    while i < verified.len()
        invariant
            0 <= i <= verified@.len(),
            forall|j: int| 0 <= j < i ==> !matches_candidate(*inp, #[trigger] verified@[j]),
        decreases verified@.len() - i,
    {
        let a = &verified[i];
        if inp.address == a.addr && inp.index == a.idx as u64 && inp.balance == a.bal as u64 {
            proof {
                assert(matches_candidate(*inp, verified@[i as int]));
            }
            return true;
        }
        i = i + 1;
    }
    false
}

/// Splits ledger inputs into those reconciled against the verified
/// candidates and those set aside (spent, or in disagreement); order is kept
/// on both sides and every input lands on exactly one side.
pub fn reconcile_inputs(verified: &Vec<AddrInfo>, inputs: Vec<LedgerInput>) -> (r: (
    Vec<LedgerInput>,
    Vec<LedgerInput>,
))
    ensures
        r.0@ == inputs@.filter(|i: LedgerInput| reconciled(i, verified@)),
        r.1@ == inputs@.filter(|i: LedgerInput| !reconciled(i, verified@)),
{
    let ghost full = inputs@;
    let mut src = inputs;
    let mut kept: Vec<LedgerInput> = Vec::new();
    let mut dropped: Vec<LedgerInput> = Vec::new();
    let ghost mut k: int = 0;

    proof {
        reveal(Seq::filter);
    }
    while src.len() > 0
        invariant
            0 <= k <= full.len(),
            src@ =~= full.skip(k),
            kept@ == full.take(k).filter(|i: LedgerInput| reconciled(i, verified@)),
            dropped@ == full.take(k).filter(|i: LedgerInput| !reconciled(i, verified@)),
        decreases src@.len(),
    {
        let inp = src.remove(0);
        proof {
            assert(inp == full[k]);
            assert(full.skip(k).skip(1) =~= full.skip(k + 1));
            assert(full.take(k + 1).drop_last() =~= full.take(k));
            assert(full.take(k + 1).last() == full[k]);
            reveal(Seq::filter);
        }
        let ghost pk = kept@;
        let ghost pd = dropped@;
        let ok = !inp.spent && find_match(&inp, verified);
        if ok {
            kept.push(inp);
            proof {
                assert(kept@ =~= pk.push(full[k]));
            }
        } else {
            dropped.push(inp);
            proof {
                assert(dropped@ =~= pd.push(full[k]));
            }
        }
        proof {
            k = k + 1;
        }
    }
    proof {
        assert(full.take(k) =~= full);
    }
    (kept, dropped)
}

/// Reconciliation safety: bundling spends only what reconciliation kept, so
/// when every kept input is reconciled (as `reconcile_inputs` ensures), no
/// bundle holds an input that is spent or that disagrees with its verified
/// candidate.
pub proof fn lemma_reconciliation_safe(verified: Seq<AddrInfo>, kept: Seq<LedgerInput>)
    requires
        forall|m: int| 0 <= m < kept.len() ==> reconciled(#[trigger] kept[m], verified),
    ensures
        forall|b: int, e: int|
            0 <= b < bundles_of(kept).len() && 0 <= e < bundles_of(kept)[b].len() ==> reconciled(
                #[trigger] bundles_of(kept)[b][e],
                verified,
            ),
{
    broadcast use vstd::seq_lib::group_to_multiset_ensures;

    let sorted = spec_sort(kept);
    let gs = spec_groups(sorted);
    let bundles = spec_bundles(gs);
    assert forall|b: int, e: int|
        0 <= b < bundles.len() && 0 <= e < bundles[b].len() implies reconciled(
        #[trigger] bundles[b][e],
        verified,
    ) by {
        let x = bundles[b][e];
        lemma_filter_member(gs, |g: Seq<LedgerInput>| is_bundle(g), b);
        let j = choose|j: int| 0 <= j < gs.len() && gs[j] == bundles[b];
        lemma_flatten_member(gs, j, e);
        lemma_flatten_groups(sorted);
        assert(sorted.contains(x));
        lemma_sort_ensures(kept);
        assert(sorted.to_multiset().count(x) > 0);
        assert(kept.to_multiset().count(x) > 0);
        assert(kept.contains(x));
        let m = choose|m: int| 0 <= m < kept.len() && kept[m] == x;
        assert(reconciled(kept[m], verified));
    }
}

} // verus!

//! Dust-safe partitioning of ledger inputs into transfer bundles.
//!
//! Inputs are sorted ascending by balance, accumulated greedily into groups
//! (a group is closed once its running sum exceeds the dust threshold, the
//! triggering element opening the next group), and the groups are then split
//! into bundles (sum at or above the threshold) and dust groups (below it),
//! which are reported and discarded.

use vstd::prelude::*;

use crate::DUST_THRESHOLD;

verus! {

/// One spendable input as reported by the ledger: an address, its derivation
/// index, its balance in base units, and whether it was already spent.
pub struct LedgerInput {
    pub address: String,
    pub index: u64,
    pub balance: u64,
    pub spent: bool,
}

/// Total balance of a sequence of inputs.
pub open spec fn sum_bal(s: Seq<LedgerInput>) -> int
    decreases s.len(),
{
    if s.len() == 0 {
        0
    } else {
        sum_bal(s.drop_last()) + s.last().balance
    }
}

/// `x` inserted into `s` just after the last element whose balance does not
/// exceed `x`'s; the insertion step of a balance-stable insertion sort.
pub open spec fn spec_insert(s: Seq<LedgerInput>, x: LedgerInput) -> Seq<LedgerInput>
    decreases s.len(),
{
    if s.len() == 0 {
        seq![x]
    } else if x.balance < s.last().balance {
        spec_insert(s.drop_last(), x).push(s.last())
    } else {
        s.push(x)
    }
}

/// `s` sorted ascending by balance, ties kept in input order.
pub open spec fn spec_sort(s: Seq<LedgerInput>) -> Seq<LedgerInput>
    decreases s.len(),
{
    if s.len() == 0 {
        Seq::empty()
    } else {
        spec_insert(spec_sort(s.drop_last()), s.last())
    }
}

/// Ascending balance order between adjacent elements.
pub open spec fn sorted_by_balance(s: Seq<LedgerInput>) -> bool {
    forall|i: int, j: int| 0 <= i <= j < s.len() ==> s[i].balance <= s[j].balance
}

proof fn lemma_insert_multiset(s: Seq<LedgerInput>, x: LedgerInput)
    ensures
        spec_insert(s, x).to_multiset() =~= s.to_multiset().insert(x),
        spec_insert(s, x).len() == s.len() + 1,
    decreases s.len(),
{
    broadcast use vstd::seq_lib::group_to_multiset_ensures;

    if s.len() == 0 {
        assert(spec_insert(s, x) =~= Seq::empty().push(x));
        assert(Seq::<LedgerInput>::empty().push(x).to_multiset() =~= s.to_multiset().insert(x));
    } else if x.balance < s.last().balance {
        lemma_insert_multiset(s.drop_last(), x);
        assert(s =~= s.drop_last().push(s.last()));
        assert(s.to_multiset() =~= s.drop_last().to_multiset().insert(s.last()));
        assert(spec_insert(s, x).to_multiset() =~= spec_insert(s.drop_last(), x)
            .to_multiset()
            .insert(s.last()));
    } else {
    }
}

proof fn lemma_insert_sorted(s: Seq<LedgerInput>, x: LedgerInput)
    requires
        sorted_by_balance(s),
    ensures
        sorted_by_balance(spec_insert(s, x)),
    decreases s.len(),
{
    broadcast use vstd::seq_lib::group_to_multiset_ensures;

    if s.len() == 0 {
    } else if x.balance < s.last().balance {
        assert(sorted_by_balance(s.drop_last()));
        lemma_insert_sorted(s.drop_last(), x);
        lemma_insert_multiset(s.drop_last(), x);
        let r = spec_insert(s.drop_last(), x).push(s.last());
        // every element of the recursive insertion is bounded by s.last().balance
        assert forall|i: int, j: int| 0 <= i <= j < r.len() implies r[i].balance
            <= r[j].balance by {
            if j == r.len() - 1 && i < j {
                let t = spec_insert(s.drop_last(), x);
                assert(t.to_multiset().contains(t[i]));
                assert(t.to_multiset() == s.drop_last().to_multiset().insert(x));
                if t[i] == x {
                    assert(t[i].balance <= s.last().balance);
                } else {
                    assert(s.drop_last().to_multiset().contains(t[i]));
                    assert(s.drop_last().contains(t[i]));
                    let k = choose|k: int|
                        0 <= k < s.drop_last().len() && s.drop_last()[k] == t[i];
                    assert(s[k].balance <= s.last().balance);
                }
            }
        }
    } else {
        assert forall|i: int, j: int|
            0 <= i <= j < s.push(x).len() implies s.push(x)[i].balance
            <= s.push(x)[j].balance by {
            if j == s.len() && i < j {
                assert(s[s.len() - 1].balance <= x.balance);
                assert(s[i].balance <= s[s.len() - 1].balance);
            }
        }
    }
}

/// Sorting conserves the inputs and orders them by balance.
pub proof fn lemma_sort_ensures(s: Seq<LedgerInput>)
    ensures
        spec_sort(s).to_multiset() =~= s.to_multiset(),
        spec_sort(s).len() == s.len(),
        sorted_by_balance(spec_sort(s)),
    decreases s.len(),
{
    broadcast use vstd::seq_lib::group_to_multiset_ensures;

    if s.len() == 0 {
    } else {
        lemma_sort_ensures(s.drop_last());
        lemma_insert_multiset(spec_sort(s.drop_last()), s.last());
        lemma_insert_sorted(spec_sort(s.drop_last()), s.last());
        assert(s =~= s.drop_last().push(s.last()));
        assert(s.to_multiset() =~= s.drop_last().to_multiset().insert(s.last()));
    }
}

/// Sorts inputs ascending by balance; the exact result is pinned by
/// `spec_sort`, so equal input sequences give equal outputs.
pub fn sort_by_balance(inputs: Vec<LedgerInput>) -> (r: Vec<LedgerInput>)
    ensures
        r@ == spec_sort(inputs@),
{
    let ghost full = inputs@;
    let mut src = inputs;
    let mut out: Vec<LedgerInput> = Vec::new();
    let ghost mut k: int = 0;

    while src.len() > 0
        invariant
            0 <= k <= full.len(),
            src@ =~= full.skip(k),
            out@ == spec_sort(full.take(k)),
        decreases src@.len(),
    {
        let x = src.remove(0);
        proof {
            assert(x == full[k]);
            assert(full.skip(k).skip(1) =~= full.skip(k + 1));
        }
        let ghost prev = out@;

        // find the insertion point from the right
        let mut j: usize = out.len();
        proof {
            assert(prev.take(j as int) =~= prev);
            assert(prev.skip(j as int) =~= Seq::empty());
            assert(spec_insert(prev, x) =~= spec_insert(prev, x) + Seq::empty());
        }
        while j > 0 && out[j - 1].balance > x.balance
            invariant
                0 <= j <= out.len(),
                out@ == prev,
                spec_insert(prev, x) =~= spec_insert(prev.take(j as int), x) + prev.skip(j as int),
            decreases j,
        {
            proof {
                let t = prev.take(j as int);
                assert(t.last() == prev[j - 1]);
                assert(t.drop_last() =~= prev.take(j - 1));
                assert(spec_insert(t, x) =~= spec_insert(prev.take(j - 1), x).push(prev[j - 1]));
                assert(spec_insert(prev.take(j - 1), x).push(prev[j - 1]) + prev.skip(j as int)
                    =~= spec_insert(prev.take(j - 1), x) + prev.skip(j - 1));
            }
            j = j - 1;
        }
        proof {
            let t = prev.take(j as int);
            if j == 0 {
                assert(t.len() == 0);
                assert(spec_insert(t, x) =~= t.push(x));
            } else {
                assert(t.last() == prev[j - 1]);
                assert(!(x.balance < t.last().balance));
                assert(spec_insert(t, x) =~= t.push(x));
            }
            assert(spec_insert(prev, x) =~= prev.take(j as int).push(x) + prev.skip(j as int));
        }
        out.insert(j, x);
        proof {
            assert(out@ =~= prev.take(j as int).push(x) + prev.skip(j as int));
            assert(out@ =~= spec_insert(prev, x));
            assert(full.take(k + 1).drop_last() =~= full.take(k));
            assert(full.take(k + 1).last() == full[k]);
            assert(out@ == spec_sort(full.take(k + 1)));
            k = k + 1;
        }
    }
    proof {
        assert(full.take(k) =~= full);
    }
    out
}

/// The sequences held by a vector of groups.
pub open spec fn gview(g: Seq<Vec<LedgerInput>>) -> Seq<Seq<LedgerInput>> {
    g.map_values(|v: Vec<LedgerInput>| v@)
}

/// One step of the greedy grouping: if the open group's sum already exceeds
/// the dust threshold, `x` opens a new group; otherwise `x` joins it.
pub open spec fn spec_group_step(acc: Seq<Seq<LedgerInput>>, x: LedgerInput) -> Seq<
    Seq<LedgerInput>,
> {
    if acc.len() == 0 {
        seq![seq![x]]
    } else if sum_bal(acc.last()) > DUST_THRESHOLD {
        acc.push(seq![x])
    } else {
        acc.update(acc.len() - 1, acc.last().push(x))
    }
}

/// The groups formed by folding the greedy step over `s` from the left.
pub open spec fn spec_groups(s: Seq<LedgerInput>) -> Seq<Seq<LedgerInput>>
    decreases s.len(),
{
    if s.len() == 0 {
        Seq::empty()
    } else {
        spec_group_step(spec_groups(s.drop_last()), s.last())
    }
}

/// A group whose sum reaches the dust threshold may be submitted.
pub open spec fn is_bundle(g: Seq<LedgerInput>) -> bool {
    sum_bal(g) >= DUST_THRESHOLD
}

/// The groups that may be submitted, in formation order.
pub open spec fn spec_bundles(gs: Seq<Seq<LedgerInput>>) -> Seq<Seq<LedgerInput>> {
    gs.filter(|g: Seq<LedgerInput>| is_bundle(g))
}

/// The groups below the dust threshold, in formation order.
pub open spec fn spec_dust(gs: Seq<Seq<LedgerInput>>) -> Seq<Seq<LedgerInput>> {
    gs.filter(|g: Seq<LedgerInput>| !is_bundle(g))
}

/// The bundles that partitioning a set of inputs yields.
pub open spec fn bundles_of(inputs: Seq<LedgerInput>) -> Seq<Seq<LedgerInput>> {
    spec_bundles(spec_groups(spec_sort(inputs)))
}

/// The dust groups that partitioning a set of inputs yields.
pub open spec fn dust_of(inputs: Seq<LedgerInput>) -> Seq<Seq<LedgerInput>> {
    spec_dust(spec_groups(spec_sort(inputs)))
}

/// Total balance of a group, computed without overflow.
pub fn group_balance(g: &Vec<LedgerInput>) -> (r: u128)
    ensures
        r == sum_bal(g@),
{
    let mut acc: u128 = 0;
    let mut i: usize = 0;
    while i < g.len()
        invariant
            0 <= i <= g@.len(),
            acc == sum_bal(g@.take(i as int)),
            acc <= (i as int) * (u64::MAX as int),
        decreases g@.len() - i,
    {
        proof {
            vstd::arithmetic::mul::lemma_mul_inequality(
                i + 1,
                u64::MAX as int,
                u64::MAX as int,
            );
            assert(g@.take(i + 1).drop_last() =~= g@.take(i as int));
            assert(g@.take(i + 1).last() == g@[i as int]);
        }
        acc = acc + g[i].balance as u128;
        i = i + 1;
    }
    proof {
        assert(g@.take(i as int) =~= g@);
    }
    acc
}

/// Forms the greedy groups over inputs already sorted by balance; the exact
/// result is pinned by `spec_groups`.
pub fn group_inputs(sorted: Vec<LedgerInput>) -> (groups: Vec<Vec<LedgerInput>>)
    ensures
        gview(groups@) == spec_groups(sorted@),
{
    let ghost full = sorted@;
    let mut src = sorted;
    let mut groups: Vec<Vec<LedgerInput>> = Vec::new();
    let ghost mut k: int = 0;

    while src.len() > 0
        invariant
            0 <= k <= full.len(),
            src@ =~= full.skip(k),
            gview(groups@) == spec_groups(full.take(k)),
        decreases src@.len(),
    {
        let x = src.remove(0);
        proof {
            assert(x == full[k]);
            assert(full.skip(k).skip(1) =~= full.skip(k + 1));
            assert(full.take(k + 1).drop_last() =~= full.take(k));
            assert(full.take(k + 1).last() == full[k]);
        }
        let ghost prev = gview(groups@);

        if groups.is_empty() {
            let mut ng: Vec<LedgerInput> = Vec::new();
            ng.push(x);
            groups.push(ng);
            proof {
                assert(prev.len() == 0);
                assert(gview(groups@) =~= seq![seq![x]]);
            }
        } else {
            let gi = groups.len() - 1;
            let open_sum = group_balance(&groups[gi]);
            proof {
                assert(groups@[gi as int]@ == prev.last());
            }
            if open_sum > DUST_THRESHOLD as u128 {
                let mut ng: Vec<LedgerInput> = Vec::new();
                ng.push(x);
                groups.push(ng);
                proof {
                    assert(gview(groups@) =~= prev.push(seq![x]));
                }
            } else {
                let mut open = groups.pop().unwrap();
                open.push(x);
                groups.push(open);
                proof {
                    assert(gview(groups@) =~= prev.update(prev.len() - 1, prev.last().push(x)));
                }
            }
        }
        proof {
            assert(gview(groups@) == spec_group_step(prev, full[k]));
            k = k + 1;
        }
    }
    proof {
        assert(full.take(k) =~= full);
    }
    groups
}

/// Splits groups into submittable bundles and dust groups; both parts are
/// pinned by `spec_bundles` and `spec_dust`.
pub fn split_dust(groups: Vec<Vec<LedgerInput>>) -> (r: (
    Vec<Vec<LedgerInput>>,
    Vec<Vec<LedgerInput>>,
))
    ensures
        gview(r.0@) == spec_bundles(gview(groups@)),
        gview(r.1@) == spec_dust(gview(groups@)),
{
    let ghost full = gview(groups@);
    let mut src = groups;
    let mut bundles: Vec<Vec<LedgerInput>> = Vec::new();
    let mut dust: Vec<Vec<LedgerInput>> = Vec::new();
    let ghost mut k: int = 0;

    proof {
        reveal(Seq::filter);
    }
    while src.len() > 0
        invariant
            0 <= k <= full.len(),
            gview(src@) =~= full.skip(k),
            gview(bundles@) == spec_bundles(full.take(k)),
            gview(dust@) == spec_dust(full.take(k)),
        decreases src@.len(),
    {
        let ghost old_src = src@;
        let g = src.remove(0);
        proof {
            assert(gview(old_src).len() == old_src.len());
            assert(gview(old_src)[0] == old_src[0]@);
            assert(g@ == full[k]);
            assert(gview(src@) =~= full.skip(k + 1)) by {
                assert(src@ =~= old_src.skip(1));
                assert forall|i: int| 0 <= i < src@.len() implies gview(src@)[i] == full.skip(
                    k + 1,
                )[i] by {
                    assert(gview(src@)[i] == src@[i]@);
                    assert(src@[i] == old_src[i + 1]);
                    assert(gview(old_src)[i + 1] == full.skip(k)[i + 1]);
                }
            }
            assert(full.take(k + 1).drop_last() =~= full.take(k));
            assert(full.take(k + 1).last() == full[k]);
            reveal(Seq::filter);
        }
        let ghost pb = gview(bundles@);
        let ghost pd = gview(dust@);
        let s = group_balance(&g);
        if s >= DUST_THRESHOLD as u128 {
            bundles.push(g);
            proof {
                assert(gview(bundles@) =~= pb.push(full[k]));
            }
        } else {
            dust.push(g);
            proof {
                assert(gview(dust@) =~= pd.push(full[k]));
            }
        }
        proof {
            k = k + 1;
        }
    }
    proof {
        assert(full.take(k) =~= full);
    }
    (bundles, dust)
}

/// Partitions ledger inputs into dust-safe bundles and reported dust groups:
/// sort ascending by balance, form greedy groups, split at the threshold.
/// The result is a function of the input sequence alone.
pub fn partition_inputs(inputs: Vec<LedgerInput>) -> (r: (
    Vec<Vec<LedgerInput>>,
    Vec<Vec<LedgerInput>>,
))
    ensures
        gview(r.0@) == bundles_of(inputs@),
        gview(r.1@) == dust_of(inputs@),
{
    let sorted = sort_by_balance(inputs);
    let groups = group_inputs(sorted);
    split_dust(groups)
}


/// Balances of a sequence of inputs, in order.
pub open spec fn balances(s: Seq<LedgerInput>) -> Seq<u64> {
    s.map_values(|x: LedgerInput| x.balance)
}

/// Balance structure of a sequence of groups.
pub open spec fn groups_balances(gs: Seq<Seq<LedgerInput>>) -> Seq<Seq<u64>> {
    gs.map_values(|g: Seq<LedgerInput>| balances(g))
}

proof fn lemma_flatten_step(acc: Seq<Seq<LedgerInput>>, x: LedgerInput)
    ensures
        spec_group_step(acc, x).flatten() =~= acc.flatten().push(x),
{
    broadcast use vstd::prelude::Seq::lemma_flatten_push;

    if acc.len() == 0 {
        assert(spec_group_step(acc, x) =~= Seq::<Seq<LedgerInput>>::empty().push(seq![x]));
        assert(Seq::<Seq<LedgerInput>>::empty().push(seq![x]).flatten() =~= Seq::<
            Seq<LedgerInput>,
        >::empty().flatten() + seq![x]);
        assert(acc.flatten().push(x) =~= Seq::<LedgerInput>::empty().push(x));
    } else if sum_bal(acc.last()) > DUST_THRESHOLD {
        assert(acc.push(seq![x]).flatten() =~= acc.flatten() + seq![x]);
        assert(acc.flatten() + seq![x] =~= acc.flatten().push(x));
    } else {
        let y = acc.last().push(x);
        assert(acc.update(acc.len() - 1, y) =~= acc.drop_last().push(y));
        assert(acc.drop_last().push(y).flatten() =~= acc.drop_last().flatten() + y);
        assert(acc =~= acc.drop_last().push(acc.last()));
        assert(acc.flatten() =~= acc.drop_last().flatten() + acc.last()) by {
            assert(acc.drop_last().push(acc.last()).flatten() =~= acc.drop_last().flatten()
                + acc.last());
        }
        assert(acc.drop_last().flatten() + y =~= acc.flatten().push(x));
    }
}

/// The greedy groups hold exactly the inputs, in sorted order.
pub proof fn lemma_flatten_groups(s: Seq<LedgerInput>)
    ensures
        spec_groups(s).flatten() =~= s,
    decreases s.len(),
{
    if s.len() == 0 {
    } else {
        lemma_flatten_groups(s.drop_last());
        lemma_flatten_step(spec_groups(s.drop_last()), s.last());
        assert(s.drop_last().push(s.last()) =~= s);
    }
}

/// Splitting at the dust threshold loses no group member and adds none.
proof fn lemma_split_conserves(gs: Seq<Seq<LedgerInput>>)
    ensures
        spec_bundles(gs).flatten().to_multiset().add(spec_dust(gs).flatten().to_multiset())
            =~= gs.flatten().to_multiset(),
    decreases gs.len(),
{
    reveal(Seq::filter);
    broadcast use vstd::prelude::Seq::lemma_flatten_push;
    broadcast use vstd::seq_lib::group_to_multiset_ensures;
    broadcast use vstd::multiset::group_multiset_axioms;

    if gs.len() == 0 {
        assert(spec_bundles(gs).flatten() =~= Seq::<LedgerInput>::empty());
        assert(spec_dust(gs).flatten() =~= Seq::<LedgerInput>::empty());
        assert(gs.flatten() =~= Seq::<LedgerInput>::empty());
    } else {
        let hd = gs.drop_last();
        let g = gs.last();
        lemma_split_conserves(hd);
        assert(gs =~= hd.push(g));
        assert(gs.flatten() =~= hd.flatten() + g);
        vstd::seq_lib::lemma_multiset_commutative(hd.flatten(), g);
        let mb = spec_bundles(hd).flatten().to_multiset();
        let md = spec_dust(hd).flatten().to_multiset();
        let mg = g.to_multiset();
        if is_bundle(g) {
            assert(spec_bundles(gs) =~= spec_bundles(hd).push(g));
            assert(spec_dust(gs) =~= spec_dust(hd));
            assert(spec_bundles(gs).flatten() =~= spec_bundles(hd).flatten() + g);
            vstd::seq_lib::lemma_multiset_commutative(spec_bundles(hd).flatten(), g);
            assert(spec_bundles(gs).flatten().to_multiset() =~= mb.add(mg));
            assert(mb.add(mg).add(md) =~= mb.add(md).add(mg)) by {
                assert forall|a: LedgerInput|
                    #[trigger] mb.add(mg).add(md).count(a) == mb.add(md).add(mg).count(a) by {}
            }
        } else {
            assert(spec_dust(gs) =~= spec_dust(hd).push(g));
            assert(spec_bundles(gs) =~= spec_bundles(hd));
            assert(spec_dust(gs).flatten() =~= spec_dust(hd).flatten() + g);
            vstd::seq_lib::lemma_multiset_commutative(spec_dust(hd).flatten(), g);
            assert(spec_dust(gs).flatten().to_multiset() =~= md.add(mg));
        }
    }
}

/// Bundler invariant: every bundle carries at least the dust threshold (and
/// is therefore non-empty), every dust group is non-empty and stays below
/// the threshold, and together the bundles and the dust groups hold the
/// original inputs exactly once each.
pub proof fn lemma_bundler_invariant(inputs: Seq<LedgerInput>)
    ensures
        forall|i: int|
            0 <= i < spec_bundles(spec_groups(spec_sort(inputs))).len() ==> sum_bal(
                #[trigger] spec_bundles(spec_groups(spec_sort(inputs)))[i],
            ) >= DUST_THRESHOLD && spec_bundles(spec_groups(spec_sort(inputs)))[i].len() > 0,
        forall|i: int|
            0 <= i < spec_dust(spec_groups(spec_sort(inputs))).len() ==> sum_bal(
                #[trigger] spec_dust(spec_groups(spec_sort(inputs)))[i],
            ) < DUST_THRESHOLD && spec_dust(spec_groups(spec_sort(inputs)))[i].len() > 0,
        spec_bundles(spec_groups(spec_sort(inputs))).flatten().to_multiset().add(
            spec_dust(spec_groups(spec_sort(inputs))).flatten().to_multiset(),
        ) =~= inputs.to_multiset(),
{
    broadcast use vstd::prelude::Seq::lemma_filter_pred;

    let gs = spec_groups(spec_sort(inputs));
    assert forall|i: int| 0 <= i < spec_bundles(gs).len() implies sum_bal(
        #[trigger] spec_bundles(gs)[i],
    ) >= DUST_THRESHOLD && spec_bundles(gs)[i].len() > 0 by {
        assert(is_bundle(spec_bundles(gs)[i]));
        if spec_bundles(gs)[i].len() == 0 {
            assert(sum_bal(spec_bundles(gs)[i]) == 0);
        }
    }
    assert forall|i: int| 0 <= i < spec_dust(gs).len() implies sum_bal(
        #[trigger] spec_dust(gs)[i],
    ) < DUST_THRESHOLD && spec_dust(gs)[i].len() > 0 by {
        assert(!is_bundle(spec_dust(gs)[i]));
        lemma_filter_member(gs, |g: Seq<LedgerInput>| !is_bundle(g), i);
        let j = choose|j: int| 0 <= j < gs.len() && gs[j] == spec_dust(gs)[i];
        lemma_groups_well_formed(spec_sort(inputs));
        assert(gs[j].len() > 0);
    }
    lemma_split_conserves(gs);
    lemma_flatten_groups(spec_sort(inputs));
    lemma_sort_ensures(inputs);
}

proof fn lemma_balances_multiset(x: Seq<LedgerInput>, y: Seq<LedgerInput>)
    requires
        x.to_multiset() == y.to_multiset(),
    ensures
        balances(x).to_multiset() =~= balances(y).to_multiset(),
    decreases x.len(),
{
    broadcast use vstd::seq_lib::group_to_multiset_ensures;
    broadcast use vstd::multiset::group_multiset_axioms;

    if x.len() == 0 {
        assert(x.to_multiset().len() == x.len());
        assert(y.to_multiset().len() == y.len());
        assert(y.len() == 0);
        assert(balances(x) =~= Seq::<u64>::empty());
        assert(balances(y) =~= Seq::<u64>::empty());
    } else {
        let v = x[0];
        assert(x.contains(v));
        assert(y.to_multiset().count(v) > 0);
        assert(y.contains(v));
        let i = choose|i: int| 0 <= i < y.len() && y[i] == v;
        assert(x.remove(0).to_multiset() =~= x.to_multiset().remove(v));
        assert(y.remove(i).to_multiset() =~= y.to_multiset().remove(v));
        lemma_balances_multiset(x.remove(0), y.remove(i));
        let bx = balances(x);
        let by = balances(y);
        assert(balances(x.remove(0)) =~= bx.remove(0));
        assert(balances(y.remove(i)) =~= by.remove(i));
        assert(bx.remove(0).to_multiset() =~= bx.to_multiset().remove(v.balance)) by {
            assert(bx[0] == v.balance);
        }
        assert(by.remove(i).to_multiset() =~= by.to_multiset().remove(v.balance)) by {
            assert(by[i] == v.balance);
        }
        assert(bx.to_multiset().count(v.balance) > 0) by {
            assert(bx[0] == v.balance);
            assert(bx.contains(v.balance));
        }
        assert(by.to_multiset().count(v.balance) > 0) by {
            assert(by[i] == v.balance);
            assert(by.contains(v.balance));
        }
        assert forall|b: u64| #[trigger] bx.to_multiset().count(b) == by.to_multiset().count(
            b,
        ) by {
            assert(bx.to_multiset().remove(v.balance).count(b) == by.to_multiset().remove(
                v.balance,
            ).count(b));
        }
    }
}

proof fn lemma_sum_by_balances(g1: Seq<LedgerInput>, g2: Seq<LedgerInput>)
    requires
        balances(g1) == balances(g2),
    ensures
        sum_bal(g1) == sum_bal(g2),
    decreases g1.len(),
{
    assert(balances(g1).len() == g1.len());
    assert(balances(g2).len() == g2.len());
    if g1.len() == 0 {
        assert(g2.len() == 0);
    } else {
        assert(balances(g1.drop_last()).len() == g1.len() - 1);
        assert(balances(g2.drop_last()).len() == g2.len() - 1);
        assert(balances(g1.drop_last()) =~= balances(g2.drop_last())) by {
            assert forall|i: int| 0 <= i < g1.len() - 1 implies balances(g1.drop_last())[i]
                == balances(g2.drop_last())[i] by {
                assert(balances(g1.drop_last())[i] == g1.drop_last()[i].balance);
                assert(g1.drop_last()[i] == g1[i]);
                assert(balances(g1)[i] == g1[i].balance);
                assert(balances(g2.drop_last())[i] == g2.drop_last()[i].balance);
                assert(g2.drop_last()[i] == g2[i]);
                assert(balances(g2)[i] == g2[i].balance);
                assert(balances(g1)[i] == balances(g2)[i]);
            }
        }
        lemma_sum_by_balances(g1.drop_last(), g2.drop_last());
        assert(balances(g1)[g1.len() - 1] == balances(g2)[g2.len() - 1]);
    }
}

proof fn lemma_step_by_balances(
    a1: Seq<Seq<LedgerInput>>,
    a2: Seq<Seq<LedgerInput>>,
    x1: LedgerInput,
    x2: LedgerInput,
)
    requires
        groups_balances(a1) == groups_balances(a2),
        x1.balance == x2.balance,
    ensures
        groups_balances(spec_group_step(a1, x1)) =~= groups_balances(spec_group_step(a2, x2)),
{
    assert(groups_balances(a1).len() == a1.len());
    assert(groups_balances(a2).len() == a2.len());
    assert(a1.len() == a2.len());
    if a1.len() == 0 {
        assert forall|i: int|
            0 <= i < 1 implies groups_balances(spec_group_step(a1, x1))[i] =~= groups_balances(
            spec_group_step(a2, x2),
        )[i] by {
            assert(balances(seq![x1]) =~= balances(seq![x2])) by {
                assert(balances(seq![x1])[0] == x1.balance);
                assert(balances(seq![x2])[0] == x2.balance);
            }
        }
    } else {
        assert(balances(a1.last()) == groups_balances(a1)[a1.len() - 1]);
        assert(balances(a2.last()) == groups_balances(a2)[a2.len() - 1]);
        lemma_sum_by_balances(a1.last(), a2.last());
        if sum_bal(a1.last()) > DUST_THRESHOLD {
            assert forall|i: int|
                0 <= i < a1.len() + 1 implies groups_balances(a1.push(seq![x1]))[i]
                =~= groups_balances(a2.push(seq![x2]))[i] by {
                if i < a1.len() {
                    assert(groups_balances(a1)[i] == groups_balances(a2)[i]);
                } else {
                    assert(balances(seq![x1])[0] == x1.balance);
                    assert(balances(seq![x2])[0] == x2.balance);
                    assert(balances(seq![x1]) =~= balances(seq![x2]));
                }
            }
        } else {
            let u1 = a1.update(a1.len() - 1, a1.last().push(x1));
            let u2 = a2.update(a2.len() - 1, a2.last().push(x2));
            assert forall|i: int|
                0 <= i < a1.len() implies groups_balances(u1)[i] =~= groups_balances(u2)[i] by {
                if i < a1.len() - 1 {
                    assert(groups_balances(a1)[i] == groups_balances(a2)[i]);
                } else {
                    assert(balances(a1.last().push(x1)) =~= balances(a2.last().push(x2))) by {
                        assert forall|j: int|
                            0 <= j < a1.last().len() + 1 implies balances(a1.last().push(x1))[j]
                            == balances(a2.last().push(x2))[j] by {
                            if j < a1.last().len() {
                                assert(balances(a1.last())[j] == balances(a2.last())[j]);
                            }
                        }
                    }
                }
            }
        }
    }
}

proof fn lemma_groups_by_balances(x: Seq<LedgerInput>, y: Seq<LedgerInput>)
    requires
        balances(x) == balances(y),
    ensures
        groups_balances(spec_groups(x)) =~= groups_balances(spec_groups(y)),
    decreases x.len(),
{
    assert(balances(x).len() == x.len());
    assert(balances(y).len() == y.len());
    if x.len() == 0 {
        assert(y.len() == 0);
    } else {
        assert(balances(x.drop_last()).len() == x.len() - 1);
        assert(balances(y.drop_last()).len() == y.len() - 1);
        assert(balances(x.drop_last()) =~= balances(y.drop_last())) by {
            assert forall|i: int| 0 <= i < x.len() - 1 implies balances(x.drop_last())[i]
                == balances(y.drop_last())[i] by {
                assert(balances(x.drop_last())[i] == x.drop_last()[i].balance);
                assert(x.drop_last()[i] == x[i]);
                assert(balances(x)[i] == x[i].balance);
                assert(balances(y.drop_last())[i] == y.drop_last()[i].balance);
                assert(y.drop_last()[i] == y[i]);
                assert(balances(y)[i] == y[i].balance);
                assert(balances(x)[i] == balances(y)[i]);
            }
        }
        lemma_groups_by_balances(x.drop_last(), y.drop_last());
        assert(x.last().balance == y.last().balance) by {
            assert(balances(x)[x.len() - 1] == balances(y)[y.len() - 1]);
        }
        lemma_step_by_balances(
            spec_groups(x.drop_last()),
            spec_groups(y.drop_last()),
            x.last(),
            y.last(),
        );
    }
}

proof fn lemma_split_by_balances(gs1: Seq<Seq<LedgerInput>>, gs2: Seq<Seq<LedgerInput>>)
    requires
        groups_balances(gs1) == groups_balances(gs2),
    ensures
        groups_balances(spec_bundles(gs1)) =~= groups_balances(spec_bundles(gs2)),
        groups_balances(spec_dust(gs1)) =~= groups_balances(spec_dust(gs2)),
    decreases gs1.len(),
{
    reveal(Seq::filter);
    assert(groups_balances(gs1).len() == gs1.len());
    assert(groups_balances(gs2).len() == gs2.len());
    assert(gs1.len() == gs2.len());
    if gs1.len() == 0 {
    } else {
        assert(groups_balances(gs1.drop_last()).len() == gs1.len() - 1);
        assert(groups_balances(gs2.drop_last()).len() == gs2.len() - 1);
        assert(groups_balances(gs1.drop_last()) =~= groups_balances(gs2.drop_last())) by {
            assert forall|i: int|
                0 <= i < gs1.len() - 1 implies groups_balances(gs1.drop_last())[i]
                == groups_balances(gs2.drop_last())[i] by {
                assert(groups_balances(gs1)[i] == groups_balances(gs2)[i]);
            }
        }
        lemma_split_by_balances(gs1.drop_last(), gs2.drop_last());
        assert(balances(gs1.last()) == balances(gs2.last())) by {
            assert(groups_balances(gs1)[gs1.len() - 1] == groups_balances(gs2)[gs2.len() - 1]);
        }
        lemma_sum_by_balances(gs1.last(), gs2.last());
        if is_bundle(gs1.last()) {
            assert(spec_bundles(gs1) =~= spec_bundles(gs1.drop_last()).push(gs1.last()));
            assert(spec_bundles(gs2) =~= spec_bundles(gs2.drop_last()).push(gs2.last()));
            assert forall|i: int|
                0 <= i < spec_bundles(gs1).len() implies groups_balances(spec_bundles(gs1))[i]
                =~= groups_balances(spec_bundles(gs2))[i] by {
                if i < spec_bundles(gs1.drop_last()).len() {
                    assert(groups_balances(spec_bundles(gs1.drop_last()))[i] == groups_balances(
                        spec_bundles(gs2.drop_last()),
                    )[i]);
                }
            }
            assert(spec_dust(gs1) =~= spec_dust(gs1.drop_last()));
            assert(spec_dust(gs2) =~= spec_dust(gs2.drop_last()));
        } else {
            assert(spec_dust(gs1) =~= spec_dust(gs1.drop_last()).push(gs1.last()));
            assert(spec_dust(gs2) =~= spec_dust(gs2.drop_last()).push(gs2.last()));
            assert forall|i: int|
                0 <= i < spec_dust(gs1).len() implies groups_balances(spec_dust(gs1))[i]
                =~= groups_balances(spec_dust(gs2))[i] by {
                if i < spec_dust(gs1.drop_last()).len() {
                    assert(groups_balances(spec_dust(gs1.drop_last()))[i] == groups_balances(
                        spec_dust(gs2.drop_last()),
                    )[i]);
                }
            }
            assert(spec_bundles(gs1) =~= spec_bundles(gs1.drop_last()));
            assert(spec_bundles(gs2) =~= spec_bundles(gs2.drop_last()));
        }
    }
}

/// Bundler determinism: two inputs holding the same multiset of ledger
/// inputs are partitioned into bundles and dust groups with the same balance
/// structure, whatever order the inputs arrived in.
pub proof fn lemma_bundler_deterministic(s1: Seq<LedgerInput>, s2: Seq<LedgerInput>)
    requires
        s1.to_multiset() == s2.to_multiset(),
    ensures
        groups_balances(spec_bundles(spec_groups(spec_sort(s1)))) == groups_balances(
            spec_bundles(spec_groups(spec_sort(s2))),
        ),
        groups_balances(spec_dust(spec_groups(spec_sort(s1)))) == groups_balances(
            spec_dust(spec_groups(spec_sort(s2))),
        ),
{
    lemma_sort_ensures(s1);
    lemma_sort_ensures(s2);
    lemma_balances_multiset(spec_sort(s1), spec_sort(s2));
    let b1 = balances(spec_sort(s1));
    let b2 = balances(spec_sort(s2));
    assert(vstd::relations::sorted_by(b1, |a: u64, b: u64| a <= b)) by {
        assert forall|i: int, j: int| 0 <= i < j < b1.len() implies b1[i] <= b1[j] by {
            assert(spec_sort(s1)[i].balance <= spec_sort(s1)[j].balance);
        }
    }
    assert(vstd::relations::sorted_by(b2, |a: u64, b: u64| a <= b)) by {
        assert forall|i: int, j: int| 0 <= i < j < b2.len() implies b2[i] <= b2[j] by {
            assert(spec_sort(s2)[i].balance <= spec_sort(s2)[j].balance);
        }
    }
    assert(vstd::relations::total_ordering(|a: u64, b: u64| a <= b));
    vstd::seq_lib::lemma_sorted_unique(b1, b2, |a: u64, b: u64| a <= b);
    assert(b1 == b2);
    lemma_groups_by_balances(spec_sort(s1), spec_sort(s2));
    lemma_split_by_balances(spec_groups(spec_sort(s1)), spec_groups(spec_sort(s2)));
}

/// Bundling is pure: the partition is a function of the input sequence
/// alone, so re-running it on identical inputs yields identical output.
pub proof fn lemma_bundling_idempotent(
    s: Seq<LedgerInput>,
    r1: (Seq<Seq<LedgerInput>>, Seq<Seq<LedgerInput>>),
    r2: (Seq<Seq<LedgerInput>>, Seq<Seq<LedgerInput>>),
)
    requires
        r1.0 == spec_bundles(spec_groups(spec_sort(s))),
        r1.1 == spec_dust(spec_groups(spec_sort(s))),
        r2.0 == spec_bundles(spec_groups(spec_sort(s))),
        r2.1 == spec_dust(spec_groups(spec_sort(s))),
    ensures
        r1 == r2,
{
}

/// An element of one of the groups appears in the flattening.
pub proof fn lemma_flatten_member(gs: Seq<Seq<LedgerInput>>, i: int, e: int)
    requires
        0 <= i < gs.len(),
        0 <= e < gs[i].len(),
    ensures
        gs.flatten().contains(gs[i][e]),
    decreases gs.len(),
{
    broadcast use vstd::prelude::Seq::lemma_flatten_push;

    assert(gs =~= gs.drop_last().push(gs.last()));
    assert(gs.flatten() =~= gs.drop_last().flatten() + gs.last());
    if i == gs.len() - 1 {
        assert((gs.drop_last().flatten() + gs.last())[gs.drop_last().flatten().len() + e] == gs[i][e]);
    } else {
        lemma_flatten_member(gs.drop_last(), i, e);
        let x = gs[i][e];
        let j = choose|j: int|
            0 <= j < gs.drop_last().flatten().len() && gs.drop_last().flatten()[j] == x;
        assert((gs.drop_last().flatten() + gs.last())[j] == x);
    }
}

/// A group kept by a filter is one of the groups filtered from.
pub proof fn lemma_filter_member(gs: Seq<Seq<LedgerInput>>, pred: spec_fn(Seq<LedgerInput>) -> bool, i: int)
    requires
        0 <= i < gs.filter(pred).len(),
    ensures
        gs.contains(gs.filter(pred)[i]),
    decreases gs.len(),
{
    reveal(Seq::filter);
    if gs.len() == 0 {
    } else {
        let dl = gs.drop_last();
        assert(gs =~= dl.push(gs.last()));
        if pred(gs.last()) && i == gs.filter(pred).len() - 1 {
            assert(gs.filter(pred)[i] == gs.last());
            assert(gs[gs.len() - 1] == gs.last());
        } else {
            assert(gs.filter(pred)[i] == dl.filter(pred)[i]);
            lemma_filter_member(dl, pred, i);
            let j = choose|j: int| 0 <= j < dl.len() && dl[j] == dl.filter(pred)[i];
            assert(gs[j] == dl.filter(pred)[i]);
        }
    }
}

/// The shape the greedy fold guarantees: no group is empty, an input joined
/// a group only while the sum before it had not yet exceeded the dust
/// threshold, and every group but the last closed precisely because its sum
/// had exceeded the threshold.  The last group carries no such guarantee: a
/// trailing remainder below the threshold is possible and is later dropped
/// as dust.
pub open spec fn well_formed_groups(gs: Seq<Seq<LedgerInput>>) -> bool {
    &&& forall|i: int| 0 <= i < gs.len() ==> (#[trigger] gs[i]).len() > 0
    &&& forall|i: int, p: int|
        0 <= i < gs.len() && 0 <= p < gs[i].len() ==> sum_bal(#[trigger] gs[i].take(p))
            <= DUST_THRESHOLD
    &&& forall|i: int| 0 <= i < gs.len() - 1 ==> sum_bal(#[trigger] gs[i]) > DUST_THRESHOLD
}

/// Greedy boundary policy: the groups formed from any input sequence are
/// well formed in the sense of `well_formed_groups`.
pub proof fn lemma_groups_well_formed(s: Seq<LedgerInput>)
    ensures
        well_formed_groups(spec_groups(s)),
    decreases s.len(),
{
    if s.len() == 0 {
    } else {
        lemma_groups_well_formed(s.drop_last());
        let acc = spec_groups(s.drop_last());
        let x = s.last();
        let gs = spec_group_step(acc, x);
        if acc.len() == 0 {
            assert(gs =~= seq![seq![x]]);
            assert forall|i: int, p: int|
                0 <= i < gs.len() && 0 <= p < gs[i].len() implies sum_bal(#[trigger] gs[i].take(p))
                <= DUST_THRESHOLD by {
                assert(gs[i].take(p) =~= Seq::<LedgerInput>::empty());
            }
        } else if sum_bal(acc.last()) > DUST_THRESHOLD {
            assert(gs =~= acc.push(seq![x]));
            assert forall|i: int| 0 <= i < gs.len() implies (#[trigger] gs[i]).len() > 0 by {
                if i < acc.len() {
                    assert(gs[i] == acc[i]);
                }
            }
            assert forall|i: int, p: int|
                0 <= i < gs.len() && 0 <= p < gs[i].len() implies sum_bal(#[trigger] gs[i].take(p))
                <= DUST_THRESHOLD by {
                if i < acc.len() {
                    assert(gs[i] == acc[i]);
                    assert(sum_bal(acc[i].take(p)) <= DUST_THRESHOLD);
                } else {
                    assert(gs[i] == seq![x]);
                    assert(p == 0);
                    assert(gs[i].take(0) =~= Seq::<LedgerInput>::empty());
                }
            }
            assert forall|i: int| 0 <= i < gs.len() - 1 implies sum_bal(#[trigger] gs[i])
                > DUST_THRESHOLD by {
                assert(gs[i] == acc[i]);
                if i < acc.len() - 1 {
                    assert(sum_bal(acc[i]) > DUST_THRESHOLD);
                } else {
                    assert(acc[i] == acc.last());
                }
            }
        } else {
            let grown = acc.last().push(x);
            assert(gs =~= acc.update(acc.len() - 1, grown));
            assert forall|i: int| 0 <= i < gs.len() implies (#[trigger] gs[i]).len() > 0 by {
                if i < acc.len() - 1 {
                    assert(gs[i] == acc[i]);
                }
            }
            assert forall|i: int, p: int|
                0 <= i < gs.len() && 0 <= p < gs[i].len() implies sum_bal(#[trigger] gs[i].take(p))
                <= DUST_THRESHOLD by {
                if i < acc.len() - 1 {
                    assert(gs[i] == acc[i]);
                    assert(sum_bal(acc[i].take(p)) <= DUST_THRESHOLD);
                } else {
                    assert(gs[i] == grown);
                    if p < acc.last().len() {
                        assert(grown.take(p) =~= acc.last().take(p));
                        assert(sum_bal(acc.last().take(p)) <= DUST_THRESHOLD);
                    } else {
                        assert(p == acc.last().len());
                        assert(grown.take(p) =~= acc.last());
                    }
                }
            }
            assert forall|i: int| 0 <= i < gs.len() - 1 implies sum_bal(#[trigger] gs[i])
                > DUST_THRESHOLD by {
                assert(gs[i] == acc[i]);
                assert(sum_bal(acc[i]) > DUST_THRESHOLD);
            }
        }
    }
}

} // verus!

//! Confirmation tracking for sent bundles: poll, and reattach whole sweeps
//! once a fixed window has passed without everything confirming.
//!
//! The engine holds the decisions of the polling loop; the caller performs
//! the network work (polling a hash, reattaching a bundle) and hands the
//! outcomes back.  A failed confirmation query must be handed in as "not
//! confirmed": an ambiguous answer never confirms a bundle.

use vstd::prelude::*;

verus! {

/// Traversal depth used when broadcasting or reattaching a bundle.
pub const TRAVERSAL_DEPTH: u8 = 2;

/// Seconds to sleep between polling passes.
pub const POLL_INTERVAL_SECS: u64 = 10;

/// Seconds without full confirmation after which every bundle still pending
/// is reattached and the window restarts.
pub const REATTACH_WINDOW_SECS: u64 = 180;

/// One sent bundle still being tracked: the hash polled for confirmation and
/// how many times the bundle was re-broadcast under a fresh identity.
pub struct TrackedBundle {
    pub hash: String,
    pub reattachments: u64,
}

/// What the polling loop should do next.
pub enum PollAction {
    AllConfirmed,
    KeepWaiting,
    ReattachAll,
}

/// The bundles of `pend` not marked confirmed, in order.
pub open spec fn retain_unconfirmed(pend: Seq<TrackedBundle>, conf: Seq<bool>) -> Seq<
    TrackedBundle,
>
    decreases pend.len(),
{
    if pend.len() == 0 {
        Seq::empty()
    } else {
        let rest = retain_unconfirmed(pend.drop_last(), conf.drop_last());
        if conf.len() == pend.len() && conf.last() {
            rest
        } else {
            rest.push(pend.last())
        }
    }
}

/// A reattachment count one higher, saturating at the top of `u64`.
pub open spec fn bump(n: u64) -> int {
    if n + 1 <= u64::MAX {
        n + 1
    } else {
        u64::MAX as int
    }
}

/// Polling state for all bundles sent for one seed: the set still
/// unconfirmed, and the seconds elapsed since the loop started or since the
/// last reattachment sweep.
pub struct ConfirmationEngine {
    pub pending: Vec<TrackedBundle>,
    pub elapsed_secs: u64,
}

impl ConfirmationEngine {
    /// Starts tracking the given bundle hashes, none yet confirmed, with a
    /// fresh window.
    pub fn new(hashes: Vec<String>) -> (r: ConfirmationEngine)
        ensures
            r.pending@.len() == hashes@.len(),
            forall|i: int|
                0 <= i < hashes@.len() ==> #[trigger] r.pending@[i].hash@ == hashes@[i]@
                    && r.pending@[i].reattachments == 0,
            r.elapsed_secs == 0,
    {
        let ghost full = hashes@;
        let mut src = hashes;
        let mut pending: Vec<TrackedBundle> = Vec::new();
        let ghost mut k: int = 0;
        while src.len() > 0
            invariant
                0 <= k <= full.len(),
                src@ =~= full.skip(k),
                pending@.len() == k,
                forall|i: int|
                    0 <= i < k ==> #[trigger] pending@[i].hash@ == full[i]@
                        && pending@[i].reattachments == 0,
            decreases src@.len(),
        {
            let h = src.remove(0);
            proof {
                assert(h == full[k]);
                assert(full.skip(k).skip(1) =~= full.skip(k + 1));
            }
            pending.push(TrackedBundle { hash: h, reattachments: 0 });
            proof {
                k = k + 1;
            }
        }
        ConfirmationEngine { pending, elapsed_secs: 0 }
    }

    /// Number of bundles still unconfirmed.
    pub fn pending_len(&self) -> (n: usize)
        ensures
            n == self.pending@.len(),
    {
        self.pending.len()
    }

    /// Notes that `dt` more seconds have passed; the window saturates rather
    /// than wrapping.
    pub fn advance(&mut self, dt: u64)
        ensures
            final(self).elapsed_secs == if old(self).elapsed_secs + dt <= u64::MAX {
                old(self).elapsed_secs + dt
            } else {
                u64::MAX as int
            },
            final(self).pending@ == old(self).pending@,
    {
        self.elapsed_secs = if self.elapsed_secs <= u64::MAX - dt {
            self.elapsed_secs + dt
        } else {
            u64::MAX
        };
    }

    /// Applies one polling pass: `confirmed[i]` answers for `pending[i]`,
    /// where a failed query must be handed in as `false`.  Confirmed bundles
    /// leave the pending set; the rest stay, in order; the window keeps
    /// running.
    pub fn apply_poll(&mut self, confirmed: &Vec<bool>)
        requires
            confirmed@.len() == old(self).pending@.len(),
        ensures
            final(self).pending@ == retain_unconfirmed(old(self).pending@, confirmed@),
            final(self).elapsed_secs == old(self).elapsed_secs,
    {
        let ghost full = self.pending@;
        let ghost conf = confirmed@;
        let mut src: Vec<TrackedBundle> = Vec::new();
        core::mem::swap(&mut src, &mut self.pending);
        let total = src.len();
        proof {
            assert(full.len() == total);
        }
        let mut kept: Vec<TrackedBundle> = Vec::new();
        let mut i: usize = 0;
        while src.len() > 0
            invariant
                0 <= i <= full.len(),
                full.len() <= usize::MAX,
                conf == confirmed@,
                conf.len() == full.len(),
                src@ =~= full.skip(i as int),
                kept@ == retain_unconfirmed(full.take(i as int), conf.take(i as int)),
            decreases src@.len(),
        {
            proof {
                assert(full.skip(i as int).len() == full.len() - i);
                assert(i < full.len());
            }
            let b = src.remove(0);
            proof {
                assert(b == full[i as int]);
                assert(full.skip(i as int).skip(1) =~= full.skip(i + 1));
                assert(full.take(i + 1).drop_last() =~= full.take(i as int));
                assert(conf.take(i + 1).drop_last() =~= conf.take(i as int));
                assert(full.take(i + 1).last() == full[i as int]);
                assert(conf.take(i + 1).last() == conf[i as int]);
                assert(conf.take(i + 1).len() == full.take(i + 1).len());
            }
            if !confirmed[i] {
                kept.push(b);
            }
            i = i + 1;
        }
        proof {
            assert(full.take(i as int) =~= full);
            assert(conf.take(i as int) =~= conf);
        }
        self.pending = kept;
    }

    /// What to do next: done when nothing is pending; reattach everything
    /// once the window has been exceeded; otherwise keep waiting.
    pub fn next_action(&self) -> (r: PollAction)
        ensures
            r is AllConfirmed <==> self.pending@.len() == 0,
            r is ReattachAll <==> self.pending@.len() > 0 && self.elapsed_secs
                > REATTACH_WINDOW_SECS,
            r is KeepWaiting <==> self.pending@.len() > 0 && self.elapsed_secs
                <= REATTACH_WINDOW_SECS,
    {
        if self.pending.len() == 0 {
            PollAction::AllConfirmed
        } else if self.elapsed_secs > REATTACH_WINDOW_SECS {
            PollAction::ReattachAll
        } else {
            PollAction::KeepWaiting
        }
    }

    /// Applies one reattachment sweep: `new_hashes[i]` carries the fresh
    /// identity of `pending[i]`, or `None` where reattachment failed and the
    /// old identity stays polled.  Every bundle is re-identified at most
    /// once, each successful one exactly once, and the window restarts.
    pub fn apply_reattach(&mut self, new_hashes: Vec<Option<String>>)
        requires
            new_hashes@.len() == old(self).pending@.len(),
        ensures
            final(self).pending@.len() == old(self).pending@.len(),
            forall|i: int|
                0 <= i < old(self).pending@.len() ==> match new_hashes@[i] {
                    Some(h) => #[trigger] final(self).pending@[i].hash@ == h@ && final(self).pending@[i].reattachments == bump(old(self).pending@[i].reattachments),
                    None => final(self).pending@[i].hash@ == old(self).pending@[i].hash@ && final(self).pending@[i].reattachments == old(self).pending@[i].reattachments,
                },
            final(self).elapsed_secs == 0,
    {
        let ghost full = self.pending@;
        let ghost nh = new_hashes@;
        let mut src: Vec<TrackedBundle> = Vec::new();
        core::mem::swap(&mut src, &mut self.pending);
        let total = src.len();
        proof {
            assert(full.len() == total);
        }
        let mut hs = new_hashes;
        let mut out: Vec<TrackedBundle> = Vec::new();
        let mut i: usize = 0;
        while src.len() > 0
            invariant
                0 <= i <= full.len(),
                full.len() <= usize::MAX,
                nh.len() == full.len(),
                src@ =~= full.skip(i as int),
                hs@ =~= nh.skip(i as int),
                out@.len() == i,
                forall|j: int|
                    0 <= j < i ==> match nh[j] {
                        Some(h) => #[trigger] out@[j].hash@ == h@ && out@[j].reattachments == bump(full[j].reattachments),
                        None => out@[j].hash@ == full[j].hash@ && out@[j].reattachments == full[j].reattachments,
                    },
            decreases src@.len(),
    {
            proof {
                assert(full.skip(i as int).len() == full.len() - i);
                assert(i < full.len());
            }
            let b = src.remove(0);
            let h = hs.remove(0);
            proof {
                assert(b == full[i as int]);
                assert(h == nh[i as int]);
                assert(full.skip(i as int).skip(1) =~= full.skip(i + 1));
                assert(nh.skip(i as int).skip(1) =~= nh.skip(i + 1));
            }
            let ghost prev_out = out@;
            match h {
                Some(new_hash) => {
                    let ghost nv = new_hash@;
                    let n = if b.reattachments <= u64::MAX - 1 {
                        b.reattachments + 1
                    } else {
                        u64::MAX
                    };
                    proof {
                        assert(n == bump(full[i as int].reattachments));
                    }
                    out.push(TrackedBundle { hash: new_hash, reattachments: n });
                    proof {
                        assert(out@[i as int].hash@ == nv);
                        assert(out@[i as int].reattachments == n);
                    }
                },
                None => {
                    out.push(b);
                    proof {
                        assert(out@[i as int] == full[i as int]);
                        assert(out@[i as int].hash@ == full[i as int].hash@);
                    }
                },
            }
            proof {
                assert forall|j: int| 0 <= j < i + 1 implies (match #[trigger] nh[j] {
                    Some(h2) => out@[j].hash@ == h2@ && out@[j].reattachments == bump(
                        full[j].reattachments,
                    ),
                    None => out@[j].hash@ == full[j].hash@ && out@[j].reattachments
                        == full[j].reattachments,
                }) by {
                    if j < i {
                        assert(out@[j] == prev_out[j]);
                        assert(prev_out[j].hash@ == out@[j].hash@);
                    }
                }
            }
            i = i + 1;
        }
        self.pending = out;
        self.elapsed_secs = 0;
    }
}

} // verus!

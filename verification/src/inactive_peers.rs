//! Tracks how recently each peer was active and decides which peers to
//! report as inactive.
//!
//! The decision core is synchronous: the caller supplies the current time
//! and whether the reporting interval fired, performs the surrounding
//! polling itself, and acts on the decision returned.

use vstd::prelude::*;
use crate::assoc::{assoc_map, lemma_assoc_at, lemma_assoc_dom, lemma_assoc_push, lemma_assoc_remove, lemma_assoc_update, unique_keys};

verus! {

/// A peer's identifier.
#[derive(Clone, Copy, Debug, PartialEq, Eq, Hash, Structural)]
pub struct PeerId {
    pub hi: u64,
    pub lo: u64,
}

/// What one polling step decided.
#[derive(Clone, Copy, Debug, PartialEq, Eq, Structural)]
pub enum PollDecision {
    /// A peer crossed the inactivity threshold and is reported.
    Inactive(PeerId),
    /// Nothing to report; `wake` says whether more inactive peers are
    /// already queued and the caller should poll again soon.
    Pending { wake: bool },
}

/// Tracks each peer's last activity and queues peers that crossed the
/// inactivity threshold.
#[derive(Debug)]
pub struct InactivePeers {
    /// Seconds of silence after which a peer counts as inactive.
    pub inactivity_threshold: u64,
    /// Each tracked peer's last activity time, in seconds.
    pub last_activity: Vec<(PeerId, u64)>,
    /// Peers found inactive and not yet reported, oldest first.
    pub inactive_peers: Vec<PeerId>,
}

impl InactivePeers {
    pub open spec fn activity_view(self) -> Map<PeerId, u64> {
        assoc_map(self.last_activity@)
    }

    pub open spec fn wf(self) -> bool {
        unique_keys(self.last_activity@)
    }

    pub fn new(inactivity_threshold: u64) -> (r: Self)
        ensures
            r.wf(),
            r.inactivity_threshold == inactivity_threshold,
            r.last_activity@.len() == 0,
            r.inactive_peers@.len() == 0,
    {
        InactivePeers {
            inactivity_threshold,
            last_activity: Vec::new(),
            inactive_peers: Vec::new(),
        }
    }

    /// Refreshes a tracked peer's last activity; a peer that is not tracked
    /// stays untracked.
    pub fn track_activity(&mut self, peer_id: PeerId, now: u64)
        requires
            old(self).wf(),
        ensures
            final(self).wf(),
            final(self).inactivity_threshold == old(self).inactivity_threshold,
            final(self).inactive_peers == old(self).inactive_peers,
            old(self).activity_view().dom().contains(peer_id) ==> final(self).activity_view()
                == old(self).activity_view().insert(peer_id, now),
            !old(self).activity_view().dom().contains(peer_id) ==> final(self).activity_view()
                == old(self).activity_view(),
    {
        let mut i: usize = 0;
        while i < self.last_activity.len()
            invariant
                self.wf(),
                self == old(self),
                i <= self.last_activity@.len(),
                forall|j: int| 0 <= j < i ==> (#[trigger] self.last_activity@[j]).0 != peer_id,
            decreases self.last_activity@.len() - i,
        {
            if self.last_activity[i].0 == peer_id {
                proof {
                    lemma_assoc_dom(self.last_activity@);
                    lemma_assoc_update(self.last_activity@, i as int, now);
                }
                self.last_activity.set(i, (peer_id, now));
                return ;
            }
            i = i + 1;
        }
        proof {
            lemma_assoc_dom(self.last_activity@);
        }
    }

    /// Starts tracking a peer as active now.
    pub fn start_tracking(&mut self, peer_id: PeerId, now: u64)
        requires
            old(self).wf(),
        ensures
            final(self).wf(),
            final(self).inactivity_threshold == old(self).inactivity_threshold,
            final(self).inactive_peers == old(self).inactive_peers,
            final(self).activity_view() == old(self).activity_view().insert(peer_id, now),
    {
        let mut i: usize = 0;
        while i < self.last_activity.len()
            invariant
                self.wf(),
                self == old(self),
                i <= self.last_activity@.len(),
                forall|j: int| 0 <= j < i ==> (#[trigger] self.last_activity@[j]).0 != peer_id,
            decreases self.last_activity@.len() - i,
        {
            if self.last_activity[i].0 == peer_id {
                proof {
                    lemma_assoc_update(self.last_activity@, i as int, now);
                }
                self.last_activity.set(i, (peer_id, now));
                return ;
            }
            i = i + 1;
        }
        proof {
            lemma_assoc_push(self.last_activity@, peer_id, now);
        }
        self.last_activity.push((peer_id, now));
    }

    /// Stops tracking a peer.
    pub fn stop_tracking(&mut self, peer_id: PeerId)
        requires
            old(self).wf(),
        ensures
            final(self).wf(),
            final(self).inactivity_threshold == old(self).inactivity_threshold,
            final(self).inactive_peers == old(self).inactive_peers,
            final(self).activity_view() == old(self).activity_view().remove(peer_id),
    {
        let mut i: usize = 0;
        while i < self.last_activity.len()
            invariant
                self.wf(),
                self == old(self),
                i <= self.last_activity@.len(),
                forall|j: int| 0 <= j < i ==> (#[trigger] self.last_activity@[j]).0 != peer_id,
            decreases self.last_activity@.len() - i,
        {
            if self.last_activity[i].0 == peer_id {
                proof {
                    lemma_assoc_remove(self.last_activity@, i as int);
                }
                self.last_activity.remove(i);
                return ;
            }
            i = i + 1;
        }
        proof {
            lemma_assoc_dom(self.last_activity@);
            assert(self.activity_view().remove(peer_id) =~= self.activity_view());
        }
    }

    /// Whether a tracked peer has been silent for at least the threshold.
    pub open spec fn spec_is_inactive(self, j: int, now: u64) -> bool {
        &&& self.last_activity@[j].1 <= now
        &&& now - self.last_activity@[j].1 >= self.inactivity_threshold
    }

    /// One polling step.
    ///
    /// While the node is syncing nothing is reported and nothing changes.
    /// Otherwise the oldest queued inactive peer, if any, is reported and
    /// removed from the queue. Otherwise, when the reporting interval fired,
    /// every tracked peer whose last activity lies at least the threshold in
    /// the past is appended to the queue, in tracking order; the step then
    /// asks to be woken again exactly when the queue is non-empty.
    pub fn poll_next(&mut self, now: u64, is_syncing: bool, interval_fired: bool) -> (r:
        PollDecision)
        requires
            old(self).wf(),
        ensures
            final(self).wf(),
            final(self).inactivity_threshold == old(self).inactivity_threshold,
            final(self).last_activity == old(self).last_activity,
            is_syncing ==> r == (PollDecision::Pending { wake: false }) && final(self).inactive_peers
                == old(self).inactive_peers,
            !is_syncing && old(self).inactive_peers@.len() > 0 ==> r == PollDecision::Inactive(
                old(self).inactive_peers@[0],
            ) && final(self).inactive_peers@ == old(self).inactive_peers@.drop_first(),
            !is_syncing && old(self).inactive_peers@.len() == 0 && !interval_fired ==> r == (
            PollDecision::Pending { wake: false }) && final(self).inactive_peers@
                == old(self).inactive_peers@,
            !is_syncing && old(self).inactive_peers@.len() == 0 && interval_fired ==> (r == (
            PollDecision::Pending { wake: final(self).inactive_peers@.len() > 0 })
                && final(self).inactive_peers@ == old(self).inactive_peers@ + old(
                self,
            ).spec_inactive_now(now)),
    {
        if is_syncing {
            return PollDecision::Pending { wake: false };
        }
        if self.inactive_peers.len() > 0 {
            let peer = self.inactive_peers.remove(0);
            return PollDecision::Inactive(peer);
        }
        if !interval_fired {
            return PollDecision::Pending { wake: false };
        }
        let ghost pre = *self;
        let mut i: usize = 0;
        while i < self.last_activity.len()
            invariant
                self.wf(),
                self.inactivity_threshold == pre.inactivity_threshold,
                self.last_activity == pre.last_activity,
                i <= self.last_activity@.len(),
                pre.inactive_peers@.len() == 0,
                self.inactive_peers@ == pre.inactive_peers@ + inactive_among(
                    pre.last_activity@.subrange(0, i as int),
                    pre.inactivity_threshold,
                    now,
                ),
            decreases self.last_activity@.len() - i,
        {
            proof {
                assert(pre.last_activity@.subrange(0, i + 1 as int).drop_last()
                    == pre.last_activity@.subrange(0, i as int));
                assert(pre.last_activity@.subrange(0, i + 1 as int).last()
                    == pre.last_activity@[i as int]);
            }
            let t = self.last_activity[i].1;
            if t <= now && now - t >= self.inactivity_threshold {
                self.inactive_peers.push(self.last_activity[i].0);
            }
            i = i + 1;
        }
        proof {
            assert(pre.last_activity@.subrange(0, pre.last_activity@.len() as int)
                == pre.last_activity@);
        }
        PollDecision::Pending { wake: self.inactive_peers.len() > 0 }
    }

    /// The peers that cross the inactivity threshold at time `now`, in
    /// tracking order.
    pub open spec fn spec_inactive_now(self, now: u64) -> Seq<PeerId> {
        inactive_among(self.last_activity@, self.inactivity_threshold, now)
    }
}

/// The peers of `entries` whose last activity lies at least `threshold`
/// before `now`, in order.
pub open spec fn inactive_among(entries: Seq<(PeerId, u64)>, threshold: u64, now: u64) -> Seq<
    PeerId,
>
    decreases entries.len(),
{
    if entries.len() == 0 {
        Seq::empty()
    } else {
        let rest = inactive_among(entries.drop_last(), threshold, now);
        if entries.last().1 <= now && now - entries.last().1 >= threshold {
            rest.push(entries.last().0)
        } else {
            rest
        }
    }
}

} // verus!

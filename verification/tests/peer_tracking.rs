use chain_state::inactive_peers::{InactivePeers, PeerId, PollDecision};

fn peer(n: u64) -> PeerId {
    PeerId { hi: 0, lo: n }
}

#[test]
fn test_syncing_reports_nothing() {
    let mut tracker = InactivePeers::new(60);
    tracker.start_tracking(peer(1), 0);
    let decision = tracker.poll_next(1000, true, true);
    assert_eq!(decision, PollDecision::Pending { wake: false });
}

#[test]
fn test_inactive_peer_is_reported_after_threshold() {
    let mut tracker = InactivePeers::new(60);
    tracker.start_tracking(peer(1), 0);
    tracker.start_tracking(peer(2), 50);

    // before the interval fires nothing is queued
    assert_eq!(tracker.poll_next(100, false, false), PollDecision::Pending { wake: false });

    // at time 100, only the peer last active at 0 has been silent for 60s
    assert_eq!(tracker.poll_next(100, false, true), PollDecision::Pending { wake: true });
    assert_eq!(tracker.poll_next(100, false, false), PollDecision::Inactive(peer(1)));

    // a reported peer stays tracked and would be queued again on the next
    // tick; after fresh activity it is not
    tracker.track_activity(peer(1), 100);
    assert_eq!(tracker.poll_next(100, false, true), PollDecision::Pending { wake: false });

    // later both cross the threshold, and they come out oldest-tracked first
    assert_eq!(tracker.poll_next(200, false, true), PollDecision::Pending { wake: true });
    assert_eq!(tracker.poll_next(200, false, false), PollDecision::Inactive(peer(1)));
    assert_eq!(tracker.poll_next(200, false, false), PollDecision::Inactive(peer(2)));
}

#[test]
fn test_track_activity_refreshes_only_tracked_peers() {
    let mut tracker = InactivePeers::new(60);
    tracker.start_tracking(peer(1), 0);

    // refreshing keeps the peer active past the old deadline
    tracker.track_activity(peer(1), 90);
    assert_eq!(tracker.poll_next(100, false, true), PollDecision::Pending { wake: false });

    // an untracked peer is not added by a refresh
    tracker.track_activity(peer(2), 0);
    assert_eq!(tracker.poll_next(100, false, true), PollDecision::Pending { wake: false });
}

#[test]
fn test_stop_tracking_removes_peer() {
    let mut tracker = InactivePeers::new(60);
    tracker.start_tracking(peer(1), 0);
    tracker.stop_tracking(peer(1));
    assert_eq!(tracker.poll_next(1000, false, true), PollDecision::Pending { wake: false });
}

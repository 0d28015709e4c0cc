//! Tracker for the canonical, safe and finalized head pointers, and for the
//! fork-choice timing bookkeeping.
//!
//! The tracker only stores what it is handed; it implements no finality
//! logic of its own. The facade forwards calls to it.

use vstd::prelude::*;
use std::time::Instant;
use crate::primitives::{BlockNumHash, ChainInfo, SealedHeader};

verus! {

#[verifier::external_type_specification]
#[verifier::external_body]
pub struct ExInstant(Instant);

/// Relies on `std::time::Instant::now`: an opaque reading of the monotonic
/// clock; nothing is assumed about its value.
#[verifier::external_body]
fn instant_now() -> Instant {
    Instant::now()
}

/// Tracks the chain's head pointers and the timestamps of the last
/// fork-choice update and transition-configuration exchange.
#[derive(Debug)]
pub struct ChainInfoTracker {
    /// The canonical head of the chain.
    pub canonical_head: SealedHeader,
    /// The safe head, once one was announced.
    pub safe_header: Option<SealedHeader>,
    /// The finalized head, once one was announced.
    pub finalized_header: Option<SealedHeader>,
    /// When the last fork-choice update was received.
    pub last_forkchoice_update: Option<Instant>,
    /// When the last transition configuration was exchanged.
    pub last_transition_configuration: Option<Instant>,
}

impl ChainInfoTracker {
    pub fn new(head: SealedHeader) -> (r: Self)
        ensures
            r.canonical_head == head,
            r.safe_header is None,
            r.finalized_header is None,
            r.last_forkchoice_update is None,
            r.last_transition_configuration is None,
    {
        ChainInfoTracker {
            canonical_head: head,
            safe_header: None,
            finalized_header: None,
            last_forkchoice_update: None,
            last_transition_configuration: None,
        }
    }

    /// The hash and number of the canonical head.
    pub fn chain_info(&self) -> (r: ChainInfo)
        ensures
            r.best_hash == self.canonical_head.hash,
            r.best_number == self.canonical_head.spec_number(),
    {
        ChainInfo {
            best_hash: self.canonical_head.hash,
            best_number: self.canonical_head.number(),
        }
    }

    /// The number of the canonical head.
    pub fn get_canonical_block_number(&self) -> (r: u64)
        ensures
            r == self.canonical_head.spec_number(),
    {
        self.canonical_head.number()
    }

    /// The canonical head.
    pub fn get_canonical_head(&self) -> (r: SealedHeader)
        ensures
            r == self.canonical_head,
    {
        self.canonical_head
    }

    /// The safe head, if one was announced.
    pub fn get_safe_header(&self) -> (r: Option<SealedHeader>)
        ensures
            r == self.safe_header,
    {
        self.safe_header
    }

    /// The finalized head, if one was announced.
    pub fn get_finalized_header(&self) -> (r: Option<SealedHeader>)
        ensures
            r == self.finalized_header,
    {
        self.finalized_header
    }

    /// The number and hash of the safe head, if one was announced.
    pub fn get_safe_num_hash(&self) -> (r: Option<BlockNumHash>)
        ensures
            match r {
                Some(nh) => self.safe_header matches Some(h) && nh.number == h.spec_number()
                    && nh.hash == h.hash,
                None => self.safe_header is None,
            },
    {
        match &self.safe_header {
            Some(h) => Some(BlockNumHash { number: h.number(), hash: h.hash }),
            None => None,
        }
    }

    /// The number and hash of the finalized head, if one was announced.
    pub fn get_finalized_num_hash(&self) -> (r: Option<BlockNumHash>)
        ensures
            match r {
                Some(nh) => self.finalized_header matches Some(h) && nh.number == h.spec_number()
                    && nh.hash == h.hash,
                None => self.finalized_header is None,
            },
    {
        match &self.finalized_header {
            Some(h) => Some(BlockNumHash { number: h.number(), hash: h.hash }),
            None => None,
        }
    }

    /// Records that a fork-choice update was received now.
    pub fn on_forkchoice_update_received(&mut self)
        ensures
            final(self).last_forkchoice_update is Some,
            final(self).canonical_head == old(self).canonical_head,
            final(self).safe_header == old(self).safe_header,
            final(self).finalized_header == old(self).finalized_header,
            final(self).last_transition_configuration == old(
                self,
            ).last_transition_configuration,
    {
        self.last_forkchoice_update = Some(instant_now());
    }

    /// When the last fork-choice update was received.
    pub fn last_forkchoice_update_received_at(&self) -> (r: Option<Instant>)
        ensures
            r == self.last_forkchoice_update,
    {
        self.last_forkchoice_update
    }

    /// Records that a transition configuration was exchanged now.
    pub fn on_transition_configuration_exchanged(&mut self)
        ensures
            final(self).last_transition_configuration is Some,
            final(self).canonical_head == old(self).canonical_head,
            final(self).safe_header == old(self).safe_header,
            final(self).finalized_header == old(self).finalized_header,
            final(self).last_forkchoice_update == old(self).last_forkchoice_update,
    {
        self.last_transition_configuration = Some(instant_now());
    }

    /// When the last transition configuration was exchanged.
    pub fn last_transition_configuration_exchanged_at(&self) -> (r: Option<Instant>)
        ensures
            r == self.last_transition_configuration,
    {
        self.last_transition_configuration
    }

    /// Canonical head setter.
    pub fn set_canonical_head(&mut self, header: SealedHeader)
        ensures
            final(self).canonical_head == header,
            final(self).safe_header == old(self).safe_header,
            final(self).finalized_header == old(self).finalized_header,
            final(self).last_forkchoice_update == old(self).last_forkchoice_update,
            final(self).last_transition_configuration == old(
                self,
            ).last_transition_configuration,
    {
        self.canonical_head = header;
    }

    /// Safe head setter.
    pub fn set_safe(&mut self, header: SealedHeader)
        ensures
            final(self).safe_header == Some(header),
            final(self).canonical_head == old(self).canonical_head,
            final(self).finalized_header == old(self).finalized_header,
            final(self).last_forkchoice_update == old(self).last_forkchoice_update,
            final(self).last_transition_configuration == old(
                self,
            ).last_transition_configuration,
    {
        self.safe_header = Some(header);
    }

    /// Finalized head setter.
    pub fn set_finalized(&mut self, header: SealedHeader)
        ensures
            final(self).finalized_header == Some(header),
            final(self).canonical_head == old(self).canonical_head,
            final(self).safe_header == old(self).safe_header,
            final(self).last_forkchoice_update == old(self).last_forkchoice_update,
            final(self).last_transition_configuration == old(
                self,
            ).last_transition_configuration,
    {
        self.finalized_header = Some(header);
    }
}

} // verus!

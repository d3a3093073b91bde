//! The failures that the core reports.

use vstd::prelude::*;

verus! {

#[derive(Debug, Clone, Copy, PartialEq, Eq)]
pub enum CoreError {
    /// A signature or the chain of hops does not verify.
    Malformed,
    /// The post was already received.
    AlreadySeen,
    /// The peer a blessing would vouch for is already trusted.
    AlreadyTrusted,
    /// A blessing names an intermediate that we do not trust.
    NotTrusted,
    /// The post is not known.
    UnknownPost,
    /// Removing the peer would leave fewer than two trusted peers.
    MinimumPeers,
    /// The trust set is full and the candidate does not outrank its worst
    /// member.
    QuotaFull,
    /// The store failed or holds an entry that does not decode.
    StoreError,
    /// A stored post record does not decode.
    CorruptRecord,
    /// We cannot rate a post of our own.
    OwnPost,
    /// The post's history is too short to build a blessing from.
    ShortHistory,
    /// A blessing came from ourselves.
    SelfBlessing,
    /// A blessing names us as its intermediate.
    IntermediateIsUs,
    /// A blessing refers to a post that we never forwarded to its
    /// intermediate.
    NotForwarded,
}

} // verus!

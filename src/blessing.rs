//! The blessing protocol: a peer proves that it received a post through a
//! peer we trust, and is admitted to our trust set.

use vstd::prelude::*;

use crate::bytes::same_key;
use crate::crypto::signature_valid;
use crate::db::{lemma_list_covers_set, rated_keys, NodeDB, DEFAULT_SCORE};
use crate::error::CoreError;
use crate::post::{construct_path_msg, path_message, post_id_of, IncomingPost, Node, PostId};

verus! {

/// Proof, for the peer it is sent to, that the sender received `post` from
/// `intermediate`: `signature` is the intermediate's signed receipt for the
/// hop to the sender.
#[derive(Debug, Clone, PartialEq, Eq)]
pub struct TrustRequest {
    /// The peer the blessing is for: the one that sent the post to
    /// `intermediate`.
    pub recipient: Node,
    /// The peer that passed the post on to the blessing's sender.
    pub intermediate: Node,
    pub post: PostId,
    pub signature: String,
}

/// `b` is the blessing built from `post`, received along `X -> A -> us`:
/// it goes to `X`, names `A` as intermediate, and carries `A`'s signed
/// receipt for the hop `A -> us`.
pub open spec fn blessing_of(b: TrustRequest, post: IncomingPost) -> bool {
    let h = post.history@;
    let n = h.len();
    &&& n >= 2
    &&& b.recipient == h[n - 2].from
    &&& b.intermediate == h[n - 2].to
    &&& b.post.raw@ == post_id_of(post.post)
    &&& b.signature == h[n - 1].signature
}

/// The first check that a blessing from `from` fails, in the order they are
/// made, or `None` when it passes them all.
pub open spec fn blessing_verdict(db: NodeDB, b: TrustRequest, from: Node) -> Option<CoreError> {
    let us = db.us.node.public_key@;
    let inter = b.intermediate.public_key@;
    let id = b.post.raw@;
    if from.public_key@ == us {
        Some(CoreError::SelfBlessing)
    } else if inter == us {
        Some(CoreError::IntermediateIsUs)
    } else if !db.trust_set().contains(inter) {
        Some(CoreError::NotTrusted)
    } else if !db.seen_spec(us, id) {
        Some(CoreError::UnknownPost)
    } else if !db.seen_spec(inter, id) {
        Some(CoreError::NotForwarded)
    } else if !signature_valid(inter, path_message(id, inter, from.public_key@), b.signature@) {
        Some(CoreError::Malformed)
    } else {
        None
    }
}

/// The rating a blessing's sender is judged by: its own, or else the
/// intermediate's, or else the default.
pub open spec fn candidate_score(db: NodeDB, b: TrustRequest, from: Node) -> nat {
    db.score_spec(from.public_key@, db.score_spec(b.intermediate.public_key@, DEFAULT_SCORE as nat))
}

/// What an accepted blessing did: with room (at most `max_peers` trusted) the
/// sender joined the trust set; when over full, the lowest-rated member,
/// rated strictly below the sender, was removed instead.
pub open spec fn blessing_admitted(before: NodeDB, after: NodeDB, b: TrustRequest, from: Node) -> bool {
    let t = before.trust_set();
    &&& t.finite()
    &&& t.len() <= before.max_peers ==> after.trust_set() == t.insert(from.public_key@)
    &&& t.len() > before.max_peers ==> exists|w: Seq<u8>| {
        &&& #[trigger] t.contains(w)
        &&& before.score_spec(w, DEFAULT_SCORE as nat) < candidate_score(before, b, from)
        &&& forall|m: Seq<u8>| t.contains(m) ==> before.score_spec(w, DEFAULT_SCORE as nat) <= #[trigger] before.score_spec(m, DEFAULT_SCORE as nat)
        &&& after.trust_set() == t.remove(w)
    }
}

impl NodeDB {
    /// Builds the blessing for `post`, received along `X -> A -> us`, to be
    /// sent to `X`. Fails with `ShortHistory` when the history has fewer than
    /// two hops, and with `AlreadyTrusted` when we already trust `X`.
    pub fn construct_blessing(&self, post: &IncomingPost) -> (r: Result<TrustRequest, CoreError>)
        ensures
            r == Err::<TrustRequest, CoreError>(CoreError::ShortHistory) <==> post.history@.len() < 2,
            r != Err::<TrustRequest, CoreError>(CoreError::StoreError) && post.history@.len() >= 2 ==> (r
                == Err::<TrustRequest, CoreError>(CoreError::AlreadyTrusted) <==> self.trust_set().contains(
                post.history@[post.history@.len() - 2].from.public_key@,
            )),
            r matches Ok(b) ==> blessing_of(b, *post),
            r is Err ==> r == Err::<TrustRequest, CoreError>(CoreError::ShortHistory) || r == Err::<
                TrustRequest,
                CoreError,
            >(CoreError::AlreadyTrusted) || r == Err::<TrustRequest, CoreError>(CoreError::StoreError),
    {
        let n = post.history.len();
        if n < 2 {
            return Err(CoreError::ShortHistory);
        }
        let given_to_us = &post.history[n - 1];
        let given_to_inter = &post.history[n - 2];
        if self.is_trusted(&given_to_inter.from)? {
            return Err(CoreError::AlreadyTrusted);
        }
        Ok(
            TrustRequest {
                recipient: given_to_inter.from,
                intermediate: given_to_inter.to,
                post: post.get_id(),
                signature: given_to_us.signature.clone(),
            },
        )
    }

    /// Checks a blessing that `from` sent us and, if it holds, admits `from`:
    /// with room in the trust set it is added; when the set is over
    /// `max_peers`, the lowest-rated member is removed if `from` outranks it
    /// (and `from` waits for the freed slot), and otherwise the call fails
    /// with `QuotaFull`.
    pub fn check_blessing(&mut self, trust_request: TrustRequest, from: &Node) -> (r: Result<(), CoreError>)
        ensures
            final(self).same_except_trust(old(self)),
            blessing_verdict(*old(self), trust_request, *from) matches Some(e) ==> r == Err::<(), CoreError>(e)
                || r == Err::<(), CoreError>(CoreError::StoreError),
            blessing_verdict(*old(self), trust_request, *from) == Some(CoreError::SelfBlessing)
                ==> r == Err::<(), CoreError>(CoreError::SelfBlessing),
            blessing_verdict(*old(self), trust_request, *from) == Some(CoreError::IntermediateIsUs)
                ==> r == Err::<(), CoreError>(CoreError::IntermediateIsUs),
            r is Ok ==> blessing_verdict(*old(self), trust_request, *from) is None && blessing_admitted(
                *old(self),
                *final(self),
                trust_request,
                *from,
            ),
            r == Err::<(), CoreError>(CoreError::QuotaFull) ==> {
                &&& blessing_verdict(*old(self), trust_request, *from) is None
                &&& old(self).trust_set().finite()
                &&& old(self).trust_set().len() > old(self).max_peers
                &&& forall|m: Seq<u8>| old(self).trust_set().contains(m) ==> candidate_score(*old(self), trust_request, *from) <= #[trigger] old(self).score_spec(m, DEFAULT_SCORE as nat)
                &&& final(self).trust_table() == old(self).trust_table()
            },
            blessing_verdict(*old(self), trust_request, *from) is None ==> r is Ok || r == Err::<(), CoreError>(
                CoreError::QuotaFull,
            ) || r == Err::<(), CoreError>(CoreError::MinimumPeers) || r == Err::<(), CoreError>(
                CoreError::StoreError,
            ),
            blessing_verdict(*old(self), trust_request, *from) is Some ==> final(self).trust_table() == old(self).trust_table(),
            r == Err::<(), CoreError>(CoreError::MinimumPeers) ==> old(self).max_peers < 2 && final(self).trust_table() == old(self).trust_table(),
            blessing_verdict(*old(self), trust_request, *from) is None && old(self).trust_set().finite()
                && old(self).trust_set().len() <= old(self).max_peers ==> r is Ok || r == Err::<(), CoreError>(CoreError::StoreError),
            blessing_verdict(*old(self), trust_request, *from) is None && old(self).trust_set().finite()
                && old(self).trust_set().len() > old(self).max_peers
                && (forall|m: Seq<u8>| old(self).trust_set().contains(m) ==> candidate_score(*old(self), trust_request, *from) <= #[trigger] old(self).score_spec(m, DEFAULT_SCORE as nat))
                ==> r == Err::<(), CoreError>(CoreError::QuotaFull) || r == Err::<(), CoreError>(CoreError::StoreError),
    {
        let us = self.us;
        if same_key(&us.node.public_key, &from.public_key) {
            return Err(CoreError::SelfBlessing);
        }
        if same_key(&us.node.public_key, &trust_request.intermediate.public_key) {
            return Err(CoreError::IntermediateIsUs);
        }
        if !self.is_trusted(&trust_request.intermediate)? {
            return Err(CoreError::NotTrusted);
        }
        if !self.has_seen(&us.node, &trust_request.post)? {
            return Err(CoreError::UnknownPost);
        }
        if !self.has_seen(&trust_request.intermediate, &trust_request.post)? {
            return Err(CoreError::NotForwarded);
        }
        let message = construct_path_msg(&trust_request.post, &trust_request.intermediate, from);
        if !trust_request.intermediate.verify(&message, trust_request.signature.as_str()) {
            return Err(CoreError::Malformed);
        }
        let trusted_nodes = self.get_trusted()?;
        let count = trusted_nodes.len();
        proof {
            lemma_list_covers_set(rated_keys(trusted_nodes@), self.trust_set());
        }
        if count > self.max_peers {
            let inter_score = self.get_score(&trust_request.intermediate, DEFAULT_SCORE)?;
            let from_score = self.get_score(from, inter_score)?;
            let mut worst: usize = 0;
            let mut i: usize = 1;
            while i < count
                invariant
                    0 <= worst < count,
                    1 <= i <= count,
                    count == trusted_nodes@.len(),
                    forall|j: int| 0 <= j < i ==> trusted_nodes@[worst as int].1 <= #[trigger] trusted_nodes@[j].1,
                decreases count - i,
            {
                if trusted_nodes[i].1 < trusted_nodes[worst].1 {
                    worst = i;
                }
                i = i + 1;
            }
            let ghost ks = rated_keys(trusted_nodes@);
            proof {
                assert forall|m: Seq<u8>| old(self).trust_set().contains(m) implies trusted_nodes@[worst as int].1 <= #[trigger] old(self).score_spec(m, DEFAULT_SCORE as nat) by {
                    let j = choose|j: int| 0 <= j < ks.len() && #[trigger] ks[j] == m;
                    assert(trusted_nodes@[j].0.public_key@ == m);
                    assert(trusted_nodes@[j].1 == old(self).score_spec(trusted_nodes@[j].0.public_key@, DEFAULT_SCORE as nat));
                }
                assert(ks[worst as int] == trusted_nodes@[worst as int].0.public_key@);
                assert(old(self).trust_set().contains(ks[worst as int]));
                assert(trusted_nodes@[worst as int].1 == old(self).score_spec(ks[worst as int], DEFAULT_SCORE as nat));
            }
            if trusted_nodes[worst].1 < from_score {
                let worst_node = trusted_nodes[worst].0;
                self.untrust(&worst_node)?;
                proof {
                    let w = ks[worst as int];
                    assert(old(self).trust_set().contains(w));
                    assert(old(self).score_spec(w, DEFAULT_SCORE as nat) < candidate_score(*old(self), trust_request, *from));
                    assert(self.trust_set() == old(self).trust_set().remove(w));
                }
                Ok(())
            } else {
                Err(CoreError::QuotaFull)
            }
        } else {
            self.trust(from)
        }
    }
}

} // verus!

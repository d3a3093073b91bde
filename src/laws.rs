//! Properties that relate several operations of the engine.

use vstd::prelude::*;
use vstd::utf8::{decode_utf8, encode_utf8};

use crate::bytes::{le_bytes, lemma_byte_cap_values, lemma_le_bytes_len, lemma_le_round_trip};
use crate::blessing::{blessing_admitted, candidate_score, TrustRequest};
use crate::crypto::{public_key_of, signature_of, signature_valid};
use crate::db::{receive_outcome, received, recipient, NodeDB, DEFAULT_SCORE};
use crate::error::CoreError;
use crate::record::incoming_bytes;
use crate::post::{path_message, post_id_of, raw_post_bytes, text_bytes, IncomingPost, Node, OutgoingPost, RawPost};
use crate::store::table_of;

verus! {

broadcast use vstd::utf8::group_utf8_lib;

/// Once a post has been received it is stored and marked as seen by us; a
/// second `receive` of it then fails with `AlreadySeen` (unless the store
/// fails), producing no copies and changing neither the seen index nor the
/// post store.
pub proof fn lemma_receive_twice(
    before: NodeDB,
    once: NodeDB,
    twice: NodeDB,
    post: IncomingPost,
    out: Vec<OutgoingPost>,
    again: Result<Vec<OutgoingPost>, CoreError>,
)
    requires
        receive_outcome(before, once, post, Ok(out)),
        receive_outcome(once, twice, post, again),
        again != Err::<Vec<OutgoingPost>, CoreError>(CoreError::StoreError),
    ensures
        once.seen_spec(once.us.node.public_key@, post_id_of(post.post)),
        once.posts_table().contains_key(post_id_of(post.post)),
        again == Err::<Vec<OutgoingPost>, CoreError>(CoreError::AlreadySeen),
        twice.seen_table() == once.seen_table(),
        twice.posts_table() == once.posts_table(),
{
    let id = post_id_of(post.post);
    assert(received(before, once, post, out@));
    assert(once.posts_table().contains_key(id));
}

/// After a post is received, the post store holds exactly its record under
/// its id, so reading it back (`resolve`) gives a post that agrees with it
/// field by field, unless the store fails.
pub proof fn lemma_received_post_stored(before: NodeDB, after: NodeDB, post: IncomingPost, out: Seq<OutgoingPost>)
    requires
        received(before, after, post, out),
    ensures
        after.posts_table().contains_key(post_id_of(post.post)),
        after.posts_table()[post_id_of(post.post)] == incoming_bytes(post),
{
}

/// Every copy that `receive` hands out goes to a peer that is marked as
/// having the post afterwards, and its last hop is our signature over the
/// post id, our key and the recipient's key, which verifies under our key.
pub proof fn lemma_outgoing_copy_signed(before: NodeDB, after: NodeDB, post: IncomingPost, out: Seq<OutgoingPost>, i: int)
    requires
        before.wf(),
        received(before, after, post, out),
        0 <= i < out.len(),
    ensures
        ({
            let id = post_id_of(post.post);
            let us = before.us.node.public_key@;
            let p = recipient(out[i]);
            let msg = path_message(id, us, p);
            &&& after.seen_spec(p, id)
            &&& out[i].history@.last().from.public_key@ == us
            &&& out[i].history@.last().signature@ == signature_of(before.us.private_key@, msg)
            &&& signature_valid(us, msg, out[i].history@.last().signature@)
        }),
{
    let p = recipient(out[i]);
    assert(crate::db::owed_copy(before, post, p));
    assert(before.trust_set().contains(p));
    assert(crate::post::forwarded_copy(out[i], post, before.us, out[i].history@.last().to));
}

/// An accepted blessing either found fewer than `max_peers` trusted peers and
/// put its sender into the trust set, or removed a member whose rating was
/// strictly below the sender's. (With exactly `max_peers` trusted peers the
/// sender is admitted too, which this statement leaves aside.)
pub proof fn lemma_blessing_outcome(before: NodeDB, after: NodeDB, b: TrustRequest, from: Node)
    requires
        blessing_admitted(before, after, b, from),
        before.trust_set().len() != before.max_peers,
    ensures
        (before.trust_set().len() < before.max_peers && after.trust_set().contains(from.public_key@))
            || exists|w: Seq<u8>| {
            &&& #[trigger] before.trust_set().contains(w)
            &&& !after.trust_set().contains(w)
            &&& before.score_spec(w, DEFAULT_SCORE as nat) < candidate_score(before, b, from)
        },
{
    if before.trust_set().len() > before.max_peers {
        let w = choose|w: Seq<u8>| {
            &&& #[trigger] before.trust_set().contains(w)
            &&& before.score_spec(w, DEFAULT_SCORE as nat) < candidate_score(before, b, from)
            &&& forall|m: Seq<u8>| before.trust_set().contains(m) ==> before.score_spec(w, DEFAULT_SCORE as nat) <= #[trigger] before.score_spec(m, DEFAULT_SCORE as nat)
            &&& after.trust_set() == before.trust_set().remove(w)
        };
        assert(!after.trust_set().contains(w));
    }
}

/// Two posts with the same canonical encoding have the same fingerprint.
pub proof fn lemma_same_encoding_same_id(p: RawPost, q: RawPost)
    requires
        raw_post_bytes(p) == raw_post_bytes(q),
    ensures
        post_id_of(p) == post_id_of(q),
{
}

/// Two posts with the same canonical encoding have the same author, content
/// and message id.
pub proof fn lemma_raw_post_encoding_injective(p: RawPost, q: RawPost)
    requires
        raw_post_bytes(p) == raw_post_bytes(q),
    ensures
        p.author == q.author,
        p.content@ == q.content@,
        p.message_id == q.message_id,
{
    let b = raw_post_bytes(p);
    let cp = encode_utf8(p.content@);
    let cq = encode_utf8(q.content@);
    lemma_le_bytes_len(cp.len(), 8);
    lemma_le_bytes_len(cq.len(), 8);
    lemma_le_bytes_len(p.message_id as nat, 16);
    lemma_le_bytes_len(q.message_id as nat, 16);
    assert(p.author.public_key@.len() == 32 && q.author.public_key@.len() == 32);
    assert(text_bytes(p.content@) == le_bytes(cp.len(), 8) + cp);
    assert(text_bytes(q.content@) == le_bytes(cq.len(), 8) + cq);
    assert(b.len() == 56 + cp.len());
    assert(raw_post_bytes(q).len() == 56 + cq.len());
    assert(cp.len() == cq.len());
    let n = cp.len() as int;
    assert(b.subrange(0, 32) =~= p.author.public_key@);
    assert(raw_post_bytes(q).subrange(0, 32) =~= q.author.public_key@);
    assert(p.author.public_key =~= q.author.public_key);
    assert(b.subrange(40, 40 + n) =~= cp);
    assert(raw_post_bytes(q).subrange(40, 40 + n) =~= cq);
    assert(decode_utf8(cp) == p.content@);
    assert(decode_utf8(cq) == q.content@);
    assert(b.subrange(40 + n, 56 + n) =~= le_bytes(p.message_id as nat, 16));
    assert(raw_post_bytes(q).subrange(40 + n, 56 + n) =~= le_bytes(q.message_id as nat, 16));
    lemma_byte_cap_values();
    lemma_le_round_trip(p.message_id as nat, 16);
    lemma_le_round_trip(q.message_id as nat, 16);
}

/// A post signed over its fingerprint still verifies after it is encoded and
/// decoded again: the decoded post has the same author, content and message
/// id, the same fingerprint, and the signature verifies over it.
pub proof fn lemma_signature_survives_decoding(p: RawPost, q: RawPost, secret: Seq<u8>, signature: Seq<char>)
    requires
        raw_post_bytes(q) == raw_post_bytes(p),
        signature_valid(public_key_of(secret), post_id_of(p), signature),
    ensures
        q.author == p.author,
        q.content@ == p.content@,
        q.message_id == p.message_id,
        signature_valid(public_key_of(secret), post_id_of(q), signature),
{
    lemma_raw_post_encoding_injective(p, q);
}

} // verus!

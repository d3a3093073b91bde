//! Identities, posts, signed hops and the canonical encoding that fingerprints
//! a post.

use vstd::prelude::*;
use vstd::utf8::encode_utf8;

use crate::bytes::{append_bytes, le_bytes, push_le, same_key};
use crate::crypto::{
    derive_public_key, public_key_of, random_u128, sha256, sha256_of, sign_message,
    signature_of, signature_valid, verify_message, get_epoch,
};
use crate::error::CoreError;

verus! {

/// A peer, named by its 32-byte Ed25519 public key.
#[derive(Debug, Clone, Copy, PartialEq, Eq)]
pub struct Node {
    pub public_key: [u8; 32],
}

/// The local identity: a secret key and the peer it makes us.
#[derive(Debug, Clone, Copy, PartialEq, Eq)]
pub struct Us {
    pub node: Node,
    pub private_key: [u8; 32],
}

/// A post as its author wrote it.
#[derive(Debug, Clone, PartialEq, Eq)]
pub struct RawPost {
    pub author: Node,
    pub content: String,
    pub message_id: u128,
}

/// A post's fingerprint: SHA-256 over its canonical encoding.
#[derive(Debug, Clone, Copy, PartialEq, Eq)]
pub struct PostId {
    pub raw: [u8; 32],
}

/// A signed receipt that `from` handed a post to `to`.
#[derive(Debug, Clone, PartialEq, Eq)]
pub struct Path {
    pub from: Node,
    pub to: Node,
    pub signature: String,
}

/// A post as we hold it: its history of hops, when it arrived, and the
/// author's signature over its fingerprint.
#[derive(Debug, Clone, PartialEq, Eq)]
pub struct IncomingPost {
    pub post: RawPost,
    pub history: Vec<Path>,
    pub received: u64,
    pub signature: String,
}

/// A copy of a post on its way to one peer, carrying at most the last two
/// hops.
#[derive(Debug, Clone, PartialEq, Eq)]
pub struct OutgoingPost {
    pub post: RawPost,
    pub history: Vec<Path>,
    pub signature: String,
}

/// A text as its byte length (8 bytes, least significant first) followed by
/// its UTF-8 bytes.
pub open spec fn text_bytes(s: Seq<char>) -> Seq<u8> {
    le_bytes(encode_utf8(s).len(), 8) + encode_utf8(s)
}

/// The canonical encoding of a post: author key, content, then the message
/// id in 16 bytes, least significant first.
pub open spec fn raw_post_bytes(p: RawPost) -> Seq<u8> {
    p.author.public_key@ + text_bytes(p.content@) + le_bytes(p.message_id as nat, 16)
}

/// A post's fingerprint.
pub open spec fn post_id_of(p: RawPost) -> Seq<u8> {
    sha256_of(raw_post_bytes(p))
}

/// What the sender of a hop signs: SHA-256 over post id, sender and receiver.
pub open spec fn path_message(id: Seq<u8>, from: Seq<u8>, to: Seq<u8>) -> Seq<u8> {
    sha256_of(id + from + to)
}

/// The hop's signature verifies under its sender for post `id`.
pub open spec fn hop_signed(h: Path, id: Seq<u8>) -> bool {
    signature_valid(
        h.from.public_key@,
        path_message(id, h.from.public_key@, h.to.public_key@),
        h.signature@,
    )
}

/// Every hop verifies, each hop starts where the previous one ended, and the
/// last hop, if any, is addressed to `us`.
pub open spec fn history_valid(h: Seq<Path>, id: Seq<u8>, us: Seq<u8>) -> bool {
    &&& forall|i: int| 0 <= i < h.len() ==> #[trigger] hop_signed(h[i], id)
    &&& forall|i: int|
        0 <= i < h.len() - 1 ==> #[trigger] h[i].to.public_key@ == h[i + 1].from.public_key@
    &&& h.len() > 0 ==> h.last().to.public_key@ == us
}

/// The author's signature verifies over the post's fingerprint.
pub open spec fn author_signed(p: RawPost, signature: Seq<char>) -> bool {
    signature_valid(p.author.public_key@, post_id_of(p), signature)
}

/// `out` is the copy of `inc` that `us` sends to `to`: same post and author
/// signature, the last received hop if there is one, then a hop `us -> to`
/// signed by us over the post id, our key and theirs.
pub open spec fn forwarded_copy(out: OutgoingPost, inc: IncomingPost, us: Us, to: Node) -> bool {
    let id = post_id_of(inc.post);
    let msg = path_message(id, us.node.public_key@, to.public_key@);
    &&& out.post == inc.post
    &&& out.signature == inc.signature
    &&& out.history@.len() == if inc.history@.len() == 0 { 1int } else { 2int }
    &&& inc.history@.len() > 0 ==> out.history@[0] == inc.history@.last()
    &&& out.history@.last().from == us.node
    &&& out.history@.last().to == to
    &&& out.history@.last().signature@ == signature_of(us.private_key@, msg)
    &&& signature_valid(public_key_of(us.private_key@), msg, out.history@.last().signature@)
}

impl Node {
    pub fn new(public_key: [u8; 32]) -> (r: Node)
        ensures
            r.public_key == public_key,
    {
        Node { public_key }
    }

    /// Whether `signature` is this peer's valid signature over `message`.
    pub fn verify(&self, message: &[u8; 32], signature: &str) -> (r: bool)
        ensures
            r == signature_valid(self.public_key@, message@, signature@),
    {
        verify_message(&self.public_key, message.as_slice(), signature)
    }
}

impl Us {
    /// The public key is the one that belongs to the secret key.
    pub open spec fn wf(&self) -> bool {
        self.node.public_key@ == public_key_of(self.private_key@)
    }

    pub fn new(private_key: [u8; 32]) -> (r: Us)
        ensures
            r.private_key == private_key,
            r.wf(),
    {
        Us { node: Node { public_key: derive_public_key(&private_key) }, private_key }
    }

    /// Our signature over `content`.
    pub fn sign(&self, content: &[u8]) -> (r: String)
        ensures
            r@ == signature_of(self.private_key@, content@),
            signature_valid(public_key_of(self.private_key@), content@, r@),
    {
        sign_message(&self.private_key, content)
    }
}

impl RawPost {
    /// A new post with a freshly drawn message id.
    pub fn new(author: Node, content: String) -> (r: RawPost)
        ensures
            r.author == author,
            r.content == content,
    {
        RawPost { author, content, message_id: random_u128() }
    }

    /// The canonical encoding.
    pub fn encode(&self) -> (r: Vec<u8>)
        ensures
            r@ == raw_post_bytes(*self),
    {
        let mut out: Vec<u8> = Vec::new();
        append_bytes(&mut out, self.author.public_key.as_slice());
        push_text(&mut out, &self.content);
        push_le(&mut out, self.message_id, 16);
        proof {
            assert(out@ =~= raw_post_bytes(*self));
        }
        out
    }

    /// SHA-256 over the canonical encoding.
    pub fn hash(&self) -> (r: [u8; 32])
        ensures
            r@ == post_id_of(*self),
    {
        let bytes = self.encode();
        sha256(bytes.as_slice())
    }

    pub fn get_id(&self) -> (r: PostId)
        ensures
            r.raw@ == post_id_of(*self),
    {
        PostId { raw: self.hash() }
    }
}

/// Appends `s` as its byte length and its UTF-8 bytes.
pub fn push_text(out: &mut Vec<u8>, s: &String)
    ensures
        final(out)@ == old(out)@ + text_bytes(s@),
{
    let b = s.as_str().as_bytes();
    push_le(out, b.len() as u128, 8);
    append_bytes(out, b);
    assert(final(out)@ =~= old(out)@ + text_bytes(s@));
}

} // verus!

verus! {

/// SHA-256 over post id, sender key and receiver key: what a hop's sender
/// signs.
pub fn construct_path_msg(post: &PostId, from: &Node, to: &Node) -> (r: [u8; 32])
    ensures
        r@ == path_message(post.raw@, from.public_key@, to.public_key@),
{
    let mut buf: Vec<u8> = Vec::new();
    append_bytes(&mut buf, post.raw.as_slice());
    append_bytes(&mut buf, from.public_key.as_slice());
    append_bytes(&mut buf, to.public_key.as_slice());
    assert(buf@ =~= post.raw@ + from.public_key@ + to.public_key@);
    sha256(buf.as_slice())
}

impl Path {
    /// A field-for-field copy.
    pub fn copy(&self) -> (r: Path)
        ensures
            r == *self,
    {
        Path { from: self.from, to: self.to, signature: self.signature.clone() }
    }
}

impl RawPost {
    /// A field-for-field copy.
    pub fn copy(&self) -> (r: RawPost)
        ensures
            r == *self,
    {
        RawPost { author: self.author, content: self.content.clone(), message_id: self.message_id }
    }
}

/// A copy of a sequence of hops.
pub fn copy_history(h: &Vec<Path>) -> (r: Vec<Path>)
    ensures
        r@ == h@,
{
    let mut out: Vec<Path> = Vec::new();
    let n = h.len();
    let mut i: usize = 0;
    while i < n
        invariant
            i <= n,
            n == h@.len(),
            out@ == h@.subrange(0, i as int),
        decreases n - i,
    {
        out.push(h[i].copy());
        assert(h@.subrange(0, (i + 1) as int) =~= h@.subrange(0, i as int).push(h@[i as int]));
        i = i + 1;
    }
    assert(h@.subrange(0, n as int) =~= h@);
    out
}

impl IncomingPost {
    /// Checks a received post and records the time of arrival. Fails with
    /// `Malformed` unless every hop verifies, the hops form a chain whose
    /// last hop is addressed to `us`, and the author's signature verifies.
    pub fn new(post: &RawPost, history: &Vec<Path>, signature: &String, us: &Us) -> (r: Result<
        IncomingPost,
        CoreError,
    >)
        ensures
            r is Ok <==> history_valid(history@, post_id_of(*post), us.node.public_key@)
                && author_signed(*post, signature@),
            r is Err ==> r == Err::<IncomingPost, CoreError>(CoreError::Malformed),
            r matches Ok(p) ==> p.post == *post && p.history@ == history@ && p.signature
                == *signature,
    {
        IncomingPost::verify_history(history, post, us)?;
        IncomingPost::verify_signature(post, signature)?;
        Ok(
            IncomingPost {
                post: post.copy(),
                history: copy_history(history),
                received: get_epoch(),
                signature: signature.clone(),
            },
        )
    }

    /// Whether the author's signature verifies over the post's fingerprint.
    pub fn verify_signature(post: &RawPost, signature: &String) -> (r: Result<(), CoreError>)
        ensures
            r is Ok <==> author_signed(*post, signature@),
            r is Err ==> r == Err::<(), CoreError>(CoreError::Malformed),
    {
        let id = post.hash();
        if post.author.verify(&id, signature.as_str()) {
            Ok(())
        } else {
            Err(CoreError::Malformed)
        }
    }

    /// Whether every hop verifies, the hops form a chain, and the last one is
    /// addressed to `us`.
    pub fn verify_history(history: &Vec<Path>, post: &RawPost, us: &Us) -> (r: Result<(), CoreError>)
        ensures
            r is Ok <==> history_valid(history@, post_id_of(*post), us.node.public_key@),
            r is Err ==> r == Err::<(), CoreError>(CoreError::Malformed),
    {
        let id = post.get_id();
        let n = history.len();
        let mut i: usize = 0;
        while i < n
            invariant
                i <= n,
                n == history@.len(),
                id.raw@ == post_id_of(*post),
                forall|j: int| 0 <= j < i ==> #[trigger] hop_signed(history@[j], id.raw@),
                forall|j: int|
                    0 <= j < i && j + 1 < n ==> #[trigger] history@[j].to.public_key@ == history@[j
                        + 1].from.public_key@,
            decreases n - i,
        {
            let path = &history[i];
            let message = construct_path_msg(&id, &path.from, &path.to);
            if !path.from.verify(&message, path.signature.as_str()) {
                assert(!hop_signed(history@[i as int], id.raw@));
                return Err(CoreError::Malformed);
            }
            if i + 1 < n {
                if !same_key(&path.to.public_key, &history[i + 1].from.public_key) {
                    assert(history@[i as int].to.public_key@ != history@[i + 1].from.public_key@);
                    return Err(CoreError::Malformed);
                }
            }
            i = i + 1;
        }
        if n > 0 {
            if !same_key(&history[n - 1].to.public_key, &us.node.public_key) {
                return Err(CoreError::Malformed);
            }
        }
        Ok(())
    }

    pub fn get_id(&self) -> (r: PostId)
        ensures
            r.raw@ == post_id_of(self.post),
    {
        self.post.get_id()
    }
}

impl OutgoingPost {
    /// The copy of `post` that `us` sends to `to`: the last hop we received
    /// it by, if any, then our signed hop to `to`.
    pub fn from_incoming(post: &IncomingPost, us: &Us, to: &Node) -> (r: OutgoingPost)
        ensures
            forwarded_copy(r, *post, *us, *to),
    {
        let mut history: Vec<Path> = Vec::new();
        let n = post.history.len();
        if n > 0 {
            history.push(post.history[n - 1].copy());
        }
        let id = post.get_id();
        let message = construct_path_msg(&id, &us.node, to);
        let signature = us.sign(message.as_slice());
        history.push(Path { from: us.node, to: *to, signature });
        OutgoingPost { post: post.post.copy(), history, signature: post.signature.clone() }
    }
}

/// A copy forwarded from a post that was valid on our side is valid on the
/// receiver's side: every hop it carries verifies, the hops form a chain, and
/// the last one is addressed to the receiver.
pub proof fn lemma_forwarded_history_valid(out: OutgoingPost, inc: IncomingPost, us: Us, to: Node)
    requires
        us.wf(),
        history_valid(inc.history@, post_id_of(inc.post), us.node.public_key@),
        forwarded_copy(out, inc, us, to),
    ensures
        history_valid(out.history@, post_id_of(out.post), to.public_key@),
{
    let h = out.history@;
    let id = post_id_of(inc.post);
    assert(hop_signed(h.last(), id));
    if inc.history@.len() > 0 {
        assert(hop_signed(inc.history@[inc.history@.len() - 1], id));
        assert(hop_signed(h[0], id));
    }
    assert forall|i: int| 0 <= i < h.len() implies #[trigger] hop_signed(h[i], id) by {
        if i == h.len() - 1 {
        } else {
            assert(i == 0);
        }
    }
}

} // verus!

//! The stored form of a received post: author key, content, message id,
//! hops, arrival time (most significant byte first) and author signature.

use vstd::prelude::*;
use vstd::utf8::{decode_utf8, encode_utf8, valid_utf8};

use crate::bytes::{
    append_bytes, be_bytes, be_value, copy_range, le_bytes, le_value, lemma_byte_cap_values, lemma_le_bytes_len,
    lemma_le_round_trip, lemma_le_value_bound, push_be, push_le, read_be, read_le,
};
use crate::post::{push_text, raw_post_bytes, text_bytes, IncomingPost, Node, Path, RawPost};

verus! {

broadcast use vstd::utf8::group_utf8_lib;

/// A hop: sender key, receiver key, signature text.
pub open spec fn hop_bytes(h: Path) -> Seq<u8> {
    h.from.public_key@ + h.to.public_key@ + text_bytes(h.signature@)
}

/// Hops one after another.
pub open spec fn hops_bytes(h: Seq<Path>) -> Seq<u8>
    decreases h.len(),
{
    if h.len() == 0 {
        Seq::empty()
    } else {
        hops_bytes(h.drop_last()) + hop_bytes(h.last())
    }
}

/// The stored form of a received post.
pub open spec fn incoming_bytes(p: IncomingPost) -> Seq<u8> {
    raw_post_bytes(p.post) + le_bytes(p.history@.len(), 8) + hops_bytes(p.history@) + be_bytes(
        p.received as nat,
        8,
    ) + text_bytes(p.signature@)
}

/// Relies on `String::from_utf8`: the text when the bytes are valid UTF-8.
#[verifier::external_body]
pub(crate) fn string_from_utf8(v: Vec<u8>) -> (r: Option<String>)
    ensures
        r is Some <==> valid_utf8(v@),
        r matches Some(s) ==> s@ == decode_utf8(v@),
{
    String::from_utf8(v).ok()
}

fn push_hop(out: &mut Vec<u8>, h: &Path)
    ensures
        final(out)@ == old(out)@ + hop_bytes(*h),
{
    append_bytes(out, h.from.public_key.as_slice());
    append_bytes(out, h.to.public_key.as_slice());
    push_text(out, &h.signature);
    assert(final(out)@ =~= old(out)@ + hop_bytes(*h));
}

/// The stored form of `p`.
pub fn encode_incoming(p: &IncomingPost) -> (r: Vec<u8>)
    ensures
        r@ == incoming_bytes(*p),
{
    let mut out = p.post.encode();
    let n = p.history.len();
    push_le(&mut out, n as u128, 8);
    let ghost head = out@;
    let mut i: usize = 0;
    while i < n
        invariant
            i <= n,
            n == p.history@.len(),
            out@ == head + hops_bytes(p.history@.subrange(0, i as int)),
        decreases n - i,
    {
        push_hop(&mut out, &p.history[i]);
        assert(p.history@.subrange(0, (i + 1) as int).drop_last() =~= p.history@.subrange(
            0,
            i as int,
        ));
        assert(out@ =~= head + hops_bytes(p.history@.subrange(0, (i + 1) as int)));
        i = i + 1;
    }
    assert(p.history@.subrange(0, n as int) =~= p.history@);
    push_be(&mut out, p.received as u128, 8);
    push_text(&mut out, &p.signature);
    assert(out@ =~= incoming_bytes(*p));
    out
}

fn read_key(b: &[u8], pos: usize) -> (r: Option<([u8; 32], usize)>)
    ensures
        r matches Some((k, next)) ==> pos <= next <= b@.len() && next == pos + 32 && b@.subrange(
            pos as int,
            next as int,
        ) == k@,
        r is None ==> pos + 32 > b@.len(),
{
    let len = b.len();
    if pos > len || len - pos < 32 {
        return None;
    }
    let mut k = [0u8; 32];
    let mut i: usize = 0;
    while i < 32
        invariant
            i <= 32,
            pos + 32 <= len,
            len == b@.len(),
            k@.len() == 32,
            forall|j: int| 0 <= j < i ==> k@[j] == b@[pos + j],
        decreases 32 - i,
    {
        k[i] = b[pos + i];
        i = i + 1;
    }
    assert(b@.subrange(pos as int, (pos + 32) as int) =~= k@);
    Some((k, pos + 32))
}

fn read_text(b: &[u8], pos: usize) -> (r: Option<(String, usize)>)
    ensures
        r matches Some((s, next)) ==> pos <= next <= b@.len() && b@.subrange(pos as int, next as int)
            == text_bytes(s@),
        forall|s: Seq<char>| #[trigger] text_at(b@, pos as int, s) ==> (r matches Some((t, next)) && t@ == s
            && next == pos + text_bytes(s).len()),
{
    let len = b.len();
    if pos > len || len - pos < 8 {
        proof {
            assert forall|s: Seq<char>| !#[trigger] text_at(b@, pos as int, s) by {
                if text_at(b@, pos as int, s) {
                    lemma_text_at(b@, pos as int, s);
                }
            }
        }
        return None;
    }
    let n = read_le(b, pos, 8);
    let start = pos + 8;
    proof {
        lemma_le_value_bound(b@.subrange(pos as int, start as int));
        lemma_byte_cap_values();
    }
    if n > (len - start) as u128 {
        proof {
            assert forall|s: Seq<char>| !#[trigger] text_at(b@, pos as int, s) by {
                if text_at(b@, pos as int, s) {
                    lemma_text_at(b@, pos as int, s);
                }
            }
        }
        return None;
    }
    let end = start + n as usize;
    let v = copy_range(b, start, end);
    let ghost vb = v@;
    match string_from_utf8(v) {
        None => {
            proof {
                assert forall|s: Seq<char>| !#[trigger] text_at(b@, pos as int, s) by {
                    if text_at(b@, pos as int, s) {
                        lemma_text_at(b@, pos as int, s);
                    }
                }
            }
            None
        },
        Some(t) => {
            proof {
                assert(encode_utf8(t@) == vb);
                lemma_le_round_trip(vb.len(), 8);
                let lb = b@.subrange(pos as int, start as int);
                assert(lb.len() == 8);
                lemma_le_bytes_len(vb.len(), 8);
                assert(le_bytes(vb.len(), 8) =~= lb) by {
                    lemma_le_byte_seq_unique(lb, vb.len());
                }
                assert(b@.subrange(pos as int, end as int) =~= lb + vb);
                assert forall|s: Seq<char>| #[trigger] text_at(b@, pos as int, s) implies t@ == s
                    && end == pos + text_bytes(s).len() by {
                    lemma_text_at(b@, pos as int, s);
                    assert(encode_utf8(s) == vb);
                }
            }
            Some((t, end))
        },
    }
}

/// The bytes of `b` at `pos` begin with `s` as a text.
pub open spec fn text_at(b: Seq<u8>, pos: int, s: Seq<char>) -> bool {
    0 <= pos && pos + text_bytes(s).len() <= b.len() && b.subrange(pos, pos + text_bytes(s).len())
        == text_bytes(s)
}

proof fn lemma_text_at(b: Seq<u8>, pos: int, s: Seq<char>)
    requires
        text_at(b, pos, s),
        b.len() <= usize::MAX,
    ensures
        pos + 8 + encode_utf8(s).len() <= b.len(),
        le_value(b.subrange(pos, pos + 8)) == encode_utf8(s).len(),
        b.subrange(pos + 8, pos + 8 + encode_utf8(s).len()) == encode_utf8(s),
        valid_utf8(encode_utf8(s)),
{
    let e = encode_utf8(s);
    let t = text_bytes(s);
    lemma_le_bytes_len(e.len(), 8);
    let w = b.subrange(pos, pos + t.len());
    assert(w == t);
    assert(b.subrange(pos, pos + 8) =~= w.subrange(0, 8));
    assert(t.subrange(0, 8) =~= le_bytes(e.len(), 8));
    assert(b.subrange(pos + 8, pos + 8 + e.len()) =~= w.subrange(8, 8 + e.len() as int));
    assert(t.subrange(8, 8 + e.len() as int) =~= e);
    lemma_byte_cap_values();
    lemma_le_round_trip(e.len(), 8);
}

/// Eight bytes whose value is `v` are the bytes `le_bytes` writes for `v`.
proof fn lemma_le_byte_seq_unique(b: Seq<u8>, v: nat)
    requires
        le_value(b) == v,
    ensures
        le_bytes(v, b.len()) == b,
    decreases b.len(),
{
    if b.len() > 0 {
        let rest = b.drop_first();
        assert(v % 256 == b[0] as nat && v / 256 == le_value(rest)) by (nonlinear_arith)
            requires
                v == b[0] as nat + 256 * le_value(rest),
                b[0] < 256,
        ;
        lemma_le_byte_seq_unique(rest, v / 256);
        assert(le_bytes(v, b.len()) =~= b);
    }
}

/// Two hops with the same ends and the same signature text.
pub open spec fn same_path(a: Path, b: Path) -> bool {
    a.from.public_key@ == b.from.public_key@ && a.to.public_key@ == b.to.public_key@ && a.signature@
        == b.signature@
}

/// Two posts with the same author, content text and message id.
pub open spec fn same_raw_post(a: RawPost, b: RawPost) -> bool {
    a.author.public_key@ == b.author.public_key@ && a.content@ == b.content@ && a.message_id
        == b.message_id
}

/// Two received posts that agree field by field, texts compared as text.
pub open spec fn same_incoming(a: IncomingPost, b: IncomingPost) -> bool {
    &&& same_raw_post(a.post, b.post)
    &&& a.history@.len() == b.history@.len()
    &&& forall|i: int| 0 <= i < a.history@.len() ==> same_path(#[trigger] a.history@[i], b.history@[i])
    &&& a.received == b.received
    &&& a.signature@ == b.signature@
}

/// The bytes of `b` at `pos` begin with the hop `h`.
pub open spec fn hop_at(b: Seq<u8>, pos: int, h: Path) -> bool {
    0 <= pos && pos + hop_bytes(h).len() <= b.len() && b.subrange(pos, pos + hop_bytes(h).len())
        == hop_bytes(h)
}

/// The bytes of `b` at `pos` begin with the post `p` in canonical encoding.
pub open spec fn raw_post_at(b: Seq<u8>, pos: int, p: RawPost) -> bool {
    0 <= pos && pos + raw_post_bytes(p).len() <= b.len() && b.subrange(
        pos,
        pos + raw_post_bytes(p).len(),
    ) == raw_post_bytes(p)
}

proof fn lemma_split3(b: Seq<u8>, pos: int, x: Seq<u8>, y: Seq<u8>, z: Seq<u8>)
    requires
        0 <= pos,
        pos + (x + y + z).len() <= b.len(),
        b.subrange(pos, pos + (x + y + z).len()) == x + y + z,
    ensures
        b.subrange(pos, pos + x.len()) == x,
        b.subrange(pos + x.len(), pos + x.len() + y.len()) == y,
        b.subrange(pos + x.len() + y.len(), pos + x.len() + y.len() + z.len()) == z,
{
    let xl = x.len() as int;
    let yl = y.len() as int;
    let zl = z.len() as int;
    let w = b.subrange(pos, pos + xl + yl + zl);
    assert(w == x + y + z);
    assert(b.subrange(pos, pos + xl) =~= w.subrange(0, xl));
    assert(w.subrange(0, xl) =~= x);
    assert(b.subrange(pos + xl, pos + xl + yl) =~= w.subrange(xl, xl + yl));
    assert(w.subrange(xl, xl + yl) =~= y);
    assert(b.subrange(pos + xl + yl, pos + xl + yl + zl) =~= w.subrange(xl + yl, xl + yl + zl));
    assert(w.subrange(xl + yl, xl + yl + zl) =~= z);
}

fn read_hop(b: &[u8], pos: usize) -> (r: Option<(Path, usize)>)
    ensures
        r matches Some((h, next)) ==> pos <= next <= b@.len() && b@.subrange(pos as int, next as int)
            == hop_bytes(h),
        forall|h: Path| #[trigger] hop_at(b@, pos as int, h) ==> (r matches Some((g, next)) && same_path(g, h)
            && next == pos + hop_bytes(h).len()),
{
    proof {
        assert forall|h: Path| #[trigger] hop_at(b@, pos as int, h) implies pos + 64 <= b@.len() && b@.subrange(pos as int, pos + 32) == h.from.public_key@
            && b@.subrange(pos + 32, pos + 64) == h.to.public_key@ && text_at(b@, pos + 64, h.signature@) by {
            lemma_split3(b@, pos as int, h.from.public_key@, h.to.public_key@, text_bytes(h.signature@));
        }
    }
    let (from, end1) = match read_key(b, pos) {
        Some(x) => x,
        None => return None,
    };
    let (to, end2) = match read_key(b, end1) {
        Some(x) => x,
        None => return None,
    };
    let (signature, end3) = match read_text(b, end2) {
        Some(x) => x,
        None => return None,
    };
    let h = Path { from: Node { public_key: from }, to: Node { public_key: to }, signature };
    assert(b@.subrange(pos as int, end3 as int) =~= b@.subrange(pos as int, end1 as int) + b@.subrange(
        end1 as int,
        end2 as int,
    ) + b@.subrange(end2 as int, end3 as int));
    Some((h, end3))
}

/// Reads a post in its canonical encoding at `pos`; wherever such a post
/// is there, it is read.
pub fn decode_raw_post(b: &[u8], pos: usize) -> (r: Option<(RawPost, usize)>)
    ensures
        r matches Some((p, next)) ==> pos <= next <= b@.len() && b@.subrange(pos as int, next as int)
            == raw_post_bytes(p),
        forall|p: RawPost| #[trigger] raw_post_at(b@, pos as int, p) ==> (r matches Some((q, next))
            && same_raw_post(q, p) && next == pos + raw_post_bytes(p).len()),
{
    let len = b.len();
    proof {
        assert forall|p: RawPost| #[trigger] raw_post_at(b@, pos as int, p) implies pos + 32 <= b@.len()
            && b@.subrange(pos as int, pos + 32) == p.author.public_key@ && text_at(b@, pos + 32, p.content@)
            && b@.subrange(pos + 32 + text_bytes(p.content@).len(), pos + raw_post_bytes(p).len()) == le_bytes(p.message_id as nat, 16)
            && raw_post_bytes(p).len() == 32 + text_bytes(p.content@).len() + 16 by {
            lemma_le_bytes_len(p.message_id as nat, 16);
            lemma_split3(b@, pos as int, p.author.public_key@, text_bytes(p.content@), le_bytes(p.message_id as nat, 16));
        }
    }
    let (author, end1) = match read_key(b, pos) {
        Some(x) => x,
        None => return None,
    };
    let (content, end2) = match read_text(b, end1) {
        Some(x) => x,
        None => return None,
    };
    if end2 > len || len - end2 < 16 {
        return None;
    }
    let message_id = read_le(b, end2, 16);
    let end3 = end2 + 16;
    proof {
        let mb = b@.subrange(end2 as int, end3 as int);
        lemma_le_byte_seq_unique(mb, message_id as nat);
        assert(b@.subrange(pos as int, end3 as int) =~= b@.subrange(pos as int, end1 as int)
            + b@.subrange(end1 as int, end2 as int) + mb);
        assert forall|p: RawPost| #[trigger] raw_post_at(b@, pos as int, p) implies message_id == p.message_id by {
            lemma_byte_cap_values();
            lemma_le_round_trip(p.message_id as nat, 16);
        }
    }
    Some((RawPost { author: Node { public_key: author }, content, message_id }, end3))
}

proof fn lemma_hops_front(h: Seq<Path>)
    requires
        h.len() > 0,
    ensures
        hops_bytes(h) == hop_bytes(h[0]) + hops_bytes(h.drop_first()),
    decreases h.len(),
{
    if h.len() == 1 {
        assert(h.drop_first() =~= Seq::<Path>::empty());
        assert(h.drop_last() =~= Seq::<Path>::empty());
        assert(hops_bytes(h.drop_last()) =~= Seq::<u8>::empty());
        assert(h.last() == h[0]);
        assert(hops_bytes(h) =~= hop_bytes(h[0]));
    } else {
        lemma_hops_front(h.drop_last());
        assert(h.drop_last().drop_first() =~= h.drop_first().drop_last());
        assert(h.drop_first().last() == h.last());
        assert(hops_bytes(h) =~= hop_bytes(h[0]) + hops_bytes(h.drop_first()));
    }
}

proof fn lemma_hops_len(h: Seq<Path>)
    ensures
        hops_bytes(h).len() >= h.len(),
    decreases h.len(),
{
    if h.len() > 0 {
        lemma_hops_len(h.drop_last());
    }
}

/// One hop read off the front of the hops `h[k..count]` found at `pos`.
proof fn lemma_hop_step(b: Seq<u8>, pos: int, h: Seq<Path>, k: int, count: int)
    requires
        0 <= pos,
        0 <= k < count == h.len(),
        pos + hops_bytes(h.subrange(k, count)).len() <= b.len(),
        b.subrange(pos, pos + hops_bytes(h.subrange(k, count)).len()) == hops_bytes(h.subrange(k, count)),
    ensures
        hop_at(b, pos, h[k]),
        pos + hops_bytes(h.subrange(k, count)).len() == pos + hop_bytes(h[k]).len() + hops_bytes(h.subrange(k + 1, count)).len(),
        b.subrange(pos + hop_bytes(h[k]).len(), pos + hop_bytes(h[k]).len() + hops_bytes(h.subrange(k + 1, count)).len())
            == hops_bytes(h.subrange(k + 1, count)),
{
    let sub = h.subrange(k, count);
    lemma_hops_front(sub);
    assert(sub.drop_first() =~= h.subrange(k + 1, count));
    assert(sub[0] == h[k]);
    let hb = hop_bytes(h[k]);
    let rest = hops_bytes(h.subrange(k + 1, count));
    let w = b.subrange(pos, pos + hops_bytes(sub).len());
    assert(b.subrange(pos, pos + hb.len()) =~= w.subrange(0, hb.len() as int));
    assert(hops_bytes(sub).subrange(0, hb.len() as int) =~= hb);
    assert(b.subrange(pos + hb.len(), pos + hb.len() + rest.len()) =~= w.subrange(hb.len() as int, (hb.len() + rest.len()) as int));
    assert(hops_bytes(sub).subrange(hb.len() as int, (hb.len() + rest.len()) as int) =~= rest);
}

/// The pieces of a stored record, for a post `p` whose record `b` is.
proof fn lemma_record_pieces(b: Seq<u8>, p: IncomingPost)
    requires
        incoming_bytes(p) == b,
        b.len() <= usize::MAX,
    ensures
        ({
            let r = raw_post_bytes(p.post).len() as int;
            let hl = hops_bytes(p.history@).len() as int;
            &&& raw_post_at(b, 0, p.post)
            &&& r + 8 + hl + 8 <= b.len()
            &&& le_value(b.subrange(r, r + 8)) == p.history@.len()
            &&& hops_at(b, r + 8, p.history@)
            &&& be_value(b.subrange(r + 8 + hl, r + 16 + hl)) == p.received
            &&& text_at(b, r + 16 + hl, p.signature@)
            &&& r + 16 + hl + text_bytes(p.signature@).len() == b.len()
        }),
{
    let x1 = raw_post_bytes(p.post);
    let x2 = le_bytes(p.history@.len(), 8);
    let x3 = hops_bytes(p.history@);
    let x4 = be_bytes(p.received as nat, 8);
    let x5 = text_bytes(p.signature@);
    lemma_le_bytes_len(p.history@.len(), 8);
    lemma_le_bytes_len(p.received as nat, 8);
    lemma_hops_len(p.history@);
    lemma_byte_cap_values();
    lemma_le_round_trip(p.history@.len(), 8);
    crate::bytes::lemma_be_round_trip(p.received as nat, 8);
    assert(b == x1 + x2 + x3 + x4 + x5);
    let a = x1.len() as int;
    let c = x3.len() as int;
    assert(b.subrange(0, a) =~= x1);
    assert(b.subrange(a, a + 8) =~= x2);
    assert(b.subrange(a + 8, a + 8 + c) =~= x3);
    assert(b.subrange(a + 8 + c, a + 16 + c) =~= x4);
    assert(b.subrange(a + 16 + c, b.len() as int) =~= x5);
}

/// The bytes of `b` at `pos` begin with the hops `h`, one after another.
pub open spec fn hops_at(b: Seq<u8>, pos: int, h: Seq<Path>) -> bool {
    0 <= pos && pos + hops_bytes(h).len() <= b.len() && b.subrange(pos, pos + hops_bytes(h).len())
        == hops_bytes(h)
}

/// Reads `count` hops at `start`; wherever such hops are, they are read.
fn read_history(b: &[u8], start: usize, count: u128) -> (r: Option<(Vec<Path>, usize)>)
    ensures
        r matches Some((v, next)) ==> start <= next <= b@.len() && v@.len() == count && b@.subrange(
            start as int,
            next as int,
        ) == hops_bytes(v@),
        forall|h: Seq<Path>| h.len() == count && #[trigger] hops_at(b@, start as int, h) ==> (r matches Some((v, next))
            && next == start + hops_bytes(h).len() && forall|i: int| 0 <= i < count ==> same_path(#[trigger] v@[i], h[i])),
{
    let len = b.len();
    if start > len {
        return None;
    }
    let mut pos = start;
    let mut history: Vec<Path> = Vec::new();
    let mut k: u128 = 0;
    proof {
        assert(b@.subrange(start as int, start as int) =~= hops_bytes(history@));
        assert forall|h: Seq<Path>| h.len() == count && #[trigger] hops_at(b@, start as int, h) implies h.subrange(0, count as int) == h by {
            assert(h.subrange(0, count as int) =~= h);
        }
    }
    while k < count
        invariant
            start <= pos <= len,
            len == b@.len(),
            history@.len() == k,
            k <= count,
            b@.subrange(start as int, pos as int) == hops_bytes(history@),
            forall|h: Seq<Path>| h.len() == count && #[trigger] hops_at(b@, start as int, h) ==> {
                &&& pos + hops_bytes(h.subrange(k as int, count as int)).len() == start + hops_bytes(h).len()
                &&& b@.subrange(pos as int, pos + hops_bytes(h.subrange(k as int, count as int)).len())
                    == hops_bytes(h.subrange(k as int, count as int))
                &&& forall|i: int| 0 <= i < k ==> same_path(#[trigger] history@[i], h[i])
            },
        decreases count - k,
    {
        proof {
            assert forall|h: Seq<Path>| h.len() == count && #[trigger] hops_at(b@, start as int, h) implies hop_at(b@, pos as int, h[k as int])
                && pos + hop_bytes(h[k as int]).len() + hops_bytes(h.subrange(k + 1, count as int)).len() == start + hops_bytes(h).len()
                && b@.subrange(pos + hop_bytes(h[k as int]).len(), pos + hop_bytes(h[k as int]).len() + hops_bytes(h.subrange(k + 1, count as int)).len())
                    == hops_bytes(h.subrange(k + 1, count as int)) by {
                lemma_hop_step(b@, pos as int, h, k as int, count as int);
            }
        }
        let (hop, next) = match read_hop(b, pos) {
            Some(x) => x,
            None => return None,
        };
        let ghost old_hist = history@;
        history.push(hop);
        proof {
            assert(history@.drop_last() =~= old_hist);
            assert(b@.subrange(start as int, next as int) =~= b@.subrange(start as int, pos as int)
                + b@.subrange(pos as int, next as int));
            assert forall|h: Seq<Path>| h.len() == count && #[trigger] hops_at(b@, start as int, h) implies
                forall|i: int| 0 <= i < k + 1 ==> same_path(#[trigger] history@[i], h[i]) by {
                assert forall|i: int| 0 <= i < k + 1 implies same_path(#[trigger] history@[i], h[i]) by {
                    if i < k {
                        assert(history@[i] == old_hist[i]);
                    }
                }
            }
        }
        pos = next;
        k = k + 1;
    }
    proof {
        assert forall|h: Seq<Path>| h.len() == count && #[trigger] hops_at(b@, start as int, h) implies pos == start + hops_bytes(h).len() by {
            assert(h.subrange(count as int, count as int) =~= Seq::<Path>::empty());
            assert(hops_bytes(h.subrange(count as int, count as int)) =~= Seq::<u8>::empty());
        }
    }
    Some((history, pos))
}

/// Reads the stored form of a received post; `None` unless the bytes are
/// exactly one such record. Whenever they are the record of some post, the
/// post read agrees with it field by field.
pub fn decode_incoming(b: &[u8]) -> (r: Option<IncomingPost>)
    ensures
        r matches Some(p) ==> incoming_bytes(p) == b@,
        forall|p: IncomingPost| #[trigger] incoming_bytes(p) == b@ ==> (r matches Some(q) && same_incoming(q, p)),
{
    let len = b.len();
    proof {
        assert forall|p: IncomingPost| #[trigger] incoming_bytes(p) == b@ implies ({
            let r = raw_post_bytes(p.post).len() as int;
            let hl = hops_bytes(p.history@).len() as int;
            &&& raw_post_at(b@, 0, p.post)
            &&& r + 8 + hl + 8 <= b@.len()
            &&& le_value(b@.subrange(r, r + 8)) == p.history@.len()
            &&& hops_at(b@, r + 8, p.history@)
            &&& be_value(b@.subrange(r + 8 + hl, r + 16 + hl)) == p.received
            &&& text_at(b@, r + 16 + hl, p.signature@)
            &&& r + 16 + hl + text_bytes(p.signature@).len() == b@.len()
        }) by {
            lemma_record_pieces(b@, p);
        }
    }
    let (post, end1) = match decode_raw_post(b, 0) {
        Some(x) => x,
        None => return None,
    };
    if end1 > len || len - end1 < 8 {
        return None;
    }
    let count = read_le(b, end1, 8);
    let ghost count_bytes = b@.subrange(end1 as int, (end1 + 8) as int);
    let start = end1 + 8;
    let (history, pos) = match read_history(b, start, count) {
        Some(x) => x,
        None => return None,
    };
    if len - pos < 8 {
        return None;
    }
    let received = read_be(b, pos, 8);
    let end2 = pos + 8;
    let (signature, end3) = match read_text(b, end2) {
        Some(x) => x,
        None => return None,
    };
    if end3 != len {
        return None;
    }
    proof {
        let rb = b@.subrange(pos as int, end2 as int);
        assert(rb.reverse().len() == 8);
        lemma_le_value_bound(rb.reverse());
        lemma_byte_cap_values();
        lemma_le_byte_seq_unique(rb.reverse(), received as nat);
        assert(be_bytes(received as nat, 8) =~= rb);
        lemma_le_byte_seq_unique(count_bytes, count as nat);
        assert(le_bytes(history@.len(), 8) == count_bytes);
    }
    let p = IncomingPost { post, history, received: received as u64, signature };
    proof {
        assert(b@ =~= b@.subrange(0, end1 as int) + b@.subrange(end1 as int, start as int) + b@.subrange(
            start as int,
            pos as int,
        ) + b@.subrange(pos as int, end2 as int) + b@.subrange(end2 as int, end3 as int));
        assert(incoming_bytes(p) =~= b@);
    }
    Some(p)
}

} // verus!

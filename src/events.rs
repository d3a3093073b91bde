//! The messages peers exchange, how a connection answers each of them, and
//! the newline framing of the wire.

use vstd::prelude::*;
use vstd::utf8::{decode_utf8, is_leading_byte_width_1};

use crate::error::CoreError;
use crate::db::NodeDB;
use crate::post::{author_signed, history_valid, post_id_of, IncomingPost, OutgoingPost};
use crate::record::string_from_utf8;
use crate::share::shared;

verus! {

#[derive(Debug, Clone, Copy, PartialEq, Eq)]
pub struct Ping {}

#[derive(Debug, Clone, Copy, PartialEq, Eq)]
pub struct Pong {}

#[derive(Debug, Clone, Copy, PartialEq, Eq)]
pub struct Heartbeat {}

#[derive(Debug, Clone, Copy, PartialEq, Eq)]
pub struct CloseRequest {}

#[derive(Debug, Clone, Copy, PartialEq, Eq)]
pub struct CloseResponse {}

/// A peer's reason for closing the connection.
#[derive(Debug, Clone, PartialEq, Eq)]
pub struct Error {
    pub message: String,
}

/// A forwarded copy of a post.
#[derive(Debug, Clone, PartialEq, Eq)]
pub struct Post {
    pub data: OutgoingPost,
}

/// A request to be trusted (not yet part of the protocol).
#[derive(Debug, Clone, Copy, PartialEq, Eq)]
pub struct TrustRequest {}

/// An answer to a trust request (not yet part of the protocol).
#[derive(Debug, Clone, Copy, PartialEq, Eq)]
pub struct TrustResponse {}

/// A request to trust a bootstrap node (not yet part of the protocol).
#[derive(Debug, Clone, Copy, PartialEq, Eq)]
pub struct TrustBootstrap {}

/// One message on a connection.
#[derive(Debug, Clone, PartialEq, Eq)]
pub enum NetworkEvent {
    Ping(Ping),
    Pong(Pong),
    Post(Post),
    Heartbeat(Heartbeat),
    CloseRequest(CloseRequest),
    CloseResponse(CloseResponse),
}

/// What a connection does on receiving a message.
#[derive(Debug, Clone, PartialEq, Eq)]
pub enum Reaction {
    /// Send this message.
    Send(NetworkEvent),
    /// Wait a second, then send this message.
    SendAfterPause(NetworkEvent),
    /// Take the carried post in, then send this message.
    TakePostThenSend(NetworkEvent),
    /// Send this message, then wait for the peer to close.
    SendThenAwaitClose(NetworkEvent),
    /// Close the connection.
    Close,
}

impl NetworkEvent {
    /// The reply to each message: a ping is answered with a pong, a pong with
    /// a close request, a heartbeat with a heartbeat after a pause, a post
    /// (once taken in) with a close request, a close request with a close
    /// response; a close response closes.
    pub fn reaction(&self) -> (r: Reaction)
        ensures
            self is Ping ==> r == Reaction::Send(NetworkEvent::Pong(Pong {})),
            self is Pong ==> r == Reaction::Send(NetworkEvent::CloseRequest(CloseRequest {})),
            self is Heartbeat ==> r == Reaction::SendAfterPause(NetworkEvent::Heartbeat(Heartbeat {})),
            self is Post ==> r == Reaction::TakePostThenSend(NetworkEvent::CloseRequest(CloseRequest {})),
            self is CloseRequest ==> r == Reaction::SendThenAwaitClose(NetworkEvent::CloseResponse(CloseResponse {})),
            self is CloseResponse ==> r == Reaction::Close,
    {
        match self {
            NetworkEvent::Ping(_) => Reaction::Send(NetworkEvent::Pong(Pong {})),
            NetworkEvent::Pong(_) => Reaction::Send(NetworkEvent::CloseRequest(CloseRequest {})),
            NetworkEvent::Post(_) => Reaction::TakePostThenSend(NetworkEvent::CloseRequest(CloseRequest {})),
            NetworkEvent::Heartbeat(_) => Reaction::SendAfterPause(NetworkEvent::Heartbeat(Heartbeat {})),
            NetworkEvent::CloseRequest(_) => Reaction::SendThenAwaitClose(NetworkEvent::CloseResponse(CloseResponse {})),
            NetworkEvent::CloseResponse(_) => Reaction::Close,
        }
    }

    /// Whether the connection ends once this message has been handled.
    pub fn ends_connection(&self) -> (r: bool)
        ensures
            r == (self is CloseRequest || self is CloseResponse),
    {
        match self {
            NetworkEvent::CloseRequest(_) => true,
            NetworkEvent::CloseResponse(_) => true,
            _ => false,
        }
    }
}

impl NodeDB {
    /// Takes in a copy that a peer sent us: fails with `Malformed` unless its
    /// hops and author signature verify and its last hop is addressed to us;
    /// otherwise shares it as `share_post` does.
    pub fn handle_post(&mut self, data: &OutgoingPost) -> (r: Result<Vec<OutgoingPost>, CoreError>)
        ensures
            r == Err::<Vec<OutgoingPost>, CoreError>(CoreError::Malformed) <==> !(history_valid(
                data.history@,
                post_id_of(data.post),
                old(self).us.node.public_key@,
            ) && author_signed(data.post, data.signature@)),
            r == Err::<Vec<OutgoingPost>, CoreError>(CoreError::Malformed) ==> *final(self) == *old(self),
            r is Err ==> r == Err::<Vec<OutgoingPost>, CoreError>(CoreError::Malformed) || r == Err::<Vec<OutgoingPost>, CoreError>(CoreError::AlreadySeen)
                || r == Err::<Vec<OutgoingPost>, CoreError>(CoreError::StoreError),
            r matches Ok(out) ==> exists|p: IncomingPost| {
                &&& p.post == data.post
                &&& p.history@ == data.history@
                &&& p.signature == data.signature
                &&& #[trigger] shared(*old(self), *final(self), p, out@)
            },
    {
        let us = self.us;
        let post = IncomingPost::new(&data.post, &data.history, &data.signature, &us)?;
        self.share_post(&post)
    }
}

/// The first line in `buf`: the bytes before its first newline, and the
/// bytes after that newline. `None` while no newline has arrived.
pub fn split_line(buf: &Vec<u8>) -> (r: Option<(Vec<u8>, Vec<u8>)>)
    ensures
        r is None <==> !buf@.contains(10u8),
        r matches Some((line, rest)) ==> buf@ == line@ + seq![10u8] + rest@ && !line@.contains(10u8),
{
    let n = buf.len();
    let mut i: usize = 0;
    while i < n
        invariant
            i <= n,
            n == buf@.len(),
            forall|j: int| 0 <= j < i ==> buf@[j] != 10u8,
        decreases n - i,
    {
        if buf[i] == 10u8 {
            let line = crate::bytes::copy_range(buf.as_slice(), 0, i);
            let rest = crate::bytes::copy_range(buf.as_slice(), i + 1, n);
            assert(buf@ =~= line@ + seq![10u8] + rest@);
            assert(!line@.contains(10u8)) by {
                if line@.contains(10u8) {
                    let j = choose|j: int| 0 <= j < line@.len() && line@[j] == 10u8;
                    assert(buf@[j] == 10u8);
                }
            }
            return Some((line, rest));
        }
        i = i + 1;
    }
    assert(!buf@.contains(10u8)) by {
        if buf@.contains(10u8) {
            let j = choose|j: int| 0 <= j < buf@.len() && buf@[j] == 10u8;
            assert(buf@[j] != 10u8);
        }
    }
    None
}

/// `data` followed by a newline: one frame on the wire.
pub fn frame(data: &[u8]) -> (r: Vec<u8>)
    ensures
        r@ == data@.push(10u8),
{
    let mut out: Vec<u8> = Vec::new();
    crate::bytes::append_bytes(&mut out, data);
    out.push(10u8);
    out
}

/// A lower-case hexadecimal digit.
pub open spec fn hex_digit(d: u8) -> u8 {
    if d < 10 {
        (48 + d) as u8
    } else {
        (87 + d) as u8
    }
}

/// A byte in escaped form: `\t`, `\r`, `\n`, `\'`, `\"` and `\\` for those
/// characters, printable ASCII as itself, and `\xNN` otherwise.
pub open spec fn escape_byte(b: u8) -> Seq<u8> {
    if b == 9 {
        seq![92u8, 116u8]
    } else if b == 13 {
        seq![92u8, 114u8]
    } else if b == 10 {
        seq![92u8, 110u8]
    } else if b == 39 || b == 34 || b == 92 {
        seq![92u8, b]
    } else if 32 <= b <= 126 {
        seq![b]
    } else {
        seq![92u8, 120u8, hex_digit(b / 16), hex_digit(b % 16)]
    }
}

/// Every byte in escaped form, in order.
pub open spec fn escape_all(bs: Seq<u8>) -> Seq<u8>
    decreases bs.len(),
{
    if bs.len() == 0 {
        Seq::empty()
    } else {
        escape_all(bs.drop_last()) + escape_byte(bs.last())
    }
}

fn push_escaped(out: &mut Vec<u8>, b: u8)
    ensures
        final(out)@ == old(out)@ + escape_byte(b),
{
    if b == 9 {
        out.push(92u8);
        out.push(116u8);
    } else if b == 13 {
        out.push(92u8);
        out.push(114u8);
    } else if b == 10 {
        out.push(92u8);
        out.push(110u8);
    } else if b == 39 || b == 34 || b == 92 {
        out.push(92u8);
        out.push(b);
    } else if 32 <= b && b <= 126 {
        out.push(b);
    } else {
        let hi = b / 16;
        let lo = b % 16;
        out.push(92u8);
        out.push(120u8);
        out.push(if hi < 10 { 48 + hi } else { 87 + hi });
        out.push(if lo < 10 { 48 + lo } else { 87 + lo });
    }
    assert(final(out)@ =~= old(out)@ + escape_byte(b));
}

/// The bytes as readable ASCII text, each escaped as `escape_byte` says.
pub fn debug_bytes(bs: &[u8]) -> (r: String)
    ensures
        r@ == decode_utf8(escape_all(bs@)),
{
    let n = bs.len();
    let mut out: Vec<u8> = Vec::new();
    let mut i: usize = 0;
    while i < n
        invariant
            i <= n,
            n == bs@.len(),
            out@ == escape_all(bs@.subrange(0, i as int)),
            forall|j: int| 0 <= j < out@.len() ==> #[trigger] out@[j] < 128,
        decreases n - i,
    {
        push_escaped(&mut out, bs[i]);
        assert(bs@.subrange(0, (i + 1) as int).drop_last() =~= bs@.subrange(0, i as int));
        i = i + 1;
    }
    assert(bs@.subrange(0, n as int) =~= bs@);
    proof {
        let v = out@;
        assert forall|j: int| 0 <= 0 <= j < v.len() <= v.len() implies #[trigger] is_leading_byte_width_1(v[j]) by {
            assert(v[j] < 128);
        }
        vstd::utf8::partial_valid_utf8_extend_ascii_block(v, 0, v.len() as int);
        assert(v.subrange(0, v.len() as int) =~= v);
        assert(v.subrange(0, 0) =~= Seq::<u8>::empty());
    }
    match string_from_utf8(out) {
        Some(s) => s,
        None => String::new(),
    }
}

} // verus!

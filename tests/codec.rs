use cricket::elo::{calculate_new_elo, p_win_exceeds_four_tenths, p_win_exceeds_six_tenths};
use cricket::events::{debug_bytes, frame, split_line, CloseRequest, CloseResponse, NetworkEvent, Ping, Pong, Reaction, Heartbeat};
use cricket::record::{decode_incoming, decode_raw_post, encode_incoming};
use cricket::{get_epoch, sha256, IncomingPost, Node, Path, RawPost, Us};

fn sample_post() -> IncomingPost {
    let author = Us::new([5u8; 32]);
    let raw = RawPost { author: author.node, content: "héllo\nworld".to_string(), message_id: 0x0102_0304_0506_0708_090a_0b0c_0d0e_0f10 };
    let signature = author.sign(&raw.get_id().raw.to_vec());
    IncomingPost {
        post: raw,
        history: vec![
            Path { from: Node::new([1u8; 32]), to: Node::new([2u8; 32]), signature: "AB".to_string() },
            Path { from: Node::new([2u8; 32]), to: Node::new([3u8; 32]), signature: "".to_string() },
        ],
        received: 0x0000_0001_0203_0405,
        signature,
    }
}

#[test]
fn canonical_encoding_matches_bincode() {
    let p = sample_post().post;
    let expected = bincode::serialize(&(p.author.public_key, p.content.clone(), p.message_id)).unwrap();
    assert_eq!(p.encode(), expected);
}

#[test]
fn same_encoding_same_id() {
    let p = sample_post().post;
    let q = p.clone();
    assert_eq!(p.encode(), q.encode());
    assert_eq!(p.get_id(), q.get_id());
    let mut r = p.clone();
    r.message_id += 1;
    assert_ne!(p.get_id(), r.get_id());
}

#[test]
fn sign_decode_verify_round_trip() {
    let author = Us::new([8u8; 32]);
    let raw = RawPost::new(author.node, "round trip".to_string());
    let bytes = raw.encode();
    let id = raw.hash();
    let signature = author.sign(&id);
    let (decoded, used) = decode_raw_post(&bytes, 0).unwrap();
    assert_eq!(used, bytes.len());
    assert_eq!(decoded, raw);
    assert!(decoded.author.verify(&decoded.hash(), &signature));
    assert!(IncomingPost::verify_signature(&decoded, &signature).is_ok());
}

#[test]
fn record_round_trip() {
    let p = sample_post();
    let bytes = encode_incoming(&p);
    // received is stored most significant byte first, right before the signature
    let n = bytes.len();
    let sig_len = p.signature.len();
    assert_eq!(&bytes[n - sig_len - 16..n - sig_len - 8], &[0u8, 0, 0, 1, 2, 3, 4, 5]);
    assert_eq!(decode_incoming(&bytes), Some(p));
    assert_eq!(decode_incoming(&bytes[..n - 1]), None);
    let mut longer = bytes.clone();
    longer.push(0);
    assert_eq!(decode_incoming(&longer), None);
}

#[test]
fn elo_equal_ratings() {
    assert_eq!(calculate_new_elo(1200, 1200), (1216, 1184));
}

#[test]
fn elo_matches_float_formula() {
    fn p_win(w: f64, l: f64) -> f64 {
        1.0 / (1.0 + 10f64.powf((l - w) / 400.0))
    }
    for w in (0usize..3000).step_by(13) {
        for l in (0usize..3000).step_by(17) {
            let pw = p_win(l as f64, w as f64);
            let pl = p_win(w as f64, l as f64);
            let nw = (w as f64 + 32.0 * (1.0 - pw)) as usize;
            let nl = (l as f64 + 32.0 * (0.0 - pl)) as usize;
            assert_eq!(calculate_new_elo(w, l), (nw, nl), "w={} l={}", w, l);
            assert_eq!(p_win_exceeds_six_tenths(w, l), p_win(w as f64, l as f64) > 0.6);
            assert_eq!(p_win_exceeds_four_tenths(w, l), p_win(w as f64, l as f64) > 0.4);
        }
    }
}

#[test]
fn elo_extremes() {
    assert_eq!(calculate_new_elo(usize::MAX, 0).0, usize::MAX);
    assert_eq!(calculate_new_elo(1000, 5).1, 0);
    assert_eq!(calculate_new_elo(0, 0), (16, 0));
}

#[test]
fn sha256_known_value() {
    let d = sha256(b"abc");
    assert_eq!(d[..4], [0xba, 0x78, 0x16, 0xbf]);
    assert_ne!(d.to_vec(), b"abc".to_vec());
}

#[test]
fn keys_sign_and_verify() {
    let us = Us::new([42u8; 32]);
    assert_ne!(us.node.public_key, [42u8; 32]);
    let msg = sha256(b"message");
    let sig = us.sign(&msg);
    assert_eq!(sig.len(), 128);
    assert!(us.node.verify(&msg, &sig));
    assert!(!us.node.verify(&sha256(b"other"), &sig));
    assert!(!Node::new([1u8; 32]).verify(&msg, &sig));
}

#[test]
fn epoch_is_recent() {
    assert!(get_epoch() > 1_600_000_000);
}

#[test]
fn reactions() {
    assert_eq!(NetworkEvent::Ping(Ping {}).reaction(), Reaction::Send(NetworkEvent::Pong(Pong {})));
    assert_eq!(NetworkEvent::Pong(Pong {}).reaction(), Reaction::Send(NetworkEvent::CloseRequest(CloseRequest {})));
    assert_eq!(NetworkEvent::Heartbeat(Heartbeat {}).reaction(), Reaction::SendAfterPause(NetworkEvent::Heartbeat(Heartbeat {})));
    assert_eq!(
        NetworkEvent::CloseRequest(CloseRequest {}).reaction(),
        Reaction::SendThenAwaitClose(NetworkEvent::CloseResponse(CloseResponse {}))
    );
    assert_eq!(NetworkEvent::CloseResponse(CloseResponse {}).reaction(), Reaction::Close);
    assert!(NetworkEvent::CloseResponse(CloseResponse {}).ends_connection());
    assert!(!NetworkEvent::Ping(Ping {}).ends_connection());
}

#[test]
fn line_framing() {
    let framed = frame(b"{\"a\":1}");
    assert_eq!(framed, b"{\"a\":1}\n".to_vec());
    let mut buf = framed.clone();
    buf.extend_from_slice(b"rest");
    let (line, rest) = split_line(&buf).unwrap();
    assert_eq!(line, b"{\"a\":1}".to_vec());
    assert_eq!(rest, b"rest".to_vec());
    assert_eq!(split_line(&b"no newline".to_vec()), None);
}

#[test]
fn debug_bytes_escapes() {
    let bs = b"a\n\t\"\\'\x00\xff~";
    let expected: String = bs.iter().flat_map(|b| std::ascii::escape_default(*b)).map(|c| c as char).collect();
    assert_eq!(debug_bytes(bs), expected);
    assert_eq!(debug_bytes(b"ok\x01"), "ok\\x01");
}

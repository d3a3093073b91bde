use cricket::blessing::TrustRequest;
use cricket::db::NodeDB;
use cricket::{CoreError, IncomingPost, Node, RawPost, Us};

fn open_db() -> (tempfile::TempDir, NodeDB) {
    let dir = tempfile::TempDir::new().unwrap();
    let db = NodeDB::new(dir.path().to_str().unwrap(), None).unwrap();
    (dir, db)
}

fn authored(author: &Us, reader: &Us, content: &str) -> IncomingPost {
    let raw_post = RawPost::new(author.node, content.to_string());
    let signature = author.sign(&raw_post.get_id().raw.to_vec());
    IncomingPost::new(&raw_post, &vec![], &signature, reader).unwrap()
}

#[test]
fn check_seen() {
    let (_dir, mut db) = open_db();
    let us = db.get_identity().unwrap();
    let raw_post = RawPost::new(us.node, "".to_string());
    let signature = us.sign(&raw_post.get_id().raw.to_vec());
    let post = IncomingPost::new(&raw_post, &vec![], &signature, &us).unwrap();

    let _result = db.receive(&post).unwrap();
    let built_post = db.resolve(&post.get_id()).unwrap();

    assert_eq!(built_post, post);
}

#[test]
fn basic_scoring() {
    let (_dir, mut db) = open_db();
    let node = Node::new([0u8; 32]);
    assert_eq!(db.get_score(&node, 1200).unwrap(), 1200);
    db.set_score(&node, 1000).unwrap();
    assert_eq!(db.get_score(&node, 1200).unwrap(), 1000);
}

#[test]
fn promote_test() {
    let (_dir, mut db) = open_db();
    let us = db.get_identity().unwrap();
    let author = db.generate_identity().unwrap();
    let post = authored(&author, &us, "");

    assert_eq!(db.get_score(&us.node, 1200).unwrap(), 1200);
    assert_eq!(db.get_score(&author.node, 1200).unwrap(), 1200);

    db.receive(&post).unwrap();
    db.promote(&post.get_id()).unwrap();

    assert_eq!(db.get_score(&us.node, 1200).unwrap() < 1200, true);
    assert_eq!(db.get_score(&author.node, 1200).unwrap() > 1200, true);
}

#[test]
fn basic_trust_management() {
    let (_dir, mut db) = open_db();
    let node1 = Node::new([0u8; 32]);
    let node2 = Node::new([1u8; 32]);
    let node3 = Node::new([2u8; 32]);
    assert_eq!(db.is_trusted(&node1).unwrap(), false);
    db.trust(&node1).unwrap();
    assert_eq!(db.is_trusted(&node1).unwrap(), true);

    db.trust(&node2).unwrap();
    db.trust(&node3).unwrap();

    assert_eq!(db.is_trusted(&node3).unwrap(), true);
    db.untrust(&node3).unwrap();
    assert_eq!(db.is_trusted(&node3).unwrap(), false);
}

#[test]
fn trust_fetching() {
    let (_dir, mut db) = open_db();
    let node1 = Node::new([0u8; 32]);

    assert_eq!(db.get_trusted().unwrap().len(), 0);
    db.trust(&node1).unwrap();

    assert_eq!(db.num_trusted().unwrap(), 1);
    let trusted = db.get_trusted().unwrap();
    assert_eq!(trusted.last().unwrap(), &(node1, 1200 as usize));
}

#[test]
fn test_trust_request() {
    let (_d1, mut db1) = open_db();
    let node1 = db1.get_identity().unwrap();
    let (_d2, mut db2) = open_db();
    let node2 = db2.get_identity().unwrap();
    let (_d3, mut db3) = open_db();
    let node3 = db3.get_identity().unwrap();

    db1.trust(&node2.node).unwrap();
    db2.trust(&node3.node).unwrap();

    let post = authored(&node1, &node1, "");

    let out = db1.receive(&post).unwrap();
    let out_post = out.last().expect("author did not send any posts").clone();

    let in_post = IncomingPost::new(&out_post.post, &out_post.history, &out_post.signature, &node2).unwrap();
    let out = db2.receive(&in_post).unwrap();
    let out_post = out.last().expect("author did not send any posts").clone();

    let in_post = IncomingPost::new(&out_post.post, &out_post.history, &out_post.signature, &node3).unwrap();
    let _out = db3.receive(&in_post).unwrap();

    let blessing = db3.construct_blessing(&in_post).unwrap();

    assert_eq!(db1.is_trusted(&node3.node).unwrap(), false);
    db1.check_blessing(blessing, &node3.node).unwrap();
    assert_eq!(db1.is_trusted(&node3.node).unwrap(), true);
}

#[test]
fn dedup_single_node() {
    let (_dir, mut db) = open_db();
    let us = db.get_identity().unwrap();
    let post = authored(&us, &us, "");
    let id = post.get_id();
    let out = db.receive(&post).unwrap();
    assert!(out.is_empty());
    assert_eq!(db.has_seen(&us.node, &id).unwrap(), true);
    assert_eq!(db.search_posts(&None, 10).unwrap().len(), 1);
    assert_eq!(db.receive(&post), Err(CoreError::AlreadySeen));
    assert_eq!(db.search_posts(&None, 10).unwrap().len(), 1);
}

#[test]
fn receive_marks_history_and_peers() {
    let (_d1, mut db1) = open_db();
    let n1 = db1.get_identity().unwrap();
    let (_d2, mut db2) = open_db();
    let n2 = db2.get_identity().unwrap();
    let peer_a = Node::new([7u8; 32]);
    let peer_b = Node::new([8u8; 32]);
    db1.trust(&n2.node).unwrap();
    let post = authored(&n1, &n1, "hello");
    let out = db1.receive(&post).unwrap();
    let copy = out[0].clone();
    let in_post = IncomingPost::new(&copy.post, &copy.history, &copy.signature, &n2).unwrap();
    db2.trust(&peer_a).unwrap();
    db2.trust(&peer_b).unwrap();
    db2.trust(&n1.node).unwrap();
    let out = db2.receive(&in_post).unwrap();
    // n1 sent it to us, so only the two other peers get a copy
    assert_eq!(out.len(), 2);
    let id = in_post.get_id();
    assert!(db2.has_seen(&n1.node, &id).unwrap());
    assert!(db2.has_seen(&peer_a, &id).unwrap());
    assert!(db2.has_seen(&peer_b, &id).unwrap());
    let mut to: Vec<[u8; 32]> = out.iter().map(|o| o.history.last().unwrap().to.public_key).collect();
    to.sort();
    assert_eq!(to, vec![[7u8; 32], [8u8; 32]]);
    for o in &out {
        assert_eq!(o.history.len(), 2);
        assert_eq!(o.history[0], in_post.history[0]);
    }
}

#[test]
fn outgoing_copy_signed_by_us() {
    let (_dir, mut db) = open_db();
    let us = db.get_identity().unwrap();
    let peer = Node::new([9u8; 32]);
    db.trust(&peer).unwrap();
    let post = authored(&us, &us, "x");
    let id = post.get_id();
    let out = db.receive(&post).unwrap();
    assert_eq!(out.len(), 1);
    let hop = out[0].history.last().unwrap();
    assert_eq!(hop.from, us.node);
    assert_eq!(hop.to, peer);
    let msg = cricket::post::construct_path_msg(&id, &us.node, &peer);
    assert!(us.node.verify(&msg, &hop.signature));
    assert!(db.has_seen(&peer, &id).unwrap());
}

#[test]
fn forwarded_copy_verifies_at_recipient() {
    let (_d1, mut db1) = open_db();
    let n1 = db1.get_identity().unwrap();
    let (_d2, mut db2) = open_db();
    let n2 = db2.get_identity().unwrap();
    let n3 = db2.generate_identity().unwrap();
    db1.trust(&n2.node).unwrap();
    db2.trust(&n3.node).unwrap();
    let post = authored(&n1, &n1, "chain");
    let copy = db1.receive(&post).unwrap().pop().unwrap();
    let at2 = IncomingPost::new(&copy.post, &copy.history, &copy.signature, &n2).unwrap();
    let copy = db2.receive(&at2).unwrap().pop().unwrap();
    assert_eq!(copy.history.len(), 2);
    assert!(IncomingPost::new(&copy.post, &copy.history, &copy.signature, &n3).is_ok());
    // the copy is not addressed to anyone else
    assert_eq!(
        IncomingPost::new(&copy.post, &copy.history, &copy.signature, &n1),
        Err(CoreError::Malformed)
    );
}

#[test]
fn tampered_chain_rejected() {
    let (_d1, mut db1) = open_db();
    let n1 = db1.get_identity().unwrap();
    let n2 = db1.generate_identity().unwrap();
    let n3 = db1.generate_identity().unwrap();
    db1.trust(&n2.node).unwrap();
    let post = authored(&n1, &n1, "t");
    let copy = db1.receive(&post).unwrap().pop().unwrap();
    let mut history = copy.history.clone();
    let id = post.get_id();
    let msg = cricket::post::construct_path_msg(&id, &n3.node, &n2.node);
    history.push(cricket::Path { from: n3.node, to: n2.node, signature: n3.sign(&msg) });
    assert_eq!(
        IncomingPost::new(&copy.post, &history, &copy.signature, &n2),
        Err(CoreError::Malformed)
    );
}

#[test]
fn bad_author_signature_rejected() {
    let (_dir, db) = open_db();
    let us = db.get_identity().unwrap();
    let other = db.generate_identity().unwrap();
    let raw = RawPost::new(us.node, "mine".to_string());
    let signature = other.sign(&raw.get_id().raw.to_vec());
    assert_eq!(IncomingPost::new(&raw, &vec![], &signature, &us), Err(CoreError::Malformed));
    assert_eq!(IncomingPost::new(&raw, &vec![], &"zz".to_string(), &us), Err(CoreError::Malformed));
}

#[test]
fn elo_promote_moves_both() {
    let (_dir, mut db) = open_db();
    let us = db.get_identity().unwrap();
    let author = db.generate_identity().unwrap();
    let post = authored(&author, &us, "rate me");
    db.receive(&post).unwrap();
    assert_eq!(db.promote(&post.get_id()).unwrap(), None);
    let ours = db.get_score(&us.node, 1200).unwrap();
    let theirs = db.get_score(&author.node, 1200).unwrap();
    assert_eq!((ours, theirs), (1184, 1216));
    assert!(ours + theirs <= 2400 && ours + theirs >= 2398);
}

#[test]
fn self_promotion_rejected() {
    let (_dir, mut db) = open_db();
    let us = db.get_identity().unwrap();
    let post = authored(&us, &us, "me");
    db.receive(&post).unwrap();
    assert_eq!(db.promote(&post.get_id()), Err(CoreError::OwnPost));
    assert_eq!(db.get_score(&us.node, 1200).unwrap(), 1200);
}

#[test]
fn promote_unknown_post() {
    let (_dir, mut db) = open_db();
    let us = db.get_identity().unwrap();
    let post = authored(&us, &us, "never stored");
    assert_eq!(db.promote(&post.get_id()), Err(CoreError::UnknownPost));
}

#[test]
fn demote_untrusts_author() {
    let (_dir, mut db) = open_db();
    let us = db.get_identity().unwrap();
    let author = db.generate_identity().unwrap();
    db.trust(&us.node).unwrap();
    db.trust(&Node::new([3u8; 32])).unwrap();
    db.trust(&author.node).unwrap();
    let post = authored(&author, &us, "meh");
    db.receive(&post).unwrap();
    assert_eq!(db.demote(&post.get_id()).unwrap(), None);
    assert_eq!(db.get_score(&us.node, 1200).unwrap(), 1216);
    assert_eq!(db.get_score(&author.node, 1200).unwrap(), 1184);
    assert_eq!(db.is_trusted(&author.node).unwrap(), false);
}

#[test]
fn untrust_keeps_two() {
    let (_dir, mut db) = open_db();
    let a = Node::new([1u8; 32]);
    let b = Node::new([2u8; 32]);
    db.trust(&a).unwrap();
    db.trust(&b).unwrap();
    assert_eq!(db.untrust(&a), Err(CoreError::MinimumPeers));
    assert_eq!(db.num_trusted().unwrap(), 2);
    // an unknown peer is left alone
    assert_eq!(db.untrust(&Node::new([5u8; 32])), Ok(()));
    assert_eq!(db.num_trusted().unwrap(), 2);
}

#[test]
fn corrupt_score_is_store_error() {
    let dir = tempfile::TempDir::new().unwrap();
    let node = Node::new([4u8; 32]);
    {
        let store = sled::open(dir.path()).unwrap();
        let scores = store.open_tree("SCORE_TABLE").unwrap();
        scores.insert(&node.public_key, vec![1u8, 2, 3]).unwrap();
        store.flush().unwrap();
    }
    let db = NodeDB::new(dir.path().to_str().unwrap(), None).unwrap();
    assert_eq!(db.get_score(&node, 1200), Err(CoreError::StoreError));
}

#[test]
fn store_opened_once() {
    let (dir, _db) = open_db();
    assert!(NodeDB::new(dir.path().to_str().unwrap(), None).is_err());
}

#[test]
fn identity_persists() {
    let dir = tempfile::TempDir::new().unwrap();
    let path = dir.path().to_str().unwrap();
    let first = {
        let db = NodeDB::new(path, None).unwrap();
        db.get_identity().unwrap()
    };
    let db = NodeDB::new(path, None).unwrap();
    assert_eq!(db.get_identity().unwrap(), first);
    assert_eq!(Us::new(first.private_key), first);
}

#[test]
fn search_after_cursor() {
    let (_dir, mut db) = open_db();
    let us = db.get_identity().unwrap();
    let mut first = authored(&us, &us, "one");
    first.received = 100;
    let mut second = authored(&us, &us, "two");
    second.received = 200;
    db.receive(&first).unwrap();
    db.receive(&second).unwrap();
    let all = db.search_posts(&None, 10).unwrap();
    assert_eq!(all.len(), 2);
    assert!(all.iter().all(|(_, s)| *s == 1200));
    let later = db.search_posts(&Some(first.get_id()), 10).unwrap();
    assert_eq!(later.len(), 1);
    assert_eq!(later[0].0, second);
    assert_eq!(db.search_posts(&None, 1).unwrap().len(), 1);
    let unknown = authored(&us, &us, "three").get_id();
    assert_eq!(db.search_posts(&Some(unknown), 10), Err(CoreError::UnknownPost));
}

#[test]
fn send_post_fans_out() {
    let (_dir, mut db) = open_db();
    let us = db.get_identity().unwrap();
    let peer = Node::new([6u8; 32]);
    db.trust(&peer).unwrap();
    let out = db.send_post("hi".to_string()).unwrap();
    assert_eq!(out.len(), 1);
    assert_eq!(out[0].post.author, us.node);
    assert_eq!(out[0].post.content, "hi");
    assert_eq!(out[0].history.len(), 1);
}

#[test]
fn share_post_trusts_bootstrap_list() {
    let dir = tempfile::TempDir::new().unwrap();
    let boot = Node::new([11u8; 32]);
    let mut db = NodeDB::new(dir.path().to_str().unwrap(), Some(vec![boot])).unwrap();
    let us = db.get_identity().unwrap();
    let post = authored(&us, &us, "b");
    let out = db.share_post(&post).unwrap();
    assert!(db.is_trusted(&boot).unwrap());
    assert_eq!(out.len(), 1);
}

#[test]
fn share_post_on_bootstrap_trusts_sender() {
    let (_d1, mut db1) = open_db();
    let n1 = db1.get_identity().unwrap();
    let (_d2, mut db2) = open_db();
    let n2 = db2.get_identity().unwrap();
    db1.trust(&n2.node).unwrap();
    let post = authored(&n1, &n1, "boot");
    let copy = db1.receive(&post).unwrap().pop().unwrap();
    assert_eq!(db2.handle_post(&copy).unwrap().len(), 0);
    assert!(db2.is_trusted(&n1.node).unwrap());
    let mut forged = copy.clone();
    forged.signature = n2.sign(&[0u8; 32]);
    assert_eq!(db2.handle_post(&forged), Err(CoreError::Malformed));
}

fn chain_to_three() -> (
    Vec<(tempfile::TempDir, NodeDB)>,
    Vec<Us>,
    IncomingPost,
) {
    let mut dbs = vec![open_db(), open_db(), open_db()];
    let ids: Vec<Us> = dbs.iter().map(|(_, d)| d.get_identity().unwrap()).collect();
    dbs[0].1.trust(&ids[1].node).unwrap();
    dbs[1].1.trust(&ids[2].node).unwrap();
    let post = authored(&ids[0], &ids[0], "");
    let c = dbs[0].1.receive(&post).unwrap().pop().unwrap();
    let at_two = IncomingPost::new(&c.post, &c.history, &c.signature, &ids[1]).unwrap();
    let c = dbs[1].1.receive(&at_two).unwrap().pop().unwrap();
    let at_three = IncomingPost::new(&c.post, &c.history, &c.signature, &ids[2]).unwrap();
    dbs[2].1.receive(&at_three).unwrap();
    (dbs, ids, at_three)
}

#[test]
fn blessing_fields() {
    let (dbs, ids, at_three) = chain_to_three();
    let blessing = dbs[2].1.construct_blessing(&at_three).unwrap();
    assert_eq!(blessing.recipient, ids[0].node);
    assert_eq!(blessing.intermediate, ids[1].node);
    assert_eq!(blessing.post, at_three.get_id());
    assert_eq!(blessing.signature, at_three.history[1].signature);
}

#[test]
fn blessing_errors() {
    let (mut dbs, ids, at_three) = chain_to_three();
    let short = dbs[1].1.resolve(&at_three.get_id()).unwrap();
    assert_eq!(dbs[1].1.construct_blessing(&short), Err(CoreError::ShortHistory));
    let blessing = dbs[2].1.construct_blessing(&at_three).unwrap();
    dbs[2].1.trust(&ids[0].node).unwrap();
    assert_eq!(dbs[2].1.construct_blessing(&at_three), Err(CoreError::AlreadyTrusted));

    let db1 = &mut dbs[0].1;
    assert_eq!(db1.check_blessing(blessing.clone(), &ids[0].node), Err(CoreError::SelfBlessing));
    let mut b = blessing.clone();
    b.intermediate = ids[0].node;
    assert_eq!(db1.check_blessing(b, &ids[2].node), Err(CoreError::IntermediateIsUs));
    let mut b = blessing.clone();
    b.intermediate = Node::new([1u8; 32]);
    assert_eq!(db1.check_blessing(b, &ids[2].node), Err(CoreError::NotTrusted));
    let mut b = blessing.clone();
    b.post = authored(&ids[0], &ids[0], "other").get_id();
    assert_eq!(db1.check_blessing(b, &ids[2].node), Err(CoreError::UnknownPost));
    let stranger = Node::new([2u8; 32]);
    assert_eq!(db1.check_blessing(blessing.clone(), &stranger), Err(CoreError::Malformed));
    assert_eq!(db1.is_trusted(&ids[2].node).unwrap(), false);
}

#[test]
fn blessing_not_forwarded() {
    let (mut dbs, ids, at_three) = chain_to_three();
    let blessing: TrustRequest = dbs[2].1.construct_blessing(&at_three).unwrap();
    let other = Node::new([12u8; 32]);
    let db1 = &mut dbs[0].1;
    db1.trust(&other).unwrap();
    let mut b = blessing.clone();
    b.intermediate = other;
    assert_eq!(db1.check_blessing(b, &ids[2].node), Err(CoreError::NotForwarded));
}

#[test]
fn blessing_quota() {
    let mut dbs = vec![open_db(), open_db(), open_db(), open_db()];
    let ids: Vec<Us> = dbs.iter().map(|(_, d)| d.get_identity().unwrap()).collect();
    let low = Node::new([20u8; 32]);
    let mid = Node::new([21u8; 32]);
    {
        let db1 = &mut dbs[0].1;
        db1.max_peers = 2;
        db1.trust(&ids[1].node).unwrap();
        db1.trust(&low).unwrap();
        db1.trust(&mid).unwrap();
        db1.set_score(&low, 1000).unwrap();
        db1.set_score(&mid, 1100).unwrap();
        db1.set_score(&ids[2].node, 1050).unwrap();
        db1.set_score(&ids[3].node, 1500).unwrap();
    }
    dbs[1].1.trust(&ids[2].node).unwrap();
    dbs[1].1.trust(&ids[3].node).unwrap();
    let post = authored(&ids[0], &ids[0], "q");
    let out = dbs[0].1.receive(&post).unwrap();
    let c = out.into_iter().find(|o| o.history.last().unwrap().to == ids[1].node).unwrap();
    let at_two = IncomingPost::new(&c.post, &c.history, &c.signature, &ids[1]).unwrap();
    let outs = dbs[1].1.receive(&at_two).unwrap();
    let mut blessings = vec![];
    for k in [2usize, 3] {
        let c = outs.iter().find(|o| o.history.last().unwrap().to == ids[k].node).unwrap().clone();
        let p = IncomingPost::new(&c.post, &c.history, &c.signature, &ids[k]).unwrap();
        dbs[k].1.receive(&p).unwrap();
        blessings.push(dbs[k].1.construct_blessing(&p).unwrap());
    }
    let db1 = &mut dbs[0].1;
    // a candidate rated at or below every member is refused
    db1.set_score(&ids[2].node, 900).unwrap();
    assert_eq!(db1.check_blessing(blessings[0].clone(), &ids[2].node), Err(CoreError::QuotaFull));
    assert_eq!(db1.num_trusted().unwrap(), 3);
    // rated 1050, it evicts the 1000 peer but is not admitted
    db1.set_score(&ids[2].node, 1050).unwrap();
    assert_eq!(db1.check_blessing(blessings[0].clone(), &ids[2].node), Ok(()));
    assert_eq!(db1.is_trusted(&low).unwrap(), false);
    assert_eq!(db1.is_trusted(&ids[2].node).unwrap(), false);
    assert_eq!(db1.num_trusted().unwrap(), 2);
    // now there is room: the 1500 peer is admitted
    assert_eq!(db1.check_blessing(blessings[1].clone(), &ids[3].node), Ok(()));
    assert_eq!(db1.is_trusted(&ids[3].node).unwrap(), true);
}

#[test]
fn corrupt_record_is_reported() {
    let dir = tempfile::TempDir::new().unwrap();
    let id = cricket::PostId { raw: [9u8; 32] };
    {
        let store = sled::open(dir.path()).unwrap();
        let posts = store.open_tree("POSTS_TABLE").unwrap();
        posts.insert(&id.raw, vec![1u8, 2, 3]).unwrap();
        store.flush().unwrap();
    }
    let mut db = NodeDB::new(dir.path().to_str().unwrap(), None).unwrap();
    assert_eq!(db.resolve(&id), Err(CoreError::CorruptRecord));
    assert_eq!(db.promote(&id), Err(CoreError::CorruptRecord));
}

#[test]
fn received_post_reads_back() {
    let (_dir, mut db) = open_db();
    let us = db.get_identity().unwrap();
    let author = db.generate_identity().unwrap();
    let post = authored(&author, &us, "read me back");
    db.receive(&post).unwrap();
    assert_eq!(db.resolve(&post.get_id()), Ok(post.clone()));
    assert_eq!(db.promote(&post.get_id()), Ok(None));
}

//! Listing stored posts newer than a cursor, and the two ways a post enters
//! the engine: authored here, or handed over by a peer.

use vstd::prelude::*;

use crate::db::{NodeDB, DEFAULT_SCORE};
use crate::error::CoreError;
use crate::post::{IncomingPost, PostId};
use crate::record::{decode_incoming, incoming_bytes};

verus! {

/// `t` is the arrival time of the cursor post `after`, or 0 without one.
pub open spec fn cursor_time(db: NodeDB, after: Option<PostId>, t: nat) -> bool {
    match after {
        None => t == 0,
        Some(id) => exists|a: IncomingPost| {
            &&& db.posts_table().contains_key(id.raw@)
            &&& #[trigger] incoming_bytes(a) == db.posts_table()[id.raw@]
            &&& t == a.received
        },
    }
}

/// `ks` are distinct keys of the post store, and the `a`-th entry of `r`
/// is the post stored under the `a`-th key.
pub open spec fn keyed_by(db: NodeDB, ks: Seq<Seq<u8>>, r: Seq<(IncomingPost, usize)>) -> bool {
    &&& ks.len() == r.len()
    &&& forall|a: int, b: int| 0 <= a < b < ks.len() ==> ks[a] != ks[b]
    &&& forall|a: int| 0 <= a < ks.len() ==> db.posts_table().contains_key(#[trigger] ks[a])
        && db.posts_table()[ks[a]] == incoming_bytes(r[a].0)
}

/// `r` holds at most `max` stored posts that arrived after `t`, each with
/// its author's rating; when it holds fewer, every stored post that arrived
/// after `t` is in it.
pub open spec fn search_result(db: NodeDB, t: nat, max: nat, r: Seq<(IncomingPost, usize)>) -> bool {
    &&& r.len() <= max
    &&& exists|ks: Seq<Seq<u8>>| #[trigger] keyed_by(db, ks, r)
    &&& forall|i: int| 0 <= i < r.len() ==> (#[trigger] r[i]).0.received > t
    &&& forall|i: int| 0 <= i < r.len() ==> (#[trigger] r[i]).1 == db.score_spec(r[i].0.post.author.public_key@, DEFAULT_SCORE as nat)
    &&& r.len() < max ==> forall|k: Seq<u8>| #[trigger] db.posts_table().contains_key(k) ==> exists|q: IncomingPost| {
        &&& #[trigger] incoming_bytes(q) == db.posts_table()[k]
        &&& (q.received <= t || exists|i: int| 0 <= i < r.len() && r[i].0 == q)
    }
}

impl NodeDB {
    /// Up to `max_results` stored posts that arrived after the cursor post
    /// `after` (after time 0 without one), each with its author's rating.
    /// Fails with `UnknownPost` when the cursor post is not stored.
    pub fn search_posts(&self, after: &Option<PostId>, max_results: usize) -> (r: Result<Vec<(IncomingPost, usize)>, CoreError>)
        ensures
            r matches Ok(v) ==> exists|t: nat| cursor_time(*self, *after, t) && search_result(*self, t, max_results as nat, v@),
            after matches Some(id) && !self.posts_table().contains_key(id.raw@) ==> r is Err,
            after matches Some(id) && !self.posts_table().contains_key(id.raw@) ==> r == Err::<Vec<(IncomingPost, usize)>, CoreError>(CoreError::UnknownPost)
                || r == Err::<Vec<(IncomingPost, usize)>, CoreError>(CoreError::StoreError),
    {
        let after_time: u64 = match after {
            Some(id) => self.resolve(id)?.received,
            None => 0,
        };
        let keys = self.post_keys()?;
        let n = keys.len();
        let mut out: Vec<(IncomingPost, usize)> = Vec::new();
        let ghost mut srcs: Seq<int> = Seq::empty();
        let mut i: usize = 0;
        while i < n
            invariant
                i <= n,
                n == keys@.len(),
                forall|j: int| 0 <= j < n ==> self.posts_table().contains_key(#[trigger] keys@[j]@),
                forall|k: Seq<u8>| self.posts_table().contains_key(k) ==> exists|j: int| 0 <= j < keys@.len() && #[trigger] keys@[j]@ == k,
                out@.len() <= max_results,
                srcs.len() == out@.len(),
                forall|a: int| 0 <= a < srcs.len() ==> 0 <= #[trigger] srcs[a] < i,
                forall|a: int, b: int| 0 <= a < b < srcs.len() ==> srcs[a] < srcs[b],
                forall|j: int, l: int| 0 <= j < l < n ==> keys@[j]@ != keys@[l]@,
                forall|a: int| 0 <= a < srcs.len() ==> self.posts_table()[keys@[#[trigger] srcs[a]]@] == incoming_bytes(out@[a].0),
                forall|a: int| 0 <= a < out@.len() ==> (#[trigger] out@[a]).0.received > after_time,
                forall|a: int| 0 <= a < out@.len() ==> (#[trigger] out@[a]).1 == self.score_spec(out@[a].0.post.author.public_key@, DEFAULT_SCORE as nat),
                out@.len() < max_results ==> forall|j: int| #![trigger keys@[j]] 0 <= j < i ==> exists|q: IncomingPost| {
                    &&& #[trigger] incoming_bytes(q) == self.posts_table()[keys@[j]@]
                    &&& (q.received <= after_time || exists|a: int| 0 <= a < out@.len() && out@[a].0 == q)
                },
            decreases n - i,
        {
            if out.len() < max_results {
                let bytes = match self.post_record(keys[i].as_slice()) {
                    Ok(Some(b)) => b,
                    _ => return Err(CoreError::StoreError),
                };
                let post = match decode_incoming(bytes.as_slice()) {
                    Some(p) => p,
                    None => return Err(CoreError::StoreError),
                };
                let ghost before = out@;
                if post.received > after_time {
                    let score = self.get_score(&post.post.author, DEFAULT_SCORE)?;
                    out.push((post, score));
                    proof {
                        assert(self.posts_table().contains_key(keys@[i as int]@));
                        if out@.len() < max_results {
                            assert forall|j: int| #![trigger keys@[j]] 0 <= j < i + 1 implies exists|q: IncomingPost| {
                                &&& #[trigger] incoming_bytes(q) == self.posts_table()[keys@[j]@]
                                &&& (q.received <= after_time || exists|a: int| 0 <= a < out@.len() && out@[a].0 == q)
                            } by {
                                if j < i {
                                    let q = choose|q: IncomingPost| {
                                        &&& #[trigger] incoming_bytes(q) == self.posts_table()[keys@[j]@]
                                        &&& (q.received <= after_time || exists|a: int| 0 <= a < before.len() && before[a].0 == q)
                                    };
                                    if q.received > after_time {
                                        let a = choose|a: int| 0 <= a < before.len() && before[a].0 == q;
                                        assert(out@[a].0 == q);
                                    }
                                } else {
                                    assert(out@[out@.len() - 1].0 == post);
                                }
                            }
                        }
                        srcs = srcs.push(i as int);
                    }
                } else {
                    proof {
                        assert forall|j: int| #![trigger keys@[j]] 0 <= j < i + 1 implies exists|q: IncomingPost| {
                            &&& #[trigger] incoming_bytes(q) == self.posts_table()[keys@[j]@]
                            &&& (q.received <= after_time || exists|a: int| 0 <= a < out@.len() && out@[a].0 == q)
                        } by {
                            if j == i {
                                assert(incoming_bytes(post) == self.posts_table()[keys@[j]@]);
                            }
                        }
                    }
                }
            }
            i = i + 1;
        }
        proof {
            assert(cursor_time(*self, *after, after_time as nat));
            if out@.len() < max_results {
                assert forall|k: Seq<u8>| #[trigger] self.posts_table().contains_key(k) implies exists|q: IncomingPost| {
                    &&& #[trigger] incoming_bytes(q) == self.posts_table()[k]
                    &&& (q.received <= after_time || exists|a: int| 0 <= a < out@.len() && out@[a].0 == q)
                } by {
                    let j = choose|j: int| 0 <= j < keys@.len() && #[trigger] keys@[j]@ == k;
                    assert(0 <= j < n);
                }
            }
            let ks = Seq::new(srcs.len(), |a: int| keys@[srcs[a]]@);
            assert forall|a: int, b: int| 0 <= a < b < ks.len() implies ks[a] != ks[b] by {
                assert(srcs[a] < srcs[b]);
            }
            assert forall|a: int| 0 <= a < ks.len() implies self.posts_table().contains_key(#[trigger] ks[a])
                && self.posts_table()[ks[a]] == incoming_bytes(out@[a].0) by {
                assert(0 <= srcs[a] < n);
            }
            assert(ks.len() == out@.len());
            assert(keyed_by(*self, ks, out@));
            assert(search_result(*self, after_time as nat, max_results as nat, out@));
        }
        Ok(out)
    }
}

} // verus!

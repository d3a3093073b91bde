//! The scoring engine: a user's promote or demote of a post is a game
//! between us and the post's author, and its outcome may recommend trusting
//! or distrusting the author.

use vstd::prelude::*;

use crate::blessing::{blessing_of, TrustRequest};
use crate::bytes::{le_bytes, same_key};
use crate::db::{NodeDB, DEFAULT_SCORE};
use crate::elo::{
    calculate_new_elo, elo_loser, elo_winner, exceeds_four_tenths, exceeds_six_tenths,
    p_win_exceeds_four_tenths, p_win_exceeds_six_tenths,
};
use crate::error::CoreError;
use crate::post::{IncomingPost, PostId};
use crate::record::incoming_bytes;
use crate::store::table_of;

verus! {

/// What a rating update suggests doing about the author.
#[derive(Debug, Clone, PartialEq, Eq)]
pub enum RecommendedAction {
    /// Ask the author's predecessor to trust us, with this blessing.
    Trust(TrustRequest),
    /// Stop trusting the author.
    Distrust,
}

/// Our rating and the author's after one game: we win when `promote_us`,
/// the author wins otherwise.
pub open spec fn rated(db: NodeDB, promote_us: bool, author: Seq<u8>) -> (nat, nat) {
    let our = db.score_spec(db.us.node.public_key@, DEFAULT_SCORE as nat);
    let their = db.score_spec(author, DEFAULT_SCORE as nat);
    if promote_us {
        (elo_winner(our, their), elo_loser(our, their))
    } else {
        (elo_loser(their, our), elo_winner(their, our))
    }
}

/// The score table after the game: both new ratings stored.
pub open spec fn scores_after(before: NodeDB, after: NodeDB, promote_us: bool, author: Seq<u8>) -> bool {
    let (our, their) = rated(before, promote_us, author);
    after.score_table() == before.score_table().insert(
        before.us.node.public_key@,
        le_bytes(our, 8),
    ).insert(author, le_bytes(their, 8))
}

/// The action recommended once the ratings are `our` and `their`: trust when
/// the author's win probability exceeds 0.6, else distrust when it exceeds
/// 0.4, else nothing.
pub open spec fn recommendation_fits(a: Option<RecommendedAction>, post: IncomingPost, our: nat, their: nat) -> bool {
    if exceeds_six_tenths(their as int, our as int) {
        a matches Some(RecommendedAction::Trust(b)) && blessing_of(b, post)
    } else if exceeds_four_tenths(their as int, our as int) {
        a == Some(RecommendedAction::Distrust)
    } else {
        a is None
    }
}

impl NodeDB {
    /// Rates a game between us and the author of `post` and stores both new
    /// ratings. Fails with `OwnPost`, changing nothing, when we wrote the
    /// post. When the author's win probability then exceeds 0.6 the result
    /// carries the blessing for `post` (and the failure to build it, if that
    /// fails); above 0.4 it recommends distrust.
    pub fn update_scores(&mut self, promote_us: bool, post: &IncomingPost) -> (r: Result<Option<RecommendedAction>, CoreError>)
        ensures
            final(self).same_except_scores(old(self)),
            r == Err::<Option<RecommendedAction>, CoreError>(CoreError::OwnPost) <==> post.post.author.public_key@
                == old(self).us.node.public_key@,
            r == Err::<Option<RecommendedAction>, CoreError>(CoreError::OwnPost) ==> final(self).score_table()
                == old(self).score_table(),
            r is Ok || r == Err::<Option<RecommendedAction>, CoreError>(CoreError::ShortHistory) || r
                == Err::<Option<RecommendedAction>, CoreError>(CoreError::AlreadyTrusted) ==> scores_after(
                *old(self),
                *final(self),
                promote_us,
                post.post.author.public_key@,
            ),
            r matches Ok(a) ==> ({
                let (our, their) = rated(*old(self), promote_us, post.post.author.public_key@);
                recommendation_fits(a, *post, our, their)
            }),
            r == Err::<Option<RecommendedAction>, CoreError>(CoreError::ShortHistory) || r == Err::<
                Option<RecommendedAction>,
                CoreError,
            >(CoreError::AlreadyTrusted) ==> ({
                let (our, their) = rated(*old(self), promote_us, post.post.author.public_key@);
                exceeds_six_tenths(their as int, our as int)
            }),
            r matches Ok(Some(RecommendedAction::Trust(_))) ==> post.history@.len() >= 2 && !old(self).trust_set().contains(
                post.history@[post.history@.len() - 2].from.public_key@,
            ),
            r == Err::<Option<RecommendedAction>, CoreError>(CoreError::AlreadyTrusted) ==> post.history@.len() >= 2 && old(self).trust_set().contains(
                post.history@[post.history@.len() - 2].from.public_key@,
            ),
            r == Err::<Option<RecommendedAction>, CoreError>(CoreError::ShortHistory) ==> post.history@.len() < 2,
            r is Err ==> r == Err::<Option<RecommendedAction>, CoreError>(CoreError::OwnPost) || r == Err::<
                Option<RecommendedAction>,
                CoreError,
            >(CoreError::ShortHistory) || r == Err::<Option<RecommendedAction>, CoreError>(
                CoreError::AlreadyTrusted,
            ) || r == Err::<Option<RecommendedAction>, CoreError>(CoreError::StoreError),
    {
        let us = self.us;
        let author = post.post.author;
        if same_key(&author.public_key, &us.node.public_key) {
            return Err(CoreError::OwnPost);
        }
        let mut our_score = self.get_score(&us.node, DEFAULT_SCORE)?;
        let mut their_score = self.get_score(&author, DEFAULT_SCORE)?;
        if promote_us {
            let (o, t) = calculate_new_elo(our_score, their_score);
            our_score = o;
            their_score = t;
        } else {
            let (t, o) = calculate_new_elo(their_score, our_score);
            our_score = o;
            their_score = t;
        }
        self.set_score(&us.node, our_score)?;
        self.set_score(&author, their_score)?;
        if p_win_exceeds_six_tenths(their_score, our_score) {
            let blessing = self.construct_blessing(post)?;
            return Ok(Some(RecommendedAction::Trust(blessing)));
        }
        if p_win_exceeds_four_tenths(their_score, our_score) {
            return Ok(Some(RecommendedAction::Distrust));
        }
        Ok(None)
    }

    /// The user liked the post `post_id`: its author wins a game against us.
    /// Returns the blessing when one is recommended; any other
    /// recommendation is dropped.
    pub fn promote(&mut self, post_id: &PostId) -> (r: Result<Option<TrustRequest>, CoreError>)
        ensures
            final(self).same_except_scores(old(self)),
            r != Err::<Option<TrustRequest>, CoreError>(CoreError::StoreError) ==> (r == Err::<Option<TrustRequest>, CoreError>(CoreError::UnknownPost) <==> !old(self).posts_table().contains_key(post_id.raw@)),
            r == Err::<Option<TrustRequest>, CoreError>(CoreError::UnknownPost) || r == Err::<Option<TrustRequest>, CoreError>(CoreError::CorruptRecord) || r == Err::<Option<TrustRequest>, CoreError>(CoreError::OwnPost) ==> final(self).score_table() == old(self).score_table(),
            forall|q: IncomingPost| old(self).posts_table().contains_key(post_id.raw@) && #[trigger] incoming_bytes(q) == old(self).posts_table()[post_id.raw@]
                && q.post.author.public_key@ != old(self).us.node.public_key@ ==> r is Ok || r == Err::<Option<TrustRequest>, CoreError>(CoreError::StoreError)
                || r == Err::<Option<TrustRequest>, CoreError>(CoreError::ShortHistory) || r == Err::<Option<TrustRequest>, CoreError>(CoreError::AlreadyTrusted),
            r is Err ==> r == Err::<Option<TrustRequest>, CoreError>(CoreError::UnknownPost) || r == Err::<Option<TrustRequest>, CoreError>(CoreError::CorruptRecord) || r == Err::<Option<TrustRequest>, CoreError>(CoreError::OwnPost)
                || r == Err::<Option<TrustRequest>, CoreError>(CoreError::ShortHistory) || r == Err::<Option<TrustRequest>, CoreError>(CoreError::AlreadyTrusted) || r == Err::<Option<TrustRequest>, CoreError>(CoreError::StoreError),
            !old(self).posts_table().contains_key(post_id.raw@) ==> r is Err,
            r is Ok ==> exists|p: IncomingPost| {
                &&& old(self).posts_table().contains_key(post_id.raw@)
                &&& #[trigger] incoming_bytes(p) == old(self).posts_table()[post_id.raw@]
                &&& p.post.author.public_key@ != old(self).us.node.public_key@
                &&& scores_after(*old(self), *final(self), false, p.post.author.public_key@)
                &&& ({
                    let (our, their) = rated(*old(self), false, p.post.author.public_key@);
                    &&& r matches Ok(Some(b)) ==> exceeds_six_tenths(their as int, our as int) && blessing_of(b, p)
                    &&& r matches Ok(None) ==> !exceeds_six_tenths(their as int, our as int)
                })
            },
    {
        let post = self.resolve(post_id)?;
        let action = self.update_scores(false, &post)?;
        match action {
            Some(RecommendedAction::Trust(blessing)) => Ok(Some(blessing)),
            _ => Ok(None),
        }
    }

    /// The user disliked the post `post_id`: we win a game against its
    /// author, and when distrust is recommended the author is removed from
    /// the trust set.
    pub fn demote(&mut self, post_id: &PostId) -> (r: Result<Option<TrustRequest>, CoreError>)
        ensures
            final(self).us == old(self).us,
            final(self).posts_table() == old(self).posts_table(),
            final(self).seen_table() == old(self).seen_table(),
            final(self).max_peers == old(self).max_peers,
            r != Err::<Option<TrustRequest>, CoreError>(CoreError::StoreError) ==> (r == Err::<Option<TrustRequest>, CoreError>(CoreError::UnknownPost) <==> !old(self).posts_table().contains_key(post_id.raw@)),
            r == Err::<Option<TrustRequest>, CoreError>(CoreError::UnknownPost) || r == Err::<Option<TrustRequest>, CoreError>(CoreError::CorruptRecord) || r == Err::<Option<TrustRequest>, CoreError>(CoreError::OwnPost) ==> final(self).score_table() == old(self).score_table(),
            forall|q: IncomingPost| old(self).posts_table().contains_key(post_id.raw@) && #[trigger] incoming_bytes(q) == old(self).posts_table()[post_id.raw@]
                && q.post.author.public_key@ != old(self).us.node.public_key@ ==> r is Ok || r == Err::<Option<TrustRequest>, CoreError>(CoreError::StoreError)
                || r == Err::<Option<TrustRequest>, CoreError>(CoreError::ShortHistory) || r == Err::<Option<TrustRequest>, CoreError>(CoreError::AlreadyTrusted) || r == Err::<Option<TrustRequest>, CoreError>(CoreError::MinimumPeers),
            r is Err ==> r == Err::<Option<TrustRequest>, CoreError>(CoreError::UnknownPost) || r == Err::<Option<TrustRequest>, CoreError>(CoreError::CorruptRecord) || r == Err::<Option<TrustRequest>, CoreError>(CoreError::OwnPost)
                || r == Err::<Option<TrustRequest>, CoreError>(CoreError::ShortHistory) || r == Err::<Option<TrustRequest>, CoreError>(CoreError::AlreadyTrusted) || r == Err::<Option<TrustRequest>, CoreError>(CoreError::StoreError) || r == Err::<Option<TrustRequest>, CoreError>(CoreError::MinimumPeers),
            r == Err::<Option<TrustRequest>, CoreError>(CoreError::MinimumPeers) ==> final(self).trust_table() == old(self).trust_table() && exists|p: IncomingPost| {
                &&& old(self).posts_table().contains_key(post_id.raw@)
                &&& #[trigger] incoming_bytes(p) == old(self).posts_table()[post_id.raw@]
                &&& scores_after(*old(self), *final(self), true, p.post.author.public_key@)
            },
            r == Err::<Option<TrustRequest>, CoreError>(CoreError::UnknownPost) || r == Err::<Option<TrustRequest>, CoreError>(CoreError::CorruptRecord) || r == Err::<Option<TrustRequest>, CoreError>(CoreError::OwnPost) ==> final(self).trust_table() == old(self).trust_table(),
            !old(self).posts_table().contains_key(post_id.raw@) ==> r is Err,
            r is Ok ==> r == Ok::<Option<TrustRequest>, CoreError>(None),
            r is Ok ==> exists|p: IncomingPost| {
                &&& old(self).posts_table().contains_key(post_id.raw@)
                &&& #[trigger] incoming_bytes(p) == old(self).posts_table()[post_id.raw@]
                &&& p.post.author.public_key@ != old(self).us.node.public_key@
                &&& scores_after(*old(self), *final(self), true, p.post.author.public_key@)
                &&& ({
                    let (our, their) = rated(*old(self), true, p.post.author.public_key@);
                    let distrust = !exceeds_six_tenths(their as int, our as int)
                        && exceeds_four_tenths(their as int, our as int);
                    &&& distrust ==> final(self).trust_set() == old(self).trust_set().remove(
                        p.post.author.public_key@,
                    )
                    &&& !distrust ==> final(self).trust_table() == old(self).trust_table()
                })
            },
    {
        let post = self.resolve(post_id)?;
        let action = self.update_scores(true, &post)?;
        match action {
            Some(RecommendedAction::Distrust) => {
                self.untrust(&post.post.author)?;
                proof {
                    assert(self.trust_set() =~= old(self).trust_set().remove(post.post.author.public_key@));
                }
            },
            _ => {},
        }
        Ok(None)
    }
}

} // verus!

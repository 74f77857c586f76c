//! The store of ratings and of the comments on them.
//!
//! Ratings and comments are never removed. They are archived: a time of
//! archiving is set, and stays. A rating takes its comments with it.

use crate::entities::{Comment, CommentView, Rating, RatingView, Timestamp};
use crate::error::{ErrorKind, RepoError};
use crate::store::{
    comments_wf, has_place, has_rating, ratings_wf, slice_contains, Store, StoreView,
};
use crate::store_users::duplicate_key;
use vstd::prelude::*;

verus! {

/// Whether a comment with the given identifier is stored.
pub open spec fn has_comment(comments: Seq<CommentView>, uid: Seq<char>) -> bool {
    exists|i: int| 0 <= i < comments.len() && (#[trigger] comments[i]).uid == uid
}

/// The rating with the given identifier.
pub open spec fn rating_of(ratings: Seq<RatingView>, uid: Seq<char>) -> RatingView {
    ratings[choose|i: int| 0 <= i < ratings.len() && (#[trigger] ratings[i]).uid == uid]
}

/// The rating with an identifier is the one that has it.
pub proof fn lemma_rating_of(ratings: Seq<RatingView>, uid: Seq<char>, i: int)
    requires
        ratings_wf(ratings),
        0 <= i < ratings.len(),
        ratings[i].uid == uid,
    ensures
        rating_of(ratings, uid) == ratings[i],
{
    let j = choose|j: int| 0 <= j < ratings.len() && (#[trigger] ratings[j]).uid == uid;
    if j < i {
        assert(ratings[j].uid != ratings[i].uid);
    } else if i < j {
        assert(ratings[i].uid != ratings[j].uid);
    }
}

/// A rating that is named and not archived yet.
pub open spec fn rating_hit(rating: RatingView, uids: Seq<Seq<char>>) -> bool {
    rating.archived_at is None && uids.contains(rating.uid)
}

/// A rating of a named place that is not archived yet.
pub open spec fn rating_of_places_hit(rating: RatingView, place_uids: Seq<Seq<char>>) -> bool {
    rating.archived_at is None && place_uids.contains(rating.place_uid)
}

/// A comment that is named and not archived yet.
pub open spec fn comment_hit(comment: CommentView, uids: Seq<Seq<char>>) -> bool {
    comment.archived_at is None && uids.contains(comment.uid)
}

/// A comment on a named rating that is not archived yet.
pub open spec fn comment_of_ratings_hit(comment: CommentView, rating_uids: Seq<Seq<char>>) -> bool {
    comment.archived_at is None && rating_uids.contains(comment.rating_uid)
}

/// Whether the rating with the given identifier is a rating of one of the
/// named places.
pub open spec fn rating_in_places(
    ratings: Seq<RatingView>,
    rating_uid: Seq<char>,
    place_uids: Seq<Seq<char>>,
) -> bool {
    exists|i: int|
        0 <= i < ratings.len() && (#[trigger] ratings[i]).uid == rating_uid && place_uids.contains(
            ratings[i].place_uid,
        )
}

/// A comment on a rating of a named place that is not archived yet.
pub open spec fn comment_of_places_hit(
    ratings: Seq<RatingView>,
    comment: CommentView,
    place_uids: Seq<Seq<char>>,
) -> bool {
    comment.archived_at is None && rating_in_places(ratings, comment.rating_uid, place_uids)
}

pub open spec fn archived_rating(rating: RatingView, at: Timestamp) -> RatingView {
    RatingView { archived_at: Some(at), ..rating }
}

pub open spec fn archived_comment(comment: CommentView, at: Timestamp) -> CommentView {
    CommentView { archived_at: Some(at), ..comment }
}

/// The ratings with those archived that are named and were not archived.
pub open spec fn ratings_archived(ratings: Seq<RatingView>, uids: Seq<Seq<char>>, at: Timestamp) -> Seq<
    RatingView,
> {
    Seq::new(
        ratings.len(),
        |i: int|
            if rating_hit(ratings[i], uids) {
                archived_rating(ratings[i], at)
            } else {
                ratings[i]
            },
    )
}

/// The ratings with those archived that are ratings of a named place and
/// were not archived.
pub open spec fn ratings_of_places_archived(
    ratings: Seq<RatingView>,
    place_uids: Seq<Seq<char>>,
    at: Timestamp,
) -> Seq<RatingView> {
    Seq::new(
        ratings.len(),
        |i: int|
            if rating_of_places_hit(ratings[i], place_uids) {
                archived_rating(ratings[i], at)
            } else {
                ratings[i]
            },
    )
}

/// The comments with those archived that are named and were not archived.
pub open spec fn comments_archived(comments: Seq<CommentView>, uids: Seq<Seq<char>>, at: Timestamp) -> Seq<
    CommentView,
> {
    Seq::new(
        comments.len(),
        |i: int|
            if comment_hit(comments[i], uids) {
                archived_comment(comments[i], at)
            } else {
                comments[i]
            },
    )
}

/// The comments with those archived that are comments on a named rating
/// and were not archived.
pub open spec fn comments_of_ratings_archived(
    comments: Seq<CommentView>,
    rating_uids: Seq<Seq<char>>,
    at: Timestamp,
) -> Seq<CommentView> {
    Seq::new(
        comments.len(),
        |i: int|
            if comment_of_ratings_hit(comments[i], rating_uids) {
                archived_comment(comments[i], at)
            } else {
                comments[i]
            },
    )
}

/// The comments with those archived that are comments on a rating of a
/// named place and were not archived.
pub open spec fn comments_of_places_archived(
    ratings: Seq<RatingView>,
    comments: Seq<CommentView>,
    place_uids: Seq<Seq<char>>,
    at: Timestamp,
) -> Seq<CommentView> {
    Seq::new(
        comments.len(),
        |i: int|
            if comment_of_places_hit(ratings, comments[i], place_uids) {
                archived_comment(comments[i], at)
            } else {
                comments[i]
            },
    )
}

/// How many ratings are named and not archived yet.
pub open spec fn count_rating_hits(ratings: Seq<RatingView>, uids: Seq<Seq<char>>) -> nat
    decreases ratings.len(),
{
    if ratings.len() == 0 {
        0
    } else {
        count_rating_hits(ratings.drop_last(), uids) + if rating_hit(ratings.last(), uids) {
            1nat
        } else {
            0nat
        }
    }
}

/// How many ratings of named places are not archived yet.
pub open spec fn count_rating_of_places_hits(ratings: Seq<RatingView>, place_uids: Seq<Seq<char>>) -> nat
    decreases ratings.len(),
{
    if ratings.len() == 0 {
        0
    } else {
        count_rating_of_places_hits(ratings.drop_last(), place_uids) + if rating_of_places_hit(
            ratings.last(),
            place_uids,
        ) {
            1nat
        } else {
            0nat
        }
    }
}

/// How many comments are named and not archived yet.
pub open spec fn count_comment_hits(comments: Seq<CommentView>, uids: Seq<Seq<char>>) -> nat
    decreases comments.len(),
{
    if comments.len() == 0 {
        0
    } else {
        count_comment_hits(comments.drop_last(), uids) + if comment_hit(comments.last(), uids) {
            1nat
        } else {
            0nat
        }
    }
}

/// How many comments on named ratings are not archived yet.
pub open spec fn count_comment_of_ratings_hits(comments: Seq<CommentView>, rating_uids: Seq<Seq<char>>) -> nat
    decreases comments.len(),
{
    if comments.len() == 0 {
        0
    } else {
        count_comment_of_ratings_hits(comments.drop_last(), rating_uids)
            + if comment_of_ratings_hit(comments.last(), rating_uids) {
            1nat
        } else {
            0nat
        }
    }
}

/// How many comments on ratings of named places are not archived yet.
pub open spec fn count_comment_of_places_hits(
    ratings: Seq<RatingView>,
    comments: Seq<CommentView>,
    place_uids: Seq<Seq<char>>,
) -> nat
    decreases comments.len(),
{
    if comments.len() == 0 {
        0
    } else {
        count_comment_of_places_hits(ratings, comments.drop_last(), place_uids)
            + if comment_of_places_hit(ratings, comments.last(), place_uids) {
            1nat
        } else {
            0nat
        }
    }
}

/// The ratings of a list that are named and not archived, in their order.
pub open spec fn live_ratings(ratings: Seq<RatingView>, uids: Seq<Seq<char>>) -> Seq<RatingView>
    decreases ratings.len(),
{
    if ratings.len() == 0 {
        Seq::empty()
    } else if rating_hit(ratings.last(), uids) {
        live_ratings(ratings.drop_last(), uids).push(ratings.last())
    } else {
        live_ratings(ratings.drop_last(), uids)
    }
}

/// The ratings of the named places that are not archived, in their order.
pub open spec fn live_ratings_of_places(ratings: Seq<RatingView>, place_uids: Seq<Seq<char>>) -> Seq<
    RatingView,
>
    decreases ratings.len(),
{
    if ratings.len() == 0 {
        Seq::empty()
    } else if rating_of_places_hit(ratings.last(), place_uids) {
        live_ratings_of_places(ratings.drop_last(), place_uids).push(ratings.last())
    } else {
        live_ratings_of_places(ratings.drop_last(), place_uids)
    }
}

/// The places of the named ratings, archived or not, in the order of the
/// ratings.
pub open spec fn places_of_ratings(ratings: Seq<RatingView>, uids: Seq<Seq<char>>) -> Seq<Seq<char>>
    decreases ratings.len(),
{
    if ratings.len() == 0 {
        Seq::empty()
    } else if uids.contains(ratings.last().uid) {
        places_of_ratings(ratings.drop_last(), uids).push(ratings.last().place_uid)
    } else {
        places_of_ratings(ratings.drop_last(), uids)
    }
}

/// The comments of a list that are named and not archived, in their order.
pub open spec fn live_comments(comments: Seq<CommentView>, uids: Seq<Seq<char>>) -> Seq<CommentView>
    decreases comments.len(),
{
    if comments.len() == 0 {
        Seq::empty()
    } else if comment_hit(comments.last(), uids) {
        live_comments(comments.drop_last(), uids).push(comments.last())
    } else {
        live_comments(comments.drop_last(), uids)
    }
}

/// The comments on the named ratings that are not archived, in their
/// order.
pub open spec fn live_comments_of_ratings(comments: Seq<CommentView>, rating_uids: Seq<Seq<char>>) -> Seq<
    CommentView,
>
    decreases comments.len(),
{
    if comments.len() == 0 {
        Seq::empty()
    } else if comment_of_ratings_hit(comments.last(), rating_uids) {
        live_comments_of_ratings(comments.drop_last(), rating_uids).push(comments.last())
    } else {
        live_comments_of_ratings(comments.drop_last(), rating_uids)
    }
}

/// Why a rating cannot be stored, if it cannot: its place is missing, or
/// its identifier is taken, which the store cannot name more closely.
pub open spec fn rating_fault(store: StoreView, rating: RatingView) -> Option<ErrorKind> {
    if !has_place(store.places, rating.place_uid) {
        Some(ErrorKind::NotFound)
    } else if has_rating(store.ratings, rating.uid) {
        Some(ErrorKind::Other)
    } else {
        None
    }
}

/// Why a comment cannot be stored, if it cannot: its rating is missing or
/// archived while the comment is not, or its identifier is taken.
pub open spec fn comment_fault(store: StoreView, comment: CommentView) -> Option<ErrorKind> {
    if !has_rating(store.ratings, comment.rating_uid) || (rating_of(
        store.ratings,
        comment.rating_uid,
    ).archived_at is Some && comment.archived_at is None) {
        Some(ErrorKind::NotFound)
    } else if has_comment(store.comments, comment.uid) {
        Some(ErrorKind::Other)
    } else {
        None
    }
}

impl Store {
    /// Where the rating with the given identifier is stored.
    pub fn find_rating(&self, uid: &str) -> (r: Option<usize>)
        ensures
            match r {
                Some(i) => i < self.ratings.len() && self@.ratings[i as int].uid == uid@,
                None => !has_rating(self@.ratings, uid@),
            },
    {
        let mut i: usize = 0;
        while i < self.ratings.len()
            invariant
                i <= self.ratings.len(),
                forall|j: int| 0 <= j < i ==> (#[trigger] self@.ratings[j]).uid != uid@,
            decreases self.ratings.len() - i,
        {
            if *self.ratings[i].uid.as_str() == *uid {
                return Some(i);
            }
            i += 1;
        }
        None
    }

    /// Where the comment with the given identifier is stored.
    pub fn find_comment(&self, uid: &str) -> (r: Option<usize>)
        ensures
            match r {
                Some(i) => i < self.comments.len() && self@.comments[i as int].uid == uid@,
                None => !has_comment(self@.comments, uid@),
            },
    {
        let mut i: usize = 0;
        while i < self.comments.len()
            invariant
                i <= self.comments.len(),
                forall|j: int| 0 <= j < i ==> (#[trigger] self@.comments[j]).uid != uid@,
            decreases self.comments.len() - i,
        {
            if *self.comments[i].uid.as_str() == *uid {
                return Some(i);
            }
            i += 1;
        }
        None
    }

    /// Stores a rating of a place.
    pub fn create_rating(&mut self, rating: Rating) -> (r: Result<(), RepoError>)
        requires
            old(self).wf(),
        ensures
            final(self).wf(),
            match r {
                Ok(_) => rating_fault(old(self)@, rating@) is None && final(self)@ == (StoreView {
                    ratings: old(self)@.ratings.push(rating@),
                    ..old(self)@
                }),
                Err(e) => rating_fault(old(self)@, rating@) == Some(e.spec_kind()) && final(self)@
                    == old(self)@,
            },
    {
        if self.find_place(rating.place_uid.as_str()).is_none() {
            return Err(RepoError::NotFound);
        }
        if self.find_rating(rating.uid.as_str()).is_some() {
            return Err(duplicate_key());
        }
        let ghost old_ratings = self@.ratings;
        self.ratings.push(rating);
        proof {
            let ratings = self@.ratings;
            assert(ratings =~= old_ratings.push(rating@));
            assert(ratings_wf(ratings)) by {
                assert forall|i: int, j: int| 0 <= i < j < ratings.len() implies (
                #[trigger] ratings[i]).uid != (#[trigger] ratings[j]).uid by {
                    assert(ratings[i] == old_ratings[i]);
                    if j < old_ratings.len() {
                        assert(ratings[j] == old_ratings[j]);
                    }
                }
            }
            assert(comments_wf(ratings, self@.comments)) by {
                assert forall|i: int, j: int|
                    0 <= i < ratings.len() && 0 <= j < self@.comments.len() && (
                    #[trigger] self@.comments[j]).rating_uid == (#[trigger] ratings[i]).uid
                        && ratings[i].archived_at is Some implies self@.comments[j].archived_at is Some by {
                    if i < old_ratings.len() {
                        assert(ratings[i] == old_ratings[i]);
                    } else {
                        assert(has_rating(old_ratings, self@.comments[j].rating_uid));
                    }
                }
                assert forall|j: int| 0 <= j < self@.comments.len() implies has_rating(
                    ratings,
                    (#[trigger] self@.comments[j]).rating_uid,
                ) by {
                    let k = choose|k: int|
                        0 <= k < old_ratings.len() && (#[trigger] old_ratings[k]).uid
                            == self@.comments[j].rating_uid;
                    assert(ratings[k] == old_ratings[k]);
                }
            }
        }
        Ok(())
    }

    /// Stores a comment on a rating.
    pub fn create_comment(&mut self, comment: Comment) -> (r: Result<(), RepoError>)
        requires
            old(self).wf(),
        ensures
            final(self).wf(),
            match r {
                Ok(_) => comment_fault(old(self)@, comment@) is None && final(self)@ == (StoreView {
                    comments: old(self)@.comments.push(comment@),
                    ..old(self)@
                }),
                Err(e) => comment_fault(old(self)@, comment@) == Some(e.spec_kind()) && final(self)@
                    == old(self)@,
            },
    {
        let i = match self.find_rating(comment.rating_uid.as_str()) {
            Some(i) => i,
            None => {
                return Err(RepoError::NotFound);
            },
        };
        proof {
            lemma_rating_of(self@.ratings, comment@.rating_uid, i as int);
        }
        if self.ratings[i].archived_at.is_some() && comment.archived_at.is_none() {
            return Err(RepoError::NotFound);
        }
        if self.find_comment(comment.uid.as_str()).is_some() {
            return Err(duplicate_key());
        }
        let ghost old_comments = self@.comments;
        self.comments.push(comment);
        proof {
            let comments = self@.comments;
            let ratings = self@.ratings;
            assert(comments =~= old_comments.push(comment@));
            assert(comments_wf(ratings, comments)) by {
                assert forall|a: int, b: int| 0 <= a < b < comments.len() implies (
                #[trigger] comments[a]).uid != (#[trigger] comments[b]).uid by {
                    assert(comments[a] == old_comments[a]);
                    if b < old_comments.len() {
                        assert(comments[b] == old_comments[b]);
                    }
                }
                assert forall|a: int, b: int|
                    0 <= a < ratings.len() && 0 <= b < comments.len() && (
                    #[trigger] comments[b]).rating_uid == (#[trigger] ratings[a]).uid
                        && ratings[a].archived_at is Some implies comments[b].archived_at is Some by {
                    if b < old_comments.len() {
                        assert(comments[b] == old_comments[b]);
                    } else {
                        lemma_rating_of(ratings, comment@.rating_uid, a);
                    }
                }
                assert forall|b: int| 0 <= b < comments.len() implies has_rating(
                    ratings,
                    (#[trigger] comments[b]).rating_uid,
                ) by {
                    if b < old_comments.len() {
                        assert(comments[b] == old_comments[b]);
                    }
                }
            }
        }
        Ok(())
    }

    /// The named ratings that are not archived.
    pub fn load_ratings(&self, uids: &[&str]) -> (out: Vec<Rating>)
        ensures
            out.deep_view() == live_ratings(self@.ratings, uids.deep_view()),
    {
        let mut out: Vec<Rating> = Vec::new();
        let mut i: usize = 0;
        let ghost ratings = self@.ratings;
        proof {
            assert(ratings.take(0) == Seq::<RatingView>::empty());
            assert(out.deep_view() == Seq::<RatingView>::empty());
        }
        while i < self.ratings.len()
            invariant
                i <= self.ratings.len(),
                ratings == self@.ratings,
                out.deep_view() == live_ratings(ratings.take(i as int), uids.deep_view()),
            decreases self.ratings.len() - i,
        {
            let ghost before = out.deep_view();
            proof {
                assert(ratings.take(i as int + 1).drop_last() == ratings.take(i as int));
                assert(ratings.take(i as int + 1).last() == ratings[i as int]);
            }
            if self.ratings[i].archived_at.is_none() && slice_contains(
                uids,
                self.ratings[i].uid.as_str(),
            ) {
                let copy = self.ratings[i].clone();
                out.push(copy);
                assert(out.deep_view() == before.push(copy@));
            }
            i += 1;
        }
        assert(ratings.take(ratings.len() as int) == ratings);
        out
    }

    /// The named rating, if it is not archived.
    pub fn load_rating(&self, uid: &str) -> (r: Result<Rating, RepoError>)
        requires
            self.wf(),
        ensures
            match r {
                Ok(rating) => has_rating(self@.ratings, uid@) && rating@ == rating_of(
                    self@.ratings,
                    uid@,
                ) && rating@.archived_at is None,
                Err(e) => e == RepoError::NotFound && !(has_rating(self@.ratings, uid@) && rating_of(
                    self@.ratings,
                    uid@,
                ).archived_at is None),
            },
    {
        match self.find_rating(uid) {
            Some(i) => {
                proof {
                    lemma_rating_of(self@.ratings, uid@, i as int);
                }
                if self.ratings[i].archived_at.is_none() {
                    Ok(self.ratings[i].clone())
                } else {
                    Err(RepoError::NotFound)
                }
            },
            None => Err(RepoError::NotFound),
        }
    }

    /// The ratings of a place that are not archived.
    pub fn load_ratings_of_place(&self, place_uid: &str) -> (out: Vec<Rating>)
        ensures
            out.deep_view() == live_ratings_of_places(self@.ratings, seq![place_uid@]),
    {
        let mut out: Vec<Rating> = Vec::new();
        let mut i: usize = 0;
        let ghost ratings = self@.ratings;
        let ghost names = seq![place_uid@];
        proof {
            assert(ratings.take(0) == Seq::<RatingView>::empty());
            assert(out.deep_view() == Seq::<RatingView>::empty());
        }
        while i < self.ratings.len()
            invariant
                i <= self.ratings.len(),
                ratings == self@.ratings,
                names == seq![place_uid@],
                out.deep_view() == live_ratings_of_places(ratings.take(i as int), names),
            decreases self.ratings.len() - i,
        {
            let ghost before = out.deep_view();
            proof {
                assert(ratings.take(i as int + 1).drop_last() == ratings.take(i as int));
                assert(ratings.take(i as int + 1).last() == ratings[i as int]);
                assert(names[0] == place_uid@);
                assert(names.contains(ratings[i as int].place_uid) <==> ratings[i as int].place_uid
                    == place_uid@);
            }
            if self.ratings[i].archived_at.is_none() && *self.ratings[i].place_uid.as_str()
                == *place_uid {
                let copy = self.ratings[i].clone();
                out.push(copy);
                assert(out.deep_view() == before.push(copy@));
            }
            i += 1;
        }
        assert(ratings.take(ratings.len() as int) == ratings);
        out
    }

    /// The places of the named ratings.
    pub fn load_place_uids_of_ratings(&self, uids: &[&str]) -> (out: Vec<String>)
        ensures
            out.deep_view() == places_of_ratings(self@.ratings, uids.deep_view()),
    {
        let mut out: Vec<String> = Vec::new();
        let mut i: usize = 0;
        let ghost ratings = self@.ratings;
        proof {
            assert(ratings.take(0) == Seq::<RatingView>::empty());
            assert(out.deep_view() == Seq::<Seq<char>>::empty());
        }
        while i < self.ratings.len()
            invariant
                i <= self.ratings.len(),
                ratings == self@.ratings,
                out.deep_view() == places_of_ratings(ratings.take(i as int), uids.deep_view()),
            decreases self.ratings.len() - i,
        {
            let ghost before = out.deep_view();
            proof {
                assert(ratings.take(i as int + 1).drop_last() == ratings.take(i as int));
                assert(ratings.take(i as int + 1).last() == ratings[i as int]);
            }
            if slice_contains(uids, self.ratings[i].uid.as_str()) {
                let copy = self.ratings[i].place_uid.clone();
                out.push(copy);
                assert(out.deep_view() == before.push(copy@));
            }
            i += 1;
        }
        assert(ratings.take(ratings.len() as int) == ratings);
        out
    }

    /// The named comments that are not archived.
    pub fn load_comments(&self, uids: &[&str]) -> (out: Vec<Comment>)
        ensures
            out.deep_view() == live_comments(self@.comments, uids.deep_view()),
    {
        let mut out: Vec<Comment> = Vec::new();
        let mut i: usize = 0;
        let ghost comments = self@.comments;
        proof {
            assert(comments.take(0) == Seq::<CommentView>::empty());
            assert(out.deep_view() == Seq::<CommentView>::empty());
        }
        while i < self.comments.len()
            invariant
                i <= self.comments.len(),
                comments == self@.comments,
                out.deep_view() == live_comments(comments.take(i as int), uids.deep_view()),
            decreases self.comments.len() - i,
        {
            let ghost before = out.deep_view();
            proof {
                assert(comments.take(i as int + 1).drop_last() == comments.take(i as int));
                assert(comments.take(i as int + 1).last() == comments[i as int]);
            }
            if self.comments[i].archived_at.is_none() && slice_contains(
                uids,
                self.comments[i].uid.as_str(),
            ) {
                let copy = self.comments[i].clone();
                out.push(copy);
                assert(out.deep_view() == before.push(copy@));
            }
            i += 1;
        }
        assert(comments.take(comments.len() as int) == comments);
        out
    }

    /// The named comment, if it is not archived.
    pub fn load_comment(&self, uid: &str) -> (r: Result<Comment, RepoError>)
        ensures
            match r {
                Ok(comment) => has_comment(self@.comments, uid@) && comment@.uid == uid@
                    && comment@.archived_at is None && self@.comments.contains(comment@),
                Err(e) => e == RepoError::NotFound && forall|i: int|
                    0 <= i < self@.comments.len() && (#[trigger] self@.comments[i]).uid == uid@
                        ==> self@.comments[i].archived_at is Some,
            },
    {
        let mut i: usize = 0;
        while i < self.comments.len()
            invariant
                i <= self.comments.len(),
                forall|j: int|
                    0 <= j < i && (#[trigger] self@.comments[j]).uid == uid@
                        ==> self@.comments[j].archived_at is Some,
            decreases self.comments.len() - i,
        {
            if *self.comments[i].uid.as_str() == *uid && self.comments[i].archived_at.is_none() {
                let copy = self.comments[i].clone();
                assert(self@.comments[i as int] == copy@);
                return Ok(copy);
            }
            i += 1;
        }
        Err(RepoError::NotFound)
    }

    /// The comments on a rating that are not archived.
    pub fn load_comments_of_rating(&self, rating_uid: &str) -> (out: Vec<Comment>)
        ensures
            out.deep_view() == live_comments_of_ratings(self@.comments, seq![rating_uid@]),
    {
        let mut out: Vec<Comment> = Vec::new();
        let mut i: usize = 0;
        let ghost comments = self@.comments;
        let ghost names = seq![rating_uid@];
        proof {
            assert(comments.take(0) == Seq::<CommentView>::empty());
            assert(out.deep_view() == Seq::<CommentView>::empty());
        }
        while i < self.comments.len()
            invariant
                i <= self.comments.len(),
                comments == self@.comments,
                names == seq![rating_uid@],
                out.deep_view() == live_comments_of_ratings(comments.take(i as int), names),
            decreases self.comments.len() - i,
        {
            let ghost before = out.deep_view();
            proof {
                assert(comments.take(i as int + 1).drop_last() == comments.take(i as int));
                assert(comments.take(i as int + 1).last() == comments[i as int]);
                assert(names[0] == rating_uid@);
                assert(names.contains(comments[i as int].rating_uid)
                    <==> comments[i as int].rating_uid == rating_uid@);
            }
            if self.comments[i].archived_at.is_none() && *self.comments[i].rating_uid.as_str()
                == *rating_uid {
                let copy = self.comments[i].clone();
                out.push(copy);
                assert(out.deep_view() == before.push(copy@));
            }
            i += 1;
        }
        assert(comments.take(comments.len() as int) == comments);
        out
    }
}

} // verus!

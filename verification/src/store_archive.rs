//! Archiving ratings and comments.

use crate::entities::{CommentView, RatingView, Timestamp};
use crate::error::RepoError;
use crate::store::{comments_wf, has_rating, ratings_wf, slice_contains, Store, StoreView};
use crate::store_ratings::{
    archived_comment, archived_rating, comments_archived, comments_of_places_archived,
    comments_of_ratings_archived, count_comment_hits, count_comment_of_places_hits,
    count_comment_of_ratings_hits, count_rating_hits, count_rating_of_places_hits, rating_hit,
    rating_in_places, ratings_archived, ratings_of_places_archived,
};
use vstd::prelude::*;

verus! {

/// The store after the named ratings have been archived, and with them
/// the comments on them.
pub open spec fn with_ratings_archived(store: StoreView, uids: Seq<Seq<char>>, at: Timestamp) -> StoreView {
    StoreView {
        ratings: ratings_archived(store.ratings, uids, at),
        comments: comments_of_ratings_archived(store.comments, uids, at),
        ..store
    }
}

/// The store after the ratings of the named places have been archived,
/// and with them the comments on them.
pub open spec fn with_ratings_of_places_archived(
    store: StoreView,
    place_uids: Seq<Seq<char>>,
    at: Timestamp,
) -> StoreView {
    StoreView {
        ratings: ratings_of_places_archived(store.ratings, place_uids, at),
        comments: comments_of_places_archived(store.ratings, store.comments, place_uids, at),
        ..store
    }
}

/// What comes of asking to archive `wanted` things of which `found` are
/// there and not archived yet: each of them must be.
pub open spec fn archive_fault(found: nat, wanted: nat) -> Option<RepoError> {
    if found < wanted {
        Some(RepoError::NotFound)
    } else if found > wanted {
        Some(RepoError::TooManyFound)
    } else {
        None
    }
}

/// Archiving comments leaves the store well formed.
pub proof fn lemma_comments_archived_wf(
    ratings: Seq<RatingView>,
    before: Seq<CommentView>,
    after: Seq<CommentView>,
    at: Timestamp,
)
    requires
        comments_wf(ratings, before),
        after.len() == before.len(),
        forall|j: int|
            0 <= j < before.len() ==> (#[trigger] after[j]) == before[j] || after[j]
                == archived_comment(before[j], at),
    ensures
        comments_wf(ratings, after),
{
    assert forall|i: int, j: int| 0 <= i < j < after.len() implies (#[trigger] after[i]).uid != (
    #[trigger] after[j]).uid by {
        assert(after[i].uid == before[i].uid);
        assert(after[j].uid == before[j].uid);
    }
    assert forall|j: int| 0 <= j < after.len() implies has_rating(
        ratings,
        (#[trigger] after[j]).rating_uid,
    ) by {
        assert(after[j].rating_uid == before[j].rating_uid);
    }
    assert forall|i: int, j: int|
        0 <= i < ratings.len() && 0 <= j < after.len() && (#[trigger] after[j]).rating_uid == (
        #[trigger] ratings[i]).uid && ratings[i].archived_at is Some implies after[j].archived_at is Some by {
        assert(after[j].rating_uid == before[j].rating_uid);
    }
}

/// A rating that is archived has taken its comments with it: each of them
/// is archived, and those that were not archived before have the time of
/// archiving of the rating.
pub proof fn lemma_archived_rating_takes_comments(
    store: StoreView,
    uids: Seq<Seq<char>>,
    at: Timestamp,
    i: int,
    j: int,
)
    requires
        store.wf(),
        0 <= i < store.ratings.len(),
        0 <= j < store.comments.len(),
        store.comments[j].rating_uid == store.ratings[i].uid,
        with_ratings_archived(store, uids, at).ratings[i].archived_at is Some,
    ensures
        with_ratings_archived(store, uids, at).comments[j].archived_at is Some,
        rating_hit(store.ratings[i], uids) && store.comments[j].archived_at is None
            ==> with_ratings_archived(store, uids, at).comments[j].archived_at
            == with_ratings_archived(store, uids, at).ratings[i].archived_at,
        rating_hit(store.ratings[i], uids) ==> with_ratings_archived(
            store,
            uids,
            at,
        ).ratings[i].archived_at == Some(at),
{
}

/// A place that is archived takes the comments on its ratings with it,
/// with the time of archiving of the ratings.
pub proof fn lemma_archived_place_takes_comments(
    store: StoreView,
    place_uids: Seq<Seq<char>>,
    at: Timestamp,
    i: int,
    j: int,
)
    requires
        store.wf(),
        0 <= i < store.ratings.len(),
        0 <= j < store.comments.len(),
        store.comments[j].rating_uid == store.ratings[i].uid,
        place_uids.contains(store.ratings[i].place_uid),
    ensures
        with_ratings_of_places_archived(store, place_uids, at).ratings[i].archived_at is Some,
        with_ratings_of_places_archived(store, place_uids, at).comments[j].archived_at is Some,
        store.ratings[i].archived_at is None ==> with_ratings_of_places_archived(
            store,
            place_uids,
            at,
        ).ratings[i].archived_at == Some(at),
        store.comments[j].archived_at is None ==> with_ratings_of_places_archived(
            store,
            place_uids,
            at,
        ).comments[j].archived_at == Some(at),
{
    assert(rating_in_places(store.ratings, store.comments[j].rating_uid, place_uids));
}

impl Store {
    fn set_rating_archived(&mut self, i: usize, at: Timestamp)
        requires
            i < old(self).ratings.len(),
        ensures
            final(self)@ == (StoreView {
                ratings: old(self)@.ratings.update(
                    i as int,
                    archived_rating(old(self)@.ratings[i as int], at),
                ),
                ..old(self)@
            }),
    {
        self.ratings[i].archived_at = Some(at);
        assert(self@.ratings =~= old(self)@.ratings.update(
            i as int,
            archived_rating(old(self)@.ratings[i as int], at),
        ));
    }

    fn set_comment_archived(&mut self, j: usize, at: Timestamp)
        requires
            j < old(self).comments.len(),
        ensures
            final(self)@ == (StoreView {
                comments: old(self)@.comments.update(
                    j as int,
                    archived_comment(old(self)@.comments[j as int], at),
                ),
                ..old(self)@
            }),
    {
        self.comments[j].archived_at = Some(at);
        assert(self@.comments =~= old(self)@.comments.update(
            j as int,
            archived_comment(old(self)@.comments[j as int], at),
        ));
    }

    /// How many of the named ratings are not archived yet.
    pub fn count_live_ratings(&self, uids: &[&str]) -> (count: usize)
        ensures
            count == count_rating_hits(self@.ratings, uids.deep_view()),
    {
        let ghost ratings = self@.ratings;
        let mut count: usize = 0;
        let mut i: usize = 0;
        proof {
            assert(ratings.take(0) == Seq::<RatingView>::empty());
        }
        while i < self.ratings.len()
            invariant
                i <= self.ratings.len(),
                ratings == self@.ratings,
                count <= i,
                count == count_rating_hits(ratings.take(i as int), uids.deep_view()),
            decreases self.ratings.len() - i,
        {
            proof {
                assert(ratings.take(i as int + 1).drop_last() == ratings.take(i as int));
                assert(ratings.take(i as int + 1).last() == ratings[i as int]);
            }
            if self.ratings[i].archived_at.is_none() && slice_contains(
                uids,
                self.ratings[i].uid.as_str(),
            ) {
                count += 1;
            }
            i += 1;
        }
        assert(ratings.take(ratings.len() as int) == ratings);
        count
    }

    /// How many of the named comments are not archived yet.
    pub fn count_live_comments(&self, uids: &[&str]) -> (count: usize)
        ensures
            count == count_comment_hits(self@.comments, uids.deep_view()),
    {
        let ghost comments = self@.comments;
        let mut count: usize = 0;
        let mut i: usize = 0;
        proof {
            assert(comments.take(0) == Seq::<CommentView>::empty());
        }
        while i < self.comments.len()
            invariant
                i <= self.comments.len(),
                comments == self@.comments,
                count <= i,
                count == count_comment_hits(comments.take(i as int), uids.deep_view()),
            decreases self.comments.len() - i,
        {
            proof {
                assert(comments.take(i as int + 1).drop_last() == comments.take(i as int));
                assert(comments.take(i as int + 1).last() == comments[i as int]);
            }
            if self.comments[i].archived_at.is_none() && slice_contains(
                uids,
                self.comments[i].uid.as_str(),
            ) {
                count += 1;
            }
            i += 1;
        }
        assert(comments.take(comments.len() as int) == comments);
        count
    }

    fn rating_is_in_places(&self, rating_uid: &str, place_uids: &[&str]) -> (b: bool)
        ensures
            b == rating_in_places(self@.ratings, rating_uid@, place_uids.deep_view()),
    {
        let mut i: usize = 0;
        while i < self.ratings.len()
            invariant
                i <= self.ratings.len(),
                forall|k: int|
                    0 <= k < i ==> !((#[trigger] self@.ratings[k]).uid == rating_uid@
                        && place_uids.deep_view().contains(self@.ratings[k].place_uid)),
            decreases self.ratings.len() - i,
        {
            if *self.ratings[i].uid.as_str() == *rating_uid && slice_contains(
                place_uids,
                self.ratings[i].place_uid.as_str(),
            ) {
                assert(self@.ratings[i as int].uid == rating_uid@);
                return true;
            }
            i += 1;
        }
        false
    }

    fn mark_ratings(&mut self, uids: &[&str], of_places: bool, at: Timestamp) -> (count: usize)
        ensures
            final(self)@ == (StoreView {
                ratings: if of_places {
                    ratings_of_places_archived(old(self)@.ratings, uids.deep_view(), at)
                } else {
                    ratings_archived(old(self)@.ratings, uids.deep_view(), at)
                },
                ..old(self)@
            }),
            count == if of_places {
                count_rating_of_places_hits(old(self)@.ratings, uids.deep_view())
            } else {
                count_rating_hits(old(self)@.ratings, uids.deep_view())
            },
    {
        let ghost before = self@.ratings;
        let ghost names = uids.deep_view();
        let n = self.ratings.len();
        let mut count: usize = 0;
        let mut i: usize = 0;
        proof {
            assert(before.take(0) == Seq::<RatingView>::empty());
        }
        while i < n
            invariant
                i <= n,
                n == before.len(),
                names == uids.deep_view(),
                self@.ratings.len() == n,
                count <= i,
                forall|k: int|
                    0 <= k < i ==> (#[trigger] self@.ratings[k]) == if of_places {
                        ratings_of_places_archived(before, names, at)[k]
                    } else {
                        ratings_archived(before, names, at)[k]
                    },
                forall|k: int| i <= k < n ==> (#[trigger] self@.ratings[k]) == before[k],
                count == if of_places {
                    count_rating_of_places_hits(before.take(i as int), names)
                } else {
                    count_rating_hits(before.take(i as int), names)
                },
                self@ == (StoreView { ratings: self@.ratings, ..old(self)@ }),
            decreases n - i,
        {
            proof {
                assert(before.take(i as int + 1).drop_last() == before.take(i as int));
                assert(before.take(i as int + 1).last() == before[i as int]);
                assert(self@.ratings[i as int] == before[i as int]);
                assert(self@.ratings[i as int] == self.ratings[i as int]@);
            }
            let named = if of_places {
                slice_contains(uids, self.ratings[i].place_uid.as_str())
            } else {
                slice_contains(uids, self.ratings[i].uid.as_str())
            };
            if self.ratings[i].archived_at.is_none() && named {
                self.set_rating_archived(i, at);
                count += 1;
            }
            i += 1;
        }
        proof {
            assert(before.take(n as int) == before);
            if of_places {
                assert(self@.ratings =~= ratings_of_places_archived(before, names, at));
            } else {
                assert(self@.ratings =~= ratings_archived(before, names, at));
            }
        }
        count
    }

    fn mark_comments(&mut self, uids: &[&str], of_ratings: bool, at: Timestamp) -> (count: usize)
        ensures
            final(self)@ == (StoreView {
                comments: if of_ratings {
                    comments_of_ratings_archived(old(self)@.comments, uids.deep_view(), at)
                } else {
                    comments_archived(old(self)@.comments, uids.deep_view(), at)
                },
                ..old(self)@
            }),
            count == if of_ratings {
                count_comment_of_ratings_hits(old(self)@.comments, uids.deep_view())
            } else {
                count_comment_hits(old(self)@.comments, uids.deep_view())
            },
    {
        let ghost before = self@.comments;
        let ghost names = uids.deep_view();
        let n = self.comments.len();
        let mut count: usize = 0;
        let mut i: usize = 0;
        proof {
            assert(before.take(0) == Seq::<CommentView>::empty());
        }
        while i < n
            invariant
                i <= n,
                n == before.len(),
                names == uids.deep_view(),
                self@.comments.len() == n,
                count <= i,
                forall|k: int|
                    0 <= k < i ==> (#[trigger] self@.comments[k]) == if of_ratings {
                        comments_of_ratings_archived(before, names, at)[k]
                    } else {
                        comments_archived(before, names, at)[k]
                    },
                forall|k: int| i <= k < n ==> (#[trigger] self@.comments[k]) == before[k],
                count == if of_ratings {
                    count_comment_of_ratings_hits(before.take(i as int), names)
                } else {
                    count_comment_hits(before.take(i as int), names)
                },
                self@ == (StoreView { comments: self@.comments, ..old(self)@ }),
            decreases n - i,
        {
            proof {
                assert(before.take(i as int + 1).drop_last() == before.take(i as int));
                assert(before.take(i as int + 1).last() == before[i as int]);
                assert(self@.comments[i as int] == before[i as int]);
                assert(self@.comments[i as int] == self.comments[i as int]@);
            }
            let named = if of_ratings {
                slice_contains(uids, self.comments[i].rating_uid.as_str())
            } else {
                slice_contains(uids, self.comments[i].uid.as_str())
            };
            if self.comments[i].archived_at.is_none() && named {
                self.set_comment_archived(i, at);
                count += 1;
            }
            i += 1;
        }
        proof {
            assert(before.take(n as int) == before);
            if of_ratings {
                assert(self@.comments =~= comments_of_ratings_archived(before, names, at));
            } else {
                assert(self@.comments =~= comments_archived(before, names, at));
            }
        }
        count
    }

    fn mark_comments_of_places(&mut self, place_uids: &[&str], at: Timestamp) -> (count: usize)
        ensures
            final(self)@ == (StoreView {
                comments: comments_of_places_archived(
                    old(self)@.ratings,
                    old(self)@.comments,
                    place_uids.deep_view(),
                    at,
                ),
                ..old(self)@
            }),
            count == count_comment_of_places_hits(
                old(self)@.ratings,
                old(self)@.comments,
                place_uids.deep_view(),
            ),
    {
        let ghost before = self@.comments;
        let ghost ratings = self@.ratings;
        let ghost names = place_uids.deep_view();
        let n = self.comments.len();
        let mut count: usize = 0;
        let mut i: usize = 0;
        proof {
            assert(before.take(0) == Seq::<CommentView>::empty());
        }
        while i < n
            invariant
                i <= n,
                n == before.len(),
                names == place_uids.deep_view(),
                self@.comments.len() == n,
                self@.ratings == ratings,
                count <= i,
                forall|k: int|
                    0 <= k < i ==> (#[trigger] self@.comments[k]) == comments_of_places_archived(
                        ratings,
                        before,
                        names,
                        at,
                    )[k],
                forall|k: int| i <= k < n ==> (#[trigger] self@.comments[k]) == before[k],
                count == count_comment_of_places_hits(ratings, before.take(i as int), names),
                self@ == (StoreView { comments: self@.comments, ..old(self)@ }),
            decreases n - i,
        {
            proof {
                assert(before.take(i as int + 1).drop_last() == before.take(i as int));
                assert(before.take(i as int + 1).last() == before[i as int]);
                assert(self@.comments[i as int] == before[i as int]);
                assert(self@.comments[i as int] == self.comments[i as int]@);
            }
            if self.comments[i].archived_at.is_none() && self.rating_is_in_places(
                self.comments[i].rating_uid.as_str(),
                place_uids,
            ) {
                self.set_comment_archived(i, at);
                count += 1;
            }
            i += 1;
        }
        proof {
            assert(before.take(n as int) == before);
            assert(self@.comments =~= comments_of_places_archived(ratings, before, names, at));
        }
        count
    }

    /// Archives the named comments. Each of them must be there and not
    /// archived yet; otherwise nothing changes.
    pub fn archive_comments(&mut self, uids: &[&str], at: Timestamp) -> (r: Result<usize, RepoError>)
        requires
            old(self).wf(),
        ensures
            final(self).wf(),
            match r {
                Ok(count) => {
                    &&& count == uids.len()
                    &&& archive_fault(
                        count_comment_hits(old(self)@.comments, uids.deep_view()),
                        uids.len() as nat,
                    ) is None
                    &&& final(self)@ == (StoreView {
                        comments: comments_archived(old(self)@.comments, uids.deep_view(), at),
                        ..old(self)@
                    })
                },
                Err(e) => {
                    &&& archive_fault(
                        count_comment_hits(old(self)@.comments, uids.deep_view()),
                        uids.len() as nat,
                    ) == Some(e)
                    &&& final(self)@ == old(self)@
                },
            },
    {
        let found = self.count_live_comments(uids);
        if found < uids.len() {
            return Err(RepoError::NotFound);
        }
        if found > uids.len() {
            return Err(RepoError::TooManyFound);
        }
        let count = self.mark_comments(uids, false, at);
        proof {
            lemma_comments_archived_wf(self@.ratings, old(self)@.comments, self@.comments, at);
        }
        Ok(count)
    }

    /// Archives the comments on the named ratings that are not archived
    /// yet, and returns how many these were.
    pub fn archive_comments_of_ratings(&mut self, rating_uids: &[&str], at: Timestamp) -> (count:
        usize)
        requires
            old(self).wf(),
        ensures
            final(self).wf(),
            final(self)@ == (StoreView {
                comments: comments_of_ratings_archived(
                    old(self)@.comments,
                    rating_uids.deep_view(),
                    at,
                ),
                ..old(self)@
            }),
            count == count_comment_of_ratings_hits(old(self)@.comments, rating_uids.deep_view()),
    {
        let count = self.mark_comments(rating_uids, true, at);
        proof {
            lemma_comments_archived_wf(self@.ratings, old(self)@.comments, self@.comments, at);
        }
        count
    }

    /// Archives the comments on the ratings of the named places that are
    /// not archived yet, and returns how many these were.
    pub fn archive_comments_of_places(&mut self, place_uids: &[&str], at: Timestamp) -> (count:
        usize)
        requires
            old(self).wf(),
        ensures
            final(self).wf(),
            final(self)@ == (StoreView {
                comments: comments_of_places_archived(
                    old(self)@.ratings,
                    old(self)@.comments,
                    place_uids.deep_view(),
                    at,
                ),
                ..old(self)@
            }),
            count == count_comment_of_places_hits(
                old(self)@.ratings,
                old(self)@.comments,
                place_uids.deep_view(),
            ),
    {
        let count = self.mark_comments_of_places(place_uids, at);
        proof {
            lemma_comments_archived_wf(self@.ratings, old(self)@.comments, self@.comments, at);
        }
        count
    }

    /// Archives the named ratings, and with them the comments on them.
    /// Each of the ratings must be there and not archived yet; otherwise
    /// nothing changes.
    pub fn archive_ratings(&mut self, uids: &[&str], at: Timestamp) -> (r: Result<usize, RepoError>)
        requires
            old(self).wf(),
        ensures
            final(self).wf(),
            match r {
                Ok(count) => {
                    &&& count == uids.len()
                    &&& archive_fault(
                        count_rating_hits(old(self)@.ratings, uids.deep_view()),
                        uids.len() as nat,
                    ) is None
                    &&& final(self)@ == with_ratings_archived(old(self)@, uids.deep_view(), at)
                },
                Err(e) => {
                    &&& archive_fault(
                        count_rating_hits(old(self)@.ratings, uids.deep_view()),
                        uids.len() as nat,
                    ) == Some(e)
                    &&& final(self)@ == old(self)@
                },
            },
    {
        let found = self.count_live_ratings(uids);
        if found < uids.len() {
            return Err(RepoError::NotFound);
        }
        if found > uids.len() {
            return Err(RepoError::TooManyFound);
        }
        self.mark_comments(uids, true, at);
        let count = self.mark_ratings(uids, false, at);
        proof {
            let before = old(self)@;
            let ratings = self@.ratings;
            let comments = self@.comments;
            let names = uids.deep_view();
            assert(ratings_wf(ratings)) by {
                assert forall|i: int, j: int| 0 <= i < j < ratings.len() implies (
                #[trigger] ratings[i]).uid != (#[trigger] ratings[j]).uid by {
                    assert(ratings[i].uid == before.ratings[i].uid);
                    assert(ratings[j].uid == before.ratings[j].uid);
                }
            }
            assert(comments_wf(ratings, comments)) by {
                assert forall|i: int, j: int| 0 <= i < j < comments.len() implies (
                #[trigger] comments[i]).uid != (#[trigger] comments[j]).uid by {
                    assert(comments[i].uid == before.comments[i].uid);
                    assert(comments[j].uid == before.comments[j].uid);
                }
                assert forall|j: int| 0 <= j < comments.len() implies has_rating(
                    ratings,
                    (#[trigger] comments[j]).rating_uid,
                ) by {
                    assert(comments[j].rating_uid == before.comments[j].rating_uid);
                    let k = choose|k: int|
                        0 <= k < before.ratings.len() && (#[trigger] before.ratings[k]).uid
                            == before.comments[j].rating_uid;
                    assert(ratings[k].uid == before.ratings[k].uid);
                }
                assert forall|i: int, j: int|
                    0 <= i < ratings.len() && 0 <= j < comments.len() && (
                    #[trigger] comments[j]).rating_uid == (#[trigger] ratings[i]).uid
                        && ratings[i].archived_at is Some implies comments[j].archived_at is Some by {
                    assert(before.comments[j].rating_uid == before.ratings[i].uid);
                    lemma_archived_rating_takes_comments(before, names, at, i, j);
                }
            }
        }
        Ok(count)
    }

    /// Archives the ratings of the named places that are not archived yet,
    /// and with them the comments on them. Returns how many ratings these
    /// were.
    pub fn archive_ratings_of_places(&mut self, place_uids: &[&str], at: Timestamp) -> (count:
        usize)
        requires
            old(self).wf(),
        ensures
            final(self).wf(),
            final(self)@ == with_ratings_of_places_archived(
                old(self)@,
                place_uids.deep_view(),
                at,
            ),
            count == count_rating_of_places_hits(old(self)@.ratings, place_uids.deep_view()),
    {
        self.mark_comments_of_places(place_uids, at);
        let count = self.mark_ratings(place_uids, true, at);
        proof {
            let before = old(self)@;
            let ratings = self@.ratings;
            let comments = self@.comments;
            let names = place_uids.deep_view();
            assert(ratings_wf(ratings)) by {
                assert forall|i: int, j: int| 0 <= i < j < ratings.len() implies (
                #[trigger] ratings[i]).uid != (#[trigger] ratings[j]).uid by {
                    assert(ratings[i].uid == before.ratings[i].uid);
                    assert(ratings[j].uid == before.ratings[j].uid);
                }
            }
            assert(comments_wf(ratings, comments)) by {
                assert forall|i: int, j: int| 0 <= i < j < comments.len() implies (
                #[trigger] comments[i]).uid != (#[trigger] comments[j]).uid by {
                    assert(comments[i].uid == before.comments[i].uid);
                    assert(comments[j].uid == before.comments[j].uid);
                }
                assert forall|j: int| 0 <= j < comments.len() implies has_rating(
                    ratings,
                    (#[trigger] comments[j]).rating_uid,
                ) by {
                    assert(comments[j].rating_uid == before.comments[j].rating_uid);
                    let k = choose|k: int|
                        0 <= k < before.ratings.len() && (#[trigger] before.ratings[k]).uid
                            == before.comments[j].rating_uid;
                    assert(ratings[k].uid == before.ratings[k].uid);
                }
                assert forall|i: int, j: int|
                    0 <= i < ratings.len() && 0 <= j < comments.len() && (
                    #[trigger] comments[j]).rating_uid == (#[trigger] ratings[i]).uid
                        && ratings[i].archived_at is Some implies comments[j].archived_at is Some by {
                    assert(before.comments[j].rating_uid == before.ratings[i].uid);
                    if names.contains(before.ratings[i].place_uid) {
                        lemma_archived_place_takes_comments(before, names, at, i, j);
                    }
                }
            }
        }
        count
    }
}

} // verus!

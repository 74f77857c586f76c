//! The flows: what happens, and in which order, when the directory is
//! changed.
//!
//! Every flow changes the store first. Only when that has succeeded, the
//! index is brought up to date and made visible, and at last e-mails are
//! written. The store is what counts: a failure of the index is passed
//! over, as the index can be built anew from the store at any time.

use crate::category::{
    Category, CategoryView, CATEGORY_TAG_COMMERCIAL, CATEGORY_TAG_EVENT,
    CATEGORY_TAG_NON_PROFIT, CATEGORY_UID_COMMERCIAL, CATEGORY_UID_EVENT,
    CATEGORY_UID_NON_PROFIT,
};
use crate::entities::{
    ActivityView, Organization, Place, PlaceView, Rating, RatingView, Timestamp,
};
use crate::error::{Error, RepoError};
use crate::index::{led_to, lemma_led_on, IndexError, IndexRequest, PlaceIndexer};
use crate::moderation::{
    archive_fault_for, archive_places_fault, new_comment, new_rating, rate_fault, update_fault,
    with_places_archived, NewPlaceRating,
};
use crate::nonce::{encoded, EmailNonce, EmailNonceView, Nonce, UserTokenView};
use crate::notify::{
    category_names, emails_to, entry_added, entry_updated, place_body,
    user_reset_password_requested, EmailView, Outbox, PLACE_ADDED_SUBJECT, PLACE_UPDATED_SUBJECT,
    RESET_PASSWORD_BODY, RESET_PASSWORD_SUBJECT, RESET_PASSWORD_URL,
};
use crate::rating::{avg_ratings, stored_ratings};
use crate::store::{has_place, Store, StoreView};
use crate::store_archive::{archive_fault, with_ratings_archived};
use crate::store_misc::{count_event_hits, events_archived, subscribers_at};
use crate::store_places::{record_of, store_fault, stored, visible_revisions};
use crate::store_ratings::{count_rating_hits, live_ratings_of_places, places_of_ratings};
use crate::store_users::{has_user, tokens_replaced};
use crate::usecases::{
    new_place, new_place_fault, owned_by, place_rev, prepare_new_place_rev, store_new_place_rev,
    tags_stored, NewEntry,
};
use vstd::prelude::*;

verus! {

/// All categories, in the order in which they are listed.
pub open spec fn every_category() -> Seq<CategoryView> {
    seq![
        CategoryView { uid: CATEGORY_UID_NON_PROFIT@, tag: CATEGORY_TAG_NON_PROFIT@ },
        CategoryView { uid: CATEGORY_UID_COMMERCIAL@, tag: CATEGORY_TAG_COMMERCIAL@ },
        CategoryView { uid: CATEGORY_UID_EVENT@, tag: CATEGORY_TAG_EVENT@ },
    ]
}

/// All categories.
pub fn all_categories() -> (out: Vec<Category>)
    ensures
        out.deep_view() == every_category(),
{
    let mut out: Vec<Category> = Vec::new();
    out.push(
        Category { uid: CATEGORY_UID_NON_PROFIT.to_owned(), tag: CATEGORY_TAG_NON_PROFIT.to_owned() },
    );
    out.push(
        Category { uid: CATEGORY_UID_COMMERCIAL.to_owned(), tag: CATEGORY_TAG_COMMERCIAL.to_owned() },
    );
    out.push(Category { uid: CATEGORY_UID_EVENT.to_owned(), tag: CATEGORY_TAG_EVENT.to_owned() });
    assert(out.deep_view() =~= every_category());
    out
}

/// The request to take up a place with the averages of a list of ratings.
pub open spec fn put_request(place: PlaceView, ratings: Seq<RatingView>) -> IndexRequest {
    IndexRequest::Put { place, ratings: stored_ratings(ratings) }
}

/// The request to take up a place with the averages of the ratings that
/// the store holds of it and that are not archived.
pub open spec fn place_request(store: StoreView, place: PlaceView) -> IndexRequest {
    put_request(place, live_ratings_of_places(store.ratings, seq![place.uid]))
}

/// Whether an index has been asked `put` and then, unless it has failed at
/// that, to make it visible, and nothing else.
pub open spec fn reindexed<I: PlaceIndexer>(before: I, put: IndexRequest, after: I) -> bool {
    led_to(before, seq![put, IndexRequest::Flush], after) || led_to(before, seq![put], after)
}

/// Puts a place with its ratings into the index and makes it visible: the
/// index is asked to take up the place with the averages of the ratings,
/// and then, unless it has failed, to make that visible. What the index
/// answers is handed back.
pub fn reindex_place<I: PlaceIndexer>(indexer: &mut I, place: &Place, ratings: &Vec<Rating>) -> (r:
    Result<(), IndexError>)
    ensures
        match r {
            Ok(_) => led_to(
                *old(indexer),
                seq![put_request(place@, ratings.deep_view()), IndexRequest::Flush],
                *final(indexer),
            ),
            Err(_) => led_to(
                *old(indexer),
                seq![put_request(place@, ratings.deep_view()), IndexRequest::Flush],
                *final(indexer),
            ) || led_to(
                *old(indexer),
                seq![put_request(place@, ratings.deep_view())],
                *final(indexer),
            ),
        },
{
    let ghost start = *indexer;
    let ghost put = put_request(place@, ratings.deep_view());
    let added = indexer.add_or_update_place(place, &avg_ratings(ratings));
    let ghost mid = *indexer;
    proof {
        lemma_led_on(start, Seq::empty(), start, put, mid);
        assert(Seq::<IndexRequest>::empty().push(put) == seq![put]);
    }
    match added {
        Ok(_) => {
            let r = indexer.flush();
            proof {
                lemma_led_on(start, seq![put], mid, IndexRequest::Flush, *indexer);
                assert(seq![put].push(IndexRequest::Flush) == seq![put, IndexRequest::Flush]);
            }
            r
        },
        Err(e) => Err(e),
    }
}

/// The e-mails that tell of a new place: one to each who has subscribed to
/// a part of the map in which the place lies.
pub open spec fn place_added_emails(store: StoreView, place: PlaceView) -> Seq<EmailView> {
    emails_to(
        subscribers_at(store.subscriptions, place.location.pos),
        PLACE_ADDED_SUBJECT@ + place.title,
        place_body(place, category_names(every_category(), place.tags)),
    )
}

/// The e-mails that tell of a change of a place.
pub open spec fn place_updated_emails(store: StoreView, place: PlaceView) -> Seq<EmailView> {
    emails_to(
        subscribers_at(store.subscriptions, place.location.pos),
        PLACE_UPDATED_SUBJECT@ + place.title,
        place_body(place, category_names(every_category(), place.tags)),
    )
}

/// Tells those of a new place who have subscribed to the part of the map
/// in which it lies.
pub fn notify_place_added(db: &Store, outbox: &mut Outbox, place: &Place)
    ensures
        final(outbox)@ == old(outbox)@ + place_added_emails(db@, place@),
{
    let email_addresses = db.email_addresses_by_coordinate(place.location.pos);
    entry_added(outbox, &email_addresses, place, all_categories());
}

/// Tells those of a change of a place who have subscribed to the part of
/// the map in which it lies.
pub fn notify_place_updated(db: &Store, outbox: &mut Outbox, place: &Place)
    ensures
        final(outbox)@ == old(outbox)@ + place_updated_emails(db@, place@),
{
    let email_addresses = db.email_addresses_by_coordinate(place.location.pos);
    entry_updated(outbox, &email_addresses, place, all_categories());
}

/// Why a new place cannot be created, if it cannot: something is wrong with
/// what was entered, or the store refuses the place.
pub open spec fn create_place_fault(
    store: StoreView,
    e: crate::usecases::NewEntryView,
    uid: Seq<char>,
    now: Timestamp,
    by: Option<Seq<char>>,
) -> Option<Error> {
    match new_place_fault(store, e, uid, now, by) {
        Some(fault) => Some(Error::Parameter(fault)),
        None => store_fault(store, new_place(e, uid, now, by)),
    }
}

/// Creates a place of what a user has entered: stores its first revision,
/// puts it into the index, and tells those who have subscribed to the part
/// of the map in which it lies. `uid` becomes the identifier of the place.
///
/// Where what was entered is refused, or the store refuses the place,
/// nothing is changed and the index is not asked anything. Once the place
/// is stored, the index is asked to take it up, without ratings, and to
/// make it visible; a failure of the index does not undo what is stored.
pub fn create_place<I: PlaceIndexer>(
    db: &mut Store,
    indexer: &mut I,
    outbox: &mut Outbox,
    new_place: NewEntry,
    account_email: Option<&str>,
    uid: String,
    now: Timestamp,
) -> (r: Result<Place, Error>)
    requires
        old(db).wf(),
    ensures
        final(db).wf(),
        match r {
            Ok(place) => {
                &&& create_place_fault(
                    old(db)@,
                    new_place@,
                    uid@,
                    now,
                    account_email.deep_view(),
                ) is None
                &&& place@ == crate::usecases::new_place(
                    new_place@,
                    uid@,
                    now,
                    account_email.deep_view(),
                )
                &&& final(db)@ == (StoreView {
                    tags: tags_stored(old(db)@.tags, place@.tags),
                    ..stored(old(db)@, place@, None)
                })
                &&& final(outbox)@ == old(outbox)@ + place_added_emails(old(db)@, place@)
                &&& reindexed(
                    *old(indexer),
                    put_request(place@, Seq::empty()),
                    *final(indexer),
                )
            },
            Err(e) => {
                &&& create_place_fault(
                    old(db)@,
                    new_place@,
                    uid@,
                    now,
                    account_email.deep_view(),
                ) == Some(e)
                &&& final(db)@ == old(db)@
                &&& final(outbox)@ == old(outbox)@
                &&& *final(indexer) == *old(indexer)
            },
        },
{
    let storable = match prepare_new_place_rev(db, new_place, account_email, uid, now) {
        Ok(storable) => storable,
        Err(e) => {
            return Err(e);
        },
    };
    let (place, ratings) = match store_new_place_rev(db, storable) {
        Ok(stored) => stored,
        Err(e) => {
            return Err(e);
        },
    };
    proof {
        assert(ratings.deep_view() =~= Seq::<RatingView>::empty());
    }
    let _ = reindex_place(indexer, &place, &ratings);
    notify_place_added(db, outbox, &place);
    Ok(place)
}

/// Changes a place to what a user has entered: stores the next revision,
/// puts it into the index, and tells those who have subscribed to the part
/// of the map in which it lies.
///
/// Where the change is refused, nothing is changed and the index is not
/// asked anything. Once the revision is stored, the index is asked to take
/// up the place with the averages of the ratings that it has, and to make
/// that visible.
pub fn update_place<I: PlaceIndexer>(
    db: &mut Store,
    indexer: &mut I,
    outbox: &mut Outbox,
    uid: &str,
    entry: NewEntry,
    account_email: Option<&str>,
    org: Option<&Organization>,
    now: Timestamp,
) -> (r: Result<Place, Error>)
    requires
        old(db).wf(),
    ensures
        final(db).wf(),
        match r {
            Ok(place) => {
                &&& update_fault(
                    old(db)@,
                    uid@,
                    entry@,
                    account_email.deep_view(),
                    owned_by(org),
                    now,
                ) is None
                &&& place@ == place_rev(
                    entry@,
                    uid@,
                    (record_of(old(db)@.places, uid@).current_rev + 1) as u64,
                    now,
                    account_email.deep_view(),
                )
                &&& store_fault(old(db)@, place@) is None
                &&& final(db)@ == (StoreView {
                    tags: tags_stored(old(db)@.tags, place@.tags),
                    ..stored(old(db)@, place@, None)
                })
                &&& final(outbox)@ == old(outbox)@ + place_updated_emails(old(db)@, place@)
                &&& reindexed(
                    *old(indexer),
                    place_request(final(db)@, place@),
                    *final(indexer),
                )
            },
            Err(e) => {
                &&& final(db)@ == old(db)@
                &&& final(outbox)@ == old(outbox)@
                &&& *final(indexer) == *old(indexer)
                &&& match update_fault(
                    old(db)@,
                    uid@,
                    entry@,
                    account_email.deep_view(),
                    owned_by(org),
                    now,
                ) {
                    Some(fault) => e == fault,
                    None => store_fault(
                        old(db)@,
                        place_rev(
                            entry@,
                            uid@,
                            (record_of(old(db)@.places, uid@).current_rev + 1) as u64,
                            now,
                            account_email.deep_view(),
                        ),
                    ) == Some(e),
                }
            },
        },
{
    let storable = match crate::moderation::prepare_updated_place_rev(
        db,
        uid,
        entry,
        account_email,
        org,
        now,
    ) {
        Ok(storable) => storable,
        Err(e) => {
            return Err(e);
        },
    };
    let (place, _) = match store_new_place_rev(db, storable) {
        Ok(stored) => stored,
        Err(e) => {
            return Err(e);
        },
    };
    let ratings = db.load_ratings_of_place(place.uid.as_str());
    let _ = reindex_place(indexer, &place, &ratings);
    notify_place_updated(db, outbox, &place);
    Ok(place)
}

/// Archives places in the store, on behalf of a user, who must be a scout
/// at least. With the places their ratings are archived, and the comments
/// on these.
pub fn exec_archive_places(db: &mut Store, ids: &[&str], account_email: &str, now: Timestamp) -> (r:
    Result<(), Error>)
    requires
        old(db).wf(),
    ensures
        final(db).wf(),
        match r {
            Ok(_) => {
                &&& archive_places_fault(old(db)@, ids.deep_view(), account_email@) is None
                &&& final(db)@ == with_places_archived(
                    old(db)@,
                    ids.deep_view(),
                    ActivityView { at: now, by: Some(account_email@) },
                )
            },
            Err(e) => {
                &&& archive_places_fault(old(db)@, ids.deep_view(), account_email@) == Some(e)
                &&& final(db)@ == old(db)@
            },
        },
{
    match crate::moderation::archive_places(db, ids, account_email, now) {
        Ok(_) => Ok(()),
        Err(e) => Err(e),
    }
}

/// The requests to give up the named places, one for each name.
pub open spec fn removals(ids: Seq<Seq<char>>) -> Seq<IndexRequest> {
    Seq::new(ids.len(), |i: int| IndexRequest::Remove { id: ids[i] })
}

/// Takes archived places out of the index, one after the other, and makes
/// that visible: the index is asked to give up each of the named places,
/// and then to make that visible. A failure of the index is passed over.
pub fn post_archive_places<I: PlaceIndexer>(indexer: &mut I, ids: &[&str]) -> (r: Result<(), Error>)
    ensures
        r is Ok,
        led_to(
            *old(indexer),
            removals(ids.deep_view()).push(IndexRequest::Flush),
            *final(indexer),
        ),
{
    let ghost start = *indexer;
    let ghost names = ids.deep_view();
    let mut i: usize = 0;
    proof {
        assert(removals(names.take(0)) == Seq::<IndexRequest>::empty());
    }
    while i < ids.len()
        invariant
            i <= ids.len(),
            names == ids.deep_view(),
            led_to(start, removals(names.take(i as int)), *indexer),
        decreases ids.len() - i,
    {
        let ghost mid = *indexer;
        let _ = indexer.remove_place_by_id(ids[i]);
        proof {
            let request = IndexRequest::Remove { id: ids[i as int]@ };
            lemma_led_on(start, removals(names.take(i as int)), mid, request, *indexer);
            assert(names[i as int] == ids[i as int]@);
            assert(removals(names.take(i as int)).push(request) == removals(
                names.take(i as int + 1),
            ));
        }
        i += 1;
    }
    let ghost mid = *indexer;
    let _ = indexer.flush();
    proof {
        assert(names.take(names.len() as int) == names);
        lemma_led_on(start, removals(names), mid, IndexRequest::Flush, *indexer);
    }
    Ok(())
}

/// Archives places: in the store first, and there with their ratings and
/// the comments on these, and then in the index. Where the store refuses,
/// nothing is changed, and the index is left alone.
pub fn archive_places<I: PlaceIndexer>(
    db: &mut Store,
    indexer: &mut I,
    ids: &[&str],
    account_email: &str,
    now: Timestamp,
) -> (r: Result<(), Error>)
    requires
        old(db).wf(),
    ensures
        final(db).wf(),
        match r {
            Ok(_) => {
                &&& archive_places_fault(old(db)@, ids.deep_view(), account_email@) is None
                &&& final(db)@ == with_places_archived(
                    old(db)@,
                    ids.deep_view(),
                    ActivityView { at: now, by: Some(account_email@) },
                )
                &&& led_to(
                    *old(indexer),
                    removals(ids.deep_view()).push(IndexRequest::Flush),
                    *final(indexer),
                )
            },
            Err(e) => {
                &&& archive_places_fault(old(db)@, ids.deep_view(), account_email@) == Some(e)
                &&& final(db)@ == old(db)@
                &&& *final(indexer) == *old(indexer)
            },
        },
{
    match exec_archive_places(db, ids, account_email, now) {
        Ok(_) => {},
        Err(e) => {
            return Err(e);
        },
    }
    post_archive_places(indexer, ids)
}

/// Archives ratings in the store, and with them the comments on them, on
/// behalf of a user, who must be a scout at least.
pub fn exec_archive_ratings(db: &mut Store, account_email: &str, ids: &[&str], now: Timestamp) -> (r:
    Result<(), Error>)
    requires
        old(db).wf(),
    ensures
        final(db).wf(),
        match r {
            Ok(_) => {
                &&& archive_fault_for(
                    old(db)@.users,
                    account_email@,
                    count_rating_hits(old(db)@.ratings, ids.deep_view()),
                    ids.len() as nat,
                ) is None
                &&& final(db)@ == with_ratings_archived(old(db)@, ids.deep_view(), now)
            },
            Err(e) => {
                &&& archive_fault_for(
                    old(db)@.users,
                    account_email@,
                    count_rating_hits(old(db)@.ratings, ids.deep_view()),
                    ids.len() as nat,
                ) == Some(e)
                &&& final(db)@ == old(db)@
            },
        },
{
    match crate::moderation::archive_ratings(db, account_email, ids, now) {
        Ok(_) => Ok(()),
        Err(e) => Err(e),
    }
}

/// The requests to take up those of the named places that are shown, each
/// with the averages of the ratings that it has left.
pub open spec fn puts_of_shown(store: StoreView, uids: Seq<Seq<char>>) -> Seq<IndexRequest>
    decreases uids.len(),
{
    if uids.len() == 0 {
        Seq::empty()
    } else {
        let before = puts_of_shown(store, uids.drop_last());
        let uid = uids.last();
        if has_place(store.places, uid) && record_of(store.places, uid).visible() {
            before.push(place_request(store, record_of(store.places, uid).current().place))
        } else {
            before
        }
    }
}

/// Puts each place of which a rating has been archived into the index
/// anew, with the ratings that it has left, and makes that visible: the
/// index is asked to take up each place of the named ratings that is
/// shown, and then to make that visible. A place that is not shown is
/// passed over, and so is a failure of the index.
pub fn post_archive_ratings<I: PlaceIndexer>(db: &Store, indexer: &mut I, ids: &[&str]) -> (r:
    Result<(), Error>)
    requires
        db.wf(),
    ensures
        r is Ok,
        led_to(
            *old(indexer),
            puts_of_shown(db@, places_of_ratings(db@.ratings, ids.deep_view())).push(
                IndexRequest::Flush,
            ),
            *final(indexer),
        ),
{
    let place_uids = db.load_place_uids_of_ratings(ids);
    let ghost start = *indexer;
    let ghost uids = place_uids.deep_view();
    let mut i: usize = 0;
    proof {
        assert(uids.take(0) == Seq::<Seq<char>>::empty());
    }
    while i < place_uids.len()
        invariant
            i <= place_uids.len(),
            db.wf(),
            uids == place_uids.deep_view(),
            led_to(start, puts_of_shown(db@, uids.take(i as int)), *indexer),
        decreases place_uids.len() - i,
    {
        proof {
            assert(uids.take(i as int + 1).drop_last() == uids.take(i as int));
            assert(uids.take(i as int + 1).last() == place_uids[i as int]@);
        }
        match db.get_place(place_uids[i].as_str()) {
            Ok(revision) => {
                let ratings = db.load_ratings_of_place(revision.place.uid.as_str());
                let ghost mid = *indexer;
                let _ = indexer.add_or_update_place(&revision.place, &avg_ratings(&ratings));
                proof {
                    lemma_led_on(
                        start,
                        puts_of_shown(db@, uids.take(i as int)),
                        mid,
                        place_request(db@, revision@.place),
                        *indexer,
                    );
                }
            },
            Err(_) => {},
        }
        i += 1;
    }
    let ghost mid = *indexer;
    let _ = indexer.flush();
    proof {
        assert(uids.take(uids.len() as int) == uids);
        lemma_led_on(start, puts_of_shown(db@, uids), mid, IndexRequest::Flush, *indexer);
    }
    Ok(())
}

/// Archives ratings: in the store first, and there with the comments on
/// them, and then the places that were rated are put into the index anew,
/// each with the ratings that it has left. Where the store refuses,
/// nothing is changed, and the index is left alone.
pub fn archive_ratings<I: PlaceIndexer>(
    db: &mut Store,
    indexer: &mut I,
    account_email: &str,
    ids: &[&str],
    now: Timestamp,
) -> (r: Result<(), Error>)
    requires
        old(db).wf(),
    ensures
        final(db).wf(),
        match r {
            Ok(_) => {
                &&& archive_fault_for(
                    old(db)@.users,
                    account_email@,
                    count_rating_hits(old(db)@.ratings, ids.deep_view()),
                    ids.len() as nat,
                ) is None
                &&& final(db)@ == with_ratings_archived(old(db)@, ids.deep_view(), now)
                &&& led_to(
                    *old(indexer),
                    puts_of_shown(
                        final(db)@,
                        places_of_ratings(final(db)@.ratings, ids.deep_view()),
                    ).push(IndexRequest::Flush),
                    *final(indexer),
                )
            },
            Err(e) => {
                &&& archive_fault_for(
                    old(db)@.users,
                    account_email@,
                    count_rating_hits(old(db)@.ratings, ids.deep_view()),
                    ids.len() as nat,
                ) == Some(e)
                &&& final(db)@ == old(db)@
                &&& *final(indexer) == *old(indexer)
            },
        },
{
    match exec_archive_ratings(db, account_email, ids, now) {
        Ok(_) => {},
        Err(e) => {
            return Err(e);
        },
    }
    post_archive_ratings(db, indexer, ids)
}

/// Archives events. Each of them must be there and not archived yet;
/// otherwise nothing changes.
pub fn archive_events(db: &mut Store, ids: &[&str], now: Timestamp) -> (r: Result<(), Error>)
    requires
        old(db).wf(),
    ensures
        final(db).wf(),
        match r {
            Ok(_) => {
                &&& archive_fault(
                    count_event_hits(old(db)@.events, ids.deep_view()),
                    ids.len() as nat,
                ) is None
                &&& final(db)@ == (StoreView {
                    events: events_archived(old(db)@.events, ids.deep_view(), now),
                    ..old(db)@
                })
            },
            Err(e) => {
                &&& archive_fault(
                    count_event_hits(old(db)@.events, ids.deep_view()),
                    ids.len() as nat,
                ) matches Some(fault)
                &&& e == Error::Repo(fault)
                &&& final(db)@ == old(db)@
            },
        },
{
    match crate::moderation::archive_events(db, ids, now) {
        Ok(_) => Ok(()),
        Err(e) => Err(e),
    }
}

/// Rates a place: stores the rating and the comment that comes with it,
/// and puts the place into the index anew, so that the new rating counts
/// for its rank. Returns the identifiers of the rating and the comment.
///
/// Where the rating is refused, nothing is changed and the index is not
/// asked anything. Once it is stored, the index is asked to take up the
/// place with the averages of its ratings, the new one among them, and to
/// make that visible, if the place is shown.
pub fn create_rating<I: PlaceIndexer>(
    db: &mut Store,
    indexer: &mut I,
    rate: NewPlaceRating,
    rating_uid: String,
    comment_uid: String,
    now: Timestamp,
) -> (r: Result<(String, String), Error>)
    requires
        old(db).wf(),
    ensures
        final(db).wf(),
        match r {
            Ok((rating_id, comment_id)) => {
                &&& rate_fault(old(db)@, rate@, rating_uid@, comment_uid@) is None
                &&& rating_id@ == rating_uid@
                &&& comment_id@ == comment_uid@
                &&& final(db)@ == (StoreView {
                    ratings: old(db)@.ratings.push(new_rating(rate@, rating_uid@, now)),
                    comments: old(db)@.comments.push(
                        new_comment(rate@, comment_uid@, rating_uid@, now),
                    ),
                    ..old(db)@
                })
                &&& if has_place(final(db)@.places, rate@.entry) && record_of(
                    final(db)@.places,
                    rate@.entry,
                ).visible() {
                    reindexed(
                        *old(indexer),
                        place_request(
                            final(db)@,
                            record_of(final(db)@.places, rate@.entry).current().place,
                        ),
                        *final(indexer),
                    )
                } else {
                    *final(indexer) == *old(indexer)
                }
            },
            Err(e) => {
                &&& rate_fault(old(db)@, rate@, rating_uid@, comment_uid@) == Some(e.spec_kind())
                &&& final(db)@ == old(db)@
                &&& *final(indexer) == *old(indexer)
            },
        },
{
    let place_uid = rate.entry.clone();
    let ids = match crate::moderation::rate_place(db, rate, rating_uid, comment_uid, now) {
        Ok(ids) => ids,
        Err(e) => {
            return Err(e);
        },
    };
    match db.get_place(place_uid.as_str()) {
        Ok(revision) => {
            let ratings = db.load_ratings_of_place(revision.place.uid.as_str());
            let _ = reindex_place(indexer, &revision.place, &ratings);
        },
        Err(_) => {},
    }
    Ok(ids)
}

/// The requests to take up every place that is shown, each with the
/// averages of the ratings that it has, in the order of the places.
pub open spec fn puts_of_all(store: StoreView) -> Seq<IndexRequest> {
    let shown = visible_revisions(store.places);
    Seq::new(shown.len(), |i: int| place_request(store, shown[i].place))
}

/// Puts every place that is shown into the index, with its ratings, and
/// makes that visible. Returns how many places these were, or the first
/// failure of the index: after a failure the index is asked nothing more.
pub fn reindex_all<I: PlaceIndexer>(db: &Store, indexer: &mut I) -> (r: Result<usize, IndexError>)
    requires
        db.wf(),
    ensures
        match r {
            Ok(count) => {
                &&& count == visible_revisions(db@.places).len()
                &&& led_to(
                    *old(indexer),
                    puts_of_all(db@).push(IndexRequest::Flush),
                    *final(indexer),
                )
            },
            Err(_) => {
                ||| led_to(
                    *old(indexer),
                    puts_of_all(db@).push(IndexRequest::Flush),
                    *final(indexer),
                )
                ||| exists|k: int|
                    0 < k <= puts_of_all(db@).len() && led_to(
                        *old(indexer),
                        #[trigger] puts_of_all(db@).take(k),
                        *final(indexer),
                    )
            },
        },
{
    let places = db.all_places();
    let ghost start = *indexer;
    let ghost puts = puts_of_all(db@);
    let mut i: usize = 0;
    proof {
        assert(puts.take(0) == Seq::<IndexRequest>::empty());
    }
    while i < places.len()
        invariant
            i <= places.len(),
            places.deep_view() == visible_revisions(db@.places),
            puts == puts_of_all(db@),
            start == *old(indexer),
            led_to(start, puts.take(i as int), *indexer),
        decreases places.len() - i,
    {
        let ratings = db.load_ratings_of_place(places[i].place.uid.as_str());
        let ghost mid = *indexer;
        let added = indexer.add_or_update_place(&places[i].place, &avg_ratings(&ratings));
        proof {
            assert(places.deep_view()[i as int] == places[i as int]@);
            let request = place_request(db@, places[i as int]@.place);
            lemma_led_on(start, puts.take(i as int), mid, request, *indexer);
            assert(puts.take(i as int).push(request) == puts.take(i as int + 1));
        }
        match added {
            Ok(_) => {},
            Err(e) => {
                proof {
                    let k = i as int + 1;
                    assert(places.deep_view().len() == places.len());
                    assert(0 < k <= puts_of_all(db@).len());
                    assert(led_to(start, puts_of_all(db@).take(k), *indexer));
                }
                return Err(e);
            },
        }
        i += 1;
    }
    let ghost mid = *indexer;
    let flushed = indexer.flush();
    proof {
        assert(puts.take(puts.len() as int) == puts);
        lemma_led_on(start, puts, mid, IndexRequest::Flush, *indexer);
    }
    match flushed {
        Ok(_) => Ok(places.len()),
        Err(e) => Err(e),
    }
}

/// Issues a token with which a user can choose a new password, and sends
/// it to the user.
pub fn reset_password_request(
    db: &mut Store,
    outbox: &mut Outbox,
    email: &str,
    nonce: Nonce,
    expires_at: Timestamp,
) -> (r: Result<EmailNonce, Error>)
    requires
        old(db).wf(),
    ensures
        final(db).wf(),
        match r {
            Ok(email_nonce) => {
                &&& has_user(old(db)@.users, email@)
                &&& email_nonce@ == (EmailNonceView { email: email@, nonce })
                &&& final(db)@ == (StoreView {
                    tokens: tokens_replaced(
                        old(db)@.tokens,
                        UserTokenView { email_nonce: email_nonce@, expires_at },
                    ),
                    ..old(db)@
                })
                &&& final(outbox)@ == old(outbox)@ + emails_to(
                    seq![email@],
                    RESET_PASSWORD_SUBJECT@,
                    RESET_PASSWORD_BODY@ + (RESET_PASSWORD_URL@ + encoded(email@, nonce)),
                )
            },
            Err(e) => {
                &&& e == Error::Repo(RepoError::NotFound)
                &&& !has_user(old(db)@.users, email@)
                &&& final(db)@ == old(db)@
                &&& final(outbox)@ == old(outbox)@
            },
        },
{
    let email_nonce = match crate::moderation::reset_password_request(db, email, nonce, expires_at) {
        Ok(email_nonce) => email_nonce,
        Err(e) => {
            return Err(e);
        },
    };
    user_reset_password_requested(outbox, &email_nonce);
    Ok(email_nonce)
}

} // verus!

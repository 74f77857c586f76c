//! The store: everything that the directory knows, and what must hold of
//! it at all times.
//!
//! A place is stored with all of its revisions. New revisions are added at
//! the end; none is ever changed but in its status, and none is removed.
//! Every change of a status is written into the status log.

use crate::entities::{
    Activity, ActivityView, BboxSubscription, BboxSubscriptionView, Comment, CommentView, Event,
    EventView, Organization, OrganizationView, Place, PlaceView, Rating, RatingView,
    ReviewStatus, User, UserView,
};
use crate::nonce::{UserToken, UserTokenView};
use vstd::prelude::*;

verus! {

/// One revision of a place together with its state in moderation.
#[derive(Debug, PartialEq, Eq)]
pub struct PlaceRevision {
    pub place: Place,
    pub status: ReviewStatus,
}

pub struct PlaceRevisionView {
    pub place: PlaceView,
    pub status: ReviewStatus,
}

impl View for PlaceRevision {
    type V = PlaceRevisionView;

    open spec fn view(&self) -> PlaceRevisionView {
        PlaceRevisionView { place: self.place@, status: self.status }
    }
}

impl DeepView for PlaceRevision {
    type V = PlaceRevisionView;

    open spec fn deep_view(&self) -> PlaceRevisionView {
        self@
    }
}

/// A place with all of its revisions, and the number of the current one.
#[derive(Debug, PartialEq, Eq)]
pub struct PlaceRecord {
    pub uid: String,
    pub license: String,
    /// The number of the revision that is current.
    pub current_rev: u64,
    /// The revisions in the order of their numbers.
    pub revisions: Vec<PlaceRevision>,
}

pub struct PlaceRecordView {
    pub uid: Seq<char>,
    pub license: Seq<char>,
    pub current_rev: u64,
    pub revisions: Seq<PlaceRevisionView>,
}

impl View for PlaceRecord {
    type V = PlaceRecordView;

    open spec fn view(&self) -> PlaceRecordView {
        PlaceRecordView {
            uid: self.uid@,
            license: self.license@,
            current_rev: self.current_rev,
            revisions: self.revisions.deep_view(),
        }
    }
}

impl DeepView for PlaceRecord {
    type V = PlaceRecordView;

    open spec fn deep_view(&self) -> PlaceRecordView {
        self@
    }
}

/// A change of the status of one revision.
#[derive(Debug, PartialEq, Eq)]
pub struct StatusLogEntry {
    pub place_uid: String,
    pub rev: u64,
    /// The status that the revision has got.
    pub status: ReviewStatus,
    /// When the status was changed, and by whom.
    pub activity: Activity,
    pub context: Option<String>,
    pub note: Option<String>,
}

pub struct StatusLogEntryView {
    pub place_uid: Seq<char>,
    pub rev: u64,
    pub status: ReviewStatus,
    pub activity: ActivityView,
    pub context: Option<Seq<char>>,
    pub note: Option<Seq<char>>,
}

impl View for StatusLogEntry {
    type V = StatusLogEntryView;

    open spec fn view(&self) -> StatusLogEntryView {
        StatusLogEntryView {
            place_uid: self.place_uid@,
            rev: self.rev,
            status: self.status,
            activity: self.activity@,
            context: self.context.deep_view(),
            note: self.note.deep_view(),
        }
    }
}

impl DeepView for StatusLogEntry {
    type V = StatusLogEntryView;

    open spec fn deep_view(&self) -> StatusLogEntryView {
        self@
    }
}

/// Everything that is stored.
#[derive(Debug, PartialEq, Eq)]
pub struct Store {
    pub places: Vec<PlaceRecord>,
    /// The changes of status, the oldest first.
    pub status_log: Vec<StatusLogEntry>,
    pub ratings: Vec<Rating>,
    pub comments: Vec<Comment>,
    pub users: Vec<User>,
    pub tokens: Vec<UserToken>,
    pub organizations: Vec<Organization>,
    pub subscriptions: Vec<BboxSubscription>,
    pub tags: Vec<String>,
    pub events: Vec<Event>,
}

pub struct StoreView {
    pub places: Seq<PlaceRecordView>,
    pub status_log: Seq<StatusLogEntryView>,
    pub ratings: Seq<RatingView>,
    pub comments: Seq<CommentView>,
    pub users: Seq<UserView>,
    pub tokens: Seq<UserTokenView>,
    pub organizations: Seq<OrganizationView>,
    pub subscriptions: Seq<BboxSubscriptionView>,
    pub tags: Seq<Seq<char>>,
    pub events: Seq<EventView>,
}

impl View for Store {
    type V = StoreView;

    open spec fn view(&self) -> StoreView {
        StoreView {
            places: self.places.deep_view(),
            status_log: self.status_log.deep_view(),
            ratings: self.ratings.deep_view(),
            comments: self.comments.deep_view(),
            users: self.users.deep_view(),
            tokens: self.tokens.deep_view(),
            organizations: self.organizations.deep_view(),
            subscriptions: self.subscriptions.deep_view(),
            tags: self.tags.deep_view(),
            events: self.events.deep_view(),
        }
    }
}

impl PlaceRecordView {
    /// The revisions are numbered from 0 in their order, the last one is
    /// the current one, and each of them is a revision of this place under
    /// its license.
    pub open spec fn wf(self) -> bool {
        &&& self.revisions.len() == self.current_rev + 1
        &&& forall|k: int|
            0 <= k < self.revisions.len() ==> {
                &&& (#[trigger] self.revisions[k]).place.rev == k
                &&& self.revisions[k].place.uid == self.uid
                &&& self.revisions[k].place.license == self.license
            }
    }

    /// The revision that is current.
    pub open spec fn current(self) -> PlaceRevisionView {
        self.revisions[self.current_rev as int]
    }

    /// Whether the place is shown: its current revision is at least
    /// created.
    pub open spec fn visible(self) -> bool {
        self.current().status.existent()
    }
}

/// Whether a place with the given identifier is stored.
pub open spec fn has_place(places: Seq<PlaceRecordView>, uid: Seq<char>) -> bool {
    exists|i: int| 0 <= i < places.len() && (#[trigger] places[i]).uid == uid
}

/// Every place is well formed, and no two have the same identifier.
pub open spec fn places_wf(places: Seq<PlaceRecordView>) -> bool {
    &&& forall|i: int| 0 <= i < places.len() ==> (#[trigger] places[i]).wf()
    &&& forall|i: int, j: int|
        0 <= i < j < places.len() ==> (#[trigger] places[i]).uid != (#[trigger] places[j]).uid
}

/// Whether an entry of the status log speaks of the given revision.
pub open spec fn entry_of(entry: StatusLogEntryView, uid: Seq<char>, rev: int) -> bool {
    entry.place_uid == uid && entry.rev == rev
}

/// The status that the status log gave a revision last.
pub open spec fn last_status(log: Seq<StatusLogEntryView>, uid: Seq<char>, rev: int) -> Option<
    ReviewStatus,
>
    decreases log.len(),
{
    if log.len() == 0 {
        None
    } else if entry_of(log.last(), uid, rev) {
        Some(log.last().status)
    } else {
        last_status(log.drop_last(), uid, rev)
    }
}

/// The status of every revision is the one that the status log gave it
/// last.
pub open spec fn log_wf(places: Seq<PlaceRecordView>, log: Seq<StatusLogEntryView>) -> bool {
    forall|i: int, k: int|
        0 <= i < places.len() && 0 <= k < places[i].revisions.len() ==> last_status(
            log,
            places[i].uid,
            k,
        ) == Some((#[trigger] places[i].revisions[k]).status)
}

/// Whether an entry of the status log speaks of a revision that is stored.
pub open spec fn entry_known(places: Seq<PlaceRecordView>, entry: StatusLogEntryView) -> bool {
    exists|i: int|
        0 <= i < places.len() && (#[trigger] places[i]).uid == entry.place_uid && entry.rev
            <= places[i].current_rev
}

/// Every entry of the status log speaks of a revision that is stored.
pub open spec fn log_known(places: Seq<PlaceRecordView>, log: Seq<StatusLogEntryView>) -> bool {
    forall|n: int| 0 <= n < log.len() ==> entry_known(places, #[trigger] log[n])
}

/// The status log still speaks of stored revisions only after places have
/// been added or have got new revisions, and after an entry has been
/// written that speaks of a stored revision.
pub proof fn lemma_log_known_step(
    places: Seq<PlaceRecordView>,
    log: Seq<StatusLogEntryView>,
    new_places: Seq<PlaceRecordView>,
    new_log: Seq<StatusLogEntryView>,
)
    requires
        log_known(places, log),
        places.len() <= new_places.len(),
        forall|i: int|
            0 <= i < places.len() ==> (#[trigger] new_places[i]).uid == places[i].uid
                && new_places[i].current_rev >= places[i].current_rev,
        new_log == log || (new_log.len() == log.len() + 1 && new_log.drop_last() == log
            && entry_known(new_places, new_log.last())),
    ensures
        log_known(new_places, new_log),
{
    assert forall|n: int| 0 <= n < new_log.len() implies entry_known(
        new_places,
        #[trigger] new_log[n],
    ) by {
        if n < log.len() {
            assert(new_log[n] == log[n]) by {
                if new_log != log {
                    assert(new_log.drop_last()[n] == new_log[n]);
                }
            }
            let i = choose|i: int|
                0 <= i < places.len() && (#[trigger] places[i]).uid == log[n].place_uid
                    && log[n].rev <= places[i].current_rev;
            assert(new_places[i].uid == places[i].uid);
        } else {
            assert(new_log[n] == new_log.last());
        }
    }
}

/// No two ratings have the same identifier.
pub open spec fn ratings_wf(ratings: Seq<RatingView>) -> bool {
    forall|i: int, j: int|
        0 <= i < j < ratings.len() ==> (#[trigger] ratings[i]).uid != (#[trigger] ratings[j]).uid
}

/// Whether a rating with the given identifier is stored.
pub open spec fn has_rating(ratings: Seq<RatingView>, uid: Seq<char>) -> bool {
    exists|i: int| 0 <= i < ratings.len() && (#[trigger] ratings[i]).uid == uid
}

/// No two comments have the same identifier, every comment is a comment on
/// a rating that is stored, and every comment on an archived rating is
/// archived.
pub open spec fn comments_wf(ratings: Seq<RatingView>, comments: Seq<CommentView>) -> bool {
    &&& forall|i: int, j: int|
        0 <= i < j < comments.len() ==> (#[trigger] comments[i]).uid != (#[trigger] comments[j]).uid
    &&& forall|j: int|
        0 <= j < comments.len() ==> has_rating(ratings, (#[trigger] comments[j]).rating_uid)
    &&& forall|i: int, j: int|
        0 <= i < ratings.len() && 0 <= j < comments.len() && (#[trigger] comments[j]).rating_uid
            == (#[trigger] ratings[i]).uid && ratings[i].archived_at is Some
            ==> comments[j].archived_at is Some
}

/// No two users have the same e-mail address.
pub open spec fn users_wf(users: Seq<UserView>) -> bool {
    forall|i: int, j: int|
        0 <= i < j < users.len() ==> (#[trigger] users[i]).email != (#[trigger] users[j]).email
}

/// No user has more than one token.
pub open spec fn tokens_wf(tokens: Seq<UserTokenView>) -> bool {
    forall|i: int, j: int|
        0 <= i < j < tokens.len() ==> (#[trigger] tokens[i]).email_nonce.email != (
        #[trigger] tokens[j]).email_nonce.email
}

impl StoreView {
    /// What holds of the store at all times.
    pub open spec fn wf(self) -> bool {
        &&& places_wf(self.places)
        &&& log_wf(self.places, self.status_log)
        &&& log_known(self.places, self.status_log)
        &&& ratings_wf(self.ratings)
        &&& comments_wf(self.ratings, self.comments)
        &&& users_wf(self.users)
        &&& tokens_wf(self.tokens)
    }
}

/// The store without anything in it.
pub open spec fn empty_store() -> StoreView {
    StoreView {
        places: Seq::empty(),
        status_log: Seq::empty(),
        ratings: Seq::empty(),
        comments: Seq::empty(),
        users: Seq::empty(),
        tokens: Seq::empty(),
        organizations: Seq::empty(),
        subscriptions: Seq::empty(),
        tags: Seq::empty(),
        events: Seq::empty(),
    }
}

impl Store {
    /// What holds of the store at all times.
    pub open spec fn wf(&self) -> bool {
        self@.wf()
    }

    /// A store without anything in it.
    pub fn new() -> (store: Store)
        ensures
            store@ == empty_store(),
            store.wf(),
    {
        let store = Store {
            places: Vec::new(),
            status_log: Vec::new(),
            ratings: Vec::new(),
            comments: Vec::new(),
            users: Vec::new(),
            tokens: Vec::new(),
            organizations: Vec::new(),
            subscriptions: Vec::new(),
            tags: Vec::new(),
            events: Vec::new(),
        };
        assert(store@.places =~= Seq::empty());
        assert(store@.status_log =~= Seq::empty());
        assert(store@.ratings =~= Seq::empty());
        assert(store@.comments =~= Seq::empty());
        assert(store@.users =~= Seq::empty());
        assert(store@.tokens =~= Seq::empty());
        assert(store@.organizations =~= Seq::empty());
        assert(store@.subscriptions =~= Seq::empty());
        assert(store@.tags =~= Seq::empty());
        assert(store@.events =~= Seq::empty());
        store
    }
}

/// Whether a list of string slices holds the given string.
pub fn slice_contains(list: &[&str], s: &str) -> (b: bool)
    ensures
        b == list.deep_view().contains(s@),
{
    let mut i: usize = 0;
    while i < list.len()
        invariant
            i <= list.len(),
            forall|j: int| 0 <= j < i ==> list.deep_view()[j] != s@,
        decreases list.len() - i,
    {
        if *list[i] == *s {
            assert(list.deep_view()[i as int] == s@);
            return true;
        }
        i += 1;
    }
    false
}

// ---------------------------------------------------------------------
// What holds of the revisions of every place
// ---------------------------------------------------------------------

/// Of every place exactly one revision is current: the one whose number is
/// the number that the place points at.
pub proof fn lemma_one_current_revision(store: StoreView, i: int)
    requires
        store.wf(),
        0 <= i < store.places.len(),
    ensures
        0 <= store.places[i].current_rev < store.places[i].revisions.len(),
        store.places[i].current().place.rev == store.places[i].current_rev,
        forall|k: int|
            0 <= k < store.places[i].revisions.len() ==> ((
            #[trigger] store.places[i].revisions[k]).place.rev == store.places[i].current_rev
                <==> k == store.places[i].current_rev),
{
}

/// The numbers of the revisions of a place are the numbers from 0 to the
/// number of the current revision, each of them once.
pub proof fn lemma_revisions_without_gaps(store: StoreView, i: int, n: int)
    requires
        store.wf(),
        0 <= i < store.places.len(),
    ensures
        forall|k: int|
            0 <= k < store.places[i].revisions.len() ==> 0 <= (
            #[trigger] store.places[i].revisions[k]).place.rev <= store.places[i].current_rev,
        0 <= n <= store.places[i].current_rev ==> {
            &&& 0 <= n < store.places[i].revisions.len()
            &&& store.places[i].revisions[n].place.rev == n
            &&& forall|k: int|
                0 <= k < store.places[i].revisions.len() && (
                #[trigger] store.places[i].revisions[k]).place.rev == n ==> k == n
        },
{
}

/// An entry at the end of the status log gives its revision its status, and
/// leaves what the log says of every other revision.
pub proof fn lemma_last_status_push(
    log: Seq<StatusLogEntryView>,
    entry: StatusLogEntryView,
    uid: Seq<char>,
    rev: int,
)
    ensures
        last_status(log.push(entry), uid, rev) == if entry_of(entry, uid, rev) {
            Some(entry.status)
        } else {
            last_status(log, uid, rev)
        },
{
    assert(log.push(entry).drop_last() == log);
}

} // verus!

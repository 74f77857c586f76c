//! The store of places: adding revisions, archiving, and looking up.

use crate::entities::{Activity, ActivityView, Place, PlaceView, ReviewStatus, Timestamp};
use crate::error::{Error, ParameterError, RepoError};
use crate::store::{
    has_place, last_status, lemma_last_status_push, lemma_log_known_step, log_known, log_wf,
    places_wf, slice_contains, PlaceRecord, PlaceRecordView, PlaceRevision, PlaceRevisionView,
    StatusLogEntry, StatusLogEntryView, Store, StoreView,
};
use crate::validate::{place_fault, validate_place};
use vstd::prelude::*;

verus! {

pub const NOTE_CREATED: &'static str = "created";

pub const NOTE_ARCHIVED: &'static str = "archived";

/// The record of the place with the given identifier.
pub open spec fn record_of(places: Seq<PlaceRecordView>, uid: Seq<char>) -> PlaceRecordView {
    places[choose|i: int| 0 <= i < places.len() && (#[trigger] places[i]).uid == uid]
}

/// The record of a place is the one that has its identifier.
pub proof fn lemma_record_of(places: Seq<PlaceRecordView>, uid: Seq<char>, i: int)
    requires
        places_wf(places),
        0 <= i < places.len(),
        places[i].uid == uid,
    ensures
        record_of(places, uid) == places[i],
{
    let j = choose|j: int| 0 <= j < places.len() && (#[trigger] places[j]).uid == uid;
    if j < i {
        assert(places[j].uid != places[i].uid);
    } else if i < j {
        assert(places[i].uid != places[j].uid);
    }
}

/// The status in which a revision is stored: archived where a time of
/// archiving comes with it, and created otherwise.
pub open spec fn initial_status(archived_at: Option<Timestamp>) -> ReviewStatus {
    if archived_at is Some {
        ReviewStatus::Archived
    } else {
        ReviewStatus::Created
    }
}

/// What the status log says of a revision that is stored.
pub open spec fn initial_entry(place: PlaceView, archived_at: Option<Timestamp>) -> StatusLogEntryView {
    StatusLogEntryView {
        place_uid: place.uid,
        rev: place.rev,
        status: initial_status(archived_at),
        activity: match archived_at {
            Some(at) => ActivityView { at, by: place.created.by },
            None => place.created,
        },
        context: None,
        note: Some(
            if archived_at is Some {
                NOTE_ARCHIVED@
            } else {
                NOTE_CREATED@
            },
        ),
    }
}

/// Why a revision cannot be stored, if it cannot. A revision that does not
/// pass validation is refused for what is wrong with it. The first
/// revision of a place is refused where the place is there already. Any
/// other revision is refused where the place is missing, where its current
/// revision is not the one before, or where the license changes.
pub open spec fn store_fault(store: StoreView, place: PlaceView) -> Option<Error> {
    match place_fault(place) {
        Some(fault) => Some(Error::Parameter(fault)),
        None => if place.rev == 0 {
            if has_place(store.places, place.uid) {
                Some(Error::Repo(RepoError::Conflict))
            } else {
                None
            }
        } else if !has_place(store.places, place.uid) {
            Some(Error::Repo(RepoError::NotFound))
        } else if record_of(store.places, place.uid).current_rev + 1 != place.rev {
            Some(Error::Repo(RepoError::Conflict))
        } else if record_of(store.places, place.uid).license != place.license {
            Some(Error::Parameter(ParameterError::License))
        } else {
            None
        },
    }
}

/// The places with one more revision: a new place where it is the first
/// revision, and otherwise at the end of the revisions of its place, as the
/// current one.
pub open spec fn with_revision(places: Seq<PlaceRecordView>, revision: PlaceRevisionView) -> Seq<
    PlaceRecordView,
> {
    if revision.place.rev == 0 {
        places.push(
            PlaceRecordView {
                uid: revision.place.uid,
                license: revision.place.license,
                current_rev: 0,
                revisions: seq![revision],
            },
        )
    } else {
        Seq::new(
            places.len(),
            |i: int|
                if places[i].uid == revision.place.uid {
                    PlaceRecordView {
                        current_rev: revision.place.rev,
                        revisions: places[i].revisions.push(revision),
                        ..places[i]
                    }
                } else {
                    places[i]
                },
        )
    }
}

/// The store after a revision has been stored.
pub open spec fn stored(store: StoreView, place: PlaceView, archived_at: Option<Timestamp>) -> StoreView {
    StoreView {
        places: with_revision(
            store.places,
            PlaceRevisionView { place, status: initial_status(archived_at) },
        ),
        status_log: store.status_log.push(initial_entry(place, archived_at)),
        ..store
    }
}

/// A record with its current revision archived.
pub open spec fn archived_record(record: PlaceRecordView) -> PlaceRecordView {
    PlaceRecordView {
        revisions: record.revisions.update(
            record.current_rev as int,
            PlaceRevisionView { status: ReviewStatus::Archived, ..record.current() },
        ),
        ..record
    }
}

/// The places with the current revision archived of each that is named.
pub open spec fn archived_places(places: Seq<PlaceRecordView>, uids: Seq<Seq<char>>) -> Seq<
    PlaceRecordView,
> {
    Seq::new(
        places.len(),
        |i: int|
            if uids.contains(places[i].uid) {
                archived_record(places[i])
            } else {
                places[i]
            },
    )
}

/// What the status log says of a place that is archived.
pub open spec fn archived_entry(record: PlaceRecordView, activity: ActivityView) -> StatusLogEntryView {
    StatusLogEntryView {
        place_uid: record.uid,
        rev: record.current_rev,
        status: ReviewStatus::Archived,
        activity,
        context: None,
        note: Some(NOTE_ARCHIVED@),
    }
}

/// Whether archiving changes the status of a place: it is named, and its
/// current revision is not archived yet.
pub open spec fn to_be_archived(record: PlaceRecordView, uids: Seq<Seq<char>>) -> bool {
    uids.contains(record.uid) && record.current().status != ReviewStatus::Archived
}

/// What archiving adds to the status log: one entry for each place whose
/// status changes, in the order of the places.
pub open spec fn archive_log(
    places: Seq<PlaceRecordView>,
    uids: Seq<Seq<char>>,
    activity: ActivityView,
) -> Seq<StatusLogEntryView>
    decreases places.len(),
{
    if places.len() == 0 {
        Seq::empty()
    } else if to_be_archived(places.last(), uids) {
        archive_log(places.drop_last(), uids, activity).push(
            archived_entry(places.last(), activity),
        )
    } else {
        archive_log(places.drop_last(), uids, activity)
    }
}

/// Whether a place is stored under each of the identifiers.
pub open spec fn all_known(places: Seq<PlaceRecordView>, uids: Seq<Seq<char>>) -> bool {
    forall|k: int| 0 <= k < uids.len() ==> has_place(places, #[trigger] uids[k])
}

/// The current revisions of the places that are named and shown, in the
/// order of the places.
pub open spec fn current_revisions(places: Seq<PlaceRecordView>, uids: Seq<Seq<char>>) -> Seq<
    PlaceRevisionView,
>
    decreases places.len(),
{
    if places.len() == 0 {
        Seq::empty()
    } else if uids.contains(places.last().uid) && places.last().visible() {
        current_revisions(places.drop_last(), uids).push(places.last().current())
    } else {
        current_revisions(places.drop_last(), uids)
    }
}

/// The current revisions of all places that are shown, in the order of the
/// places.
pub open spec fn visible_revisions(places: Seq<PlaceRecordView>) -> Seq<PlaceRevisionView>
    decreases places.len(),
{
    if places.len() == 0 {
        Seq::empty()
    } else if places.last().visible() {
        visible_revisions(places.drop_last()).push(places.last().current())
    } else {
        visible_revisions(places.drop_last())
    }
}

impl Clone for PlaceRevision {
    fn clone(&self) -> (r: PlaceRevision)
        ensures
            r@ == self@,
    {
        PlaceRevision { place: self.place.clone(), status: self.status }
    }
}

impl Store {
    /// Where the place with the given identifier is stored.
    pub fn find_place(&self, uid: &str) -> (r: Option<usize>)
        ensures
            match r {
                Some(i) => i < self.places.len() && self@.places[i as int].uid == uid@,
                None => !has_place(self@.places, uid@),
            },
    {
        let mut i: usize = 0;
        while i < self.places.len()
            invariant
                i <= self.places.len(),
                forall|j: int| 0 <= j < i ==> (#[trigger] self@.places[j]).uid != uid@,
            decreases self.places.len() - i,
        {
            if *self.places[i].uid.as_str() == *uid {
                return Some(i);
            }
            i += 1;
        }
        None
    }

    /// The current revision of the place that is stored at `i`.
    pub fn current_of(&self, i: usize) -> (r: &PlaceRevision)
        requires
            i < self.places.len(),
            self@.places[i as int].wf(),
        ensures
            r@ == self@.places[i as int].current(),
            self.places[i as int].revisions.len() == self.places[i as int].current_rev + 1,
    {
        assert(self@.places[i as int] == self.places[i as int]@);
        let record = &self.places[i];
        assert(record@.revisions.len() == record.revisions.len());
        assert(record@.revisions[record.current_rev as int] == record.revisions[record.current_rev as int]@);
        &record.revisions[record.revisions.len() - 1]
    }

    fn push_place(&mut self, record: PlaceRecord)
        ensures
            final(self)@ == (StoreView {
                places: old(self)@.places.push(record@),
                ..old(self)@
            }),
    {
        self.places.push(record);
        assert(self@.places =~= old(self)@.places.push(record@));
    }

    fn push_revision(&mut self, i: usize, revision: PlaceRevision)
        requires
            i < old(self).places.len(),
        ensures
            final(self)@ == (StoreView {
                places: old(self)@.places.update(
                    i as int,
                    PlaceRecordView {
                        current_rev: revision.place.rev,
                        revisions: old(self)@.places[i as int].revisions.push(revision@),
                        ..old(self)@.places[i as int]
                    },
                ),
                ..old(self)@
            }),
    {
        self.places[i].current_rev = revision.place.rev;
        self.places[i].revisions.push(revision);
        assert(self@.places[i as int].revisions =~= old(self)@.places[i as int].revisions.push(
            revision@,
        ));
        assert(self@.places =~= old(self)@.places.update(
            i as int,
            PlaceRecordView {
                current_rev: revision.place.rev,
                revisions: old(self)@.places[i as int].revisions.push(revision@),
                ..old(self)@.places[i as int]
            },
        ));
    }

    fn archive_current(&mut self, i: usize)
        requires
            i < old(self).places.len(),
            old(self)@.places[i as int].wf(),
        ensures
            final(self)@ == (StoreView {
                places: old(self)@.places.update(
                    i as int,
                    archived_record(old(self)@.places[i as int]),
                ),
                ..old(self)@
            }),
    {
        assert(old(self)@.places[i as int] == old(self).places[i as int]@);
        assert(old(self).places[i as int]@.revisions.len() == old(self).places[i as int].revisions.len());
        let current = self.places[i].revisions.len() - 1;
        self.places[i].revisions[current].status = ReviewStatus::Archived;
        assert(self@.places[i as int].revisions =~= archived_record(
            old(self)@.places[i as int],
        ).revisions);
        assert(self@.places =~= old(self)@.places.update(
            i as int,
            archived_record(old(self)@.places[i as int]),
        ));
    }

    fn push_log(&mut self, entry: StatusLogEntry)
        ensures
            final(self)@ == (StoreView {
                status_log: old(self)@.status_log.push(entry@),
                ..old(self)@
            }),
    {
        self.status_log.push(entry);
        assert(self@.status_log =~= old(self)@.status_log.push(entry@));
    }

    /// Stores a revision of a place: the first one of a new place, or the
    /// one that follows the current revision of a place that is there. The
    /// new revision becomes the current one, and the status log tells of
    /// it. The revision is archived from the start where `archived_at` is
    /// given. Where the revision is refused, nothing changes.
    pub fn create_or_update_place(&mut self, place: Place, archived_at: Option<Timestamp>) -> (r:
        Result<(), Error>)
        requires
            old(self).wf(),
        ensures
            final(self).wf(),
            match r {
                Ok(_) => store_fault(old(self)@, place@) is None && final(self)@ == stored(
                    old(self)@,
                    place@,
                    archived_at,
                ),
                Err(e) => store_fault(old(self)@, place@) == Some(e) && final(self)@ == old(self)@,
            },
    {
        match validate_place(&place) {
            Err(fault) => {
                return Err(Error::Parameter(fault));
            },
            Ok(_) => {},
        }
        let found = self.find_place(place.uid.as_str());
        let status = if archived_at.is_some() {
            ReviewStatus::Archived
        } else {
            ReviewStatus::Created
        };
        let entry = StatusLogEntry {
            place_uid: place.uid.clone(),
            rev: place.rev,
            status,
            activity: match archived_at {
                Some(at) => Activity { at, by: place.created.by.clone() },
                None => place.created.clone(),
            },
            context: None,
            note: Some(
                if archived_at.is_some() {
                    NOTE_ARCHIVED.to_owned()
                } else {
                    NOTE_CREATED.to_owned()
                },
            ),
        };
        assert(entry@ == initial_entry(place@, archived_at));
        let ghost old_places = self@.places;
        let ghost old_log = self@.status_log;
        let ghost revision = PlaceRevisionView { place: place@, status };
        if place.rev == 0 {
            if found.is_some() {
                return Err(Error::Repo(RepoError::Conflict));
            }
            let record = PlaceRecord {
                uid: place.uid.clone(),
                license: place.license.clone(),
                current_rev: 0,
                revisions: vec![PlaceRevision { place, status }],
            };
            assert(record@.revisions =~= seq![revision]);
            self.push_place(record);
            self.push_log(entry);
            proof {
                let places = self@.places;
                let log = self@.status_log;
                assert(places == with_revision(old_places, revision));
                assert(places_wf(places)) by {
                    assert forall|i: int, j: int| 0 <= i < j < places.len() implies (
                    #[trigger] places[i]).uid != (#[trigger] places[j]).uid by {
                        if j < old_places.len() {
                            assert(places[i] == old_places[i] && places[j] == old_places[j]);
                        } else {
                            assert(places[i] == old_places[i]);
                        }
                    }
                }
                assert(log_wf(places, log)) by {
                    assert forall|i: int, k: int|
                        0 <= i < places.len() && 0 <= k < places[i].revisions.len() implies last_status(
                        log,
                        places[i].uid,
                        k,
                    ) == Some((#[trigger] places[i].revisions[k]).status) by {
                        lemma_last_status_push(old_log, entry@, places[i].uid, k);
                        if i < old_places.len() {
                            assert(places[i] == old_places[i]);
                            assert(old_places[i].uid != place@.uid);
                        }
                    }
                }
                assert(log.drop_last() == old_log);
                assert(places[places.len() - 1].uid == entry@.place_uid);
                lemma_log_known_step(old_places, old_log, places, log);
            }
            Ok(())
        } else {
            let i = match found {
                Some(i) => i,
                None => {
                    return Err(Error::Repo(RepoError::NotFound));
                },
            };
            proof {
                lemma_record_of(old_places, place@.uid, i as int);
            }
            if self.places[i].current_rev >= u64::MAX || self.places[i].current_rev + 1
                != place.rev {
                return Err(Error::Repo(RepoError::Conflict));
            }
            if *self.places[i].license.as_str() != *place.license.as_str() {
                return Err(Error::Parameter(ParameterError::License));
            }
            self.push_revision(i, PlaceRevision { place, status });
            self.push_log(entry);
            proof {
                let places = self@.places;
                let log = self@.status_log;
                assert(places =~= with_revision(old_places, revision)) by {
                    assert forall|j: int| 0 <= j < places.len() implies places[j] == with_revision(
                        old_places,
                        revision,
                    )[j] by {
                        if j < i {
                            assert(old_places[j].uid != old_places[i as int].uid);
                        } else if j > i {
                            assert(old_places[i as int].uid != old_places[j].uid);
                        }
                    }
                }
                assert(places_wf(places)) by {
                    assert forall|j: int| 0 <= j < places.len() implies (#[trigger] places[j]).wf() by {
                        if j != i {
                            assert(places[j] == old_places[j]);
                        } else {
                            assert(old_places[j].wf());
                            assert forall|k: int| 0 <= k < places[j].revisions.len() implies (
                            #[trigger] places[j].revisions[k]).place.rev == k && places[j].revisions[k].place.uid
                                == places[j].uid && places[j].revisions[k].place.license
                                == places[j].license by {
                                if k < old_places[j].revisions.len() {
                                    assert(places[j].revisions[k] == old_places[j].revisions[k]);
                                }
                            }
                        }
                    }
                    assert forall|a: int, b: int| 0 <= a < b < places.len() implies (
                    #[trigger] places[a]).uid != (#[trigger] places[b]).uid by {
                        assert(places[a].uid == old_places[a].uid);
                        assert(places[b].uid == old_places[b].uid);
                    }
                }
                assert(log_wf(places, log)) by {
                    assert forall|j: int, k: int|
                        0 <= j < places.len() && 0 <= k < places[j].revisions.len() implies last_status(
                        log,
                        places[j].uid,
                        k,
                    ) == Some((#[trigger] places[j].revisions[k]).status) by {
                        lemma_last_status_push(old_log, entry@, places[j].uid, k);
                        if j != i {
                            assert(places[j] == old_places[j]);
                            if j < i {
                                assert(old_places[j].uid != old_places[i as int].uid);
                            } else {
                                assert(old_places[i as int].uid != old_places[j].uid);
                            }
                        } else {
                            assert(old_places[j].wf());
                            if k < old_places[j].revisions.len() {
                                assert(places[j].revisions[k] == old_places[j].revisions[k]);
                            }
                        }
                    }
                }
                assert(log.drop_last() == old_log);
                assert(places[i as int].uid == entry@.place_uid);
                lemma_log_known_step(old_places, old_log, places, log);
            }
            Ok(())
        }
    }

    /// Whether a place is stored under each of the identifiers.
    pub fn knows_all_places(&self, uids: &[&str]) -> (b: bool)
        ensures
            b == all_known(self@.places, uids.deep_view()),
    {
        let mut k: usize = 0;
        while k < uids.len()
            invariant
                k <= uids.len(),
                forall|j: int| 0 <= j < k ==> has_place(self@.places, #[trigger] uids.deep_view()[j]),
            decreases uids.len() - k,
        {
            if self.find_place(uids[k]).is_none() {
                assert(!has_place(self@.places, uids.deep_view()[k as int]));
                return false;
            }
            k += 1;
        }
        true
    }

    /// Archives the current revision of each of the named places that is
    /// not archived yet, and writes each change into the status log.
    /// Returns how many places were archived. Where one of the identifiers
    /// is unknown, nothing changes.
    pub fn archive_places(&mut self, uids: &[&str], activity: &Activity) -> (r: Result<
        usize,
        RepoError,
    >)
        requires
            old(self).wf(),
        ensures
            final(self).wf(),
            match r {
                Ok(count) => {
                    &&& all_known(old(self)@.places, uids.deep_view())
                    &&& final(self)@ == (StoreView {
                        places: archived_places(old(self)@.places, uids.deep_view()),
                        status_log: old(self)@.status_log + archive_log(
                            old(self)@.places,
                            uids.deep_view(),
                            activity@,
                        ),
                        ..old(self)@
                    })
                    &&& count == archive_log(old(self)@.places, uids.deep_view(), activity@).len()
                },
                Err(e) => {
                    &&& e == RepoError::NotFound
                    &&& !all_known(old(self)@.places, uids.deep_view())
                    &&& final(self)@ == old(self)@
                },
            },
    {
        if !self.knows_all_places(uids) {
            return Err(RepoError::NotFound);
        }
        let ghost old_places = self@.places;
        let ghost old_log = self@.status_log;
        let ghost names = uids.deep_view();
        let n = self.places.len();
        let mut count: usize = 0;
        let mut i: usize = 0;
        proof {
            assert(old_places.take(0) == Seq::<PlaceRecordView>::empty());
            assert(old_log + Seq::<StatusLogEntryView>::empty() == old_log);
        }
        while i < n
            invariant
                i <= n,
                n == old_places.len(),
                names == uids.deep_view(),
                places_wf(old_places),
                self@.places.len() == n,
                forall|j: int|
                    0 <= j < i ==> (#[trigger] self@.places[j]) == archived_places(
                        old_places,
                        names,
                    )[j],
                forall|j: int| i <= j < n ==> (#[trigger] self@.places[j]) == old_places[j],
                self@.status_log == old_log + archive_log(old_places.take(i as int), names, activity@),
                count == archive_log(old_places.take(i as int), names, activity@).len(),
                count <= i,
                log_wf(self@.places, self@.status_log),
                log_known(self@.places, self@.status_log),
                self@ == (StoreView {
                    places: self@.places,
                    status_log: self@.status_log,
                    ..old(self)@
                }),
            decreases n - i,
        {
            proof {
                assert(old_places.take(i as int + 1).drop_last() == old_places.take(i as int));
                assert(old_places.take(i as int + 1).last() == old_places[i as int]);
                assert(old_places[i as int].wf());
            }
            let named = slice_contains(uids, self.places[i].uid.as_str());
            let ghost current = old_places[i as int].current_rev as int;
            assert(self@.places[i as int] == old_places[i as int]);
            if named && self.current_of(i).status != ReviewStatus::Archived {
                let ghost places_before = self@.places;
                let ghost log_before = self@.status_log;
                let entry = StatusLogEntry {
                    place_uid: self.places[i].uid.clone(),
                    rev: self.places[i].current_rev,
                    status: ReviewStatus::Archived,
                    activity: activity.clone(),
                    context: None,
                    note: Some(NOTE_ARCHIVED.to_owned()),
                };
                assert(entry@ == archived_entry(old_places[i as int], activity@));
                self.archive_current(i);
                self.push_log(entry);
                count += 1;
                proof {
                    let places = self@.places;
                    let log = self@.status_log;
                    assert(log == old_log + archive_log(
                        old_places.take(i as int + 1),
                        names,
                        activity@,
                    ));
                    assert forall|j: int, k: int|
                        0 <= j < places.len() && 0 <= k < places[j].revisions.len() implies last_status(
                        log,
                        places[j].uid,
                        k,
                    ) == Some((#[trigger] places[j].revisions[k]).status) by {
                        lemma_last_status_push(log_before, entry@, places[j].uid, k);
                        assert(places[j].uid == old_places[j].uid);
                        if j != i {
                            assert(places[j] == places_before[j]);
                            if j < i {
                                assert(old_places[j].uid != old_places[i as int].uid);
                            } else {
                                assert(old_places[i as int].uid != old_places[j].uid);
                            }
                        } else if k != current {
                            assert(places[j].revisions[k] == places_before[j].revisions[k]);
                        }
                    }
                    assert(log.drop_last() == log_before);
                    assert(places[i as int].uid == entry@.place_uid);
                    assert forall|j: int| 0 <= j < places_before.len() implies (
                    #[trigger] places[j]).uid == places_before[j].uid && places[j].current_rev
                        >= places_before[j].current_rev by {
                        if j != i {
                            assert(places[j] == places_before[j]);
                        }
                    }
                    lemma_log_known_step(places_before, log_before, places, log);
                }
            } else {
                proof {
                    if named {
                        assert(archived_record(old_places[i as int]).revisions
                            =~= old_places[i as int].revisions);
                    }
                }
            }
            i += 1;
        }
        proof {
            assert(old_places.take(n as int) == old_places);
            let places = self@.places;
            assert(places =~= archived_places(old_places, names));
            assert(places_wf(places)) by {
                assert forall|j: int| 0 <= j < places.len() implies (#[trigger] places[j]).wf() by {
                    assert(old_places[j].wf());
                    assert forall|k: int| 0 <= k < places[j].revisions.len() implies (
                    #[trigger] places[j].revisions[k]).place == old_places[j].revisions[k].place by {}
                }
                assert forall|a: int, b: int| 0 <= a < b < places.len() implies (
                #[trigger] places[a]).uid != (#[trigger] places[b]).uid by {
                    assert(places[a].uid == old_places[a].uid);
                    assert(places[b].uid == old_places[b].uid);
                }
            }
        }
        Ok(count)
    }

    /// The current revisions of the named places, as far as they are
    /// shown.
    pub fn get_places(&self, uids: &[&str]) -> (out: Vec<PlaceRevision>)
        requires
            self.wf(),
        ensures
            out.deep_view() == current_revisions(self@.places, uids.deep_view()),
    {
        let mut out: Vec<PlaceRevision> = Vec::new();
        let mut i: usize = 0;
        let ghost places = self@.places;
        proof {
            assert(places.take(0) == Seq::<PlaceRecordView>::empty());
            assert(out.deep_view() == Seq::<PlaceRevisionView>::empty());
        }
        while i < self.places.len()
            invariant
                i <= self.places.len(),
                places == self@.places,
                places_wf(places),
                out.deep_view() == current_revisions(places.take(i as int), uids.deep_view()),
            decreases self.places.len() - i,
        {
            let ghost before = out.deep_view();
            proof {
                assert(places.take(i as int + 1).drop_last() == places.take(i as int));
                assert(places.take(i as int + 1).last() == places[i as int]);
                assert(places[i as int].wf());
            }
            let revision = self.current_of(i);
            if slice_contains(uids, self.places[i].uid.as_str()) && revision.status.is_existent() {
                let copy = revision.clone();
                out.push(copy);
                assert(out.deep_view() == before.push(copy@));
            }
            i += 1;
        }
        assert(places.take(places.len() as int) == places);
        out
    }

    /// The current revisions of all places that are shown.
    pub fn all_places(&self) -> (out: Vec<PlaceRevision>)
        requires
            self.wf(),
        ensures
            out.deep_view() == visible_revisions(self@.places),
    {
        let mut out: Vec<PlaceRevision> = Vec::new();
        let mut i: usize = 0;
        let ghost places = self@.places;
        proof {
            assert(places.take(0) == Seq::<PlaceRecordView>::empty());
            assert(out.deep_view() == Seq::<PlaceRevisionView>::empty());
        }
        while i < self.places.len()
            invariant
                i <= self.places.len(),
                places == self@.places,
                places_wf(places),
                out.deep_view() == visible_revisions(places.take(i as int)),
            decreases self.places.len() - i,
        {
            let ghost before = out.deep_view();
            proof {
                assert(places.take(i as int + 1).drop_last() == places.take(i as int));
                assert(places.take(i as int + 1).last() == places[i as int]);
                assert(places[i as int].wf());
            }
            let revision = self.current_of(i);
            if revision.status.is_existent() {
                let copy = revision.clone();
                out.push(copy);
                assert(out.deep_view() == before.push(copy@));
            }
            i += 1;
        }
        assert(places.take(places.len() as int) == places);
        out
    }

    /// The current revision of the named place, if the place is shown.
    pub fn get_place(&self, uid: &str) -> (r: Result<PlaceRevision, RepoError>)
        requires
            self.wf(),
        ensures
            match r {
                Ok(revision) => has_place(self@.places, uid@) && record_of(
                    self@.places,
                    uid@,
                ).visible() && revision@ == record_of(self@.places, uid@).current(),
                Err(e) => e == RepoError::NotFound && !(has_place(self@.places, uid@) && record_of(
                    self@.places,
                    uid@,
                ).visible()),
            },
    {
        match self.find_place(uid) {
            Some(i) => {
                proof {
                    lemma_record_of(self@.places, uid@, i as int);
                    assert(self@.places[i as int].wf());
                }
                let revision = self.current_of(i);
                if revision.status.is_existent() {
                    Ok(revision.clone())
                } else {
                    Err(RepoError::NotFound)
                }
            },
            None => Err(RepoError::NotFound),
        }
    }

    /// How many places are shown.
    pub fn count_places(&self) -> (n: usize)
        requires
            self.wf(),
        ensures
            n == visible_revisions(self@.places).len(),
    {
        self.all_places().len()
    }
}

/// How many places archiving would change: those that are named and
/// whose current revision is not archived yet.
pub open spec fn count_to_archive(places: Seq<PlaceRecordView>, uids: Seq<Seq<char>>) -> nat
    decreases places.len(),
{
    if places.len() == 0 {
        0
    } else {
        count_to_archive(places.drop_last(), uids) + if to_be_archived(places.last(), uids) {
            1nat
        } else {
            0nat
        }
    }
}

/// Archiving writes one entry into the status log for each place that it
/// changes, and none else.
pub proof fn lemma_archive_log_len(
    places: Seq<PlaceRecordView>,
    uids: Seq<Seq<char>>,
    activity: ActivityView,
)
    ensures
        archive_log(places, uids, activity).len() == count_to_archive(places, uids),
    decreases places.len(),
{
    if places.len() > 0 {
        lemma_archive_log_len(places.drop_last(), uids, activity);
    }
}

/// Every entry that archiving writes into the status log tells of the
/// current revision of a named place that was not archived, with the time
/// and the user of the archiving; and no two of them tell of the same
/// place.
pub proof fn lemma_archive_log_entries(
    places: Seq<PlaceRecordView>,
    uids: Seq<Seq<char>>,
    activity: ActivityView,
)
    requires
        places_wf(places),
    ensures
        forall|k: int|
            0 <= k < archive_log(places, uids, activity).len() ==> {
                let entry = #[trigger] archive_log(places, uids, activity)[k];
                &&& has_place(places, entry.place_uid)
                &&& to_be_archived(record_of(places, entry.place_uid), uids)
                &&& entry == archived_entry(record_of(places, entry.place_uid), activity)
            },
        forall|k: int, m: int|
            0 <= k < m < archive_log(places, uids, activity).len() ==> (#[trigger] archive_log(
                places,
                uids,
                activity,
            )[k]).place_uid != (#[trigger] archive_log(places, uids, activity)[m]).place_uid,
    decreases places.len(),
{
    if places.len() > 0 {
        let head = places.drop_last();
        let last = places.last();
        let n = places.len() - 1;
        assert(places_wf(head)) by {
            assert forall|i: int| 0 <= i < head.len() implies (#[trigger] head[i]).wf() by {
                assert(head[i] == places[i]);
            }
            assert forall|i: int, j: int| 0 <= i < j < head.len() implies (
            #[trigger] head[i]).uid != (#[trigger] head[j]).uid by {
                assert(head[i] == places[i] && head[j] == places[j]);
            }
        }
        lemma_archive_log_entries(head, uids, activity);
        let before = archive_log(head, uids, activity);
        let log = archive_log(places, uids, activity);
        assert forall|k: int| 0 <= k < before.len() implies has_place(
            places,
            (#[trigger] before[k]).place_uid,
        ) && record_of(places, before[k].place_uid) == record_of(head, before[k].place_uid) && before[k].place_uid != last.uid by {
            let uid = before[k].place_uid;
            let i = choose|i: int| 0 <= i < head.len() && (#[trigger] head[i]).uid == uid;
            assert(places[i] == head[i]);
            lemma_record_of(head, uid, i);
            lemma_record_of(places, uid, i);
            assert(places[i].uid != places[n].uid);
        }
        assert forall|k: int| 0 <= k < log.len() implies {
            let entry = #[trigger] log[k];
            &&& has_place(places, entry.place_uid)
            &&& to_be_archived(record_of(places, entry.place_uid), uids)
            &&& entry == archived_entry(record_of(places, entry.place_uid), activity)
        } by {
            if k < before.len() {
                assert(log[k] == before[k]);
            } else {
                assert(log[k] == archived_entry(last, activity));
                assert(places[n].uid == last.uid);
                lemma_record_of(places, last.uid, n);
            }
        }
        assert forall|k: int, m: int| 0 <= k < m < log.len() implies (#[trigger] log[k]).place_uid
            != (#[trigger] log[m]).place_uid by {
            assert(log[k] == before[k]);
            if m < before.len() {
                assert(log[m] == before[m]);
            }
        }
    }
}

impl Store {
    /// How many places archiving the named places would change.
    pub fn count_places_to_archive(&self, uids: &[&str]) -> (count: usize)
        requires
            self.wf(),
        ensures
            count == count_to_archive(self@.places, uids.deep_view()),
    {
        let ghost places = self@.places;
        let mut count: usize = 0;
        let mut i: usize = 0;
        proof {
            assert(places.take(0) == Seq::<PlaceRecordView>::empty());
        }
        while i < self.places.len()
            invariant
                i <= self.places.len(),
                places == self@.places,
                places_wf(places),
                count <= i,
                count == count_to_archive(places.take(i as int), uids.deep_view()),
            decreases self.places.len() - i,
        {
            proof {
                assert(places.take(i as int + 1).drop_last() == places.take(i as int));
                assert(places.take(i as int + 1).last() == places[i as int]);
                assert(places[i as int].wf());
            }
            if slice_contains(uids, self.places[i].uid.as_str()) && self.current_of(i).status
                != ReviewStatus::Archived {
                count += 1;
            }
            i += 1;
        }
        proof {
            assert(places.take(places.len() as int) == places);
        }
        count
    }
}

} // verus!

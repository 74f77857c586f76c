//! Checking a store that comes from outside: whether what must hold of a
//! store at all times holds of it.

use crate::entities::ReviewStatus;
use crate::store::{
    comments_wf, entry_known, has_rating, last_status, log_known, log_wf, places_wf, ratings_wf,
    tokens_wf, users_wf, PlaceRecord, Store,
};
use vstd::prelude::*;

verus! {

/// Whether no string comes twice in a list.
pub fn all_distinct(keys: &Vec<&str>) -> (b: bool)
    ensures
        b == forall|i: int, j: int|
            0 <= i < j < keys.len() ==> (#[trigger] keys.deep_view()[i]) != (
            #[trigger] keys.deep_view()[j]),
{
    let ghost names = keys.deep_view();
    let mut j: usize = 0;
    while j < keys.len()
        invariant
            j <= keys.len(),
            names == keys.deep_view(),
            forall|a: int, b: int| 0 <= a < b < j ==> (#[trigger] names[a]) != (#[trigger] names[b]),
        decreases keys.len() - j,
    {
        let mut i: usize = 0;
        while i < j
            invariant
                i <= j < keys.len(),
                names == keys.deep_view(),
                forall|a: int| 0 <= a < i ==> (#[trigger] names[a]) != names[j as int],
            decreases j - i,
        {
            if *keys[i] == *keys[j] {
                assert(names[i as int] == names[j as int]);
                return false;
            }
            i += 1;
        }
        j += 1;
    }
    true
}

/// Whether the revisions of a place are numbered from 0 in their order,
/// the last one is the current one, and each is a revision of the place
/// under its license.
pub fn record_is_well_formed(record: &PlaceRecord) -> (b: bool)
    ensures
        b == record@.wf(),
{
    assert(record@.revisions.len() == record.revisions.len());
    if record.revisions.len() == 0 || (record.revisions.len() - 1) as u64 != record.current_rev {
        return false;
    }
    let mut k: usize = 0;
    while k < record.revisions.len()
        invariant
            k <= record.revisions.len(),
            record@.revisions.len() == record.revisions.len(),
            record@.revisions.len() == record.current_rev + 1,
            forall|m: int|
                0 <= m < k ==> {
                    &&& (#[trigger] record@.revisions[m]).place.rev == m
                    &&& record@.revisions[m].place.uid == record@.uid
                    &&& record@.revisions[m].place.license == record@.license
                },
        decreases record.revisions.len() - k,
    {
        let place = &record.revisions[k].place;
        assert(record@.revisions[k as int] == record.revisions[k as int]@);
        if place.rev != k as u64 || *place.uid.as_str() != *record.uid.as_str()
            || *place.license.as_str() != *record.license.as_str() {
            return false;
        }
        k += 1;
    }
    true
}

impl Store {
    /// The status that the status log gave a revision last.
    pub fn last_status_of(&self, uid: &str, rev: u64) -> (r: Option<ReviewStatus>)
        ensures
            r == last_status(self@.status_log, uid@, rev as int),
    {
        let ghost log = self@.status_log;
        let mut j: usize = self.status_log.len();
        proof {
            assert(log.take(j as int) == log);
        }
        while j > 0
            invariant
                j <= self.status_log.len(),
                log == self@.status_log,
                last_status(log, uid@, rev as int) == last_status(log.take(j as int), uid@, rev as int),
            decreases j,
        {
            let entry = &self.status_log[j - 1];
            proof {
                assert(log[j - 1] == entry@);
                assert(log.take(j as int).last() == log[j - 1]);
                assert(log.take(j as int).drop_last() == log.take(j - 1));
            }
            if entry.rev == rev && *entry.place_uid.as_str() == *uid {
                return Some(entry.status);
            }
            j -= 1;
        }
        None
    }

    fn places_are_well_formed(&self) -> (b: bool)
        ensures
            b == places_wf(self@.places),
    {
        let mut keys: Vec<&str> = Vec::new();
        let mut i: usize = 0;
        while i < self.places.len()
            invariant
                i <= self.places.len(),
                keys.len() == i,
                forall|k: int| 0 <= k < i ==> (#[trigger] keys.deep_view()[k]) == self@.places[k].uid,
                forall|k: int| 0 <= k < i ==> (#[trigger] self@.places[k]).wf(),
            decreases self.places.len() - i,
        {
            assert(self@.places[i as int] == self.places[i as int]@);
            if !record_is_well_formed(&self.places[i]) {
                return false;
            }
            let ghost before = keys.deep_view();
            keys.push(self.places[i].uid.as_str());
            assert(keys.deep_view() == before.push(self.places[i as int].uid@));
            i += 1;
        }
        let distinct = all_distinct(&keys);
        proof {
            if distinct {
                assert forall|a: int, b: int| 0 <= a < b < self@.places.len() implies (
                #[trigger] self@.places[a]).uid != (#[trigger] self@.places[b]).uid by {
                    assert(keys.deep_view()[a] != keys.deep_view()[b]);
                }
            } else {
                let (a, b) = choose|a: int, b: int|
                    0 <= a < b < keys.len() && (#[trigger] keys.deep_view()[a]) == (
                    #[trigger] keys.deep_view()[b]);
                assert(self@.places[a].uid == self@.places[b].uid);
            }
        }
        distinct
    }

    fn log_reflects_status(&self) -> (b: bool)
        requires
            places_wf(self@.places),
        ensures
            b == log_wf(self@.places, self@.status_log),
    {
        let ghost places = self@.places;
        let ghost log = self@.status_log;
        let mut i: usize = 0;
        while i < self.places.len()
            invariant
                i <= self.places.len(),
                places == self@.places,
                log == self@.status_log,
                forall|a: int, k: int|
                    0 <= a < i && 0 <= k < places[a].revisions.len() ==> last_status(
                        log,
                        places[a].uid,
                        k,
                    ) == Some((#[trigger] places[a].revisions[k]).status),
            decreases self.places.len() - i,
        {
            let record = &self.places[i];
            proof {
                assert(places[i as int] == record@);
                assert(record@.revisions.len() == record.revisions.len());
            }
            let mut k: usize = 0;
            while k < record.revisions.len()
                invariant
                    k <= record.revisions.len(),
                    i < self.places.len(),
                    *record == self.places[i as int],
                    places == self@.places,
                    log == self@.status_log,
                    places[i as int] == record@,
                    record@.revisions.len() == record.revisions.len(),
                    forall|m: int|
                        0 <= m < k ==> last_status(log, places[i as int].uid, m) == Some(
                            (#[trigger] places[i as int].revisions[m]).status,
                        ),
                decreases record.revisions.len() - k,
            {
                proof {
                    assert(record@.revisions[k as int] == record.revisions[k as int]@);
                }
                let last = self.last_status_of(record.uid.as_str(), k as u64);
                let same = match last {
                    Some(status) => status == record.revisions[k].status,
                    None => false,
                };
                if !same {
                    proof {
                        assert(last_status(log, places[i as int].uid, k as int) != Some(
                            places[i as int].revisions[k as int].status,
                        ));
                    }
                    return false;
                }
                k += 1;
            }
            i += 1;
        }
        true
    }

    fn log_speaks_of_stored_revisions(&self) -> (b: bool)
        requires
            places_wf(self@.places),
        ensures
            b == log_known(self@.places, self@.status_log),
    {
        let ghost places = self@.places;
        let ghost log = self@.status_log;
        let mut n: usize = 0;
        while n < self.status_log.len()
            invariant
                n <= self.status_log.len(),
                places == self@.places,
                log == self@.status_log,
                places_wf(places),
                forall|m: int| 0 <= m < n ==> entry_known(places, #[trigger] log[m]),
            decreases self.status_log.len() - n,
        {
            let entry = &self.status_log[n];
            proof {
                assert(log[n as int] == entry@);
            }
            let known = match self.find_place(entry.place_uid.as_str()) {
                Some(i) => {
                    proof {
                        assert(places[i as int] == self.places[i as int]@);
                        if entry.rev > self.places[i as int].current_rev && entry_known(
                            places,
                            log[n as int],
                        ) {
                            let k = choose|k: int|
                                0 <= k < places.len() && (#[trigger] places[k]).uid
                                    == entry@.place_uid && entry@.rev <= places[k].current_rev;
                            if k < i {
                                assert(places[k].uid != places[i as int].uid);
                            } else if i < k {
                                assert(places[i as int].uid != places[k].uid);
                            }
                        }
                    }
                    entry.rev <= self.places[i].current_rev
                },
                None => false,
            };
            if !known {
                return false;
            }
            n += 1;
        }
        true
    }

    fn ratings_are_well_formed(&self) -> (b: bool)
        ensures
            b == ratings_wf(self@.ratings),
    {
        let mut keys: Vec<&str> = Vec::new();
        let mut i: usize = 0;
        while i < self.ratings.len()
            invariant
                i <= self.ratings.len(),
                keys.len() == i,
                forall|k: int| 0 <= k < i ==> (#[trigger] keys.deep_view()[k]) == self@.ratings[k].uid,
            decreases self.ratings.len() - i,
        {
            let ghost before = keys.deep_view();
            keys.push(self.ratings[i].uid.as_str());
            assert(keys.deep_view() == before.push(self.ratings[i as int].uid@));
            i += 1;
        }
        let distinct = all_distinct(&keys);
        proof {
            if distinct {
                assert forall|a: int, b: int| 0 <= a < b < self@.ratings.len() implies (
                #[trigger] self@.ratings[a]).uid != (#[trigger] self@.ratings[b]).uid by {
                    assert(keys.deep_view()[a] != keys.deep_view()[b]);
                }
            } else {
                let (a, b) = choose|a: int, b: int|
                    0 <= a < b < keys.len() && (#[trigger] keys.deep_view()[a]) == (
                    #[trigger] keys.deep_view()[b]);
                assert(self@.ratings[a].uid == self@.ratings[b].uid);
            }
        }
        distinct
    }

    fn comments_are_well_formed(&self) -> (b: bool)
        requires
            ratings_wf(self@.ratings),
        ensures
            b == comments_wf(self@.ratings, self@.comments),
    {
        let ghost ratings = self@.ratings;
        let ghost comments = self@.comments;
        let mut keys: Vec<&str> = Vec::new();
        let mut j: usize = 0;
        while j < self.comments.len()
            invariant
                j <= self.comments.len(),
                ratings == self@.ratings,
                comments == self@.comments,
                ratings_wf(ratings),
                keys.len() == j,
                forall|k: int| 0 <= k < j ==> (#[trigger] keys.deep_view()[k]) == comments[k].uid,
                forall|k: int| 0 <= k < j ==> has_rating(ratings, (#[trigger] comments[k]).rating_uid),
                forall|i: int, k: int|
                    0 <= i < ratings.len() && 0 <= k < j && (#[trigger] comments[k]).rating_uid == (
                    #[trigger] ratings[i]).uid && ratings[i].archived_at is Some
                        ==> comments[k].archived_at is Some,
            decreases self.comments.len() - j,
        {
            let comment = &self.comments[j];
            proof {
                assert(comments[j as int] == comment@);
            }
            match self.find_rating(comment.rating_uid.as_str()) {
                Some(i) => {
                    proof {
                        assert(ratings[i as int] == self.ratings[i as int]@);
                    }
                    if self.ratings[i].archived_at.is_some() && comment.archived_at.is_none() {
                        return false;
                    }
                    proof {
                        assert forall|a: int|
                            0 <= a < ratings.len() && comments[j as int].rating_uid == (
                            #[trigger] ratings[a]).uid && ratings[a].archived_at is Some implies comments[j as int].archived_at is Some by {
                            if a < i {
                                assert(ratings[a].uid != ratings[i as int].uid);
                            } else if i < a {
                                assert(ratings[i as int].uid != ratings[a].uid);
                            }
                        }
                    }
                },
                None => {
                    return false;
                },
            }
            let ghost before = keys.deep_view();
            keys.push(comment.uid.as_str());
            assert(keys.deep_view() == before.push(comment.uid@));
            j += 1;
        }
        let distinct = all_distinct(&keys);
        proof {
            if distinct {
                assert forall|a: int, b: int| 0 <= a < b < comments.len() implies (
                #[trigger] comments[a]).uid != (#[trigger] comments[b]).uid by {
                    assert(keys.deep_view()[a] != keys.deep_view()[b]);
                }
            } else {
                let (a, b) = choose|a: int, b: int|
                    0 <= a < b < keys.len() && (#[trigger] keys.deep_view()[a]) == (
                    #[trigger] keys.deep_view()[b]);
                assert(comments[a].uid == comments[b].uid);
            }
        }
        distinct
    }

    fn users_are_well_formed(&self) -> (b: bool)
        ensures
            b == users_wf(self@.users),
    {
        let mut keys: Vec<&str> = Vec::new();
        let mut i: usize = 0;
        while i < self.users.len()
            invariant
                i <= self.users.len(),
                keys.len() == i,
                forall|k: int| 0 <= k < i ==> (#[trigger] keys.deep_view()[k]) == self@.users[k].email,
            decreases self.users.len() - i,
        {
            let ghost before = keys.deep_view();
            keys.push(self.users[i].email.as_str());
            assert(keys.deep_view() == before.push(self.users[i as int].email@));
            i += 1;
        }
        let distinct = all_distinct(&keys);
        proof {
            if distinct {
                assert forall|a: int, b: int| 0 <= a < b < self@.users.len() implies (
                #[trigger] self@.users[a]).email != (#[trigger] self@.users[b]).email by {
                    assert(keys.deep_view()[a] != keys.deep_view()[b]);
                }
            } else {
                let (a, b) = choose|a: int, b: int|
                    0 <= a < b < keys.len() && (#[trigger] keys.deep_view()[a]) == (
                    #[trigger] keys.deep_view()[b]);
                assert(self@.users[a].email == self@.users[b].email);
            }
        }
        distinct
    }

    fn tokens_are_well_formed(&self) -> (b: bool)
        ensures
            b == tokens_wf(self@.tokens),
    {
        let mut keys: Vec<&str> = Vec::new();
        let mut i: usize = 0;
        while i < self.tokens.len()
            invariant
                i <= self.tokens.len(),
                keys.len() == i,
                forall|k: int|
                    0 <= k < i ==> (#[trigger] keys.deep_view()[k])
                        == self@.tokens[k].email_nonce.email,
            decreases self.tokens.len() - i,
        {
            let ghost before = keys.deep_view();
            keys.push(self.tokens[i].email_nonce.email.as_str());
            assert(keys.deep_view() == before.push(self.tokens[i as int].email_nonce.email@));
            i += 1;
        }
        let distinct = all_distinct(&keys);
        proof {
            if distinct {
                assert forall|a: int, b: int| 0 <= a < b < self@.tokens.len() implies (
                #[trigger] self@.tokens[a]).email_nonce.email != (
                #[trigger] self@.tokens[b]).email_nonce.email by {
                    assert(keys.deep_view()[a] != keys.deep_view()[b]);
                }
            } else {
                let (a, b) = choose|a: int, b: int|
                    0 <= a < b < keys.len() && (#[trigger] keys.deep_view()[a]) == (
                    #[trigger] keys.deep_view()[b]);
                assert(self@.tokens[a].email_nonce.email == self@.tokens[b].email_nonce.email);
            }
        }
        distinct
    }

    /// Whether what must hold of a store at all times holds of this one. A
    /// store that was put together outside is checked with this before it
    /// is worked on.
    pub fn is_well_formed(&self) -> (b: bool)
        ensures
            b == self.wf(),
    {
        if !self.places_are_well_formed() {
            return false;
        }
        if !self.log_reflects_status() || !self.log_speaks_of_stored_revisions() {
            return false;
        }
        if !self.ratings_are_well_formed() {
            return false;
        }
        self.comments_are_well_formed() && self.users_are_well_formed()
            && self.tokens_are_well_formed()
    }
}

} // verus!

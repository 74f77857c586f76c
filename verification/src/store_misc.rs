//! The store of organizations, tags, subscriptions and events.

use crate::category::with_all_unique;
use crate::entities::{
    BboxSubscription, BboxSubscriptionView, Event, EventView, Organization, OrganizationView,
    Tag, Timestamp,
};
use crate::error::{ErrorKind, RepoError};
use crate::geo::MapPoint;
use crate::store::{slice_contains, Store, StoreView};
use crate::store_archive::archive_fault;
use crate::store_users::{duplicate_key, has_user};
use crate::text::{add_unique, push_unique};
use vstd::prelude::*;

verus! {

/// Whether an organization with the given identifier is stored.
pub open spec fn has_org(orgs: Seq<OrganizationView>, id: Seq<char>) -> bool {
    exists|i: int| 0 <= i < orgs.len() && (#[trigger] orgs[i]).id == id
}

/// The tags that organizations own, each once, in the order in which the
/// organizations and their tags are stored.
pub open spec fn tags_owned(orgs: Seq<OrganizationView>) -> Seq<Seq<char>>
    decreases orgs.len(),
{
    if orgs.len() == 0 {
        Seq::empty()
    } else {
        with_all_unique(tags_owned(orgs.drop_last()), orgs.last().owned_tags)
    }
}

/// The subscriptions of the user with the given e-mail address, in their
/// order.
pub open spec fn subscriptions_of(subs: Seq<BboxSubscriptionView>, email: Seq<char>) -> Seq<
    BboxSubscriptionView,
>
    decreases subs.len(),
{
    if subs.len() == 0 {
        Seq::empty()
    } else if subs.last().user_email == email {
        subscriptions_of(subs.drop_last(), email).push(subs.last())
    } else {
        subscriptions_of(subs.drop_last(), email)
    }
}

/// The subscriptions of all users but the one with the given e-mail
/// address, in their order.
pub open spec fn subscriptions_without(subs: Seq<BboxSubscriptionView>, email: Seq<char>) -> Seq<
    BboxSubscriptionView,
>
    decreases subs.len(),
{
    if subs.len() == 0 {
        Seq::empty()
    } else if subs.last().user_email == email {
        subscriptions_without(subs.drop_last(), email)
    } else {
        subscriptions_without(subs.drop_last(), email).push(subs.last())
    }
}

/// The e-mail addresses of those who have subscribed to a part of the map
/// in which the given position lies, one for each such subscription.
pub open spec fn subscribers_at(subs: Seq<BboxSubscriptionView>, pos: MapPoint) -> Seq<Seq<char>>
    decreases subs.len(),
{
    if subs.len() == 0 {
        Seq::empty()
    } else if subs.last().bbox.contains(pos) {
        subscribers_at(subs.drop_last(), pos).push(subs.last().user_email)
    } else {
        subscribers_at(subs.drop_last(), pos)
    }
}

/// Whether an event starts neither before `start_min` nor after
/// `start_max`, as far as the two are given, and is not archived.
pub open spec fn event_wanted(
    event: EventView,
    start_min: Option<Timestamp>,
    start_max: Option<Timestamp>,
) -> bool {
    &&& event.archived is None
    &&& start_min matches Some(min) ==> event.start >= min
    &&& start_max matches Some(max) ==> event.start <= max
}

/// The events that are wanted, in their order.
pub open spec fn events_between(
    events: Seq<EventView>,
    start_min: Option<Timestamp>,
    start_max: Option<Timestamp>,
) -> Seq<EventView>
    decreases events.len(),
{
    if events.len() == 0 {
        Seq::empty()
    } else if event_wanted(events.last(), start_min, start_max) {
        events_between(events.drop_last(), start_min, start_max).push(events.last())
    } else {
        events_between(events.drop_last(), start_min, start_max)
    }
}

/// An event that is named and not archived yet.
pub open spec fn event_hit(event: EventView, uids: Seq<Seq<char>>) -> bool {
    event.archived is None && uids.contains(event.uid)
}

/// How many events are named and not archived yet.
pub open spec fn count_event_hits(events: Seq<EventView>, uids: Seq<Seq<char>>) -> nat
    decreases events.len(),
{
    if events.len() == 0 {
        0
    } else {
        count_event_hits(events.drop_last(), uids) + if event_hit(events.last(), uids) {
            1nat
        } else {
            0nat
        }
    }
}

/// The events with those archived that are named and were not archived.
pub open spec fn events_archived(events: Seq<EventView>, uids: Seq<Seq<char>>, at: Timestamp) -> Seq<
    EventView,
> {
    Seq::new(
        events.len(),
        |i: int|
            if event_hit(events[i], uids) {
                EventView { archived: Some(at), ..events[i] }
            } else {
                events[i]
            },
    )
}

impl Store {
    /// Stores an organization with the tags that it owns.
    pub fn create_org(&mut self, o: Organization) -> (r: Result<(), RepoError>)
        requires
            old(self).wf(),
        ensures
            final(self).wf(),
            match r {
                Ok(_) => !has_org(old(self)@.organizations, o@.id) && final(self)@ == (StoreView {
                    organizations: old(self)@.organizations.push(o@),
                    ..old(self)@
                }),
                Err(e) => has_org(old(self)@.organizations, o@.id) && e.spec_kind()
                    == ErrorKind::Other && final(self)@ == old(self)@,
            },
    {
        let mut i: usize = 0;
        while i < self.organizations.len()
            invariant
                i <= self.organizations.len(),
                *self == *old(self),
                self.wf(),
                forall|j: int| 0 <= j < i ==> (#[trigger] self@.organizations[j]).id != o@.id,
            decreases self.organizations.len() - i,
        {
            if *self.organizations[i].id.as_str() == *o.id.as_str() {
                assert(self@.organizations[i as int].id == o@.id);
                return Err(duplicate_key());
            }
            i += 1;
        }
        self.organizations.push(o);
        assert(self@.organizations =~= old(self)@.organizations.push(o@));
        Ok(())
    }

    /// The organization that has the given token.
    pub fn get_org_by_api_token(&self, token: &str) -> (r: Result<Organization, RepoError>)
        ensures
            match r {
                Ok(org) => exists|i: int|
                    {
                        &&& 0 <= i < self@.organizations.len()
                        &&& #[trigger] self@.organizations[i] == org@
                        &&& org@.api_token == token@
                        &&& forall|j: int|
                            0 <= j < i ==> (#[trigger] self@.organizations[j]).api_token != token@
                    },
                Err(e) => e == RepoError::NotFound && forall|i: int|
                    0 <= i < self@.organizations.len() ==> (
                    #[trigger] self@.organizations[i]).api_token != token@,
            },
    {
        let mut i: usize = 0;
        while i < self.organizations.len()
            invariant
                i <= self.organizations.len(),
                forall|j: int|
                    0 <= j < i ==> (#[trigger] self@.organizations[j]).api_token != token@,
            decreases self.organizations.len() - i,
        {
            if *self.organizations[i].api_token.as_str() == *token {
                let org = self.organizations[i].clone();
                assert(self@.organizations[i as int] == org@);
                return Ok(org);
            }
            i += 1;
        }
        Err(RepoError::NotFound)
    }

    /// The tags that organizations own, each once.
    pub fn get_all_tags_owned_by_orgs(&self) -> (out: Vec<String>)
        ensures
            out.deep_view() == tags_owned(self@.organizations),
    {
        let ghost orgs = self@.organizations;
        let mut out: Vec<String> = Vec::new();
        let mut i: usize = 0;
        proof {
            assert(orgs.take(0) == Seq::<OrganizationView>::empty());
            assert(out.deep_view() == Seq::<Seq<char>>::empty());
        }
        while i < self.organizations.len()
            invariant
                i <= self.organizations.len(),
                orgs == self@.organizations,
                out.deep_view() == tags_owned(orgs.take(i as int)),
            decreases self.organizations.len() - i,
        {
            proof {
                assert(orgs.take(i as int + 1).drop_last() == orgs.take(i as int));
                assert(orgs.take(i as int + 1).last() == orgs[i as int]);
                assert(orgs[i as int] == self.organizations[i as int]@);
            }
            let tags = &self.organizations[i].owned_tags;
            let ghost start = out.deep_view();
            let mut k: usize = 0;
            proof {
                assert(tags.deep_view().take(0) == Seq::<Seq<char>>::empty());
            }
            while k < tags.len()
                invariant
                    k <= tags.len(),
                    out.deep_view() == with_all_unique(start, tags.deep_view().take(k as int)),
                decreases tags.len() - k,
            {
                proof {
                    assert(tags.deep_view().take(k as int + 1).drop_last() == tags.deep_view().take(
                        k as int,
                    ));
                    assert(tags.deep_view().take(k as int + 1).last() == tags[k as int]@);
                }
                push_unique(&mut out, tags[k].clone());
                k += 1;
            }
            proof {
                assert(tags.deep_view().take(tags.len() as int) == tags.deep_view());
            }
            i += 1;
        }
        proof {
            assert(orgs.take(orgs.len() as int) == orgs);
        }
        out
    }

    /// Stores a tag unless it is empty or stored already.
    pub fn create_tag_if_it_does_not_exist(&mut self, t: &Tag) -> (r: Result<(), RepoError>)
        requires
            old(self).wf(),
        ensures
            final(self).wf(),
            r is Ok,
            final(self)@ == (StoreView { tags: add_unique(old(self)@.tags, t.id@), ..old(self)@ }),
    {
        push_unique(&mut self.tags, t.id.clone());
        Ok(())
    }

    /// All tags.
    pub fn all_tags(&self) -> (out: Vec<Tag>)
        ensures
            out.len() == self@.tags.len(),
            forall|i: int| 0 <= i < out.len() ==> (#[trigger] out[i]).id@ == self@.tags[i],
    {
        let mut out: Vec<Tag> = Vec::new();
        let mut i: usize = 0;
        while i < self.tags.len()
            invariant
                i <= self.tags.len(),
                out.len() == i,
                forall|j: int| 0 <= j < i ==> (#[trigger] out[j]).id@ == self@.tags[j],
            decreases self.tags.len() - i,
        {
            out.push(Tag { id: self.tags[i].clone() });
            i += 1;
        }
        out
    }

    /// How many tags there are.
    pub fn count_tags(&self) -> (n: usize)
        ensures
            n == self@.tags.len(),
    {
        self.tags.len()
    }

    /// Stores a subscription of a user who is there.
    pub fn create_bbox_subscription(&mut self, new: &BboxSubscription) -> (r: Result<
        (),
        RepoError,
    >)
        requires
            old(self).wf(),
        ensures
            final(self).wf(),
            match r {
                Ok(_) => has_user(old(self)@.users, new@.user_email) && final(self)@ == (StoreView {
                    subscriptions: old(self)@.subscriptions.push(new@),
                    ..old(self)@
                }),
                Err(e) => e == RepoError::NotFound && !has_user(old(self)@.users, new@.user_email)
                    && final(self)@ == old(self)@,
            },
    {
        if self.find_user(new.user_email.as_str()).is_none() {
            return Err(RepoError::NotFound);
        }
        let copy = new.clone();
        self.subscriptions.push(copy);
        assert(self@.subscriptions =~= old(self)@.subscriptions.push(new@));
        Ok(())
    }

    /// All subscriptions.
    pub fn all_bbox_subscriptions(&self) -> (out: Vec<BboxSubscription>)
        ensures
            out.deep_view() == self@.subscriptions,
    {
        self.subscriptions.clone()
    }

    /// The subscriptions of the user with the given e-mail address.
    pub fn all_bbox_subscriptions_by_email(&self, email: &str) -> (out: Vec<BboxSubscription>)
        ensures
            out.deep_view() == subscriptions_of(self@.subscriptions, email@),
    {
        let ghost subs = self@.subscriptions;
        let mut out: Vec<BboxSubscription> = Vec::new();
        let mut i: usize = 0;
        proof {
            assert(subs.take(0) == Seq::<BboxSubscriptionView>::empty());
            assert(out.deep_view() == Seq::<BboxSubscriptionView>::empty());
        }
        while i < self.subscriptions.len()
            invariant
                i <= self.subscriptions.len(),
                subs == self@.subscriptions,
                out.deep_view() == subscriptions_of(subs.take(i as int), email@),
            decreases self.subscriptions.len() - i,
        {
            let ghost before = out.deep_view();
            proof {
                assert(subs.take(i as int + 1).drop_last() == subs.take(i as int));
                assert(subs.take(i as int + 1).last() == subs[i as int]);
            }
            if *self.subscriptions[i].user_email.as_str() == *email {
                let copy = self.subscriptions[i].clone();
                out.push(copy);
                assert(out.deep_view() == before.push(copy@));
            }
            i += 1;
        }
        proof {
            assert(subs.take(subs.len() as int) == subs);
        }
        out
    }

    /// Removes the subscriptions of the user with the given e-mail
    /// address.
    pub fn delete_bbox_subscriptions_by_email(&mut self, email: &str) -> (r: Result<(), RepoError>)
        requires
            old(self).wf(),
        ensures
            final(self).wf(),
            r is Ok,
            final(self)@ == (StoreView {
                subscriptions: subscriptions_without(old(self)@.subscriptions, email@),
                ..old(self)@
            }),
    {
        let ghost subs = self@.subscriptions;
        let mut kept: Vec<BboxSubscription> = Vec::new();
        let mut i: usize = 0;
        proof {
            assert(subs.take(0) == Seq::<BboxSubscriptionView>::empty());
            assert(kept.deep_view() == Seq::<BboxSubscriptionView>::empty());
        }
        while i < self.subscriptions.len()
            invariant
                i <= self.subscriptions.len(),
                subs == self@.subscriptions,
                *self == *old(self),
                kept.deep_view() == subscriptions_without(subs.take(i as int), email@),
            decreases self.subscriptions.len() - i,
        {
            let ghost before = kept.deep_view();
            proof {
                assert(subs.take(i as int + 1).drop_last() == subs.take(i as int));
                assert(subs.take(i as int + 1).last() == subs[i as int]);
            }
            if *self.subscriptions[i].user_email.as_str() != *email {
                let copy = self.subscriptions[i].clone();
                kept.push(copy);
                assert(kept.deep_view() == before.push(copy@));
            }
            i += 1;
        }
        proof {
            assert(subs.take(subs.len() as int) == subs);
        }
        self.subscriptions = kept;
        Ok(())
    }

    /// The e-mail addresses of those who have subscribed to a part of the
    /// map in which the given position lies.
    pub fn email_addresses_by_coordinate(&self, pos: MapPoint) -> (out: Vec<String>)
        ensures
            out.deep_view() == subscribers_at(self@.subscriptions, pos),
    {
        let ghost subs = self@.subscriptions;
        let mut out: Vec<String> = Vec::new();
        let mut i: usize = 0;
        proof {
            assert(subs.take(0) == Seq::<BboxSubscriptionView>::empty());
            assert(out.deep_view() == Seq::<Seq<char>>::empty());
        }
        while i < self.subscriptions.len()
            invariant
                i <= self.subscriptions.len(),
                subs == self@.subscriptions,
                out.deep_view() == subscribers_at(subs.take(i as int), pos),
            decreases self.subscriptions.len() - i,
        {
            let ghost before = out.deep_view();
            proof {
                assert(subs.take(i as int + 1).drop_last() == subs.take(i as int));
                assert(subs.take(i as int + 1).last() == subs[i as int]);
            }
            if self.subscriptions[i].bbox.contains_point(pos) {
                let copy = self.subscriptions[i].user_email.clone();
                out.push(copy);
                assert(out.deep_view() == before.push(copy@));
            }
            i += 1;
        }
        proof {
            assert(subs.take(subs.len() as int) == subs);
        }
        out
    }

    /// Stores an event.
    pub fn create_event(&mut self, e: Event) -> (r: Result<(), RepoError>)
        requires
            old(self).wf(),
        ensures
            final(self).wf(),
            r is Ok,
            final(self)@ == (StoreView { events: old(self)@.events.push(e@), ..old(self)@ }),
    {
        self.events.push(e);
        assert(self@.events =~= old(self)@.events.push(e@));
        Ok(())
    }

    /// The event with the given identifier, if it is not archived.
    pub fn get_event(&self, uid: &str) -> (r: Result<Event, RepoError>)
        ensures
            match r {
                Ok(event) => event@.uid == uid@ && event@.archived is None && self@.events.contains(
                    event@,
                ),
                Err(e) => e == RepoError::NotFound && forall|i: int|
                    0 <= i < self@.events.len() && (#[trigger] self@.events[i]).uid == uid@
                        ==> self@.events[i].archived is Some,
            },
    {
        let mut i: usize = 0;
        while i < self.events.len()
            invariant
                i <= self.events.len(),
                forall|j: int|
                    0 <= j < i && (#[trigger] self@.events[j]).uid == uid@
                        ==> self@.events[j].archived is Some,
            decreases self.events.len() - i,
        {
            if *self.events[i].uid.as_str() == *uid && self.events[i].archived.is_none() {
                let copy = self.events[i].clone();
                assert(self@.events[i as int] == copy@);
                return Ok(copy);
            }
            i += 1;
        }
        Err(RepoError::NotFound)
    }

    /// The events that are not archived and start neither before
    /// `start_min` nor after `start_max`, as far as the two are given.
    pub fn get_events(&self, start_min: Option<Timestamp>, start_max: Option<Timestamp>) -> (out:
        Vec<Event>)
        ensures
            out.deep_view() == events_between(self@.events, start_min, start_max),
    {
        let ghost events = self@.events;
        let mut out: Vec<Event> = Vec::new();
        let mut i: usize = 0;
        proof {
            assert(events.take(0) == Seq::<EventView>::empty());
            assert(out.deep_view() == Seq::<EventView>::empty());
        }
        while i < self.events.len()
            invariant
                i <= self.events.len(),
                events == self@.events,
                out.deep_view() == events_between(events.take(i as int), start_min, start_max),
            decreases self.events.len() - i,
        {
            let ghost before = out.deep_view();
            proof {
                assert(events.take(i as int + 1).drop_last() == events.take(i as int));
                assert(events.take(i as int + 1).last() == events[i as int]);
            }
            let event = &self.events[i];
            let late_enough = match start_min {
                Some(min) => event.start >= min,
                None => true,
            };
            let early_enough = match start_max {
                Some(max) => event.start <= max,
                None => true,
            };
            if event.archived.is_none() && late_enough && early_enough {
                let copy = event.clone();
                out.push(copy);
                assert(out.deep_view() == before.push(copy@));
            }
            i += 1;
        }
        proof {
            assert(events.take(events.len() as int) == events);
        }
        out
    }

    /// The events that are not archived.
    pub fn all_events(&self) -> (out: Vec<Event>)
        ensures
            out.deep_view() == events_between(self@.events, None, None),
    {
        self.get_events(None, None)
    }

    /// How many events are not archived.
    pub fn count_events(&self) -> (n: usize)
        ensures
            n == events_between(self@.events, None, None).len(),
    {
        self.all_events().len()
    }

    /// How many of the named events are not archived yet.
    pub fn count_live_events(&self, uids: &[&str]) -> (count: usize)
        ensures
            count == count_event_hits(self@.events, uids.deep_view()),
    {
        let ghost events = self@.events;
        let mut count: usize = 0;
        let mut i: usize = 0;
        proof {
            assert(events.take(0) == Seq::<EventView>::empty());
        }
        while i < self.events.len()
            invariant
                i <= self.events.len(),
                events == self@.events,
                count <= i,
                count == count_event_hits(events.take(i as int), uids.deep_view()),
            decreases self.events.len() - i,
        {
            proof {
                assert(events.take(i as int + 1).drop_last() == events.take(i as int));
                assert(events.take(i as int + 1).last() == events[i as int]);
            }
            if self.events[i].archived.is_none() && slice_contains(
                uids,
                self.events[i].uid.as_str(),
            ) {
                count += 1;
            }
            i += 1;
        }
        proof {
            assert(events.take(events.len() as int) == events);
        }
        count
    }

    /// Archives the named events. Each of them must be there and not
    /// archived yet; otherwise nothing changes.
    pub fn archive_events(&mut self, uids: &[&str], archived: Timestamp) -> (r: Result<
        usize,
        RepoError,
    >)
        requires
            old(self).wf(),
        ensures
            final(self).wf(),
            match r {
                Ok(count) => {
                    &&& count == uids.len()
                    &&& archive_fault(
                        count_event_hits(old(self)@.events, uids.deep_view()),
                        uids.len() as nat,
                    ) is None
                    &&& final(self)@ == (StoreView {
                        events: events_archived(old(self)@.events, uids.deep_view(), archived),
                        ..old(self)@
                    })
                },
                Err(e) => {
                    &&& archive_fault(
                        count_event_hits(old(self)@.events, uids.deep_view()),
                        uids.len() as nat,
                    ) == Some(e)
                    &&& final(self)@ == old(self)@
                },
            },
    {
        let found = self.count_live_events(uids);
        if found < uids.len() {
            return Err(RepoError::NotFound);
        }
        if found > uids.len() {
            return Err(RepoError::TooManyFound);
        }
        let ghost before = self@.events;
        let ghost names = uids.deep_view();
        let n = self.events.len();
        let mut i: usize = 0;
        while i < n
            invariant
                i <= n,
                n == before.len(),
                names == uids.deep_view(),
                self@.events.len() == n,
                forall|k: int|
                    0 <= k < i ==> (#[trigger] self@.events[k]) == events_archived(
                        before,
                        names,
                        archived,
                    )[k],
                forall|k: int| i <= k < n ==> (#[trigger] self@.events[k]) == before[k],
                self@ == (StoreView { events: self@.events, ..old(self)@ }),
            decreases n - i,
        {
            proof {
                assert(self@.events[i as int] == before[i as int]);
                assert(self@.events[i as int] == self.events[i as int]@);
            }
            if self.events[i].archived.is_none() && slice_contains(
                uids,
                self.events[i].uid.as_str(),
            ) {
                let ghost events_before = self@.events;
                self.events[i].archived = Some(archived);
                proof {
                    assert forall|k: int| 0 <= k < n && k != i implies (
                    #[trigger] self@.events[k]) == events_before[k] by {}
                    assert(self@.events[i as int] == (EventView {
                        archived: Some(archived),
                        ..before[i as int]
                    }));
                }
            }
            i += 1;
        }
        proof {
            assert(self@.events =~= events_archived(before, names, archived));
        }
        Ok(found)
    }
}

/// Whether an event with the given identifier is stored.
pub open spec fn has_event(events: Seq<EventView>, uid: Seq<char>) -> bool {
    exists|i: int| 0 <= i < events.len() && (#[trigger] events[i]).uid == uid
}

/// The events with each replaced that has the identifier of `event`.
pub open spec fn events_updated(events: Seq<EventView>, event: EventView) -> Seq<EventView> {
    Seq::new(
        events.len(),
        |i: int|
            if events[i].uid == event.uid {
                event
            } else {
                events[i]
            },
    )
}

/// The events without those that have the given identifier.
pub open spec fn events_without(events: Seq<EventView>, uid: Seq<char>) -> Seq<EventView>
    decreases events.len(),
{
    if events.len() == 0 {
        Seq::empty()
    } else if events.last().uid == uid {
        events_without(events.drop_last(), uid)
    } else {
        events_without(events.drop_last(), uid).push(events.last())
    }
}

/// Whether one of the events with the given identifier has one of the
/// tags.
pub open spec fn event_has_one_of(events: Seq<EventView>, uid: Seq<char>, tags: Seq<Seq<char>>) -> bool {
    exists|i: int, k: int|
        0 <= i < events.len() && 0 <= k < tags.len() && (#[trigger] events[i]).uid == uid
            && events[i].tags.contains(#[trigger] tags[k])
}

impl Store {
    /// Where an event with the given identifier is stored.
    pub fn find_event(&self, uid: &str) -> (r: Option<usize>)
        ensures
            match r {
                Some(i) => i < self.events.len() && self@.events[i as int].uid == uid@,
                None => !has_event(self@.events, uid@),
            },
    {
        let mut i: usize = 0;
        while i < self.events.len()
            invariant
                i <= self.events.len(),
                forall|j: int| 0 <= j < i ==> (#[trigger] self@.events[j]).uid != uid@,
            decreases self.events.len() - i,
        {
            if *self.events[i].uid.as_str() == *uid {
                return Some(i);
            }
            i += 1;
        }
        None
    }

    /// Stores what has changed of the event with the identifier of
    /// `event`.
    pub fn update_event(&mut self, event: &Event) -> (r: Result<(), RepoError>)
        requires
            old(self).wf(),
        ensures
            final(self).wf(),
            match r {
                Ok(_) => has_event(old(self)@.events, event@.uid) && final(self)@ == (StoreView {
                    events: events_updated(old(self)@.events, event@),
                    ..old(self)@
                }),
                Err(e) => e == RepoError::NotFound && !has_event(old(self)@.events, event@.uid)
                    && final(self)@ == old(self)@,
            },
    {
        if self.find_event(event.uid.as_str()).is_none() {
            return Err(RepoError::NotFound);
        }
        let ghost before = self@.events;
        let n = self.events.len();
        let mut i: usize = 0;
        while i < n
            invariant
                i <= n,
                n == before.len(),
                self@.events.len() == n,
                forall|k: int|
                    0 <= k < i ==> (#[trigger] self@.events[k]) == events_updated(
                        before,
                        event@,
                    )[k],
                forall|k: int| i <= k < n ==> (#[trigger] self@.events[k]) == before[k],
                self@ == (StoreView { events: self@.events, ..old(self)@ }),
            decreases n - i,
        {
            proof {
                assert(self@.events[i as int] == before[i as int]);
                assert(self@.events[i as int] == self.events[i as int]@);
            }
            if *self.events[i].uid.as_str() == *event.uid.as_str() {
                let ghost events_before = self@.events;
                let copy = event.clone();
                self.events[i] = copy;
                proof {
                    assert forall|k: int| 0 <= k < n && k != i implies (
                    #[trigger] self@.events[k]) == events_before[k] by {}
                    assert(self@.events[i as int] == event@);
                }
            }
            i += 1;
        }
        proof {
            assert(self@.events =~= events_updated(before, event@));
        }
        Ok(())
    }

    fn event_is_tagged(&self, uid: &str, tags: &[&str]) -> (b: bool)
        ensures
            b == event_has_one_of(self@.events, uid@, tags.deep_view()),
    {
        let ghost events = self@.events;
        let ghost names = tags.deep_view();
        let mut i: usize = 0;
        while i < self.events.len()
            invariant
                i <= self.events.len(),
                events == self@.events,
                names == tags.deep_view(),
                forall|a: int, k: int|
                    0 <= a < i && 0 <= k < names.len() ==> !((#[trigger] events[a]).uid == uid@
                        && events[a].tags.contains(#[trigger] names[k])),
            decreases self.events.len() - i,
        {
            proof {
                assert(events[i as int] == self.events[i as int]@);
            }
            if *self.events[i].uid.as_str() == *uid {
                let mut k: usize = 0;
                while k < tags.len()
                    invariant
                        k <= tags.len(),
                        i < self.events.len(),
                        events == self@.events,
                        names == tags.deep_view(),
                        events[i as int] == self.events[i as int]@,
                        events[i as int].uid == uid@,
                        forall|m: int|
                            0 <= m < k ==> !events[i as int].tags.contains(#[trigger] names[m]),
                    decreases tags.len() - k,
                {
                    if crate::text::contains_str(&self.events[i].tags, tags[k]) {
                        assert(events[i as int].tags.contains(names[k as int]));
                        return true;
                    }
                    k += 1;
                }
            }
            i += 1;
        }
        false
    }

    /// Removes the event with the given identifier, if it has one of the
    /// given tags or none is given. Tells whether the event was removed.
    pub fn delete_event_with_matching_tags(&mut self, uid: &str, tags: &[&str]) -> (r: Result<
        Option<()>,
        RepoError,
    >)
        requires
            old(self).wf(),
        ensures
            final(self).wf(),
            match r {
                Ok(Some(_)) => {
                    &&& has_event(old(self)@.events, uid@)
                    &&& tags.len() == 0 || event_has_one_of(
                        old(self)@.events,
                        uid@,
                        tags.deep_view(),
                    )
                    &&& final(self)@ == (StoreView {
                        events: events_without(old(self)@.events, uid@),
                        ..old(self)@
                    })
                },
                Ok(None) => {
                    &&& has_event(old(self)@.events, uid@)
                    &&& tags.len() > 0
                    &&& !event_has_one_of(old(self)@.events, uid@, tags.deep_view())
                    &&& final(self)@ == old(self)@
                },
                Err(e) => e == RepoError::NotFound && !has_event(old(self)@.events, uid@)
                    && final(self)@ == old(self)@,
            },
    {
        if self.find_event(uid).is_none() {
            return Err(RepoError::NotFound);
        }
        if tags.len() > 0 && !self.event_is_tagged(uid, tags) {
            return Ok(None);
        }
        let ghost events = self@.events;
        let mut kept: Vec<Event> = Vec::new();
        let mut i: usize = 0;
        proof {
            assert(events.take(0) == Seq::<EventView>::empty());
            assert(kept.deep_view() == Seq::<EventView>::empty());
        }
        while i < self.events.len()
            invariant
                i <= self.events.len(),
                events == self@.events,
                *self == *old(self),
                kept.deep_view() == events_without(events.take(i as int), uid@),
            decreases self.events.len() - i,
        {
            let ghost before = kept.deep_view();
            proof {
                assert(events.take(i as int + 1).drop_last() == events.take(i as int));
                assert(events.take(i as int + 1).last() == events[i as int]);
            }
            if *self.events[i].uid.as_str() != *uid {
                let copy = self.events[i].clone();
                kept.push(copy);
                assert(kept.deep_view() == before.push(copy@));
            }
            i += 1;
        }
        proof {
            assert(events.take(events.len() as int) == events);
        }
        self.events = kept;
        Ok(Some(()))
    }
}

} // verus!

//! What of a place or an event is handed out, depending on who asks.

use crate::entities::{Event, EventView, Place, PlaceView, Role};
use crate::text::contains_str;
use vstd::prelude::*;

verus! {

/// Whether two lists of strings have a string in common.
pub open spec fn share_one(a: Seq<Seq<char>>, b: Seq<Seq<char>>) -> bool {
    exists|i: int| 0 <= i < a.len() && b.contains(#[trigger] a[i])
}

/// Whether an event belongs to the owner of the given tags: it has one of
/// them.
pub fn is_event_owned(event: &Event, owned_tags: &Vec<String>) -> (b: bool)
    ensures
        b == share_one(owned_tags.deep_view(), event@.tags),
{
    let mut i: usize = 0;
    while i < owned_tags.len()
        invariant
            i <= owned_tags.len(),
            forall|j: int| 0 <= j < i ==> !event@.tags.contains(#[trigger] owned_tags.deep_view()[j]),
        decreases owned_tags.len() - i,
    {
        if contains_str(&event.tags, owned_tags[i].as_str()) {
            assert(event@.tags.contains(owned_tags.deep_view()[i as int]));
            return true;
        }
        i += 1;
    }
    false
}

/// A tag that an organization owns is shown only to that organization.
pub open spec fn tag_shown(tag: Seq<char>, moderated: Seq<Seq<char>>, owned: Seq<Seq<char>>) -> bool {
    !moderated.contains(tag) || owned.contains(tag)
}

/// The tags of a list that are shown, in their order.
pub open spec fn shown_tags(
    tags: Seq<Seq<char>>,
    moderated: Seq<Seq<char>>,
    owned: Seq<Seq<char>>,
) -> Seq<Seq<char>>
    decreases tags.len(),
{
    if tags.len() == 0 {
        Seq::empty()
    } else if tag_shown(tags.last(), moderated, owned) {
        shown_tags(tags.drop_last(), moderated, owned).push(tags.last())
    } else {
        shown_tags(tags.drop_last(), moderated, owned)
    }
}

/// What is handed out of a place. An administrator gets all of it. Anybody
/// else gets it without the tags that some organization owns, but for
/// those that the asking organization owns itself; and who is no scout
/// gets it without contact details.
pub open spec fn exported(
    place: PlaceView,
    role: Role,
    moderated: Seq<Seq<char>>,
    owned: Seq<Seq<char>>,
) -> PlaceView {
    if role.rank() >= Role::Admin.rank() {
        place
    } else {
        PlaceView {
            tags: shown_tags(place.tags, moderated, owned),
            contact: if role.rank() >= Role::Scout.rank() {
                place.contact
            } else {
                None
            },
            ..place
        }
    }
}

/// The tags of a list that are shown to the owner of `owned_tags`, where
/// `moderated_tags` are the tags that some organization owns.
pub fn filter_tags(tags: Vec<String>, moderated_tags: &Vec<String>, owned_tags: &Vec<String>) -> (out:
    Vec<String>)
    ensures
        out.deep_view() == shown_tags(
            tags.deep_view(),
            moderated_tags.deep_view(),
            owned_tags.deep_view(),
        ),
{
    let mut tags = tags;
    let ghost all = tags.deep_view();
    let ghost n = all.len();
    let mut out: Vec<String> = Vec::new();
    assert(all.take(0) == Seq::<Seq<char>>::empty());
    assert(out.deep_view() == Seq::<Seq<char>>::empty());
    assert(tags.deep_view() == all.skip(0));
    while tags.len() > 0
        invariant
            n == all.len(),
            tags.len() <= n,
            tags.deep_view() == all.skip(n - tags.len()),
            out.deep_view() == shown_tags(
                all.take(n - tags.len()),
                moderated_tags.deep_view(),
                owned_tags.deep_view(),
            ),
        decreases tags.len(),
    {
        let ghost k = n - tags.len();
        let ghost before = out.deep_view();
        let ghost rest = tags.deep_view();
        let tag = tags.remove(0);
        proof {
            assert(tag@ == rest[0]);
            assert(tag@ == all[k]);
            assert(tags.deep_view() =~= all.skip(k + 1)) by {
                assert forall|j: int| 0 <= j < tags.len() implies tags.deep_view()[j] == all.skip(
                    k + 1,
                )[j] by {
                    assert(tags.deep_view()[j] == rest[j + 1]);
                }
            }
            assert(all.take(k + 1).drop_last() == all.take(k));
            assert(all.take(k + 1).last() == all[k]);
        }
        if !contains_str(moderated_tags, tag.as_str()) || contains_str(owned_tags, tag.as_str()) {
            out.push(tag);
            assert(out.deep_view() == before.push(tag@));
        }
    }
    assert(all.take(n as int) == all);
    out
}

/// Hands out a place to somebody with the given role. `moderated_tags` are
/// the tags that some organization owns, `owned_tags` those that the
/// asking organization owns.
pub fn export_place(
    place: Place,
    role: Role,
    moderated_tags: &Vec<String>,
    owned_tags: &Vec<String>,
) -> (r: Place)
    ensures
        r@ == exported(place@, role, moderated_tags.deep_view(), owned_tags.deep_view()),
{
    if !role.at_least(Role::Admin) {
        let Place {
            uid,
            license,
            rev,
            created,
            title,
            description,
            location,
            contact,
            homepage,
            image_url,
            image_link_url,
            tags,
        } = place;
        let place = Place {
            uid,
            license,
            rev,
            created,
            title,
            description,
            location,
            contact,
            homepage,
            image_url,
            image_link_url,
            tags: filter_tags(tags, moderated_tags, owned_tags),
        };
        if !role.at_least(Role::Scout) {
            place.strip_contact_details()
        } else {
            place
        }
    } else {
        place
    }
}

/// An event as it is shown in the results of a search: who is not its
/// owner does not learn who entered it.
pub open spec fn event_on_search(event: EventView, owned: Seq<Seq<char>>) -> EventView {
    if share_one(owned, event.tags) {
        event
    } else {
        EventView { created_by: None, ..event }
    }
}

/// An event as it is handed out. An administrator gets all of it, a scout
/// what a search shows, and anybody else neither contact details nor who
/// entered it.
pub open spec fn event_on_export(event: EventView, role: Role, owned: Seq<Seq<char>>) -> EventView {
    if role.rank() >= Role::Admin.rank() {
        event
    } else if role.rank() >= Role::Scout.rank() {
        event_on_search(event, owned)
    } else {
        EventView { contact: None, created_by: None, ..event }
    }
}

/// Hides who entered an event in each event of a list that the owner of
/// `owned_tags` does not own.
pub fn strip_event_details_on_search(events: Vec<Event>, owned_tags: &Vec<String>) -> (out: Vec<
    Event,
>)
    ensures
        out.len() == events.len(),
        forall|i: int|
            0 <= i < events.len() ==> (#[trigger] out[i])@ == event_on_search(
                events[i]@,
                owned_tags.deep_view(),
            ),
{
    let mut out = events;
    let mut i: usize = 0;
    while i < out.len()
        invariant
            i <= out.len(),
            out.len() == events.len(),
            forall|j: int|
                0 <= j < i ==> (#[trigger] out[j])@ == event_on_search(
                    events[j]@,
                    owned_tags.deep_view(),
                ),
            forall|j: int| i <= j < out.len() ==> out[j] == events[j],
        decreases out.len() - i,
    {
        if !is_event_owned(&out[i], owned_tags) {
            out[i].created_by = None;
        }
        i += 1;
    }
    out
}

/// Hides in each event of a list what somebody with the given role, who
/// owns `owned_tags`, may not see.
pub fn strip_event_details_on_export(events: Vec<Event>, role: Role, owned_tags: &Vec<String>) -> (out:
    Vec<Event>)
    ensures
        out.len() == events.len(),
        forall|i: int|
            0 <= i < events.len() ==> (#[trigger] out[i])@ == event_on_export(
                events[i]@,
                role,
                owned_tags.deep_view(),
            ),
{
    if role.at_least(Role::Admin) {
        return events;
    }
    let mut out = events;
    let mut i: usize = 0;
    while i < out.len()
        invariant
            i <= out.len(),
            out.len() == events.len(),
            role.rank() < Role::Admin.rank(),
            forall|j: int|
                0 <= j < i ==> (#[trigger] out[j])@ == event_on_export(
                    events[j]@,
                    role,
                    owned_tags.deep_view(),
                ),
            forall|j: int| i <= j < out.len() ==> out[j] == events[j],
        decreases out.len() - i,
    {
        if role.at_least(Role::Scout) {
            if !is_event_owned(&out[i], owned_tags) {
                out[i].created_by = None;
            }
        } else {
            out[i].contact = None;
            out[i].created_by = None;
        }
        i += 1;
    }
    out
}

} // verus!

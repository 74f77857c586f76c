//! What users do with the directory, one function for each action.
//!
//! An action that fails leaves the store as it was.

use crate::category::{tags_of_uids, with_all_unique, Category};
use crate::entities::{
    Activity, ActivityView, Address, AddressView, Contact, ContactView, Location, LocationView,
    Organization, Place, PlaceView, Rating, Role, Tag, Timestamp, User, UserView,
};
use crate::error::{Error, ParameterError};
use crate::geo::{LatCoord, LngCoord, MapPoint, RawCoord};
use crate::store::{Store, StoreView};
use crate::store_misc::tags_owned;
use crate::store_places::{store_fault, stored};
use crate::store_users::{has_user, user_of, users_updated};
use crate::text::{
    add_unique, chars_of, contains_str, lowercase_of, push_unique, split_tokens, tokens,
};
use crate::validate::{parse_url_param, place_fault, url_of, validate_place};
use vstd::prelude::*;

verus! {

// ---------------------------------------------------------------------
// Roles
// ---------------------------------------------------------------------

/// Whether somebody with the role `actor` may give the role `role` to
/// somebody who has the role `target`: only to those below, and only a role
/// below the own one.
pub open spec fn role_change_allowed(actor: Role, target: Role, role: Role) -> bool {
    actor.rank() > target.rank() && role.rank() < actor.rank()
}

/// Whether somebody with the role `actor` may give the role `role` to
/// somebody who has the role `target`.
pub fn may_change_role(actor: Role, target: Role, role: Role) -> (b: bool)
    ensures
        b == role_change_allowed(actor, target, role),
{
    actor.above(target) && !role.at_least(actor)
}

/// Why a role cannot be changed, if it cannot: one of the two users is
/// missing, or the change is not allowed.
pub open spec fn role_change_fault(
    users: Seq<UserView>,
    account_email: Seq<char>,
    user_email: Seq<char>,
    role: Role,
) -> Option<ParameterError> {
    if !has_user(users, account_email) || !has_user(users, user_email) {
        Some(ParameterError::UserDoesNotExist)
    } else if !role_change_allowed(
        user_of(users, account_email).role,
        user_of(users, user_email).role,
        role,
    ) {
        Some(ParameterError::Forbidden)
    } else {
        None
    }
}

/// Gives a user a role, on behalf of the user with the e-mail address
/// `account_email`.
pub fn change_user_role(db: &mut Store, account_email: &str, user_email: &str, role: Role) -> (r:
    Result<(), Error>)
    requires
        old(db).wf(),
    ensures
        final(db).wf(),
        match r {
            Ok(_) => {
                &&& role_change_fault(old(db)@.users, account_email@, user_email@, role) is None
                &&& final(db)@ == (StoreView {
                    users: users_updated(
                        old(db)@.users,
                        UserView { role, ..user_of(old(db)@.users, user_email@) },
                    ),
                    ..old(db)@
                })
            },
            Err(e) => {
                &&& role_change_fault(old(db)@.users, account_email@, user_email@, role) matches Some(
                    fault,
                )
                &&& e == Error::Parameter(fault)
                &&& final(db)@ == old(db)@
            },
        },
{
    let account = match db.try_get_user_by_email(account_email) {
        Some(account) => account,
        None => {
            return Err(Error::Parameter(ParameterError::UserDoesNotExist));
        },
    };
    let mut user = match db.try_get_user_by_email(user_email) {
        Some(user) => user,
        None => {
            return Err(Error::Parameter(ParameterError::UserDoesNotExist));
        },
    };
    if may_change_role(account.role, user.role, role) {
        user.role = role;
        let _ = db.update_user(&user);
        Ok(())
    } else {
        Err(Error::Parameter(ParameterError::Forbidden))
    }
}

/// Whether a user may do what needs at least the given role.
pub fn authorize_role(user: &User, least: Role) -> (r: Result<(), ParameterError>)
    ensures
        match r {
            Ok(_) => user.role.rank() >= least.rank(),
            Err(e) => e == ParameterError::Forbidden && user.role.rank() < least.rank(),
        },
{
    if user.role.at_least(least) {
        Ok(())
    } else {
        Err(ParameterError::Forbidden)
    }
}

/// Why the user with the given e-mail address may not do what needs at
/// least the given role, if so: there is no such user, or the user's role
/// is below.
pub open spec fn role_fault(users: Seq<UserView>, email: Seq<char>, least: Role) -> Option<
    ParameterError,
> {
    if !has_user(users, email) {
        Some(ParameterError::UserDoesNotExist)
    } else if user_of(users, email).role.rank() < least.rank() {
        Some(ParameterError::Forbidden)
    } else {
        None
    }
}

/// Whether the user with the given e-mail address may do what needs at
/// least the given role.
pub fn authorize_user_by_email(db: &Store, email: &str, least: Role) -> (r: Result<
    User,
    ParameterError,
>)
    requires
        db.wf(),
    ensures
        match r {
            Ok(user) => role_fault(db@.users, email@, least) is None && user@ == user_of(
                db@.users,
                email@,
            ),
            Err(e) => role_fault(db@.users, email@, least) == Some(e),
        },
{
    match db.try_get_user_by_email(email) {
        Some(user) => match authorize_role(&user, least) {
            Ok(_) => Ok(user),
            Err(e) => Err(e),
        },
        None => Err(ParameterError::UserDoesNotExist),
    }
}

// ---------------------------------------------------------------------
// Tags
// ---------------------------------------------------------------------

/// A text without its `#`.
pub open spec fn without_hashes(s: Seq<char>) -> Seq<char>
    decreases s.len(),
{
    if s.len() == 0 {
        Seq::empty()
    } else if s.last() == '#' {
        without_hashes(s.drop_last())
    } else {
        without_hashes(s.drop_last()).push(s.last())
    }
}

/// A list of tags with those added that a list of words gives: each word
/// without its `#` and in lower case, unless it is empty or in the list
/// already.
pub open spec fn with_words(tags: Seq<Seq<char>>, words: Seq<Seq<char>>) -> Seq<Seq<char>>
    decreases words.len(),
{
    if words.len() == 0 {
        tags
    } else {
        add_unique(
            with_words(tags, words.drop_last()),
            lowercase_of(without_hashes(words.last())),
        )
    }
}

/// The tags that a list of texts gives: each part of each text between
/// white space is a tag, without its `#` and in lower case; no tag is empty,
/// and none comes twice.
pub open spec fn normalized_tags(texts: Seq<Seq<char>>) -> Seq<Seq<char>>
    decreases texts.len(),
{
    if texts.len() == 0 {
        Seq::empty()
    } else {
        with_words(normalized_tags(texts.drop_last()), tokens(texts.last(), false))
    }
}

fn strip_hashes(s: &str) -> (out: String)
    ensures
        out@ == without_hashes(s@),
{
    let chars = chars_of(s);
    let mut out = String::new();
    let mut i: usize = 0;
    proof {
        assert(chars@.take(0) == Seq::<char>::empty());
    }
    while i < chars.len()
        invariant
            i <= chars.len(),
            chars@ == s@,
            out@ == without_hashes(chars@.take(i as int)),
        decreases chars.len() - i,
    {
        proof {
            assert(chars@.take(i as int + 1).drop_last() == chars@.take(i as int));
            assert(chars@.take(i as int + 1).last() == chars@[i as int]);
        }
        if chars[i] != '#' {
            out.push(chars[i]);
        }
        i += 1;
    }
    proof {
        assert(chars@.take(chars.len() as int) == chars@);
    }
    out
}

/// Brings a list of tags into the form in which tags are stored.
pub fn prepare_tag_list(tags: &Vec<String>) -> (out: Vec<String>)
    ensures
        out.deep_view() == normalized_tags(tags.deep_view()),
{
    let mut out: Vec<String> = Vec::new();
    let mut i: usize = 0;
    proof {
        assert(tags.deep_view().take(0) == Seq::<Seq<char>>::empty());
        assert(out.deep_view() == Seq::<Seq<char>>::empty());
    }
    while i < tags.len()
        invariant
            i <= tags.len(),
            out.deep_view() == normalized_tags(tags.deep_view().take(i as int)),
        decreases tags.len() - i,
    {
        proof {
            assert(tags.deep_view().take(i as int + 1).drop_last() == tags.deep_view().take(
                i as int,
            ));
            assert(tags.deep_view().take(i as int + 1).last() == tags[i as int]@);
        }
        let words = split_tokens(tags[i].as_str(), false);
        let ghost start = out.deep_view();
        let mut k: usize = 0;
        proof {
            assert(words.deep_view().take(0) == Seq::<Seq<char>>::empty());
        }
        while k < words.len()
            invariant
                k <= words.len(),
                out.deep_view() == with_words(start, words.deep_view().take(k as int)),
            decreases words.len() - k,
        {
            proof {
                assert(words.deep_view().take(k as int + 1).drop_last() == words.deep_view().take(
                    k as int,
                ));
                assert(words.deep_view().take(k as int + 1).last() == words[k as int]@);
            }
            let tag = strip_hashes(words[k].as_str()).as_str().to_lowercase();
            push_unique(&mut out, tag);
            k += 1;
        }
        proof {
            assert(words.deep_view().take(words.len() as int) == words.deep_view());
        }
        i += 1;
    }
    proof {
        assert(tags.deep_view().take(tags.len() as int) == tags.deep_view());
    }
    out
}

/// Whether a tag may not be used: some organization owns it, and the
/// organization on whose behalf it is used, if any, does not.
pub open spec fn tag_forbidden(tag: Seq<char>, moderated: Seq<Seq<char>>, owned: Option<Seq<Seq<char>>>) -> bool {
    moderated.contains(tag) && !(owned matches Some(owned) && owned.contains(tag))
}

/// Whether one of the tags may not be used.
pub open spec fn any_tag_forbidden(
    tags: Seq<Seq<char>>,
    moderated: Seq<Seq<char>>,
    owned: Option<Seq<Seq<char>>>,
) -> bool {
    exists|i: int| 0 <= i < tags.len() && tag_forbidden(#[trigger] tags[i], moderated, owned)
}

/// How many of the tags some organization owns.
pub open spec fn count_owned(tags: Seq<Seq<char>>, moderated: Seq<Seq<char>>) -> nat
    decreases tags.len(),
{
    if tags.len() == 0 {
        0
    } else {
        count_owned(tags.drop_last(), moderated) + if moderated.contains(tags.last()) {
            1nat
        } else {
            0nat
        }
    }
}

/// The tags that an organization owns, if there is an organization.
pub open spec fn owned_by(org: Option<&Organization>) -> Option<Seq<Seq<char>>> {
    match org {
        Some(org) => Some(org@.owned_tags),
        None => None,
    }
}

/// Checks that each of the tags that some organization owns is owned by
/// the given organization, and counts these tags.
pub fn check_and_count_owned_tags(db: &Store, tags: &Vec<String>, org: Option<&Organization>) -> (r:
    Result<usize, ParameterError>)
    ensures
        match r {
            Ok(count) => !any_tag_forbidden(
                tags.deep_view(),
                tags_owned(db@.organizations),
                owned_by(org),
            ) && count == count_owned(tags.deep_view(), tags_owned(db@.organizations)),
            Err(e) => e == ParameterError::OwnedTag && any_tag_forbidden(
                tags.deep_view(),
                tags_owned(db@.organizations),
                owned_by(org),
            ),
        },
{
    let owned_tags = db.get_all_tags_owned_by_orgs();
    let ghost all = tags.deep_view();
    let ghost moderated = owned_tags.deep_view();
    let mut count: usize = 0;
    let mut i: usize = 0;
    proof {
        assert(all.take(0) == Seq::<Seq<char>>::empty());
    }
    while i < tags.len()
        invariant
            i <= tags.len(),
            all == tags.deep_view(),
            moderated == owned_tags.deep_view(),
            moderated == tags_owned(db@.organizations),
            count <= i,
            count == count_owned(all.take(i as int), moderated),
            forall|j: int| 0 <= j < i ==> !tag_forbidden(#[trigger] all[j], moderated, owned_by(org)),
        decreases tags.len() - i,
    {
        proof {
            assert(all.take(i as int + 1).drop_last() == all.take(i as int));
            assert(all.take(i as int + 1).last() == all[i as int]);
            assert(all[i as int] == tags[i as int]@);
        }
        if contains_str(&owned_tags, tags[i].as_str()) {
            let allowed = match org {
                Some(org) => contains_str(&org.owned_tags, tags[i].as_str()),
                None => false,
            };
            if !allowed {
                assert(tag_forbidden(all[i as int], moderated, owned_by(org)));
                return Err(ParameterError::OwnedTag);
            }
            count += 1;
        }
        i += 1;
    }
    proof {
        assert(all.take(all.len() as int) == all);
    }
    Ok(count)
}

// ---------------------------------------------------------------------
// New places
// ---------------------------------------------------------------------

/// What a user enters of a new place. The position is given in the raw
/// form of coordinates.
#[derive(Debug)]
pub struct NewEntry {
    pub title: String,
    pub description: String,
    pub lat: RawCoord,
    pub lng: RawCoord,
    pub street: Option<String>,
    pub zip: Option<String>,
    pub city: Option<String>,
    pub country: Option<String>,
    pub email: Option<String>,
    pub telephone: Option<String>,
    pub homepage: Option<String>,
    pub categories: Vec<String>,
    pub tags: Vec<String>,
    pub license: String,
    pub image_url: Option<String>,
    pub image_link_url: Option<String>,
}

pub struct NewEntryView {
    pub title: Seq<char>,
    pub description: Seq<char>,
    pub lat: RawCoord,
    pub lng: RawCoord,
    pub street: Option<Seq<char>>,
    pub zip: Option<Seq<char>>,
    pub city: Option<Seq<char>>,
    pub country: Option<Seq<char>>,
    pub email: Option<Seq<char>>,
    pub telephone: Option<Seq<char>>,
    pub homepage: Option<Seq<char>>,
    pub categories: Seq<Seq<char>>,
    pub tags: Seq<Seq<char>>,
    pub license: Seq<char>,
    pub image_url: Option<Seq<char>>,
    pub image_link_url: Option<Seq<char>>,
}

impl View for NewEntry {
    type V = NewEntryView;

    open spec fn view(&self) -> NewEntryView {
        NewEntryView {
            title: self.title@,
            description: self.description@,
            lat: self.lat,
            lng: self.lng,
            street: self.street.deep_view(),
            zip: self.zip.deep_view(),
            city: self.city.deep_view(),
            country: self.country.deep_view(),
            email: self.email.deep_view(),
            telephone: self.telephone.deep_view(),
            homepage: self.homepage.deep_view(),
            categories: self.categories.deep_view(),
            tags: self.tags.deep_view(),
            license: self.license@,
            image_url: self.image_url.deep_view(),
            image_link_url: self.image_link_url.deep_view(),
        }
    }
}

/// A revision of a place that has passed all checks and can be stored.
#[derive(Debug)]
pub struct Storable(pub Place);

impl View for Storable {
    type V = PlaceView;

    open spec fn view(&self) -> PlaceView {
        self.0@
    }
}

/// A link in its serialized form, if there is one and it is a URL.
pub open spec fn link_of(link: Option<Seq<char>>) -> Option<Seq<char>> {
    match link {
        Some(link) => url_of(link),
        None => None,
    }
}

/// Whether a link that is there is no URL.
pub open spec fn link_broken(link: Option<Seq<char>>) -> bool {
    link matches Some(link) && url_of(link) is None
}

/// The tags of a new place: those that were entered and those of its
/// categories, in the form in which tags are stored.
pub open spec fn new_place_tags(e: NewEntryView) -> Seq<Seq<char>> {
    normalized_tags(with_all_unique(e.tags, tags_of_uids(e.categories)))
}

/// The revision of a place with the given number as it is made of what a
/// user has entered.
pub open spec fn place_rev(
    e: NewEntryView,
    uid: Seq<char>,
    rev: u64,
    now: Timestamp,
    created_by: Option<Seq<char>>,
) -> PlaceView {
    let address = AddressView { street: e.street, zip: e.zip, city: e.city, country: e.country };
    PlaceView {
        uid,
        license: e.license,
        rev,
        created: ActivityView { at: now, by: created_by },
        title: e.title,
        description: e.description,
        location: LocationView {
            pos: MapPoint { lat: LatCoord { raw: e.lat }, lng: LngCoord { raw: e.lng } },
            address: if address.empty() {
                None
            } else {
                Some(address)
            },
        },
        contact: if e.email is Some || e.telephone is Some {
            Some(ContactView { email: e.email, phone: e.telephone })
        } else {
            None
        },
        homepage: link_of(e.homepage),
        image_url: link_of(e.image_url),
        image_link_url: link_of(e.image_link_url),
        tags: new_place_tags(e),
    }
}

/// What is wrong with what a user has entered of a place, if anything: the
/// position is not on the map, a tag belongs to an organization other than
/// the one on whose behalf it is entered, a link is no URL, or the revision
/// that is made of it does not pass validation.
pub open spec fn place_rev_fault(
    store: StoreView,
    e: NewEntryView,
    uid: Seq<char>,
    rev: u64,
    now: Timestamp,
    created_by: Option<Seq<char>>,
    owned: Option<Seq<Seq<char>>>,
) -> Option<ParameterError> {
    if !(MapPoint { lat: LatCoord { raw: e.lat }, lng: LngCoord { raw: e.lng } }).valid() {
        Some(ParameterError::InvalidPosition)
    } else if any_tag_forbidden(new_place_tags(e), tags_owned(store.organizations), owned) {
        Some(ParameterError::OwnedTag)
    } else if link_broken(e.homepage) || link_broken(e.image_url) || link_broken(e.image_link_url) {
        Some(ParameterError::InvalidUrl)
    } else {
        place_fault(place_rev(e, uid, rev, now, created_by))
    }
}

/// The first revision of a place as it is made of what a user has entered.
pub open spec fn new_place(
    e: NewEntryView,
    uid: Seq<char>,
    now: Timestamp,
    created_by: Option<Seq<char>>,
) -> PlaceView {
    place_rev(e, uid, 0, now, created_by)
}

/// What is wrong with what a user has entered of a new place, if anything.
/// Nobody may use a tag that an organization owns for a new place.
pub open spec fn new_place_fault(
    store: StoreView,
    e: NewEntryView,
    uid: Seq<char>,
    now: Timestamp,
    created_by: Option<Seq<char>>,
) -> Option<ParameterError> {
    place_rev_fault(store, e, uid, 0, now, created_by, None)
}

fn parse_link(link: &Option<String>) -> (r: Result<Option<String>, ParameterError>)
    ensures
        match r {
            Ok(url) => !link_broken(link.deep_view()) && url.deep_view() == link_of(
                link.deep_view(),
            ),
            Err(e) => e == ParameterError::InvalidUrl && link_broken(link.deep_view()),
        },
{
    match link {
        Some(link) => match parse_url_param(link.as_str()) {
            Ok(url) => Ok(Some(url)),
            Err(e) => Err(e),
        },
        None => Ok(None),
    }
}

/// Makes a revision of a place of what a user has entered, and checks it.
pub fn prepare_place_rev(
    db: &Store,
    e: NewEntry,
    created_by_email: Option<&str>,
    org: Option<&Organization>,
    uid: String,
    rev: u64,
    now: Timestamp,
) -> (r: Result<Storable, ParameterError>)
    ensures
        match r {
            Ok(storable) => {
                &&& place_rev_fault(
                    db@,
                    e@,
                    uid@,
                    rev,
                    now,
                    created_by_email.deep_view(),
                    owned_by(org),
                ) is None
                &&& storable@ == place_rev(e@, uid@, rev, now, created_by_email.deep_view())
            },
            Err(fault) => place_rev_fault(
                db@,
                e@,
                uid@,
                rev,
                now,
                created_by_email.deep_view(),
                owned_by(org),
            ) == Some(fault),
        },
{
    let NewEntry {
        title,
        description,
        lat,
        lng,
        street,
        zip,
        city,
        country,
        email,
        telephone,
        homepage,
        categories,
        tags,
        license,
        image_url,
        image_link_url,
    } = e;
    let pos = match MapPoint::try_from_raw(lat, lng) {
        None => {
            return Err(ParameterError::InvalidPosition);
        },
        Some(pos) => pos,
    };
    assert(pos == (MapPoint { lat: LatCoord { raw: lat }, lng: LngCoord { raw: lng } }));
    let tags = prepare_tag_list(&Category::merge_uids_into_tags(&categories, tags));
    match check_and_count_owned_tags(db, &tags, org) {
        Ok(_) => {},
        Err(fault) => {
            return Err(fault);
        },
    }
    let address = Address { street, zip, city, country };
    let address = if address.is_empty() {
        None
    } else {
        Some(address)
    };
    let location = Location { pos, address };
    let contact = if email.is_some() || telephone.is_some() {
        Some(Contact { email, phone: telephone })
    } else {
        None
    };
    let homepage = match parse_link(&homepage) {
        Ok(url) => url,
        Err(fault) => {
            return Err(fault);
        },
    };
    let image_url = match parse_link(&image_url) {
        Ok(url) => url,
        Err(fault) => {
            return Err(fault);
        },
    };
    let image_link_url = match parse_link(&image_link_url) {
        Ok(url) => url,
        Err(fault) => {
            return Err(fault);
        },
    };
    let created_by: Option<String> = match created_by_email {
        Some(email) => Some(email.to_owned()),
        None => None,
    };
    let place = Place {
        uid,
        license,
        rev,
        created: Activity { at: now, by: created_by },
        title,
        description,
        location,
        contact,
        homepage,
        image_url,
        image_link_url,
        tags,
    };
    assert(place@ == place_rev(e@, uid@, rev, now, created_by_email.deep_view()));
    match validate_place(&place) {
        Ok(_) => Ok(Storable(place)),
        Err(fault) => Err(fault),
    }
}

/// Makes the first revision of a place of what a user has entered, and
/// checks it. `uid` becomes the identifier of the place, and `now` the time
/// at which it was created.
pub fn prepare_new_place_rev(
    db: &Store,
    e: NewEntry,
    created_by_email: Option<&str>,
    uid: String,
    now: Timestamp,
) -> (r: Result<Storable, Error>)
    ensures
        match r {
            Ok(storable) => {
                &&& new_place_fault(db@, e@, uid@, now, created_by_email.deep_view()) is None
                &&& storable@ == new_place(e@, uid@, now, created_by_email.deep_view())
            },
            Err(err) => {
                &&& new_place_fault(db@, e@, uid@, now, created_by_email.deep_view()) matches Some(
                    fault,
                )
                &&& err == Error::Parameter(fault)
            },
        },
{
    match prepare_place_rev(db, e, created_by_email, None, uid, 0, now) {
        Ok(storable) => Ok(storable),
        Err(fault) => Err(Error::Parameter(fault)),
    }
}

/// A list of tags with those of another list added that are neither empty
/// nor in the list already.
pub open spec fn tags_stored(tags: Seq<Seq<char>>, more: Seq<Seq<char>>) -> Seq<Seq<char>> {
    with_all_unique(tags, more)
}

/// Stores a revision of a place that has passed all checks, together with
/// its tags. Returns the revision and the ratings of the place, of which a
/// new place has none.
pub fn store_new_place_rev(db: &mut Store, s: Storable) -> (r: Result<(Place, Vec<Rating>), Error>)
    requires
        old(db).wf(),
    ensures
        final(db).wf(),
        match r {
            Ok((place, ratings)) => {
                &&& store_fault(old(db)@, s@) is None
                &&& place@ == s@
                &&& ratings@.len() == 0
                &&& final(db)@ == (StoreView {
                    tags: tags_stored(old(db)@.tags, s@.tags),
                    ..stored(old(db)@, s@, None)
                })
            },
            Err(e) => store_fault(old(db)@, s@) == Some(e) && final(db)@ == old(db)@,
        },
{
    let Storable(place_rev) = s;
    match db.create_or_update_place(place_rev.clone(), None) {
        Ok(_) => {},
        Err(e) => {
            return Err(e);
        },
    }
    let ghost start = db@;
    let mut i: usize = 0;
    proof {
        assert(place_rev@.tags.take(0) == Seq::<Seq<char>>::empty());
    }
    while i < place_rev.tags.len()
        invariant
            i <= place_rev.tags.len(),
            db.wf(),
            db@ == (StoreView {
                tags: with_all_unique(start.tags, place_rev@.tags.take(i as int)),
                ..start
            }),
        decreases place_rev.tags.len() - i,
    {
        proof {
            assert(place_rev@.tags.take(i as int + 1).drop_last() == place_rev@.tags.take(
                i as int,
            ));
            assert(place_rev@.tags.take(i as int + 1).last() == place_rev.tags[i as int]@);
        }
        let _ = db.create_tag_if_it_does_not_exist(&Tag { id: place_rev.tags[i].clone() });
        i += 1;
    }
    proof {
        assert(place_rev@.tags.take(place_rev.tags.len() as int) == place_rev@.tags);
    }
    let ratings: Vec<Rating> = Vec::new();
    Ok((place_rev, ratings))
}

} // verus!

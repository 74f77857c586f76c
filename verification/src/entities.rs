//! The things that the directory stores.

use crate::geo::{MapBbox, MapPoint};
use vstd::prelude::*;

verus! {

/// A point in time, in seconds since the Unix epoch.
pub type Timestamp = i64;

/// What a user may do. The roles are ordered: a guest may do least, an
/// administrator most.
#[derive(Clone, Copy, Debug, PartialEq, Eq, Structural, PartialOrd, Ord, Hash)]
pub enum Role {
    Guest,
    User,
    Scout,
    Admin,
}

impl Role {
    /// The place of a role in the order of roles.
    pub open spec fn rank(self) -> int {
        match self {
            Role::Guest => 0,
            Role::User => 1,
            Role::Scout => 2,
            Role::Admin => 3,
        }
    }

    /// The role with the given number, if there is one.
    pub open spec fn of_rank(n: int) -> Option<Role> {
        if n == 0 {
            Some(Role::Guest)
        } else if n == 1 {
            Some(Role::User)
        } else if n == 2 {
            Some(Role::Scout)
        } else if n == 3 {
            Some(Role::Admin)
        } else {
            None
        }
    }

    pub fn to_i16(self) -> (n: i16)
        ensures
            n == self.rank(),
    {
        match self {
            Role::Guest => 0,
            Role::User => 1,
            Role::Scout => 2,
            Role::Admin => 3,
        }
    }

    pub fn from_i16(n: i16) -> (r: Option<Role>)
        ensures
            r == Role::of_rank(n as int),
    {
        if n == 0 {
            Some(Role::Guest)
        } else if n == 1 {
            Some(Role::User)
        } else if n == 2 {
            Some(Role::Scout)
        } else if n == 3 {
            Some(Role::Admin)
        } else {
            None
        }
    }

    /// Whether this role may do everything that `other` may do.
    pub fn at_least(self, other: Role) -> (b: bool)
        ensures
            b == (self.rank() >= other.rank()),
    {
        self.to_i16() >= other.to_i16()
    }

    /// Whether this role may do more than `other`.
    pub fn above(self, other: Role) -> (b: bool)
        ensures
            b == (self.rank() > other.rank()),
    {
        self.to_i16() > other.to_i16()
    }
}

impl Default for Role {
    fn default() -> (r: Role)
        ensures
            r == Role::Guest,
    {
        Role::Guest
    }
}

/// Every role has a number, and the number gives the role back.
pub proof fn lemma_role_numbers(r: Role, n: int)
    ensures
        Role::of_rank(r.rank()) == Some(r),
        Role::of_rank(n) matches Some(q) ==> q.rank() == n,
{
}

/// The state of a revision in moderation. The states are ordered by
/// their numbers: archived is below created.
#[derive(Clone, Copy, Debug, PartialEq, Eq, Structural, PartialOrd, Ord, Hash)]
pub enum ReviewStatus {
    Archived,
    Created,
    Confirmed,
    Rejected,
}

impl ReviewStatus {
    pub open spec fn number(self) -> int {
        match self {
            ReviewStatus::Archived => -1,
            ReviewStatus::Created => 0,
            ReviewStatus::Confirmed => 1,
            ReviewStatus::Rejected => 2,
        }
    }

    pub open spec fn of_number(n: int) -> Option<ReviewStatus> {
        if n == -1 {
            Some(ReviewStatus::Archived)
        } else if n == 0 {
            Some(ReviewStatus::Created)
        } else if n == 1 {
            Some(ReviewStatus::Confirmed)
        } else if n == 2 {
            Some(ReviewStatus::Rejected)
        } else {
            None
        }
    }

    /// Whether a revision in this state is shown: it is at least created.
    pub open spec fn existent(self) -> bool {
        self.number() >= 0
    }

    pub fn to_i16(self) -> (n: i16)
        ensures
            n == self.number(),
    {
        match self {
            ReviewStatus::Archived => -1,
            ReviewStatus::Created => 0,
            ReviewStatus::Confirmed => 1,
            ReviewStatus::Rejected => 2,
        }
    }

    pub fn try_from_i16(n: i16) -> (r: Option<ReviewStatus>)
        ensures
            r == ReviewStatus::of_number(n as int),
    {
        if n == -1 {
            Some(ReviewStatus::Archived)
        } else if n == 0 {
            Some(ReviewStatus::Created)
        } else if n == 1 {
            Some(ReviewStatus::Confirmed)
        } else if n == 2 {
            Some(ReviewStatus::Rejected)
        } else {
            None
        }
    }

    pub fn is_existent(self) -> (b: bool)
        ensures
            b == self.existent(),
    {
        self.to_i16() >= 0
    }
}

/// The six dimensions in which a place is rated.
#[derive(Clone, Copy, Debug, PartialEq, Eq, Structural, Hash)]
pub enum RatingContext {
    Diversity,
    Renewable,
    Fairness,
    Humanity,
    Transparency,
    Solidarity,
}

impl RatingContext {
    /// The name under which a context is stored.
    pub open spec fn name(self) -> Seq<char> {
        match self {
            RatingContext::Diversity => "diversity"@,
            RatingContext::Renewable => "renewable"@,
            RatingContext::Fairness => "fairness"@,
            RatingContext::Humanity => "humanity"@,
            RatingContext::Transparency => "transparency"@,
            RatingContext::Solidarity => "solidarity"@,
        }
    }

    /// The context with the given name, if there is one.
    pub open spec fn of_name(s: Seq<char>) -> Option<RatingContext> {
        if s == "diversity"@ {
            Some(RatingContext::Diversity)
        } else if s == "renewable"@ {
            Some(RatingContext::Renewable)
        } else if s == "fairness"@ {
            Some(RatingContext::Fairness)
        } else if s == "humanity"@ {
            Some(RatingContext::Humanity)
        } else if s == "transparency"@ {
            Some(RatingContext::Transparency)
        } else if s == "solidarity"@ {
            Some(RatingContext::Solidarity)
        } else {
            None
        }
    }

    /// The position of a context in lists of one value per context.
    pub open spec fn position(self) -> int {
        match self {
            RatingContext::Diversity => 0,
            RatingContext::Renewable => 1,
            RatingContext::Fairness => 2,
            RatingContext::Humanity => 3,
            RatingContext::Transparency => 4,
            RatingContext::Solidarity => 5,
        }
    }

    /// The number of contexts.
    pub fn total_count() -> (n: u8)
        ensures
            n == 6,
    {
        6
    }

    pub fn index(self) -> (i: usize)
        ensures
            i == self.position(),
    {
        match self {
            RatingContext::Diversity => 0,
            RatingContext::Renewable => 1,
            RatingContext::Fairness => 2,
            RatingContext::Humanity => 3,
            RatingContext::Transparency => 4,
            RatingContext::Solidarity => 5,
        }
    }

    pub fn as_str(self) -> (s: &'static str)
        ensures
            s@ == self.name(),
    {
        match self {
            RatingContext::Diversity => "diversity",
            RatingContext::Renewable => "renewable",
            RatingContext::Fairness => "fairness",
            RatingContext::Humanity => "humanity",
            RatingContext::Transparency => "transparency",
            RatingContext::Solidarity => "solidarity",
        }
    }

    /// Reads a context from its name. Any other text is refused.
    pub fn from_str(context: &str) -> (r: Option<RatingContext>)
        ensures
            r == RatingContext::of_name(context@),
    {
        if *context == *"diversity" {
            Some(RatingContext::Diversity)
        } else if *context == *"renewable" {
            Some(RatingContext::Renewable)
        } else if *context == *"fairness" {
            Some(RatingContext::Fairness)
        } else if *context == *"humanity" {
            Some(RatingContext::Humanity)
        } else if *context == *"transparency" {
            Some(RatingContext::Transparency)
        } else if *context == *"solidarity" {
            Some(RatingContext::Solidarity)
        } else {
            None
        }
    }
}

/// A context is found again under its name.
pub proof fn lemma_context_names(c: RatingContext)
    ensures
        RatingContext::of_name(c.name()) == Some(c),
{
    reveal_strlit("diversity");
    reveal_strlit("renewable");
    reveal_strlit("fairness");
    reveal_strlit("humanity");
    reveal_strlit("transparency");
    reveal_strlit("solidarity");
    match c {
        RatingContext::Diversity => {},
        RatingContext::Renewable => {
            assert("renewable"@[0] != "diversity"@[0]);
        },
        RatingContext::Fairness => {
            assert("fairness"@[0] != "diversity"@[0]);
            assert("fairness"@[0] != "renewable"@[0]);
        },
        RatingContext::Humanity => {
            assert("humanity"@[0] != "diversity"@[0]);
            assert("humanity"@[0] != "renewable"@[0]);
            assert("humanity"@[0] != "fairness"@[0]);
        },
        RatingContext::Transparency => {
            assert("transparency"@[0] != "diversity"@[0]);
            assert("transparency"@[0] != "renewable"@[0]);
            assert("transparency"@[0] != "fairness"@[0]);
            assert("transparency"@[0] != "humanity"@[0]);
        },
        RatingContext::Solidarity => {
            assert("solidarity"@[0] != "diversity"@[0]);
            assert("solidarity"@[0] != "renewable"@[0]);
            assert("solidarity"@[0] != "fairness"@[0]);
            assert("solidarity"@[0] != "humanity"@[0]);
            assert("solidarity"@[0] != "transparency"@[0]);
        },
    }
}

/// The least value of a rating.
pub const RATING_VALUE_MIN: i8 = -1;

/// The greatest value of a rating.
pub const RATING_VALUE_MAX: i8 = 2;

/// How a place is rated in one context.
#[derive(Clone, Copy, Debug, PartialEq, Eq, Structural, Hash)]
pub struct RatingValue {
    pub value: i8,
}

impl RatingValue {
    pub open spec fn valid(self) -> bool {
        RATING_VALUE_MIN <= self.value <= RATING_VALUE_MAX
    }

    pub fn new(value: i8) -> (r: RatingValue)
        ensures
            r.value == value,
    {
        RatingValue { value }
    }

    pub fn min() -> (r: RatingValue)
        ensures
            r.value == RATING_VALUE_MIN,
    {
        RatingValue { value: RATING_VALUE_MIN }
    }

    pub fn max() -> (r: RatingValue)
        ensures
            r.value == RATING_VALUE_MAX,
    {
        RatingValue { value: RATING_VALUE_MAX }
    }

    pub fn is_valid(self) -> (b: bool)
        ensures
            b == self.valid(),
    {
        RATING_VALUE_MIN <= self.value && self.value <= RATING_VALUE_MAX
    }

    pub fn to_i8(self) -> (v: i8)
        ensures
            v == self.value,
    {
        self.value
    }
}

/// The postal address of a place.
#[derive(Debug, PartialEq, Eq)]
pub struct Address {
    pub street: Option<String>,
    pub zip: Option<String>,
    pub city: Option<String>,
    pub country: Option<String>,
}

pub struct AddressView {
    pub street: Option<Seq<char>>,
    pub zip: Option<Seq<char>>,
    pub city: Option<Seq<char>>,
    pub country: Option<Seq<char>>,
}

impl DeepView for Address {
    type V = AddressView;

    open spec fn deep_view(&self) -> AddressView {
        self@
    }
}

impl View for Address {
    type V = AddressView;

    open spec fn view(&self) -> AddressView {
        AddressView {
            street: self.street.deep_view(),
            zip: self.zip.deep_view(),
            city: self.city.deep_view(),
            country: self.country.deep_view(),
        }
    }
}

impl AddressView {
    /// An address without any part.
    pub open spec fn empty(self) -> bool {
        self.street is None && self.zip is None && self.city is None && self.country is None
    }
}

impl Address {
    pub fn is_empty(&self) -> (b: bool)
        ensures
            b == self@.empty(),
    {
        self.street.is_none() && self.zip.is_none() && self.city.is_none()
            && self.country.is_none()
    }
}

impl Clone for Address {
    fn clone(&self) -> (r: Address)
        ensures
            r == *self,
    {
        Address {
            street: self.street.clone(),
            zip: self.zip.clone(),
            city: self.city.clone(),
            country: self.country.clone(),
        }
    }
}

/// How the people behind a place are reached.
#[derive(Debug, PartialEq, Eq)]
pub struct Contact {
    pub email: Option<String>,
    pub phone: Option<String>,
}

pub struct ContactView {
    pub email: Option<Seq<char>>,
    pub phone: Option<Seq<char>>,
}

impl DeepView for Contact {
    type V = ContactView;

    open spec fn deep_view(&self) -> ContactView {
        self@
    }
}

impl View for Contact {
    type V = ContactView;

    open spec fn view(&self) -> ContactView {
        ContactView { email: self.email.deep_view(), phone: self.phone.deep_view() }
    }
}

impl Clone for Contact {
    fn clone(&self) -> (r: Contact)
        ensures
            r == *self,
    {
        Contact { email: self.email.clone(), phone: self.phone.clone() }
    }
}

/// Where a place is.
#[derive(Debug, PartialEq, Eq)]
pub struct Location {
    pub pos: MapPoint,
    pub address: Option<Address>,
}

pub struct LocationView {
    pub pos: MapPoint,
    pub address: Option<AddressView>,
}

/// The view of an address that may be missing.
pub open spec fn address_view(a: Option<Address>) -> Option<AddressView> {
    match a {
        Some(a) => Some(a@),
        None => None,
    }
}

/// The view of contact details that may be missing.
pub open spec fn contact_view(c: Option<Contact>) -> Option<ContactView> {
    match c {
        Some(c) => Some(c@),
        None => None,
    }
}

impl DeepView for Location {
    type V = LocationView;

    open spec fn deep_view(&self) -> LocationView {
        self@
    }
}

impl View for Location {
    type V = LocationView;

    open spec fn view(&self) -> LocationView {
        LocationView { pos: self.pos, address: address_view(self.address) }
    }
}

impl Clone for Location {
    fn clone(&self) -> (r: Location)
        ensures
            r == *self,
    {
        Location { pos: self.pos, address: self.address.clone() }
    }
}

/// The view of a location that may be missing.
pub open spec fn location_view(l: Option<Location>) -> Option<LocationView> {
    match l {
        Some(l) => Some(l@),
        None => None,
    }
}

/// When something was done, and by whom.
#[derive(Debug, PartialEq, Eq)]
pub struct Activity {
    pub at: Timestamp,
    pub by: Option<String>,
}

pub struct ActivityView {
    pub at: Timestamp,
    pub by: Option<Seq<char>>,
}

impl DeepView for Activity {
    type V = ActivityView;

    open spec fn deep_view(&self) -> ActivityView {
        self@
    }
}

impl View for Activity {
    type V = ActivityView;

    open spec fn view(&self) -> ActivityView {
        ActivityView { at: self.at, by: self.by.deep_view() }
    }
}

impl Clone for Activity {
    fn clone(&self) -> (r: Activity)
        ensures
            r == *self,
    {
        Activity { at: self.at, by: self.by.clone() }
    }
}

/// One revision of a place: a snapshot of everything known about it.
#[derive(Debug, PartialEq, Eq)]
pub struct Place {
    /// What identifies the place through all its revisions.
    pub uid: String,
    /// The license under which the place is published. It never changes.
    pub license: String,
    /// The number of this revision; the first one has number 0.
    pub rev: u64,
    pub created: Activity,
    pub title: String,
    pub description: String,
    pub location: Location,
    pub contact: Option<Contact>,
    pub homepage: Option<String>,
    pub image_url: Option<String>,
    pub image_link_url: Option<String>,
    pub tags: Vec<String>,
}

pub struct PlaceView {
    pub uid: Seq<char>,
    pub license: Seq<char>,
    pub rev: u64,
    pub created: ActivityView,
    pub title: Seq<char>,
    pub description: Seq<char>,
    pub location: LocationView,
    pub contact: Option<ContactView>,
    pub homepage: Option<Seq<char>>,
    pub image_url: Option<Seq<char>>,
    pub image_link_url: Option<Seq<char>>,
    pub tags: Seq<Seq<char>>,
}

impl DeepView for Place {
    type V = PlaceView;

    open spec fn deep_view(&self) -> PlaceView {
        self@
    }
}

impl View for Place {
    type V = PlaceView;

    open spec fn view(&self) -> PlaceView {
        PlaceView {
            uid: self.uid@,
            license: self.license@,
            rev: self.rev,
            created: self.created@,
            title: self.title@,
            description: self.description@,
            location: self.location@,
            contact: contact_view(self.contact),
            homepage: self.homepage.deep_view(),
            image_url: self.image_url.deep_view(),
            image_link_url: self.image_link_url.deep_view(),
            tags: self.tags.deep_view(),
        }
    }
}

impl Clone for Place {
    fn clone(&self) -> (r: Place)
        ensures
            r@ == self@,
    {
        Place {
            uid: self.uid.clone(),
            license: self.license.clone(),
            rev: self.rev,
            created: self.created.clone(),
            title: self.title.clone(),
            description: self.description.clone(),
            location: self.location.clone(),
            contact: self.contact.clone(),
            homepage: self.homepage.clone(),
            image_url: self.image_url.clone(),
            image_link_url: self.image_link_url.clone(),
            tags: self.tags.clone(),
        }
    }
}

impl Place {
    /// The place without the details by which its people are reached.
    pub fn strip_contact_details(self) -> (r: Place)
        ensures
            r@ == (PlaceView { contact: None, ..self@ }),
    {
        Place { contact: None, ..self }
    }
}

/// A rating of a place in one context.
#[derive(Debug, PartialEq, Eq)]
pub struct Rating {
    pub uid: String,
    pub place_uid: String,
    pub created_at: Timestamp,
    /// Set once the rating has been archived, and never cleared.
    pub archived_at: Option<Timestamp>,
    pub title: String,
    pub value: RatingValue,
    pub context: RatingContext,
    pub source: Option<String>,
}

pub struct RatingView {
    pub uid: Seq<char>,
    pub place_uid: Seq<char>,
    pub created_at: Timestamp,
    pub archived_at: Option<Timestamp>,
    pub title: Seq<char>,
    pub value: RatingValue,
    pub context: RatingContext,
    pub source: Option<Seq<char>>,
}

impl DeepView for Rating {
    type V = RatingView;

    open spec fn deep_view(&self) -> RatingView {
        self@
    }
}

impl View for Rating {
    type V = RatingView;

    open spec fn view(&self) -> RatingView {
        RatingView {
            uid: self.uid@,
            place_uid: self.place_uid@,
            created_at: self.created_at,
            archived_at: self.archived_at,
            title: self.title@,
            value: self.value,
            context: self.context,
            source: self.source.deep_view(),
        }
    }
}

impl Clone for Rating {
    fn clone(&self) -> (r: Rating)
        ensures
            r@ == self@,
    {
        Rating {
            uid: self.uid.clone(),
            place_uid: self.place_uid.clone(),
            created_at: self.created_at,
            archived_at: self.archived_at,
            title: self.title.clone(),
            value: self.value,
            context: self.context,
            source: self.source.clone(),
        }
    }
}

/// A comment on a rating.
#[derive(Debug, PartialEq, Eq)]
pub struct Comment {
    pub uid: String,
    pub rating_uid: String,
    pub created_at: Timestamp,
    /// Set once the comment has been archived, and never cleared.
    pub archived_at: Option<Timestamp>,
    pub text: String,
}

pub struct CommentView {
    pub uid: Seq<char>,
    pub rating_uid: Seq<char>,
    pub created_at: Timestamp,
    pub archived_at: Option<Timestamp>,
    pub text: Seq<char>,
}

impl DeepView for Comment {
    type V = CommentView;

    open spec fn deep_view(&self) -> CommentView {
        self@
    }
}

impl View for Comment {
    type V = CommentView;

    open spec fn view(&self) -> CommentView {
        CommentView {
            uid: self.uid@,
            rating_uid: self.rating_uid@,
            created_at: self.created_at,
            archived_at: self.archived_at,
            text: self.text@,
        }
    }
}

impl Clone for Comment {
    fn clone(&self) -> (r: Comment)
        ensures
            r@ == self@,
    {
        Comment {
            uid: self.uid.clone(),
            rating_uid: self.rating_uid.clone(),
            created_at: self.created_at,
            archived_at: self.archived_at,
            text: self.text.clone(),
        }
    }
}

/// Somebody who has registered with an e-mail address.
#[derive(Debug, PartialEq, Eq)]
pub struct User {
    /// The address by which the user is known. No two users share one.
    pub email: String,
    pub email_confirmed: bool,
    /// The hash of the user's password.
    pub password: String,
    pub role: Role,
}

pub struct UserView {
    pub email: Seq<char>,
    pub email_confirmed: bool,
    pub password: Seq<char>,
    pub role: Role,
}

impl DeepView for User {
    type V = UserView;

    open spec fn deep_view(&self) -> UserView {
        self@
    }
}

impl View for User {
    type V = UserView;

    open spec fn view(&self) -> UserView {
        UserView {
            email: self.email@,
            email_confirmed: self.email_confirmed,
            password: self.password@,
            role: self.role,
        }
    }
}

impl Clone for User {
    fn clone(&self) -> (r: User)
        ensures
            r@ == self@,
    {
        User {
            email: self.email.clone(),
            email_confirmed: self.email_confirmed,
            password: self.password.clone(),
            role: self.role,
        }
    }
}

/// An organization, which may reserve tags for its members.
#[derive(Debug, PartialEq, Eq)]
pub struct Organization {
    pub id: String,
    pub name: String,
    pub api_token: String,
    pub owned_tags: Vec<String>,
}

pub struct OrganizationView {
    pub id: Seq<char>,
    pub name: Seq<char>,
    pub api_token: Seq<char>,
    pub owned_tags: Seq<Seq<char>>,
}

impl DeepView for Organization {
    type V = OrganizationView;

    open spec fn deep_view(&self) -> OrganizationView {
        self@
    }
}

impl View for Organization {
    type V = OrganizationView;

    open spec fn view(&self) -> OrganizationView {
        OrganizationView {
            id: self.id@,
            name: self.name@,
            api_token: self.api_token@,
            owned_tags: self.owned_tags.deep_view(),
        }
    }
}

impl Clone for Organization {
    fn clone(&self) -> (r: Organization)
        ensures
            r@ == self@,
    {
        Organization {
            id: self.id.clone(),
            name: self.name.clone(),
            api_token: self.api_token.clone(),
            owned_tags: self.owned_tags.clone(),
        }
    }
}

/// A user's wish to hear of new places in a part of the map.
#[derive(Debug, PartialEq, Eq)]
pub struct BboxSubscription {
    pub uid: String,
    pub user_email: String,
    pub bbox: MapBbox,
}

pub struct BboxSubscriptionView {
    pub uid: Seq<char>,
    pub user_email: Seq<char>,
    pub bbox: MapBbox,
}

impl DeepView for BboxSubscription {
    type V = BboxSubscriptionView;

    open spec fn deep_view(&self) -> BboxSubscriptionView {
        self@
    }
}

impl View for BboxSubscription {
    type V = BboxSubscriptionView;

    open spec fn view(&self) -> BboxSubscriptionView {
        BboxSubscriptionView { uid: self.uid@, user_email: self.user_email@, bbox: self.bbox }
    }
}

impl Clone for BboxSubscription {
    fn clone(&self) -> (r: BboxSubscription)
        ensures
            r@ == self@,
    {
        BboxSubscription {
            uid: self.uid.clone(),
            user_email: self.user_email.clone(),
            bbox: self.bbox,
        }
    }
}

/// How visitors register for an event.
#[derive(Clone, Copy, Debug, PartialEq, Eq, Structural, Hash)]
pub enum RegistrationType {
    Email,
    Phone,
    Homepage,
}

/// Something that takes place at a given time.
#[derive(Debug, PartialEq, Eq)]
pub struct Event {
    pub uid: String,
    pub title: String,
    pub description: Option<String>,
    pub start: Timestamp,
    pub end: Option<Timestamp>,
    pub location: Option<Location>,
    pub contact: Option<Contact>,
    pub tags: Vec<String>,
    pub homepage: Option<String>,
    /// The e-mail address of the user who entered the event.
    pub created_by: Option<String>,
    pub registration: Option<RegistrationType>,
    pub organizer: Option<String>,
    pub archived: Option<Timestamp>,
    pub image_url: Option<String>,
    pub image_link_url: Option<String>,
}

pub struct EventView {
    pub uid: Seq<char>,
    pub title: Seq<char>,
    pub description: Option<Seq<char>>,
    pub start: Timestamp,
    pub end: Option<Timestamp>,
    pub location: Option<LocationView>,
    pub contact: Option<ContactView>,
    pub tags: Seq<Seq<char>>,
    pub homepage: Option<Seq<char>>,
    pub created_by: Option<Seq<char>>,
    pub registration: Option<RegistrationType>,
    pub organizer: Option<Seq<char>>,
    pub archived: Option<Timestamp>,
    pub image_url: Option<Seq<char>>,
    pub image_link_url: Option<Seq<char>>,
}

impl DeepView for Event {
    type V = EventView;

    open spec fn deep_view(&self) -> EventView {
        self@
    }
}

impl View for Event {
    type V = EventView;

    open spec fn view(&self) -> EventView {
        EventView {
            uid: self.uid@,
            title: self.title@,
            description: self.description.deep_view(),
            start: self.start,
            end: self.end,
            location: location_view(self.location),
            contact: contact_view(self.contact),
            tags: self.tags.deep_view(),
            homepage: self.homepage.deep_view(),
            created_by: self.created_by.deep_view(),
            registration: self.registration,
            organizer: self.organizer.deep_view(),
            archived: self.archived,
            image_url: self.image_url.deep_view(),
            image_link_url: self.image_link_url.deep_view(),
        }
    }
}

impl Clone for Event {
    fn clone(&self) -> (r: Event)
        ensures
            r@ == self@,
    {
        Event {
            uid: self.uid.clone(),
            title: self.title.clone(),
            description: self.description.clone(),
            start: self.start,
            end: self.end,
            location: self.location.clone(),
            contact: self.contact.clone(),
            tags: self.tags.clone(),
            homepage: self.homepage.clone(),
            created_by: self.created_by.clone(),
            registration: self.registration,
            organizer: self.organizer.clone(),
            archived: self.archived,
            image_url: self.image_url.clone(),
            image_link_url: self.image_link_url.clone(),
        }
    }
}

/// A tag as it is stored.
#[derive(Debug, PartialEq, Eq)]
pub struct Tag {
    pub id: String,
}

/// How often a tag is used.
#[derive(Debug, PartialEq, Eq)]
pub struct TagFrequency {
    pub tag: String,
    pub count: u64,
}

pub struct TagFrequencyView {
    pub tag: Seq<char>,
    pub count: u64,
}

impl DeepView for TagFrequency {
    type V = TagFrequencyView;

    open spec fn deep_view(&self) -> TagFrequencyView {
        self@
    }
}

impl View for TagFrequency {
    type V = TagFrequencyView;

    open spec fn view(&self) -> TagFrequencyView {
        TagFrequencyView { tag: self.tag@, count: self.count }
    }
}

} // verus!

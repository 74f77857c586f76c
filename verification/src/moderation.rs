//! Moderation: archiving, rating, changing places, and new passwords.
//!
//! Whether somebody may do something depends on the role, on the tags that
//! the own organization owns, and on what is to be done, and on nothing
//! else. An action that fails leaves the store as it was.

use crate::entities::{
    Activity, ActivityView, Comment, CommentView, Organization, Rating, RatingContext,
    RatingValue, RatingView, Role, Timestamp, User, UserView,
};
use crate::error::{Error, ErrorKind, ParameterError, RepoError};
use crate::nonce::{EmailNonce, EmailNonceView, Nonce, UserToken, UserTokenView};
use crate::store::{has_place, has_rating, Store, StoreView};
use crate::store_archive::{archive_fault, with_ratings_archived, with_ratings_of_places_archived};
use crate::store_misc::{count_event_hits, events_archived, tags_owned};
use crate::store_places::{
    all_known, archive_log, archived_places, count_to_archive, lemma_archive_log_len,
    lemma_record_of, record_of,
};
use crate::store_ratings::{
    comments_archived, count_comment_hits, count_rating_hits, has_comment,
};
use crate::store_users::{
    duplicate_key, has_token, has_user, token_of, tokens_replaced, tokens_without, user_of,
    users_updated,
};
use crate::text::{blank, contains_str, is_blank};
use crate::usecases::{
    authorize_user_by_email, owned_by, place_rev, place_rev_fault, prepare_place_rev, role_fault,
    NewEntry, NewEntryView, Storable,
};
use vstd::prelude::*;

verus! {

// ---------------------------------------------------------------------
// Archiving
// ---------------------------------------------------------------------

/// Why places cannot be archived, if they cannot: the user may not archive,
/// or one of the places is missing or archived already.
pub open spec fn archive_places_fault(store: StoreView, uids: Seq<Seq<char>>, email: Seq<char>) -> Option<
    Error,
> {
    match role_fault(store.users, email, Role::Scout) {
        Some(fault) => Some(Error::Parameter(fault)),
        None => if !all_known(store.places, uids) || count_to_archive(store.places, uids)
            != uids.len() {
            Some(Error::Repo(RepoError::NotFound))
        } else {
            None
        },
    }
}

/// The store after places have been archived: the current revision of each
/// of them is archived, the status log tells of it, and the ratings of the
/// places and the comments on them are archived with the same time.
pub open spec fn with_places_archived(store: StoreView, uids: Seq<Seq<char>>, activity: ActivityView) -> StoreView {
    with_ratings_of_places_archived(
        StoreView {
            places: archived_places(store.places, uids),
            status_log: store.status_log + archive_log(store.places, uids, activity),
            ..store
        },
        uids,
        activity.at,
    )
}

/// Archives places on behalf of a user, who must be a scout at least. Each
/// of the places must be there and not archived yet.
pub fn archive_places(db: &mut Store, ids: &[&str], account_email: &str, at: Timestamp) -> (r:
    Result<usize, Error>)
    requires
        old(db).wf(),
    ensures
        final(db).wf(),
        match r {
            Ok(count) => {
                &&& archive_places_fault(old(db)@, ids.deep_view(), account_email@) is None
                &&& count == ids.len()
                &&& final(db)@ == with_places_archived(
                    old(db)@,
                    ids.deep_view(),
                    ActivityView { at, by: Some(account_email@) },
                )
            },
            Err(e) => {
                &&& archive_places_fault(old(db)@, ids.deep_view(), account_email@) == Some(e)
                &&& final(db)@ == old(db)@
            },
        },
{
    match authorize_user_by_email(db, account_email, Role::Scout) {
        Ok(_) => {},
        Err(fault) => {
            return Err(Error::Parameter(fault));
        },
    }
    if !db.knows_all_places(ids) || db.count_places_to_archive(ids) != ids.len() {
        return Err(Error::Repo(RepoError::NotFound));
    }
    let activity = Activity { at, by: Some(account_email.to_owned()) };
    proof {
        lemma_archive_log_len(old(db)@.places, ids.deep_view(), activity@);
    }
    match db.archive_places(ids, &activity) {
        Ok(count) => {
            db.archive_ratings_of_places(ids, at);
            Ok(count)
        },
        Err(e) => Err(Error::Repo(e)),
    }
}

/// Why ratings, comments or events cannot be archived on behalf of a user,
/// if they cannot: the user may not archive, or not each of them is there
/// and not archived yet. `found` tells how many are.
pub open spec fn archive_fault_for(
    users: Seq<UserView>,
    email: Seq<char>,
    found: nat,
    wanted: nat,
) -> Option<Error> {
    match role_fault(users, email, Role::Scout) {
        Some(fault) => Some(Error::Parameter(fault)),
        None => match archive_fault(found, wanted) {
            Some(fault) => Some(Error::Repo(fault)),
            None => None,
        },
    }
}

/// Archives ratings, and with them the comments on them, on behalf of a
/// user, who must be a scout at least.
pub fn archive_ratings(db: &mut Store, account_email: &str, ids: &[&str], at: Timestamp) -> (r:
    Result<usize, Error>)
    requires
        old(db).wf(),
    ensures
        final(db).wf(),
        match r {
            Ok(count) => {
                &&& archive_fault_for(
                    old(db)@.users,
                    account_email@,
                    count_rating_hits(old(db)@.ratings, ids.deep_view()),
                    ids.len() as nat,
                ) is None
                &&& count == ids.len()
                &&& final(db)@ == with_ratings_archived(old(db)@, ids.deep_view(), at)
            },
            Err(e) => {
                &&& archive_fault_for(
                    old(db)@.users,
                    account_email@,
                    count_rating_hits(old(db)@.ratings, ids.deep_view()),
                    ids.len() as nat,
                ) == Some(e)
                &&& final(db)@ == old(db)@
            },
        },
{
    match authorize_user_by_email(db, account_email, Role::Scout) {
        Ok(_) => {},
        Err(fault) => {
            return Err(Error::Parameter(fault));
        },
    }
    match db.archive_ratings(ids, at) {
        Ok(count) => Ok(count),
        Err(e) => Err(Error::Repo(e)),
    }
}

/// Archives comments on behalf of a user, who must be a scout at least.
pub fn archive_comments(db: &mut Store, account_email: &str, ids: &[&str], at: Timestamp) -> (r:
    Result<usize, Error>)
    requires
        old(db).wf(),
    ensures
        final(db).wf(),
        match r {
            Ok(count) => {
                &&& archive_fault_for(
                    old(db)@.users,
                    account_email@,
                    count_comment_hits(old(db)@.comments, ids.deep_view()),
                    ids.len() as nat,
                ) is None
                &&& count == ids.len()
                &&& final(db)@ == (StoreView {
                    comments: comments_archived(old(db)@.comments, ids.deep_view(), at),
                    ..old(db)@
                })
            },
            Err(e) => {
                &&& archive_fault_for(
                    old(db)@.users,
                    account_email@,
                    count_comment_hits(old(db)@.comments, ids.deep_view()),
                    ids.len() as nat,
                ) == Some(e)
                &&& final(db)@ == old(db)@
            },
        },
{
    match authorize_user_by_email(db, account_email, Role::Scout) {
        Ok(_) => {},
        Err(fault) => {
            return Err(Error::Parameter(fault));
        },
    }
    match db.archive_comments(ids, at) {
        Ok(count) => Ok(count),
        Err(e) => Err(Error::Repo(e)),
    }
}

/// Archives events.
pub fn archive_events(db: &mut Store, ids: &[&str], at: Timestamp) -> (r: Result<usize, Error>)
    requires
        old(db).wf(),
    ensures
        final(db).wf(),
        match r {
            Ok(count) => {
                &&& archive_fault(
                    count_event_hits(old(db)@.events, ids.deep_view()),
                    ids.len() as nat,
                ) is None
                &&& count == ids.len()
                &&& final(db)@ == (StoreView {
                    events: events_archived(old(db)@.events, ids.deep_view(), at),
                    ..old(db)@
                })
            },
            Err(e) => {
                &&& archive_fault(
                    count_event_hits(old(db)@.events, ids.deep_view()),
                    ids.len() as nat,
                ) matches Some(fault)
                &&& e == Error::Repo(fault)
                &&& final(db)@ == old(db)@
            },
        },
{
    match db.archive_events(ids, at) {
        Ok(count) => Ok(count),
        Err(e) => Err(Error::Repo(e)),
    }
}

// ---------------------------------------------------------------------
// Changing places
// ---------------------------------------------------------------------

/// Whether a tag is in one of two lists and not in the other.
pub open spec fn tag_changed(tag: Seq<char>, old_tags: Seq<Seq<char>>, new_tags: Seq<Seq<char>>) -> bool {
    old_tags.contains(tag) != new_tags.contains(tag)
}

/// Whether the tags that some organization owns and that a change adds or
/// removes are all owned by the organization with the tags `owned`.
pub open spec fn owns_changed_tags(
    owned: Seq<Seq<char>>,
    moderated: Seq<Seq<char>>,
    old_tags: Seq<Seq<char>>,
    new_tags: Seq<Seq<char>>,
) -> bool {
    &&& forall|i: int|
        0 <= i < old_tags.len() && moderated.contains(#[trigger] old_tags[i]) && !new_tags.contains(
            old_tags[i],
        ) ==> owned.contains(old_tags[i])
    &&& forall|i: int|
        0 <= i < new_tags.len() && moderated.contains(#[trigger] new_tags[i]) && !old_tags.contains(
            new_tags[i],
        ) ==> owned.contains(new_tags[i])
}

/// Whether somebody may change a place: who has created it, who is a scout
/// at least, and who acts for an organization that owns each of the tags
/// that some organization owns and that the change adds or removes.
pub open spec fn update_allowed(
    created_by: Option<Seq<char>>,
    submitter: Option<UserView>,
    owned: Option<Seq<Seq<char>>>,
    moderated: Seq<Seq<char>>,
    old_tags: Seq<Seq<char>>,
    new_tags: Seq<Seq<char>>,
) -> bool {
    ||| submitter matches Some(user) && created_by == Some(user.email)
    ||| submitter matches Some(user) && user.role.rank() >= Role::Scout.rank()
    ||| owned matches Some(owned) && owns_changed_tags(owned, moderated, old_tags, new_tags)
}

fn owns_one_way(
    owned: &Vec<String>,
    moderated: &Vec<String>,
    from: &Vec<String>,
    to: &Vec<String>,
) -> (b: bool)
    ensures
        b == forall|i: int|
            0 <= i < from.len() && moderated.deep_view().contains(#[trigger] from.deep_view()[i])
                && !to.deep_view().contains(from.deep_view()[i]) ==> owned.deep_view().contains(
                from.deep_view()[i],
            ),
{
    let mut i: usize = 0;
    while i < from.len()
        invariant
            i <= from.len(),
            forall|j: int|
                0 <= j < i && moderated.deep_view().contains(#[trigger] from.deep_view()[j])
                    && !to.deep_view().contains(from.deep_view()[j]) ==> owned.deep_view().contains(
                    from.deep_view()[j],
                ),
        decreases from.len() - i,
    {
        let tag = from[i].as_str();
        assert(from.deep_view()[i as int] == tag@);
        if contains_str(moderated, tag) && !contains_str(to, tag) && !contains_str(owned, tag) {
            return false;
        }
        i += 1;
    }
    true
}

/// Whether somebody may change a place. `moderated_tags` are the tags
/// that some organization owns.
pub fn may_update_place(
    created_by: &Option<String>,
    submitter: Option<&User>,
    org: Option<&Organization>,
    moderated_tags: &Vec<String>,
    old_tags: &Vec<String>,
    new_tags: &Vec<String>,
) -> (b: bool)
    ensures
        b == update_allowed(
            created_by.deep_view(),
            match submitter {
                Some(user) => Some(user@),
                None => None,
            },
            owned_by(org),
            moderated_tags.deep_view(),
            old_tags.deep_view(),
            new_tags.deep_view(),
        ),
{
    let by_submitter = match submitter {
        Some(user) => {
            let is_creator = match created_by {
                Some(creator) => *creator == user.email,
                None => false,
            };
            is_creator || user.role.at_least(Role::Scout)
        },
        None => false,
    };
    if by_submitter {
        return true;
    }
    match org {
        Some(org) => owns_one_way(&org.owned_tags, moderated_tags, old_tags, new_tags)
            && owns_one_way(&org.owned_tags, moderated_tags, new_tags, old_tags),
        None => false,
    }
}

/// The user on whose behalf something is done, if any.
pub open spec fn submitter_of(users: Seq<UserView>, email: Option<Seq<char>>) -> Option<UserView> {
    match email {
        Some(email) if has_user(users, email) => Some(user_of(users, email)),
        _ => None,
    }
}

/// Why a place cannot be changed, if it cannot: it is missing or not
/// shown, the one who asks may not change it, or something is wrong with
/// what was entered.
pub open spec fn update_fault(
    store: StoreView,
    uid: Seq<char>,
    e: NewEntryView,
    by: Option<Seq<char>>,
    owned: Option<Seq<Seq<char>>>,
    now: Timestamp,
) -> Option<Error> {
    if !has_place(store.places, uid) || !record_of(store.places, uid).visible() || record_of(
        store.places,
        uid,
    ).current_rev == u64::MAX {
        Some(Error::Repo(RepoError::NotFound))
    } else {
        let record = record_of(store.places, uid);
        let rev = (record.current_rev + 1) as u64;
        match place_rev_fault(store, e, uid, rev, now, by, owned) {
            Some(fault) => Some(Error::Parameter(fault)),
            None => if !update_allowed(
                record.revisions[0].place.created.by,
                submitter_of(store.users, by),
                owned,
                tags_owned(store.organizations),
                record.current().place.tags,
                place_rev(e, uid, rev, now, by).tags,
            ) {
                Some(Error::Parameter(ParameterError::Forbidden))
            } else {
                None
            },
        }
    }
}

/// Makes the next revision of a place of what a user has entered, and
/// checks it and whether the user may change the place.
pub fn prepare_updated_place_rev(
    db: &Store,
    uid: &str,
    e: NewEntry,
    updated_by_email: Option<&str>,
    org: Option<&Organization>,
    now: Timestamp,
) -> (r: Result<Storable, Error>)
    requires
        db.wf(),
    ensures
        match r {
            Ok(storable) => {
                &&& update_fault(db@, uid@, e@, updated_by_email.deep_view(), owned_by(org), now) is None
                &&& storable@ == place_rev(
                    e@,
                    uid@,
                    (record_of(db@.places, uid@).current_rev + 1) as u64,
                    now,
                    updated_by_email.deep_view(),
                )
            },
            Err(err) => update_fault(
                db@,
                uid@,
                e@,
                updated_by_email.deep_view(),
                owned_by(org),
                now,
            ) == Some(err),
        },
{
    let i = match db.find_place(uid) {
        Some(i) => i,
        None => {
            return Err(Error::Repo(RepoError::NotFound));
        },
    };
    proof {
        lemma_record_of(db@.places, uid@, i as int);
        assert(db@.places[i as int].wf());
        assert(db@.places[i as int] == db.places[i as int]@);
    }
    let current = db.current_of(i);
    if !current.status.is_existent() || db.places[i].current_rev == u64::MAX {
        return Err(Error::Repo(RepoError::NotFound));
    }
    let rev = db.places[i].current_rev + 1;
    let storable = match prepare_place_rev(
        db,
        e,
        updated_by_email,
        org,
        uid.to_owned(),
        rev,
        now,
    ) {
        Ok(storable) => storable,
        Err(fault) => {
            return Err(Error::Parameter(fault));
        },
    };
    let submitter = match updated_by_email {
        Some(email) => db.try_get_user_by_email(email),
        None => None,
    };
    let moderated = db.get_all_tags_owned_by_orgs();
    proof {
        assert(db.places[i as int]@.revisions[0] == db.places[i as int].revisions[0]@);
    }
    let allowed = may_update_place(
        &db.places[i].revisions[0].place.created.by,
        submitter.as_ref(),
        org,
        &moderated,
        &current.place.tags,
        &storable.0.tags,
    );
    if allowed {
        Ok(storable)
    } else {
        Err(Error::Parameter(ParameterError::Forbidden))
    }
}

// ---------------------------------------------------------------------
// Rating
// ---------------------------------------------------------------------

/// What a user enters to rate a place.
#[derive(Debug)]
pub struct NewPlaceRating {
    /// The identifier of the place.
    pub entry: String,
    pub title: String,
    pub value: RatingValue,
    pub context: RatingContext,
    pub comment: String,
    pub source: Option<String>,
}

pub struct NewPlaceRatingView {
    pub entry: Seq<char>,
    pub title: Seq<char>,
    pub value: RatingValue,
    pub context: RatingContext,
    pub comment: Seq<char>,
    pub source: Option<Seq<char>>,
}

impl View for NewPlaceRating {
    type V = NewPlaceRatingView;

    open spec fn view(&self) -> NewPlaceRatingView {
        NewPlaceRatingView {
            entry: self.entry@,
            title: self.title@,
            value: self.value,
            context: self.context,
            comment: self.comment@,
            source: self.source.deep_view(),
        }
    }
}

/// The rating that is made of what a user has entered.
pub open spec fn new_rating(r: NewPlaceRatingView, uid: Seq<char>, now: Timestamp) -> RatingView {
    RatingView {
        uid,
        place_uid: r.entry,
        created_at: now,
        archived_at: None,
        title: r.title,
        value: r.value,
        context: r.context,
        source: r.source,
    }
}

/// The comment that comes with a rating.
pub open spec fn new_comment(
    r: NewPlaceRatingView,
    uid: Seq<char>,
    rating_uid: Seq<char>,
    now: Timestamp,
) -> CommentView {
    CommentView { uid, rating_uid, created_at: now, archived_at: None, text: r.comment }
}

/// Why a place cannot be rated, if it cannot: the comment is empty, the
/// value is not legal, the place is missing, or one of the identifiers is
/// taken.
pub open spec fn rate_fault(
    store: StoreView,
    r: NewPlaceRatingView,
    rating_uid: Seq<char>,
    comment_uid: Seq<char>,
) -> Option<ErrorKind> {
    if blank(r.comment) {
        Some(ErrorKind::InvalidInput)
    } else if !r.value.valid() {
        Some(ErrorKind::InvalidInput)
    } else if !has_place(store.places, r.entry) {
        Some(ErrorKind::NotFound)
    } else if has_rating(store.ratings, rating_uid) || has_comment(store.comments, comment_uid) {
        Some(ErrorKind::Other)
    } else {
        None
    }
}

/// Rates a place: stores a rating and the comment that comes with it.
/// `rating_uid` and `comment_uid` become their identifiers. Returns the two
/// identifiers.
pub fn rate_place(
    db: &mut Store,
    r: NewPlaceRating,
    rating_uid: String,
    comment_uid: String,
    now: Timestamp,
) -> (res: Result<(String, String), Error>)
    requires
        old(db).wf(),
    ensures
        final(db).wf(),
        match res {
            Ok((rating_id, comment_id)) => {
                &&& rate_fault(old(db)@, r@, rating_uid@, comment_uid@) is None
                &&& rating_id@ == rating_uid@
                &&& comment_id@ == comment_uid@
                &&& final(db)@ == (StoreView {
                    ratings: old(db)@.ratings.push(new_rating(r@, rating_uid@, now)),
                    comments: old(db)@.comments.push(
                        new_comment(r@, comment_uid@, rating_uid@, now),
                    ),
                    ..old(db)@
                })
            },
            Err(e) => {
                &&& rate_fault(old(db)@, r@, rating_uid@, comment_uid@) == Some(e.spec_kind())
                &&& final(db)@ == old(db)@
            },
        },
{
    if is_blank(r.comment.as_str()) {
        return Err(Error::Parameter(ParameterError::EmptyComment));
    }
    if !r.value.is_valid() {
        return Err(Error::Parameter(ParameterError::RatingValue));
    }
    if db.find_place(r.entry.as_str()).is_none() {
        return Err(Error::Repo(RepoError::NotFound));
    }
    if db.find_rating(rating_uid.as_str()).is_some() || db.find_comment(
        comment_uid.as_str(),
    ).is_some() {
        return Err(Error::Repo(duplicate_key()));
    }
    let NewPlaceRating { entry, title, value, context, comment, source } = r;
    let rating = Rating {
        uid: rating_uid.clone(),
        place_uid: entry,
        created_at: now,
        archived_at: None,
        title,
        value,
        context,
        source,
    };
    let comment = Comment {
        uid: comment_uid.clone(),
        rating_uid: rating_uid.clone(),
        created_at: now,
        archived_at: None,
        text: comment,
    };
    match db.create_rating(rating) {
        Ok(_) => {},
        Err(e) => {
            return Err(Error::Repo(e));
        },
    }
    proof {
        let ratings = db@.ratings;
        assert(ratings[ratings.len() - 1].uid == rating_uid@);
        crate::store_ratings::lemma_rating_of(ratings, rating_uid@, ratings.len() - 1);
    }
    match db.create_comment(comment) {
        Ok(_) => Ok((rating_uid, comment_uid)),
        Err(e) => Err(Error::Repo(e)),
    }
}

// ---------------------------------------------------------------------
// New passwords
// ---------------------------------------------------------------------

/// Issues a token with which a user can choose a new password. The token
/// takes the place of the one that the user may have had.
pub fn reset_password_request(
    db: &mut Store,
    email: &str,
    nonce: Nonce,
    expires_at: Timestamp,
) -> (r: Result<EmailNonce, Error>)
    requires
        old(db).wf(),
    ensures
        final(db).wf(),
        match r {
            Ok(email_nonce) => {
                &&& has_user(old(db)@.users, email@)
                &&& email_nonce@ == (EmailNonceView { email: email@, nonce })
                &&& final(db)@ == (StoreView {
                    tokens: tokens_replaced(
                        old(db)@.tokens,
                        UserTokenView { email_nonce: email_nonce@, expires_at },
                    ),
                    ..old(db)@
                })
            },
            Err(e) => {
                &&& e == Error::Repo(RepoError::NotFound)
                &&& !has_user(old(db)@.users, email@)
                &&& final(db)@ == old(db)@
            },
        },
{
    let token = UserToken { email_nonce: EmailNonce { email: email.to_owned(), nonce }, expires_at };
    match db.replace_user_token(token) {
        Ok(email_nonce) => Ok(email_nonce),
        Err(e) => Err(Error::Repo(e)),
    }
}

/// Why a password cannot be set with a token, if it cannot: the user has
/// no such token, the token has expired, or the user is gone.
pub open spec fn reset_password_fault(store: StoreView, email_nonce: EmailNonceView, now: Timestamp) -> Option<
    Error,
> {
    if !has_token(store.tokens, email_nonce.email) || token_of(
        store.tokens,
        email_nonce.email,
    ).email_nonce != email_nonce {
        Some(Error::Repo(RepoError::NotFound))
    } else if token_of(store.tokens, email_nonce.email).expires_at < now {
        Some(Error::Parameter(ParameterError::TokenExpired))
    } else if !has_user(store.users, email_nonce.email) {
        Some(Error::Repo(RepoError::NotFound))
    } else {
        None
    }
}

/// Gives a user a new password in return for the user's token, which is
/// used up by that. `new_password` is the hash of the password.
pub fn reset_password_with_email_nonce(
    db: &mut Store,
    email_nonce: &EmailNonce,
    new_password: String,
    now: Timestamp,
) -> (r: Result<(), Error>)
    requires
        old(db).wf(),
    ensures
        final(db).wf(),
        match r {
            Ok(_) => {
                &&& reset_password_fault(old(db)@, email_nonce@, now) is None
                &&& final(db)@ == (StoreView {
                    tokens: tokens_without(old(db)@.tokens, email_nonce@.email),
                    users: users_updated(
                        old(db)@.users,
                        UserView {
                            password: new_password@,
                            ..user_of(old(db)@.users, email_nonce@.email)
                        },
                    ),
                    ..old(db)@
                })
            },
            Err(e) => {
                &&& reset_password_fault(old(db)@, email_nonce@, now) == Some(e)
                &&& final(db)@ == old(db)@
            },
        },
{
    let token = match db.get_user_token_by_email(email_nonce.email.as_str()) {
        Ok(token) => token,
        Err(_) => {
            return Err(Error::Repo(RepoError::NotFound));
        },
    };
    if token.email_nonce.nonce != email_nonce.nonce {
        return Err(Error::Repo(RepoError::NotFound));
    }
    if token.expires_at < now {
        return Err(Error::Parameter(ParameterError::TokenExpired));
    }
    let mut user = match db.try_get_user_by_email(email_nonce.email.as_str()) {
        Some(user) => user,
        None => {
            return Err(Error::Repo(RepoError::NotFound));
        },
    };
    match db.consume_user_token(email_nonce) {
        Ok(_) => {},
        Err(e) => {
            return Err(Error::Repo(e));
        },
    }
    user.password = new_password;
    let _ = db.update_user(&user);
    Ok(())
}

} // verus!

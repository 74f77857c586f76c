//! Accounts: registering, looking at one's own account, and removing it.

use crate::entities::{Role, User, UserView};
use crate::error::{Error, ErrorKind, ParameterError, RepoError};
use crate::nonce::{encoded, EmailNonce, Nonce};
use crate::store::{Store, StoreView};
use crate::store_users::{has_user, user_of, users_updated, users_without};
use crate::validate::{email_accepted, is_email};
use vstd::prelude::*;

verus! {

/// What somebody enters to register. The password comes as its hash.
#[derive(Debug)]
pub struct NewUser {
    pub email: String,
    pub password: String,
}

impl View for NewUser {
    type V = (Seq<char>, Seq<char>);

    open spec fn view(&self) -> (Seq<char>, Seq<char>) {
        (self.email@, self.password@)
    }
}

/// The user that is made of what was entered: a guest whose e-mail address
/// is still to be confirmed.
pub open spec fn registered(email: Seq<char>, password: Seq<char>) -> UserView {
    UserView { email, email_confirmed: false, password, role: Role::Guest }
}

/// Why somebody cannot register, if so: what was entered is no e-mail
/// address, or somebody has registered with it already.
pub open spec fn register_fault(users: Seq<UserView>, email: Seq<char>) -> Option<ErrorKind> {
    if !email_accepted(email) {
        Some(ErrorKind::InvalidInput)
    } else if has_user(users, email) {
        Some(ErrorKind::Other)
    } else {
        None
    }
}

/// Registers a new user.
pub fn create_new_user(db: &mut Store, u: NewUser) -> (r: Result<(), Error>)
    requires
        old(db).wf(),
    ensures
        final(db).wf(),
        match r {
            Ok(_) => register_fault(old(db)@.users, u@.0) is None && final(db)@ == (StoreView {
                users: old(db)@.users.push(registered(u@.0, u@.1)),
                ..old(db)@
            }),
            Err(e) => register_fault(old(db)@.users, u@.0) == Some(e.spec_kind()) && final(db)@
                == old(db)@,
        },
{
    if !is_email(u.email.as_str()) {
        return Err(Error::Parameter(ParameterError::InvalidEmail));
    }
    let user = User { email: u.email, email_confirmed: false, password: u.password, role: Role::Guest };
    match db.create_user(&user) {
        Ok(_) => Ok(()),
        Err(e) => Err(Error::Repo(e)),
    }
}

/// Why somebody may not look at or remove an account, if so: it is the
/// account of somebody else, or it is not there.
pub open spec fn own_account_fault(
    users: Seq<UserView>,
    logged_in_email: Seq<char>,
    requested_email: Seq<char>,
) -> Option<Error> {
    if logged_in_email != requested_email {
        Some(Error::Parameter(ParameterError::Forbidden))
    } else if !has_user(users, requested_email) {
        Some(Error::Repo(RepoError::NotFound))
    } else {
        None
    }
}

/// The account of a user, which only the user may look at.
pub fn get_user(db: &Store, logged_in_email: &str, requested_email: &str) -> (r: Result<User, Error>)
    requires
        db.wf(),
    ensures
        match r {
            Ok(user) => own_account_fault(db@.users, logged_in_email@, requested_email@) is None
                && user@ == user_of(db@.users, requested_email@),
            Err(e) => own_account_fault(db@.users, logged_in_email@, requested_email@) == Some(e),
        },
{
    if *logged_in_email != *requested_email {
        return Err(Error::Parameter(ParameterError::Forbidden));
    }
    match db.get_user_by_email(requested_email) {
        Ok(user) => Ok(user),
        Err(e) => Err(Error::Repo(e)),
    }
}

/// Removes the account of a user, which only the user may do.
pub fn delete_user(db: &mut Store, login_email: &str, email: &str) -> (r: Result<(), Error>)
    requires
        old(db).wf(),
    ensures
        final(db).wf(),
        match r {
            Ok(_) => login_email@ == email@ && final(db)@ == (StoreView {
                users: users_without(old(db)@.users, email@),
                ..old(db)@
            }),
            Err(e) => login_email@ != email@ && e == Error::Parameter(ParameterError::Forbidden)
                && final(db)@ == old(db)@,
        },
{
    if *login_email != *email {
        return Err(Error::Parameter(ParameterError::Forbidden));
    }
    let _ = db.delete_user_by_email(email);
    Ok(())
}

/// Why an e-mail address cannot be confirmed with a token, if so: the text
/// is no token, or no user has the address for which it was issued.
pub open spec fn confirm_fault(users: Seq<UserView>, token: Seq<char>) -> Option<Error> {
    if forall|email: Seq<char>, nonce: Nonce| token != #[trigger] encoded(email, nonce) {
        Some(Error::Parameter(ParameterError::InvalidNonce))
    } else {
        let (email, nonce) = choose|email: Seq<char>, nonce: Nonce|
            token == #[trigger] encoded(email, nonce);
        if has_user(users, email) {
            None
        } else {
            Some(Error::Repo(RepoError::NotFound))
        }
    }
}

/// Confirms the e-mail address of the user for whom a token was issued.
pub fn confirm_email_address(db: &mut Store, token: &str) -> (r: Result<(), Error>)
    requires
        old(db).wf(),
    ensures
        final(db).wf(),
        match r {
            Ok(_) => {
                &&& confirm_fault(old(db)@.users, token@) is None
                &&& exists|email: Seq<char>, nonce: Nonce|
                    {
                        &&& token@ == #[trigger] encoded(email, nonce)
                        &&& final(db)@ == (StoreView {
                            users: users_updated(
                                old(db)@.users,
                                UserView { email_confirmed: true, ..user_of(old(db)@.users, email) },
                            ),
                            ..old(db)@
                        })
                    }
            },
            Err(e) => confirm_fault(old(db)@.users, token@) == Some(e) && final(db)@ == old(db)@,
        },
{
    let email_nonce = match EmailNonce::decode_from_str(token) {
        Ok(email_nonce) => email_nonce,
        Err(fault) => {
            return Err(Error::Parameter(fault));
        },
    };
    proof {
        let (email, nonce) = choose|email: Seq<char>, nonce: Nonce|
            token@ == #[trigger] encoded(email, nonce);
        crate::nonce::lemma_encoded_injective(
            email,
            nonce,
            email_nonce@.email,
            email_nonce@.nonce,
        );
    }
    let mut user = match db.try_get_user_by_email(email_nonce.email.as_str()) {
        Some(user) => user,
        None => {
            return Err(Error::Repo(RepoError::NotFound));
        },
    };
    user.email_confirmed = true;
    let _ = db.update_user(&user);
    Ok(())
}

/// Whether somebody who gives an e-mail address and the hash of a password
/// is let in: a user has registered with the address, and the user's
/// password has this hash.
pub open spec fn credentials_ok(users: Seq<UserView>, email: Seq<char>, password: Seq<char>) -> bool {
    has_user(users, email) && user_of(users, email).password == password
}

/// Lets a user in who gives the e-mail address and the hash of the
/// password.
pub fn login_with_email(db: &Store, email: &str, password: &str) -> (r: Result<User, Error>)
    requires
        db.wf(),
    ensures
        match r {
            Ok(user) => credentials_ok(db@.users, email@, password@) && user@ == user_of(
                db@.users,
                email@,
            ),
            Err(e) => e == Error::Parameter(ParameterError::Unauthorized) && !credentials_ok(
                db@.users,
                email@,
                password@,
            ),
        },
{
    match db.try_get_user_by_email(email) {
        Some(user) => {
            if *user.password.as_str() == *password {
                Ok(user)
            } else {
                Err(Error::Parameter(ParameterError::Unauthorized))
            }
        },
        None => Err(Error::Parameter(ParameterError::Unauthorized)),
    }
}

} // verus!

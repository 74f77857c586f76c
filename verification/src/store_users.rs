//! The store of users and of their tokens.

use crate::entities::{Timestamp, User, UserView};
use crate::error::{ErrorKind, RepoError};
use crate::nonce::{EmailNonce, UserToken, UserTokenView};
use crate::store::{tokens_wf, users_wf, Store, StoreView};
use vstd::prelude::*;

verus! {

pub const DUPLICATE_KEY: &'static str = "unique constraint violated";

/// The failure of the store for something that is there already: one of
/// the kind `Other`, with `DUPLICATE_KEY` as its description.
pub fn duplicate_key() -> (e: RepoError)
    ensures
        e matches RepoError::Other(text) && text@ == DUPLICATE_KEY@,
        e.spec_kind() == ErrorKind::Other,
{
    RepoError::Other(DUPLICATE_KEY.to_owned())
}

/// Whether a user with the given e-mail address is stored.
pub open spec fn has_user(users: Seq<UserView>, email: Seq<char>) -> bool {
    exists|i: int| 0 <= i < users.len() && (#[trigger] users[i]).email == email
}

/// The user with the given e-mail address.
pub open spec fn user_of(users: Seq<UserView>, email: Seq<char>) -> UserView {
    users[choose|i: int| 0 <= i < users.len() && (#[trigger] users[i]).email == email]
}

/// The user with an e-mail address is the one that has it.
pub proof fn lemma_user_of(users: Seq<UserView>, email: Seq<char>, i: int)
    requires
        users_wf(users),
        0 <= i < users.len(),
        users[i].email == email,
    ensures
        user_of(users, email) == users[i],
{
    let j = choose|j: int| 0 <= j < users.len() && (#[trigger] users[j]).email == email;
    if j < i {
        assert(users[j].email != users[i].email);
    } else if i < j {
        assert(users[i].email != users[j].email);
    }
}

/// The users with the one replaced that has the e-mail address of `user`.
pub open spec fn users_updated(users: Seq<UserView>, user: UserView) -> Seq<UserView> {
    Seq::new(
        users.len(),
        |i: int|
            if users[i].email == user.email {
                user
            } else {
                users[i]
            },
    )
}

/// The users without the one that has the given e-mail address.
pub open spec fn users_without(users: Seq<UserView>, email: Seq<char>) -> Seq<UserView>
    decreases users.len(),
{
    if users.len() == 0 {
        Seq::empty()
    } else if users.last().email == email {
        users_without(users.drop_last(), email)
    } else {
        users_without(users.drop_last(), email).push(users.last())
    }
}

/// Whether a token for the given e-mail address is stored.
pub open spec fn has_token(tokens: Seq<UserTokenView>, email: Seq<char>) -> bool {
    exists|i: int| 0 <= i < tokens.len() && (#[trigger] tokens[i]).email_nonce.email == email
}

/// The token for the given e-mail address.
pub open spec fn token_of(tokens: Seq<UserTokenView>, email: Seq<char>) -> UserTokenView {
    tokens[choose|i: int| 0 <= i < tokens.len() && (#[trigger] tokens[i]).email_nonce.email == email]
}

/// The token for an e-mail address is the one that has it.
pub proof fn lemma_token_of(tokens: Seq<UserTokenView>, email: Seq<char>, i: int)
    requires
        tokens_wf(tokens),
        0 <= i < tokens.len(),
        tokens[i].email_nonce.email == email,
    ensures
        token_of(tokens, email) == tokens[i],
{
    let j = choose|j: int|
        0 <= j < tokens.len() && (#[trigger] tokens[j]).email_nonce.email == email;
    if j < i {
        assert(tokens[j].email_nonce.email != tokens[i].email_nonce.email);
    } else if i < j {
        assert(tokens[i].email_nonce.email != tokens[j].email_nonce.email);
    }
}

/// The tokens without the one for the given e-mail address.
pub open spec fn tokens_without(tokens: Seq<UserTokenView>, email: Seq<char>) -> Seq<UserTokenView>
    decreases tokens.len(),
{
    if tokens.len() == 0 {
        Seq::empty()
    } else if tokens.last().email_nonce.email == email {
        tokens_without(tokens.drop_last(), email)
    } else {
        tokens_without(tokens.drop_last(), email).push(tokens.last())
    }
}

/// The tokens that have not expired before the given time.
pub open spec fn tokens_alive(tokens: Seq<UserTokenView>, before: Timestamp) -> Seq<UserTokenView>
    decreases tokens.len(),
{
    if tokens.len() == 0 {
        Seq::empty()
    } else if tokens.last().expires_at < before {
        tokens_alive(tokens.drop_last(), before)
    } else {
        tokens_alive(tokens.drop_last(), before).push(tokens.last())
    }
}

/// Taking a user's token away leaves tokens of other users only, and each
/// of them was there before.
pub proof fn lemma_tokens_without(tokens: Seq<UserTokenView>, email: Seq<char>)
    ensures
        !has_token(tokens_without(tokens, email), email),
        forall|k: int|
            0 <= k < tokens_without(tokens, email).len() ==> tokens.contains(
                #[trigger] tokens_without(tokens, email)[k],
            ),
        tokens_wf(tokens) ==> tokens_wf(tokens_without(tokens, email)),
        !has_token(tokens, email) ==> tokens_without(tokens, email) == tokens,
        tokens_without(tokens, email).len() <= tokens.len(),
    decreases tokens.len(),
{
    if tokens.len() > 0 {
        let head = tokens.drop_last();
        let rest = tokens_without(head, email);
        let out = tokens_without(tokens, email);
        lemma_tokens_without(head, email);
        assert forall|k: int| 0 <= k < out.len() implies tokens.contains(#[trigger] out[k]) by {
            if k < rest.len() {
                assert(out[k] == rest[k]);
                assert(head.contains(rest[k]));
                let m = choose|m: int| 0 <= m < head.len() && head[m] == rest[k];
                assert(tokens[m] == rest[k]);
            } else {
                assert(out[k] == tokens.last());
                assert(tokens[tokens.len() - 1] == tokens.last());
            }
        }
        if tokens_wf(tokens) {
            assert(tokens_wf(head)) by {
                assert forall|i: int, j: int| 0 <= i < j < head.len() implies (
                #[trigger] head[i]).email_nonce.email != (#[trigger] head[j]).email_nonce.email by {
                    assert(head[i] == tokens[i]);
                    assert(head[j] == tokens[j]);
                }
            }
            assert forall|i: int, j: int| 0 <= i < j < out.len() implies (
            #[trigger] out[i]).email_nonce.email != (#[trigger] out[j]).email_nonce.email by {
                if j < rest.len() {
                    assert(out[i] == rest[i] && out[j] == rest[j]);
                } else {
                    assert(out[i] == rest[i]);
                    assert(head.contains(rest[i]));
                    let m = choose|m: int| 0 <= m < head.len() && head[m] == rest[i];
                    assert(tokens[m] == rest[i]);
                    assert(tokens[m].email_nonce.email != tokens[tokens.len() - 1].email_nonce.email);
                }
            }
        }
        if !has_token(tokens, email) {
            assert(!has_token(head, email)) by {
                if has_token(head, email) {
                    let m = choose|m: int|
                        0 <= m < head.len() && (#[trigger] head[m]).email_nonce.email == email;
                    assert(tokens[m].email_nonce.email == email);
                }
            }
            assert(tokens[tokens.len() - 1].email_nonce.email != email);
            assert(head.push(tokens.last()) == tokens);
        }
        if has_token(out, email) {
            let m = choose|m: int|
                0 <= m < out.len() && (#[trigger] out[m]).email_nonce.email == email;
            if m < rest.len() {
                assert(rest[m].email_nonce.email == email);
            }
        }
    }
}

/// The tokens after a user has been given a new token in the stead of the
/// old one.
pub open spec fn tokens_replaced(tokens: Seq<UserTokenView>, token: UserTokenView) -> Seq<
    UserTokenView,
> {
    tokens_without(tokens, token.email_nonce.email).push(token)
}

/// Giving a user the same token twice is the same as giving it once, and
/// leaves the user with that token and no other.
pub proof fn lemma_replace_token_twice(tokens: Seq<UserTokenView>, token: UserTokenView)
    ensures
        tokens_replaced(tokens_replaced(tokens, token), token) == tokens_replaced(tokens, token),
        has_token(tokens_replaced(tokens, token), token.email_nonce.email),
        forall|k: int|
            0 <= k < tokens_replaced(tokens, token).len() && (#[trigger] tokens_replaced(
                tokens,
                token,
            )[k]).email_nonce.email == token.email_nonce.email ==> k == tokens_replaced(
                tokens,
                token,
            ).len() - 1 && tokens_replaced(tokens, token)[k] == token,
{
    let email = token.email_nonce.email;
    let rest = tokens_without(tokens, email);
    let once = rest.push(token);
    lemma_tokens_without(tokens, email);
    lemma_tokens_without(rest, email);
    assert(once.drop_last() == rest);
    assert(tokens_without(once, email) == tokens_without(rest, email));
    assert(once[once.len() - 1].email_nonce.email == email);
    assert forall|k: int|
        0 <= k < once.len() && (#[trigger] once[k]).email_nonce.email == email implies k
        == once.len() - 1 && once[k] == token by {
        if k < rest.len() {
            assert(rest[k].email_nonce.email == email);
        }
    }
}

impl Store {
    /// Where the user with the given e-mail address is stored.
    pub fn find_user(&self, email: &str) -> (r: Option<usize>)
        ensures
            match r {
                Some(i) => i < self.users.len() && self@.users[i as int].email == email@,
                None => !has_user(self@.users, email@),
            },
    {
        let mut i: usize = 0;
        while i < self.users.len()
            invariant
                i <= self.users.len(),
                forall|j: int| 0 <= j < i ==> (#[trigger] self@.users[j]).email != email@,
            decreases self.users.len() - i,
        {
            if *self.users[i].email.as_str() == *email {
                return Some(i);
            }
            i += 1;
        }
        None
    }

    /// Stores a new user. The e-mail address must not be taken.
    pub fn create_user(&mut self, u: &User) -> (r: Result<(), RepoError>)
        requires
            old(self).wf(),
        ensures
            final(self).wf(),
            match r {
                Ok(_) => !has_user(old(self)@.users, u@.email) && final(self)@ == (StoreView {
                    users: old(self)@.users.push(u@),
                    ..old(self)@
                }),
                Err(e) => has_user(old(self)@.users, u@.email) && e.spec_kind() == ErrorKind::Other
                    && final(self)@ == old(self)@,
            },
    {
        if self.find_user(u.email.as_str()).is_some() {
            return Err(duplicate_key());
        }
        let ghost old_users = self@.users;
        let user = u.clone();
        self.users.push(user);
        proof {
            let users = self@.users;
            assert(users =~= old_users.push(u@));
            assert forall|i: int, j: int| 0 <= i < j < users.len() implies (
            #[trigger] users[i]).email != (#[trigger] users[j]).email by {
                assert(users[i] == old_users[i]);
                if j < old_users.len() {
                    assert(users[j] == old_users[j]);
                }
            }
        }
        Ok(())
    }

    /// Stores what has changed of the user with the e-mail address of `u`.
    /// Nothing changes where there is no such user.
    pub fn update_user(&mut self, u: &User) -> (r: Result<(), RepoError>)
        requires
            old(self).wf(),
        ensures
            final(self).wf(),
            r is Ok,
            final(self)@ == (StoreView {
                users: users_updated(old(self)@.users, u@),
                ..old(self)@
            }),
    {
        let ghost old_users = self@.users;
        match self.find_user(u.email.as_str()) {
            Some(i) => {
                let user = u.clone();
                self.users[i] = user;
                proof {
                    let users = self@.users;
                    assert(users =~= users_updated(old_users, u@)) by {
                        assert forall|j: int| 0 <= j < users.len() implies users[j]
                            == users_updated(old_users, u@)[j] by {
                            if j < i {
                                assert(old_users[j].email != old_users[i as int].email);
                            } else if j > i {
                                assert(old_users[i as int].email != old_users[j].email);
                            }
                        }
                    }
                    assert forall|a: int, b: int| 0 <= a < b < users.len() implies (
                    #[trigger] users[a]).email != (#[trigger] users[b]).email by {
                        assert(users[a].email == old_users[a].email);
                        assert(users[b].email == old_users[b].email);
                    }
                }
            },
            None => {
                assert(self@.users =~= users_updated(old_users, u@));
            },
        }
        Ok(())
    }

    /// Removes the user with the given e-mail address.
    pub fn delete_user_by_email(&mut self, email: &str) -> (r: Result<(), RepoError>)
        requires
            old(self).wf(),
        ensures
            final(self).wf(),
            r is Ok,
            final(self)@ == (StoreView {
                users: users_without(old(self)@.users, email@),
                ..old(self)@
            }),
    {
        let ghost old_users = self@.users;
        let mut kept: Vec<User> = Vec::new();
        let mut i: usize = 0;
        proof {
            assert(old_users.take(0) == Seq::<UserView>::empty());
            assert(kept.deep_view() == Seq::<UserView>::empty());
        }
        while i < self.users.len()
            invariant
                i <= self.users.len(),
                self@.users == old_users,
                users_wf(old_users),
                kept.deep_view() == users_without(old_users.take(i as int), email@),
                forall|k: int|
                    0 <= k < kept.len() ==> old_users.take(i as int).contains(
                        #[trigger] kept.deep_view()[k],
                    ),
                users_wf(kept.deep_view()),
            decreases self.users.len() - i,
        {
            let ghost before = kept.deep_view();
            proof {
                assert(old_users.take(i as int + 1).drop_last() == old_users.take(i as int));
                assert(old_users.take(i as int + 1).last() == old_users[i as int]);
            }
            if *self.users[i].email.as_str() != *email {
                let copy = self.users[i].clone();
                kept.push(copy);
                proof {
                    let after = kept.deep_view();
                    assert(after == before.push(copy@));
                    assert forall|a: int, b: int| 0 <= a < b < after.len() implies (
                    #[trigger] after[a]).email != (#[trigger] after[b]).email by {
                        if b < before.len() {
                            assert(after[a] == before[a] && after[b] == before[b]);
                        } else {
                            assert(after[a] == before[a]);
                            assert(old_users.take(i as int).contains(before[a]));
                            let m = choose|m: int|
                                0 <= m < i && old_users.take(i as int)[m] == before[a];
                            assert(old_users[m] == before[a]);
                            assert(old_users[m].email != old_users[i as int].email);
                        }
                    }
                }
            }
            proof {
                let after = kept.deep_view();
                assert forall|k: int| 0 <= k < after.len() implies old_users.take(
                    i as int + 1,
                ).contains(#[trigger] after[k]) by {
                    if k < before.len() {
                        assert(after[k] == before[k]);
                        assert(old_users.take(i as int).contains(before[k]));
                        let m = choose|m: int|
                            0 <= m < i && old_users.take(i as int)[m] == before[k];
                        assert(old_users.take(i as int + 1)[m] == before[k]);
                    } else {
                        assert(old_users.take(i as int + 1)[i as int] == after[k]);
                    }
                }
            }
            i += 1;
        }
        proof {
            assert(old_users.take(old_users.len() as int) == old_users);
        }
        self.users = kept;
        Ok(())
    }

    /// The user with the given e-mail address.
    pub fn get_user_by_email(&self, email: &str) -> (r: Result<User, RepoError>)
        requires
            self.wf(),
        ensures
            match r {
                Ok(user) => has_user(self@.users, email@) && user@ == user_of(self@.users, email@),
                Err(e) => e == RepoError::NotFound && !has_user(self@.users, email@),
            },
    {
        match self.find_user(email) {
            Some(i) => {
                proof {
                    lemma_user_of(self@.users, email@, i as int);
                }
                Ok(self.users[i].clone())
            },
            None => Err(RepoError::NotFound),
        }
    }

    /// The user with the given e-mail address, if there is one.
    pub fn try_get_user_by_email(&self, email: &str) -> (r: Option<User>)
        requires
            self.wf(),
        ensures
            match r {
                Some(user) => has_user(self@.users, email@) && user@ == user_of(
                    self@.users,
                    email@,
                ),
                None => !has_user(self@.users, email@),
            },
    {
        match self.get_user_by_email(email) {
            Ok(user) => Some(user),
            Err(_) => None,
        }
    }

    /// All users.
    pub fn all_users(&self) -> (out: Vec<User>)
        ensures
            out.deep_view() == self@.users,
    {
        self.users.clone()
    }

    /// How many users there are.
    pub fn count_users(&self) -> (n: usize)
        ensures
            n == self@.users.len(),
    {
        self.users.len()
    }

    /// Where the token for the given e-mail address is stored.
    pub fn find_token(&self, email: &str) -> (r: Option<usize>)
        ensures
            match r {
                Some(i) => i < self.tokens.len() && self@.tokens[i as int].email_nonce.email
                    == email@,
                None => !has_token(self@.tokens, email@),
            },
    {
        let mut i: usize = 0;
        while i < self.tokens.len()
            invariant
                i <= self.tokens.len(),
                forall|j: int|
                    0 <= j < i ==> (#[trigger] self@.tokens[j]).email_nonce.email != email@,
            decreases self.tokens.len() - i,
        {
            if *self.tokens[i].email_nonce.email.as_str() == *email {
                return Some(i);
            }
            i += 1;
        }
        None
    }

    fn tokens_except(&self, email: &str) -> (kept: Vec<UserToken>)
        ensures
            kept.deep_view() == tokens_without(self@.tokens, email@),
    {
        let ghost tokens = self@.tokens;
        let mut kept: Vec<UserToken> = Vec::new();
        let mut i: usize = 0;
        proof {
            assert(tokens.take(0) == Seq::<UserTokenView>::empty());
            assert(kept.deep_view() == Seq::<UserTokenView>::empty());
        }
        while i < self.tokens.len()
            invariant
                i <= self.tokens.len(),
                self@.tokens == tokens,
                kept.deep_view() == tokens_without(tokens.take(i as int), email@),
            decreases self.tokens.len() - i,
        {
            let ghost before = kept.deep_view();
            proof {
                assert(tokens.take(i as int + 1).drop_last() == tokens.take(i as int));
                assert(tokens.take(i as int + 1).last() == tokens[i as int]);
            }
            if *self.tokens[i].email_nonce.email.as_str() != *email {
                let copy = self.tokens[i].clone();
                kept.push(copy);
                assert(kept.deep_view() == before.push(copy@));
            }
            i += 1;
        }
        proof {
            assert(tokens.take(tokens.len() as int) == tokens);
        }
        kept
    }

    /// Makes a token the only token of its user, in the stead of the one
    /// that the user may have had. Fails where there is no such user.
    pub fn replace_user_token(&mut self, token: UserToken) -> (r: Result<EmailNonce, RepoError>)
        requires
            old(self).wf(),
        ensures
            final(self).wf(),
            match r {
                Ok(email_nonce) => {
                    &&& has_user(old(self)@.users, token@.email_nonce.email)
                    &&& email_nonce@ == token@.email_nonce
                    &&& final(self)@ == (StoreView {
                        tokens: tokens_replaced(old(self)@.tokens, token@),
                        ..old(self)@
                    })
                },
                Err(e) => {
                    &&& e == RepoError::NotFound
                    &&& !has_user(old(self)@.users, token@.email_nonce.email)
                    &&& final(self)@ == old(self)@
                },
            },
    {
        if self.find_user(token.email_nonce.email.as_str()).is_none() {
            return Err(RepoError::NotFound);
        }
        let ghost old_tokens = self@.tokens;
        let email_nonce = token.email_nonce.clone();
        let mut kept = self.tokens_except(token.email_nonce.email.as_str());
        let ghost rest = kept.deep_view();
        kept.push(token);
        proof {
            let after = kept.deep_view();
            assert(after == rest.push(token@));
            lemma_tokens_without(old_tokens, token@.email_nonce.email);
            assert forall|a: int, b: int| 0 <= a < b < after.len() implies (
            #[trigger] after[a]).email_nonce.email != (#[trigger] after[b]).email_nonce.email by {
                if b < rest.len() {
                    assert(after[a] == rest[a] && after[b] == rest[b]);
                } else {
                    assert(after[a] == rest[a]);
                }
            }
        }
        self.tokens = kept;
        Ok(email_nonce)
    }

    /// Hands out the token of a user and removes it, so that it cannot be
    /// used again. Fails where the user has no token, or another one.
    pub fn consume_user_token(&mut self, email_nonce: &EmailNonce) -> (r: Result<
        UserToken,
        RepoError,
    >)
        requires
            old(self).wf(),
        ensures
            final(self).wf(),
            match r {
                Ok(token) => {
                    &&& has_token(old(self)@.tokens, email_nonce@.email)
                    &&& token@ == token_of(old(self)@.tokens, email_nonce@.email)
                    &&& token@.email_nonce == email_nonce@
                    &&& final(self)@ == (StoreView {
                        tokens: tokens_without(old(self)@.tokens, email_nonce@.email),
                        ..old(self)@
                    })
                },
                Err(e) => {
                    &&& e == RepoError::NotFound
                    &&& !(has_token(old(self)@.tokens, email_nonce@.email) && token_of(
                        old(self)@.tokens,
                        email_nonce@.email,
                    ).email_nonce == email_nonce@)
                    &&& final(self)@ == old(self)@
                },
            },
    {
        let i = match self.find_token(email_nonce.email.as_str()) {
            Some(i) => i,
            None => {
                return Err(RepoError::NotFound);
            },
        };
        proof {
            lemma_token_of(self@.tokens, email_nonce@.email, i as int);
        }
        if self.tokens[i].email_nonce.nonce != email_nonce.nonce {
            return Err(RepoError::NotFound);
        }
        let token = self.tokens[i].clone();
        let kept = self.tokens_except(email_nonce.email.as_str());
        proof {
            lemma_tokens_without(self@.tokens, email_nonce@.email);
        }
        self.tokens = kept;
        Ok(token)
    }

    /// Removes the tokens that have expired before the given time, and
    /// returns how many these were.
    pub fn discard_expired_user_tokens(&mut self, expired_before: Timestamp) -> (count: usize)
        requires
            old(self).wf(),
        ensures
            final(self).wf(),
            final(self)@ == (StoreView {
                tokens: tokens_alive(old(self)@.tokens, expired_before),
                ..old(self)@
            }),
            count == old(self)@.tokens.len() - tokens_alive(old(self)@.tokens, expired_before).len(),
    {
        let ghost tokens = self@.tokens;
        let mut kept: Vec<UserToken> = Vec::new();
        let mut i: usize = 0;
        proof {
            assert(tokens.take(0) == Seq::<UserTokenView>::empty());
            assert(kept.deep_view() == Seq::<UserTokenView>::empty());
        }
        while i < self.tokens.len()
            invariant
                i <= self.tokens.len(),
                self@.tokens == tokens,
                tokens_wf(tokens),
                kept.len() <= i,
                kept.deep_view() == tokens_alive(tokens.take(i as int), expired_before),
                forall|k: int|
                    0 <= k < kept.len() ==> tokens.take(i as int).contains(
                        #[trigger] kept.deep_view()[k],
                    ),
                tokens_wf(kept.deep_view()),
            decreases self.tokens.len() - i,
        {
            let ghost before = kept.deep_view();
            proof {
                assert(tokens.take(i as int + 1).drop_last() == tokens.take(i as int));
                assert(tokens.take(i as int + 1).last() == tokens[i as int]);
            }
            if !(self.tokens[i].expires_at < expired_before) {
                let copy = self.tokens[i].clone();
                kept.push(copy);
                proof {
                    let after = kept.deep_view();
                    assert(after == before.push(copy@));
                    assert forall|a: int, b: int| 0 <= a < b < after.len() implies (
                    #[trigger] after[a]).email_nonce.email != (
                    #[trigger] after[b]).email_nonce.email by {
                        if b < before.len() {
                            assert(after[a] == before[a] && after[b] == before[b]);
                        } else {
                            assert(after[a] == before[a]);
                            assert(tokens.take(i as int).contains(before[a]));
                            let m = choose|m: int|
                                0 <= m < i && tokens.take(i as int)[m] == before[a];
                            assert(tokens[m] == before[a]);
                            assert(tokens[m].email_nonce.email != tokens[i as int].email_nonce.email);
                        }
                    }
                }
            }
            proof {
                let after = kept.deep_view();
                assert forall|k: int| 0 <= k < after.len() implies tokens.take(
                    i as int + 1,
                ).contains(#[trigger] after[k]) by {
                    if k < before.len() {
                        assert(after[k] == before[k]);
                        assert(tokens.take(i as int).contains(before[k]));
                        let m = choose|m: int|
                            0 <= m < i && tokens.take(i as int)[m] == before[k];
                        assert(tokens.take(i as int + 1)[m] == before[k]);
                    } else {
                        assert(tokens.take(i as int + 1)[i as int] == after[k]);
                    }
                }
            }
            i += 1;
        }
        proof {
            assert(tokens.take(tokens.len() as int) == tokens);
        }
        let count = self.tokens.len() - kept.len();
        self.tokens = kept;
        count
    }

    /// The token of the user with the given e-mail address.
    pub fn get_user_token_by_email(&self, email: &str) -> (r: Result<UserToken, RepoError>)
        requires
            self.wf(),
        ensures
            match r {
                Ok(token) => has_token(self@.tokens, email@) && token@ == token_of(
                    self@.tokens,
                    email@,
                ),
                Err(e) => e == RepoError::NotFound && !has_token(self@.tokens, email@),
            },
    {
        match self.find_token(email) {
            Some(i) => {
                proof {
                    lemma_token_of(self@.tokens, email@, i as int);
                }
                Ok(self.tokens[i].clone())
            },
            None => Err(RepoError::NotFound),
        }
    }
}

} // verus!

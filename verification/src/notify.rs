//! Letting people know by e-mail: what is written, and to whom.
//!
//! Nothing here delivers anything. An e-mail that is sent is put into an
//! outbox, from where it is picked up and delivered.

use crate::category::{uid_of_tag, Category, CategoryView};
use crate::entities::{Place, PlaceView, User, UserView};
use crate::nonce::{encoded, EmailNonce, Nonce};
use vstd::prelude::*;
use vstd::string::StringExecFns;

verus! {

/// An e-mail to one recipient.
#[derive(Debug, PartialEq, Eq)]
pub struct Email {
    pub to: String,
    pub subject: String,
    pub body: String,
}

pub struct EmailView {
    pub to: Seq<char>,
    pub subject: Seq<char>,
    pub body: Seq<char>,
}

impl View for Email {
    type V = EmailView;

    open spec fn view(&self) -> EmailView {
        EmailView { to: self.to@, subject: self.subject@, body: self.body@ }
    }
}

impl DeepView for Email {
    type V = EmailView;

    open spec fn deep_view(&self) -> EmailView {
        self@
    }
}

/// The e-mails that wait to be delivered, the oldest first.
#[derive(Debug, PartialEq, Eq)]
pub struct Outbox {
    pub mails: Vec<Email>,
}

impl View for Outbox {
    type V = Seq<EmailView>;

    open spec fn view(&self) -> Seq<EmailView> {
        self.mails.deep_view()
    }
}

/// What an e-mail says.
#[derive(Debug, PartialEq, Eq)]
pub struct EmailContent {
    pub subject: String,
    pub body: String,
}

pub struct EmailContentView {
    pub subject: Seq<char>,
    pub body: Seq<char>,
}

impl View for EmailContent {
    type V = EmailContentView;

    open spec fn view(&self) -> EmailContentView {
        EmailContentView { subject: self.subject@, body: self.body@ }
    }
}

impl Outbox {
    pub fn new() -> (outbox: Outbox)
        ensures
            outbox@ == Seq::<EmailView>::empty(),
    {
        let outbox = Outbox { mails: Vec::new() };
        assert(outbox.mails.deep_view() == Seq::<EmailView>::empty());
        outbox
    }

    /// Takes all e-mails out of the outbox.
    pub fn drain(&mut self) -> (mails: Vec<Email>)
        ensures
            mails.deep_view() == old(self)@,
            final(self)@ == Seq::<EmailView>::empty(),
    {
        let mut mails: Vec<Email> = Vec::new();
        std::mem::swap(&mut mails, &mut self.mails);
        assert(self.mails.deep_view() == Seq::<EmailView>::empty());
        mails
    }
}

/// Puts an e-mail into the outbox.
pub fn send_email(outbox: &mut Outbox, mail: Email)
    ensures
        final(outbox)@ == old(outbox)@.push(mail@),
{
    let ghost before = outbox@;
    outbox.mails.push(mail);
    assert(outbox.mails.deep_view() == before.push(mail@));
}

/// Writes an e-mail to one recipient, and sends it.
pub fn compose_and_send_email(outbox: &mut Outbox, to: &str, subject: &str, body: &str)
    ensures
        final(outbox)@ == old(outbox)@.push(EmailView { to: to@, subject: subject@, body: body@ }),
{
    send_email(
        outbox,
        Email { to: to.to_owned(), subject: subject.to_owned(), body: body.to_owned() },
    );
}

/// The e-mails with one subject and one body to each of the recipients.
pub open spec fn emails_to(recipients: Seq<Seq<char>>, subject: Seq<char>, body: Seq<char>) -> Seq<
    EmailView,
> {
    Seq::new(recipients.len(), |i: int| EmailView { to: recipients[i], subject, body })
}

/// Writes the same e-mail to each of the recipients, and sends them in the
/// order of the recipients.
pub fn compose_and_send_emails(
    outbox: &mut Outbox,
    recipients: &Vec<String>,
    subject: &str,
    body: &str,
)
    ensures
        final(outbox)@ == old(outbox)@ + emails_to(recipients.deep_view(), subject@, body@),
{
    let ghost before = outbox@;
    let mut i: usize = 0;
    assert(emails_to(recipients.deep_view(), subject@, body@).take(0) == Seq::<EmailView>::empty());
    assert(before + Seq::<EmailView>::empty() == before);
    while i < recipients.len()
        invariant
            i <= recipients.len(),
            outbox@ == before + emails_to(recipients.deep_view(), subject@, body@).take(i as int),
        decreases recipients.len() - i,
    {
        let ghost all = emails_to(recipients.deep_view(), subject@, body@);
        compose_and_send_email(outbox, recipients[i].as_str(), subject, body);
        proof {
            assert(all.take(i as int + 1) == all.take(i as int).push(all[i as int]));
            assert((before + all.take(i as int)).push(all[i as int]) == before + all.take(
                i as int,
            ).push(all[i as int]));
        }
        i += 1;
    }
    assert(emails_to(recipients.deep_view(), subject@, body@).take(recipients.len() as int)
        == emails_to(recipients.deep_view(), subject@, body@));
}

/// The strings of a list with a separator between each two of them.
pub open spec fn joined(list: Seq<Seq<char>>, separator: Seq<char>) -> Seq<char>
    decreases list.len(),
{
    if list.len() == 0 {
        Seq::empty()
    } else if list.len() == 1 {
        list[0]
    } else {
        joined(list.drop_last(), separator) + separator + list.last()
    }
}

/// Puts a separator between each two strings of a list.
pub fn join(list: &Vec<String>, separator: &str) -> (out: String)
    ensures
        out@ == joined(list.deep_view(), separator@),
{
    let mut out = String::new();
    let mut i: usize = 0;
    assert(list.deep_view().take(0) == Seq::<Seq<char>>::empty());
    while i < list.len()
        invariant
            i <= list.len(),
            out@ == joined(list.deep_view().take(i as int), separator@),
        decreases list.len() - i,
    {
        proof {
            assert(list.deep_view().take(i as int + 1).drop_last() == list.deep_view().take(
                i as int,
            ));
            assert(list.deep_view().take(i as int + 1).last() == list[i as int]@);
            if i == 0 {
                assert(list.deep_view().take(1)[0] == list[0]@);
                assert(Seq::<char>::empty() + list[0]@ == list[0]@);
            }
        }
        if i > 0 {
            out.append(separator);
        }
        out.append(list[i].as_str());
        i += 1;
    }
    assert(list.deep_view().take(list.len() as int) == list.deep_view());
    out
}

/// Whether one of the tags stands for the category with the given
/// identifier.
pub open spec fn has_category(tags: Seq<Seq<char>>, uid: Seq<char>) -> bool {
    exists|i: int| 0 <= i < tags.len() && uid_of_tag(#[trigger] tags[i]) == Some(uid)
}

/// The names of those categories of a list to which a place with the given
/// tags belongs, in the order of the list.
pub open spec fn category_names(all: Seq<CategoryView>, tags: Seq<Seq<char>>) -> Seq<Seq<char>>
    decreases all.len(),
{
    if all.len() == 0 {
        Seq::empty()
    } else if has_category(tags, all.last().uid) {
        category_names(all.drop_last(), tags).push(all.last().tag)
    } else {
        category_names(all.drop_last(), tags)
    }
}

fn tags_have_category(tags: &Vec<String>, uid: &str) -> (b: bool)
    ensures
        b == has_category(tags.deep_view(), uid@),
{
    let mut i: usize = 0;
    while i < tags.len()
        invariant
            i <= tags.len(),
            forall|j: int| 0 <= j < i ==> uid_of_tag(#[trigger] tags.deep_view()[j]) != Some(uid@),
        decreases tags.len() - i,
    {
        let found = match Category::uid_for_tag(tags[i].as_str()) {
            Some(other) => *other == *uid,
            None => false,
        };
        if found {
            assert(uid_of_tag(tags.deep_view()[i as int]) == Some(uid@));
            return true;
        }
        i += 1;
    }
    false
}

/// The names of those categories of a list to which a place belongs.
pub fn category_names_of(entry: &Place, all_categories: &Vec<Category>) -> (out: Vec<String>)
    ensures
        out.deep_view() == category_names(all_categories.deep_view(), entry@.tags),
{
    let mut out: Vec<String> = Vec::new();
    let mut i: usize = 0;
    assert(all_categories.deep_view().take(0) == Seq::<CategoryView>::empty());
    assert(out.deep_view() == Seq::<Seq<char>>::empty());
    while i < all_categories.len()
        invariant
            i <= all_categories.len(),
            out.deep_view() == category_names(
                all_categories.deep_view().take(i as int),
                entry@.tags,
            ),
        decreases all_categories.len() - i,
    {
        let ghost before = out.deep_view();
        proof {
            assert(all_categories.deep_view().take(i as int + 1).drop_last()
                == all_categories.deep_view().take(i as int));
            assert(all_categories.deep_view().take(i as int + 1).last() == all_categories[i as int]@);
        }
        if tags_have_category(&entry.tags, all_categories[i].uid.as_str()) {
            let name = all_categories[i].name();
            out.push(name);
            assert(out.deep_view() == before.push(name@));
        }
        i += 1;
    }
    assert(all_categories.deep_view().take(all_categories.len() as int)
        == all_categories.deep_view());
    out
}

pub const PLACE_ADDED_SUBJECT: &'static str = "A new place has been added: ";

pub const PLACE_UPDATED_SUBJECT: &'static str = "A place has been changed: ";

pub const CATEGORIES_LABEL: &'static str = "\nCategories: ";

pub const TAGS_LABEL: &'static str = "\nTags: ";

pub const LIST_SEPARATOR: &'static str = ", ";

pub const LINE_END: &'static str = "\n";

pub const REGISTRATION_SUBJECT: &'static str = "Please confirm your e-mail address";

pub const REGISTRATION_BODY: &'static str = "Please follow this link to confirm your e-mail address:\n";

pub const RESET_PASSWORD_SUBJECT: &'static str = "Reset your password";

pub const RESET_PASSWORD_BODY: &'static str = "Please follow this link to choose a new password:\n";

pub const CONFIRM_EMAIL_URL_KVM: &'static str = "https://kartevonmorgen.org/#/?confirm_email=";

pub const CONFIRM_EMAIL_URL_OFDB: &'static str = "https://openfairdb.org/register/confirm/";

pub const RESET_PASSWORD_URL: &'static str = "https://openfairdb.org/reset-password?token=";

/// What is written about a place: its title, its description, the names of
/// its categories and its tags, each on a line of its own.
pub open spec fn place_body(place: PlaceView, categories: Seq<Seq<char>>) -> Seq<char> {
    place.title + LINE_END@ + place.description + CATEGORIES_LABEL@ + joined(
        categories,
        LIST_SEPARATOR@,
    ) + TAGS_LABEL@ + joined(place.tags, LIST_SEPARATOR@) + LINE_END@
}

fn place_email(subject: &str, entry: &Place, category_names: &Vec<String>) -> (content:
    EmailContent)
    ensures
        content@ == (EmailContentView {
            subject: subject@ + entry@.title,
            body: place_body(entry@, category_names.deep_view()),
        }),
{
    let subject = subject.to_owned().concat(entry.title.as_str());
    let mut body = entry.title.clone();
    body.append(LINE_END);
    body.append(entry.description.as_str());
    body.append(CATEGORIES_LABEL);
    body.append(join(category_names, LIST_SEPARATOR).as_str());
    body.append(TAGS_LABEL);
    body.append(join(&entry.tags, LIST_SEPARATOR).as_str());
    body.append(LINE_END);
    EmailContent { subject, body }
}

/// The e-mail that tells of a new place.
pub fn entry_added_email(entry: &Place, category_names: &Vec<String>) -> (content: EmailContent)
    ensures
        content@ == (EmailContentView {
            subject: PLACE_ADDED_SUBJECT@ + entry@.title,
            body: place_body(entry@, category_names.deep_view()),
        }),
{
    place_email(PLACE_ADDED_SUBJECT, entry, category_names)
}

/// The e-mail that tells of a change of a place.
pub fn entry_changed_email(entry: &Place, category_names: &Vec<String>) -> (content: EmailContent)
    ensures
        content@ == (EmailContentView {
            subject: PLACE_UPDATED_SUBJECT@ + entry@.title,
            body: place_body(entry@, category_names.deep_view()),
        }),
{
    place_email(PLACE_UPDATED_SUBJECT, entry, category_names)
}

/// The e-mail that asks a new user to confirm the e-mail address.
pub fn user_registration_email(url: &str) -> (content: EmailContent)
    ensures
        content@ == (EmailContentView {
            subject: REGISTRATION_SUBJECT@,
            body: REGISTRATION_BODY@ + url@,
        }),
{
    EmailContent {
        subject: REGISTRATION_SUBJECT.to_owned(),
        body: REGISTRATION_BODY.to_owned().concat(url),
    }
}

/// The e-mail that lets a user choose a new password.
pub fn user_reset_password_email(url: &str) -> (content: EmailContent)
    ensures
        content@ == (EmailContentView {
            subject: RESET_PASSWORD_SUBJECT@,
            body: RESET_PASSWORD_BODY@ + url@,
        }),
{
    EmailContent {
        subject: RESET_PASSWORD_SUBJECT.to_owned(),
        body: RESET_PASSWORD_BODY.to_owned().concat(url),
    }
}

/// Tells each of the given addresses of a new place.
pub fn entry_added(
    outbox: &mut Outbox,
    email_addresses: &Vec<String>,
    entry: &Place,
    all_categories: Vec<Category>,
)
    ensures
        final(outbox)@ == old(outbox)@ + emails_to(
            email_addresses.deep_view(),
            PLACE_ADDED_SUBJECT@ + entry@.title,
            place_body(entry@, category_names(all_categories.deep_view(), entry@.tags)),
        ),
{
    let category_names = category_names_of(entry, &all_categories);
    let content = entry_added_email(entry, &category_names);
    compose_and_send_emails(
        outbox,
        email_addresses,
        content.subject.as_str(),
        content.body.as_str(),
    );
}

/// Tells each of the given addresses of a change of a place.
pub fn entry_updated(
    outbox: &mut Outbox,
    email_addresses: &Vec<String>,
    entry: &Place,
    all_categories: Vec<Category>,
)
    ensures
        final(outbox)@ == old(outbox)@ + emails_to(
            email_addresses.deep_view(),
            PLACE_UPDATED_SUBJECT@ + entry@.title,
            place_body(entry@, category_names(all_categories.deep_view(), entry@.tags)),
        ),
{
    let category_names = category_names_of(entry, &all_categories);
    let content = entry_changed_email(entry, &category_names);
    compose_and_send_emails(
        outbox,
        email_addresses,
        content.subject.as_str(),
        content.body.as_str(),
    );
}

/// The e-mail that asks a user to confirm the e-mail address by following
/// a link.
pub open spec fn registration_email(user: UserView, url: Seq<char>) -> EmailView {
    EmailView { to: user.email, subject: REGISTRATION_SUBJECT@, body: REGISTRATION_BODY@ + url }
}

/// Asks a new user to confirm the e-mail address by following the given
/// link.
pub fn user_registered(outbox: &mut Outbox, user: &User, url: &str)
    ensures
        final(outbox)@ == old(outbox)@.push(registration_email(user@, url@)),
{
    let content = user_registration_email(url);
    compose_and_send_email(
        outbox,
        user.email.as_str(),
        content.subject.as_str(),
        content.body.as_str(),
    );
}

/// Asks a new user of the map to confirm the e-mail address. The link
/// holds the token for the user's address and the given nonce.
pub fn user_registered_kvm(outbox: &mut Outbox, user: &User, nonce: Nonce)
    ensures
        final(outbox)@ == old(outbox)@.push(
            registration_email(user@, CONFIRM_EMAIL_URL_KVM@ + encoded(user@.email, nonce)),
        ),
{
    let token = EmailNonce { email: user.email.clone(), nonce }.encode_to_string();
    let url = CONFIRM_EMAIL_URL_KVM.to_owned().concat(token.as_str());
    user_registered(outbox, user, url.as_str());
}

/// Asks a new user of the database to confirm the e-mail address. The
/// link holds the token for the user's address and the given nonce.
pub fn user_registered_ofdb(outbox: &mut Outbox, user: &User, nonce: Nonce)
    ensures
        final(outbox)@ == old(outbox)@.push(
            registration_email(user@, CONFIRM_EMAIL_URL_OFDB@ + encoded(user@.email, nonce)),
        ),
{
    let token = EmailNonce { email: user.email.clone(), nonce }.encode_to_string();
    let url = CONFIRM_EMAIL_URL_OFDB.to_owned().concat(token.as_str());
    user_registered(outbox, user, url.as_str());
}

/// Sends a user who has asked for a new password the link under which to
/// choose one. The link holds the token that was issued for the request.
pub fn user_reset_password_requested(outbox: &mut Outbox, email_nonce: &EmailNonce)
    ensures
        final(outbox)@ == old(outbox)@ + emails_to(
            seq![email_nonce@.email],
            RESET_PASSWORD_SUBJECT@,
            RESET_PASSWORD_BODY@ + (RESET_PASSWORD_URL@ + encoded(
                email_nonce@.email,
                email_nonce@.nonce,
            )),
        ),
{
    let url = RESET_PASSWORD_URL.to_owned().concat(email_nonce.encode_to_string().as_str());
    let content = user_reset_password_email(url.as_str());
    let mut recipients: Vec<String> = Vec::new();
    recipients.push(email_nonce.email.clone());
    assert(recipients.deep_view() == seq![email_nonce@.email]);
    compose_and_send_emails(
        outbox,
        &recipients,
        content.subject.as_str(),
        content.body.as_str(),
    );
}

} // verus!

//! What a place must look like before it is stored.

use crate::entities::{ContactView, Place, PlaceView};
use crate::error::ParameterError;
use crate::text::{blank, is_blank};
use vstd::prelude::*;

verus! {

/// `url::ParseError`, the reason for which `url::Url::parse` refuses a
/// text. Nothing is said of what it holds.
#[verifier::external_type_specification]
#[verifier::external_body]
pub struct ExUrlParseError(url::ParseError);

/// What `url::Url::parse` makes of a text: the URL in its serialized form,
/// or nothing where the text is no absolute URL.
pub uninterp spec fn url_of(input: Seq<char>) -> Option<Seq<char>>;

/// Whether `fast_chemail::is_valid_email` takes a text for an e-mail
/// address.
pub uninterp spec fn email_accepted(address: Seq<char>) -> bool;

/// Calls `url::Url::parse` and hands out the serialization of the URL that
/// it returns. The result depends on the text alone.
#[verifier::external_body]
fn parse_url(input: &str) -> (r: Result<String, url::ParseError>)
    ensures
        match r {
            Ok(url) => url_of(input@) == Some(url@),
            Err(_) => url_of(input@) is None,
        },
{
    match url::Url::parse(input) {
        Ok(url) => Ok(url.into()),
        Err(err) => Err(err),
    }
}

/// Calls `fast_chemail::is_valid_email`, which checks the text against the
/// form of e-mail addresses and nothing else.
#[verifier::external_body]
fn email_is_valid(address: &str) -> (b: bool)
    ensures
        b == email_accepted(address@),
{
    fast_chemail::is_valid_email(address)
}

pub const LICENSE_CC0: &'static str = "CC0-1.0";

pub const LICENSE_ODBL: &'static str = "ODbL-1.0";

/// The licenses under which places are published.
pub open spec fn license_known(license: Seq<char>) -> bool {
    license == LICENSE_CC0@ || license == LICENSE_ODBL@
}

/// Whether a link that may be missing is a URL where it is there.
pub open spec fn link_ok(link: Option<Seq<char>>) -> bool {
    match link {
        Some(link) => url_of(link) is Some,
        None => true,
    }
}

/// Whether the e-mail address among contact details that may be missing is
/// one where it is there.
pub open spec fn contact_ok(contact: Option<ContactView>) -> bool {
    match contact {
        Some(ContactView { email: Some(email), .. }) => email_accepted(email),
        _ => true,
    }
}

/// What is wrong with a place, if anything: the first of its title, its
/// license, its position, its e-mail address and its three links that does
/// not pass.
pub open spec fn place_fault(place: PlaceView) -> Option<ParameterError> {
    if blank(place.title) {
        Some(ParameterError::Title)
    } else if !license_known(place.license) {
        Some(ParameterError::License)
    } else if !place.location.pos.valid() {
        Some(ParameterError::InvalidPosition)
    } else if !contact_ok(place.contact) {
        Some(ParameterError::InvalidEmail)
    } else if !link_ok(place.homepage) || !link_ok(place.image_url) || !link_ok(
        place.image_link_url,
    ) {
        Some(ParameterError::InvalidUrl)
    } else {
        None
    }
}

/// Reads a link that a user has entered: the URL in its serialized form.
pub fn parse_url_param(input: &str) -> (r: Result<String, ParameterError>)
    ensures
        match r {
            Ok(url) => url_of(input@) == Some(url@),
            Err(e) => url_of(input@) is None && e == ParameterError::InvalidUrl,
        },
{
    match parse_url(input) {
        Ok(url) => Ok(url),
        Err(_) => Err(ParameterError::InvalidUrl),
    }
}

/// Whether a text is a URL.
pub fn is_url(input: &str) -> (b: bool)
    ensures
        b == (url_of(input@) is Some),
{
    parse_url(input).is_ok()
}

/// Whether a text is an e-mail address.
pub fn is_email(address: &str) -> (b: bool)
    ensures
        b == email_accepted(address@),
{
    email_is_valid(address)
}

/// Whether a license is one under which places are published.
pub fn is_known_license(license: &str) -> (b: bool)
    ensures
        b == license_known(license@),
{
    *license == *LICENSE_CC0 || *license == *LICENSE_ODBL
}

fn link_is_ok(link: &Option<String>) -> (b: bool)
    ensures
        b == link_ok(link.deep_view()),
{
    match link {
        Some(link) => is_url(link.as_str()),
        None => true,
    }
}

/// Checks a place, and says what is wrong with it.
pub fn validate_place(place: &Place) -> (r: Result<(), ParameterError>)
    ensures
        match r {
            Ok(_) => place_fault(place@) is None,
            Err(e) => place_fault(place@) == Some(e),
        },
{
    if is_blank(place.title.as_str()) {
        return Err(ParameterError::Title);
    }
    if !is_known_license(place.license.as_str()) {
        return Err(ParameterError::License);
    }
    if !place.location.pos.is_valid() {
        return Err(ParameterError::InvalidPosition);
    }
    let contact_ok = match &place.contact {
        Some(contact) => match &contact.email {
            Some(email) => is_email(email.as_str()),
            None => true,
        },
        None => true,
    };
    if !contact_ok {
        return Err(ParameterError::InvalidEmail);
    }
    if !link_is_ok(&place.homepage) || !link_is_ok(&place.image_url) || !link_is_ok(
        &place.image_link_url,
    ) {
        return Err(ParameterError::InvalidUrl);
    }
    Ok(())
}

} // verus!

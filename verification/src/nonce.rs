//! One-time tokens: a random number, the e-mail address that it was
//! issued for, and the text in which the two travel.
//!
//! A token is written in lower-case hexadecimal digits: six digits for
//! each character of the e-mail address, its code point, and then 32
//! digits for the number.

use crate::entities::Timestamp;
use crate::error::ParameterError;
use crate::hex::{
    hex_digits, is_hex, lemma_hex_digits_of_value, lemma_hex_digits_shape,
    lemma_hex_value_of_digits, lemma_pow16_values, push_hex, read_hex,
};
use crate::text::chars_of;
use vstd::prelude::*;

verus! {

/// `char::from_u32` gives the character with the given code point, and
/// nothing where the number is no code point of a character.
pub assume_specification[ char::from_u32 ](i: u32) -> (r: Option<char>)
    ensures
        r is Some <==> is_scalar(i as nat),
        r matches Some(c) ==> c as u32 == i,
;

/// The code point of a character.
pub open spec fn code(c: char) -> nat {
    c as u32 as nat
}

/// The code point of a character is a code point.
pub proof fn lemma_code_is_scalar(c: char)
    ensures
        is_scalar(code(c)),
        code(c) < 0x100_0000,
{
}

/// Characters with the same code point are the same.
pub proof fn lemma_code_injective(c: char, d: char)
    requires
        code(c) == code(d),
    ensures
        c == d,
{
}

/// The numbers that are code points of characters.
pub open spec fn is_scalar(n: nat) -> bool {
    n <= 0xD7FF || 0xE000 <= n <= 0x10FFFF
}

/// The number of digits in which a nonce is written.
pub const NONCE_STR_LEN: usize = 32;

/// The number of digits in which a character is written.
pub const CHAR_STR_LEN: usize = 6;

/// A number that is used once.
#[derive(Clone, Copy, Debug, PartialEq, Eq, Structural, Hash)]
pub struct Nonce {
    pub value: u128,
}

/// An e-mail address together with a nonce that was issued for it.
#[derive(Debug, PartialEq, Eq)]
pub struct EmailNonce {
    pub email: String,
    pub nonce: Nonce,
}

pub struct EmailNonceView {
    pub email: Seq<char>,
    pub nonce: Nonce,
}

impl View for EmailNonce {
    type V = EmailNonceView;

    open spec fn view(&self) -> EmailNonceView {
        EmailNonceView { email: self.email@, nonce: self.nonce }
    }
}

impl Clone for EmailNonce {
    fn clone(&self) -> (r: EmailNonce)
        ensures
            r@ == self@,
    {
        EmailNonce { email: self.email.clone(), nonce: self.nonce }
    }
}

/// A token that lets its holder act for a user until it expires.
#[derive(Debug, PartialEq, Eq)]
pub struct UserToken {
    pub email_nonce: EmailNonce,
    pub expires_at: Timestamp,
}

pub struct UserTokenView {
    pub email_nonce: EmailNonceView,
    pub expires_at: Timestamp,
}

impl View for UserToken {
    type V = UserTokenView;

    open spec fn view(&self) -> UserTokenView {
        UserTokenView { email_nonce: self.email_nonce@, expires_at: self.expires_at }
    }
}

impl DeepView for UserToken {
    type V = UserTokenView;

    open spec fn deep_view(&self) -> UserTokenView {
        self@
    }
}

impl Clone for UserToken {
    fn clone(&self) -> (r: UserToken)
        ensures
            r@ == self@,
    {
        UserToken { email_nonce: self.email_nonce.clone(), expires_at: self.expires_at }
    }
}

/// A text with each character written as the six digits of its code point.
pub open spec fn encoded_text(s: Seq<char>) -> Seq<char>
    decreases s.len(),
{
    if s.len() == 0 {
        Seq::empty()
    } else {
        encoded_text(s.drop_last()) + hex_digits(code(s.last()), CHAR_STR_LEN as nat)
    }
}

/// The token for an e-mail address and a nonce.
pub open spec fn encoded(email: Seq<char>, nonce: Nonce) -> Seq<char> {
    encoded_text(email) + hex_digits(nonce.value as nat, NONCE_STR_LEN as nat)
}

/// An encoded text has six digits for each character, which are the digits
/// of the character's code point.
pub proof fn lemma_encoded_text_shape(s: Seq<char>)
    ensures
        encoded_text(s).len() == 6 * s.len(),
        is_hex(encoded_text(s)),
        forall|k: int|
            0 <= k < s.len() ==> #[trigger] encoded_text(s).subrange(6 * k, 6 * k + 6)
                == hex_digits(code(s[k]), 6),
    decreases s.len(),
{
    if s.len() > 0 {
        let head = s.drop_last();
        let digits = hex_digits(code(s.last()), 6);
        lemma_encoded_text_shape(head);
        lemma_hex_digits_shape(code(s.last()), 6);
        let all = encoded_text(s);
        assert(all == encoded_text(head) + digits);
        assert forall|k: int| 0 <= k < s.len() implies #[trigger] all.subrange(6 * k, 6 * k + 6)
            == hex_digits(code(s[k]), 6) by {
            if k < head.len() {
                assert(all.subrange(6 * k, 6 * k + 6) == encoded_text(head).subrange(
                    6 * k,
                    6 * k + 6,
                ));
                assert(head[k] == s[k]);
            } else {
                assert(all.subrange(6 * k, 6 * k + 6) == digits);
            }
        }
    }
}

/// A token has six digits for each character of the address and 32 for
/// the nonce, and nothing but digits.
pub proof fn lemma_encoded_shape(email: Seq<char>, nonce: Nonce)
    ensures
        encoded(email, nonce).len() == 6 * email.len() + 32,
        is_hex(encoded(email, nonce)),
        encoded(email, nonce).take(6 * email.len() as int) == encoded_text(email),
        encoded(email, nonce).skip(6 * email.len() as int) == hex_digits(nonce.value as nat, 32),
{
    lemma_encoded_text_shape(email);
    lemma_hex_digits_shape(nonce.value as nat, 32);
    let t = encoded(email, nonce);
    assert(t.take(6 * email.len() as int) == encoded_text(email));
    assert(t.skip(6 * email.len() as int) == hex_digits(nonce.value as nat, 32));
}

/// Two addresses with the same encoded text are the same.
pub proof fn lemma_encoded_text_injective(a: Seq<char>, b: Seq<char>)
    requires
        encoded_text(a) == encoded_text(b),
    ensures
        a == b,
{
    lemma_encoded_text_shape(a);
    lemma_encoded_text_shape(b);
    lemma_pow16_values();
    assert(a.len() == b.len());
    assert forall|k: int| 0 <= k < a.len() implies a[k] == b[k] by {
        let chunk = encoded_text(a).subrange(6 * k, 6 * k + 6);
        assert(chunk == hex_digits(code(a[k]), 6));
        assert(encoded_text(b).subrange(6 * k, 6 * k + 6) == hex_digits(code(b[k]), 6));
        lemma_code_is_scalar(a[k]);
        lemma_code_is_scalar(b[k]);
        lemma_hex_value_of_digits(code(a[k]), 6);
        lemma_hex_value_of_digits(code(b[k]), 6);
        lemma_code_injective(a[k], b[k]);
    }
    assert(a =~= b);
}

/// A token stands for one address and one nonce only.
pub proof fn lemma_encoded_injective(a: Seq<char>, m: Nonce, b: Seq<char>, n: Nonce)
    requires
        encoded(a, m) == encoded(b, n),
    ensures
        a == b,
        m == n,
{
    lemma_encoded_shape(a, m);
    lemma_encoded_shape(b, n);
    lemma_pow16_values();
    assert(a.len() == b.len());
    lemma_encoded_text_injective(a, b);
    lemma_hex_value_of_digits(m.value as nat, 32);
    lemma_hex_value_of_digits(n.value as nat, 32);
}

impl Nonce {
    pub fn from_u128(value: u128) -> (n: Nonce)
        ensures
            n.value == value,
    {
        Nonce { value }
    }

    /// The nonce in 32 digits.
    pub fn to_string(&self) -> (s: String)
        ensures
            s@ == hex_digits(self.value as nat, NONCE_STR_LEN as nat),
    {
        let mut s = String::new();
        push_hex(&mut s, self.value, NONCE_STR_LEN);
        assert(Seq::<char>::empty() + hex_digits(self.value as nat, 32) == hex_digits(
            self.value as nat,
            32,
        ));
        s
    }

    /// Reads a nonce from its 32 digits. Any other text is refused.
    pub fn from_str(s: &str) -> (r: Option<Nonce>)
        ensures
            match r {
                Some(n) => s@ == hex_digits(n.value as nat, NONCE_STR_LEN as nat),
                None => forall|n: Nonce|
                    s@ != #[trigger] hex_digits(n.value as nat, NONCE_STR_LEN as nat),
            },
    {
        let chars = chars_of(s);
        if chars.len() != NONCE_STR_LEN {
            proof {
                assert forall|n: Nonce| s@ != #[trigger] hex_digits(n.value as nat, 32) by {
                    lemma_hex_digits_shape(n.value as nat, 32);
                }
            }
            return None;
        }
        proof {
            assert(chars@.subrange(0, 32) == chars@);
        }
        match read_hex(&chars, 0, NONCE_STR_LEN) {
            Some(value) => {
                proof {
                    lemma_hex_digits_of_value(chars@);
                }
                Some(Nonce { value })
            },
            None => {
                proof {
                    assert forall|n: Nonce| s@ != #[trigger] hex_digits(n.value as nat, 32) by {
                        lemma_hex_digits_shape(n.value as nat, 32);
                    }
                }
                None
            },
        }
    }
}

impl EmailNonce {
    /// The token for this address and nonce.
    pub fn encode_to_string(&self) -> (s: String)
        ensures
            s@ == encoded(self.email@, self.nonce),
    {
        let chars = chars_of(self.email.as_str());
        let mut s = String::new();
        let mut i: usize = 0;
        proof {
            assert(chars@.take(0) == Seq::<char>::empty());
        }
        while i < chars.len()
            invariant
                i <= chars.len(),
                chars@ == self.email@,
                s@ == encoded_text(chars@.take(i as int)),
            decreases chars.len() - i,
        {
            proof {
                assert(chars@.take(i as int + 1).drop_last() == chars@.take(i as int));
                assert(chars@.take(i as int + 1).last() == chars@[i as int]);
            }
            push_hex(&mut s, chars[i] as u32 as u128, CHAR_STR_LEN);
            i += 1;
        }
        proof {
            assert(chars@.take(chars.len() as int) == chars@);
        }
        push_hex(&mut s, self.nonce.value, NONCE_STR_LEN);
        s
    }

    /// Reads a token. A text that is the token of no address and nonce is
    /// refused.
    pub fn decode_from_str(encoded_str: &str) -> (r: Result<EmailNonce, ParameterError>)
        ensures
            match r {
                Ok(email_nonce) => encoded_str@ == encoded(email_nonce.email@, email_nonce.nonce),
                Err(e) => e == ParameterError::InvalidNonce && forall|email: Seq<char>, nonce: Nonce|
                    encoded_str@ != #[trigger] encoded(email, nonce),
            },
    {
        let chars = chars_of(encoded_str);
        let len = chars.len();
        if len < NONCE_STR_LEN || (len - NONCE_STR_LEN) % CHAR_STR_LEN != 0 {
            proof {
                assert forall|email: Seq<char>, nonce: Nonce|
                    encoded_str@ != #[trigger] encoded(email, nonce) by {
                    lemma_encoded_shape(email, nonce);
                }
            }
            return Err(ParameterError::InvalidNonce);
        }
        let n: usize = (len - NONCE_STR_LEN) / CHAR_STR_LEN;
        let mut email = String::new();
        let mut k: usize = 0;
        while k < n
            invariant
                k <= n,
                len == chars.len(),
                len == 6 * n + 32,
                chars@ == encoded_str@,
                email@.len() == k,
                chars@.take(6 * k) == encoded_text(email@),
            decreases n - k,
        {
            let ghost chunk = chars@.subrange(6 * k, 6 * k + 6);
            let c = match read_hex(&chars, 6 * k, 6 * k + 6) {
                Some(v) => {
                    proof {
                        lemma_hex_digits_of_value(chunk);
                        lemma_pow16_values();
                    }
                    char::from_u32(v as u32)
                },
                None => None,
            };
            match c {
                Some(c) => {
                    let ghost before = email@;
                    email.push(c);
                    proof {
                        lemma_hex_digits_of_value(chunk);
                        assert(email@.drop_last() == before);
                        assert(chars@.take(6 * (k + 1)) == chars@.take(6 * k) + chunk);
                    }
                },
                None => {
                    proof {
                        assert forall|e: Seq<char>, nonce: Nonce|
                            encoded_str@ != #[trigger] encoded(e, nonce) by {
                            lemma_encoded_shape(e, nonce);
                            if encoded_str@ == encoded(e, nonce) {
                                lemma_encoded_text_shape(e);
                                assert(e.len() == n);
                                let t = encoded(e, nonce);
                                assert(t.subrange(6 * k, 6 * k + 6) == encoded_text(e).subrange(
                                    6 * k,
                                    6 * k + 6,
                                ));
                                assert(chunk == hex_digits(code(e[k as int]), 6));
                                lemma_hex_digits_shape(code(e[k as int]), 6);
                                lemma_pow16_values();
                                lemma_code_is_scalar(e[k as int]);
                                lemma_hex_value_of_digits(code(e[k as int]), 6);
                                assert(is_scalar(code(e[k as int])));
                            }
                        }
                    }
                    return Err(ParameterError::InvalidNonce);
                },
            }
            k += 1;
        }
        let ghost tail = chars@.subrange(6 * n, len as int);
        match read_hex(&chars, 6 * n, len) {
            Some(value) => {
                proof {
                    lemma_hex_digits_of_value(tail);
                    assert(chars@ == chars@.take(6 * n) + tail);
                }
                Ok(EmailNonce { email, nonce: Nonce { value } })
            },
            None => {
                proof {
                    assert forall|e: Seq<char>, nonce: Nonce|
                        encoded_str@ != #[trigger] encoded(e, nonce) by {
                        lemma_encoded_shape(e, nonce);
                        if encoded_str@ == encoded(e, nonce) {
                            assert(e.len() == n);
                            assert(tail == encoded(e, nonce).skip(6 * n));
                            lemma_hex_digits_shape(nonce.value as nat, 32);
                        }
                    }
                }
                Err(ParameterError::InvalidNonce)
            },
        }
    }
}

/// A token that is written and read again gives the address and the nonce
/// that it was written for; and a text that is read as a token is the token
/// of what was read.
pub proof fn lemma_token_round_trip(
    email: Seq<char>,
    nonce: Nonce,
    read_email: Seq<char>,
    read_nonce: Nonce,
)
    requires
        encoded(email, nonce) == encoded(read_email, read_nonce),
    ensures
        read_email == email,
        read_nonce == nonce,
{
    lemma_encoded_injective(email, nonce, read_email, read_nonce);
}

} // verus!

//! Subscriber details: validation of a signup, confirmation tokens and the
//! confirmation email.

use vstd::prelude::*;
use crate::worker::{email_is_valid, invalid_email_message, SubscriberEmail};

verus! {

/// Longest accepted subscriber name, in characters.
pub const MAX_NAME_LENGTH: usize = 256;

/// Length of a subscription token, in characters.
pub const TOKEN_LENGTH: usize = 25;

/// Unicode `White_Space`: the characters for which `char::is_whitespace`
/// holds.
pub open spec fn is_white_space(c: char) -> bool {
    ('\u{9}' <= c && c <= '\u{d}') || c == ' ' || c == '\u{85}' || c == '\u{a0}' || c
        == '\u{1680}' || ('\u{2000}' <= c && c <= '\u{200a}') || c == '\u{2028}' || c
        == '\u{2029}' || c == '\u{202f}' || c == '\u{205f}' || c == '\u{3000}'
}

fn char_is_whitespace(c: char) -> (r: bool)
    ensures
        r == is_white_space(c),
{
    ('\u{9}' <= c && c <= '\u{d}') || c == ' ' || c == '\u{85}' || c == '\u{a0}' || c
        == '\u{1680}' || ('\u{2000}' <= c && c <= '\u{200a}') || c == '\u{2028}' || c
        == '\u{2029}' || c == '\u{202f}' || c == '\u{205f}' || c == '\u{3000}'
}

/// Characters that a name may not hold.
pub open spec fn is_forbidden_name_char(c: char) -> bool {
    c == '/' || c == '(' || c == ')' || c == '"' || c == '<' || c == '>' || c == '\\' || c == '{'
        || c == '}'
}

/// A name is not blank, not too long, and free of forbidden characters.
pub open spec fn is_valid_name(s: Seq<char>) -> bool {
    &&& exists|i: int| 0 <= i < s.len() && !is_white_space(#[trigger] s[i])
    &&& s.len() <= MAX_NAME_LENGTH
    &&& forall|i: int| 0 <= i < s.len() ==> !is_forbidden_name_char(#[trigger] s[i])
}

pub open spec fn invalid_name_message(s: Seq<char>) -> Seq<char> {
    s + " is not a valid subscriber name."@
}

fn is_forbidden_name_char_exec(c: char) -> (r: bool)
    ensures
        r == is_forbidden_name_char(c),
{
    c == '/' || c == '(' || c == ')' || c == '"' || c == '<' || c == '>' || c == '\\' || c == '{'
        || c == '}'
}

/// A subscriber's name that passed validation.
pub struct SubscriberName {
    value: String,
}

impl View for SubscriberName {
    type V = Seq<char>;

    closed spec fn view(&self) -> Seq<char> {
        self.value@
    }
}

impl SubscriberName {
    #[verifier::type_invariant]
    spec fn inv(&self) -> bool {
        is_valid_name(self.value@)
    }

    pub fn parse(s: String) -> (r: Result<SubscriberName, String>)
        ensures
            match r {
                Ok(n) => n@ == s@ && is_valid_name(s@),
                Err(msg) => !is_valid_name(s@) && msg@ == invalid_name_message(s@),
            },
    {
        let n = s.unicode_len();
        if n > MAX_NAME_LENGTH {
            return Err(s.concat(" is not a valid subscriber name."));
        }
        let mut blank = true;
        let mut i: usize = 0;
        while i < n
            invariant
                n == s@.len() <= MAX_NAME_LENGTH,
                0 <= i <= n,
                blank <==> forall|j: int| 0 <= j < i ==> is_white_space(#[trigger] s@[j]),
                forall|j: int| 0 <= j < i ==> !is_forbidden_name_char(#[trigger] s@[j]),
            decreases n - i,
        {
            let c = s.as_str().get_char(i);
            if is_forbidden_name_char_exec(c) {
                assert(is_forbidden_name_char(s@[i as int]));
                return Err(s.concat(" is not a valid subscriber name."));
            }
            if !char_is_whitespace(c) {
                blank = false;
            }
            i = i + 1;
        }
        if blank {
            return Err(s.concat(" is not a valid subscriber name."));
        }
        Ok(SubscriberName { value: s })
    }

    pub fn as_str(&self) -> (r: &str)
        ensures
            r@ == self@,
            is_valid_name(r@),
    {
        proof {
            use_type_invariant(self);
        }
        self.value.as_str()
    }
}

/// The fields of a signup form, as submitted.
pub struct SubscriptionFormData {
    pub email: String,
    pub name: String,
}

/// A signup whose name and address both passed validation.
pub struct NewSubscriber {
    pub email: SubscriberEmail,
    pub name: SubscriberName,
}

impl NewSubscriber {
    /// Validates the name, then the address; the first failure's message is
    /// returned.
    pub fn try_from(form: SubscriptionFormData) -> (r: Result<NewSubscriber, String>)
        ensures
            match r {
                Ok(s) => s.name@ == form.name@ && s.email@ == form.email@,
                Err(msg) => if !is_valid_name(form.name@) {
                    msg@ == invalid_name_message(form.name@)
                } else {
                    !email_is_valid(form.email@) && msg@ == invalid_email_message(form.email@)
                },
            },
            r is Ok <==> is_valid_name(form.name@) && email_is_valid(form.email@),
            form.email@.len() == 0 || !form.email@.contains('@') ==> r is Err,
    {
        let SubscriptionFormData { email, name } = form;
        let name = SubscriberName::parse(name)?;
        let email = SubscriberEmail::parse(email)?;
        Ok(NewSubscriber { name, email })
    }
}

/// The query of a confirmation link.
pub struct Parameters {
    pub subscription_token: String,
}

pub open spec fn is_alphanumeric(c: char) -> bool {
    ('a' <= c && c <= 'z') || ('A' <= c && c <= 'Z') || ('0' <= c && c <= '9')
}

/// Relies on rand::distributions::Alphanumeric sampled with
/// rand::thread_rng: a random ASCII letter or digit.
#[verifier::external_body]
fn random_alphanumeric() -> (c: char)
    ensures
        is_alphanumeric(c),
{
    char::from(rand::Rng::sample(&mut rand::thread_rng(), rand::distributions::Alphanumeric))
}

/// Relies on String's FromIterator<char>: the characters in order.
#[verifier::external_body]
fn string_from_chars(v: &Vec<char>) -> (r: String)
    ensures
        r@ == v@,
{
    v.iter().collect()
}

/// A fresh random token of letters and digits.
pub fn generate_subscription_token() -> (r: String)
    ensures
        r@.len() == TOKEN_LENGTH,
        forall|i: int| 0 <= i < r@.len() ==> is_alphanumeric(#[trigger] r@[i]),
{
    let mut chars: Vec<char> = Vec::new();
    let mut i: usize = 0;
    while i < TOKEN_LENGTH
        invariant
            0 <= i <= TOKEN_LENGTH,
            chars@.len() == i,
            forall|j: int| 0 <= j < i ==> is_alphanumeric(#[trigger] chars@[j]),
        decreases TOKEN_LENGTH - i,
    {
        chars.push(random_alphanumeric());
        i = i + 1;
    }
    string_from_chars(&chars)
}

/// The message that asks a new subscriber to confirm.
pub struct ConfirmationEmail {
    pub subject: String,
    pub html_body: String,
    pub text_body: String,
}

pub open spec fn confirmation_link(base_url: Seq<char>, token: Seq<char>) -> Seq<char> {
    base_url + "/subscriptions/confirm?subscription_token="@ + token
}

/// The confirmation email for `token`, linking back to `base_url`.
pub fn confirmation_email(base_url: &str, token: &str) -> (r: ConfirmationEmail)
    ensures
        r.subject@ == "Welcome!"@,
        r.html_body@ == "Welcome to our newsletter!<br />Click <a href=\""@ + confirmation_link(
            base_url@,
            token@,
        ) + "\">here</a> to confirm your subscription."@,
        r.text_body@ == "Welcome to our newsletter!\nVisit "@ + confirmation_link(base_url@, token@)
            + " to confirm your subscription."@,
{
    let link = String::from_str(base_url).concat("/subscriptions/confirm?subscription_token=").concat(
        token,
    );
    let html = String::from_str("Welcome to our newsletter!<br />Click <a href=\"").concat(
        link.as_str(),
    ).concat("\">here</a> to confirm your subscription.");
    let text = String::from_str("Welcome to our newsletter!\nVisit ").concat(link.as_str()).concat(
        " to confirm your subscription.",
    );
    ConfirmationEmail { subject: String::from_str("Welcome!"), html_body: html, text_body: text }
}

/// The content of an issue, as the JSON publishing endpoint receives it.
pub struct Content {
    pub html: String,
    pub text: String,
}

/// The body of a JSON publish request.
pub struct BodyData {
    pub title: String,
    pub content: Content,
}

} // verus!

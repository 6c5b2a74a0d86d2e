use vstd::prelude::*;
use crate::text::{is_infix, str_contains};

verus! {

/// A portal user, as the user directory describes them.
#[derive(Debug, Clone)]
pub struct User {
    pub id: String,
    pub name: String,
    pub gender: String,
    pub avatar: Option<String>,
    pub grade: String,
    pub college: Option<String>,
    pub classes: String,
    pub scientific_value: i32,
    pub birthday: Option<String>,
    pub phone: Option<String>,
}

/// The contact details some activities ask for on registration.
#[derive(Debug, Clone)]
pub struct SignInfo {
    pub college: String,
    pub classes: String,
    pub phone: String,
    pub email: String,
    pub remarks: String,
}

/// An optional text, or the empty text where it is absent.
pub open spec fn or_empty(s: Option<String>) -> Seq<char> {
    match s {
        Some(t) => t@,
        None => Seq::<char>::empty(),
    }
}

fn take_or_empty(s: Option<String>) -> (r: String)
    ensures
        r@ == or_empty(s),
{
    match s {
        Some(t) => t,
        None => String::new(),
    }
}

impl SignInfo {
    /// The details of a participant: college and class from the profile, the
    /// phone number where one is known, and empty email and remarks.
    pub fn from_profile(user: User, phone: Option<String>) -> (r: SignInfo)
        ensures
            r.college@ == or_empty(user.college),
            r.classes@ == user.classes@,
            r.phone@ == or_empty(phone),
            r.email@.len() == 0,
            r.remarks@.len() == 0,
    {
        SignInfo {
            college: take_or_empty(user.college),
            classes: user.classes,
            phone: take_or_empty(phone),
            email: String::new(),
            remarks: String::new(),
        }
    }
}

/// The phrase by which the user directory refuses a lookup it may not answer.
pub const VERIFICATION_FAILED: &'static str = "验证失败";

impl User {
    /// Records the outcome of a phone lookup. A number found (or found
    /// missing) is kept and returned; a refusal for lack of verification
    /// means the number is unknown; any other failure is passed on and
    /// changes nothing.
    pub fn settle_phone(&mut self, lookup: Result<Option<String>, String>) -> (r: Result<Option<String>, String>)
        ensures
            match lookup {
                Ok(p) => r == Ok::<Option<String>, String>(p) && final(self).phone == p,
                Err(m) => if is_infix("验证失败"@, m@) {
                    r == Ok::<Option<String>, String>(None) && final(self).phone is None
                } else {
                    r == Err::<Option<String>, String>(m) && final(self).phone == old(self).phone
                },
            },
            final(self).id == old(self).id,
            final(self).classes == old(self).classes,
            final(self).college == old(self).college,
    {
        match lookup {
            Ok(p) => {
                self.phone = p.clone();
                Ok(p)
            },
            Err(m) => {
                if str_contains(m.as_str(), VERIFICATION_FAILED) {
                    self.phone = None;
                    Ok(None)
                } else {
                    Err(m)
                }
            },
        }
    }
}

} // verus!

//! The `User` record: five fields with a fixed canonical order
//! (id, name, email, age, active).

use vstd::prelude::*;
use crate::chars::{int_chars, push_chars, push_i32, chars_to_string};

verus! {

/// A user record. `id` is fixed at construction; the other fields are
/// plain data with no invariant (no validation is performed on them).
#[derive(Clone, PartialEq, Eq, Debug)]
pub struct User {
    pub id: i32,
    pub name: String,
    pub email: String,
    pub age: i32,
    pub active: bool,
}

/// The mathematical value of a `User`.
pub struct UserView {
    pub id: int,
    pub name: Seq<char>,
    pub email: Seq<char>,
    pub age: int,
    pub active: bool,
}

impl View for User {
    type V = UserView;

    open spec fn view(&self) -> UserView {
        UserView {
            id: self.id as int,
            name: self.name@,
            email: self.email@,
            age: self.age as int,
            active: self.active,
        }
    }
}

/// Whether `u` is the view of some `User`: the integer fields fit in
/// 32 signed bits.
pub open spec fn valid_user_view(u: UserView) -> bool {
    &&& i32::MIN <= u.id <= i32::MAX
    &&& i32::MIN <= u.age <= i32::MAX
}

/// The display form of a user: id, name and email, without age or active.
pub open spec fn user_repr(u: UserView) -> Seq<char> {
    "User(id="@ + int_chars(u.id) + ", name='"@ + u.name + "', email='"@ + u.email + "')"@
}

impl User {
    /// Constructs a user from all five field values. No validation: age may
    /// be negative and the texts are free-form.
    pub fn new(id: i32, name: String, email: String, age: i32, active: bool) -> (r: User)
        ensures
            r@.id == id as int,
            r@.name == name@,
            r@.email == email@,
            r@.age == age as int,
            r@.active == active,
    {
        User { id, name, email, age, active }
    }

    /// A copy of `self` with the four mutable fields replaced. The `id` is
    /// always inherited from `self`; no argument can change it.
    pub fn copy_with(&self, name: String, email: String, age: i32, active: bool) -> (r: User)
        ensures
            r@.id == self@.id,
            r@.name == name@,
            r@.email == email@,
            r@.age == age as int,
            r@.active == active,
    {
        User { id: self.id, name, email, age, active }
    }

    /// The display form `User(id=.., name='..', email='..')`.
    pub fn display(&self) -> (r: String)
        ensures
            r@ == user_repr(self@),
    {
        let mut out: Vec<char> = Vec::new();
        push_chars(&mut out, "User(id=");
        push_i32(&mut out, self.id);
        push_chars(&mut out, ", name='");
        push_chars(&mut out, self.name.as_str());
        push_chars(&mut out, "', email='");
        push_chars(&mut out, self.email.as_str());
        push_chars(&mut out, "')");
        chars_to_string(&out)
    }
}

} // verus!

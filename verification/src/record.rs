//! Loosely typed entities: a tagged scalar value, a record of named
//! members, and the entity type that the processing paths consume.
//!
//! An entity is either a loose record, whose members are found by name
//! lookup, or a typed `User`, whose fields are read directly. The spec
//! function `entity_member` gives both forms one mathematical account of
//! "read a member by name", distinguishing absence (`None`) from presence.

use vstd::prelude::*;
use vstd::string::StrSliceExecFns;
use vstd::string::StringExecFns;
use crate::user::User;

verus! {

/// A scalar member value of a loosely typed record.
#[derive(PartialEq, Eq, Debug)]
pub enum Value {
    Int(i32),
    Bool(bool),
    Text(String),
}

/// A loosely typed record: named members in insertion order. Lookup finds
/// the first member with the queried name.
#[derive(PartialEq, Eq, Debug)]
pub struct Record {
    pub members: Vec<(String, Value)>,
}

/// An input entity for the processing paths.
#[derive(PartialEq, Eq, Debug)]
pub enum Entity {
    /// A loose record, read through name lookup.
    Loose(Record),
    /// A typed user record, readable through direct field access.
    Typed(User),
}

/// First member of `ms` named `name`, if any.
pub open spec fn lookup_members(ms: Seq<(String, Value)>, name: Seq<char>) -> Option<Value>
    decreases ms.len(),
{
    if ms.len() == 0 {
        None
    } else if ms[0].0@ == name {
        Some(ms[0].1)
    } else {
        lookup_members(ms.drop_first(), name)
    }
}

/// The member a typed `User` exposes under `name`.
pub open spec fn typed_member(u: User, name: Seq<char>) -> Option<Value> {
    if name == "id"@ {
        Some(Value::Int(u.id))
    } else if name == "name"@ {
        Some(Value::Text(u.name))
    } else if name == "email"@ {
        Some(Value::Text(u.email))
    } else if name == "age"@ {
        Some(Value::Int(u.age))
    } else if name == "active"@ {
        Some(Value::Bool(u.active))
    } else {
        None
    }
}

/// The member `e` exposes under `name`, if any.
pub open spec fn entity_member(e: Entity, name: Seq<char>) -> Option<Value> {
    match e {
        Entity::Loose(r) => lookup_members(r.members@, name),
        Entity::Typed(u) => typed_member(u, name),
    }
}

/// Compares two string slices character by character.
pub fn str_eq_str(a: &str, b: &str) -> (r: bool)
    ensures
        r == (a@ == b@),
{
    let na = a.unicode_len();
    let nb = b.unicode_len();
    if na != nb {
        proof {
            assert(a@ != b@) by {
                if a@ == b@ {
                    assert(a@.len() == b@.len());
                }
            }
        }
        return false;
    }
    let mut i: usize = 0;
    while i < na
        invariant
            i <= na,
            na == a@.len(),
            na == b@.len(),
            forall|j: int| 0 <= j < i ==> a@[j] == b@[j],
        decreases na - i,
    {
        if a.get_char(i) != b.get_char(i) {
            return false;
        }
        i = i + 1;
    }
    proof {
        assert(a@ =~= b@);
    }
    true
}

/// An owned copy of a member value.
pub fn value_dup(v: &Value) -> (r: Value)
    ensures
        r == *v,
{
    match v {
        Value::Int(i) => Value::Int(*i),
        Value::Bool(b) => Value::Bool(*b),
        Value::Text(s) => Value::Text(s.clone()),
    }
}

impl Record {
    /// The first member named `name`, or `None` when the record has no
    /// such member.
    pub fn get(&self, name: &str) -> (r: Option<Value>)
        ensures
            r == lookup_members(self.members@, name@),
    {
        let n = self.members.len();
        let mut i: usize = 0;
        proof {
            assert(self.members@.skip(0) =~= self.members@);
        }
        while i < n
            invariant
                i <= n,
                n == self.members@.len(),
                lookup_members(self.members@, name@) == lookup_members(
                    self.members@.skip(i as int),
                    name@,
                ),
            decreases n - i,
        {
            let m = &self.members[i];
            proof {
                assert(self.members@.skip(i as int)[0] == self.members@[i as int]);
                assert(self.members@.skip(i as int).drop_first() =~= self.members@.skip(i + 1));
            }
            if str_eq_str(m.0.as_str(), name) {
                return Some(value_dup(&m.1));
            }
            i = i + 1;
        }
        proof {
            assert(self.members@.skip(n as int) =~= Seq::<(String, Value)>::empty());
        }
        None
    }
}

impl Entity {
    /// The member this entity exposes under `name`, if any.
    pub fn get_member(&self, name: &str) -> (r: Option<Value>)
        ensures
            r == entity_member(*self, name@),
    {
        match self {
            Entity::Loose(rec) => rec.get(name),
            Entity::Typed(u) => {
                if str_eq_str(name, "id") {
                    Some(Value::Int(u.id))
                } else if str_eq_str(name, "name") {
                    Some(Value::Text(u.name.clone()))
                } else if str_eq_str(name, "email") {
                    Some(Value::Text(u.email.clone()))
                } else if str_eq_str(name, "age") {
                    Some(Value::Int(u.age))
                } else if str_eq_str(name, "active") {
                    Some(Value::Bool(u.active))
                } else {
                    None
                }
            },
        }
    }
}

impl User {
    /// The five fields as a record of named members, in the canonical
    /// order id, name, email, age, active, with native value types.
    pub fn as_mapping(&self) -> (r: Record)
        ensures
            r.members@.len() == 5,
            r.members@[0].0@ == "id"@ && r.members@[0].1 == Value::Int(self.id),
            r.members@[1].0@ == "name"@ && r.members@[1].1 == Value::Text(self.name),
            r.members@[2].0@ == "email"@ && r.members@[2].1 == Value::Text(self.email),
            r.members@[3].0@ == "age"@ && r.members@[3].1 == Value::Int(self.age),
            r.members@[4].0@ == "active"@ && r.members@[4].1 == Value::Bool(self.active),
    {
        let mut members: Vec<(String, Value)> = Vec::new();
        members.push((String::from_str("id"), Value::Int(self.id)));
        members.push((String::from_str("name"), Value::Text(self.name.clone())));
        members.push((String::from_str("email"), Value::Text(self.email.clone())));
        members.push((String::from_str("age"), Value::Int(self.age)));
        members.push((String::from_str("active"), Value::Bool(self.active)));
        Record { members }
    }
}

} // verus!

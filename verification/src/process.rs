//! The two processing paths over a sequence of entities.
//!
//! Both paths scan the sequence once and accumulate the sum of ages and
//! the count of entities whose `active` member is true. The indirect path
//! reads members by name lookup; the direct path views each entity as a
//! typed `User` and reads the fields. A failed `active` lookup is fatal
//! for the plain indirect path and merely counted by its lenient variant;
//! a member of the wrong type always skips the single entity silently.

use vstd::prelude::*;
use vstd::string::StringExecFns;
use crate::errors::Error;
use crate::record::{Entity, Value, entity_member};

verus! {

/// The age the indirect path adds for `e`: the `age` member, when the
/// `active` member is the boolean true and `age` is an integer; zero
/// otherwise.
pub open spec fn contrib_age(e: Entity) -> int {
    match entity_member(e, "active"@) {
        Some(Value::Bool(true)) => match entity_member(e, "age"@) {
            Some(Value::Int(a)) => a as int,
            _ => 0,
        },
        _ => 0,
    }
}

/// Whether the indirect path counts `e` as active: both lookups succeed
/// with the right types and `active` is true.
pub open spec fn counts_active(e: Entity) -> bool {
    match entity_member(e, "active"@) {
        Some(Value::Bool(true)) => entity_member(e, "age"@) matches Some(Value::Int(_)),
        _ => false,
    }
}

/// Whether the `active` member is absent altogether: the one failure the
/// indirect path does not absorb silently.
pub open spec fn lacks_active(e: Entity) -> bool {
    entity_member(e, "active"@) is None
}

/// Sum of the ages the indirect path accumulates over `s`.
pub open spec fn tally_age(s: Seq<Entity>) -> int
    decreases s.len(),
{
    if s.len() == 0 {
        0
    } else {
        tally_age(s.drop_last()) + contrib_age(s.last())
    }
}

/// Count of the entities the indirect path counts as active over `s`.
pub open spec fn tally_count(s: Seq<Entity>) -> int
    decreases s.len(),
{
    if s.len() == 0 {
        0
    } else {
        tally_count(s.drop_last()) + if counts_active(s.last()) {
            1int
        } else {
            0int
        }
    }
}

/// Count of the entities whose `active` member is absent.
pub open spec fn tally_errors(s: Seq<Entity>) -> int
    decreases s.len(),
{
    if s.len() == 0 {
        0
    } else {
        tally_errors(s.drop_last()) + if lacks_active(s.last()) {
            1int
        } else {
            0int
        }
    }
}

/// Whether any entity of `s` lacks the `active` member.
pub open spec fn has_lookup_failure(s: Seq<Entity>) -> bool {
    exists|i: int| 0 <= i < s.len() && lacks_active(s[i])
}

/// The age the direct path adds for `e` (meaningful when `e` is typed).
pub open spec fn direct_age(e: Entity) -> int {
    match e {
        Entity::Typed(u) => if u.active {
            u.age as int
        } else {
            0
        },
        Entity::Loose(_) => 0,
    }
}

/// Whether the direct path counts `e` as active.
pub open spec fn direct_active(e: Entity) -> bool {
    match e {
        Entity::Typed(u) => u.active,
        Entity::Loose(_) => false,
    }
}

/// Sum of the ages the direct path accumulates over `s`.
pub open spec fn direct_tally_age(s: Seq<Entity>) -> int
    decreases s.len(),
{
    if s.len() == 0 {
        0
    } else {
        direct_tally_age(s.drop_last()) + direct_age(s.last())
    }
}

/// Count of the active entities on the direct path over `s`.
pub open spec fn direct_tally_count(s: Seq<Entity>) -> int
    decreases s.len(),
{
    if s.len() == 0 {
        0
    } else {
        direct_tally_count(s.drop_last()) + if direct_active(s.last()) {
            1int
        } else {
            0int
        }
    }
}

/// Whether every entity of `s` can be viewed as a typed `User`.
pub open spec fn all_typed(s: Seq<Entity>) -> bool {
    forall|i: int| 0 <= i < s.len() ==> s[i] is Typed
}

proof fn lemma_tallies_bounded(s: Seq<Entity>)
    ensures
        -0x8000_0000 * s.len() <= tally_age(s) <= 0x7FFF_FFFF * s.len(),
        0 <= tally_count(s) <= s.len(),
        0 <= tally_errors(s) <= s.len(),
        -0x8000_0000 * s.len() <= direct_tally_age(s) <= 0x7FFF_FFFF * s.len(),
        0 <= direct_tally_count(s) <= s.len(),
    decreases s.len(),
{
    if s.len() > 0 {
        lemma_tallies_bounded(s.drop_last());
    }
}

proof fn lemma_tally_step(s: Seq<Entity>, i: int)
    requires
        0 <= i < s.len(),
    ensures
        tally_age(s.take(i + 1)) == tally_age(s.take(i)) + contrib_age(s[i]),
        tally_count(s.take(i + 1)) == tally_count(s.take(i)) + if counts_active(s[i]) {
            1int
        } else {
            0int
        },
        tally_errors(s.take(i + 1)) == tally_errors(s.take(i)) + if lacks_active(s[i]) {
            1int
        } else {
            0int
        },
        direct_tally_age(s.take(i + 1)) == direct_tally_age(s.take(i)) + direct_age(s[i]),
        direct_tally_count(s.take(i + 1)) == direct_tally_count(s.take(i)) + if direct_active(
            s[i],
        ) {
            1int
        } else {
            0int
        },
{
    assert(s.take(i + 1).drop_last() =~= s.take(i));
    assert(s.take(i + 1).last() == s[i]);
}

/// Scans `entities` with member lookup, fail-fast: an entity without an
/// `active` member aborts the whole operation; a member of the wrong type
/// skips that entity silently. On success returns the total age of and
/// the number of the active entities.
pub fn process_indirect(entities: &Vec<Entity>) -> (r: Result<(i64, i64), Error>)
    requires
        entities@.len() <= 0xFFFF_FFFF,
    ensures
        match r {
            Ok(t) => !has_lookup_failure(entities@) && t.0 == tally_age(entities@) && t.1
                == tally_count(entities@),
            Err(e) => has_lookup_failure(entities@) && e is LookupFailure,
        },
{
    let ghost s = entities@;
    let n = entities.len();
    let mut total: i64 = 0;
    let mut count: i64 = 0;
    let mut i: usize = 0;
    while i < n
        invariant
            i <= n,
            n == s.len(),
            n <= 0xFFFF_FFFF,
            s == entities@,
            total == tally_age(s.take(i as int)),
            count == tally_count(s.take(i as int)),
            forall|j: int| 0 <= j < i ==> !lacks_active(s[j]),
        decreases n - i,
    {
        proof {
            lemma_tally_step(s, i as int);
            lemma_tallies_bounded(s.take(i as int));
            assert(s.take(i as int).len() == i as int);
        }
        let e = &entities[i];
        match e.get_member("active") {
            None => {
                return Err(Error::LookupFailure(String::from_str("entity has no member 'active'")));
            },
            Some(Value::Bool(true)) => {
                match e.get_member("age") {
                    Some(Value::Int(a)) => {
                        total = total + a as i64;
                        count = count + 1;
                    },
                    _ => {},
                }
            },
            Some(_) => {},
        }
        i = i + 1;
    }
    proof {
        assert(s.take(n as int) =~= s);
    }
    Ok((total, count))
}

/// The lenient scan behind the indirect benchmark: an entity without an
/// `active` member is counted as an error and skipped; everything else is
/// as in `process_indirect`. Returns total age, active count and the
/// error count.
pub fn process_indirect_counting(entities: &Vec<Entity>) -> (r: (i64, i64, i64))
    requires
        entities@.len() <= 0xFFFF_FFFF,
    ensures
        r.0 == tally_age(entities@),
        r.1 == tally_count(entities@),
        r.2 == tally_errors(entities@),
{
    let ghost s = entities@;
    let n = entities.len();
    let mut total: i64 = 0;
    let mut count: i64 = 0;
    let mut errors: i64 = 0;
    let mut i: usize = 0;
    while i < n
        invariant
            i <= n,
            n == s.len(),
            n <= 0xFFFF_FFFF,
            s == entities@,
            total == tally_age(s.take(i as int)),
            count == tally_count(s.take(i as int)),
            errors == tally_errors(s.take(i as int)),
        decreases n - i,
    {
        proof {
            lemma_tally_step(s, i as int);
            lemma_tallies_bounded(s.take(i as int));
            assert(s.take(i as int).len() == i as int);
        }
        let e = &entities[i];
        match e.get_member("active") {
            None => {
                errors = errors + 1;
            },
            Some(Value::Bool(true)) => {
                match e.get_member("age") {
                    Some(Value::Int(a)) => {
                        total = total + a as i64;
                        count = count + 1;
                    },
                    _ => {},
                }
            },
            Some(_) => {},
        }
        i = i + 1;
    }
    proof {
        assert(s.take(n as int) =~= s);
    }
    (total, count, errors)
}

/// Scans `entities` with direct field access: every entity must view as a
/// typed `User`, else the whole operation fails. On success returns the
/// total age of and the number of the active users.
pub fn process_direct(entities: &Vec<Entity>) -> (r: Result<(i64, i64), Error>)
    requires
        entities@.len() <= 0xFFFF_FFFF,
    ensures
        match r {
            Ok(t) => all_typed(entities@) && t.0 == direct_tally_age(entities@) && t.1
                == direct_tally_count(entities@),
            Err(e) => !all_typed(entities@) && e is ViewFailure,
        },
{
    let ghost s = entities@;
    let n = entities.len();
    let mut total: i64 = 0;
    let mut count: i64 = 0;
    let mut i: usize = 0;
    while i < n
        invariant
            i <= n,
            n == s.len(),
            n <= 0xFFFF_FFFF,
            s == entities@,
            total == direct_tally_age(s.take(i as int)),
            count == direct_tally_count(s.take(i as int)),
            forall|j: int| 0 <= j < i ==> s[j] is Typed,
        decreases n - i,
    {
        proof {
            lemma_tally_step(s, i as int);
            lemma_tallies_bounded(s.take(i as int));
            assert(s.take(i as int).len() == i as int);
        }
        match &entities[i] {
            Entity::Typed(u) => {
                if u.active {
                    total = total + u.age as i64;
                    count = count + 1;
                }
            },
            Entity::Loose(_) => {
                return Err(
                    Error::ViewFailure(String::from_str("entity is not a typed user record")),
                );
            },
        }
        i = i + 1;
    }
    proof {
        assert(s.take(n as int) =~= s);
    }
    Ok((total, count))
}

/// On a typed user, name lookup exposes exactly the five fields; in
/// particular `active` and `age` are present with their field values.
pub proof fn lemma_typed_entity_members(u: crate::user::User)
    ensures
        entity_member(Entity::Typed(u), "active"@) == Some(Value::Bool(u.active)),
        entity_member(Entity::Typed(u), "age"@) == Some(Value::Int(u.age)),
        contrib_age(Entity::Typed(u)) == direct_age(Entity::Typed(u)),
        counts_active(Entity::Typed(u)) == direct_active(Entity::Typed(u)),
        !lacks_active(Entity::Typed(u)),
{
    reveal_strlit("id");
    reveal_strlit("name");
    reveal_strlit("email");
    reveal_strlit("age");
    reveal_strlit("active");
    assert("active"@.len() == 6);
    assert("age"@.len() == 3);
}

/// The two access paths agree: over a sequence of entities that are all
/// typed users, the indirect tallies equal the direct tallies, and no
/// lookup failure arises, so both processing functions succeed with the
/// same total age and active count.
pub proof fn lemma_access_paths_agree(s: Seq<Entity>)
    requires
        all_typed(s),
    ensures
        tally_age(s) == direct_tally_age(s),
        tally_count(s) == direct_tally_count(s),
        !has_lookup_failure(s),
    decreases s.len(),
{
    if s.len() > 0 {
        assert(all_typed(s.drop_last())) by {
            assert(forall|i: int|
                0 <= i < s.len() - 1 ==> s.drop_last()[i] == s[i] && s[i] is Typed);
        }
        lemma_access_paths_agree(s.drop_last());
        let last = s.last();
        assert(last is Typed);
        lemma_typed_entity_members(last->Typed_0);
    }
    assert(forall|i: int| 0 <= i < s.len() ==> !lacks_active(s[i])) by {
        assert forall|i: int| 0 <= i < s.len() implies !lacks_active(s[i]) by {
            assert(s[i] is Typed);
            lemma_typed_entity_members(s[i]->Typed_0);
        }
    }
}

} // verus!

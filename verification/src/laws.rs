//! Laws of the registry.
//!
//! Each law is a statement about every register, map or option, proved from
//! the contracts and definitions of the other modules. The preconditions of
//! the register's operations are the spec functions `can_declare`,
//! `can_add_alternative` and `can_wire`; a call that one of them rules out is
//! a mistake in the calling program, and verified callers cannot make it.

use vstd::prelude::*;
use crate::error::{GetObjectError, GetObjectResult};
use crate::names::{
    lemma_name_lt_irreflexive, lemma_strictly_increasing_unique, name_lt, strictly_increasing,
};
use crate::object_map::ObjectMap;
use crate::reflect::{casts_to, Downcastable, OptionReflect};
use crate::register::Register;
use crate::wiring_option::OptionView;

verus! {

/// A name can be declared once only: in a register that came from another by
/// declaring `name`, as an option of whatever kind, `name` cannot be declared
/// again.
pub proof fn law_name_declared_once<Obj: ?Sized>(
    before: &Register<Obj>,
    after: &Register<Obj>,
    name: Seq<char>,
    option: OptionView<Obj>,
)
    requires
        after@ == before@.insert(name, option),
    ensures
        !after.can_declare(name),
{
}

/// Declared names stay declared: none of the register's operations, which all
/// put one option under one name, takes a name away.
pub proof fn law_names_persist<Obj: ?Sized>(
    before: &Register<Obj>,
    after: &Register<Obj>,
    changed: Seq<char>,
    option: OptionView<Obj>,
    name: Seq<char>,
)
    requires
        after@ == before@.insert(changed, option),
        !before.can_declare(name),
    ensures
        !after.can_declare(name),
{
}

/// An alternative name can be added to an option once only: in a register
/// that came from another by adding the alternative `alt_name` to the option
/// `opt_name`, that alternative cannot be added again.
pub proof fn law_alternative_added_once<Obj: ?Sized>(
    before: &Register<Obj>,
    after: &Register<Obj>,
    opt_name: Seq<char>,
    alt_name: Seq<char>,
    obj: Box<Obj>,
)
    requires
        before.can_add_alternative(opt_name, alt_name),
        after@ == before@.insert(opt_name, before@[opt_name].add_alternative(alt_name, obj)),
    ensures
        !after.can_add_alternative(opt_name, alt_name),
{
    let added = before@[opt_name].add_alternative(alt_name, obj);
    let last = added.alternatives().len() - 1;
    assert(added.named_at(alt_name, last));
}

/// A single option takes no alternatives, whatever their name.
pub proof fn law_single_takes_no_alternative<Obj: ?Sized>(
    register: &Register<Obj>,
    opt_name: Seq<char>,
    alt_name: Seq<char>,
)
    requires
        register@.contains_key(opt_name),
        register@[opt_name] is Single,
    ensures
        !register.can_add_alternative(opt_name, alt_name),
{
}

/// An alternative that does not exist cannot be wired.
pub proof fn law_missing_alternative_cannot_be_wired<Obj: ?Sized>(
    register: &Register<Obj>,
    opt_name: Seq<char>,
    alt_name: Seq<char>,
)
    requires
        !register@.contains_key(opt_name) || !register@[opt_name].has_alternative(alt_name),
    ensures
        !register.can_wire(opt_name, alt_name),
{
}

/// Wiring an alternative that exists makes the option resolve to the object
/// of that alternative, whatever was wired before, and leaves the option with
/// the alternatives it had.
pub proof fn law_wiring_resolves<Obj: ?Sized>(option: OptionView<Obj>, alt_name: Seq<char>)
    requires
        option.wf(),
        option.has_alternative(alt_name),
    ensures
        option.wire_alternative(alt_name).wf(),
        option.wire_alternative(alt_name).alternatives() == option.alternatives(),
        option.wire_alternative(alt_name).resolved() == Some(
            &*option.alternatives()[option.position(alt_name)].1,
        ),
        option.alternatives()[option.position(alt_name)].0 == alt_name,
{
    assert(option.named_at(alt_name, option.position(alt_name)));
}

/// Wiring the same alternative twice is the same as wiring it once.
pub proof fn law_wiring_idempotent<Obj: ?Sized>(option: OptionView<Obj>, alt_name: Seq<char>)
    requires
        option.wf(),
        option.has_alternative(alt_name),
    ensures
        option.wire_alternative(alt_name).has_alternative(alt_name),
        option.wire_alternative(alt_name).wire_alternative(alt_name) == option.wire_alternative(
            alt_name,
        ),
{
    let wired = option.wire_alternative(alt_name);
    assert forall|i: int| wired.named_at(alt_name, i) <==> option.named_at(alt_name, i) by {}
    assert(option.named_at(alt_name, option.position(alt_name)));
    assert(wired.named_at(alt_name, option.position(alt_name)));
    assert(option.named_at(alt_name, wired.position(alt_name)));
    assert(wired.position(alt_name) == option.position(alt_name));
}

/// Wiring can always be overwritten: after one alternative was wired, any
/// other alternative of the option can still be wired, and the option then is
/// what it would be had only that one been wired.
pub proof fn law_wiring_overwritable<Obj: ?Sized>(
    option: OptionView<Obj>,
    first: Seq<char>,
    second: Seq<char>,
)
    requires
        option.wf(),
        option.has_alternative(first),
        option.has_alternative(second),
    ensures
        option.wire_alternative(first).has_alternative(second),
        option.wire_alternative(first).wire_alternative(second) == option.wire_alternative(second),
{
    let wired = option.wire_alternative(first);
    assert forall|i: int| wired.named_at(second, i) <==> option.named_at(second, i) by {}
    assert(option.named_at(second, option.position(second)));
    assert(wired.named_at(second, option.position(second)));
    assert(option.named_at(second, wired.position(second)));
    assert(wired.position(second) == option.position(second));
}

/// The typed accessor reports a missing option exactly when the option that
/// `T` names resolves to nothing: when there is no such option, or it is a
/// multi option with nothing wired.
pub proof fn law_missing_option<T, Obj: ?Sized>(
    map: &ObjectMap<Obj>,
    name: &'static str,
    r: GetObjectResult<'_, &T>,
) where T: OptionReflect, Obj: Downcastable<T>
    requires
        map.wf(),
        map.answers(name, r),
    ensures
        r matches Err(GetObjectError::MissingOption(_)) <==> map.resolved(name@) is None,
        map.resolved(name@) is None <==> !map@.contains_key(name@) || (map@[name@] is Multi
            && map@[name@]->wired is None),
        r matches Err(GetObjectError::MissingOption(n)) ==> n == name,
{
}

/// For an option that resolves to an object, the typed accessor answers with
/// what the cast of that object to `T` gave: it reports a mismatch only where
/// the cast refused the object, it succeeds only where the cast accepted it,
/// and then returns what the cast gave; and it does one of the two.
pub proof fn law_type_mismatch<T, Obj: ?Sized>(
    map: &ObjectMap<Obj>,
    name: &'static str,
    r: GetObjectResult<'_, &T>,
) where T: OptionReflect, Obj: Downcastable<T>
    requires
        map.wf(),
        map.answers(name, r),
    ensures
        r matches Err(GetObjectError::TypeMismatch { .. }) ==> map.resolved(name@) matches Some(
            obj,
        ) && casts_to::<T, Obj>(obj, None),
        r matches Ok(object) ==> map.resolved(name@) matches Some(obj) && casts_to::<T, Obj>(
            obj,
            Some(object),
        ),
        map.resolved(name@) is Some ==> r is Ok || r matches Err(
            GetObjectError::TypeMismatch { .. },
        ),
{
}

/// The names of the entries of a run of names.
pub open spec fn entry_names<Obj: ?Sized>(entries: Seq<(Seq<char>, &Obj)>) -> Seq<Seq<char>> {
    entries.map_values(|e: (Seq<char>, &Obj)| e.0)
}

/// Of any strictly increasing run of names, the entries are those names that
/// resolve, each once, with the objects they resolve to, and in increasing
/// order.
proof fn lemma_entries_of<Obj: ?Sized>(map: &ObjectMap<Obj>, names: Seq<Seq<char>>)
    requires
        strictly_increasing(names),
    ensures
        strictly_increasing(entry_names(map.entries_of(names))),
        forall|name: Seq<char>, obj: &Obj| #[trigger]
            map.entries_of(names).contains((name, obj)) <==> names.contains(name) && map.resolved(
                name,
            ) == Some(obj),
        forall|i: int|
            0 <= i < map.entries_of(names).len() ==> names.contains(
                #[trigger] map.entries_of(names)[i].0,
            ),
        names.len() > 0 ==> forall|i: int|
            0 <= i < map.entries_of(names).len() ==> (#[trigger] map.entries_of(names)[i]).0
                == names[0] || name_lt(names[0], map.entries_of(names)[i].0),
    decreases names.len(),
{
    let entries = map.entries_of(names);
    if names.len() > 0 {
        let tail = names.drop_first();
        let rest = map.entries_of(tail);
        assert forall|i: int, j: int| 0 <= i < j < tail.len() implies name_lt(tail[i], tail[j]) by {
            assert(tail[i] == names[i + 1] && tail[j] == names[j + 1]);
        }
        lemma_entries_of(map, tail);
        assert forall|name: Seq<char>| tail.contains(name) implies names.contains(name)
            && name_lt(names[0], name) by {
            let k = choose|k: int| 0 <= k < tail.len() && tail[k] == name;
            assert(names[k + 1] == name);
        }
        assert forall|name: Seq<char>| names.contains(name) implies name == names[0]
            || tail.contains(name) by {
            let k = choose|k: int| 0 <= k < names.len() && names[k] == name;
            if k > 0 {
                assert(tail[k - 1] == name);
            }
        }
        assert(names.contains(names[0]));
        lemma_name_lt_irreflexive(names[0]);
        match map.resolved(names[0]) {
            Some(first) => {
                let head = seq![(names[0], first)];
                assert(entries == head + rest);
                assert forall|i: int| 0 <= i < entries.len() implies names.contains(
                    #[trigger] entries[i].0,
                ) && (entries[i].0 == names[0] || name_lt(names[0], entries[i].0)) by {
                    if i > 0 {
                        assert(entries[i] == rest[i - 1]);
                        assert(tail.contains(rest[i - 1].0));
                    }
                }
                assert forall|i: int, j: int| 0 <= i < j < entries.len() implies name_lt(
                    entry_names(entries)[i],
                    entry_names(entries)[j],
                ) by {
                    assert(entries[j] == rest[j - 1]);
                    assert(tail.contains(rest[j - 1].0));
                    if i > 0 {
                        assert(entries[i] == rest[i - 1]);
                        assert(name_lt(entry_names(rest)[i - 1], entry_names(rest)[j - 1]));
                    }
                }
                assert forall|name: Seq<char>, obj: &Obj| #[trigger]
                    entries.contains((name, obj)) <==> names.contains(name) && map.resolved(name)
                        == Some(obj) by {
                    if entries.contains((name, obj)) {
                        let k = choose|k: int| 0 <= k < entries.len() && entries[k] == (name, obj);
                        if k > 0 {
                            assert(rest[k - 1] == (name, obj));
                            assert(rest.contains((name, obj)));
                        }
                    }
                    if names.contains(name) && map.resolved(name) == Some(obj) {
                        if name == names[0] {
                            assert(entries[0] == (name, obj));
                        } else {
                            assert(rest.contains((name, obj)));
                            let k = choose|k: int| 0 <= k < rest.len() && rest[k] == (name, obj);
                            assert(entries[k + 1] == (name, obj));
                        }
                    }
                }
            },
            None => {
                assert(entries == rest);
                assert forall|i: int| 0 <= i < entries.len() implies names.contains(
                    #[trigger] entries[i].0,
                ) && (entries[i].0 == names[0] || name_lt(names[0], entries[i].0)) by {
                    assert(tail.contains(rest[i].0));
                }
                assert forall|name: Seq<char>, obj: &Obj| #[trigger]
                    entries.contains((name, obj)) <==> names.contains(name) && map.resolved(name)
                        == Some(obj) by {
                    if entries.contains((name, obj)) {
                        assert(tail.contains(name));
                    }
                }
            },
        }
    }
}

/// A walk over a map yields exactly the options that resolve to an object,
/// each once and with that object, in the increasing order of their names.
pub proof fn law_entries<Obj: ?Sized>(map: &ObjectMap<Obj>)
    requires
        map.wf(),
    ensures
        strictly_increasing(entry_names(map.entries())),
        forall|name: Seq<char>, obj: &Obj| #[trigger]
            map.entries().contains((name, obj)) <==> map.resolved(name) == Some(obj),
{
    map.lemma_wf();
    lemma_entries_of(map, map.names());
}

/// What a walk yields depends on the options alone, not on the order in which
/// they were declared: two maps with the same options yield the same.
pub proof fn law_entries_by_view<Obj: ?Sized>(a: &ObjectMap<Obj>, b: &ObjectMap<Obj>)
    requires
        a.wf(),
        b.wf(),
        a@ == b@,
    ensures
        a.names() == b.names(),
        a.entries() == b.entries(),
{
    a.lemma_wf();
    b.lemma_wf();
    lemma_strictly_increasing_unique(a.names(), b.names());
    lemma_same_entries(a, b, a.names());
}

/// Two maps with the same options have the same entries for any run of names.
proof fn lemma_same_entries<Obj: ?Sized>(
    a: &ObjectMap<Obj>,
    b: &ObjectMap<Obj>,
    names: Seq<Seq<char>>,
)
    requires
        a@ == b@,
    ensures
        a.entries_of(names) == b.entries_of(names),
    decreases names.len(),
{
    if names.len() > 0 {
        lemma_same_entries(a, b, names.drop_first());
    }
}

} // verus!

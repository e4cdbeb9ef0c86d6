//! What the typed accessor needs to know about types.
//!
//! Objects are stored behind a base type that has forgotten what they are. To
//! hand one back as the type it was stored as, the registry asks the embedding
//! program two things: each concrete type for the name of the option it lives
//! under, and the base type for a cast that is checked against the concrete
//! type of the object.
//!
//! Nothing is assumed of the answers. Contracts speak of them through the
//! predicates of this module, each of which says that a value is an answer
//! that the program could give.

use vstd::prelude::*;
use std::any::TypeId;

verus! {

/// `std::any::TypeId`, the identity of a type. Nothing is known of such a
/// value but whether it equals another.
#[verifier::external_type_specification]
#[verifier::external_body]
pub struct ExTypeId(TypeId);

/// Calls `TypeId::of`, which gives the identity of the type `T`. Nothing is
/// claimed of the value that comes back.
#[verifier::external_body]
fn type_id_of<T: ?Sized + 'static>() -> TypeId {
    TypeId::of::<T>()
}

/// What a concrete type declares of itself: the name of the option under which
/// its objects are wired.
pub trait OptionReflect: 'static {
    /// The name of the option that objects of this type are wired to.
    fn option_name() -> &'static str;
}

/// A base type whose values can report their concrete type and be cast to
/// `T`. The cast is expected to be checked: to give the object itself where
/// its concrete type is `T`, and nothing otherwise.
pub trait Downcastable<T> {
    /// The identity of the concrete type of this object.
    fn object_type(&self) -> TypeId;

    /// This object as a `T`, if that is its concrete type.
    fn downcast_ref(&self) -> Option<&T>;

    /// This object as a `T`, if that is its concrete type, for changing it in
    /// place.
    fn downcast_mut(&mut self) -> Option<&mut T>;
}

/// `name` is an answer of `T` to the question of its option's name.
pub open spec fn reflects_name<T: OptionReflect + ?Sized>(name: &'static str) -> bool {
    call_ensures(T::option_name, (), name)
}

/// `id` is an identity that `TypeId::of` gives for `T`.
pub closed spec fn identifies<T: ?Sized + 'static>(id: TypeId) -> bool {
    call_ensures(type_id_of::<T>, (), id)
}

/// The identity of the type `T`.
pub(crate) fn type_of<T: ?Sized + 'static>() -> (id: TypeId)
    ensures
        identifies::<T>(id),
{
    type_id_of::<T>()
}

/// `id` is an answer of `obj` to the question of its concrete type.
pub open spec fn reports_type<T, Obj: Downcastable<T> + ?Sized>(obj: &Obj, id: TypeId) -> bool {
    call_ensures(<Obj as Downcastable<T>>::object_type, (obj,), id)
}

/// `cast` is an answer of `obj` to the request to be cast to `T`.
pub open spec fn casts_to<T, Obj: Downcastable<T> + ?Sized>(obj: &Obj, cast: Option<&T>) -> bool {
    call_ensures(<Obj as Downcastable<T>>::downcast_ref, (obj,), cast)
}

/// `cast` is an answer of `obj` to the request to be cast to `T` for changing
/// it in place.
#[verifier::inline]
pub open spec fn casts_to_mut<T, Obj: Downcastable<T> + ?Sized>(
    obj: &mut Obj,
    cast: Option<&mut T>,
) -> bool {
    call_ensures(<Obj as Downcastable<T>>::downcast_mut, (obj,), cast)
}

} // verus!

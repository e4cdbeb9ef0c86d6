//! Access by type.
//!
//! A concrete type names the option that its objects are wired to. The typed
//! accessors look that option up, ask the object it resolves to for a cast to
//! the type, and answer with the object as that type or with the reason why
//! there is none: the cast is never taken on trust, and a wrong type is an
//! error value, not a fault.

use vstd::prelude::*;
use std::any::TypeId;
use crate::error::{GetObjectError, GetObjectResult};
use crate::object_map::ObjectMap;
use crate::reflect::{
    casts_to, casts_to_mut, identifies, reflects_name, reports_type, Downcastable, OptionReflect,
};

verus! {

/// `r` is the answer that follows, for a lookup of `T`, from what the cast of
/// an object gave and from the identity `found` that the object reported: the
/// object as the cast gave it, or else a mismatch that carries a name that `T`
/// gave for its option, the identity of `T`, and `found`.
pub open spec fn follows_cast<T: OptionReflect, R>(
    cast: Option<R>,
    found: TypeId,
    r: GetObjectResult<'_, R>,
) -> bool {
    match cast {
        Some(object) => r == Ok::<R, GetObjectError<'_>>(object),
        None => {
            &&& r matches Err(GetObjectError::TypeMismatch { option_name, expected, found: f })
            &&& reflects_name::<T>(option_name)
            &&& identifies::<T>(expected)
            &&& f == found
        },
    }
}

/// The answer of a typed lookup of `T` whose option resolves to an object,
/// given what the cast of that object gave and the identity that the object
/// reported.
pub fn cast_answer<T: OptionReflect, R>(cast: Option<R>, found: TypeId) -> (r: GetObjectResult<
    'static,
    R,
>)
    ensures
        follows_cast::<T, R>(cast, found, r),
{
    match cast {
        Some(object) => Ok(object),
        None => Err(GetObjectError::type_mismatch::<T>(found)),
    }
}

impl<Obj: ?Sized> ObjectMap<Obj> {
    /// `r` is an answer to a typed lookup of `T` in this map, where `name` is
    /// the name that `T` gave for its option.
    ///
    /// Where the option resolves to nothing, the answer is that it is missing.
    /// Where it resolves to an object, that very object was asked for its
    /// concrete type and for a cast to `T`, and the answer is the one that
    /// follows from what it gave.
    pub open spec fn answers<T: OptionReflect>(
        &self,
        name: &'static str,
        r: GetObjectResult<'_, &T>,
    ) -> bool where Obj: Downcastable<T> {
        match self.resolved(name@) {
            None => r == Err::<&T, GetObjectError<'_>>(GetObjectError::MissingOption(name)),
            Some(obj) => exists|found: TypeId, cast: Option<&T>|
                {
                    &&& #[trigger] reports_type::<T, Obj>(obj, found)
                    &&& #[trigger] casts_to::<T, Obj>(obj, cast)
                    &&& follows_cast::<T, &T>(cast, found, r)
                },
        }
    }

    /// Gets the object wired to the option of `T` immutably, then tries to
    /// downcast it.
    pub fn get<T: OptionReflect>(&self) -> (r: GetObjectResult<'_, &T>) where Obj: Downcastable<T>
        requires
            self.wf(),
        ensures
            exists|name: &'static str| #[trigger] reflects_name::<T>(name) && self.answers(name, r),
    {
        let name = T::option_name();
        assert(reflects_name::<T>(name));
        match self.get_object(name) {
            Some(base) => {
                let found = Downcastable::<T>::object_type(base);
                let cast = Downcastable::<T>::downcast_ref(base);
                assert(reports_type::<T, Obj>(base, found));
                assert(casts_to::<T, Obj>(base, cast));
                cast_answer::<T, &T>(cast, found)
            },
            None => Err(GetObjectError::MissingOption(name)),
        }
    }

    /// Gets the object wired to the option of `T` mutably, then tries to
    /// downcast it.
    ///
    /// Where the option that `T` names resolves to nothing, the answer is that
    /// it is missing, and the map stays as it is. Where it resolves to an
    /// object, that very object was asked for its concrete type and then lent
    /// to the cast; the answer is the one that follows from what it gave; and
    /// the map then resolves the option to what the object has become.
    /// Whatever the cast does and whatever is then done to the object, the map
    /// keeps its options, their alternatives and what is wired.
    pub fn get_mut<T: OptionReflect>(&mut self) -> (r: GetObjectResult<'_, &mut T>) where
        Obj: Downcastable<T>,

        requires
            old(self).wf(),
        ensures
            final(self).wf(),
            exists|name: &'static str|
                {
                    &&& #[trigger] reflects_name::<T>(name)
                    &&& old(self).same_but_resolved(final(self), name@)
                    &&& match old(self).resolved(name@) {
                        None => {
                            &&& r matches Err(GetObjectError::MissingOption(option_name))
                            &&& option_name == name
                            &&& final(self)@ == old(self)@
                        },
                        Some(obj) => exists|base: &mut Obj, cast: Option<&mut T>|
                            {
                                &&& #[trigger] casts_to_mut::<T, Obj>(base, cast)
                                &&& &*base == obj
                                &&& final(self).resolved(name@) == Some(&*final(base))
                                &&& exists|found: TypeId| #[trigger]
                                    reports_type::<T, Obj>(obj, found) && follows_cast::<T, &mut T>(
                                        cast,
                                        found,
                                        r,
                                    )
                            },
                    }
                },
    {
        let name = T::option_name();
        assert(reflects_name::<T>(name));
        match self.get_object_mut(name) {
            Some(base) => {
                let found = Downcastable::<T>::object_type(base);
                assert(reports_type::<T, Obj>(&*base, found));
                cast_answer::<T, &mut T>(Downcastable::<T>::downcast_mut(base), found)
            },
            None => Err(GetObjectError::MissingOption(name)),
        }
    }
}

} // verus!

//! The ways in which the typed accessor fails.

use vstd::prelude::*;
use std::any::TypeId;
use crate::reflect::{identifies, reflects_name, type_of, OptionReflect};

verus! {

/// Why an object could not be handed out as the type that was asked for.
#[derive(Debug, Clone, Copy)]
pub enum GetObjectError<'a> {
    /// The option resolves to an object, but of another type.
    TypeMismatch {
        /// The option that was looked up.
        option_name: &'a str,
        /// The identity of the type that was asked for.
        expected: TypeId,
        /// The identity of the concrete type of the object that was found.
        found: TypeId,
    },
    /// There is no option of that name, or it is not wired to anything.
    MissingOption(&'a str),
}

impl<'a> GetObjectError<'a> {
    /// The error for an object of type `found` under the option of `Expected`:
    /// it carries the name that `Expected` gives for its option and the
    /// identity of `Expected`.
    pub fn type_mismatch<Expected>(found: TypeId) -> (e: GetObjectError<'static>) where
        Expected: OptionReflect,

        ensures
            e matches GetObjectError::TypeMismatch { option_name, expected, found: f }
                && reflects_name::<Expected>(option_name) && identifies::<Expected>(expected)
                && f == found,
    {
        GetObjectError::TypeMismatch {
            option_name: Expected::option_name(),
            expected: type_of::<Expected>(),
            found,
        }
    }
}

/// What the typed accessor returns.
pub type GetObjectResult<'a, T> = Result<T, GetObjectError<'a>>;

} // verus!

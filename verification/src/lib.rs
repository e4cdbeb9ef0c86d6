//! A typed wiring registry.
//!
//! A program is assembled from parts that can be swapped: under the name of
//! an *option* it declares one object, or several *alternatives* of which at
//! most one is *wired*, and later asks for the object that an option resolves
//! to, by name or by its type.
//!
//! - [`Register`] declares options, adds alternatives and wires them. Its
//!   operations have preconditions instead of errors: a name declared twice is
//!   a mistake in the program, not in its input.
//! - [`ObjectMap`] is what the register builds. It owns the objects and lends
//!   them out: by name, by type, or all of them in the order of the names.
//! - [`WiringOption`] is the state of one option.
//! - [`OptionReflect`] and [`Downcastable`] are what access by type asks of
//!   the program: the name of the option that a type lives under, and a
//!   checked cast from the base type of the objects to that type.
//!
//! Contracts speak of a map as a mathematical map from names to the models of
//! its options, and of names as sequences of characters. The module [`laws`]
//! states what holds of every register and every map.

pub mod error;
pub mod laws;
pub mod names;
pub mod object_map;
pub mod reflect;
pub mod register;
pub mod typed;
pub mod wiring_option;

pub use error::{GetObjectError, GetObjectResult};
pub use object_map::{Iter, IterMut, ObjectMap};
pub use reflect::{Downcastable, OptionReflect};
pub use register::Register;
pub use wiring_option::{OptionView, WiringOption};

//! The register: where options are declared, filled and wired.
//!
//! A [`Register`] owns an [`ObjectMap`] and is the only thing that changes its
//! structure. Its operations are meant for the setup of a program, where a
//! name declared twice or an alternative that does not exist is a mistake in
//! the program itself: such calls are ruled out by the preconditions rather
//! than answered with an error.

use vstd::prelude::*;
use crate::object_map::ObjectMap;
use crate::wiring_option::{OptionView, WiringOption};

verus! {

/// The builder of an [`ObjectMap`].
pub struct Register<Obj: ?Sized> {
    /// The map that is being built. Readers may take it from here at any time.
    pub objects: ObjectMap<Obj>,
}

impl<Obj: ?Sized> View for Register<Obj> {
    type V = Map<Seq<char>, OptionView<Obj>>;

    /// The options of the map that is being built, by name.
    open spec fn view(&self) -> Map<Seq<char>, OptionView<Obj>> {
        self.objects@
    }
}

impl<Obj: ?Sized> Register<Obj> {
    /// The register meets its invariant: its map does.
    pub open spec fn wf(&self) -> bool {
        self.objects.wf()
    }

    /// `name` can be declared: no option of that name exists yet.
    pub open spec fn can_declare(&self, name: Seq<char>) -> bool {
        !self@.contains_key(name)
    }

    /// An alternative called `alt_name` can be added to the option called
    /// `opt_name`: the option exists, takes alternatives, and has none of that
    /// name yet.
    pub open spec fn can_add_alternative(&self, opt_name: Seq<char>, alt_name: Seq<char>) -> bool {
        &&& self@.contains_key(opt_name)
        &&& self@[opt_name] is Multi
        &&& !self@[opt_name].has_alternative(alt_name)
    }

    /// The alternative called `alt_name` of the option called `opt_name` can
    /// be wired: both exist.
    pub open spec fn can_wire(&self, opt_name: Seq<char>, alt_name: Seq<char>) -> bool {
        &&& self@.contains_key(opt_name)
        &&& self@[opt_name].has_alternative(alt_name)
    }

    /// A register without options.
    pub fn new() -> (register: Register<Obj>)
        ensures
            register.wf(),
            register@ == Map::<Seq<char>, OptionView<Obj>>::empty(),
    {
        Register { objects: ObjectMap::new() }
    }

    /// Adds a option to the register: one without alternatives, wired to
    /// nothing. The name is taken from then on.
    pub fn add_option(&mut self, name: String)
        requires
            old(self).wf(),
            old(self).can_declare(name@),
        ensures
            final(self).wf(),
            final(self)@ == old(self)@.insert(name@, OptionView::empty()),
            !final(self).can_declare(name@),
    {
        let option = WiringOption::Multi { wired: None, alternatives: Vec::new() };
        assert(option@ =~= OptionView::<Obj>::empty()) by {
            assert(option@->alternatives =~= Seq::empty());
        }
        self.objects.insert_option(name, option);
    }

    /// Adds an alternative to an option of the register. What the option is
    /// wired to does not change. The name of the alternative is taken from
    /// then on, and the alternative can be wired.
    pub fn add_alternative(&mut self, opt_name: &str, alt_name: String, obj: Box<Obj>)
        requires
            old(self).wf(),
            old(self).can_add_alternative(opt_name@, alt_name@),
        ensures
            final(self).wf(),
            final(self)@ == old(self)@.insert(
                opt_name@,
                old(self)@[opt_name@].add_alternative(alt_name@, obj),
            ),
            !final(self).can_add_alternative(opt_name@, alt_name@),
            final(self).can_wire(opt_name@, alt_name@),
    {
        let ghost added = old(self)@[opt_name@].add_alternative(alt_name@, obj);
        let option = self.objects.option_mut(opt_name);
        option.add_alternative(alt_name, obj);
        assert(added.named_at(alt_name@, added.alternatives().len() - 1));
    }

    /// Wires an alternative of an option of this register, in place of what
    /// was wired before: the option resolves to the object of that
    /// alternative, and can be wired again.
    pub fn wire_alternative(&mut self, opt_name: &str, alt_name: &str)
        requires
            old(self).wf(),
            old(self).can_wire(opt_name@, alt_name@),
        ensures
            final(self).wf(),
            final(self)@ == old(self)@.insert(
                opt_name@,
                old(self)@[opt_name@].wire_alternative(alt_name@),
            ),
            final(self).can_wire(opt_name@, alt_name@),
            final(self).objects.resolved(opt_name@) == Some(
                &*old(self)@[opt_name@].alternatives()[old(self)@[opt_name@].position(
                    alt_name@,
                )].1,
            ),
    {
        let ghost before = old(self)@[opt_name@];
        let option = self.objects.option_mut(opt_name);
        option.wire_alternative(alt_name);
        assert(before.named_at(alt_name@, before.position(alt_name@)));
        assert(before.wire_alternative(alt_name@).named_at(alt_name@, before.position(alt_name@)));
    }

    /// Adds a single alternative option to the register: it holds `obj` and
    /// resolves to it at once. The name is taken from then on.
    pub fn add_single(&mut self, name: String, obj: Box<Obj>)
        requires
            old(self).wf(),
            old(self).can_declare(name@),
        ensures
            final(self).wf(),
            final(self)@ == old(self)@.insert(name@, OptionView::Single(obj)),
            !final(self).can_declare(name@),
            final(self).objects.resolved(name@) == Some(&*obj),
    {
        self.objects.insert_option(name, WiringOption::Single(obj));
    }
}

} // verus!

//! The collection of options, keyed by name.
//!
//! An [`ObjectMap`] owns every option and, through them, every object. Readers
//! get borrowed objects out of it, by raw name or by type; the structure of
//! the map (which options there are, their alternatives, what is wired) is
//! changed by the register alone.
//!
//! The options are kept in a vector sorted by name, so that a lookup is a
//! binary search and a walk over the map follows the order of names.

use vstd::prelude::*;
use crate::names::{
    lemma_name_lt_irreflexive, lemma_name_lt_transitive, name_lt, order_names,
    strictly_increasing, NameOrder,
};
use crate::wiring_option::{OptionView, WiringOption};

mod iteration;

pub use iteration::{Iter, IterMut};

verus! {

/// The names of a run of stored options, in the order in which they are stored.
spec fn stored_names<Obj: ?Sized>(options: Seq<(String, WiringOption<Obj>)>) -> Seq<
    Seq<char>,
> {
    options.map_values(|e: (String, WiringOption<Obj>)| e.0@)
}

/// Of a run of stored options, those that resolve to an object, in the same
/// order, each with its name and the object it resolves to.
spec fn stored_entries<'a, Obj: ?Sized>(options: Seq<(String, WiringOption<Obj>)>) -> Seq<
    (Seq<char>, &'a Obj),
>
    decreases options.len(),
{
    if options.len() == 0 {
        Seq::empty()
    } else {
        let rest = stored_entries(options.drop_first());
        match options[0].1@.resolved() {
            Some(obj) => seq![(options[0].0@, obj)] + rest,
            None => rest,
        }
    }
}

/// An ordered map from option names to options.
pub struct ObjectMap<Obj: ?Sized> {
    /// The options with their names, strictly increasing by name.
    options: Vec<(String, WiringOption<Obj>)>,
}

impl<Obj: ?Sized> View for ObjectMap<Obj> {
    type V = Map<Seq<char>, OptionView<Obj>>;

    /// The options by name.
    closed spec fn view(&self) -> Map<Seq<char>, OptionView<Obj>> {
        Map::new(
            |name: Seq<char>| exists|i: int| self.stored_at(name, i),
            |name: Seq<char>| self.options@[choose|i: int| self.stored_at(name, i)].1@,
        )
    }
}

impl<Obj: ?Sized> ObjectMap<Obj> {
    /// The option called `name` is stored at position `i`.
    spec fn stored_at(&self, name: Seq<char>, i: int) -> bool {
        0 <= i < self.options.len() && self.options@[i].0@ == name
    }

    /// The map meets its invariant: the stored names are strictly increasing,
    /// so that no name occurs twice, and every option meets its own invariant.
    pub closed spec fn wf(&self) -> bool {
        &&& strictly_increasing(stored_names(self.options@))
        &&& forall|i: int| 0 <= i < self.options.len() ==> (#[trigger] self.options@[i]).1.wf()
    }

    /// The names of the options, in the order of names.
    pub closed spec fn names(&self) -> Seq<Seq<char>> {
        stored_names(self.options@)
    }

    /// The object that the option called `name` resolves to, if there is such
    /// an option and it resolves to one.
    pub open spec fn resolved(&self, name: Seq<char>) -> Option<&Obj> {
        if self@.contains_key(name) {
            self@[name].resolved()
        } else {
            None
        }
    }

    /// Of `names`, those that resolve to an object, in the same order, each
    /// with the object it resolves to.
    pub open spec fn entries_of(&self, names: Seq<Seq<char>>) -> Seq<(Seq<char>, &Obj)>
        decreases names.len(),
    {
        if names.len() == 0 {
            Seq::empty()
        } else {
            let rest = self.entries_of(names.drop_first());
            match self.resolved(names[0]) {
                Some(obj) => seq![(names[0], obj)] + rest,
                None => rest,
            }
        }
    }

    /// What a walk over the map yields: the options that resolve to an object,
    /// in the order of their names, each with that object.
    pub open spec fn entries(&self) -> Seq<(Seq<char>, &Obj)> {
        self.entries_of(self.names())
    }

    /// A name is stored at one position only.
    proof fn lemma_stored_once(&self, name: Seq<char>, i: int, j: int)
        requires
            strictly_increasing(stored_names(self.options@)),
            self.stored_at(name, i),
            self.stored_at(name, j),
        ensures
            i == j,
    {
        let names = stored_names(self.options@);
        lemma_name_lt_irreflexive(name);
        if i < j {
            assert(name_lt(names[i], names[j]));
        } else if j < i {
            assert(name_lt(names[j], names[i]));
        }
    }

    /// What is stored at position `i` is what the view holds under its name.
    proof fn lemma_view_at(&self, i: int)
        requires
            strictly_increasing(stored_names(self.options@)),
            0 <= i < self.options.len(),
        ensures
            self@.contains_key(self.options@[i].0@),
            self@[self.options@[i].0@] == self.options@[i].1@,
    {
        let name = self.options@[i].0@;
        assert(self.stored_at(name, i));
        let j = choose|j: int| self.stored_at(name, j);
        self.lemma_stored_once(name, i, j);
    }

    /// What the invariant of the map says of its view: the names are those of
    /// the view, each once and in increasing order, and every option meets its
    /// own invariant.
    pub proof fn lemma_wf(&self)
        requires
            self.wf(),
        ensures
            strictly_increasing(self.names()),
            forall|name: Seq<char>| self@.contains_key(name) <==> self.names().contains(name),
            forall|name: Seq<char>| self@.contains_key(name) ==> (#[trigger] self@[name]).wf(),
            self@.dom().finite(),
    {
        let names = self.names();
        assert forall|name: Seq<char>| self@.contains_key(name) <==> names.contains(
            name,
        ) by {
            if self@.contains_key(name) {
                let i = choose|i: int| self.stored_at(name, i);
                assert(names[i] == name);
            }
            if names.contains(name) {
                let i = choose|i: int| 0 <= i < names.len() && names[i] == name;
                assert(self.stored_at(name, i));
            }
        }
        assert forall|name: Seq<char>| self@.contains_key(name) implies (#[trigger] self@[name]).wf() by {
            let i = choose|i: int| self.stored_at(name, i);
            self.lemma_view_at(i);
            assert(self.options@[i].1.wf());
        }
        assert(self@.dom() =~= names.to_set());
        vstd::seq_lib::seq_to_set_is_finite(names);
    }

    /// From any position on, the stored options that resolve are the entries
    /// of the names stored there.
    proof fn lemma_stored_entries(&self, from: int)
        requires
            self.wf(),
            0 <= from <= self.options.len(),
        ensures
            stored_entries(self.options@.skip(from)) == self.entries_of(self.names().skip(from)),
        decreases self.options.len() - from,
    {
        let options = self.options@.skip(from);
        let names = self.names().skip(from);
        if from < self.options.len() {
            assert(options.drop_first() =~= self.options@.skip(from + 1));
            assert(names.drop_first() =~= self.names().skip(from + 1));
            self.lemma_view_at(from);
            self.lemma_stored_entries(from + 1);
        }
    }

    /// A map without options.
    pub(crate) fn new() -> (map: Self)
        ensures
            map.wf(),
            map@ == Map::<Seq<char>, OptionView<Obj>>::empty(),
    {
        let map = ObjectMap { options: Vec::new() };
        assert(map@ =~= Map::<Seq<char>, OptionView<Obj>>::empty());
        map
    }

    /// Where the option called `name` is stored, or else where it would have
    /// to go to keep the names in order.
    fn search(&self, name: &str) -> (r: Result<usize, usize>)
        requires
            self.wf(),
        ensures
            match r {
                Ok(i) => self.stored_at(name@, i as int),
                Err(i) => {
                    &&& i <= self.options.len()
                    &&& !self@.contains_key(name@)
                    &&& forall|j: int| 0 <= j < i ==> name_lt(self.names()[j], name@)
                    &&& forall|j: int|
                        i <= j < self.options.len() ==> name_lt(name@, self.names()[j])
                },
            },
    {
        let ghost names = self.names();
        let mut low: usize = 0;
        let mut high: usize = self.options.len();
        while low < high
            invariant
                low <= high <= self.options.len(),
                names == self.names(),
                strictly_increasing(names),
                forall|j: int| 0 <= j < low ==> name_lt(names[j], name@),
                forall|j: int| high <= j < self.options.len() ==> name_lt(name@, names[j]),
            decreases high - low,
        {
            let mid = low + (high - low) / 2;
            match order_names(self.options[mid].0.as_str(), name) {
                NameOrder::Same => {
                    return Ok(mid);
                },
                NameOrder::Before => {
                    assert forall|j: int| 0 <= j < mid + 1 implies name_lt(names[j], name@) by {
                        if j < mid {
                            lemma_name_lt_transitive(names[j], names[mid as int], name@);
                        }
                    }
                    low = mid + 1;
                },
                NameOrder::After => {
                    assert forall|j: int| mid <= j < self.options.len() implies name_lt(
                        name@,
                        names[j],
                    ) by {
                        if mid < j {
                            lemma_name_lt_transitive(name@, names[mid as int], names[j]);
                        }
                    }
                    high = mid;
                },
            }
        }
        proof {
            if self@.contains_key(name@) {
                let j = choose|j: int| self.stored_at(name@, j);
                assert(names[j] == name@);
                lemma_name_lt_irreflexive(name@);
            }
        }
        Err(low)
    }

    /// Whether there is an option called `name`, wired or not.
    pub fn contains_option(&self, name: &str) -> (r: bool)
        requires
            self.wf(),
        ensures
            r == self@.contains_key(name@),
    {
        self.search(name).is_ok()
    }

    /// Gets the object wired to option `opt_name` immutably.
    pub fn get_object(&self, opt_name: &str) -> (r: Option<&Obj>)
        requires
            self.wf(),
        ensures
            r == self.resolved(opt_name@),
    {
        match self.search(opt_name) {
            Ok(i) => {
                proof {
                    self.lemma_view_at(i as int);
                }
                self.options[i].1.object()
            },
            Err(_) => None,
        }
    }

    /// `other` is this map with, at most, another value in place of the object
    /// that the option called `name` resolves to: the options, their names and
    /// their order are the same, every other option is unchanged, and the
    /// option called `name` is the same but for that object.
    pub open spec fn same_but_resolved(&self, other: &Self, name: Seq<char>) -> bool {
        &&& other.names() == self.names()
        &&& other@.dom() =~= self@.dom()
        &&& forall|n: Seq<char>|
            self@.contains_key(n) && n != name ==> #[trigger] other@[n] == self@[n]
        &&& self@.contains_key(name) ==> self@[name].same_but_resolved(other@[name])
    }

    /// A map with the same names and the same view is the same but for no
    /// object at all.
    proof fn lemma_same_map(&self, other: &Self, name: Seq<char>)
        requires
            self.wf(),
            other@ == self@,
            other.names() == self.names(),
        ensures
            self.same_but_resolved(other, name),
    {
        self.lemma_wf();
        if self@.contains_key(name) {
            let option = self@[name];
            assert(option.wf());
            assert(option.same_but_resolved(option));
        }
    }

    /// `other` is this map with, at most, other values in place of the objects
    /// that its options resolve to: the options, their names and their order
    /// are the same, and each option is the same but for that object.
    pub open spec fn same_but_objects(&self, other: &Self) -> bool {
        &&& other.names() == self.names()
        &&& other@.dom() =~= self@.dom()
        &&& forall|name: Seq<char>|
            self@.contains_key(name) ==> (#[trigger] self@[name]).same_but_resolved(other@[name])
    }

    /// Two maps that store the same names, and at each position options that
    /// are the same but for the object they resolve to, are the same but for
    /// those objects.
    proof fn lemma_same_but_objects(&self, other: &Self)
        requires
            self.wf(),
            other.options.len() == self.options.len(),
            forall|i: int|
                0 <= i < self.options.len() ==> (#[trigger] other.options@[i]).0@
                    == self.options@[i].0@,
            forall|i: int|
                0 <= i < self.options.len() ==> self.options@[i].1@.same_but_resolved(
                    (#[trigger] other.options@[i]).1@,
                ),
            forall|i: int| 0 <= i < self.options.len() ==> (#[trigger] other.options@[i]).1.wf(),
        ensures
            other.wf(),
            self.same_but_objects(other),
    {
        assert(other.names() =~= self.names());
        assert forall|name: Seq<char>, i: int| other.stored_at(name, i) <==> self.stored_at(
            name,
            i,
        ) by {
            if 0 <= i < self.options.len() {
                assert(other.options@[i].0@ == self.options@[i].0@);
            }
        }
        assert forall|name: Seq<char>| self@.contains_key(name) <==> other@.contains_key(
            name,
        ) by {
            if self@.contains_key(name) {
                let i = choose|i: int| self.stored_at(name, i);
                assert(other.stored_at(name, i));
            }
            if other@.contains_key(name) {
                let i = choose|i: int| other.stored_at(name, i);
                assert(self.stored_at(name, i));
            }
        }
        assert forall|name: Seq<char>| self@.contains_key(name) implies (#[trigger] self@[name])
            .same_but_resolved(other@[name]) by {
            let i = choose|i: int| self.stored_at(name, i);
            assert(other.stored_at(name, i));
            self.lemma_view_at(i);
            other.lemma_view_at(i);
            assert(self.options@[i].1@.same_but_resolved(other.options@[i].1@));
        }
    }

    /// Two maps that store the same names, and the same options but at
    /// position `i`, differ in their views only under the name stored there.
    proof fn lemma_replaced_at(&self, other: &Self, i: int)
        requires
            strictly_increasing(stored_names(self.options@)),
            0 <= i < self.options.len(),
            other.options.len() == self.options.len(),
            forall|j: int|
                0 <= j < self.options.len() ==> (#[trigger] other.options@[j]).0@
                    == self.options@[j].0@,
            forall|j: int|
                0 <= j < self.options.len() && j != i ==> (#[trigger] other.options@[j]).1@
                    == self.options@[j].1@,
        ensures
            other.names() == self.names(),
            other@ == self@.insert(self.options@[i].0@, other.options@[i].1@),
    {
        assert(other.names() =~= self.names());
        assert forall|n: Seq<char>, j: int| other.stored_at(n, j) <==> self.stored_at(n, j) by {
            if 0 <= j < self.options.len() {
                assert(other.options@[j].0@ == self.options@[j].0@);
            }
        }
        let name = self.options@[i].0@;
        let expected = self@.insert(name, other.options@[i].1@);
        assert forall|n: Seq<char>| other@.contains_key(n) <==> expected.contains_key(n) by {
            if other@.contains_key(n) {
                let j = choose|j: int| other.stored_at(n, j);
                assert(self.stored_at(n, j));
            }
            if expected.contains_key(n) {
                if n == name {
                    assert(other.stored_at(n, i));
                } else {
                    let j = choose|j: int| self.stored_at(n, j);
                    assert(other.stored_at(n, j));
                }
            }
        }
        assert forall|n: Seq<char>| other@.contains_key(n) implies other@[n] == expected[n] by {
            let j = choose|j: int| other.stored_at(n, j);
            other.lemma_view_at(j);
            self.lemma_view_at(j);
            if j == i {
            } else {
                assert(other.options@[j].1@ == self.options@[j].1@);
                self.lemma_stored_once(name, i, i);
                if n == name {
                    self.lemma_stored_once(name, i, j);
                }
            }
        }
        assert(other@ =~= expected);
    }

    /// Gets the object wired to option `opt_name` mutably. Whatever is done to
    /// the object, the map keeps its options, their alternatives and what is
    /// wired.
    pub fn get_object_mut(&mut self, opt_name: &str) -> (r: Option<&mut Obj>)
        requires
            old(self).wf(),
        ensures
            final(self).wf(),
            old(self).same_but_resolved(final(self), opt_name@),
            match r {
                Some(obj) => {
                    &&& old(self).resolved(opt_name@) == Some(&*obj)
                    &&& final(self).resolved(opt_name@) == Some(&*final(obj))
                },
                None => old(self).resolved(opt_name@) is None && final(self)@ == old(self)@,
            },
    {
        let ghost after = *final(self);
        match self.search(opt_name) {
            Ok(i) => {
                proof {
                    self.lemma_view_at(i as int);
                }
                let r = self.options[i].1.object_mut();
                proof {
                    old(self).lemma_replaced_at(&after, i as int);
                    after.lemma_view_at(i as int);
                    if r is None {
                        assert(after@ =~= old(self)@);
                        old(self).lemma_same_map(&after, opt_name@);
                    }
                }
                r
            },
            Err(_) => {
                proof {
                    old(self).lemma_same_map(&after, opt_name@);
                }
                None
            },
        }
    }

    /// Whether there is an option called `opt_name` that has an alternative
    /// called `alt_name`.
    pub fn has_alternative(&self, opt_name: &str, alt_name: &str) -> (r: bool)
        requires
            self.wf(),
        ensures
            r == (self@.contains_key(opt_name@) && self@[opt_name@].has_alternative(alt_name@)),
    {
        match self.search(opt_name) {
            Ok(i) => {
                proof {
                    self.lemma_view_at(i as int);
                }
                self.options[i].1.has_alternative(alt_name)
            },
            Err(_) => false,
        }
    }

    /// Whether there is an option called `opt_name` that takes alternatives.
    pub fn is_multi(&self, opt_name: &str) -> (r: bool)
        requires
            self.wf(),
        ensures
            r == (self@.contains_key(opt_name@) && self@[opt_name@] is Multi),
    {
        match self.search(opt_name) {
            Ok(i) => {
                proof {
                    self.lemma_view_at(i as int);
                }
                match &self.options[i].1 {
                    WiringOption::Multi { .. } => true,
                    WiringOption::Single(_) => false,
                }
            },
            Err(_) => false,
        }
    }

    /// Puts a new option under a name that the map does not hold yet.
    pub(crate) fn insert_option(&mut self, name: String, option: WiringOption<Obj>)
        requires
            old(self).wf(),
            option.wf(),
            !old(self)@.contains_key(name@),
        ensures
            final(self).wf(),
            final(self)@ == old(self)@.insert(name@, option@),
    {
        let found = self.search(name.as_str());
        let at = match found {
            Ok(i) => i,
            Err(i) => i,
        };
        proof {
            if found is Ok {
                self.lemma_view_at(at as int);
            }
        }
        let ghost key = name@;
        let ghost value = option@;
        self.options.insert(at, (name, option));
        proof {
            let before = old(self).options@;
            let after = self.options@;
            let names = stored_names(after);
            assert forall|i: int, j: int| 0 <= i < j < names.len() implies name_lt(
                names[i],
                names[j],
            ) by {
                let old_i = if i < at { i } else { i - 1 };
                let old_j = if j < at { j } else { j - 1 };
                if i == at {
                    assert(names[j] == old(self).names()[old_j]);
                } else if j == at {
                    assert(names[i] == old(self).names()[old_i]);
                } else {
                    assert(names[i] == stored_names(before)[old_i]);
                    assert(names[j] == stored_names(before)[old_j]);
                }
            }
            assert forall|i: int| 0 <= i < after.len() implies (#[trigger] after[i]).1.wf() by {
                if i < at {
                    assert(after[i] == before[i]);
                } else if i > at {
                    assert(after[i] == before[i - 1]);
                }
            }
            let expected = old(self)@.insert(key, value);
            assert forall|n: Seq<char>| self@.contains_key(n) <==> expected.contains_key(n) by {
                if self@.contains_key(n) {
                    let j = choose|j: int| self.stored_at(n, j);
                    if j < at {
                        assert(old(self).stored_at(n, j));
                    } else if j > at {
                        assert(old(self).stored_at(n, j - 1));
                    }
                }
                if expected.contains_key(n) {
                    if n == key {
                        assert(self.stored_at(n, at as int));
                    } else {
                        let j = choose|j: int| old(self).stored_at(n, j);
                        if j < at {
                            assert(self.stored_at(n, j));
                        } else {
                            assert(self.stored_at(n, j + 1));
                        }
                    }
                }
            }
            assert forall|n: Seq<char>| self@.contains_key(n) implies self@[n] == expected[n] by {
                let j = choose|j: int| self.stored_at(n, j);
                self.lemma_view_at(j);
                if j < at {
                    old(self).lemma_view_at(j);
                } else if j > at {
                    old(self).lemma_view_at(j - 1);
                }
            }
            assert(self@ =~= expected);
        }
    }

    /// The option called `name`, for changing it in place. The map then holds
    /// whatever the option was changed to, under the same name.
    pub(crate) fn option_mut(&mut self, name: &str) -> (r: &mut WiringOption<Obj>)
        requires
            old(self).wf(),
            old(self)@.contains_key(name@),
        ensures
            r@ == old(self)@[name@],
            r.wf(),
            final(self)@ == old(self)@.insert(name@, final(r)@),
            final(self).names() == old(self).names(),
            final(r).wf() ==> final(self).wf(),
    {
        let ghost after = *final(self);
        match self.search(name) {
            Ok(i) => {
                proof {
                    self.lemma_view_at(i as int);
                }
                let r = &mut self.options[i].1;
                proof {
                    old(self).lemma_replaced_at(&after, i as int);
                }
                r
            },
            Err(_) => vstd::pervasive::unreached(),
        }
    }

    /// The object wired to option `name`, which has to resolve to one, for
    /// changing it in place.
    pub fn index_mut(&mut self, name: &str) -> (r: &mut Obj)
        requires
            old(self).wf(),
            old(self).resolved(name@) is Some,
        ensures
            old(self).resolved(name@) == Some(&*r),
            final(self).resolved(name@) == Some(&*final(r)),
            old(self).same_but_resolved(final(self), name@),
            final(self).wf(),
    {
        self.get_object_mut(name).unwrap()
    }
}

impl<'a, Obj: ?Sized> std::ops::Index<&'a str> for ObjectMap<Obj> {
    type Output = Obj;

    /// The object wired to option `name`, which has to resolve to one.
    fn index(&self, name: &'a str) -> (r: &Obj)
        ensures
            self.resolved(name@) == Some(r),
    {
        self.get_object(name).unwrap()
    }
}

impl<'a, Obj: ?Sized> vstd::std_specs::core::IndexSpecImpl<&'a str> for ObjectMap<Obj> {
    /// Indexing asks for a map that meets its invariant and an option that
    /// resolves to an object.
    open spec fn index_req(&self, name: &&'a str) -> bool {
        self.wf() && self.resolved(name@) is Some
    }
}

} // verus!

//! Walks over a map.
//!
//! A walk yields the options that resolve to an object, in the order of their
//! names, each with that object: [`Iter`] for reading, [`IterMut`] for
//! changing the objects in place.

use vstd::prelude::*;
use vstd::std_specs::iter::IteratorSpecImpl;
use super::{stored_entries, ObjectMap};
use crate::wiring_option::WiringOption;

verus! {

impl<Obj: ?Sized> ObjectMap<Obj> {
    /// Iterate over all wired objects immutably.
    pub fn iter(&self) -> (iter: Iter<'_, Obj>)
        requires
            self.wf(),
        ensures
            iter.pending() == self.entries(),
    {
        assert(self.names().skip(0) =~= self.names());
        Iter { map: self, position: 0 }
    }
}

/// A walk over the options of a map that resolve to an object, in the order of
/// their names.
pub struct Iter<'a, Obj: ?Sized> {
    /// The map that is walked.
    map: &'a ObjectMap<Obj>,
    /// The position of the next option to look at.
    position: usize,
}

impl<'a, Obj: ?Sized> Clone for Iter<'a, Obj> {
    /// A second walk that goes on from where this one stands.
    fn clone(&self) -> (iter: Self)
        ensures
            iter == *self,
    {
        proof {
            use_type_invariant(self);
        }
        Iter { map: self.map, position: self.position }
    }
}

impl<'a, Obj: ?Sized> Iter<'a, Obj> {
    /// The map meets its invariant, and the position lies within it.
    #[verifier::type_invariant]
    spec fn inv(&self) -> bool {
        self.map.wf() && self.position <= self.map.options.len()
    }

    /// What the walk has yet to yield: the names that resolve, from where the
    /// walk stands, each with the object it resolves to.
    pub closed spec fn pending(&self) -> Seq<(Seq<char>, &'a Obj)> {
        self.map.entries_of(self.map.names().skip(self.position as int))
    }
}

impl<'a, Obj: ?Sized> Iterator for Iter<'a, Obj> {
    type Item = (&'a str, &'a Obj);

    /// The next option that resolves to an object, with that object; `None`
    /// once there is no such option left.
    fn next(&mut self) -> (r: Option<(&'a str, &'a Obj)>)
        ensures
            match r {
                Some((name, obj)) => {
                    &&& old(self).pending().len() > 0
                    &&& old(self).pending()[0] == (name@, obj)
                    &&& final(self).pending() == old(self).pending().drop_first()
                },
                None => old(self).pending().len() == 0 && final(self).pending().len() == 0,
            },
    {
        proof {
            use_type_invariant(&*self);
        }
        let ghost names = self.map.names();
        while self.position < self.map.options.len()
            invariant
                self.map.wf(),
                self.position <= self.map.options.len(),
                self.map == old(self).map,
                names == self.map.names(),
                self.pending() == old(self).pending(),
            decreases self.map.options.len() - self.position,
        {
            let entry = &self.map.options[self.position];
            proof {
                let here = names.skip(self.position as int);
                assert(here[0] == entry.0@);
                assert(here.drop_first() =~= names.skip(self.position as int + 1));
                self.map.lemma_view_at(self.position as int);
            }
            self.position += 1;
            match entry.1.object() {
                Some(obj) => {
                    proof {
                        let first = seq![(entry.0@, obj)];
                        assert(old(self).pending() == first + self.pending());
                        assert((first + self.pending()).drop_first() =~= self.pending());
                    }
                    return Some((entry.0.as_str(), obj));
                },
                None => {},
            }
        }
        None
    }
}

/// The walk stands outside the model that vstd has of iterators, which names
/// the items to come as values: what it yields is stated on `next` itself.
impl<'a, Obj: ?Sized> IteratorSpecImpl for Iter<'a, Obj> {
    open spec fn obeys_prophetic_iter_laws(&self) -> bool {
        false
    }

    open spec fn remaining(&self) -> Seq<(&'a str, &'a Obj)> {
        Seq::empty()
    }

    open spec fn will_return_none(&self) -> bool {
        true
    }

    open spec fn decrease(&self) -> Option<nat> {
        None
    }

    open spec fn initial_value_relation(&self, init: &Self) -> bool {
        true
    }

    open spec fn peek(&self, index: int) -> Option<(&'a str, &'a Obj)> {
        None
    }
}

impl<Obj: ?Sized> ObjectMap<Obj> {
    /// Iterate over all wired objects mutably.
    ///
    /// The walk borrows, at its start, every object that an option resolves
    /// to, and then lends them out one by one. Whatever is done to the
    /// objects, the map keeps its options, their alternatives and what is
    /// wired, and each option resolves to what its object has become.
    pub fn iter_mut(&mut self) -> (iter: IterMut<'_, Obj>)
        requires
            old(self).wf(),
        ensures
            final(self).wf(),
            old(self).same_but_objects(final(self)),
            iter.pending().len() == old(self).entries().len(),
            forall|i: int|
                0 <= i < iter.pending().len() ==> {
                    let (name, obj) = #[trigger] iter.pending()[i];
                    &&& (name@, &*obj) == old(self).entries()[i]
                    &&& final(self).resolved(name@) == Some(&*final(obj))
                },
    {
        let ghost before = *old(self);
        let ghost after = *final(self);
        let ghost stored = before.options@;
        // The options are taken apart from the back, one at a time: `rest` is
        // what is still in one piece, and the borrows gathered so far are
        // those of the options behind it, the last first.
        let mut rest: &mut [(String, WiringOption<Obj>)] = self.options.as_mut_slice();
        let mut pending: Vec<(&str, &mut Obj)> = Vec::new();
        // What the options behind `rest` will be once every borrow has ended.
        let ghost mut done: Seq<(String, WiringOption<Obj>)> = after.options@.skip(
            after.options@.len() as int,
        );
        proof {
            assert(stored.skip(stored.len() as int) =~= Seq::empty());
        }
        while rest.len() > 0
            invariant
                before.wf(),
                stored == before.options@,
                rest@.len() <= stored.len(),
                rest@ =~= stored.take(rest@.len() as int),
                after.options@ =~= final(rest)@ + done,
                done.len() == stored.len() - rest@.len(),
                forall|j: int|
                    0 <= j < done.len() ==> {
                        &&& (#[trigger] done[j]).0 == stored[rest@.len() + j].0
                        &&& stored[rest@.len() + j].1@.same_but_resolved(done[j].1@)
                        &&& done[j].1.wf()
                    },
                pending@.len() == stored_entries(stored.skip(rest@.len() as int)).len(),
                forall|i: int|
                    0 <= i < pending@.len() ==> {
                        let (name, obj) = #[trigger] pending@[pending@.len() - 1 - i];
                        &&& (name@, &*obj) == stored_entries(stored.skip(rest@.len() as int))[i]
                        &&& exists|j: int|
                            0 <= j < done.len() && (#[trigger] done[j]).0@ == name@
                                && done[j].1@.resolved() == Some(&*final(obj))
                    },
            decreases rest@.len(),
        {
            let last = rest.len() - 1;
            let ghost ahead = stored_entries(stored.skip(last as int + 1));
            let ghost gathered = pending@;
            let ghost finished = done;
            let (front, back) = rest.split_at_mut(last);
            rest = front;
            let entry = &mut back[0];
            let ghost taken = *final(entry);
            proof {
                assert(stored.skip(last as int).drop_first() =~= stored.skip(last as int + 1));
                assert(stored.skip(last as int)[0] == stored[last as int]);
                assert(*entry == stored[last as int]);
            }
            let name = &entry.0;
            let option = &mut entry.1;
            match option.object_mut() {
                Some(obj) => {
                    pending.push((name.as_str(), obj));
                    proof {
                        done = seq![taken] + done;
                        let here = stored_entries(stored.skip(last as int));
                        let (n, o) = pending@[pending@.len() - 1];
                        assert(here == seq![(n@, &*o)] + ahead);
                        assert(done[0] == taken);
                        assert forall|i: int| 0 <= i < pending@.len() implies {
                            let (name, obj) = #[trigger] pending@[pending@.len() - 1 - i];
                            &&& (name@, &*obj) == here[i]
                            &&& exists|j: int|
                                0 <= j < done.len() && (#[trigger] done[j]).0@ == name@
                                    && done[j].1@.resolved() == Some(&*final(obj))
                        } by {
                            if i > 0 {
                                let at = gathered.len() - 1 - (i - 1);
                                assert(pending@[pending@.len() - 1 - i] == gathered[at]);
                                let (n, o) = gathered[at];
                                let j = choose|j: int|
                                    0 <= j < finished.len() && (#[trigger] finished[j]).0@ == n@
                                        && finished[j].1@.resolved() == Some(&*final(o));
                                assert(done[j + 1] == finished[j]);
                            }
                        }
                    }
                },
                None => {
                    proof {
                        done = seq![taken] + done;
                        let here = stored_entries(stored.skip(last as int));
                        assert(here == ahead);
                        assert(done[0] == taken);
                        assert forall|i: int| 0 <= i < pending@.len() implies {
                            let (name, obj) = #[trigger] pending@[pending@.len() - 1 - i];
                            &&& (name@, &*obj) == here[i]
                            &&& exists|j: int|
                                0 <= j < done.len() && (#[trigger] done[j]).0@ == name@
                                    && done[j].1@.resolved() == Some(&*final(obj))
                        } by {
                            let at = gathered.len() - 1 - i;
                            let (n, o) = gathered[at];
                            let j = choose|j: int|
                                0 <= j < finished.len() && (#[trigger] finished[j]).0@ == n@
                                    && finished[j].1@.resolved() == Some(&*final(o));
                            assert(done[j + 1] == finished[j]);
                        }
                    }
                },
            }
            proof {
                assert forall|j: int| 0 <= j < done.len() implies {
                    &&& (#[trigger] done[j]).0 == stored[rest@.len() + j].0
                    &&& stored[rest@.len() + j].1@.same_but_resolved(done[j].1@)
                    &&& done[j].1.wf()
                } by {
                    if j > 0 {
                        assert(done[j] == finished[j - 1]);
                    }
                }
            }
        }
        let iter = IterMut { pending };
        proof {
            assert(after.options@ =~= done);
            assert(stored.skip(0) =~= stored);
            before.lemma_stored_entries(0);
            assert(before.names().skip(0) =~= before.names());
            before.lemma_same_but_objects(&after);
            assert forall|i: int| 0 <= i < iter.pending().len() implies {
                let (name, obj) = #[trigger] iter.pending()[i];
                &&& (name@, &*obj) == before.entries()[i]
                &&& after.resolved(name@) == Some(&*final(obj))
            } by {
                let (name, obj) = iter.pending()[i];
                assert(iter.pending()[i] == pending@[pending@.len() - 1 - i]);
                let j = choose|j: int|
                    0 <= j < done.len() && (#[trigger] done[j]).0@ == name@
                        && done[j].1@.resolved() == Some(&*final(obj));
                after.lemma_view_at(j);
            }
        }
        iter
    }
}

/// A walk over the options of a map that resolve to an object, in the order of
/// their names, that lends each object out for changing it in place.
pub struct IterMut<'a, Obj: ?Sized> {
    /// What the walk has yet to yield, the last first.
    pending: Vec<(&'a str, &'a mut Obj)>,
}

impl<'a, Obj: ?Sized> IterMut<'a, Obj> {
    /// What the walk has yet to yield: each name with the borrow of the object
    /// that the option of that name resolves to.
    pub closed spec fn pending(&self) -> Seq<(&'a str, &'a mut Obj)> {
        Seq::new(self.pending@.len(), |i: int| self.pending@[self.pending@.len() - 1 - i])
    }
}

impl<'a, Obj: ?Sized> Iterator for IterMut<'a, Obj> {
    type Item = (&'a str, &'a mut Obj);

    /// The next option that resolves to an object, with that object; `None`
    /// once there is no such option left.
    fn next(&mut self) -> (r: Option<(&'a str, &'a mut Obj)>)
        ensures
            match r {
                Some(entry) => {
                    &&& old(self).pending().len() > 0
                    &&& old(self).pending()[0] == entry
                    &&& final(self).pending() == old(self).pending().drop_first()
                },
                None => old(self).pending().len() == 0 && final(self).pending().len() == 0,
            },
    {
        let r = self.pending.pop();
        proof {
            if r is Some {
                assert(final(self).pending() =~= old(self).pending().drop_first());
            }
        }
        r
    }
}

/// The walk stands outside the model that vstd has of iterators, as
/// [`Iter`] does: what it yields is stated on `next` itself.
impl<'a, Obj: ?Sized> IteratorSpecImpl for IterMut<'a, Obj> {
    open spec fn obeys_prophetic_iter_laws(&self) -> bool {
        false
    }

    open spec fn remaining(&self) -> Seq<(&'a str, &'a mut Obj)> {
        Seq::empty()
    }

    open spec fn will_return_none(&self) -> bool {
        true
    }

    open spec fn decrease(&self) -> Option<nat> {
        None
    }

    open spec fn initial_value_relation(&self, init: &Self) -> bool {
        true
    }

    open spec fn peek(&self, index: int) -> Option<(&'a str, &'a mut Obj)> {
        None
    }
}

} // verus!

//! The state of a single option.
//!
//! An option is either *single*, holding exactly one object that is always
//! wired, or *multi*, holding any number of named alternatives of which at most
//! one is wired. Alternatives are only ever added, and wiring only ever moves
//! the selection: nothing is removed, and an option never changes its kind.

use vstd::prelude::*;
use crate::names::{order_names, NameOrder};

verus! {

/// An option as it is stored: its objects are owned here and only lent out.
pub enum WiringOption<Obj: ?Sized> {
    /// An option with zero or more alternatives, wired to at most one of them.
    Multi {
        /// The position of the wired alternative, if one is wired.
        wired: Option<usize>,
        /// The alternatives, in the order in which they were added.
        alternatives: Vec<(String, Box<Obj>)>,
    },
    /// An option with exactly one object, which is always wired.
    Single(Box<Obj>),
}

/// The mathematical model of an option.
pub enum OptionView<Obj: ?Sized> {
    /// See [`WiringOption::Multi`].
    Multi { wired: Option<int>, alternatives: Seq<(Seq<char>, Box<Obj>)> },
    /// See [`WiringOption::Single`].
    Single(Box<Obj>),
}

impl<Obj: ?Sized> OptionView<Obj> {
    /// A multi option without alternatives, and so with nothing wired.
    pub open spec fn empty() -> Self {
        OptionView::Multi { wired: None, alternatives: Seq::empty() }
    }

    /// The alternatives of a multi option; a single option has none.
    pub open spec fn alternatives(self) -> Seq<(Seq<char>, Box<Obj>)> {
        match self {
            OptionView::Multi { alternatives, .. } => alternatives,
            OptionView::Single(_) => Seq::empty(),
        }
    }

    /// The alternative at position `i` is called `alt_name`.
    pub open spec fn named_at(self, alt_name: Seq<char>, i: int) -> bool {
        0 <= i < self.alternatives().len() && self.alternatives()[i].0 == alt_name
    }

    /// The option has an alternative called `alt_name`.
    pub open spec fn has_alternative(self, alt_name: Seq<char>) -> bool {
        exists|i: int| self.named_at(alt_name, i)
    }

    /// The position of the alternative called `alt_name`.
    pub open spec fn position(self, alt_name: Seq<char>) -> int {
        choose|i: int| self.named_at(alt_name, i)
    }

    /// No two alternatives share a name, and what is wired exists.
    pub open spec fn wf(self) -> bool {
        match self {
            OptionView::Multi { wired, alternatives } => {
                &&& forall|i: int, j: int|
                    0 <= i < j < alternatives.len() ==> alternatives[i].0 != alternatives[j].0
                &&& wired matches Some(w) ==> 0 <= w < alternatives.len()
            },
            OptionView::Single(_) => true,
        }
    }

    /// The object that the option currently resolves to: the one object of a
    /// single option, the wired alternative of a multi option.
    pub open spec fn resolved(&self) -> Option<&Obj> {
        match self {
            OptionView::Multi { wired: Some(w), alternatives } => Some(&*alternatives[*w].1),
            OptionView::Multi { wired: None, .. } => None,
            OptionView::Single(obj) => Some(&**obj),
        }
    }

    /// The option after `obj` was added as the alternative `alt_name`: the
    /// new alternative stands behind the others, and what was wired still is.
    /// A single option takes no alternative and stays as it is.
    pub open spec fn add_alternative(self, alt_name: Seq<char>, obj: Box<Obj>) -> Self {
        match self {
            OptionView::Multi { wired, alternatives } => OptionView::Multi {
                wired,
                alternatives: alternatives.push((alt_name, obj)),
            },
            OptionView::Single(_) => self,
        }
    }

    /// The option after the alternative `alt_name` was wired: the selection
    /// is at the position of that alternative. A single option has no
    /// alternative and stays as it is.
    pub open spec fn wire_alternative(self, alt_name: Seq<char>) -> Self {
        match self {
            OptionView::Multi { alternatives, .. } => OptionView::Multi {
                wired: Some(self.position(alt_name)),
                alternatives,
            },
            OptionView::Single(_) => self,
        }
    }

    /// `other` is this option with, at most, another value in place of the
    /// object it resolves to: kind, names, order and wiring are the same, and
    /// so is every object that is not the resolved one.
    pub open spec fn same_but_resolved(self, other: Self) -> bool {
        match self {
            OptionView::Multi { wired, alternatives } => {
                &&& other is Multi
                &&& other->wired == wired
                &&& other->alternatives.len() == alternatives.len()
                &&& forall|i: int|
                    0 <= i < alternatives.len() ==> (#[trigger] other->alternatives[i]).0
                        == alternatives[i].0
                &&& forall|i: int|
                    0 <= i < alternatives.len() && wired != Some(i)
                        ==> #[trigger] other->alternatives[i] == alternatives[i]
            },
            OptionView::Single(_) => other is Single,
        }
    }
}

impl<Obj: ?Sized> View for WiringOption<Obj> {
    type V = OptionView<Obj>;

    open spec fn view(&self) -> OptionView<Obj> {
        match self {
            WiringOption::Multi { wired, alternatives } => OptionView::Multi {
                wired: match wired {
                    Some(w) => Some(*w as int),
                    None => None,
                },
                alternatives: alternatives@.map_values(|e: (String, Box<Obj>)| (e.0@, e.1)),
            },
            WiringOption::Single(obj) => OptionView::Single(*obj),
        }
    }
}

impl<Obj: ?Sized> WiringOption<Obj> {
    /// The option meets its invariant: see [`OptionView::wf`].
    pub open spec fn wf(&self) -> bool {
        self@.wf()
    }

    /// The position of the alternative called `alt_name`, if there is one.
    fn find_alternative(&self, alt_name: &str) -> (r: Option<usize>)
        ensures
            match r {
                Some(i) => self@.named_at(alt_name@, i as int),
                None => !self@.has_alternative(alt_name@),
            },
    {
        match self {
            WiringOption::Multi { alternatives, .. } => {
                let mut i: usize = 0;
                while i < alternatives.len()
                    invariant
                        i <= alternatives.len(),
                        *self matches WiringOption::Multi { alternatives: a, .. } && a
                            == alternatives,
                        forall|j: int| 0 <= j < i ==> !self@.named_at(alt_name@, j),
                    decreases alternatives.len() - i,
                {
                    match order_names(alternatives[i].0.as_str(), alt_name) {
                        NameOrder::Same => {
                            return Some(i);
                        },
                        _ => {},
                    }
                    i += 1;
                }
                None
            },
            WiringOption::Single(_) => None,
        }
    }

    /// Whether the option has an alternative called `alt_name`. A single option
    /// has none.
    pub fn has_alternative(&self, alt_name: &str) -> (r: bool)
        ensures
            r == self@.has_alternative(alt_name@),
    {
        self.find_alternative(alt_name).is_some()
    }

    /// Adds `obj` as the alternative `alt_name`, behind those already there.
    /// What is wired stays wired.
    pub fn add_alternative(&mut self, alt_name: String, obj: Box<Obj>)
        requires
            old(self).wf(),
            *old(self) is Multi,
            !old(self)@.has_alternative(alt_name@),
        ensures
            final(self)@ == old(self)@.add_alternative(alt_name@, obj),
            final(self).wf(),
    {
        match self {
            WiringOption::Multi { alternatives, .. } => {
                alternatives.push((alt_name, obj));
            },
            _ => {},
        }
        proof {
            let before = old(self)@.alternatives();
            let after = final(self)@.alternatives();
            assert(after =~= before.push((alt_name@, obj)));
            assert forall|i: int, j: int| 0 <= i < j < after.len() implies after[i].0
                != after[j].0 by {
                if j == before.len() {
                    assert(!old(self)@.named_at(alt_name@, i));
                }
            }
        }
    }

    /// Wires the alternative `alt_name`, whatever was wired before.
    pub fn wire_alternative(&mut self, alt_name: &str)
        requires
            old(self).wf(),
            old(self)@.has_alternative(alt_name@),
        ensures
            final(self)@ == old(self)@.wire_alternative(alt_name@),
            final(self).wf(),
    {
        let found = self.find_alternative(alt_name);
        proof {
            let i = found->0 as int;
            let j = old(self)@.position(alt_name@);
            assert(old(self)@.named_at(alt_name@, j));
            assert(i == j);
        }
        match self {
            WiringOption::Multi { wired, .. } => {
                *wired = found;
            },
            _ => {},
        }
    }

    /// The object that the option resolves to, if it resolves to one.
    pub fn object(&self) -> (r: Option<&Obj>)
        requires
            self.wf(),
        ensures
            r == self@.resolved(),
    {
        match self {
            WiringOption::Single(obj) => Some(&**obj),
            WiringOption::Multi { wired, alternatives } => match wired {
                Some(idx) => Some(&*alternatives[*idx].1),
                None => None,
            },
        }
    }

    /// The object that the option resolves to, for changing it in place. The
    /// option itself stays as it is, whatever is done to the object.
    pub fn object_mut(&mut self) -> (r: Option<&mut Obj>)
        requires
            old(self).wf(),
        ensures
            match r {
                Some(obj) => {
                    &&& old(self)@.resolved() == Some(&*obj)
                    &&& final(self)@.resolved() == Some(&*final(obj))
                    &&& old(self)@.same_but_resolved(final(self)@)
                },
                None => old(self)@.resolved() is None && *final(self) == *old(self),
            },
            final(self).wf(),
    {
        match self {
            WiringOption::Single(obj) => Some(&mut **obj),
            WiringOption::Multi { wired, alternatives } => match wired {
                Some(idx) => Some(&mut *alternatives[*idx].1),
                None => None,
            },
        }
    }
}

} // verus!

pub mod breadth_first_search;
pub mod depth_first_search;
pub mod search_impl;

use crate::db::db_error::DbError;
use crate::graph::GraphIndex;
use vstd::prelude::*;

verus! {

/// What a search does with the element just visited: `Continue` expands
/// it, `Stop` does not go past it, `Finish` ends the search. The flag says
/// whether the element is added to the result.
#[derive(Debug, Copy, Clone, PartialEq, Eq, Structural)]
pub enum SearchControl {
    Continue(bool),
    Finish(bool),
    Stop(bool),
}

/// Decides, for each element a search reaches, whether it is selected and
/// how the search goes on. `spec_calls` records the answered calls: the
/// element, its distance from the start and the answer.
pub trait SearchHandler: Sized {
    open spec fn spec_calls(&self) -> Seq<(GraphIndex, u64, SearchControl)> {
        Seq::empty()
    }

    /// What answering a call leaves as it was: the handler's setup, with
    /// what it has recorded of its calls left out.
    open spec fn spec_setup(&self) -> Self {
        *self
    }

    fn process(&mut self, index: GraphIndex, distance: u64) -> (result: Result<
        SearchControl,
        DbError,
    >)
        ensures
            result matches Ok(c) ==> final(self).spec_calls() == old(self).spec_calls().push(
                (index, distance, c),
            ),
            result is Err ==> final(self).spec_calls() == old(self).spec_calls(),
            final(self).spec_setup() == old(self).spec_setup(),
    ;
}

/// Continue, Stop and Finish as 0, 1 and 2.
pub open spec fn control_rank(c: SearchControl) -> int {
    match c {
        SearchControl::Continue(_) => 0,
        SearchControl::Stop(_) => 1,
        SearchControl::Finish(_) => 2,
    }
}

/// The control of the given rank carrying `value`.
pub open spec fn control_of(rank: int, value: bool) -> SearchControl {
    if rank <= 0 {
        SearchControl::Continue(value)
    } else if rank == 1 {
        SearchControl::Stop(value)
    } else {
        SearchControl::Finish(value)
    }
}

impl SearchControl {
    /// The flag carried by the control.
    pub open spec fn spec_value(self) -> bool {
        match self {
            SearchControl::Continue(v) => v,
            SearchControl::Finish(v) => v,
            SearchControl::Stop(v) => v,
        }
    }

    /// Conjunction: the stronger control wins (Finish over Stop over
    /// Continue) and the flags are and-ed.
    pub open spec fn spec_and(self, other: SearchControl) -> SearchControl {
        let r = if control_rank(self) >= control_rank(other) {
            control_rank(self)
        } else {
            control_rank(other)
        };
        control_of(r, self.spec_value() && other.spec_value())
    }

    /// Disjunction: the weaker control wins (Continue over Stop over
    /// Finish) and the flags are or-ed.
    pub open spec fn spec_or(self, other: SearchControl) -> SearchControl {
        let r = if control_rank(self) <= control_rank(other) {
            control_rank(self)
        } else {
            control_rank(other)
        };
        control_of(r, self.spec_value() || other.spec_value())
    }

    pub fn and(self, other: SearchControl) -> (result: SearchControl)
        ensures
            result == self.spec_and(other),
    {
        match (self, other) {
            (SearchControl::Continue(left), SearchControl::Continue(right)) => SearchControl::Continue(left && right),
            (SearchControl::Continue(left), SearchControl::Finish(right)) => SearchControl::Finish(left && right),
            (SearchControl::Continue(left), SearchControl::Stop(right)) => SearchControl::Stop(left && right),
            (SearchControl::Finish(left), SearchControl::Continue(right)) => SearchControl::Finish(left && right),
            (SearchControl::Finish(left), SearchControl::Finish(right)) => SearchControl::Finish(left && right),
            (SearchControl::Finish(left), SearchControl::Stop(right)) => SearchControl::Finish(left && right),
            (SearchControl::Stop(left), SearchControl::Continue(right)) => SearchControl::Stop(left && right),
            (SearchControl::Stop(left), SearchControl::Finish(right)) => SearchControl::Finish(left && right),
            (SearchControl::Stop(left), SearchControl::Stop(right)) => SearchControl::Stop(left && right),
        }
    }

    pub fn or(self, other: SearchControl) -> (result: SearchControl)
        ensures
            result == self.spec_or(other),
    {
        match (self, other) {
            (SearchControl::Continue(left), SearchControl::Continue(right)) => SearchControl::Continue(left || right),
            (SearchControl::Continue(left), SearchControl::Finish(right)) => SearchControl::Continue(left || right),
            (SearchControl::Continue(left), SearchControl::Stop(right)) => SearchControl::Continue(left || right),
            (SearchControl::Finish(left), SearchControl::Continue(right)) => SearchControl::Continue(left || right),
            (SearchControl::Finish(left), SearchControl::Finish(right)) => SearchControl::Finish(left || right),
            (SearchControl::Finish(left), SearchControl::Stop(right)) => SearchControl::Stop(left || right),
            (SearchControl::Stop(left), SearchControl::Continue(right)) => SearchControl::Continue(left || right),
            (SearchControl::Stop(left), SearchControl::Finish(right)) => SearchControl::Stop(left || right),
            (SearchControl::Stop(left), SearchControl::Stop(right)) => SearchControl::Stop(left || right),
        }
    }

    /// Negates the flag, keeping the kind of control.
    pub fn flip(&mut self)
        ensures
            control_rank(*final(self)) == control_rank(*old(self)),
            final(self).spec_value() == !old(self).spec_value(),
    {
        match self {
            SearchControl::Continue(v) => {
                *v = !*v;
            },
            SearchControl::Finish(v) => {
                *v = !*v;
            },
            SearchControl::Stop(v) => {
                *v = !*v;
            },
        }
    }

    pub fn is_true(&self) -> (result: bool)
        ensures
            result == self.spec_value(),
    {
        match self {
            SearchControl::Continue(v) => *v,
            SearchControl::Finish(v) => *v,
            SearchControl::Stop(v) => *v,
        }
    }

    /// Replaces the flag, keeping the kind of control.
    pub fn set_value(&mut self, value: bool)
        ensures
            control_rank(*final(self)) == control_rank(*old(self)),
            final(self).spec_value() == value,
    {
        match self {
            SearchControl::Continue(v) => {
                *v = value;
            },
            SearchControl::Finish(v) => {
                *v = value;
            },
            SearchControl::Stop(v) => {
                *v = value;
            },
        }
    }
}

/// `and` does not depend on the order of its operands.
pub proof fn law_and_commutative(a: SearchControl, b: SearchControl)
    ensures
        a.spec_and(b) == b.spec_and(a),
{
}

/// `or` does not depend on the order of its operands.
pub proof fn law_or_commutative(a: SearchControl, b: SearchControl)
    ensures
        a.spec_or(b) == b.spec_or(a),
{
}

/// `and` groups either way.
pub proof fn law_and_associative(a: SearchControl, b: SearchControl, c: SearchControl)
    ensures
        a.spec_and(b).spec_and(c) == a.spec_and(b.spec_and(c)),
{
}

/// `or` groups either way.
pub proof fn law_or_associative(a: SearchControl, b: SearchControl, c: SearchControl)
    ensures
        a.spec_or(b).spec_or(c) == a.spec_or(b.spec_or(c)),
{
}

/// Flipping twice gives back the control it started from.
pub proof fn law_flip_twice(a: SearchControl, b: SearchControl, c: SearchControl)
    requires
        control_rank(b) == control_rank(a),
        b.spec_value() == !a.spec_value(),
        control_rank(c) == control_rank(b),
        c.spec_value() == !b.spec_value(),
    ensures
        c == a,
{
}

/// `and` joins the flags by conjunction and `or` by disjunction.
pub proof fn law_join_flags(a: SearchControl, b: SearchControl)
    ensures
        a.spec_and(b).spec_value() == (a.spec_value() && b.spec_value()),
        a.spec_or(b).spec_value() == (a.spec_value() || b.spec_value()),
{
}

/// The kind of `and` is the stronger of the two: `Finish` when either
/// finishes, else `Stop` when either stops, else `Continue`. The kind of
/// `or` is the weaker: `Continue` when either continues, else `Stop` when
/// either stops, else `Finish`.
pub proof fn law_join_kinds(a: SearchControl, b: SearchControl)
    ensures
        (a is Finish || b is Finish) ==> a.spec_and(b) is Finish,
        (a is Stop || b is Stop) && !(a is Finish || b is Finish) ==> a.spec_and(b) is Stop,
        (a is Continue && b is Continue) ==> a.spec_and(b) is Continue,
        (a is Continue || b is Continue) ==> a.spec_or(b) is Continue,
        (a is Stop || b is Stop) && !(a is Continue || b is Continue) ==> a.spec_or(b) is Stop,
        (a is Finish && b is Finish) ==> a.spec_or(b) is Finish,
{
}

/// A passing `Continue` changes nothing when and-ed in, and a failing
/// `Finish` changes nothing when or-ed in.
pub proof fn law_join_units(c: SearchControl)
    ensures
        SearchControl::Continue(true).spec_and(c) == c,
        SearchControl::Finish(false).spec_or(c) == c,
{
}

} // verus!

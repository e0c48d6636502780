use crate::graph_search::{control_rank, SearchControl};
use vstd::prelude::*;

verus! {

/// Selects at most `limit` elements: counts the elements the conditions
/// accept and finishes the search at the `limit`-th one.
pub struct LimitHandler {
    pub limit: u64,
    pub counter: u64,
}

/// Skips the first `offset` elements the conditions accept.
pub struct OffsetHandler {
    pub offset: u64,
    pub counter: u64,
}

/// Skips the first `offset` accepted elements and finishes once `limit`
/// more have been selected (`limit` holds the sum of both).
pub struct LimitOffsetHandler {
    pub limit: u64,
    pub offset: u64,
    pub counter: u64,
}

/// Turns the conditions' verdict into the cost of a path step.
pub struct PathHandler {}

impl LimitHandler {
    pub fn new(limit: u64) -> (result: Self)
        ensures
            result.limit == limit,
            result.counter == 0,
    {
        Self { limit, counter: 0 }
    }

    /// Takes the conditions' verdict on an element and returns the search control.
    pub fn process(&mut self, control: SearchControl) -> (result: SearchControl)
        requires
            old(self).counter < u64::MAX,
        ensures
            final(self).limit == old(self).limit,
            final(self).counter == if control.spec_value() {
                old(self).counter + 1
            } else {
                old(self).counter as int
            },
            result == if final(self).counter == final(self).limit {
                SearchControl::Finish(control.spec_value())
            } else {
                control
            },
    {
        let add = control.is_true();
        if add {
            self.counter += 1;
        }
        if self.counter == self.limit {
            SearchControl::Finish(add)
        } else {
            control
        }
    }
}

impl OffsetHandler {
    pub fn new(offset: u64) -> (result: Self)
        ensures
            result.offset == offset,
            result.counter == 0,
    {
        Self { offset, counter: 0 }
    }

    /// Takes the conditions' verdict on an element and returns the search control.
    pub fn process(&mut self, control: SearchControl) -> (result: SearchControl)
        requires
            old(self).counter < u64::MAX,
        ensures
            final(self).offset == old(self).offset,
            final(self).counter == if control.spec_value() {
                old(self).counter + 1
            } else {
                old(self).counter as int
            },
            control_rank(result) == control_rank(control),
            result.spec_value() == (control.spec_value() && final(self).offset
                < final(self).counter),
    {
        let mut control = control;
        if control.is_true() {
            self.counter += 1;
            control.set_value(self.offset < self.counter);
        }
        control
    }
}

impl LimitOffsetHandler {
    pub fn new(limit: u64, offset: u64) -> (result: Self)
        requires
            limit + offset <= u64::MAX,
        ensures
            result.limit == limit + offset,
            result.offset == offset,
            result.counter == 0,
    {
        Self { limit: limit + offset, offset, counter: 0 }
    }

    /// Takes the conditions' verdict on an element and returns the search control.
    pub fn process(&mut self, control: SearchControl) -> (result: SearchControl)
        requires
            old(self).counter < u64::MAX,
        ensures
            final(self).limit == old(self).limit,
            final(self).offset == old(self).offset,
            final(self).counter == if control.spec_value() {
                old(self).counter + 1
            } else {
                old(self).counter as int
            },
            result.spec_value() == (control.spec_value() && final(self).offset
                < final(self).counter),
            final(self).counter == final(self).limit ==> result is Finish,
            final(self).counter != final(self).limit ==> control_rank(result) == control_rank(
                control,
            ),
    {
        let mut control = control;
        if control.is_true() {
            self.counter += 1;
            control.set_value(self.offset < self.counter);
        }
        if self.counter == self.limit {
            SearchControl::Finish(control.is_true())
        } else {
            control
        }
    }
}

impl PathHandler {
    pub fn new() -> (result: Self) {
        Self {  }
    }

    /// The cost of a path step and whether the element is selected: a
    /// continuing element costs 1 when selected and 2 otherwise; a stopping
    /// or finishing one costs 0, which ends the path there.
    pub fn process(&self, control: SearchControl) -> (result: (u64, bool))
        ensures
            result == match control {
                SearchControl::Continue(add) => (if add {
                    1u64
                } else {
                    2u64
                }, add),
                SearchControl::Finish(add) => (0u64, add),
                SearchControl::Stop(add) => (0u64, add),
            },
    {
        match control {
            SearchControl::Continue(add) => (1 + (if add {
                0
            } else {
                1
            }), add),
            SearchControl::Finish(add) => (0, add),
            SearchControl::Stop(add) => (0, add),
        }
    }
}

/// Below its limit, a limit handler finishes the search (selecting the
/// element) when the `limit`-th accepted element comes, passes every other
/// verdict through unchanged, and never counts past the limit.
pub proof fn law_limit_finishes_at_limit(
    before: LimitHandler,
    after: LimitHandler,
    control: SearchControl,
    result: SearchControl,
)
    requires
        before.counter < before.limit,
        after.limit == before.limit,
        after.counter == if control.spec_value() {
            before.counter + 1
        } else {
            before.counter as int
        },
        result == if after.counter == after.limit {
            SearchControl::Finish(control.spec_value())
        } else {
            control
        },
    ensures
        after.counter <= after.limit,
        (control.spec_value() && before.counter + 1 == before.limit) ==> result
            == SearchControl::Finish(true),
        !(control.spec_value() && before.counter + 1 == before.limit) ==> result == control,
{
}

} // verus!

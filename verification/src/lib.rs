use vstd::prelude::*;

pub mod command;
pub mod encoding;
pub mod mem_store;
pub mod text;
pub mod number;
pub mod reader;
pub mod server;

verus! {

/// A counter of the requests that the server has handed out to its workers.
pub struct Counter {
    count: u64,
}

impl View for Counter {
    type V = nat;

    closed spec fn view(&self) -> nat {
        self.count as nat
    }
}

impl Counter {
    /// A counter that has counted nothing yet.
    pub fn new() -> (c: Counter)
        ensures
            c@ == 0,
    {
        Counter { count: 0 }
    }

    /// Counts one more request.
    pub fn add_count(&mut self)
        requires
            old(self)@ < u64::MAX,
        ensures
            final(self)@ == old(self)@ + 1,
    {
        self.count += 1;
    }

    /// The number of requests counted so far.
    pub fn get_count(&self) -> (n: u64)
        ensures
            n == self@,
    {
        self.count
    }
}

/// A counter counts every request: if `views` are the values that a counter shows, one after
/// each call, starting from `Counter::new` and with one `add_count` between neighbours, then
/// after `i` calls of `add_count` it shows `i`.
pub proof fn law_counter_counts(views: Seq<nat>)
    requires
        views.len() > 0,
        views[0] == 0,
        forall|i: int| 0 <= i < views.len() - 1 ==> #[trigger] views[i + 1] == views[i] + 1,
    ensures
        forall|i: int| 0 <= i < views.len() ==> #[trigger] views[i] == i,
    decreases views.len(),
{
    if views.len() > 1 {
        let init = views.drop_last();
        assert forall|i: int| 0 <= i < init.len() - 1 implies #[trigger] init[i + 1] == init[i] + 1 by {
            assert(views[i + 1] == views[i] + 1);
        }
        law_counter_counts(init);
        assert forall|i: int| 0 <= i < views.len() implies #[trigger] views[i] == i by {
            if i < views.len() - 1 {
                assert(views[i] == init[i]);
            } else {
                assert(views[i - 1] == init[i - 1]);
                assert(views[(i - 1) + 1] == views[i - 1] + 1);
            }
        }
    }
}

} // verus!

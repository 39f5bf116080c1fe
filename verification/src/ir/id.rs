//! Unique identifiers.
use vstd::prelude::*;

verus! {

/// The source of identifiers: a count of those handed out so far. Each
/// build owns one, so that no two of its identifiers are the same.
#[derive(Debug)]
pub struct Counter {
    issued: u64,
}

/// A unique identifier.
#[derive(Copy, Clone, Debug, PartialEq, Eq, Hash)]
pub struct Id {
    id: u64,
}

impl View for Counter {
    type V = u64;

    /// The number of identifiers handed out, which is the last of them.
    closed spec fn view(&self) -> u64 {
        self.issued
    }
}

impl View for Id {
    type V = u64;

    /// The number that tells the identifier from every other.
    closed spec fn view(&self) -> u64 {
        self.id
    }
}

impl Counter {
    /// A counter that has handed out nothing.
    pub fn new() -> (counter: Self)
        ensures
            counter@ == 0,
    {
        Counter { issued: 0 }
    }

    /// A counter that goes on behind the identifier `last`, for a build
    /// that must not use the identifiers of an earlier one.
    pub fn starting_after(last: u64) -> (counter: Self)
        ensures
            counter@ == last,
    {
        Counter { issued: last }
    }

    /// Whether every identifier has been handed out.
    pub fn is_exhausted(&self) -> (yes: bool)
        ensures
            yes == (self@ == u64::MAX),
    {
        self.issued == u64::MAX
    }
}

impl Id {
    /// Creates a new unique identifier: the number behind the last one
    /// that `counter` handed out.
    pub fn new(counter: &mut Counter) -> (id: Self)
        requires
            old(counter)@ < u64::MAX,
        ensures
            id@ == old(counter)@ + 1,
            final(counter)@ == id@,
    {
        counter.issued += 1;
        Id { id: counter.issued }
    }

    /// The number that tells the identifier from every other.
    pub fn value(&self) -> (value: u64)
        ensures
            value == self@,
    {
        self.id
    }
}

/// Identifiers with the same number are the same.
pub proof fn lemma_id_by_value(a: Id, b: Id)
    ensures
        a@ == b@ <==> a == b,
{
}

} // verus!

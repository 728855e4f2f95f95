//! A value kept in the database in its binary encoding.
use vstd::prelude::*;

verus! {

/// A value that the database keeps in its binary encoding.
pub struct BinCode<Content>(Content);

impl<T> BinCode<T> {
    /// The value it holds.
    pub closed spec fn inner(&self) -> T {
        self.0
    }

    pub fn into_inner(self) -> (r: T)
        ensures
            r == self.inner(),
    {
        self.0
    }

    /// A reference to the value it holds.
    pub fn get(&self) -> (r: &T)
        ensures
            *r == self.inner(),
    {
        &self.0
    }
}

impl<T> From<T> for BinCode<T> {
    fn from(data: T) -> (r: BinCode<T>) {
        BinCode(data)
    }
}

impl<T> vstd::std_specs::convert::FromSpecImpl<T> for BinCode<T> {
    open spec fn obeys_from_spec() -> bool {
        true
    }

    closed spec fn from_spec(v: T) -> BinCode<T> {
        BinCode(v)
    }
}

/// What `from` wraps, `into_inner` gives back.
pub proof fn lemma_bin_code_round_trip<T>(v: T)
    ensures
        <BinCode<T> as vstd::std_specs::convert::FromSpec<T>>::from_spec(v).inner() == v,
{
}

} // verus!

//! A single header: a name/value text pair. Plain value container with no
//! validation; uniqueness of names within a request is the request's
//! concern, not this type's.
use vstd::prelude::*;

use crate::model::PairView;

verus! {

/// An HTTP request header: one name/value text pair.
#[derive(Clone)]
pub struct Header {
    name: String,
    value: String,
}

impl View for Header {
    type V = PairView;

    closed spec fn view(&self) -> PairView {
        PairView { name: self.name@, value: self.value@ }
    }
}

impl DeepView for Header {
    type V = PairView;

    open spec fn deep_view(&self) -> PairView {
        self.view()
    }
}

impl Header {
    /// Makes a header from a name and a value; the texts are stored as
    /// given, with no validation.
    pub fn new(name: String, value: String) -> (r: Header)
        ensures
            r@ == (PairView { name: name@, value: value@ }),
    {
        Header { name, value }
    }

    /// The header's name.
    pub fn name(&self) -> (r: &String)
        ensures
            r@ == self@.name,
    {
        &self.name
    }

    /// Replaces the header's name.
    pub fn set_name(&mut self, name: String)
        ensures
            final(self)@ == (PairView { name: name@, value: old(self)@.value }),
    {
        self.name = name;
    }

    /// The header's value.
    pub fn value(&self) -> (r: &String)
        ensures
            r@ == self@.value,
    {
        &self.value
    }

    /// Replaces the header's value.
    pub fn set_value(&mut self, value: String)
        ensures
            final(self)@ == (PairView { name: old(self)@.name, value: value@ }),
    {
        self.value = value;
    }
}

} // verus!

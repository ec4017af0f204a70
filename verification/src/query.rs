//! A single query parameter: a name/value text pair extracted from the
//! request target's query string. Plain value container, like `Header`;
//! uniqueness of names within a request is the request's concern.
use vstd::prelude::*;

use crate::model::PairView;

verus! {

/// A query parameter: one name/value text pair.
#[derive(Clone)]
pub struct Query {
    name: String,
    value: String,
}

impl View for Query {
    type V = PairView;

    closed spec fn view(&self) -> PairView {
        PairView { name: self.name@, value: self.value@ }
    }
}

impl DeepView for Query {
    type V = PairView;

    open spec fn deep_view(&self) -> PairView {
        self.view()
    }
}

impl Query {
    /// Makes a query parameter from a name and a value; the texts are
    /// stored as given, with no validation.
    pub fn new(name: String, value: String) -> (r: Query)
        ensures
            r@ == (PairView { name: name@, value: value@ }),
    {
        Query { name, value }
    }

    /// The parameter's name.
    pub fn name(&self) -> (r: &String)
        ensures
            r@ == self@.name,
    {
        &self.name
    }

    /// Replaces the parameter's name.
    pub fn set_name(&mut self, name: String)
        ensures
            final(self)@ == (PairView { name: name@, value: old(self)@.value }),
    {
        self.name = name;
    }

    /// The parameter's value.
    pub fn value(&self) -> (r: &String)
        ensures
            r@ == self@.value,
    {
        &self.value
    }

    /// Replaces the parameter's value.
    pub fn set_value(&mut self, value: String)
        ensures
            final(self)@ == (PairView { name: old(self)@.name, value: value@ }),
    {
        self.value = value;
    }
}

} // verus!

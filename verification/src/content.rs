//! The record that the registry keeps for each piece of content.

use vstd::prelude::*;
use crate::account::AccountId;
use crate::model::ContentView;

verus! {

/// A piece of registered content: its fingerprint and its current owner.
#[derive(Debug)]
pub struct Content {
    pub content_hash: String,
    pub owner: AccountId,
}

impl View for Content {
    type V = ContentView;

    open spec fn view(&self) -> ContentView {
        ContentView { content_hash: self.content_hash@, owner: self.owner }
    }
}

impl Clone for Content {
    fn clone(&self) -> (r: Self)
        ensures
            r@ == self@,
    {
        Content { content_hash: self.content_hash.clone(), owner: self.owner }
    }
}

impl PartialEq for Content {
    fn eq(&self, other: &Self) -> (r: bool) {
        self.content_hash == other.content_hash && self.owner == other.owner
    }
}

impl Eq for Content {

}

impl vstd::std_specs::cmp::PartialEqSpecImpl for Content {
    open spec fn obeys_eq_spec() -> bool {
        true
    }

    open spec fn eq_spec(&self, other: &Self) -> bool {
        self@ == other@
    }
}

} // verus!

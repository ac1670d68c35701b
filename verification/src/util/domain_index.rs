//! The numbered domain names of a listener.

use std::collections::HashMap;
use vstd::prelude::*;

verus! {

/// The table that a domain matcher is built from: each number with its domain name, and
/// the number that a match is to give.
#[derive(Debug)]
pub struct DomainIndex {
    pub index_map: HashMap<i32, (String, i32)>,
}

impl View for DomainIndex {
    type V = Map<i32, (String, i32)>;

    open spec fn view(&self) -> Map<i32, (String, i32)> {
        self.index_map@
    }
}

} // verus!

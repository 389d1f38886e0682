use vstd::prelude::*;
use crate::produceable::Produceable;

verus! {

/// The `make` request: which record to scaffold.
#[derive(Debug)]
pub struct Make {
    pub make: Produceable,
}

} // verus!

use vstd::prelude::*;
use crate::key::Thing;

verus! {

/// Why storing the edges of a relate mutation failed.
#[derive(Clone, Debug)]
pub enum Error {
    /// The namespace or the database is not set on the options.
    MissingContext,
    /// An endpoint of an enforced relation is not a stored record.
    EndpointNotFound(Thing),
    /// The store refused a write or a counter update.
    StorageFault,
}

} // verus!

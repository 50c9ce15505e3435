//! The engine's startup configuration.
//!
//! Collaborators load this from wherever they keep it (a file, an
//! environment) and hand it over; the engine itself only consumes the
//! plain values.
use crate::schema::Schema;
use vstd::prelude::*;

verus! {

/// What the engine needs to start: the schemas of the collections it
/// serves and the name of its storage file.
pub struct Configuration {
    /// The collection schemas the engine serves.
    pub schemas: Vec<Schema>,
    /// The name of the storage file the collaborators persist the
    /// store's bytes in.
    pub filename: String,
}

impl Configuration {
    /// Bundles the collection schemas with the storage file name.
    pub fn new(schemas: Vec<Schema>, filename: String) -> (r: Self)
        ensures
            r.schemas == schemas,
            r.filename == filename,
    {
        Configuration { schemas, filename }
    }
}

} // verus!

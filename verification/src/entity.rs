//! The user-curated entity model: what identifies a stored entity, how a
//! creation payload becomes one, and the failure a duplicate insertion
//! raises. Persistence itself lives outside the engine.
use vstd::prelude::*;

verus! {

/// A stored entity, identified by a key string unique within its store.
pub trait Entity {
    /// The identifying key.
    spec fn spec_identifier(&self) -> Seq<char>;

    /// The identifying key, as a fresh string.
    fn identifier(&self) -> (r: String)
        ensures
            r@ == self.spec_identifier(),
    ;
}

/// A creation payload that can be turned into a stored entity.
pub trait EntityCreatePayload<E> {
    /// Builds the entity, minting whatever the payload does not carry.
    fn to_entity(&self) -> E;
}

/// Failure of an entity-store operation.
#[derive(Debug, Clone, Copy, PartialEq, Eq)]
pub enum EntityError {
    /// An entity with the same identifier is already stored.
    AlreadyExists,
}

impl EntityError {
    /// A short human-readable description of the failure.
    pub fn message(&self) -> (r: &'static str)
        ensures
            r@ == "Entity already exists"@,
    {
        "Entity already exists"
    }
}

/// Relies on uuid::Uuid::new_v4 and its hyphenated rendering: a freshly
/// drawn random identifier. Nothing is promised of the value.
#[verifier::external_body]
pub(crate) fn fresh_id() -> (r: String) {
    uuid::Uuid::new_v4().to_string()
}

} // verus!

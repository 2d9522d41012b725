//! Entities as stored in the knowledge base.
use vstd::prelude::*;

verus! {

/// The model's verdict on one entity.
pub struct EntityVerdict {
    pub name: String,
    pub aliases: Vec<String>,
    pub entity_type: EntityType,
    pub description: String,
    /// From 1 to 10.
    pub importance: u8,
}

/// The classification of an entity.
#[derive(Debug, Clone, Copy, PartialEq, Eq, Structural)]
pub enum EntityType {
    /// A specific character.
    Person,
    /// A race or biological species.
    Race,
    /// A place.
    Location,
    /// A group or structure.
    Organization,
    /// An important object.
    Object,
    /// An event, mission, operation or battle.
    Event,
    /// Anything else.
    Unknown,
}

impl Default for EntityType {
    fn default() -> (r: EntityType)
        ensures
            r == EntityType::Unknown,
    {
        EntityType::Unknown
    }
}

} // verus!

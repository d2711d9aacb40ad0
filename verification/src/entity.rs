//! The handle by which a piece is known to the world that draws it.

use vstd::prelude::*;

verus! {

/// `bevy::ecs::entity::Entity`, an opaque identifier that is copied and
/// compared but never looked into. Nothing is claimed of what it holds.
#[verifier::external_type_specification]
#[verifier::external_body]
pub struct ExEntity(bevy::ecs::entity::Entity);

} // verus!

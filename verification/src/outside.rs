//! The outside items that the plugin's logic touches: the ECS entity handle,
//! Rust's type identifiers, and the graph error of the orchestration engine.
//! Each function here makes one outside call; its contract is believed, not
//! proved.
use vstd::prelude::*;

verus! {

/// An entity handle of the ECS, carried through the library unread.
#[verifier::external_type_specification]
#[verifier::external_body]
pub struct ExEntity(bevy::ecs::entity::Entity);

/// A type identifier of the Rust runtime, compared and carried unread.
#[verifier::external_type_specification]
#[verifier::external_body]
pub struct ExTypeId(std::any::TypeId);

/// The engine's error for a graph that cannot be scheduled.
#[verifier::external_type_specification]
#[verifier::external_body]
pub struct ExGraphError(action_orc::GraphError);

/// Calls `<TypeId as PartialEq>::eq`. `TypeId` derives its equality from its
/// contents, so two identifiers compare equal exactly when they are the same
/// value; the contract claims that and nothing more.
#[verifier::external_body]
pub(crate) fn same_type(a: &std::any::TypeId, b: &std::any::TypeId) -> (r: bool)
    ensures
        r == (*a == *b),
{
    *a == *b
}

/// The `Debug` text of an entity: `{index}v{generation}`, or `PLACEHOLDER`.
/// It depends on the entity alone.
pub uninterp spec fn entity_text(entity: bevy::ecs::entity::Entity) -> Seq<char>;

/// Calls the `Debug` formatting of `bevy::ecs::entity::Entity`; the result is
/// claimed to be the entity's `Debug` text, named `entity_text`.
#[verifier::external_body]
pub(crate) fn entity_label(entity: &bevy::ecs::entity::Entity) -> (text: String)
    ensures
        text@ == entity_text(*entity),
{
    format!("{entity:?}")
}

/// Calls the `Debug` formatting of `action_orc::GraphError`. The error has one
/// variant, `CycleDetected`, and derives `Debug`, so the text is that name.
#[verifier::external_body]
pub(crate) fn graph_error_label(err: &action_orc::GraphError) -> (text: String)
    ensures
        text@ == "CycleDetected"@,
{
    format!("{err:?}")
}

} // verus!

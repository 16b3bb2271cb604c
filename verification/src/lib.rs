//! The decision logic of an ECS plugin that drives action-orchestration graphs:
//! a registry of per-type lifecycle handlers, the handler calls that each
//! tick of an orchestrator leads to, the marker components that each
//! lifecycle event leaves behind, and the requests that resolve a node.
use vstd::prelude::*;
use bevy::ecs::entity::Entity;
use action_orc::GraphError;
use action_orc::NodeId;
use crate::outside::{entity_label, entity_text, graph_error_label};

pub mod outside;
pub mod type_map;
pub mod dispatcher;
pub mod schedule;
pub mod events;
pub mod orc;

verus! {

/// The node of an orchestration graph that an entity stands for: the entity
/// of the orchestrator that owns it, and the node's index in that graph.
#[derive(Clone, Copy, Debug)]
pub struct OrcNode {
    pub orc_id: Entity,
    pub node_id: NodeId,
}

impl OrcNode {
    /// The node `node_id` of the orchestrator entity `orc_id`.
    pub fn new(orc_id: Entity, node_id: NodeId) -> (node: Self)
        ensures
            node.orc_id == orc_id,
            node.node_id == node_id,
    {
        OrcNode { orc_id, node_id }
    }
}

/// Why the plugin could not carry out a step of an orchestration.
#[derive(Debug)]
pub enum OrcError {
    /// The entity holds no node component.
    NodeMissing(Entity),
    /// The entity holds no orchestrator component.
    ReactorMissing(Entity),
    /// No handler is registered for the node's type; names that type.
    TypeIdMissing { type_label: &'static str },
    /// A node index has no entity in the orchestrator's entity map.
    NodeEntityMismatch,
    /// The orchestration engine failed.
    Reactor(GraphError),
}

/// The text of an error, given the text of its payload (the entity for the
/// two missing-component errors, the engine's error for an engine failure;
/// the other variants ignore it).
pub open spec fn error_text(err: OrcError, detail: Seq<char>) -> Seq<char> {
    match err {
        OrcError::NodeMissing(_) => "OrcNode component is missing on entity "@ + detail + "."@,
        OrcError::ReactorMissing(_) => "Orc (Reactor) component is missing on entity "@ + detail
            + "."@,
        OrcError::TypeIdMissing { type_label } =>
            "Type registration mapping is missing in registries for type '"@ + type_label@ + "'."@,
        OrcError::NodeEntityMismatch => "Mismatched NodeId within Reactor's entity map."@,
        OrcError::Reactor(_) => "Reactor execution failed: "@ + detail,
    }
}

/// The `Debug` text of an error's payload: the entity for the two
/// missing-component errors, the engine error's name for an engine failure,
/// nothing for the others.
pub open spec fn payload_text(err: OrcError) -> Seq<char> {
    match err {
        OrcError::NodeMissing(e) => entity_text(e),
        OrcError::ReactorMissing(e) => entity_text(e),
        OrcError::Reactor(_) => "CycleDetected"@,
        _ => Seq::empty(),
    }
}

impl OrcError {
    /// The error's text, with `detail` standing for the text of its payload.
    pub fn message_with(&self, detail: &str) -> (text: String)
        ensures
            text@ == error_text(*self, detail@),
    {
        match self {
            OrcError::NodeMissing(_) => String::from_str("OrcNode component is missing on entity ")
                .concat(detail).concat("."),
            OrcError::ReactorMissing(_) => String::from_str(
                "Orc (Reactor) component is missing on entity ",
            ).concat(detail).concat("."),
            OrcError::TypeIdMissing { type_label } => String::from_str(
                "Type registration mapping is missing in registries for type '",
            ).concat(type_label).concat("'."),
            OrcError::NodeEntityMismatch => String::from_str(
                "Mismatched NodeId within Reactor's entity map.",
            ),
            OrcError::Reactor(_) => String::from_str("Reactor execution failed: ").concat(detail),
        }
    }

    /// The error's text: the payload is printed with its `Debug` form.
    pub fn message(&self) -> (text: String)
        ensures
            text@ == error_text(*self, payload_text(*self)),
    {
        let detail = match self {
            OrcError::NodeMissing(e) => entity_label(e),
            OrcError::ReactorMissing(e) => entity_label(e),
            OrcError::Reactor(err) => graph_error_label(err),
            _ => String::new(),
        };
        self.message_with(detail.as_str())
    }
}

/// An engine failure becomes the `Reactor` error.
impl From<GraphError> for OrcError {
    fn from(err: GraphError) -> (e: OrcError) {
        OrcError::Reactor(err)
    }
}

impl vstd::std_specs::convert::FromSpecImpl<GraphError> for OrcError {
    open spec fn obeys_from_spec() -> bool {
        true
    }

    open spec fn from_spec(v: GraphError) -> OrcError {
        OrcError::Reactor(v)
    }
}

} // verus!

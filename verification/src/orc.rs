//! An orchestrator as the ECS holds it: the scheduling engine together with
//! the entity that stands for each of its nodes; and the registry of the
//! marker types that announce each node type's lifecycle.
use vstd::prelude::*;
use std::any::TypeId;
use bevy::ecs::entity::Entity;
use action_orc::NodeId;
use crate::OrcError;
use crate::type_map::TypeMap;
use crate::schedule::{NodeStatus, Resolution};

verus! {

/// A scheduling engine `E` and, for each node index, the entity of that node.
pub struct Orc<E> {
    pub orchestrator: E,
    pub entity_map: Vec<Entity>,
}

impl<E> Orc<E> {
    /// The node entities, by node index.
    pub open spec fn entities(&self) -> Seq<Entity> {
        self.entity_map@
    }

    /// The engine `orchestrator` with node entities `entity_map`.
    pub fn new(orchestrator: E, entity_map: Vec<Entity>) -> (orc: Self)
        ensures
            orc.orchestrator == orchestrator,
            orc.entities() == entity_map@,
    {
        Orc { orchestrator, entity_map }
    }

    /// The entity of node `node_id`, or `NodeEntityMismatch` where the node
    /// has none.
    pub fn entity(&self, node_id: NodeId) -> (r: Result<&Entity, OrcError>)
        ensures
            node_id < self.entities().len() ==> (r matches Ok(e) && *e == self.entities()[node_id as int]),
            node_id >= self.entities().len() ==> r matches Err(OrcError::NodeEntityMismatch),
    {
        if node_id < self.entity_map.len() {
            Ok(&self.entity_map[node_id])
        } else {
            Err(OrcError::NodeEntityMismatch)
        }
    }

    /// The node entities, by node index.
    pub fn entity_map(&self) -> (m: &Vec<Entity>)
        ensures
            m@ == self.entities(),
    {
        &self.entity_map
    }
}

/// For each node type, the marker type inserted when a node of that type
/// starts, and the one inserted when it finishes.
pub struct OrcTypeRegistry {
    started: TypeMap<TypeId>,
    finished: TypeMap<TypeId>,
}

impl OrcTypeRegistry {
    /// The start markers, by node type.
    pub closed spec fn started_markers(&self) -> Map<TypeId, TypeId> {
        self.started@
    }

    /// The finish markers, by node type.
    pub closed spec fn finished_markers(&self) -> Map<TypeId, TypeId> {
        self.finished@
    }

    pub closed spec fn wf(&self) -> bool {
        self.started.wf() && self.finished.wf()
    }

    /// A registry with no node types.
    pub fn new() -> (r: Self)
        ensures
            r.wf(),
            r.started_markers() == Map::<TypeId, TypeId>::empty(),
            r.finished_markers() == Map::<TypeId, TypeId>::empty(),
    {
        OrcTypeRegistry { started: TypeMap::new(), finished: TypeMap::new() }
    }

    /// Registers the node type `node` with its two marker types, replacing
    /// what it was registered with before.
    pub fn register(&mut self, node: TypeId, started: TypeId, finished: TypeId)
        requires
            old(self).wf(),
        ensures
            final(self).wf(),
            final(self).started_markers() == old(self).started_markers().insert(node, started),
            final(self).finished_markers() == old(self).finished_markers().insert(node, finished),
    {
        self.started.insert(node, started);
        self.finished.insert(node, finished);
    }

    /// The marker type that announces that a node of type `node` started.
    pub fn started_marker(&self, node: &TypeId) -> (r: Option<&TypeId>)
        requires
            self.wf(),
        ensures
            match r {
                Some(t) => self.started_markers().contains_key(*node) && *t
                    == self.started_markers()[*node],
                None => !self.started_markers().contains_key(*node),
            },
    {
        self.started.get(node)
    }

    /// The marker type that announces that a node of type `node` finished.
    pub fn finished_marker(&self, node: &TypeId) -> (r: Option<&TypeId>)
        requires
            self.wf(),
        ensures
            match r {
                Some(t) => self.finished_markers().contains_key(*node) && *t
                    == self.finished_markers()[*node],
                None => !self.finished_markers().contains_key(*node),
            },
    {
        self.finished.get(node)
    }

    /// The marker type a status change of a node of type `node` inserts: the
    /// start marker when it starts, the finish marker when it finishes; a
    /// reset inserts none.
    pub open spec fn marker_spec(&self, node: TypeId, status: NodeStatus) -> Option<TypeId> {
        match status {
            NodeStatus::Started => if self.started_markers().contains_key(node) {
                Some(self.started_markers()[node])
            } else {
                None
            },
            NodeStatus::Resolved(Resolution::Finished) => if self.finished_markers().contains_key(
                node,
            ) {
                Some(self.finished_markers()[node])
            } else {
                None
            },
            NodeStatus::Resolved(Resolution::Reset) => None,
        }
    }

    /// The marker type that the status change `status` of a node of type
    /// `node` inserts, if any.
    pub fn marker_for(&self, node: &TypeId, status: &NodeStatus) -> (r: Option<&TypeId>)
        requires
            self.wf(),
        ensures
            match (r, self.marker_spec(*node, *status)) {
                (Some(t), Some(u)) => *t == u,
                (None, None) => true,
                _ => false,
            },
    {
        match status {
            NodeStatus::Started => self.started.get(node),
            NodeStatus::Resolved(Resolution::Finished) => self.finished.get(node),
            NodeStatus::Resolved(Resolution::Reset) => None,
        }
    }
}

} // verus!

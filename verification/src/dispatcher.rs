//! The handler registry: for each lifecycle event and each registered node
//! type, the handler that announces that event for nodes of that type.
use vstd::prelude::*;
use std::any::TypeId;
use crate::OrcError;
use crate::type_map::TypeMap;

verus! {

/// A lifecycle event of a node.
#[derive(PartialEq, Eq, Structural, Clone, Copy, Debug, Hash)]
pub enum Event {
    Start,
    Finish,
    Reset,
}

/// What the dispatcher needs to know of a node's type: the identifier it is
/// registered under, and the short name that errors report.
#[derive(Clone, Copy, Debug)]
pub struct NodeType {
    pub type_id: TypeId,
    pub label: &'static str,
}

impl NodeType {
    /// The node type with identifier `type_id` and short name `label`.
    pub fn new(type_id: TypeId, label: &'static str) -> (t: Self)
        ensures
            t.type_id == type_id,
            t.label == label,
    {
        NodeType { type_id, label }
    }
}

/// One handler table per lifecycle event, each keyed by node type.
pub struct Dispatcher<H> {
    start: TypeMap<H>,
    finish: TypeMap<H>,
    reset: TypeMap<H>,
}

impl<H> Dispatcher<H> {
    /// The handlers registered for `event`, by node type.
    pub closed spec fn table(&self, event: Event) -> Map<TypeId, H> {
        match event {
            Event::Start => self.start@,
            Event::Finish => self.finish@,
            Event::Reset => self.reset@,
        }
    }

    pub closed spec fn wf(&self) -> bool {
        &&& self.start.wf()
        &&& self.finish.wf()
        &&& self.reset.wf()
    }

    /// Whether a handler for `event` is registered for the type `type_id`.
    pub open spec fn handles(&self, event: Event, type_id: TypeId) -> bool {
        self.table(event).contains_key(type_id)
    }

    /// The result of looking up the handler of `event` for a node of type
    /// `node`: the handler, or the error that names the unregistered type.
    pub open spec fn lookup(&self, event: Event, node: NodeType) -> Result<H, OrcError> {
        if self.handles(event, node.type_id) {
            Ok(self.table(event)[node.type_id])
        } else {
            Err(OrcError::TypeIdMissing { type_label: node.label })
        }
    }

    /// A dispatcher with no handlers.
    pub fn new() -> (d: Self)
        ensures
            d.wf(),
            forall|e: Event| #[trigger] d.table(e) == Map::<TypeId, H>::empty(),
    {
        Dispatcher { start: TypeMap::new(), finish: TypeMap::new(), reset: TypeMap::new() }
    }

    /// Registers `handler` for `event` on nodes of type `type_id`, replacing
    /// any handler registered there before.
    pub fn insert(&mut self, event: Event, type_id: TypeId, handler: H)
        requires
            old(self).wf(),
        ensures
            final(self).wf(),
            final(self).table(event) == old(self).table(event).insert(type_id, handler),
            forall|e: Event| e != event ==> #[trigger] final(self).table(e) == old(self).table(e),
    {
        match event {
            Event::Start => self.start.insert(type_id, handler),
            Event::Finish => self.finish.insert(type_id, handler),
            Event::Reset => self.reset.insert(type_id, handler),
        }
    }

    /// Registers a node type: its start, finish and reset handlers.
    pub fn register(&mut self, type_id: TypeId, on_start: H, on_finish: H, on_reset: H)
        requires
            old(self).wf(),
        ensures
            final(self).wf(),
            registered(*old(self), *final(self), type_id, on_start, on_finish, on_reset),
    {
        self.insert(Event::Start, type_id, on_start);
        self.insert(Event::Finish, type_id, on_finish);
        self.insert(Event::Reset, type_id, on_reset);
    }

    /// The handler of `command` for nodes of type `node`; `TypeIdMissing`,
    /// naming the type, where none is registered.
    pub fn typed_fn(&self, command: Event, node: &NodeType) -> (r: Result<&H, OrcError>)
        requires
            self.wf(),
        ensures
            match (r, self.lookup(command, *node)) {
                (Ok(h), Ok(g)) => *h == g,
                (Err(e), Err(f)) => e == f,
                _ => false,
            },
    {
        let found = match command {
            Event::Start => self.start.get(&node.type_id),
            Event::Finish => self.finish.get(&node.type_id),
            Event::Reset => self.reset.get(&node.type_id),
        };
        match found {
            Some(h) => Ok(h),
            None => Err(OrcError::TypeIdMissing { type_label: node.label }),
        }
    }

    /// The handler that announces that a node of type `node` started.
    pub fn start(&self, node: &NodeType) -> (r: Result<&H, OrcError>)
        requires
            self.wf(),
        ensures
            match (r, self.lookup(Event::Start, *node)) {
                (Ok(h), Ok(g)) => *h == g,
                (Err(e), Err(f)) => e == f,
                _ => false,
            },
    {
        self.typed_fn(Event::Start, node)
    }

    /// The handler that announces that a node of type `node` finished.
    pub fn finish(&self, node: &NodeType) -> (r: Result<&H, OrcError>)
        requires
            self.wf(),
        ensures
            match (r, self.lookup(Event::Finish, *node)) {
                (Ok(h), Ok(g)) => *h == g,
                (Err(e), Err(f)) => e == f,
                _ => false,
            },
    {
        self.typed_fn(Event::Finish, node)
    }

    /// The handler that announces that a node of type `node` was reset.
    pub fn reset(&self, node: &NodeType) -> (r: Result<&H, OrcError>)
        requires
            self.wf(),
        ensures
            match (r, self.lookup(Event::Reset, *node)) {
                (Ok(h), Ok(g)) => *h == g,
                (Err(e), Err(f)) => e == f,
                _ => false,
            },
    {
        self.typed_fn(Event::Reset, node)
    }
}

impl<H> Default for Dispatcher<H> {
    fn default() -> (d: Self)
        ensures
            d.wf(),
            forall|e: Event| #[trigger] d.table(e) == Map::<TypeId, H>::empty(),
    {
        Dispatcher::new()
    }
}

/// `after` is `before` with the node type `type_id` registered with the
/// three handlers.
pub open spec fn registered<H>(
    before: Dispatcher<H>,
    after: Dispatcher<H>,
    type_id: TypeId,
    on_start: H,
    on_finish: H,
    on_reset: H,
) -> bool {
    &&& after.table(Event::Start) == before.table(Event::Start).insert(type_id, on_start)
    &&& after.table(Event::Finish) == before.table(Event::Finish).insert(type_id, on_finish)
    &&& after.table(Event::Reset) == before.table(Event::Reset).insert(type_id, on_reset)
}

/// Once a node type is registered, looking up any of its events gives back
/// the handler registered for that event; the lookups of every other type
/// are as they were.
pub proof fn lemma_lookup_after_register<H>(
    before: Dispatcher<H>,
    after: Dispatcher<H>,
    type_id: TypeId,
    on_start: H,
    on_finish: H,
    on_reset: H,
    node: NodeType,
    event: Event,
)
    requires
        registered(before, after, type_id, on_start, on_finish, on_reset),
    ensures
        node.type_id == type_id ==> after.lookup(event, node) == Ok::<H, OrcError>(
            match event {
                Event::Start => on_start,
                Event::Finish => on_finish,
                Event::Reset => on_reset,
            },
        ),
        node.type_id != type_id ==> after.lookup(event, node) == before.lookup(event, node),
{
}

/// A lookup fails exactly for the types that have no handler for the event,
/// and the error names the node's type.
pub proof fn lemma_lookup_fails_only_unregistered<H>(d: Dispatcher<H>, event: Event, node: NodeType)
    ensures
        d.lookup(event, node) is Err <==> !d.handles(event, node.type_id),
        d.lookup(event, node) is Err ==> d.lookup(event, node) == Err::<H, OrcError>(
            OrcError::TypeIdMissing { type_label: node.label },
        ),
{
}

} // verus!

//! What the plugin does on each tick of an orchestrator: which lifecycle
//! handlers it calls, for which entities, and in which order; and the
//! requests by which a node's system resolves it.
use vstd::prelude::*;
use bevy::ecs::entity::Entity;
use action_orc::NodeId;
use crate::{OrcError, OrcNode};
use crate::dispatcher::{Dispatcher, Event, NodeType};

verus! {

/// What a tick of the orchestrator reports about the schedule as a whole.
#[derive(PartialEq, Eq, Structural, Clone, Copy, Debug)]
pub enum State {
    /// The schedule goes on.
    Running,
    /// The schedule is exhausted and does not loop: the orchestrator is done.
    Ended,
    /// The schedule is exhausted and loops: every node starts over.
    Restarted,
}

/// How a node was resolved.
#[derive(PartialEq, Eq, Structural, Clone, Copy, Debug)]
pub enum Resolution {
    Finished,
    Reset,
}

/// A change of one node's status, as the orchestrator reports it.
#[derive(PartialEq, Eq, Structural, Clone, Copy, Debug)]
pub enum NodeStatus {
    Started,
    Resolved(Resolution),
}

/// The lifecycle event that announces a status change.
pub open spec fn status_event(status: NodeStatus) -> Event {
    match status {
        NodeStatus::Started => Event::Start,
        NodeStatus::Resolved(Resolution::Finished) => Event::Finish,
        NodeStatus::Resolved(Resolution::Reset) => Event::Reset,
    }
}

/// The lifecycle event that announces `status`.
pub fn event_for(status: &NodeStatus) -> (e: Event)
    ensures
        e == status_event(*status),
        *status == NodeStatus::Started ==> e == Event::Start,
        *status == NodeStatus::Resolved(Resolution::Finished) ==> e == Event::Finish,
        *status == NodeStatus::Resolved(Resolution::Reset) ==> e == Event::Reset,
{
    match status {
        NodeStatus::Started => Event::Start,
        NodeStatus::Resolved(Resolution::Finished) => Event::Finish,
        NodeStatus::Resolved(Resolution::Reset) => Event::Reset,
    }
}

/// One call to make: run `handler` for the node entity `entity`.
pub struct HandlerCall<H> {
    pub handler: H,
    pub entity: Entity,
}

/// What to do with an orchestrator after a tick.
pub enum TickPlan<H> {
    /// Remove the orchestrator's entity; nothing is announced.
    Despawn,
    /// Make `calls` in order; then, if `error` is set, stop with it.
    Run { calls: Vec<HandlerCall<H>>, error: Option<OrcError> },
}

/// The announcements a tick asks for, in order, each as the lifecycle event
/// and the index of the node: on a restart, a reset of each of the first
/// `resets` nodes; then one announcement per drained status change.
pub open spec fn requests(
    state: State,
    resets: nat,
    events: Seq<(NodeId, NodeStatus)>,
) -> Seq<(Event, int)> {
    let restart = if state == State::Restarted {
        Seq::new(resets, |i: int| (Event::Reset, i))
    } else {
        Seq::<(Event, int)>::empty()
    };
    restart + events.map_values(|e: (NodeId, NodeStatus)| (status_event(e.1), e.0 as int))
}

/// How many of the announcements of a tick are restart resets.
pub open spec fn restart_len(state: State, resets: nat) -> nat {
    if state == State::Restarted {
        resets
    } else {
        0
    }
}

/// The layout of a tick's announcements: first the restart resets, node by
/// node, then the status changes, change by change.
pub proof fn lemma_requests_shape(state: State, resets: nat, events: Seq<(NodeId, NodeStatus)>)
    ensures
        requests(state, resets, events).len() == restart_len(state, resets) + events.len(),
        forall|i: int|
            0 <= i < restart_len(state, resets) ==> #[trigger] requests(state, resets, events)[i]
                == (Event::Reset, i),
        forall|i: int|
            0 <= i < events.len() ==> #[trigger] requests(state, resets, events)[restart_len(
                state,
                resets,
            ) + i] == (status_event(events[i].1), events[i].0 as int),
{
}

/// The number of nodes that a restart resets: those with both an entity and
/// a type.
pub open spec fn reset_count(entities: Seq<Entity>, nodes: Seq<NodeType>) -> nat {
    if entities.len() <= nodes.len() {
        entities.len()
    } else {
        nodes.len()
    }
}

/// The request names a node that has an entity and a type.
pub open spec fn in_range(req: (Event, int), entities: Seq<Entity>, nodes: Seq<NodeType>) -> bool {
    0 <= req.1 < entities.len() && req.1 < nodes.len()
}

/// The request names such a node, and a handler is registered for it.
pub open spec fn served<H>(
    d: Dispatcher<H>,
    req: (Event, int),
    entities: Seq<Entity>,
    nodes: Seq<NodeType>,
) -> bool {
    in_range(req, entities, nodes) && d.handles(req.0, nodes[req.1].type_id)
}

/// All requests before the `k`-th are served.
pub open spec fn served_before<H>(
    d: Dispatcher<H>,
    reqs: Seq<(Event, int)>,
    k: int,
    entities: Seq<Entity>,
    nodes: Seq<NodeType>,
) -> bool {
    forall|j: int| 0 <= j < k ==> #[trigger] served(d, reqs[j], entities, nodes)
}

/// Every request that is reached (all before it served) names a node that has
/// an entity and a type: the tick would index out of bounds otherwise.
pub open spec fn reached_in_range<H>(
    d: Dispatcher<H>,
    reqs: Seq<(Event, int)>,
    entities: Seq<Entity>,
    nodes: Seq<NodeType>,
) -> bool {
    forall|k: int|
        0 <= k < reqs.len() && #[trigger] served_before(d, reqs, k, entities, nodes) ==> in_range(
            reqs[k],
            entities,
            nodes,
        )
}

/// The call that serves a request.
pub open spec fn call_for<H>(
    d: Dispatcher<H>,
    req: (Event, int),
    entities: Seq<Entity>,
    nodes: Seq<NodeType>,
) -> HandlerCall<H> {
    HandlerCall { handler: d.table(req.0)[nodes[req.1].type_id], entity: entities[req.1] }
}

/// `plan` serves the requests `reqs` in order up to the first one that has no
/// handler, and stops there with the error that names that node's type.
pub open spec fn serves_in_order<H>(
    d: Dispatcher<H>,
    reqs: Seq<(Event, int)>,
    entities: Seq<Entity>,
    nodes: Seq<NodeType>,
    calls: Seq<HandlerCall<H>>,
    error: Option<OrcError>,
) -> bool {
    &&& calls.len() <= reqs.len()
    &&& forall|i: int|
        0 <= i < calls.len() ==> served(d, #[trigger] reqs[i], entities, nodes) && calls[i]
            == call_for(d, reqs[i], entities, nodes)
    &&& (error is None <==> calls.len() == reqs.len())
    &&& error is Some ==> {
        let req = reqs[calls.len() as int];
        &&& in_range(req, entities, nodes)
        &&& !served(d, req, entities, nodes)
        &&& error->0 == OrcError::TypeIdMissing { type_label: nodes[req.1].label }
    }
}

/// What a tick that does not end does, stated directly over its inputs:
/// with `resets` the smaller of the numbers of node entities and node types on
/// a restart (none otherwise), the first calls reset nodes `0, 1, ...` on their
/// own entities through the reset handler of their types; the calls after
/// them announce the drained status changes in order, each on the entity of
/// its node through the handler of its event for that node's type; the tick
/// makes all `resets` plus one call per change unless it stops, and it stops
/// exactly at the first node type that lacks the handler, with the error that
/// names that type; and it never stops when every node type has every
/// handler.
pub open spec fn tick_law<H>(
    d: Dispatcher<H>,
    state: State,
    entities: Seq<Entity>,
    nodes: Seq<NodeType>,
    events: Seq<(NodeId, NodeStatus)>,
    calls: Seq<HandlerCall<H>>,
    error: Option<OrcError>,
) -> bool {
    state != State::Ended ==> tick_law_after_resets(
        d,
        if state == State::Restarted {
            vstd::math::min(entities.len() as int, nodes.len() as int)
        } else {
            0
        },
        entities,
        nodes,
        events,
        calls,
        error,
    )
}

/// `tick_law` once the number of restart resets, `resets`, is fixed.
pub open spec fn tick_law_after_resets<H>(
    d: Dispatcher<H>,
    resets: int,
    entities: Seq<Entity>,
    nodes: Seq<NodeType>,
    events: Seq<(NodeId, NodeStatus)>,
    calls: Seq<HandlerCall<H>>,
    error: Option<OrcError>,
) -> bool {
    &&& calls.len() <= resets + events.len()
    &&& (error is None <==> calls.len() == resets + events.len())
    &&& resets_come_first(d, resets, entities, nodes, calls)
    &&& changes_follow_in_order(d, resets, entities, nodes, events, calls)
    &&& stops_at_missing_handler(d, resets, entities, nodes, events, calls, error)
    &&& (forall|i: int, e: Event|
        0 <= i < nodes.len() ==> #[trigger] d.handles(e, nodes[i].type_id)) ==> error is None
}

/// The first `resets` calls reset node `i` on `entities[i]`, through the
/// reset handler of `nodes[i]`'s type.
pub open spec fn resets_come_first<H>(
    d: Dispatcher<H>,
    resets: int,
    entities: Seq<Entity>,
    nodes: Seq<NodeType>,
    calls: Seq<HandlerCall<H>>,
) -> bool {
    forall|i: int|
        #![trigger calls[i]]
        0 <= i < calls.len() && i < resets ==> calls[i].entity == entities[i] && d.handles(
            Event::Reset,
            nodes[i].type_id,
        ) && calls[i].handler == d.table(Event::Reset)[nodes[i].type_id]
}

/// The lifecycle event that announces a status change.
pub open spec fn announced_by(status: NodeStatus) -> Event {
    match status {
        NodeStatus::Started => Event::Start,
        NodeStatus::Resolved(Resolution::Finished) => Event::Finish,
        NodeStatus::Resolved(Resolution::Reset) => Event::Reset,
    }
}

/// The calls after the first `resets` announce `events` in order: the call
/// at `resets + j` runs, on the entity of the node of `events[j]`, the handler
/// of its event for that node's type.
pub open spec fn changes_follow_in_order<H>(
    d: Dispatcher<H>,
    resets: int,
    entities: Seq<Entity>,
    nodes: Seq<NodeType>,
    events: Seq<(NodeId, NodeStatus)>,
    calls: Seq<HandlerCall<H>>,
) -> bool {
    forall|k: int|
        #![trigger calls[k]]
        resets <= k < calls.len() ==> {
            let j = k - resets;
            let id = events[j].0 as int;
            &&& 0 <= j < events.len()
            &&& calls[k].entity == entities[id]
            &&& d.handles(announced_by(events[j].1), nodes[id].type_id)
            &&& calls[k].handler == d.table(announced_by(events[j].1))[nodes[id].type_id]
        }
}

/// Where the tick stops early, the next announcement names a node whose
/// type has no handler for it, and the error names that type.
pub open spec fn stops_at_missing_handler<H>(
    d: Dispatcher<H>,
    resets: int,
    entities: Seq<Entity>,
    nodes: Seq<NodeType>,
    events: Seq<(NodeId, NodeStatus)>,
    calls: Seq<HandlerCall<H>>,
    error: Option<OrcError>,
) -> bool {
    &&& error is Some && calls.len() < resets ==> {
        let i = calls.len() as int;
        &&& !d.handles(Event::Reset, nodes[i].type_id)
        &&& error->0 == OrcError::TypeIdMissing { type_label: nodes[i].label }
    }
    &&& error is Some && calls.len() >= resets ==> {
        let j = calls.len() - resets;
        let id = events[j].0 as int;
        &&& 0 <= id < entities.len()
        &&& 0 <= id < nodes.len()
        &&& !d.handles(announced_by(events[j].1), nodes[id].type_id)
        &&& error->0 == OrcError::TypeIdMissing { type_label: nodes[id].label }
    }
}

/// A tick served in order satisfies `tick_law`.
pub proof fn lemma_tick_law<H>(
    d: Dispatcher<H>,
    state: State,
    entities: Seq<Entity>,
    nodes: Seq<NodeType>,
    events: Seq<(NodeId, NodeStatus)>,
    calls: Seq<HandlerCall<H>>,
    error: Option<OrcError>,
)
    requires
        serves_in_order(
            d,
            requests(state, reset_count(entities, nodes), events),
            entities,
            nodes,
            calls,
            error,
        ),
    ensures
        tick_law(d, state, entities, nodes, events, calls, error),
{
    let n = reset_count(entities, nodes);
    let reqs = requests(state, n, events);
    lemma_requests_shape(state, n, events);
    let resets: int = restart_len(state, n) as int;
    assert(resets == (if state == State::Restarted {
        vstd::math::min(entities.len() as int, nodes.len() as int)
    } else {
        0
    }));
    if state != State::Ended {
        assert forall|i: int| #![trigger calls[i]] 0 <= i < calls.len() && i < resets implies calls[i].entity
            == entities[i] && d.handles(Event::Reset, nodes[i].type_id) && calls[i].handler == d.table(
            Event::Reset,
        )[nodes[i].type_id] by {
            assert(reqs[i] == (Event::Reset, i));
            assert(served(d, reqs[i], entities, nodes));
        }
        assert(resets_come_first(d, resets, entities, nodes, calls));
        assert forall|k: int| #![trigger calls[k]] resets <= k < calls.len() implies {
            let j = k - resets;
            let id = events[j].0 as int;
            &&& 0 <= j < events.len()
            &&& calls[k].entity == entities[id]
            &&& d.handles(announced_by(events[j].1), nodes[id].type_id)
            &&& calls[k].handler == d.table(announced_by(events[j].1))[nodes[id].type_id]
        } by {
            let j = k - resets;
            assert(reqs[resets + j] == (status_event(events[j].1), events[j].0 as int));
            assert(served(d, reqs[k], entities, nodes));
        }
        assert(changes_follow_in_order(d, resets, entities, nodes, events, calls));
        if error is Some {
            let k = calls.len() as int;
            assert(in_range(reqs[k], entities, nodes));
            assert(!served(d, reqs[k], entities, nodes));
            if k < resets {
                assert(reqs[k] == (Event::Reset, k));
            } else {
                let j = k - resets;
                assert(reqs[resets + j] == (status_event(events[j].1), events[j].0 as int));
            }
        }
        assert(stops_at_missing_handler(d, resets, entities, nodes, events, calls, error));
        if forall|i: int, e: Event| 0 <= i < nodes.len() ==> #[trigger] d.handles(e, nodes[i].type_id) {
            if error is Some {
                let k = calls.len() as int;
                assert(in_range(reqs[k], entities, nodes));
                assert(d.handles(reqs[k].0, nodes[reqs[k].1].type_id));
            }
        }
        assert(tick_law_after_resets(d, resets, entities, nodes, events, calls, error));
    }
}

/// Decides what a tick of an orchestrator leads to. `state` is what the tick
/// reported, `entity_map` the node entities by node index, `nodes` the node
/// types by node index, and `events` the status changes drained after the
/// tick, in order. An ended orchestrator is despawned; otherwise, on a restart
/// every node is reset, and then each status change is announced through the
/// dispatcher, until a node type without a handler stops the tick.
pub fn plan_tick<H: Copy>(
    dispatcher: &Dispatcher<H>,
    state: State,
    entity_map: &Vec<Entity>,
    nodes: &Vec<NodeType>,
    events: &Vec<(NodeId, NodeStatus)>,
) -> (plan: TickPlan<H>)
    requires
        dispatcher.wf(),
        state != State::Ended ==> reached_in_range(
            *dispatcher,
            requests(state, reset_count(entity_map@, nodes@), events@),
            entity_map@,
            nodes@,
        ),
    ensures
        (plan is Despawn) == (state == State::Ended),
        match plan {
            TickPlan::Despawn => true,
            TickPlan::Run { calls, error } => serves_in_order(
                *dispatcher,
                requests(state, reset_count(entity_map@, nodes@), events@),
                entity_map@,
                nodes@,
                calls@,
                error,
            ),
        },
        match plan {
            TickPlan::Despawn => true,
            TickPlan::Run { calls, error } => tick_law(*dispatcher, state, entity_map@, nodes@, events@, calls@, error),
        },
{
    if state == State::Ended {
        return TickPlan::Despawn;
    }
    let ghost ents = entity_map@;
    let ghost tys = nodes@;
    let ghost n = reset_count(ents, tys);
    let ghost reqs = requests(state, n, events@);
    proof {
        lemma_requests_shape(state, n, events@);
    }
    let mut calls: Vec<HandlerCall<H>> = Vec::new();
    let mut done: usize = 0;
    if state == State::Restarted {
        let resets = if entity_map.len() <= nodes.len() {
            entity_map.len()
        } else {
            nodes.len()
        };
        while done < resets
            invariant
                dispatcher.wf(),
                state == State::Restarted,
                resets == n,
                n <= ents.len(),
                n <= tys.len(),
                ents == entity_map@,
                tys == nodes@,
                reqs == requests(state, n, events@),
                n == reset_count(ents, tys),
                restart_len(state, n) == n,
                forall|i: int| 0 <= i < n ==> #[trigger] reqs[i] == (Event::Reset, i),
                done <= resets,
                calls@.len() == done,
                forall|i: int|
                    0 <= i < done ==> served(*dispatcher, #[trigger] reqs[i], ents, tys)
                        && calls@[i] == call_for(*dispatcher, reqs[i], ents, tys),
            decreases resets - done,
        {
            assert(reqs[done as int] == (Event::Reset, done as int));
            match dispatcher.reset(&nodes[done]) {
                Ok(h) => {
                    calls.push(HandlerCall { handler: *h, entity: entity_map[done] });
                    done = done + 1;
                },
                Err(e) => {
                    proof {
                        lemma_tick_law(*dispatcher, state, ents, tys, events@, calls@, Some(e));
                    }
                    proof {
                    lemma_tick_law(*dispatcher, state, ents, tys, events@, calls@, Some(e));
                }
                return TickPlan::Run { calls, error: Some(e) };
                },
            }
        }
    }
    let ghost base = done as int;
    assert(base == restart_len(state, n));
    let mut k: usize = 0;
    while k < events.len()
        invariant
            dispatcher.wf(),
            state != State::Ended,
            ents == entity_map@,
            tys == nodes@,
            reqs == requests(state, n, events@),
            n == reset_count(ents, tys),
            base == restart_len(state, n),
            reqs.len() == base + events@.len(),
            forall|i: int|
                0 <= i < events@.len() ==> #[trigger] reqs[base + i] == (
                    status_event(events@[i].1),
                    events@[i].0 as int,
                ),
            reached_in_range(*dispatcher, reqs, ents, tys),
            k <= events@.len(),
            calls@.len() == base + k,
            forall|i: int|
                0 <= i < base + k ==> served(*dispatcher, #[trigger] reqs[i], ents, tys)
                    && calls@[i] == call_for(*dispatcher, reqs[i], ents, tys),
        decreases events@.len() - k,
    {
        let (id, status) = events[k];
        let ghost at = base + k;
        assert(reqs[at] == (status_event(status), id as int));
        assert(served_before(*dispatcher, reqs, at, ents, tys));
        assert(in_range(reqs[at], ents, tys));
        let event = event_for(&status);
        match dispatcher.typed_fn(event, &nodes[id]) {
            Ok(h) => {
                calls.push(HandlerCall { handler: *h, entity: entity_map[id] });
                k = k + 1;
            },
            Err(e) => {
                proof {
                    lemma_tick_law(*dispatcher, state, ents, tys, events@, calls@, Some(e));
                }
                return TickPlan::Run { calls, error: Some(e) };
            },
        }
    }
    proof {
        lemma_tick_law(*dispatcher, state, ents, tys, events@, calls@, None);
    }
    TickPlan::Run { calls, error: None }
}

/// Whether `plan_tick` may be called on these inputs: every announcement
/// that the tick reaches (all before it served) names a node that has both an
/// entity and a type. Where this is false, the tick indexes out of bounds.
pub fn tick_in_range<H>(
    dispatcher: &Dispatcher<H>,
    state: State,
    entity_map: &Vec<Entity>,
    nodes: &Vec<NodeType>,
    events: &Vec<(NodeId, NodeStatus)>,
) -> (ok: bool)
    requires
        dispatcher.wf(),
    ensures
        ok == (state == State::Ended || reached_in_range(
            *dispatcher,
            requests(state, reset_count(entity_map@, nodes@), events@),
            entity_map@,
            nodes@,
        )),
        (forall|i: int|
            0 <= i < events@.len() ==> #[trigger] events@[i].0 < entity_map@.len()
                && events@[i].0 < nodes@.len()) ==> ok,
{
    proof {
        if forall|i: int|
            0 <= i < events@.len() ==> #[trigger] events@[i].0 < entity_map@.len()
                && events@[i].0 < nodes@.len() {
            lemma_events_in_range_tick_in_range(*dispatcher, state, entity_map@, nodes@, events@);
        }
    }
    if state == State::Ended {
        return true;
    }
    let ghost ents = entity_map@;
    let ghost tys = nodes@;
    let ghost n = reset_count(ents, tys);
    let ghost reqs = requests(state, n, events@);
    proof {
        lemma_requests_shape(state, n, events@);
    }
    let mut done: usize = 0;
    if state == State::Restarted {
        let resets = if entity_map.len() <= nodes.len() {
            entity_map.len()
        } else {
            nodes.len()
        };
        while done < resets
            invariant
                dispatcher.wf(),
                state == State::Restarted,
                resets == n,
                n <= ents.len(),
                n <= tys.len(),
                ents == entity_map@,
                tys == nodes@,
                reqs == requests(state, n, events@),
                n == reset_count(ents, tys),
                restart_len(state, n) == n,
                forall|i: int| 0 <= i < n ==> #[trigger] reqs[i] == (Event::Reset, i),
                done <= resets,
                forall|i: int| 0 <= i < done ==> served(*dispatcher, #[trigger] reqs[i], ents, tys),
                forall|i: int| 0 <= i < n ==> in_range(#[trigger] reqs[i], ents, tys),
            decreases resets - done,
        {
            assert(reqs[done as int] == (Event::Reset, done as int));
            if !dispatcher.typed_fn(Event::Reset, &nodes[done]).is_ok() {
                proof {
                    assert forall|k: int|
                        0 <= k < reqs.len() && #[trigger] served_before(
                            *dispatcher,
                            reqs,
                            k,
                            ents,
                            tys,
                        ) implies in_range(reqs[k], ents, tys) by {
                        if k > done {
                            assert(served(*dispatcher, reqs[done as int], ents, tys));
                        }
                    }
                }
                return true;
            }
            done = done + 1;
        }
    }
    let ghost base = done as int;
    assert(base == restart_len(state, n));
    let mut k: usize = 0;
    while k < events.len()
        invariant
            dispatcher.wf(),
            state != State::Ended,
            ents == entity_map@,
            tys == nodes@,
            reqs == requests(state, n, events@),
            n == reset_count(ents, tys),
            base == restart_len(state, n),
            base <= n,
            n <= ents.len(),
            n <= tys.len(),
            reqs.len() == base + events@.len(),
            forall|i: int| 0 <= i < base ==> in_range(#[trigger] reqs[i], ents, tys),
            forall|i: int|
                0 <= i < events@.len() ==> #[trigger] reqs[base + i] == (
                    status_event(events@[i].1),
                    events@[i].0 as int,
                ),
            k <= events@.len(),
            forall|i: int| 0 <= i < base + k ==> served(*dispatcher, #[trigger] reqs[i], ents, tys),
        decreases events@.len() - k,
    {
        let (id, status) = events[k];
        let ghost at = base + k;
        assert(reqs[at] == (status_event(status), id as int));
        if id >= entity_map.len() || id >= nodes.len() {
            proof {
                assert(served_before(*dispatcher, reqs, at, ents, tys));
                assert(!in_range(reqs[at], ents, tys));
            }
            return false;
        }
        if !dispatcher.typed_fn(event_for(&status), &nodes[id]).is_ok() {
            proof {
                assert forall|j: int|
                    0 <= j < reqs.len() && #[trigger] served_before(
                        *dispatcher,
                        reqs,
                        j,
                        ents,
                        tys,
                    ) implies in_range(reqs[j], ents, tys) by {
                    if j > at {
                        assert(served(*dispatcher, reqs[at], ents, tys));
                    } else if j < base {
                    } else {
                        assert(reqs[base + (j - base)] == reqs[j]);
                    }
                }
            }
            return true;
        }
        k = k + 1;
    }
    proof {
        assert forall|j: int|
            0 <= j < reqs.len() && #[trigger] served_before(
                *dispatcher,
                reqs,
                j,
                ents,
                tys,
            ) implies in_range(reqs[j], ents, tys) by {
            assert(served(*dispatcher, reqs[j], ents, tys));
        }
    }
    true
}

/// What resolving a node asks of the schedule.
#[derive(PartialEq, Eq, Structural, Clone, Copy, Debug)]
pub enum ScheduleDirective {
    /// Advance the schedule past the node `pivot`.
    Advance { pivot: NodeId },
}

/// A command sent to an orchestrator about one of its nodes.
#[derive(PartialEq, Eq, Structural, Clone, Copy, Debug)]
pub struct NodeCommand {
    pub schedule_directive: ScheduleDirective,
}

/// A request, sent by a node's system, to resolve that node.
#[derive(Clone, Copy, Debug)]
pub struct ResolveNode {
    /// The orchestrator entity that owns the node.
    pub orc_id: Entity,
    /// The node to resolve.
    pub node_id: NodeId,
    /// What the orchestrator is told to do.
    pub command: NodeCommand,
    /// A new value for the orchestrator's loop flag, if the request sets one.
    pub loop_schedule: Option<bool>,
}

/// The builder of a resolution request for one node.
#[derive(Clone, Copy, Debug)]
pub struct ResolutionBuilder {
    pub node: OrcNode,
    pub loop_schedule: Option<bool>,
}

impl OrcNode {
    /// Starts building the request that resolves this node; it leaves the
    /// orchestrator's loop flag as it is unless told otherwise.
    pub fn resolver(&self) -> (b: ResolutionBuilder)
        ensures
            b.node == *self,
            b.loop_schedule is None,
    {
        ResolutionBuilder { node: *self, loop_schedule: None }
    }
}

impl ResolutionBuilder {
    /// Makes the request stop the orchestrator from looping its schedule.
    pub fn cancel_loop(self) -> (b: Self)
        ensures
            b.node == self.node,
            b.loop_schedule == Some(false),
    {
        ResolutionBuilder { loop_schedule: Some(false), ..self }
    }

    /// The request: advance the orchestrator past this node.
    pub fn finish(self) -> (msg: ResolveNode)
        ensures
            msg.orc_id == self.node.orc_id,
            msg.node_id == self.node.node_id,
            msg.command == (NodeCommand {
                schedule_directive: ScheduleDirective::Advance { pivot: self.node.node_id },
            }),
            msg.loop_schedule == self.loop_schedule,
    {
        ResolveNode {
            orc_id: self.node.orc_id,
            node_id: self.node.node_id,
            command: NodeCommand {
                schedule_directive: ScheduleDirective::Advance { pivot: self.node.node_id },
            },
            loop_schedule: self.loop_schedule,
        }
    }
}

/// The part of an orchestrator's configuration that requests may change.
#[derive(PartialEq, Eq, Structural, Clone, Copy, Debug)]
pub struct ScheduleConfig {
    /// Whether the schedule starts over once it is exhausted.
    pub loop_schedule: bool,
}

impl ScheduleConfig {
    /// Applies the loop flag of a resolution request: a request that sets one
    /// overrides the current flag, any other leaves it.
    pub fn apply_request(&mut self, request: &ResolveNode)
        ensures
            final(self).loop_schedule == match request.loop_schedule {
                Some(flag) => flag,
                None => old(self).loop_schedule,
            },
    {
        if let Some(flag) = request.loop_schedule {
            self.loop_schedule = flag;
        }
    }
}

/// How an orchestration graph is to be run.
#[derive(PartialEq, Eq, Structural, Clone, Copy, Debug)]
pub struct GraphConfig {
    /// Whether the schedule starts over once it is exhausted.
    pub loop_schedule: bool,
}

impl Default for GraphConfig {
    fn default() -> (c: GraphConfig)
        ensures
            !c.loop_schedule,
    {
        GraphConfig { loop_schedule: false }
    }
}

impl GraphConfig {
    /// The schedule configuration an orchestrator is created with.
    pub fn schedule_config(&self) -> (c: ScheduleConfig)
        ensures
            c.loop_schedule == self.loop_schedule,
    {
        ScheduleConfig { loop_schedule: self.loop_schedule }
    }
}

/// Every event has a handler for each of the node types.
pub open spec fn covers<H>(d: Dispatcher<H>, nodes: Seq<NodeType>) -> bool {
    forall|i: int, e: Event| 0 <= i < nodes.len() ==> #[trigger] d.handles(e, nodes[i].type_id)
}

/// Every status change names a node that has an entity and a type.
pub open spec fn events_in_range(
    events: Seq<(NodeId, NodeStatus)>,
    entities: Seq<Entity>,
    nodes: Seq<NodeType>,
) -> bool {
    forall|i: int| 0 <= i < events.len() ==> #[trigger] events[i].0 < entities.len() && events[i].0 < nodes.len()
}

/// When every node type has all its handlers, a tick that does not end makes
/// one call per reset and per status change, and stops with no error.
pub proof fn lemma_covered_tick_serves_all<H>(
    d: Dispatcher<H>,
    state: State,
    entities: Seq<Entity>,
    nodes: Seq<NodeType>,
    events: Seq<(NodeId, NodeStatus)>,
    calls: Seq<HandlerCall<H>>,
    error: Option<OrcError>,
)
    requires
        state != State::Ended,
        covers(d, nodes),
        serves_in_order(
            d,
            requests(state, reset_count(entities, nodes), events),
            entities,
            nodes,
            calls,
            error,
        ),
    ensures
        error is None,
        calls.len() == (if state == State::Restarted {
            vstd::math::min(entities.len() as int, nodes.len() as int)
        } else {
            0
        }) + events.len(),
{
    let reqs = requests(state, reset_count(entities, nodes), events);
    if error is Some {
        let req = reqs[calls.len() as int];
        assert(d.handles(req.0, nodes[req.1].type_id));
    }
}

/// On a restart, the tick first resets every node that has an entity and a
/// type, in index order, each through the reset handler of its type and for
/// its own entity.
pub proof fn lemma_restart_resets_every_node_first<H>(
    d: Dispatcher<H>,
    entities: Seq<Entity>,
    nodes: Seq<NodeType>,
    events: Seq<(NodeId, NodeStatus)>,
    calls: Seq<HandlerCall<H>>,
    error: Option<OrcError>,
    i: int,
)
    requires
        serves_in_order(
            d,
            requests(State::Restarted, reset_count(entities, nodes), events),
            entities,
            nodes,
            calls,
            error,
        ),
        0 <= i < calls.len(),
        i < entities.len(),
        i < nodes.len(),
    ensures
        calls[i].entity == entities[i],
        calls[i].handler == d.table(Event::Reset)[nodes[i].type_id],
{
    let reqs = requests(State::Restarted, reset_count(entities, nodes), events);
    assert(reqs[i] == (Event::Reset, i));
}

/// Outside a restart, the calls announce the status changes in the order
/// they were drained: the `i`-th call runs the handler of the `i`-th change's
/// event, for the type of its node, on that node's entity.
pub proof fn lemma_changes_announced_in_order<H>(
    d: Dispatcher<H>,
    entities: Seq<Entity>,
    nodes: Seq<NodeType>,
    events: Seq<(NodeId, NodeStatus)>,
    calls: Seq<HandlerCall<H>>,
    error: Option<OrcError>,
    i: int,
)
    requires
        serves_in_order(
            d,
            requests(State::Running, reset_count(entities, nodes), events),
            entities,
            nodes,
            calls,
            error,
        ),
        0 <= i < calls.len(),
    ensures
        calls[i].entity == entities[events[i].0 as int],
        calls[i].handler == d.table(status_event(events[i].1))[nodes[events[i].0 as int].type_id],
{
    let reqs = requests(State::Running, reset_count(entities, nodes), events);
    assert(reqs[i] == (status_event(events[i].1), events[i].0 as int));
}

/// A tick whose status changes all name nodes with an entity and a type is
/// always in range, whatever the dispatcher holds.
pub proof fn lemma_events_in_range_tick_in_range<H>(
    d: Dispatcher<H>,
    state: State,
    entities: Seq<Entity>,
    nodes: Seq<NodeType>,
    events: Seq<(NodeId, NodeStatus)>,
)
    requires
        events_in_range(events, entities, nodes),
    ensures
        reached_in_range(d, requests(state, reset_count(entities, nodes), events), entities, nodes),
{
    let n = reset_count(entities, nodes);
    let reqs = requests(state, n, events);
    lemma_requests_shape(state, n, events);
    assert forall|k: int|
        0 <= k < reqs.len() && #[trigger] served_before(d, reqs, k, entities, nodes) implies in_range(
        reqs[k],
        entities,
        nodes,
    ) by {
        if k >= restart_len(state, n) {
            let j = k - restart_len(state, n);
            assert(reqs[restart_len(state, n) + j] == reqs[k]);
            assert(events[j].0 < entities.len() && events[j].0 < nodes.len());
        }
    }
}

} // verus!

use std::any::TypeId;

use bevy::ecs::entity::Entity;
use bevy_action_orc::dispatcher::{Dispatcher, NodeType};
use bevy_action_orc::schedule::{
    event_for, plan_tick, tick_in_range, GraphConfig, NodeCommand, NodeStatus, Resolution,
    ResolveNode, ScheduleConfig, ScheduleDirective, State, TickPlan,
};
use bevy_action_orc::dispatcher::Event;
use bevy_action_orc::{OrcError, OrcNode};

struct A;
struct B;
struct C;

fn entity(i: u32) -> Entity {
    Entity::from_raw_u32(i).unwrap()
}

fn nodes() -> Vec<NodeType> {
    vec![
        NodeType::new(TypeId::of::<A>(), "A"),
        NodeType::new(TypeId::of::<B>(), "B"),
        NodeType::new(TypeId::of::<C>(), "C"),
    ]
}

fn full_dispatcher() -> Dispatcher<&'static str> {
    let mut d = Dispatcher::new();
    d.register(TypeId::of::<A>(), "start A", "finish A", "reset A");
    d.register(TypeId::of::<B>(), "start B", "finish B", "reset B");
    d.register(TypeId::of::<C>(), "start C", "finish C", "reset C");
    d
}

fn calls_of(plan: TickPlan<&'static str>) -> (Vec<(&'static str, Entity)>, Option<OrcError>) {
    match plan {
        TickPlan::Despawn => panic!("despawned"),
        TickPlan::Run { calls, error } => {
            (calls.into_iter().map(|c| (c.handler, c.entity)).collect(), error)
        }
    }
}

#[test]
fn status_events() {
    assert_eq!(event_for(&NodeStatus::Started), Event::Start);
    assert_eq!(event_for(&NodeStatus::Resolved(Resolution::Finished)), Event::Finish);
    assert_eq!(event_for(&NodeStatus::Resolved(Resolution::Reset)), Event::Reset);
}

#[test]
fn ended_tick_despawns() {
    let d = full_dispatcher();
    let map = vec![entity(1), entity(2), entity(3)];
    let events = vec![(0, NodeStatus::Started)];
    assert!(matches!(plan_tick(&d, State::Ended, &map, &nodes(), &events), TickPlan::Despawn));
}

#[test]
fn running_tick_announces_changes_in_order() {
    let d = full_dispatcher();
    let map = vec![entity(10), entity(11), entity(12)];
    let events = vec![
        (0, NodeStatus::Resolved(Resolution::Finished)),
        (1, NodeStatus::Started),
        (2, NodeStatus::Resolved(Resolution::Reset)),
    ];
    let (calls, error) = calls_of(plan_tick(&d, State::Running, &map, &nodes(), &events));
    assert!(error.is_none());
    assert_eq!(
        calls,
        vec![("finish A", entity(10)), ("start B", entity(11)), ("reset C", entity(12))]
    );
}

#[test]
fn restarted_tick_resets_all_nodes_first() {
    let d = full_dispatcher();
    let map = vec![entity(10), entity(11), entity(12)];
    let events = vec![(0, NodeStatus::Started)];
    let (calls, error) = calls_of(plan_tick(&d, State::Restarted, &map, &nodes(), &events));
    assert!(error.is_none());
    assert_eq!(
        calls,
        vec![
            ("reset A", entity(10)),
            ("reset B", entity(11)),
            ("reset C", entity(12)),
            ("start A", entity(10)),
        ]
    );
}

#[test]
fn restart_resets_only_nodes_with_entity_and_type() {
    let d = full_dispatcher();
    let map = vec![entity(10), entity(11)];
    let (calls, error) = calls_of(plan_tick(&d, State::Restarted, &map, &nodes(), &vec![]));
    assert!(error.is_none());
    assert_eq!(calls, vec![("reset A", entity(10)), ("reset B", entity(11))]);
}

#[test]
fn missing_handler_stops_the_tick() {
    let mut d: Dispatcher<&'static str> = Dispatcher::new();
    d.register(TypeId::of::<A>(), "start A", "finish A", "reset A");
    let map = vec![entity(10), entity(11), entity(12)];
    let events = vec![
        (0, NodeStatus::Started),
        (1, NodeStatus::Started),
        (2, NodeStatus::Started),
    ];
    let (calls, error) = calls_of(plan_tick(&d, State::Running, &map, &nodes(), &events));
    assert_eq!(calls, vec![("start A", entity(10))]);
    match error {
        Some(OrcError::TypeIdMissing { type_label }) => assert_eq!(type_label, "B"),
        other => panic!("unexpected {:?}", other),
    }
}

#[test]
fn tick_range_check() {
    let d = full_dispatcher();
    let map = vec![entity(10), entity(11)];
    assert!(tick_in_range(&d, State::Running, &map, &nodes(), &vec![(1, NodeStatus::Started)]));
    assert!(!tick_in_range(&d, State::Running, &map, &nodes(), &vec![(2, NodeStatus::Started)]));
    assert!(tick_in_range(&d, State::Ended, &map, &nodes(), &vec![(7, NodeStatus::Started)]));
    // A missing handler stops the tick before the out-of-range change is reached.
    let mut partial: Dispatcher<&'static str> = Dispatcher::new();
    partial.register(TypeId::of::<A>(), "start A", "finish A", "reset A");
    let events = vec![(1, NodeStatus::Started), (9, NodeStatus::Started)];
    assert!(tick_in_range(&partial, State::Running, &map, &nodes(), &events));
    assert!(!tick_in_range(&d, State::Running, &map, &nodes(), &events));
}

#[test]
fn resolution_request() {
    let node = OrcNode::new(entity(5), 2);
    let plain = node.resolver().finish();
    assert_eq!(plain.orc_id, entity(5));
    assert_eq!(plain.node_id, 2);
    assert_eq!(
        plain.command,
        NodeCommand { schedule_directive: ScheduleDirective::Advance { pivot: 2 } }
    );
    assert_eq!(plain.loop_schedule, None);
    let cancelled = node.resolver().cancel_loop().finish();
    assert_eq!(cancelled.loop_schedule, Some(false));
    assert_eq!(cancelled.command, plain.command);
}

#[test]
fn requests_set_the_loop_flag() {
    let node = OrcNode::new(entity(5), 0);
    let mut config = GraphConfig { loop_schedule: true }.schedule_config();
    assert_eq!(config, ScheduleConfig { loop_schedule: true });
    let keep: ResolveNode = node.resolver().finish();
    config.apply_request(&keep);
    assert!(config.loop_schedule);
    config.apply_request(&node.resolver().cancel_loop().finish());
    assert!(!config.loop_schedule);
    config.apply_request(&keep);
    assert!(!config.loop_schedule);
}

#[test]
fn graph_config_defaults_to_no_loop() {
    assert!(!GraphConfig::default().loop_schedule);
    assert!(!GraphConfig::default().schedule_config().loop_schedule);
}

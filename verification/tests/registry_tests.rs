use std::any::TypeId;

use bevy_action_orc::dispatcher::{Dispatcher, Event, NodeType};
use bevy_action_orc::orc::OrcTypeRegistry;
use bevy_action_orc::schedule::{NodeStatus, Resolution};
use bevy_action_orc::type_map::TypeMap;
use bevy_action_orc::OrcError;

struct A;
struct B;
struct C;

#[test]
fn type_map_reads_back_writes() {
    let mut m: TypeMap<u32> = TypeMap::new();
    assert_eq!(m.get(&TypeId::of::<A>()), None);
    m.insert(TypeId::of::<A>(), 1);
    m.insert(TypeId::of::<B>(), 2);
    assert_eq!(m.get(&TypeId::of::<A>()), Some(&1));
    assert_eq!(m.get(&TypeId::of::<B>()), Some(&2));
    assert_eq!(m.get(&TypeId::of::<C>()), None);
    assert!(m.contains_key(&TypeId::of::<B>()));
    assert!(!m.contains_key(&TypeId::of::<C>()));
}

#[test]
fn type_map_last_write_wins() {
    let mut m: TypeMap<&'static str> = TypeMap::new();
    m.insert(TypeId::of::<A>(), "first");
    m.insert(TypeId::of::<B>(), "other");
    m.insert(TypeId::of::<A>(), "second");
    assert_eq!(m.get(&TypeId::of::<A>()), Some(&"second"));
    assert_eq!(m.get(&TypeId::of::<B>()), Some(&"other"));
}

fn node_a() -> NodeType {
    NodeType::new(TypeId::of::<A>(), "A")
}

fn node_b() -> NodeType {
    NodeType::new(TypeId::of::<B>(), "B")
}

#[test]
fn dispatcher_finds_registered_handlers() {
    let mut d: Dispatcher<&'static str> = Dispatcher::new();
    d.register(TypeId::of::<A>(), "start A", "finish A", "reset A");
    assert_eq!(*d.start(&node_a()).unwrap(), "start A");
    assert_eq!(*d.finish(&node_a()).unwrap(), "finish A");
    assert_eq!(*d.reset(&node_a()).unwrap(), "reset A");
    assert_eq!(*d.typed_fn(Event::Finish, &node_a()).unwrap(), "finish A");
}

#[test]
fn dispatcher_reports_missing_type() {
    let mut d: Dispatcher<&'static str> = Dispatcher::new();
    d.register(TypeId::of::<A>(), "start A", "finish A", "reset A");
    match d.start(&node_b()) {
        Err(OrcError::TypeIdMissing { type_label }) => assert_eq!(type_label, "B"),
        other => panic!("unexpected {:?}", other.map(|h| *h)),
    }
}

#[test]
fn dispatcher_insert_touches_one_event() {
    let mut d: Dispatcher<u8> = Dispatcher::default();
    d.insert(Event::Start, TypeId::of::<A>(), 7);
    assert_eq!(*d.start(&node_a()).unwrap(), 7);
    assert!(d.finish(&node_a()).is_err());
    assert!(d.reset(&node_a()).is_err());
}

#[test]
fn dispatcher_reregistering_replaces_handlers() {
    let mut d: Dispatcher<u8> = Dispatcher::new();
    d.register(TypeId::of::<A>(), 1, 2, 3);
    d.register(TypeId::of::<B>(), 4, 5, 6);
    d.register(TypeId::of::<A>(), 7, 8, 9);
    assert_eq!(*d.start(&node_a()).unwrap(), 7);
    assert_eq!(*d.finish(&node_a()).unwrap(), 8);
    assert_eq!(*d.reset(&node_a()).unwrap(), 9);
    assert_eq!(*d.finish(&node_b()).unwrap(), 5);
}

#[test]
fn type_registry_maps_node_types_to_markers() {
    let mut r = OrcTypeRegistry::new();
    r.register(TypeId::of::<A>(), TypeId::of::<B>(), TypeId::of::<C>());
    assert_eq!(r.started_marker(&TypeId::of::<A>()), Some(&TypeId::of::<B>()));
    assert_eq!(r.finished_marker(&TypeId::of::<A>()), Some(&TypeId::of::<C>()));
    assert_eq!(r.started_marker(&TypeId::of::<B>()), None);
    assert_eq!(r.finished_marker(&TypeId::of::<C>()), None);
}

#[test]
fn type_registry_marker_for_status() {
    let mut r = OrcTypeRegistry::new();
    r.register(TypeId::of::<A>(), TypeId::of::<B>(), TypeId::of::<C>());
    let a = TypeId::of::<A>();
    assert_eq!(r.marker_for(&a, &NodeStatus::Started), Some(&TypeId::of::<B>()));
    assert_eq!(
        r.marker_for(&a, &NodeStatus::Resolved(Resolution::Finished)),
        Some(&TypeId::of::<C>())
    );
    assert_eq!(r.marker_for(&a, &NodeStatus::Resolved(Resolution::Reset)), None);
    assert_eq!(r.marker_for(&TypeId::of::<B>(), &NodeStatus::Started), None);
}

use action_orc::GraphError;
use bevy::ecs::entity::Entity;
use bevy_action_orc::orc::Orc;
use bevy_action_orc::OrcError;

fn entity(i: u32) -> Entity {
    Entity::from_raw_u32(i).unwrap()
}

#[test]
fn entity_map_lookup() {
    let orc = Orc::new("engine", vec![entity(3), entity(4)]);
    assert_eq!(orc.entity(0).unwrap(), &entity(3));
    assert_eq!(orc.entity(1).unwrap(), &entity(4));
    assert!(matches!(orc.entity(2), Err(OrcError::NodeEntityMismatch)));
    assert_eq!(orc.entity_map(), &vec![entity(3), entity(4)]);
    assert_eq!(orc.orchestrator, "engine");
}

#[test]
fn error_messages() {
    let e = entity(7);
    let label = format!("{e:?}");
    assert_eq!(
        OrcError::NodeMissing(e).message(),
        format!("OrcNode component is missing on entity {label}.")
    );
    assert_eq!(
        OrcError::ReactorMissing(e).message(),
        format!("Orc (Reactor) component is missing on entity {label}.")
    );
    assert_eq!(
        OrcError::TypeIdMissing { type_label: "Defend" }.message(),
        "Type registration mapping is missing in registries for type 'Defend'."
    );
    assert_eq!(
        OrcError::NodeEntityMismatch.message(),
        "Mismatched NodeId within Reactor's entity map."
    );
    assert_eq!(
        OrcError::Reactor(GraphError::CycleDetected).message(),
        "Reactor execution failed: CycleDetected"
    );
    assert_eq!(OrcError::NodeMissing(e).message_with("x"), "OrcNode component is missing on entity x.");
}

#[test]
fn entity_label_is_debug_form() {
    assert_eq!(
        OrcError::NodeMissing(entity(7)).message(),
        "OrcNode component is missing on entity 7v0."
    );
}

#[test]
fn engine_errors_convert() {
    let e: OrcError = GraphError::CycleDetected.into();
    assert!(matches!(e, OrcError::Reactor(GraphError::CycleDetected)));
}

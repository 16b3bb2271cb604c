# bevy_action_orc

The decision logic of an ECS plugin that runs action-orchestration graphs,
verified with Verus.

- `src/type_map.rs`: a map keyed by runtime type identifiers.
- `src/dispatcher.rs`: the lifecycle handler registry (start, finish, reset
  handlers per node type) and its lookups.
- `src/schedule.rs`: what a tick of an orchestrator leads to (despawn, or the
  ordered handler calls and the error that stops them), resolution requests,
  and the loop flag they carry.
- `src/events.rs`: the `Active` / `Finished` marker changes of each lifecycle
  event.
- `src/orc.rs`: an orchestrator's node-entity map and the marker-type registry.
- `src/outside.rs`: the trusted calls into `std`, `bevy` and `action-orc`.
- `app/`: the ECS plumbing (components, observers, systems) around the library.

use bevy::asset::{Handle, UntypedHandle};
use bevy::prelude::StandardMaterial;
use model_composer::{
    config_singleton, load_config, preload_single, ConfigLoadHandle, ConfigLoadTarget,
    ConfigSingleton, MoveToState, PartPath, PartsMap,
};

#[derive(Debug, Clone, Copy, PartialEq, Eq)]
enum Stage {
    Preload,
    SceneSetup,
}

fn handle(id: u128) -> UntypedHandle {
    Handle::<StandardMaterial>::weak_from_u128(id).untyped()
}

fn registry(names: &[&str]) -> PartsMap<u32> {
    let mut parts = PartsMap::default();
    for (index, name) in names.iter().enumerate() {
        parts.insert(
            name.to_string(),
            PartPath { path: format!("{name}.model"), data: Some(index as u32) },
        );
    }
    parts
}

fn fresh() -> ConfigSingleton<u32, Stage> {
    config_singleton("./config.json", Stage::Preload, Stage::SceneSetup)
}

#[test]
fn a_fresh_machine_has_a_target_and_an_empty_registry() {
    let config = fresh();
    assert_eq!(config.load_target().unwrap().path(), "./config.json");
    assert!(config.load_handle(true).is_none());
    assert!(!config.is_ready());
    assert_eq!(*config.run_in(), Stage::Preload);
    assert!(!config.parts_map().contains("Door"));
}

#[test]
fn the_request_turns_the_target_into_a_handle() {
    let mut config = fresh();
    preload_single(&mut config, handle(1));
    assert!(config.load_target().is_none());
    assert_eq!(*config.load_handle(true).unwrap().handle(), handle(1));
    assert!(!config.is_ready());
}

#[test]
fn only_the_first_request_counts() {
    let mut config = fresh();
    preload_single(&mut config, handle(1));
    preload_single(&mut config, handle(2));
    assert_eq!(*config.load_handle(true).unwrap().handle(), handle(1));
}

#[test]
fn nothing_is_polled_outside_the_run_state() {
    let mut config = fresh();
    assert!(config.load_handle(false).is_none());
    preload_single(&mut config, handle(1));
    assert!(config.load_handle(false).is_none());
    assert!(config.load_handle(true).is_some());
}

#[test]
fn a_poll_that_finds_nothing_changes_nothing() {
    let mut config = fresh();
    preload_single(&mut config, handle(1));
    for _ in 0..5 {
        assert_eq!(load_config(&mut config, None), None);
        assert!(!config.is_ready());
        assert!(config.load_handle(true).is_some());
        assert!(!config.parts_map().contains("Door"));
    }
}

#[test]
fn an_arrived_registry_is_installed_and_the_state_moves_on() {
    let mut config = fresh();
    preload_single(&mut config, handle(1));
    assert_eq!(load_config(&mut config, None), None);
    let next = load_config(&mut config, Some(registry(&["Door", "Lamp"])));
    assert_eq!(next, Some(Stage::SceneSetup));
    assert!(config.is_ready());
    assert!(config.load_handle(true).is_none());
    assert!(config.load_target().is_none());
    assert_eq!(config.parts_map().load_part("Door").unwrap().path, "Door.model");
    assert_eq!(config.parts_map().load_part("Lamp").unwrap().data, Some(1));
    assert!(config.parts_map().load_part("Table").is_err());
}

#[test]
fn ticks_after_ready_do_nothing() {
    let mut config = fresh();
    preload_single(&mut config, handle(1));
    let mut transitions = 0;
    let polls = [None, Some(&["Door"][..]), None, Some(&["Table"][..]), Some(&["Chair"][..]), None];
    for poll in polls {
        if load_config(&mut config, poll.map(registry)).is_some() {
            transitions += 1;
        }
    }
    assert_eq!(transitions, 1);
    assert!(config.is_ready());
    // The registry of the first arrival stays; later arrivals are dropped.
    assert!(config.parts_map().contains("Door"));
    assert!(!config.parts_map().contains("Table"));
    assert!(!config.parts_map().contains("Chair"));
    preload_single(&mut config, handle(3));
    assert!(config.is_ready());
    assert!(config.load_handle(true).is_none());
}

#[test]
fn a_registry_that_arrives_before_the_request_is_ignored() {
    let mut config = fresh();
    assert_eq!(load_config(&mut config, Some(registry(&["Door"]))), None);
    assert!(!config.is_ready());
    assert!(!config.parts_map().contains("Door"));
    assert_eq!(config.load_target().unwrap().path(), "./config.json");
}

#[test]
fn the_registry_is_either_empty_or_the_loaded_one() {
    let mut config = fresh();
    preload_single(&mut config, handle(1));
    let names = ["A", "B", "C", "D"];
    let count = |config: &ConfigSingleton<u32, Stage>| {
        names.iter().filter(|name| config.parts_map().contains(name)).count()
    };
    assert_eq!(count(&config), 0);
    load_config(&mut config, None);
    assert_eq!(count(&config), 0);
    load_config(&mut config, Some(registry(&["A", "C"])));
    assert_eq!(count(&config), 2);
    load_config(&mut config, Some(registry(&["B", "D"])));
    assert_eq!(count(&config), 2);
    assert!(config.parts_map().contains("A") && config.parts_map().contains("C"));
}

#[test]
fn moving_to_the_run_state_itself_is_still_asked_for() {
    let mut config: ConfigSingleton<u32, Stage> =
        config_singleton("./config.json", Stage::Preload, Stage::Preload);
    preload_single(&mut config, handle(1));
    assert_eq!(load_config(&mut config, Some(registry(&[]))), Some(Stage::Preload));
    assert!(config.is_ready());
}

#[test]
fn an_empty_registry_completes_the_loading_too() {
    let mut config = fresh();
    preload_single(&mut config, handle(1));
    assert_eq!(load_config(&mut config, Some(registry(&[]))), Some(Stage::SceneSetup));
    assert!(config.is_ready());
    assert!(!config.parts_map().contains("Door"));
}

#[test]
fn the_small_parts_keep_what_they_are_given() {
    let target: ConfigLoadTarget<u32> = ConfigLoadTarget::new("parts/all.json");
    assert_eq!(target.path(), "parts/all.json");
    let pending: ConfigLoadHandle<u32> = ConfigLoadHandle::new(handle(7));
    assert_eq!(*pending.handle(), handle(7));
    assert_ne!(*pending.handle(), handle(8));
    let _next: MoveToState<u32, Stage> = MoveToState::new(Stage::SceneSetup);
}

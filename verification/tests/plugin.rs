use model_composer::{
    EmptyExtension, EmptyMaterialExtension, ModelComposerPlugin, SimpleModelComposerPlugin,
};

#[derive(Debug, Clone, Copy, PartialEq, Eq)]
enum Stage {
    Preload,
    SceneSetup,
}

#[derive(Debug, Clone)]
struct Quantize;

#[test]
fn a_new_plugin_only_decodes_files() {
    let plugin: ModelComposerPlugin<EmptyExtension, Stage> = ModelComposerPlugin::new(".parts");
    let setup = plugin.build();
    assert_eq!(setup.file_ending, ".parts");
    assert!(setup.config.is_none());
    assert!(!setup.observe_ready_scenes);
}

#[test]
fn the_default_plugin_decodes_json_files() {
    let plugin: ModelComposerPlugin<EmptyExtension, Stage> = ModelComposerPlugin::default();
    let setup = plugin.build();
    assert_eq!(setup.file_ending, ".json");
    assert!(setup.config.is_none());
    assert!(!setup.observe_ready_scenes);
}

#[test]
fn load_single_sets_up_a_fresh_machine() {
    let plugin = SimpleModelComposerPlugin::default().load_single(
        "./config.json",
        Stage::Preload,
        Stage::SceneSetup,
    );
    let setup = plugin.build();
    assert_eq!(setup.file_ending, ".json");
    assert!(!setup.observe_ready_scenes);
    let config = setup.config.unwrap();
    assert_eq!(config.load_target().unwrap().path(), "./config.json");
    assert_eq!(*config.run_in(), Stage::Preload);
    assert!(!config.is_ready());
    assert!(!config.parts_map().contains("DebugPart"));
}

#[test]
fn the_machine_of_a_plugin_moves_to_the_chosen_state() {
    let plugin = SimpleModelComposerPlugin::default().load_single(
        "./config.json",
        Stage::Preload,
        Stage::SceneSetup,
    );
    let mut config = plugin.build().config.unwrap();
    let handle = bevy::asset::Handle::<bevy::prelude::StandardMaterial>::weak_from_u128(1);
    model_composer::preload_single(&mut config, handle.untyped());
    let next = model_composer::load_config(&mut config, Some(model_composer::PartsMap::default()));
    assert_eq!(next, Some(Stage::SceneSetup));
}

#[test]
fn registering_an_extension_keeps_the_other_choices() {
    let plugin = SimpleModelComposerPlugin::new(".parts")
        .load_single("./config.json", Stage::Preload, Stage::SceneSetup)
        .register_material_extension::<Quantize>();
    let setup = plugin.build();
    assert_eq!(setup.file_ending, ".parts");
    assert!(setup.observe_ready_scenes);
    assert_eq!(setup.config.unwrap().load_target().unwrap().path(), "./config.json");
}

#[test]
fn load_single_keeps_the_other_choices() {
    let plugin: ModelComposerPlugin<EmptyExtension, Stage, EmptyMaterialExtension> =
        ModelComposerPlugin::new(".parts");
    let plugin = plugin
        .register_material_extension::<Quantize>()
        .load_single("a.json", Stage::Preload, Stage::SceneSetup)
        .load_single("b.json", Stage::SceneSetup, Stage::Preload);
    let setup = plugin.build();
    assert_eq!(setup.file_ending, ".parts");
    assert!(setup.observe_ready_scenes);
    let config = setup.config.unwrap();
    assert_eq!(config.load_target().unwrap().path(), "b.json");
    assert_eq!(*config.run_in(), Stage::SceneSetup);
}

#[test]
fn build_can_be_repeated() {
    let plugin = SimpleModelComposerPlugin::default().load_single(
        "./config.json",
        Stage::Preload,
        Stage::SceneSetup,
    );
    let first = plugin.build();
    let second = plugin.build();
    assert_eq!(first.file_ending, second.file_ending);
    assert_eq!(
        first.config.unwrap().load_target().unwrap().path(),
        second.config.unwrap().load_target().unwrap().path()
    );
}

//! Composes scenes from a registry of named parts.
//!
//! The crate holds the decisions of a scene composer and leaves the engine
//! work to its caller: a registry of parts ([`PartsMap`]), a builder that
//! turns one part into a spawn request ([`PartLoader`]), the state machine
//! that loads the registry ([`ConfigSingleton`]) and the walk that swaps the
//! materials of a freshly spawned sub-tree ([`MaterialWalk`]).

pub mod bevy_specs;
pub mod config_singleton;
pub mod extend_gltf_material;
pub mod part_loader;
pub mod part_path;
pub mod parts_map;
pub mod plugin;

pub use config_singleton::{
    config_singleton, load_config, preload_single, ConfigLoadHandle, ConfigLoadTarget,
    ConfigSingleton, ConfigSingletonView, LoadEvent, LoadPhase, MoveToState,
};
pub use extend_gltf_material::{
    replace_material, MaterialSwap, MaterialWalk, MaterialWalkView, NodeFacts, NodeReport,
    WithMaterialExtension,
};
pub use part_loader::{PartLoader, PartLoaderView, SpawnRequest};
pub use part_path::{MissingData, PartPath};
pub use parts_map::{PartNotFoundError, PartsMap};
pub use plugin::{
    EmptyExtension, EmptyMaterialExtension, EmptyState, LoadSingleConfig, ModelComposerPlugin,
    ModelComposerPluginView, PluginSetup, SimpleModelComposerPlugin, SimplePartsMap,
};

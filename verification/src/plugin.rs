//! How an application switches the composer on: which files hold
//! registries, whether one registry is loaded at startup, and whether ready
//! scenes get their materials extended.

use crate::config_singleton::{config_singleton, ConfigSingleton, LoadPhase};
use crate::part_path::PartPath;
use crate::parts_map::PartsMap;
use core::convert::Infallible;
use core::marker::PhantomData;
use vstd::prelude::*;

verus! {

/// The composer for parts without data.
pub type SimpleModelComposerPlugin = ModelComposerPlugin<EmptyExtension>;

/// The registry of parts without data.
pub type SimplePartsMap = PartsMap<EmptyExtension>;

/// The choices of an application, made step by step.
pub struct ModelComposerPlugin<EXTENSION, STATE = EmptyState, MATERIAL = EmptyMaterialExtension> {
    file_ending: &'static str,
    // Load a single registry at startup.
    load_single: Option<LoadSingleConfig<STATE>>,
    register_material_extension: bool,
    phantom_extension: PhantomData<EXTENSION>,
    phantom_material: PhantomData<MATERIAL>,
}

/// The registry to load at startup: its file, the application state in
/// which it is polled, and the state that follows.
pub struct LoadSingleConfig<STATE> {
    pub file: &'static str,
    pub run_in: STATE,
    pub to_state: STATE,
}

/// The choices that a [`ModelComposerPlugin`] has recorded.
pub ghost struct ModelComposerPluginView<STATE> {
    pub file_ending: Seq<char>,
    pub load_single: Option<LoadSingleConfig<STATE>>,
    pub register_material_extension: bool,
}

/// What the application has to set up for the choices made.
#[verifier::reject_recursive_types(EXTENSION)]
pub struct PluginSetup<EXTENSION, STATE> {
    /// Files with this ending are decoded as registries.
    pub file_ending: &'static str,
    /// The registry with its loading machine, where one is loaded at
    /// startup.
    pub config: Option<ConfigSingleton<EXTENSION, STATE>>,
    /// Whether ready scenes are to be handed to the material walk.
    pub observe_ready_scenes: bool,
}

impl<STATE> ModelComposerPluginView<STATE> {
    /// Only the file ending is chosen.
    pub open spec fn fresh(file_ending: Seq<char>) -> Self {
        ModelComposerPluginView {
            file_ending,
            load_single: None,
            register_material_extension: false,
        }
    }

    pub open spec fn load_single<NewState>(
        self,
        file: &'static str,
        run_in: NewState,
        to_state: NewState,
    ) -> ModelComposerPluginView<NewState> {
        ModelComposerPluginView {
            file_ending: self.file_ending,
            load_single: Some(LoadSingleConfig { file, run_in, to_state }),
            register_material_extension: self.register_material_extension,
        }
    }

    pub open spec fn register_material_extension(self) -> Self {
        ModelComposerPluginView { register_material_extension: true, ..self }
    }
}

impl<EXTENSION, STATE, MATERIAL> View for ModelComposerPlugin<EXTENSION, STATE, MATERIAL> {
    type V = ModelComposerPluginView<STATE>;

    closed spec fn view(&self) -> ModelComposerPluginView<STATE> {
        ModelComposerPluginView {
            file_ending: self.file_ending@,
            load_single: self.load_single,
            register_material_extension: self.register_material_extension,
        }
    }
}

impl<EXTENSION, STATE, MATERIAL> ModelComposerPlugin<EXTENSION, STATE, MATERIAL> {
    /// A composer that decodes files ending in `file_ending`, loads nothing
    /// at startup and leaves materials alone.
    pub fn new(file_ending: &'static str) -> (plugin: Self)
        ensures
            plugin@ == ModelComposerPluginView::<STATE>::fresh(file_ending@),
    {
        Self {
            file_ending,
            load_single: None,
            register_material_extension: false,
            phantom_extension: PhantomData,
            phantom_material: PhantomData,
        }
    }

    /// Loads the registry in `file` at startup. It is polled while the
    /// application is in `run_in`; once it is installed the application
    /// moves to `to_state`. A registry chosen before is replaced, the other
    /// choices are kept.
    pub fn load_single<NewState>(self, file: &'static str, run_in: NewState, to_state: NewState) -> (plugin:
        ModelComposerPlugin<EXTENSION, NewState, MATERIAL>)
        ensures
            plugin@ == self@.load_single(file, run_in, to_state),
    {
        ModelComposerPlugin {
            file_ending: self.file_ending,
            register_material_extension: self.register_material_extension,
            load_single: Some(LoadSingleConfig { file, run_in, to_state }),
            phantom_extension: PhantomData,
            phantom_material: PhantomData,
        }
    }

    /// Extends the materials of ready scenes by extensions of type
    /// `NewMaterial`. The other choices are kept.
    pub fn register_material_extension<NewMaterial>(self) -> (plugin: ModelComposerPlugin<
        EXTENSION,
        STATE,
        NewMaterial,
    >)
        ensures
            plugin@ == self@.register_material_extension(),
    {
        ModelComposerPlugin {
            file_ending: self.file_ending,
            load_single: self.load_single,
            register_material_extension: true,
            phantom_extension: PhantomData,
            phantom_material: PhantomData,
        }
    }
}

impl<EXTENSION, STATE: Clone, MATERIAL> ModelComposerPlugin<EXTENSION, STATE, MATERIAL> {
    /// What there is to set up. Registries are always decoded from files
    /// with the chosen ending. A registry chosen for startup comes with a
    /// fresh loading machine for its file and copies of its two states.
    /// Ready scenes are observed if a material extension was registered.
    pub fn build(&self) -> (setup: PluginSetup<EXTENSION, STATE>)
        ensures
            setup.file_ending@ == self@.file_ending,
            setup.observe_ready_scenes == self@.register_material_extension,
            match (self@.load_single, setup.config) {
                (Some(chosen), Some(config)) => {
                    &&& config@.phase == (LoadPhase::Uninitialized { path: chosen.file@ })
                    &&& config@.parts == Map::<Seq<char>, PartPath<EXTENSION>>::empty()
                    &&& cloned(chosen.run_in, config@.run_in)
                    &&& cloned(chosen.to_state, config@.next)
                },
                (None, None) => true,
                _ => false,
            },
    {
        let config = match &self.load_single {
            Some(chosen) => Some(
                config_singleton(chosen.file, chosen.run_in.clone(), chosen.to_state.clone()),
            ),
            None => None,
        };
        PluginSetup {
            file_ending: self.file_ending,
            config,
            observe_ready_scenes: self.register_material_extension,
        }
    }
}

impl<EXTENSION, STATE, MATERIAL> Default for ModelComposerPlugin<EXTENSION, STATE, MATERIAL> {
    /// The composer for registries in `.json` files.
    fn default() -> (plugin: Self)
        ensures
            plugin@ == ModelComposerPluginView::<STATE>::fresh(".json"@),
    {
        Self::new(".json")
    }
}

/// The state type of an application that loads no registry at startup. It
/// has no value.
#[derive(Debug, Clone, Copy)]
pub enum EmptyState {
    Never(Infallible),
}

/// The data of parts that carry none.
#[derive(Debug, Clone, Copy)]
pub struct EmptyExtension;

/// The material extension of sub-trees whose materials stay as they are.
#[derive(Debug, Clone)]
pub struct EmptyMaterialExtension {}

} // verus!

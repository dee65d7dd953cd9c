//! Loading the registry: a file is requested once, polled on every tick
//! until it has arrived, installed as a whole and followed by one change of
//! the application's state.
//!
//! The machine never waits. Its caller issues the request, polls the asset
//! storage and sets the next state; the machine decides when each of these
//! is due and keeps the registry.

use crate::part_path::PartPath;
use crate::parts_map::PartsMap;
use bevy::asset::UntypedHandle;
use core::marker::PhantomData;
use vstd::prelude::*;

verus! {

/// The file from which the registry of `EXTENSION` parts is to be loaded.
pub struct ConfigLoadTarget<EXTENSION> {
    path: String,
    phantom_data: PhantomData<EXTENSION>,
}

impl<EXTENSION> View for ConfigLoadTarget<EXTENSION> {
    type V = Seq<char>;

    closed spec fn view(&self) -> Seq<char> {
        self.path@
    }
}

impl<EXTENSION> ConfigLoadTarget<EXTENSION> {
    /// The target for the file at `path`.
    pub fn new(path: &str) -> (target: Self)
        ensures
            target@ == path@,
    {
        Self { path: path.to_owned(), phantom_data: PhantomData }
    }

    /// The path to request.
    pub fn path(&self) -> (path: &str)
        ensures
            path@ == self@,
    {
        self.path.as_str()
    }
}

/// The state that the application moves to once the registry is loaded.
pub struct MoveToState<EXTENSION, STATE> {
    next: STATE,
    phantom_data: PhantomData<EXTENSION>,
}

impl<EXTENSION, STATE> View for MoveToState<EXTENSION, STATE> {
    type V = STATE;

    closed spec fn view(&self) -> STATE {
        self.next
    }
}

impl<EXTENSION, STATE> MoveToState<EXTENSION, STATE> {
    /// The move to `next`.
    pub fn new(next: STATE) -> (target: Self)
        ensures
            target@ == next,
    {
        Self { next, phantom_data: PhantomData }
    }
}

/// The handle of a registry file that was requested and has not arrived.
pub struct ConfigLoadHandle<EXTENSION>(UntypedHandle, PhantomData<EXTENSION>);

impl<EXTENSION> View for ConfigLoadHandle<EXTENSION> {
    type V = UntypedHandle;

    closed spec fn view(&self) -> UntypedHandle {
        self.0
    }
}

impl<EXTENSION> ConfigLoadHandle<EXTENSION> {
    /// The pending request that `handle` stands for.
    pub fn new(handle: UntypedHandle) -> (pending: Self)
        ensures
            pending@ == handle,
    {
        ConfigLoadHandle(handle, PhantomData)
    }

    /// The handle to poll.
    pub fn handle(&self) -> (handle: &UntypedHandle)
        ensures
            *handle == self@,
    {
        &self.0
    }
}

enum LoadStage<EXTENSION> {
    Uninitialized(ConfigLoadTarget<EXTENSION>),
    Requested(ConfigLoadHandle<EXTENSION>),
    Ready,
}

/// Where the loading stands.
pub ghost enum LoadPhase {
    /// Nothing was requested yet; `path` is the file to request.
    Uninitialized { path: Seq<char> },
    /// The file was requested; `handle` is polled until it has arrived.
    Requested { handle: UntypedHandle },
    /// The registry is installed. Nothing happens any more.
    Ready,
}

/// The registry together with the machine that loads it.
#[verifier::reject_recursive_types(EXTENSION)]
pub struct ConfigSingleton<EXTENSION, STATE> {
    stage: LoadStage<EXTENSION>,
    parts_map: PartsMap<EXTENSION>,
    run_in: STATE,
    move_to: MoveToState<EXTENSION, STATE>,
}

/// The mathematical content of a [`ConfigSingleton`].
#[verifier::reject_recursive_types(EXTENSION)]
pub ghost struct ConfigSingletonView<EXTENSION, STATE> {
    pub phase: LoadPhase,
    /// The registry as its readers see it.
    pub parts: Map<Seq<char>, PartPath<EXTENSION>>,
    /// The application state in which the machine polls.
    pub run_in: STATE,
    /// The application state to move to on completion.
    pub next: STATE,
}

/// What can happen to the machine.
#[verifier::reject_recursive_types(EXTENSION)]
pub ghost enum LoadEvent<EXTENSION> {
    /// The request was issued and answered with `handle`.
    Preloaded { handle: UntypedHandle },
    /// The handle was polled: `loaded` is the decoded registry if the file
    /// has arrived, and nothing if it has not.
    Polled { loaded: Option<Map<Seq<char>, PartPath<EXTENSION>>> },
}

impl<EXTENSION, STATE> ConfigSingletonView<EXTENSION, STATE> {
    /// The machine at application start: nothing requested, nothing
    /// registered.
    pub open spec fn fresh(file: Seq<char>, run_in: STATE, to_state: STATE) -> Self {
        ConfigSingletonView {
            phase: LoadPhase::Uninitialized { path: file },
            parts: Map::empty(),
            run_in,
            next: to_state,
        }
    }

    /// The machine after the request was answered with `handle`. Only the
    /// first request counts.
    pub open spec fn preloaded(self, handle: UntypedHandle) -> Self {
        if self.phase is Uninitialized {
            ConfigSingletonView { phase: LoadPhase::Requested { handle }, ..self }
        } else {
            self
        }
    }

    /// Whether a poll with this outcome completes the loading.
    pub open spec fn completes(self, loaded: Option<Map<Seq<char>, PartPath<EXTENSION>>>) -> bool {
        self.phase is Requested && loaded is Some
    }

    /// The machine after a poll. A poll that completes the loading installs
    /// the loaded registry in place of the old one and ends in `Ready`;
    /// any other poll changes nothing.
    pub open spec fn polled(self, loaded: Option<Map<Seq<char>, PartPath<EXTENSION>>>) -> Self {
        if self.completes(loaded) {
            ConfigSingletonView { phase: LoadPhase::Ready, parts: loaded->0, ..self }
        } else {
            self
        }
    }

    /// The machine after `event`.
    pub open spec fn after(self, event: LoadEvent<EXTENSION>) -> Self {
        match event {
            LoadEvent::Preloaded { handle } => self.preloaded(handle),
            LoadEvent::Polled { loaded } => self.polled(loaded),
        }
    }

    /// Whether `event` makes the machine install a registry and ask for the
    /// change of state.
    pub open spec fn completed_by(self, event: LoadEvent<EXTENSION>) -> bool {
        event matches LoadEvent::Polled { loaded } && self.completes(loaded)
    }

    /// The machine after all of `events`, in order.
    pub open spec fn after_all(self, events: Seq<LoadEvent<EXTENSION>>) -> Self
        decreases events.len(),
    {
        if events.len() == 0 {
            self
        } else {
            self.after(events[0]).after_all(events.drop_first())
        }
    }

    /// How often the machine installs a registry and asks for the change of
    /// state while `events` happen.
    pub open spec fn completions(self, events: Seq<LoadEvent<EXTENSION>>) -> nat
        decreases events.len(),
    {
        if events.len() == 0 {
            0
        } else {
            (if self.completed_by(events[0]) {
                1nat
            } else {
                0nat
            }) + self.after(events[0]).completions(events.drop_first())
        }
    }
}

/// The view of an optional registry.
pub open spec fn loaded_view<EXTENSION>(loaded: Option<PartsMap<EXTENSION>>) -> Option<
    Map<Seq<char>, PartPath<EXTENSION>>,
> {
    match loaded {
        Some(parts) => Some(parts@),
        None => None,
    }
}

impl<EXTENSION, STATE> View for ConfigSingleton<EXTENSION, STATE> {
    type V = ConfigSingletonView<EXTENSION, STATE>;

    closed spec fn view(&self) -> ConfigSingletonView<EXTENSION, STATE> {
        ConfigSingletonView {
            phase: match self.stage {
                LoadStage::Uninitialized(target) => LoadPhase::Uninitialized { path: target@ },
                LoadStage::Requested(pending) => LoadPhase::Requested { handle: pending@ },
                LoadStage::Ready => LoadPhase::Ready,
            },
            parts: self.parts_map@,
            run_in: self.run_in,
            next: self.move_to@,
        }
    }
}

impl<EXTENSION, STATE> ConfigSingleton<EXTENSION, STATE> {
    /// The file to request, as long as none was requested.
    pub fn load_target(&self) -> (target: Option<&ConfigLoadTarget<EXTENSION>>)
        ensures
            match target {
                Some(target) => self@.phase == (LoadPhase::Uninitialized { path: target@ }),
                None => !(self@.phase is Uninitialized),
            },
    {
        match &self.stage {
            LoadStage::Uninitialized(target) => Some(target),
            _ => None,
        }
    }

    /// The handle to poll in this tick: the pending one, and only while the
    /// application is in the state the machine runs in.
    pub fn load_handle(&self, in_run_state: bool) -> (pending: Option<&ConfigLoadHandle<EXTENSION>>)
        ensures
            match pending {
                Some(pending) => in_run_state && self@.phase == (LoadPhase::Requested {
                    handle: pending@,
                }),
                None => !in_run_state || !(self@.phase is Requested),
            },
    {
        if !in_run_state {
            return None;
        }
        match &self.stage {
            LoadStage::Requested(pending) => Some(pending),
            _ => None,
        }
    }

    /// Whether the registry is installed.
    pub fn is_ready(&self) -> (ready: bool)
        ensures
            ready == (self@.phase is Ready),
    {
        match &self.stage {
            LoadStage::Ready => true,
            _ => false,
        }
    }

    /// The registry: empty until the loading is complete, the loaded
    /// registry from then on.
    pub fn parts_map(&self) -> (parts: &PartsMap<EXTENSION>)
        ensures
            parts@ == self@.parts,
    {
        &self.parts_map
    }

    /// The application state in which the machine polls.
    pub fn run_in(&self) -> (state: &STATE)
        ensures
            *state == self@.run_in,
    {
        &self.run_in
    }
}

/// Sets up the loading of the registry in `file`: polled while the
/// application is in `run_in`, followed by a move to `to_state`.
pub fn config_singleton<EXTENSION, STATE>(file: &str, run_in: STATE, to_state: STATE) -> (config:
    ConfigSingleton<EXTENSION, STATE>)
    ensures
        config@ == ConfigSingletonView::<EXTENSION, STATE>::fresh(file@, run_in, to_state),
{
    ConfigSingleton {
        stage: LoadStage::Uninitialized(ConfigLoadTarget::new(file)),
        parts_map: PartsMap::default(),
        run_in,
        move_to: MoveToState::new(to_state),
    }
}

/// Records that the file was requested and that `handle` stands for it.
/// The target is given up for the handle. Once a request is recorded a
/// further one is ignored.
pub fn preload_single<EXTENSION, STATE>(
    config: &mut ConfigSingleton<EXTENSION, STATE>,
    handle: UntypedHandle,
)
    ensures
        final(config)@ == old(config)@.preloaded(handle),
{
    if let LoadStage::Uninitialized(_) = &config.stage {
        config.stage = LoadStage::Requested(ConfigLoadHandle::new(handle));
    }
}

/// Takes the outcome of one poll of the pending handle: `loaded` is the
/// decoded registry if the file has arrived.
///
/// While a request is pending, an arrived registry replaces the registry
/// as a whole, the handle is given up, and the result is the state to move
/// the application to. In every other case nothing changes and nothing is
/// returned; a registry handed in is dropped.
pub fn load_config<EXTENSION, STATE: Clone>(
    config: &mut ConfigSingleton<EXTENSION, STATE>,
    loaded: Option<PartsMap<EXTENSION>>,
) -> (next_state: Option<STATE>)
    ensures
        final(config)@ == old(config)@.polled(loaded_view(loaded)),
        match next_state {
            Some(next) => old(config)@.completes(loaded_view(loaded)) && cloned(
                old(config)@.next,
                next,
            ),
            None => !old(config)@.completes(loaded_view(loaded)),
        },
{
    let pending = match &config.stage {
        LoadStage::Requested(_) => true,
        _ => false,
    };
    if !pending {
        return None;
    }
    match loaded {
        Some(parts) => {
            config.stage = LoadStage::Ready;
            config.parts_map = parts;
            Some(config.move_to.next.clone())
        },
        None => None,
    }
}

/// The loading completes at most once. Whatever happens to a machine, and
/// for however long it is polled, it installs a registry and asks for the
/// change of state at most once: exactly once if it goes from another phase
/// to `Ready`, and never if it was `Ready` before.
pub proof fn lemma_completes_at_most_once<EXTENSION, STATE>(
    start: ConfigSingletonView<EXTENSION, STATE>,
    events: Seq<LoadEvent<EXTENSION>>,
)
    ensures
        start.completions(events) <= 1,
        start.completions(events) == 1 <==> !(start.phase is Ready) && start.after_all(
            events,
        ).phase is Ready,
        start.phase is Ready ==> start.after_all(events) == start,
    decreases events.len(),
{
    if events.len() > 0 {
        lemma_completes_at_most_once(start.after(events[0]), events.drop_first());
    }
}

/// The registry is never a mixture. After any course of events the registry
/// is either the one the machine started with or, as a whole, the registry
/// that one of the polls brought.
pub proof fn lemma_registry_is_swapped_whole<EXTENSION, STATE>(
    start: ConfigSingletonView<EXTENSION, STATE>,
    events: Seq<LoadEvent<EXTENSION>>,
)
    ensures
        start.after_all(events).parts == start.parts || exists|i: int|
            0 <= i < events.len() && #[trigger] events[i] == (LoadEvent::Polled {
                loaded: Some(start.after_all(events).parts),
            }),
        start.completions(events) == 0 ==> start.after_all(events).parts == start.parts,
    decreases events.len(),
{
    if events.len() > 0 {
        let later = events.drop_first();
        let then = start.after(events[0]);
        lemma_registry_is_swapped_whole(then, later);
        let end = start.after_all(events);
        if end.parts != start.parts {
            if end.parts == then.parts {
                assert(events[0] == (LoadEvent::Polled { loaded: Some(end.parts) }));
            } else {
                let i = choose|i: int|
                    0 <= i < later.len() && #[trigger] later[i] == (LoadEvent::Polled {
                        loaded: Some(end.parts),
                    });
                assert(events[i + 1] == later[i]);
            }
        }
    }
}

/// Until the loading is complete the registry is empty. A machine that was
/// set up by [`config_singleton`] holds no part in any phase but `Ready`.
pub proof fn lemma_registry_is_empty_until_ready<EXTENSION, STATE>(
    file: Seq<char>,
    run_in: STATE,
    to_state: STATE,
    events: Seq<LoadEvent<EXTENSION>>,
)
    ensures
        ({
            let end = ConfigSingletonView::<EXTENSION, STATE>::fresh(
                file,
                run_in,
                to_state,
            ).after_all(events);
            !(end.phase is Ready) ==> end.parts == Map::<Seq<char>, PartPath<EXTENSION>>::empty()
        }),
{
    let start = ConfigSingletonView::<EXTENSION, STATE>::fresh(file, run_in, to_state);
    lemma_completes_at_most_once(start, events);
    lemma_registry_is_swapped_whole(start, events);
}

} // verus!

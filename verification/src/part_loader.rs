//! The builder that turns one part into a request to spawn its model.

use crate::bevy_specs::{asset_path_parses, label_asset, labelled_asset_path, path_parses};
use crate::extend_gltf_material::WithMaterialExtension;
use crate::plugin::EmptyMaterialExtension;
use bevy::asset::AssetPath;
use bevy::prelude::{Entity, GltfAssetLabel, Transform};
use core::marker::PhantomData;
use vstd::prelude::*;

verus! {

/// Configures how a part is spawned. Every call hands back the builder with
/// one more choice recorded; [`build`](PartLoader::build) ends the chain.
pub struct PartLoader<'a, EXTENSION, MATERIAL = EmptyMaterialExtension> {
    // The new node becomes a child of this one.
    on: Option<Entity>,
    // The placement of the new node.
    offset: Option<Transform>,
    path: &'a String,
    extend_material: Option<MATERIAL>,
    asset_label: Option<GltfAssetLabel>,
    phantom: PhantomData<EXTENSION>,
}

/// The choices that a [`PartLoader`] has recorded.
pub ghost struct PartLoaderView<MATERIAL> {
    pub on: Option<Entity>,
    pub offset: Option<Transform>,
    pub path: Seq<char>,
    pub extend_material: Option<MATERIAL>,
    pub asset_label: Option<GltfAssetLabel>,
}

/// What is to be spawned for a part: one new node, made a child of `parent`
/// if there is one, placed at `offset` if there is one, with the scene
/// `scene` instantiated as its root and, where an extension was chosen,
/// marked so that its materials are extended once the scene is ready.
pub struct SpawnRequest<MATERIAL> {
    pub parent: Option<Entity>,
    pub offset: Option<Transform>,
    pub scene: AssetPath<'static>,
    pub material_extension: Option<WithMaterialExtension<MATERIAL>>,
}

/// The sub-asset that is spawned where none was chosen: the first scene.
pub open spec fn selected_label(asset_label: Option<GltfAssetLabel>) -> GltfAssetLabel {
    match asset_label {
        Some(label) => label,
        None => GltfAssetLabel::Scene(0),
    }
}

impl<MATERIAL> PartLoaderView<MATERIAL> {
    /// A builder for `path` with nothing else chosen.
    pub open spec fn fresh(path: Seq<char>) -> Self {
        PartLoaderView { on: None, offset: None, path, extend_material: None, asset_label: None }
    }

    pub open spec fn on(self, entity: Entity) -> Self {
        PartLoaderView { on: Some(entity), ..self }
    }

    pub open spec fn offset(self, offset: Transform) -> Self {
        PartLoaderView { offset: Some(offset), ..self }
    }

    pub open spec fn asset_label(self, asset_label: GltfAssetLabel) -> Self {
        PartLoaderView { asset_label: Some(asset_label), ..self }
    }

    pub open spec fn material_trait<NewMaterial>(self) -> PartLoaderView<NewMaterial> {
        PartLoaderView {
            on: self.on,
            offset: self.offset,
            path: self.path,
            extend_material: None,
            asset_label: self.asset_label,
        }
    }

    pub open spec fn extend_material<NewMaterial>(self, material: NewMaterial) -> PartLoaderView<
        NewMaterial,
    > {
        PartLoaderView {
            on: self.on,
            offset: self.offset,
            path: self.path,
            extend_material: Some(material),
            asset_label: self.asset_label,
        }
    }

    /// The request that these choices amount to.
    pub open spec fn request(self) -> SpawnRequest<MATERIAL> {
        SpawnRequest {
            parent: self.on,
            offset: self.offset,
            scene: labelled_asset_path(selected_label(self.asset_label), self.path),
            material_extension: match self.extend_material {
                Some(material) => Some(WithMaterialExtension(material)),
                None => None,
            },
        }
    }
}

impl<'a, EXTENSION, MATERIAL> View for PartLoader<'a, EXTENSION, MATERIAL> {
    type V = PartLoaderView<MATERIAL>;

    closed spec fn view(&self) -> PartLoaderView<MATERIAL> {
        PartLoaderView {
            on: self.on,
            offset: self.offset,
            path: self.path@,
            extend_material: self.extend_material,
            asset_label: self.asset_label,
        }
    }
}

impl<'a, EXTENSION, MATERIAL> PartLoader<'a, EXTENSION, MATERIAL> {
    /// A builder for the model at `path`: a new top-level node, not moved,
    /// the first scene of the file, no material extension.
    pub fn new(path: &'a String) -> (loader: Self)
        ensures
            loader@ == PartLoaderView::<MATERIAL>::fresh(path@),
    {
        PartLoader {
            on: None,
            offset: None,
            asset_label: None,
            path,
            phantom: PhantomData,
            extend_material: None,
        }
    }

    /// Spawns the part as a new child of `entity`.
    pub fn on(self, entity: Entity) -> (loader: Self)
        ensures
            loader@ == self@.on(entity),
    {
        let mut loader = self;
        loader.on = Some(entity);
        loader
    }

    /// Changes the type of the material extension. An extension chosen before
    /// is dropped, everything else is kept.
    pub fn material_trait<NewMaterial>(self) -> (loader: PartLoader<'a, EXTENSION, NewMaterial>)
        ensures
            loader@ == self@.material_trait::<NewMaterial>(),
    {
        PartLoader {
            on: self.on,
            offset: self.offset,
            path: self.path,
            extend_material: None,
            asset_label: self.asset_label,
            phantom: PhantomData,
        }
    }

    /// Places the new node at `offset`.
    pub fn offset(self, offset: Transform) -> (loader: Self)
        ensures
            loader@ == self@.offset(offset),
    {
        let mut loader = self;
        loader.offset = Some(offset);
        loader
    }

    /// Extends every material of the spawned sub-tree by `material`, once it
    /// is ready. Everything else is kept.
    pub fn extend_material<NewMaterial>(self, material: NewMaterial) -> (loader: PartLoader<
        'a,
        EXTENSION,
        NewMaterial,
    >)
        ensures
            loader@ == self@.extend_material(material),
    {
        let mut loader = self.material_trait();
        loader.extend_material = Some(material);
        loader
    }

    /// Spawns the sub-asset `asset_label` of the file instead of its first
    /// scene.
    pub fn asset_label(self, asset_label: GltfAssetLabel) -> (loader: Self)
        ensures
            loader@ == self@.asset_label(asset_label),
    {
        let mut loader = self;
        loader.asset_label = Some(asset_label);
        loader
    }

    /// Ends the chain where the path is known to be well formed.
    ///
    /// The request attaches the new node as a child of the node given to
    /// [`on`](Self::on); that node itself is left as it is.
    pub fn build(self) -> (request: SpawnRequest<MATERIAL>)
        requires
            asset_path_parses(self@.path),
        ensures
            request == self@.request(),
    {
        let label = match self.asset_label {
            Some(label) => label,
            None => GltfAssetLabel::Scene(0),
        };
        let scene = label_asset(label, self.path);
        let material_extension = match self.extend_material {
            Some(material) => Some(WithMaterialExtension(material)),
            None => None,
        };
        SpawnRequest { parent: self.on, offset: self.offset, scene, material_extension }
    }

    /// Ends the chain. A path that the asset system cannot parse yields no
    /// request; any other path yields the request of [`build`](Self::build).
    pub fn try_build(self) -> (request: Option<SpawnRequest<MATERIAL>>)
        ensures
            match request {
                Some(request) => asset_path_parses(self@.path) && request == self@.request(),
                None => !asset_path_parses(self@.path),
            },
    {
        if path_parses(self.path.as_str()) {
            Some(self.build())
        } else {
            None
        }
    }
}

/// Choices do not disturb one another: an attachment target chosen before a
/// material extension is still there afterwards, and an extension chosen
/// before an attachment target is still there afterwards.
pub proof fn lemma_choices_are_kept<MATERIAL, NewMaterial>(
    loader: PartLoaderView<MATERIAL>,
    entity: Entity,
    material: NewMaterial,
)
    ensures
        loader.on(entity).extend_material(material).on == Some(entity),
        loader.extend_material(material).on(entity).extend_material == Some(material),
        loader.on(entity).extend_material(material) == loader.extend_material(material).on(entity),
{
}

} // verus!

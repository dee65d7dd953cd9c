//! The engine types that pass through this library, and what is assumed of
//! the few engine functions it calls. Nothing in this file is proved.

use bevy::asset::{AssetPath, UntypedHandle};
use bevy::prelude::{Entity, GltfAssetLabel, StandardMaterial, Transform};
use vstd::prelude::*;

verus! {

/// `bevy::prelude::Entity`: the identifier of a scene node. The library only
/// stores, compares in specifications and hands back such identifiers.
#[verifier::external_type_specification]
#[verifier::external_body]
pub struct ExEntity(Entity);

/// `bevy::prelude::Transform`: the placement of a node. Carried from the
/// builder into the spawn request and never looked into.
#[verifier::external_type_specification]
#[verifier::external_body]
pub struct ExTransform(Transform);

/// `bevy::prelude::StandardMaterial`: the parameters of a base material.
/// Carried from a node report into a material swap and never looked into.
#[verifier::external_type_specification]
#[verifier::external_body]
pub struct ExStandardMaterial(StandardMaterial);

/// `bevy::asset::AssetPath`: a parsed asset reference (source, path, label).
/// Only produced by [`label_asset`] and handed on.
#[verifier::external_type_specification]
#[verifier::external_body]
pub struct ExAssetPath<'a>(AssetPath<'a>);

/// `bevy::asset::UntypedHandle`: a handle to an asset that is being loaded.
/// Kept by the loading state machine while the request is pending.
#[verifier::external_type_specification]
#[verifier::external_body]
pub struct ExUntypedHandle(UntypedHandle);

/// `bevy::prelude::GltfAssetLabel`: names one sub-asset of a glTF file. A
/// public enum whose variants hold indices and one flag. Its variants are
/// left visible, because the builder names `Scene(0)` where no label was
/// chosen.
#[verifier::external_type_specification]
pub struct ExGltfAssetLabel(GltfAssetLabel);

/// Whether `AssetPath::try_parse` accepts the text. The parser reads the
/// text and nothing else, so the answer is a function of the characters.
pub uninterp spec fn asset_path_parses(path: Seq<char>) -> bool;

/// The asset path that `GltfAssetLabel::from_asset` makes of a label and a
/// path text: the parsed text with its label replaced by the given one.
pub uninterp spec fn labelled_asset_path(label: GltfAssetLabel, path: Seq<char>) -> AssetPath<
    'static,
>;

/// `AssetPath::try_parse(path).is_ok()`. Claims only that the outcome is the
/// one named by [`asset_path_parses`].
#[verifier::external_body]
pub(crate) fn path_parses(path: &str) -> (ok: bool)
    ensures
        ok == asset_path_parses(path@),
{
    AssetPath::try_parse(path).is_ok()
}

/// `GltfAssetLabel::from_asset` on an owned copy of `path`. The call parses
/// the text with `AssetPath::parse`, which panics exactly where `try_parse`
/// fails, hence the precondition. Claims only that the result is the one
/// named by [`labelled_asset_path`].
#[verifier::external_body]
pub(crate) fn label_asset(label: GltfAssetLabel, path: &String) -> (asset: AssetPath<'static>)
    requires
        asset_path_parses(path@),
    ensures
        asset == labelled_asset_path(label, path@),
{
    label.from_asset(path.clone())
}

/// `StandardMaterial` derives `Clone`: the copy holds the same parameters.
pub assume_specification[ <StandardMaterial as Clone>::clone ](
    material: &StandardMaterial,
) -> (copy: StandardMaterial)
    ensures
        copy == *material,
;

} // verus!

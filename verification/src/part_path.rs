//! One entry of the registry: where a part is loaded from, and what the
//! application chose to say about it.

use crate::part_loader::{PartLoader, PartLoaderView};
use crate::plugin::EmptyMaterialExtension;
use vstd::prelude::*;
use vstd::string::StringExecFns;

verus! {

/// A loadable part: the path of its model and optional data of the
/// application's own type `EXTENSION`.
#[derive(Debug)]
pub struct PartPath<EXTENSION> {
    pub path: String,
    pub data: Option<EXTENSION>,
}

impl<EXTENSION> PartPath<EXTENSION> {
    /// A builder for spawning this part, with nothing configured yet.
    pub fn load(&self) -> (loader: PartLoader<'_, EXTENSION>)
        ensures
            loader@ == PartLoaderView::<EmptyMaterialExtension>::fresh(self.path@),
    {
        PartLoader::new(&self.path)
    }

    /// The data of this part, or [`MissingData`] if the registry gave none.
    pub fn data(&self) -> (found: Result<&EXTENSION, MissingData>)
        ensures
            match found {
                Ok(data) => self.data == Some(*data),
                Err(_) => self.data is None,
            },
    {
        match &self.data {
            Some(data) => Ok(data),
            None => Err(MissingData),
        }
    }
}

/// A part was asked for its data and has none.
#[derive(Debug)]
pub struct MissingData;

impl MissingData {
    /// The text of this failure.
    pub fn message(&self) -> (text: String)
        ensures
            text@ == "unable to read data for part path"@,
    {
        String::from_str("unable to read data for part path")
    }
}

} // verus!

//! Loader for sprite-atlas description files in tagged markup.
//!
//! A description file names a packed image (`imagePath` on its root
//! `TextureAtlas` element) and subdivides it into named rectangles
//! (`SubTexture` children).  The library parses such a description into a
//! [`layout::Layout`] of rectangles plus a name-to-index mapping
//! ([`atlas::XMLTextureAtlas`]), and resolves sprite names to layout indices
//! each tick ([`resolver::update_atlas`]).
//!
//! Loading happens in two stages around the one asynchronous suspension
//! point (the nested image load, performed by the embedding application):
//! [`atlas::begin_load`] parses the markup up to the atlas element and
//! returns the image path; [`atlas::finish_load`] resumes with the image
//! dimensions and builds the layout and the mapping.

use vstd::prelude::*;

pub mod atlas;
pub mod events;
pub mod layout;
pub mod names;
pub mod numbers;
pub mod resolver;

verus! {

/// Marker for the atlas-loading plugin; the embedding application registers
/// the asset loader and the per-tick resolver under this name.
pub struct XMLTextureAtlasPlugin;

} // verus!

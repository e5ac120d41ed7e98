//! Editing logic of the level editor: the registry of definition assets, the
//! undo history, the scene hierarchy panel, brush editing and drawing, the asset browser, the
//! inspector's component list and field rows, entity templates, and the
//! animation graph window and clip timeline.

use vstd::prelude::*;

pub mod text;
pub mod definitions;
pub mod hierarchy;
pub mod history;
pub mod brush;
pub mod browser;
pub mod animation;
pub mod inspector;
pub mod templates;

verus! {
} // verus!

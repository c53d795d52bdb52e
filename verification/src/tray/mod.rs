//! The tray menu's contents: spawn items for the catalog and the dropped-file filter.

pub mod menu;
pub mod windows_path;

use vstd::prelude::*;

verus! {

/// The paths among `paths` that end in `.zip` (any ASCII case), in their original order.
pub fn filter_zip_paths(paths: &[String]) -> (kept: Vec<String>)
    ensures
        kept@ == paths@.filter(|p: String| menu::has_zip_extension(p@)),
{
    menu::filter_zip_paths(paths)
}

} // verus!

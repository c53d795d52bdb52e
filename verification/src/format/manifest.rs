use vstd::prelude::*;

verus! {

/// A mascot bundle's manifest: who made it, what it is called, and where its parts are.
#[derive(Debug, Clone)]
pub struct Manifest {
    pub schema_version: u32,
    pub name: String,
    pub name_slug: String,
    pub category: String,
    pub category_slug: String,
    pub description: String,
    pub bundle_version: u32,
    pub min_app_version: u32,
    pub levels: u8,
    pub origin: String,
    pub animation_schema: AnimationSchemaRef,
    pub sprites: SpriteSheetInfo,
    pub preview: PreviewInfo,
    pub author: AuthorInfo,
    pub license: LicenseInfo,
}

/// Where the animation schema lives in the bundle and which schema it follows.
#[derive(Debug, Clone)]
pub struct AnimationSchemaRef {
    pub path: String,
    pub schema_id: String,
    pub version: u32,
}

/// The sprite files: `sprite_count` files under `base_path`, named by `file_pattern`.
#[derive(Debug, Clone)]
pub struct SpriteSheetInfo {
    pub kind: String,
    pub base_path: String,
    pub file_pattern: String,
    pub sprite_count: u32,
    pub size: [u32; 2],
}

#[derive(Debug, Clone)]
pub struct PreviewInfo {
    pub thumbnail: String,
}

#[derive(Debug, Clone)]
pub struct AuthorInfo {
    pub name: String,
}

#[derive(Debug, Clone)]
pub struct LicenseInfo {
    pub kind: String,
    pub text: String,
    pub attribution: String,
}

} // verus!

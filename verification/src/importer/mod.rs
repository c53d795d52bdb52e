//! Importing mascots into the library: opening the archive, the decisions of an import
//! (which bundle to read, whether its slug is free), and the catalog of installed mascots.
//!
//! An import alternates with work on disk (extracting, loading, copying) that the
//! library does not do: `import_step` takes what that work found and says what to do next.

pub mod catalog;
pub mod shimeji_ee;

use crate::format::bundle::BundleError;
use catalog::{CatalogEntry, CatalogError};
use shimeji_ee::ShimejiEeError;
use vstd::prelude::*;

verus! {

/// `zip::ZipArchive`, carried through as an opaque value.
#[verifier::external_type_specification]
#[verifier::external_body]
#[verifier::reject_recursive_types(R)]
pub struct ExZipArchive<R>(zip::ZipArchive<R>);

/// `std::io::Cursor`, carried through as an opaque value.
#[verifier::external_type_specification]
#[verifier::external_body]
#[verifier::reject_recursive_types(T)]
pub struct ExCursor<T>(std::io::Cursor<T>);

/// `zip::result::ZipError`, carried through as an opaque value.
#[verifier::external_type_specification]
#[verifier::external_body]
pub struct ExZipError(zip::result::ZipError);

/// Whether `zip::ZipArchive::new` reads these bytes as a zip archive (it finds and reads
/// the central directory). The answer depends on the bytes alone.
pub uninterp spec fn zip_opens(bytes: Seq<u8>) -> bool;

/// Reads `bytes` as a zip archive with `zip::ZipArchive::new` over an in-memory cursor;
/// it succeeds exactly when `zip_opens(bytes)`.
#[verifier::external_body]
fn open_zip(bytes: &[u8]) -> (archive: Result<zip::ZipArchive<std::io::Cursor<Vec<u8>>>, zip::result::ZipError>)
    ensures
        archive is Ok <==> zip_opens(bytes@),
{
    zip::ZipArchive::new(std::io::Cursor::new(bytes.to_vec()))
}

/// Why an import failed.
#[derive(Debug)]
pub enum ImportError {
    Zip(zip::result::ZipError),
    Io(std::io::Error),
    InvalidBundle(BundleError),
    Catalog(CatalogError),
    ShimejiEe(ShimejiEeError),
}

/// The mascot added to the library, and the parts of it that were left out.
#[derive(Debug)]
pub struct ImportResult {
    pub entry: CatalogEntry,
    pub skipped: Vec<String>,
}

/// Opens the archive an import reads. Bytes that are not a zip archive are refused, with
/// the zip error, before anything is extracted.
pub fn open_archive(bytes: &[u8]) -> (r: Result<zip::ZipArchive<std::io::Cursor<Vec<u8>>>, ImportError>)
    ensures
        r is Ok <==> zip_opens(bytes@),
        r matches Err(e) ==> e is Zip,
{
    match open_zip(bytes) {
        Ok(archive) => Ok(archive),
        Err(e) => Err(ImportError::Zip(e)),
    }
}

/// Where an import stands.
#[derive(Debug)]
pub enum ImportStage {
    /// The archive is extracted; whether it holds a manifest is not known yet.
    Extracted,
    /// It holds no manifest: it is read as a shimeji-ee mascot.
    ReadingShimejiEe,
    /// The bundle is loaded; `skipped` holds what a shimeji-ee reading left out.
    Loading { skipped: Vec<String> },
    /// The bundle loaded; whether its folder already exists in the library is being looked up.
    Checking { slug: String, name: String, skipped: Vec<String> },
    /// The bundle is being copied into its folder in the library.
    Copying { slug: String, name: String, skipped: Vec<String> },
    /// Nothing more to do.
    Finished,
}

/// What the work on disk found.
#[derive(Debug)]
pub enum ImportEvent {
    /// Whether the extracted archive holds a manifest.
    ManifestChecked { present: bool },
    /// The shimeji-ee mascot was read; these are the names it left out.
    ShimejiEeRead { skipped: Vec<String> },
    /// The bundle loaded, with this slug and display name.
    BundleLoaded { slug: String, name: String },
    /// Whether the bundle's folder already exists in the library.
    TargetChecked { exists: bool },
    /// The bundle was copied into the folder `dir`.
    Copied { dir: String },
}

/// What to do next.
#[derive(Debug)]
pub enum ImportAction {
    /// Read the archive as a shimeji-ee mascot.
    ReadShimejiEe,
    /// Load the extracted bundle.
    LoadBundle,
    /// Look up whether the library already has a folder for `slug`.
    CheckTarget { slug: String },
    /// Copy the bundle into the library's folder for `slug`.
    CopyBundle { slug: String },
    /// Add the entry to the catalog; the import then succeeds with this result.
    Register(ImportResult),
    /// The import fails with this error.
    Refuse(ImportError),
    /// The event does not belong to this stage: nothing to do.
    Wait,
}

/// The next stage and action of an import: a shimeji-ee reading only where the archive
/// holds no manifest; the bundle loaded; its slug looked up in the library; a slug that is
/// already there refused before anything is copied; otherwise the bundle copied, then
/// registered under its slug, name and folder with the names left out. An event that does
/// not belong to the stage leaves it as it is.
pub open spec fn import_next(stage: ImportStage, event: ImportEvent, next: (ImportStage, ImportAction)) -> bool {
    match stage {
        ImportStage::Extracted => match event {
            ImportEvent::ManifestChecked { present } => if present {
                next.0 matches ImportStage::Loading { skipped } && skipped@.len() == 0 && next.1 is LoadBundle
            } else {
                next == (ImportStage::ReadingShimejiEe, ImportAction::ReadShimejiEe)
            },
            _ => next == (ImportStage::Extracted, ImportAction::Wait),
        },
        ImportStage::ReadingShimejiEe => match event {
            ImportEvent::ShimejiEeRead { skipped } => next == (ImportStage::Loading { skipped }, ImportAction::LoadBundle),
            _ => next == (ImportStage::ReadingShimejiEe, ImportAction::Wait),
        },
        ImportStage::Loading { skipped } => match event {
            ImportEvent::BundleLoaded { slug, name } => next == (
                ImportStage::Checking { slug, name, skipped },
                ImportAction::CheckTarget { slug },
            ),
            _ => next == (ImportStage::Loading { skipped }, ImportAction::Wait),
        },
        ImportStage::Checking { slug, name, skipped } => match event {
            ImportEvent::TargetChecked { exists } => if exists {
                next == (
                    ImportStage::Finished,
                    ImportAction::Refuse(ImportError::Catalog(CatalogError::DuplicateSlug { slug })),
                )
            } else {
                next == (ImportStage::Copying { slug, name, skipped }, ImportAction::CopyBundle { slug })
            },
            _ => next == (ImportStage::Checking { slug, name, skipped }, ImportAction::Wait),
        },
        ImportStage::Copying { slug, name, skipped } => match event {
            ImportEvent::Copied { dir } => next == (
                ImportStage::Finished,
                ImportAction::Register(ImportResult { entry: CatalogEntry { slug, name, dir }, skipped }),
            ),
            _ => next == (ImportStage::Copying { slug, name, skipped }, ImportAction::Wait),
        },
        ImportStage::Finished => next == (ImportStage::Finished, ImportAction::Wait),
    }
}

/// Takes one step of an import (see `import_next`).
pub fn import_step(stage: ImportStage, event: ImportEvent) -> (next: (ImportStage, ImportAction))
    ensures
        import_next(stage, event, next),
{
    match stage {
        ImportStage::Extracted => match event {
            ImportEvent::ManifestChecked { present } => if present {
                (ImportStage::Loading { skipped: Vec::new() }, ImportAction::LoadBundle)
            } else {
                (ImportStage::ReadingShimejiEe, ImportAction::ReadShimejiEe)
            },
            _ => (ImportStage::Extracted, ImportAction::Wait),
        },
        ImportStage::ReadingShimejiEe => match event {
            ImportEvent::ShimejiEeRead { skipped } => (ImportStage::Loading { skipped }, ImportAction::LoadBundle),
            _ => (ImportStage::ReadingShimejiEe, ImportAction::Wait),
        },
        ImportStage::Loading { skipped } => match event {
            ImportEvent::BundleLoaded { slug, name } => {
                let target = slug.clone();
                (ImportStage::Checking { slug, name, skipped }, ImportAction::CheckTarget { slug: target })
            },
            _ => (ImportStage::Loading { skipped }, ImportAction::Wait),
        },
        ImportStage::Checking { slug, name, skipped } => match event {
            ImportEvent::TargetChecked { exists } => if exists {
                (
                    ImportStage::Finished,
                    ImportAction::Refuse(ImportError::Catalog(CatalogError::DuplicateSlug { slug })),
                )
            } else {
                let target = slug.clone();
                (ImportStage::Copying { slug, name, skipped }, ImportAction::CopyBundle { slug: target })
            },
            _ => (ImportStage::Checking { slug, name, skipped }, ImportAction::Wait),
        },
        ImportStage::Copying { slug, name, skipped } => match event {
            ImportEvent::Copied { dir } => (
                ImportStage::Finished,
                ImportAction::Register(ImportResult { entry: CatalogEntry { slug, name, dir }, skipped }),
            ),
            _ => (ImportStage::Copying { slug, name, skipped }, ImportAction::Wait),
        },
        ImportStage::Finished => (ImportStage::Finished, ImportAction::Wait),
    }
}

/// An import copies a bundle only once it has found the bundle's folder absent from the
/// library: a slug that is already installed is refused before anything is written.
pub proof fn lemma_copy_only_into_a_free_folder(stage: ImportStage, event: ImportEvent, next: (ImportStage, ImportAction))
    requires
        import_next(stage, event, next),
    ensures
        next.1 is CopyBundle ==> event == (ImportEvent::TargetChecked { exists: false }),
        event == (ImportEvent::TargetChecked { exists: true }) && stage is Checking ==> (next.1 matches ImportAction::Refuse(ImportError::Catalog(CatalogError::DuplicateSlug { slug }))
            && slug == stage->Checking_slug),
{
}

/// An archive is read as a shimeji-ee mascot only when it holds no manifest.
pub proof fn lemma_shimeji_ee_only_without_a_manifest(stage: ImportStage, event: ImportEvent, next: (ImportStage, ImportAction))
    requires
        import_next(stage, event, next),
    ensures
        next.1 is ReadShimejiEe ==> event == (ImportEvent::ManifestChecked { present: false }),
{
}

} // verus!

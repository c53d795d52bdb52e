use shimeji::importer::catalog::CatalogError;
use shimeji::importer::{import_step, open_archive, ImportAction, ImportError, ImportEvent, ImportStage};
use std::io::{Cursor, Write};

fn zip_with(name: &str, contents: &[u8]) -> Vec<u8> {
    let mut writer = zip::ZipWriter::new(Cursor::new(Vec::new()));
    writer.start_file(name, zip::write::SimpleFileOptions::default()).unwrap();
    writer.write_all(contents).unwrap();
    writer.finish().unwrap().into_inner()
}

#[test]
fn bytes_that_are_not_a_zip_are_refused_as_such() {
    let err = open_archive(b"definitely not a zip archive").unwrap_err();
    assert!(matches!(err, ImportError::Zip(_)));
    assert!(matches!(open_archive(&[]), Err(ImportError::Zip(_))));
}

#[test]
fn a_zip_archive_opens_with_its_files() {
    let bytes = zip_with("manifest.txt", b"hello");
    let archive = open_archive(&bytes).unwrap();
    assert_eq!(archive.len(), 1);
}

#[test]
fn a_bundle_with_a_manifest_is_loaded_checked_copied_and_registered() {
    let (stage, action) = import_step(ImportStage::Extracted, ImportEvent::ManifestChecked { present: true });
    assert!(matches!(action, ImportAction::LoadBundle));
    let (stage, action) =
        import_step(stage, ImportEvent::BundleLoaded { slug: "usagi".to_string(), name: "Usagi".to_string() });
    assert!(matches!(action, ImportAction::CheckTarget { ref slug } if slug == "usagi"));
    let (stage, action) = import_step(stage, ImportEvent::TargetChecked { exists: false });
    assert!(matches!(action, ImportAction::CopyBundle { ref slug } if slug == "usagi"));
    let (stage, action) = import_step(stage, ImportEvent::Copied { dir: "/library/usagi".to_string() });
    match action {
        ImportAction::Register(result) => {
            assert_eq!(result.entry.slug, "usagi");
            assert_eq!(result.entry.name, "Usagi");
            assert_eq!(result.entry.dir, "/library/usagi");
            assert!(result.skipped.is_empty());
        }
        other => panic!("expected a registration, got {other:?}"),
    }
    assert!(matches!(stage, ImportStage::Finished));
}

#[test]
fn an_installed_slug_is_refused_before_anything_is_copied() {
    let stage = ImportStage::Checking { slug: "usagi".to_string(), name: "Usagi".to_string(), skipped: Vec::new() };
    let (stage, action) = import_step(stage, ImportEvent::TargetChecked { exists: true });
    assert!(matches!(
        action,
        ImportAction::Refuse(ImportError::Catalog(CatalogError::DuplicateSlug { ref slug })) if slug == "usagi"
    ));
    assert!(matches!(stage, ImportStage::Finished));
}

#[test]
fn an_archive_without_a_manifest_is_read_as_a_shimeji_ee_mascot_first() {
    let (stage, action) = import_step(ImportStage::Extracted, ImportEvent::ManifestChecked { present: false });
    assert!(matches!(action, ImportAction::ReadShimejiEe));
    let (stage, action) = import_step(stage, ImportEvent::ShimejiEeRead { skipped: vec!["Offset".to_string()] });
    assert!(matches!(action, ImportAction::LoadBundle));
    let (stage, _) = import_step(stage, ImportEvent::BundleLoaded { slug: "neko".to_string(), name: "Neko".to_string() });
    assert!(matches!(stage, ImportStage::Checking { ref skipped, .. } if skipped == &vec!["Offset".to_string()]));
}

#[test]
fn an_event_out_of_turn_changes_nothing() {
    let (stage, action) = import_step(ImportStage::Extracted, ImportEvent::TargetChecked { exists: false });
    assert!(matches!(action, ImportAction::Wait));
    assert!(matches!(stage, ImportStage::Extracted));
}

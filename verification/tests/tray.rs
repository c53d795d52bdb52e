use shimeji::importer::catalog::CatalogEntry;
use shimeji::tray::filter_zip_paths;
use shimeji::tray::windows_path::extension_span;
use shimeji::tray::menu::{build_spawn_items, SPAWN_MENU_ID_BASE};

#[test]
fn menu_keeps_only_zip_paths_case_insensitively() {
    let paths = vec![
        "C:/drop/usagi.zip".to_string(),
        "C:/drop/readme.txt".to_string(),
        "C:/drop/OTHER.ZIP".to_string(),
    ];
    let kept = shimeji::tray::menu::filter_zip_paths(&paths);
    assert_eq!(kept, vec!["C:/drop/usagi.zip".to_string(), "C:/drop/OTHER.ZIP".to_string()]);
}

#[test]
fn builds_stable_menu_ids_starting_at_the_spawn_base() {
    let catalog = vec![
        CatalogEntry { slug: "usagi".into(), name: "usagi".into(), dir: "usagi".into() },
        CatalogEntry { slug: "neko".into(), name: "neko".into(), dir: "neko".into() },
    ];
    let items = build_spawn_items(&catalog);
    assert_eq!(items, vec![(SPAWN_MENU_ID_BASE, "usagi".to_string()), (SPAWN_MENU_ID_BASE + 1, "neko".to_string())]);
}

#[test]
fn mod_keeps_only_zip_paths_case_insensitively() {
    let paths = vec![
        "C:/drop/usagi.zip".to_string(),
        "C:/drop/readme.txt".to_string(),
        "C:/drop/OTHER.ZIP".to_string(),
    ];
    let kept = filter_zip_paths(&paths);
    assert_eq!(kept, vec!["C:/drop/usagi.zip".to_string(), "C:/drop/OTHER.ZIP".to_string()]);
}

#[test]
fn paths_without_an_extension_or_with_a_longer_one_are_dropped() {
    let paths = vec![
        "archive".to_string(),
        ".zip".to_string(),
        "bundle.zipx".to_string(),
        "dir.zip/inner.txt".to_string(),
        "Mixed.ZiP".to_string(),
    ];
    assert_eq!(filter_zip_paths(&paths), vec!["Mixed.ZiP".to_string()]);
}

#[test]
fn windows_paths_split_on_both_separators_and_skip_prefixes() {
    let paths = vec![
        "C:\\drop\\usagi.zip".to_string(),
        "x.zip\\inner".to_string(),
        "C:.zip".to_string(),
        "D:pack.zip".to_string(),
        "folder.zip\\".to_string(),
        "folder.zip/.".to_string(),
        "archive.zip/..".to_string(),
        "\\\\server\\share.zip".to_string(),
        "\\\\server\\share\\mascot.zip".to_string(),
        "plain".to_string(),
    ];
    assert_eq!(
        filter_zip_paths(&paths),
        vec![
            "C:\\drop\\usagi.zip".to_string(),
            "D:pack.zip".to_string(),
            "folder.zip\\".to_string(),
            "folder.zip/.".to_string(),
            "\\\\server\\share\\mascot.zip".to_string(),
        ]
    );
}

#[test]
fn extension_span_marks_the_text_after_the_last_dot() {
    assert_eq!(extension_span("C:/drop/usagi.zip"), Some((14, 17)));
    assert_eq!(extension_span("a."), Some((2, 2)));
    assert_eq!(extension_span("..a"), Some((2, 3)));
    assert_eq!(extension_span(".zip"), None);
    assert_eq!(extension_span("noext"), None);
    assert_eq!(extension_span("a.b\\c"), None);
    assert_eq!(extension_span("\\\\srv\\sh.zip"), None);
}

#[test]
fn extension_span_agrees_with_std_on_paths_every_platform_reads_alike() {
    let paths = [
        "a.zip", "dir/a.zip", "/abs/dir/A.ZIP", "dir.zip/inner", "a.", ".zip", "..a", "a..b", "noext",
        "folder.zip/", "folder.zip/.", "folder.zip//", "a/..", "..", ".", "", "/", "x/.hidden", "x/y.tar.gz",
    ];
    for p in paths {
        let ours = extension_span(p).map(|(s, e)| p.chars().skip(s).take(e - s).collect::<String>());
        let std_ext = std::path::Path::new(p).extension().map(|x| x.to_string_lossy().into_owned());
        assert_eq!(ours, std_ext, "path {p:?}");
    }
}

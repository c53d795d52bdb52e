use crate::importer::catalog::CatalogEntry;
use crate::tray::windows_path::{extension_span, path_extension};
use vstd::prelude::*;

verus! {

pub const SPAWN_MENU_ID_BASE: u16 = 1000;
pub const IMPORT_MENU_ID: u16 = 1;
pub const CLOSE_ALL_MENU_ID: u16 = 2;
pub const EXIT_MENU_ID: u16 = 3;

/// `c` with ASCII upper-case letters mapped to lower case.
pub open spec fn ascii_lower(c: char) -> char {
    if 'A' <= c && c <= 'Z' { ((c as u8) + 32) as char } else { c }
}

/// `ext` is `zip` in any mix of ASCII letter case.
pub open spec fn is_zip_extension(ext: Seq<char>) -> bool {
    &&& ext.len() == 3
    &&& ascii_lower(ext[0]) == 'z'
    &&& ascii_lower(ext[1]) == 'i'
    &&& ascii_lower(ext[2]) == 'p'
}

/// The path has a `.zip` extension, compared ASCII case-insensitively.
pub open spec fn has_zip_extension(path: Seq<char>) -> bool {
    match path_extension(path) {
        Some(ext) => is_zip_extension(ext),
        None => false,
    }
}

fn lower(c: char) -> (l: char)
    ensures
        l == ascii_lower(c),
{
    if 'A' <= c && c <= 'Z' {
        ((c as u8) + 32) as char
    } else {
        c
    }
}

fn is_zip(path: &String) -> (zip: bool)
    ensures
        zip == has_zip_extension(path@),
{
    let p = path.as_str();
    match extension_span(p) {
        Some((s, e)) => {
            if e - s != 3 {
                return false;
            }
            let ghost ext = p@.subrange(s as int, e as int);
            assert(ext[0] == p@[s as int] && ext[1] == p@[s + 1] && ext[2] == p@[s + 2]);
            lower(p.get_char(s)) == 'z' && lower(p.get_char(s + 1)) == 'i' && lower(
                p.get_char(s + 2),
            ) == 'p'
        },
        None => false,
    }
}

/// The paths among `paths` that end in `.zip` (any ASCII case), in their original order.
pub fn filter_zip_paths(paths: &[String]) -> (kept: Vec<String>)
    ensures
        kept@ == paths@.filter(|p: String| has_zip_extension(p@)),
{
    let mut kept: Vec<String> = Vec::new();
    let mut i: usize = 0;
    while i < paths.len()
        invariant
            i <= paths@.len(),
            kept@ == paths@.take(i as int).filter(|p: String| has_zip_extension(p@)),
        decreases paths@.len() - i,
    {
        proof {
            reveal_with_fuel(Seq::<_>::filter, 1);
            assert(paths@.take(i + 1).drop_last() =~= paths@.take(i as int));
        }
        if is_zip(&paths[i]) {
            kept.push(paths[i].clone());
        }
        i = i + 1;
    }
    assert(paths@.take(i as int) =~= paths@);
    kept
}

/// One spawn menu item per catalog entry: ids count up from `SPAWN_MENU_ID_BASE` in
/// catalog order, each labelled with its entry's name.
pub fn build_spawn_items(catalog: &[CatalogEntry]) -> (items: Vec<(u16, String)>)
    requires
        catalog@.len() + SPAWN_MENU_ID_BASE <= u16::MAX + 1,
    ensures
        items@.len() == catalog@.len(),
        forall|i: int| 0 <= i < catalog@.len() ==> #[trigger] items@[i] == (
            (SPAWN_MENU_ID_BASE + i) as u16,
            catalog@[i].name,
        ),
{
    let mut items: Vec<(u16, String)> = Vec::new();
    let mut i: usize = 0;
    while i < catalog.len()
        invariant
            i <= catalog@.len(),
            catalog@.len() + SPAWN_MENU_ID_BASE <= u16::MAX + 1,
            items@.len() == i,
            forall|k: int| 0 <= k < i ==> #[trigger] items@[k] == (
                (SPAWN_MENU_ID_BASE + k) as u16,
                catalog@[k].name,
            ),
        decreases catalog@.len() - i,
    {
        items.push((SPAWN_MENU_ID_BASE + i as u16, catalog[i].name.clone()));
        i = i + 1;
    }
    items
}

} // verus!

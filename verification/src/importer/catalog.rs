use vstd::prelude::*;

verus! {

/// `std::io::Error`, carried through as an opaque value.
#[verifier::external_type_specification]
#[verifier::external_body]
pub struct ExIoError(std::io::Error);

/// `serde_json::Error`, carried through as an opaque value.
#[verifier::external_type_specification]
#[verifier::external_body]
pub struct ExJsonError(serde_json::Error);

/// One installed mascot: its slug, display name and bundle directory.
#[derive(Debug, Clone)]
pub struct CatalogEntry {
    pub slug: String,
    pub name: String,
    pub dir: String,
}

#[derive(Debug)]
pub enum CatalogError {
    Read(std::io::Error),
    Write(std::io::Error),
    Parse(serde_json::Error),
    DuplicateSlug { slug: String },
}

/// Some entry of `entries` has this slug.
pub open spec fn has_slug(entries: Seq<CatalogEntry>, slug: Seq<char>) -> bool {
    exists|i: int| 0 <= i < entries.len() && (#[trigger] entries[i]).slug@ == slug
}

/// Adds `entry` to the catalog unless an entry with the same slug is already there.
pub fn add_entry(entries: &mut Vec<CatalogEntry>, entry: CatalogEntry) -> (result: Result<(), CatalogError>)
    ensures
        has_slug(old(entries)@, entry.slug@) ==> (
            result matches Err(CatalogError::DuplicateSlug { slug }) && slug@ == entry.slug@
            && final(entries)@ == old(entries)@),
        !has_slug(old(entries)@, entry.slug@) ==> (
            result is Ok && final(entries)@ == old(entries)@.push(entry)),
{
    let mut i: usize = 0;
    while i < entries.len()
        invariant
            i <= entries@.len(),
            forall|k: int| 0 <= k < i ==> (#[trigger] entries@[k]).slug@ != entry.slug@,
        decreases entries@.len() - i,
    {
        if entries[i].slug == entry.slug {
            return Err(CatalogError::DuplicateSlug { slug: entry.slug });
        }
        i = i + 1;
    }
    entries.push(entry);
    Ok(())
}

/// The entries whose bundles are present, in order: `present[i]` says whether entry `i`'s
/// bundle is still on disk.
pub open spec fn present_entries(entries: Seq<CatalogEntry>, present: Seq<bool>) -> Seq<CatalogEntry>
    decreases entries.len(),
{
    if entries.len() == 0 {
        Seq::empty()
    } else if present[entries.len() - 1] {
        present_entries(entries.drop_last(), present).push(entries.last())
    } else {
        present_entries(entries.drop_last(), present)
    }
}

/// Drops the entries whose bundles have gone from disk (`present[i]` is false for entry
/// `i`), keeping the others in order, and says whether any was dropped, so that the
/// pruned catalog can be saved.
pub fn prune_missing(entries: &Vec<CatalogEntry>, present: &Vec<bool>) -> (pruned: (Vec<CatalogEntry>, bool))
    requires
        present@.len() == entries@.len(),
    ensures
        pruned.0@ == present_entries(entries@, present@),
        pruned.1 <==> exists|i: int| 0 <= i < present@.len() && !(#[trigger] present@[i]),
{
    let mut kept: Vec<CatalogEntry> = Vec::new();
    let mut dropped = false;
    let mut i: usize = 0;
    while i < entries.len()
        invariant
            present@.len() == entries@.len(),
            i <= entries@.len(),
            kept@ == present_entries(entries@.take(i as int), present@),
            dropped <==> exists|j: int| 0 <= j < i && !(#[trigger] present@[j]),
        decreases entries@.len() - i,
    {
        assert(entries@.take(i + 1).drop_last() =~= entries@.take(i as int));
        if present[i] {
            let e = &entries[i];
            kept.push(CatalogEntry { slug: e.slug.clone(), name: e.name.clone(), dir: e.dir.clone() });
        } else {
            dropped = true;
        }
        i = i + 1;
    }
    assert(entries@.take(entries@.len() as int) =~= entries@);
    (kept, dropped)
}

} // verus!

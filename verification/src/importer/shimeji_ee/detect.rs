//! Which image folder holds a shimeji-ee mascot's sprites.

use vstd::prelude::*;

verus! {

/// `a` sorts before `b`: compared character by character, as `String` orders them, a
/// proper prefix first.
pub open spec fn text_before(a: Seq<char>, b: Seq<char>) -> bool
    decreases a.len(),
{
    if a.len() == 0 {
        b.len() > 0
    } else if b.len() == 0 {
        false
    } else if a[0] != b[0] {
        (a[0] as u32) < (b[0] as u32)
    } else {
        text_before(a.drop_first(), b.drop_first())
    }
}

/// Nothing sorts before itself.
pub proof fn lemma_text_before_irreflexive(a: Seq<char>)
    ensures
        !text_before(a, a),
    decreases a.len(),
{
    if a.len() > 0 {
        lemma_text_before_irreflexive(a.drop_first());
    }
}

/// Sorting before is transitive.
pub proof fn lemma_text_before_transitive(a: Seq<char>, b: Seq<char>, c: Seq<char>)
    requires
        text_before(a, b),
        text_before(b, c),
    ensures
        text_before(a, c),
    decreases a.len(),
{
    if a.len() > 0 && b.len() > 0 && c.len() > 0 && a[0] == b[0] && b[0] == c[0] {
        lemma_text_before_transitive(a.drop_first(), b.drop_first(), c.drop_first());
    }
}

/// Whether `a` sorts before `b`.
fn text_is_before(a: &str, b: &str) -> (before: bool)
    ensures
        before == text_before(a@, b@),
{
    let n = a.unicode_len();
    let m = b.unicode_len();
    let mut i: usize = 0;
    assert(a@.skip(0) =~= a@ && b@.skip(0) =~= b@);
    loop
        invariant
            n == a@.len(),
            m == b@.len(),
            i <= n,
            i <= m,
            text_before(a@, b@) == text_before(a@.skip(i as int), b@.skip(i as int)),
        decreases n - i,
    {
        if i == n {
            return i < m;
        }
        if i == m {
            return false;
        }
        let x = a.get_char(i);
        let y = b.get_char(i);
        assert(a@.skip(i as int)[0] == x && b@.skip(i as int)[0] == y);
        if x != y {
            return (x as u32) < (y as u32);
        }
        assert(a@.skip(i as int).drop_first() =~= a@.skip(i + 1));
        assert(b@.skip(i as int).drop_first() =~= b@.skip(i + 1));
        i = i + 1;
    }
}

/// `folder` is the first of `names` in sorted order: one of them, with none before it.
pub open spec fn first_in_order(names: Seq<String>, folder: Seq<char>) -> bool {
    &&& exists|i: int| 0 <= i < names.len() && (#[trigger] names[i])@ == folder
    &&& forall|j: int| 0 <= j < names.len() ==> !text_before((#[trigger] names[j])@, folder)
}

/// The folder under `img` that holds the mascot's sprites. Where `actions.xml` sits in the
/// shared `conf` folder beside `img` (`shared_conf`), it is the first of `image_folders`
/// (the folders under `img`) in sorted order; otherwise it is the folder named like the
/// one holding `actions.xml` (`conf_name`). `None` where there is no such folder.
pub fn character_folder(shared_conf: bool, image_folders: &Vec<String>, conf_name: Option<String>) -> (folder: Option<String>)
    ensures
        shared_conf ==> match folder {
            Some(f) => first_in_order(image_folders@, f@),
            None => image_folders@.len() == 0,
        },
        !shared_conf ==> folder == conf_name,
{
    if !shared_conf {
        return conf_name;
    }
    if image_folders.len() == 0 {
        return None;
    }
    let mut best: usize = 0;
    let mut i: usize = 1;
    proof { lemma_text_before_irreflexive(image_folders@[0]@); }
    while i < image_folders.len()
        invariant
            1 <= i <= image_folders@.len(),
            best < i,
            forall|j: int| 0 <= j < i ==> !text_before((#[trigger] image_folders@[j])@, image_folders@[best as int]@),
        decreases image_folders@.len() - i,
    {
        if text_is_before(image_folders[i].as_str(), image_folders[best].as_str()) {
            proof {
                let new_best = image_folders@[i as int]@;
                lemma_text_before_irreflexive(new_best);
                assert forall|j: int| 0 <= j < i + 1 implies !text_before((#[trigger] image_folders@[j])@, new_best) by {
                    if j < i && text_before(image_folders@[j]@, new_best) {
                        lemma_text_before_transitive(image_folders@[j]@, new_best, image_folders@[best as int]@);
                    }
                }
            }
            best = i;
        }
        i = i + 1;
    }
    let folder = image_folders[best].clone();
    assert(image_folders@[best as int]@ == folder@);
    Some(folder)
}

} // verus!

//! The sprite files that a shimeji-ee mascot's poses show, each numbered once, in the
//! order they are first used.

use super::mapping::last_named;
use super::xml::{RawAnimationBlock, RawPose};
use crate::format::animation::Frame;
use crate::format::sprites::string_from_chars;
use crate::state_machine::text_equals;
use vstd::prelude::*;

verus! {

/// A sprite file of the mascot and the number its frames show it by.
#[derive(Debug, Clone)]
pub struct SpriteFile {
    pub source: String,
    pub index: u32,
}

pub open spec fn is_path_separator(c: char) -> bool {
    c == '/' || c == '\\'
}

pub open spec fn is_drive_letter(c: char) -> bool {
    ('a' <= c && c <= 'z') || ('A' <= c && c <= 'Z')
}

/// `p` opens with a drive (`C:`).
pub open spec fn has_drive(p: Seq<char>) -> bool {
    p.len() >= 2 && is_drive_letter(p[0]) && p[1] == ':'
}

/// The text `std::path::Path::join` gives on Unix, where only `/` separates: a rooted
/// `relative` replaces `dir`; otherwise `/` goes between them unless `dir` is empty or
/// already ends in `/`.
pub open spec fn unix_join(dir: Seq<char>, relative: Seq<char>) -> Seq<char> {
    if relative.len() > 0 && relative[0] == '/' {
        relative
    } else if dir.len() > 0 && dir.last() != '/' {
        dir + seq!['/'] + relative
    } else {
        dir + relative
    }
}

/// The text `std::path::Path::join` gives on Windows, where `/` and `\` both separate,
/// for paths that do not open with two separators: a `relative` with a drive replaces
/// `dir`; a rooted `relative` keeps only `dir`'s drive, if it has one; otherwise `\` goes
/// between them unless `dir` is empty, is a bare drive or already ends in a separator.
pub open spec fn windows_join(dir: Seq<char>, relative: Seq<char>) -> Seq<char> {
    if has_drive(relative) {
        relative
    } else if relative.len() > 0 && is_path_separator(relative[0]) {
        (if has_drive(dir) { dir.subrange(0, 2) } else { Seq::empty() }) + relative
    } else if dir.len() > 0 && !is_path_separator(dir.last()) && !(dir.len() == 2 && has_drive(dir)) {
        dir + seq!['\\'] + relative
    } else {
        dir + relative
    }
}

/// Neither path opens with two separators (a UNC, device or verbatim prefix on Windows).
pub open spec fn windows_join_modeled(dir: Seq<char>, relative: Seq<char>) -> bool {
    &&& !(dir.len() >= 2 && is_path_separator(dir[0]) && is_path_separator(dir[1]))
    &&& !(relative.len() >= 2 && is_path_separator(relative[0]) && is_path_separator(relative[1]))
}

/// `joined` is what `std::path::Path::join` gives for `dir` and `relative` on Unix or on
/// Windows (see `unix_join` and `windows_join`), wherever the Windows rule is modelled.
pub open spec fn joined_as_std(dir: Seq<char>, relative: Seq<char>, joined: Seq<char>) -> bool {
    windows_join_modeled(dir, relative) ==> (joined == unix_join(dir, relative) || joined == windows_join(dir, relative))
}

/// Joins `relative` onto the directory `dir` with `std::path::Path::join` (which pushes
/// `relative` onto a copy of `dir`), as text. The result is the Unix join or the Windows
/// join of the two (see `joined_as_std`); the text is valid UTF-8 and survives the
/// conversion unchanged. Nothing is stated where either path opens with two separators:
/// on Windows that is a UNC, device or verbatim prefix, which the join treats apart.
#[verifier::external_body]
fn join_path(dir: &str, relative: &str) -> (joined: String)
    ensures
        joined_as_std(dir@, relative@, joined@),
{
    std::path::Path::new(dir).join(relative).to_string_lossy().into_owned()
}

/// Where `s` continues after the run of `/` that starts at `k`.
pub open spec fn after_slashes(s: Seq<char>, k: int) -> int
    decreases s.len() - k,
{
    if 0 <= k < s.len() && s[k] == '/' {
        after_slashes(s, k + 1)
    } else {
        k
    }
}

/// `s` without its leading `/` characters (what `str::trim_start_matches('/')` leaves).
pub open spec fn without_leading_slashes(s: Seq<char>) -> Seq<char> {
    s.subrange(after_slashes(s, 0), s.len() as int)
}

/// `s` without its leading `/` characters.
fn strip_leading_slashes(s: &str) -> (stripped: String)
    ensures
        stripped@ == without_leading_slashes(s@),
{
    let n = s.unicode_len();
    let mut start: usize = 0;
    while start < n && s.get_char(start) == '/'
        invariant
            n == s@.len(),
            start <= n,
            after_slashes(s@, 0) == after_slashes(s@, start as int),
        decreases n - start,
    {
        start = start + 1;
    }
    let mut chars: Vec<char> = Vec::new();
    let mut i = start;
    while i < n
        invariant
            n == s@.len(),
            start <= i <= n,
            chars@ == s@.subrange(start as int, i as int),
        decreases n - i,
    {
        chars.push(s.get_char(i));
        assert(chars@ =~= s@.subrange(start as int, i + 1));
        i = i + 1;
    }
    string_from_chars(&chars)
}

/// The sprites are numbered by their positions, and the table names each of them once:
/// its `k`-th entry is sprite `k`'s image, and no image is named twice.
pub open spec fn sprite_table_wf(table: Seq<(String, u32)>, sprites: Seq<SpriteFile>) -> bool {
    &&& table.len() == sprites.len()
    &&& forall|k: int| 0 <= k < sprites.len() ==> (#[trigger] sprites[k]).index == k
    &&& forall|k: int| 0 <= k < table.len() ==> (#[trigger] table[k]).1 == k
    &&& forall|j: int, k: int| 0 <= j < k < table.len() ==> (#[trigger] table[j]).0@ != (#[trigger] table[k]).0@
}

/// Every sprite's file is its image (leading `/` dropped) joined under `img_dir` (see
/// `joined_as_std`).
pub open spec fn sources_under(img_dir: Seq<char>, table: Seq<(String, u32)>, sprites: Seq<SpriteFile>) -> bool {
    forall|k: int|
        0 <= k < table.len() && 0 <= k < sprites.len() ==> joined_as_std(
            img_dir,
            without_leading_slashes((#[trigger] table[k]).0@),
            sprites[k].source@,
        )
}

/// `index` is the number of `image` after interning it, taking the table and sprites from
/// `table0`/`sprites0` to `table1`/`sprites1`: an image already named keeps its number and
/// changes nothing; a new one becomes the next sprite and is added to the table.
pub open spec fn interned(
    table0: Seq<(String, u32)>,
    sprites0: Seq<SpriteFile>,
    table1: Seq<(String, u32)>,
    sprites1: Seq<SpriteFile>,
    image: Seq<char>,
    index: u32,
) -> bool {
    match last_named(table0, image) {
        Some(k) => index == k && table1 == table0 && sprites1 == sprites0,
        None => {
            &&& index == sprites0.len()
            &&& sprites1.len() == sprites0.len() + 1
            &&& sprites1.drop_last() == sprites0
            &&& sprites1.last().index == index
            &&& table1.len() == table0.len() + 1
            &&& table1.drop_last() == table0
            &&& table1.last().0@ == image
            &&& table1.last().1 == index
        },
    }
}

pub(crate) proof fn lemma_last_named_of_distinct(table: Seq<(String, u32)>, sprites: Seq<SpriteFile>, image: Seq<char>)
    requires
        sprite_table_wf(table, sprites),
    ensures
        last_named(table, image) matches Some(k) ==> 0 <= k < table.len() && table[k].0@ == image && table[k].1 == k,
        last_named(table, image) is None ==> forall|k: int| 0 <= k < table.len() ==> (#[trigger] table[k]).0@ != image,
    decreases table.len(),
{
    if table.len() > 0 && table.last().0@ != image {
        let shorter = table.drop_last();
        assert(sprite_table_wf(shorter, sprites.drop_last())) by {
            assert forall|j: int, k: int| 0 <= j < k < shorter.len() implies (#[trigger] shorter[j]).0@ != (#[trigger] shorter[k]).0@ by {
                assert(shorter[j] == table[j] && shorter[k] == table[k]);
            }
            assert forall|k: int| 0 <= k < shorter.len() implies (#[trigger] shorter[k]).1 == k by {
                assert(shorter[k] == table[k]);
            }
            assert forall|k: int| 0 <= k < sprites.drop_last().len() implies (#[trigger] sprites.drop_last()[k]).index == k by {
                assert(sprites.drop_last()[k] == sprites[k]);
            }
        }
        lemma_last_named_of_distinct(shorter, sprites.drop_last(), image);
        if last_named(table, image) is None {
            assert forall|k: int| 0 <= k < table.len() implies (#[trigger] table[k]).0@ != image by {
                if k < table.len() - 1 {
                    assert(table[k] == shorter[k]);
                }
            }
        }
    }
}

/// The number of the sprite showing `image`: the one it already has, or else the next
/// number, with the file under `img_dir` (leading `/` dropped from `image`, joined as
/// `join_path` states) added as that sprite. Each image is numbered once, however many poses show it.
pub fn intern_sprite(
    image: &str,
    img_dir: &str,
    sprite_index: &mut Vec<(String, u32)>,
    sprites: &mut Vec<SpriteFile>,
) -> (index: u32)
    requires
        sprite_table_wf(old(sprite_index)@, old(sprites)@),
        sources_under(img_dir@, old(sprite_index)@, old(sprites)@),
        old(sprites)@.len() < u32::MAX,
    ensures
        sprite_table_wf(final(sprite_index)@, final(sprites)@),
        sources_under(img_dir@, final(sprite_index)@, final(sprites)@),
        interned(old(sprite_index)@, old(sprites)@, final(sprite_index)@, final(sprites)@, image@, index),
        last_named(old(sprite_index)@, image@) is None ==> joined_as_std(
            img_dir@,
            without_leading_slashes(image@),
            final(sprites)@.last().source@,
        ),
{
    proof { lemma_last_named_of_distinct(sprite_index@, sprites@, image@); }
    let mut k: usize = 0;
    while k < sprite_index.len()
        invariant
            sprite_index@ == old(sprite_index)@,
            sprites@ == old(sprites)@,
            sprite_table_wf(sprite_index@, sprites@),
            sources_under(img_dir@, sprite_index@, sprites@),
            last_named(sprite_index@, image@) matches Some(j) ==> 0 <= j < sprite_index@.len()
                && sprite_index@[j].0@ == image@ && sprite_index@[j].1 == j,
            last_named(sprite_index@, image@) is None ==> forall|j: int|
                0 <= j < sprite_index@.len() ==> (#[trigger] sprite_index@[j]).0@ != image@,
            k <= sprite_index@.len(),
            forall|j: int| 0 <= j < k ==> (#[trigger] sprite_index@[j]).0@ != image@,
        decreases sprite_index@.len() - k,
    {
        if text_equals(sprite_index[k].0.as_str(), image) {
            proof {
                let j = last_named(sprite_index@, image@)->0;
                if j != k {
                    if j < k {
                        assert(sprite_index@[j].0@ != sprite_index@[k as int].0@);
                    } else {
                        assert(sprite_index@[k as int].0@ != sprite_index@[j].0@);
                    }
                }
            }
            return sprite_index[k].1;
        }
        k = k + 1;
    }
    let index = sprites.len() as u32;
    let stripped = strip_leading_slashes(image);
    let source = join_path(img_dir, stripped.as_str());
    sprites.push(SpriteFile { source, index });
    sprite_index.push((String::from_str(image), index));
    proof {
        let t = sprite_index@;
        assert forall|k: int|
            0 <= k < t.len() && 0 <= k < sprites@.len() implies joined_as_std(
                img_dir@,
                without_leading_slashes((#[trigger] t[k]).0@),
                sprites@[k].source@,
            ) by {
            if k < t.len() - 1 {
                assert(t[k] == old(sprite_index)@[k] && sprites@[k] == old(sprites)@[k]);
            }
        }
        assert(t.drop_last() =~= old(sprite_index)@);
        assert(sprites@.drop_last() =~= old(sprites)@);
        assert forall|j: int, m: int| 0 <= j < m < t.len() implies (#[trigger] t[j]).0@ != (#[trigger] t[m]).0@ by {
            if m < t.len() - 1 {
                assert(t[j] == old(sprite_index)@[j] && t[m] == old(sprite_index)@[m]);
            } else {
                assert(t[j] == old(sprite_index)@[j]);
            }
        }
        assert forall|m: int| 0 <= m < t.len() implies (#[trigger] t[m]).1 == m by {
            if m < t.len() - 1 {
                assert(t[m] == old(sprite_index)@[m]);
            }
        }
        assert forall|m: int| 0 <= m < sprites@.len() implies (#[trigger] sprites@[m]).index == m by {
            if m < sprites@.len() - 1 {
                assert(sprites@[m] == old(sprites)@[m]);
            }
        }
    }
    index
}

/// The frame a literal pose becomes: its sprite interned, its velocity as the movement,
/// and its duration, at least one tick.
pub fn literal_frame(
    pose: &RawPose,
    img_dir: &str,
    sprite_index: &mut Vec<(String, u32)>,
    sprites: &mut Vec<SpriteFile>,
) -> (frame: Frame)
    requires
        sprite_table_wf(old(sprite_index)@, old(sprites)@),
        sources_under(img_dir@, old(sprite_index)@, old(sprites)@),
        old(sprites)@.len() < u32::MAX,
    ensures
        sprite_table_wf(final(sprite_index)@, final(sprites)@),
        sources_under(img_dir@, final(sprite_index)@, final(sprites)@),
        interned(old(sprite_index)@, old(sprites)@, final(sprite_index)@, final(sprites)@, pose.image@, frame.sprite),
        frame.dx == pose.velocity.0,
        frame.dy == pose.velocity.1,
        frame.duration_ticks == if pose.duration >= 1 { pose.duration } else { 1 },
{
    let sprite = intern_sprite(pose.image.as_str(), img_dir, sprite_index, sprites);
    let duration_ticks = if pose.duration >= 1 { pose.duration } else { 1 };
    Frame { sprite, dx: pose.velocity.0, dy: pose.velocity.1, duration_ticks }
}

/// The sprite of a block's first pose, interned; 0, with nothing interned, for a block
/// without poses.
pub fn first_sprite(
    block: &RawAnimationBlock,
    img_dir: &str,
    sprite_index: &mut Vec<(String, u32)>,
    sprites: &mut Vec<SpriteFile>,
) -> (sprite: u32)
    requires
        sprite_table_wf(old(sprite_index)@, old(sprites)@),
        sources_under(img_dir@, old(sprite_index)@, old(sprites)@),
        old(sprites)@.len() < u32::MAX,
    ensures
        sprite_table_wf(final(sprite_index)@, final(sprites)@),
        sources_under(img_dir@, final(sprite_index)@, final(sprites)@),
        block.poses@.len() == 0 ==> sprite == 0 && final(sprite_index)@ == old(sprite_index)@
            && final(sprites)@ == old(sprites)@,
        block.poses@.len() > 0 ==> interned(
            old(sprite_index)@,
            old(sprites)@,
            final(sprite_index)@,
            final(sprites)@,
            block.poses@[0].image@,
            sprite,
        ),
{
    if block.poses.len() == 0 {
        0
    } else {
        intern_sprite(block.poses[0].image.as_str(), img_dir, sprite_index, sprites)
    }
}

/// Interning an image a second time gives the number it got the first time and changes
/// nothing: every image of a mascot is one sprite, and every sprite one number.
pub proof fn lemma_interning_twice_is_interning_once(
    table0: Seq<(String, u32)>,
    sprites0: Seq<SpriteFile>,
    table1: Seq<(String, u32)>,
    sprites1: Seq<SpriteFile>,
    table2: Seq<(String, u32)>,
    sprites2: Seq<SpriteFile>,
    image: Seq<char>,
    first: u32,
    second: u32,
)
    requires
        sprite_table_wf(table0, sprites0),
        interned(table0, sprites0, table1, sprites1, image, first),
        interned(table1, sprites1, table2, sprites2, image, second),
    ensures
        second == first,
        table2 == table1,
        sprites2 == sprites1,
{
    lemma_last_named_of_distinct(table0, sprites0, image);
    if last_named(table0, image) is None {
        assert(table1.last().0@ == image);
        assert(last_named(table1, image) == Some(table1.len() - 1));
    }
}

} // verus!

//! The extension of a Windows path, read from its text.
//!
//! Both `/` and `\` separate components. A leading drive (`C:`) or a leading
//! `\\server\share` is a prefix and names no file. Of the rest, empty and `.`
//! components at the end are passed over, and `..` names no file. The extension is
//! what follows the last `.` of the final name, unless that name has no `.` or its
//! only `.` opens it (`.zip` has no extension; `a.` has the empty one). A verbatim
//! prefix (`\\?\`) is read like `\\server\share`, with `?` as its server.

use vstd::prelude::*;

verus! {

pub open spec fn is_separator(c: char) -> bool {
    c == '/' || c == '\\'
}

pub open spec fn is_ascii_letter(c: char) -> bool {
    ('a' <= c && c <= 'z') || ('A' <= c && c <= 'Z')
}

/// The index at which the component that starts at `i` ends: the next separator, or
/// the end of `p`.
pub open spec fn component_end(p: Seq<char>, i: int) -> int
    decreases p.len() - i,
{
    if i >= p.len() || i < 0 || is_separator(p[i]) {
        i
    } else {
        component_end(p, i + 1)
    }
}

/// How many characters at the start of `p` form its prefix.
pub open spec fn prefix_len(p: Seq<char>) -> int {
    if p.len() >= 2 && is_separator(p[0]) && is_separator(p[1]) {
        let server_end = component_end(p, 2);
        if server_end > 2 && server_end < p.len() {
            let share_end = component_end(p, server_end + 1);
            if share_end > server_end + 1 { share_end } else { 0 }
        } else {
            0
        }
    } else if p.len() >= 2 && is_ascii_letter(p[0]) && p[1] == ':' {
        2
    } else {
        0
    }
}

/// The index at which the component that ends at `j` starts: just after the previous
/// separator, or 0.
pub open spec fn component_start(r: Seq<char>, j: int) -> int
    decreases j,
{
    if j <= 0 {
        0
    } else if is_separator(r[j - 1]) {
        j
    } else {
        component_start(r, j - 1)
    }
}

/// The final name of a path without its prefix, if it has one.
pub open spec fn final_name(r: Seq<char>) -> Option<Seq<char>>
    decreases r.len(),
{
    if r.len() == 0 {
        None
    } else if is_separator(r.last()) {
        final_name(r.drop_last())
    } else {
        let start = component_start(r, r.len() as int);
        if 0 <= start < r.len() {
            let name = r.subrange(start, r.len() as int);
            if name =~= seq!['.'] {
                final_name(r.subrange(0, start))
            } else if name =~= seq!['.', '.'] {
                None
            } else {
                Some(name)
            }
        } else {
            None
        }
    }
}

/// The index of the last `.` among the first `j` characters of `name`, or -1.
pub open spec fn last_dot(name: Seq<char>, j: int) -> int
    decreases j,
{
    if j <= 0 {
        -1
    } else if name[j - 1] == '.' {
        j - 1
    } else {
        last_dot(name, j - 1)
    }
}

/// The extension of a final name.
pub open spec fn name_extension(name: Seq<char>) -> Option<Seq<char>> {
    let dot = last_dot(name, name.len() as int);
    if dot <= 0 {
        None
    } else {
        Some(name.subrange(dot + 1, name.len() as int))
    }
}

/// The extension of the Windows path `p`.
pub open spec fn path_extension(p: Seq<char>) -> Option<Seq<char>> {
    match final_name(p.subrange(prefix_len(p), p.len() as int)) {
        Some(name) => name_extension(name),
        None => None,
    }
}

proof fn lemma_component_start_bounds(r: Seq<char>, j: int)
    requires
        0 <= j <= r.len(),
    ensures
        0 <= component_start(r, j) <= j,
        forall|k: int| component_start(r, j) <= k < j ==> !is_separator(#[trigger] r[k]),
        component_start(r, j) > 0 ==> is_separator(r[component_start(r, j) - 1]),
    decreases j,
{
    if j > 0 && !is_separator(r[j - 1]) {
        lemma_component_start_bounds(r, j - 1);
    }
}

proof fn lemma_last_dot_bounds(name: Seq<char>, j: int)
    requires
        0 <= j <= name.len(),
    ensures
        -1 <= last_dot(name, j) < j,
        last_dot(name, j) >= 0 ==> name[last_dot(name, j)] == '.',
        forall|k: int| last_dot(name, j) < k < j ==> #[trigger] name[k] != '.',
    decreases j,
{
    if j > 0 && name[j - 1] != '.' {
        lemma_last_dot_bounds(name, j - 1);
    }
}

fn is_sep(c: char) -> (b: bool)
    ensures
        b == is_separator(c),
{
    c == '/' || c == '\\'
}

/// The end of the component of `p` that starts at `i`.
fn find_component_end(p: &str, n: usize, i: usize) -> (e: usize)
    requires
        n == p@.len(),
        i <= n,
    ensures
        e == component_end(p@, i as int),
        i <= e <= n,
{
    let mut k: usize = i;
    while k < n && !is_sep(p.get_char(k))
        invariant
            n == p@.len(),
            i <= k <= n,
            component_end(p@, i as int) == component_end(p@, k as int),
        decreases n - k,
    {
        k = k + 1;
    }
    k
}

/// The length of the prefix of `p`.
fn find_prefix_len(p: &str, n: usize) -> (l: usize)
    requires
        n == p@.len(),
    ensures
        l == prefix_len(p@),
        l <= n,
{
    if n >= 2 && is_sep(p.get_char(0)) && is_sep(p.get_char(1)) {
        let server_end = find_component_end(p, n, 2);
        if server_end > 2 && server_end < n {
            let share_end = find_component_end(p, n, server_end + 1);
            if share_end > server_end + 1 {
                share_end
            } else {
                0
            }
        } else {
            0
        }
    } else if n >= 2 {
        let c = p.get_char(0);
        if (('a' <= c && c <= 'z') || ('A' <= c && c <= 'Z')) && p.get_char(1) == ':' {
            2
        } else {
            0
        }
    } else {
        0
    }
}

/// Where the final name of `p` stands, as a start and an end index, if it has one.
fn find_final_name(p: &str, n: usize) -> (span: Option<(usize, usize)>)
    requires
        n == p@.len(),
    ensures
        match span {
            Some((s, e)) => s <= e <= n && final_name(p@.subrange(prefix_len(p@), n as int))
                == Some(p@.subrange(s as int, e as int)),
            None => final_name(p@.subrange(prefix_len(p@), n as int)) is None,
        },
{
    let pre = find_prefix_len(p, n);
    let ghost whole = p@.subrange(pre as int, n as int);
    let mut end: usize = n;
    loop
        invariant
            n == p@.len(),
            pre == prefix_len(p@),
            pre <= end <= n,
            whole == p@.subrange(pre as int, n as int),
            final_name(whole) == final_name(p@.subrange(pre as int, end as int)),
        decreases end,
    {
        let ghost r = p@.subrange(pre as int, end as int);
        if end == pre {
            assert(r.len() == 0);
            return None;
        }
        let last = p.get_char(end - 1);
        if is_sep(last) {
            assert(r.drop_last() =~= p@.subrange(pre as int, end - 1));
            end = end - 1;
        } else {
            let mut start: usize = end;
            while start > pre && !is_sep(p.get_char(start - 1))
                invariant
                    n == p@.len(),
                    pre <= start <= end <= n,
                    r == p@.subrange(pre as int, end as int),
                    component_start(r, r.len() as int) == component_start(r, start - pre),
                decreases start,
            {
                assert(r[start - pre - 1] == p@[start - 1]);
                start = start - 1;
            }
            proof {
                if start > pre {
                    assert(r[start - pre - 1] == p@[start - 1]);
                }
                assert(component_start(r, r.len() as int) == start - pre);
                lemma_component_start_bounds(r, r.len() as int);
            }
            let ghost name = r.subrange(start - pre, r.len() as int);
            assert(name =~= p@.subrange(start as int, end as int));
            if end - start == 1 && p.get_char(start) == '.' {
                assert(name =~= seq!['.']);
                assert(r.subrange(0, start - pre) =~= p@.subrange(pre as int, start as int));
                end = start;
            } else if end - start == 2 && p.get_char(start) == '.' && p.get_char(start + 1) == '.' {
                assert(name =~= seq!['.', '.']);
                return None;
            } else {
                proof {
                    if end - start == 1 {
                        assert(name[0] == p@[start as int]);
                    }
                    if end - start == 2 {
                        assert(name[0] == p@[start as int] && name[1] == p@[start + 1]);
                    }
                }
                assert(!(name =~= seq!['.']));
                assert(!(name =~= seq!['.', '.']));
                return Some((start, end));
            }
        }
    }
}

/// The extension of `p`, as a start and an end index, if it has one.
pub fn extension_span(p: &str) -> (span: Option<(usize, usize)>)
    ensures
        match span {
            Some((s, e)) => s <= e <= p@.len() && path_extension(p@) == Some(
                p@.subrange(s as int, e as int),
            ),
            None => path_extension(p@) is None,
        },
{
    let n = p.unicode_len();
    match find_final_name(p, n) {
        None => None,
        Some((s, e)) => {
            let ghost name = p@.subrange(s as int, e as int);
            let mut j: usize = e;
            while j > s && p.get_char(j - 1) != '.'
                invariant
                    n == p@.len(),
                    s <= j <= e <= n,
                    name == p@.subrange(s as int, e as int),
                    last_dot(name, name.len() as int) == last_dot(name, j - s),
                decreases j,
            {
                assert(name[j - s - 1] == p@[j - 1]);
                j = j - 1;
            }
            proof {
                if j > s {
                    assert(name[j - s - 1] == p@[j - 1]);
                }
                lemma_last_dot_bounds(name, name.len() as int);
            }
            if j - s <= 1 {
                None
            } else {
                assert(name.subrange(j - s, name.len() as int) =~= p@.subrange(j as int, e as int));
                Some((j, e))
            }
        },
    }
}

} // verus!

//! The parts of a logical path: its final segment, and the stem and the
//! extension of that segment. Segments are separated by `/`; separators
//! and `.` segments at the end of a path do not count.

use crate::text::{chars_of, string_of};
use vstd::prelude::*;

verus! {

/// Where the final segment of `path` starts: just after its last
/// separator.
pub open spec fn file_name_start(path: Seq<char>) -> int
    decreases path.len(),
{
    if path.len() == 0 || path.last() == '/' {
        path.len() as int
    } else {
        file_name_start(path.drop_last())
    }
}

/// The position of the last `.` in `name`, or -1 if it holds none.
pub open spec fn last_dot(name: Seq<char>) -> int
    decreases name.len(),
{
    if name.len() == 0 {
        -1
    } else if name.last() == '.' {
        name.len() - 1
    } else {
        last_dot(name.drop_last())
    }
}

/// Where the path ends once the separators and the `.` segments at its
/// end are left off.
pub open spec fn name_end(path: Seq<char>) -> int
    decreases path.len(),
{
    if path.len() == 0 {
        0
    } else if path.last() == '/' {
        name_end(path.drop_last())
    } else if path.last() == '.' && (path.len() == 1 || path[path.len() - 2] == '/') {
        name_end(path.drop_last())
    } else {
        path.len() as int
    }
}

/// The final segment of `path`, not counting separators and `.` segments
/// at its end. There is none if nothing is left or if that segment is
/// `..`.
pub open spec fn file_name(path: Seq<char>) -> Option<Seq<char>> {
    let named = path.take(name_end(path));
    let name = named.skip(file_name_start(named));
    if name.len() == 0 || name == seq!['.', '.'] {
        None
    } else {
        Some(name)
    }
}

/// The file name without its extension: the text before the last `.` of
/// the name, or the whole name if it holds no `.` or only starts with one.
pub open spec fn file_stem(path: Seq<char>) -> Option<Seq<char>> {
    match file_name(path) {
        Some(name) => if last_dot(name) <= 0 {
            Some(name)
        } else {
            Some(name.take(last_dot(name)))
        },
        None => None,
    }
}

/// The extension of the file name: the text after its last `.`. There is
/// none if the name holds no `.` or only starts with one.
pub open spec fn extension(path: Seq<char>) -> Option<Seq<char>> {
    match file_name(path) {
        Some(name) => if last_dot(name) <= 0 {
            None
        } else {
            Some(name.skip(last_dot(name) + 1))
        },
        None => None,
    }
}

proof fn lemma_file_name_start(path: Seq<char>, start: int)
    requires
        0 <= start <= path.len(),
        start == 0 || path[start - 1] == '/',
        forall|k: int| start <= k < path.len() ==> path[k] != '/',
    ensures
        file_name_start(path) == start,
    decreases path.len(),
{
    if path.len() > start {
        lemma_file_name_start(path.drop_last(), start);
    }
}

/// `after` is one past the last dot of `name`, or 0 if `name` holds none.
proof fn lemma_last_dot(name: Seq<char>, after: int)
    requires
        0 <= after <= name.len(),
        after == 0 || name[after - 1] == '.',
        forall|k: int| after <= k < name.len() ==> name[k] != '.',
    ensures
        last_dot(name) == after - 1,
    decreases name.len(),
{
    if name.len() > after {
        lemma_last_dot(name.drop_last(), after);
    }
}

/// The characters of the file name of `path`, if it has one.
fn final_segment(path: &str) -> (name: Option<Vec<char>>)
    ensures
        match name {
            Some(n) => file_name(path@) == Some(n@),
            None => file_name(path@) is None,
        },
{
    let chars = chars_of(path);
    let mut end: usize = chars.len();
    assert(chars@.take(end as int) =~= chars@);
    while end > 0 && (chars[end - 1] == '/' || (chars[end - 1] == '.' && (end == 1 || chars[end
        - 2] == '/')))
        invariant
            end <= chars.len(),
            name_end(chars@) == name_end(chars@.take(end as int)),
        decreases end,
    {
        proof {
            let now = chars@.take(end as int);
            assert(now.drop_last() =~= chars@.take(end - 1));
            assert(now.last() == chars@[end - 1]);
            if end >= 2 {
                assert(now[now.len() - 2] == chars@[end - 2]);
            }
        }
        end -= 1;
    }
    let ghost named = chars@.take(end as int);
    proof {
        if end > 0 {
            assert(named.last() == chars@[end - 1]);
            if end >= 2 {
                assert(named[named.len() - 2] == chars@[end - 2]);
            }
        }
        assert(name_end(named) == end);
    }
    let mut start: usize = end;
    while start > 0 && chars[start - 1] != '/'
        invariant
            start <= end <= chars.len(),
            forall|k: int| start <= k < end ==> chars[k] != '/',
        decreases start,
    {
        start -= 1;
    }
    proof {
        lemma_file_name_start(named, start as int);
    }
    let mut name: Vec<char> = Vec::new();
    let mut i = start;
    while i < end
        invariant
            start <= i <= end <= chars.len(),
            name@ == chars@.subrange(start as int, i as int),
        decreases end - i,
    {
        name.push(chars[i]);
        i += 1;
    }
    assert(name@ =~= named.skip(start as int));
    let dotdot = name.len() == 2 && name[0] == '.' && name[1] == '.';
    proof {
        if dotdot {
            assert(name@ =~= seq!['.', '.']);
        }
    }
    if name.len() == 0 || dotdot {
        None
    } else {
        Some(name)
    }
}

/// One past the last dot of `name`, or 0 if it holds none.
fn after_last_dot(name: &Vec<char>) -> (after: usize)
    ensures
        after == last_dot(name@) + 1,
        after <= name.len(),
{
    let mut dot: usize = name.len();
    while dot > 0 && name[dot - 1] != '.'
        invariant
            dot <= name.len(),
            forall|k: int| dot <= k < name.len() ==> name[k] != '.',
        decreases dot,
    {
        dot -= 1;
    }
    proof {
        lemma_last_dot(name@, dot as int);
    }
    dot
}

fn copy_range(chars: &Vec<char>, from: usize, to: usize) -> (part: String)
    requires
        from <= to <= chars.len(),
    ensures
        part@ == chars@.subrange(from as int, to as int),
{
    let mut part: Vec<char> = Vec::new();
    let mut i = from;
    while i < to
        invariant
            from <= i <= to <= chars.len(),
            part@ == chars@.subrange(from as int, i as int),
        decreases to - i,
    {
        part.push(chars[i]);
        i += 1;
    }
    string_of(&part)
}

/// The file name of `path`.
pub fn file_name_of(path: &str) -> (name: Option<String>)
    ensures
        match name {
            Some(n) => file_name(path@) == Some(n@),
            None => file_name(path@) is None,
        },
{
    match final_segment(path) {
        Some(name) => Some(string_of(&name)),
        None => None,
    }
}

/// The stem of the file name of `path`.
pub fn file_stem_of(path: &str) -> (stem: Option<String>)
    ensures
        match stem {
            Some(s) => file_stem(path@) == Some(s@),
            None => file_stem(path@) is None,
        },
{
    match final_segment(path) {
        Some(name) => {
            let after = after_last_dot(&name);
            let end = if after <= 1 {
                name.len()
            } else {
                after - 1
            };
            let stem = copy_range(&name, 0, end);
            proof {
                if after <= 1 {
                    assert(stem@ =~= name@);
                } else {
                    assert(stem@ =~= name@.take(last_dot(name@)));
                }
            }
            Some(stem)
        },
        None => None,
    }
}

/// The extension of the file name of `path`.
pub fn extension_of(path: &str) -> (ext: Option<String>)
    ensures
        match ext {
            Some(e) => extension(path@) == Some(e@),
            None => extension(path@) is None,
        },
{
    match final_segment(path) {
        Some(name) => {
            let after = after_last_dot(&name);
            if after <= 1 {
                None
            } else {
                let ext = copy_range(&name, after, name.len());
                assert(ext@ =~= name@.skip(last_dot(name@) + 1));
                Some(ext)
            }
        },
        None => None,
    }
}

} // verus!

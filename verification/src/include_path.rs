//! Resolution of the path named by an include directive.
//!
//! Paths are logical: segments separated by `/`, independent of the
//! platform and of the working directory of the process.

use vstd::prelude::*;

verus! {

/// `s` without the separators at its end.
pub open spec fn trim_separators(s: Seq<char>) -> Seq<char>
    decreases s.len(),
{
    if s.len() > 0 && s.last() == '/' {
        trim_separators(s.drop_last())
    } else {
        s
    }
}

/// Where the last segment of `s` starts: just after the last separator, or
/// at 0 if `s` holds none.
pub open spec fn last_segment_start(s: Seq<char>) -> int
    decreases s.len(),
{
    if s.len() == 0 || s.last() == '/' {
        s.len() as int
    } else {
        last_segment_start(s.drop_last())
    }
}

/// The path without its final segment. Separators at the end are ignored,
/// and so are final segments that are `.`; what remains ends in no
/// separator.
pub open spec fn parent_of(path: Seq<char>) -> Seq<char>
    decreases path.len(),
{
    let trimmed = trim_separators(path);
    let cut = last_segment_start(trimmed);
    let segment = trimmed.subrange(cut, trimmed.len() as int);
    let rest = trim_separators(trimmed.take(cut));
    if segment == seq!['.'] && rest.len() < path.len() {
        parent_of(rest)
    } else {
        rest
    }
}

/// `path` adjoined to `base`: one separator is put between them unless
/// `base` is empty or ends in one, and one separator at the start of `path`
/// is dropped.
pub open spec fn joined_path(base: Seq<char>, path: Seq<char>) -> Seq<char> {
    let tail = if path.len() > 0 && path[0] == '/' {
        path.drop_first()
    } else {
        path
    };
    let head = if base.len() > 0 && base.last() != '/' {
        base.push('/')
    } else {
        base
    };
    head + tail
}

/// The path that an include directive naming `path` refers to when it
/// stands in the file `parent_file`. A path that begins with a separator is
/// rooted and taken as it is; any other is relative to the directory of the
/// including file.
pub open spec fn resolved_include(path: Seq<char>, parent_file: Seq<char>) -> Seq<char> {
    if path.len() > 0 && path[0] == '/' {
        path
    } else {
        joined_path(parent_of(parent_file), path)
    }
}

/// The segments of `path`: what stands between its separators, in order,
/// without the empty stretches.
pub open spec fn segments(path: Seq<char>) -> Seq<Seq<char>>
    decreases path.len(),
{
    if path.len() == 0 {
        Seq::empty()
    } else {
        let start = last_segment_start(path);
        let last = path.skip(start);
        let before = if 0 < start <= path.len() {
            segments(path.take(start - 1))
        } else {
            Seq::empty()
        };
        if last.len() == 0 {
            before
        } else {
            before.push(last)
        }
    }
}

/// The segments that are left once the `.` segments are dropped and every
/// `..` has taken out the named segment before it. A `..` with no named
/// segment before it stays.
pub open spec fn normal_segments(parts: Seq<Seq<char>>) -> Seq<Seq<char>>
    decreases parts.len(),
{
    if parts.len() == 0 {
        Seq::empty()
    } else {
        let before = normal_segments(parts.drop_last());
        let part = parts.last();
        if part == seq!['.'] {
            before
        } else if part == seq!['.', '.'] {
            if before.len() == 0 || before.last() == seq!['.', '.'] {
                before.push(part)
            } else {
                before.drop_last()
            }
        } else {
            before.push(part)
        }
    }
}

/// The path made of `parts`, with one separator between neighbours.
pub open spec fn path_of_segments(parts: Seq<Seq<char>>) -> Seq<char>
    decreases parts.len(),
{
    if parts.len() == 0 {
        Seq::empty()
    } else if parts.len() == 1 {
        parts[0]
    } else {
        path_of_segments(parts.drop_last()) + seq!['/'] + parts.last()
    }
}

/// The normal form of a relative path: without `.` segments, without
/// separators at its ends or in a row, and with every `..` that follows a
/// named segment taken out together with that segment.
pub open spec fn normalized(path: Seq<char>) -> Seq<char> {
    path_of_segments(normal_segments(segments(path)))
}

/// The path by which a file is known: its normal form, rooted if the path
/// is. Two ways of writing one logical path have one canonical path.
pub open spec fn canonical_path(path: Seq<char>) -> Seq<char> {
    if path.len() > 0 && path[0] == '/' {
        seq!['/'] + normalized(path)
    } else {
        normalized(path)
    }
}

/// `RelativePath::normalize` walks the segments of the path and builds its
/// normal form: a `.` changes nothing, a `..` pops the last segment of what
/// is built unless that is empty or ends in `..`, where it is pushed, and
/// any other segment is pushed.
#[verifier::external_body]
fn normalize(path: &str) -> (normal: String)
    ensures
        normal@ == normalized(path@),
{
    relative_path::RelativePath::new(path).normalize().into_string()
}

/// `RelativePathBuf::pop` truncates the path to its parent: it drops the
/// final segment, having skipped separators and `.` segments at the end,
/// and leaves an empty path empty.
#[verifier::external_body]
fn parent_directory(file: &str) -> (dir: String)
    ensures
        dir@ == parent_of(file@),
{
    let mut folder = relative_path::RelativePathBuf::from(file);
    folder.pop();
    folder.into_string()
}

/// `RelativePath::join` copies the base and pushes `path` onto it, with a
/// separator in between where the base is not empty and does not end in
/// one; a leading separator of `path` is dropped.
#[verifier::external_body]
fn join_paths(base: &str, path: &str) -> (joined: String)
    ensures
        joined@ == joined_path(base@, path@),
{
    relative_path::RelativePath::new(base).join(path).into_string()
}

/// Resolves the path of an include directive found in `parent_file`.
pub fn resolve_include(path: &str, parent_file: &str) -> (resolved: String)
    ensures
        resolved@ == resolved_include(path@, parent_file@),
{
    if path.unicode_len() > 0 && path.get_char(0) == '/' {
        path.to_owned()
    } else {
        let folder = parent_directory(parent_file);
        join_paths(folder.as_str(), path)
    }
}

/// The canonical path of `path`.
pub fn canonical(path: &str) -> (known: String)
    ensures
        known@ == canonical_path(path@),
{
    let normal = normalize(path);
    if path.unicode_len() > 0 && path.get_char(0) == '/' {
        let mut rooted = String::new();
        rooted.push('/');
        rooted.append(normal.as_str());
        assert(rooted@ =~= seq!['/'] + normal@);
        rooted
    } else {
        normal
    }
}

} // verus!

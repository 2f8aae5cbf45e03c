use vstd::prelude::*;

use crate::config::PathConfig;
use crate::error::ParseScriptError;
use crate::paths::{
    components, join_parts, normalize_path, normalized, render_path, split_components,
    starts_with_path, views, path_is_absolute, parts_start_with,
};

verus! {

/// The components of `file` that follow those of `root`.
pub open spec fn rest_after_root(file: Seq<char>, root: Seq<char>) -> Seq<Seq<char>> {
    components(file).skip(components(root).len() as int)
}

/// Whether `file` lies under `root` with a file name left after it.
pub open spec fn splits(file: Seq<char>, root: Seq<char>) -> bool {
    starts_with_path(file, root) && rest_after_root(file, root).len() > 0
}

/// The subpath between `root` and the file name of `file`, empty when the file lies
/// directly under `root`.
pub open spec fn version_text(file: Seq<char>, root: Seq<char>) -> Seq<char> {
    let rest = rest_after_root(file, root);
    if rest.len() > 1 {
        join_parts(rest.drop_last())
    } else {
        Seq::empty()
    }
}

/// What taking `file` apart against `root` gives.
pub open spec fn parse_path_result(
    file: Seq<char>,
    root: Seq<char>,
    r: Result<PathConfig, ParseScriptError>,
) -> bool {
    let rest = rest_after_root(file, root);
    match r {
        Ok(c) => {
            &&& starts_with_path(file, root)
            &&& rest.len() > 0
            &&& c.folder@ == normalized(root)
            &&& c.file_name@ == rest.last()
            &&& (rest.len() == 1 ==> c.version is None)
            &&& (rest.len() > 1 ==> c.version is Some && c.version->0@ == join_parts(
                rest.drop_last(),
            ))
        },
        Err(ParseScriptError::BadTargetFolder { root: rt, path }) => {
            &&& !starts_with_path(file, root)
            &&& rt@ == normalized(root)
            &&& path@ == normalized(file)
        },
        Err(ParseScriptError::NoFileName { path }) => {
            &&& starts_with_path(file, root)
            &&& rest.len() == 0
            &&& path@ == normalized(file)
        },
    }
}

/// The parts `v[from..to]`, copied.
fn copy_parts(v: &Vec<String>, from: usize, to: usize) -> (r: Vec<String>)
    requires
        from <= to <= v@.len(),
    ensures
        views(r@) == views(v@).subrange(from as int, to as int),
{
    let mut out: Vec<String> = Vec::new();
    let mut i: usize = from;
    while i < to
        invariant
            from <= i <= to <= v@.len(),
            views(out@) == views(v@).subrange(from as int, i as int),
        decreases to - i,
    {
        let ghost before = out@;
        out.push(v[i].clone());
        assert(views(out@) =~= views(before).push(v@[i as int]@));
        assert(views(v@).subrange(from as int, i + 1) =~= views(v@).subrange(
            from as int,
            i as int,
        ).push(v@[i as int]@));
        i += 1;
    }
    out
}

/// Splits a script path into the normalized root, the subpath between the root and the
/// file, and the file name. Both paths are first normalized: `.` and empty pieces are
/// dropped, every other component is kept as it is.
pub fn parse_path(file_path: &str, root: &str) -> (r: Result<PathConfig, ParseScriptError>)
    ensures
        parse_path_result(file_path@, root@, r),
{
    let root_abs = path_is_absolute(root);
    let file_abs = path_is_absolute(file_path);
    let root_parts = split_components(root);
    let file_parts = split_components(file_path);
    let root_text = normalize_path(root);
    if root_abs != file_abs || !parts_start_with(&file_parts, &root_parts) {
        let path = normalize_path(file_path);
        return Err(ParseScriptError::BadTargetFolder { root: root_text, path });
    }
    let ghost rest = rest_after_root(file_path@, root@);
    proof {
        assert(views(file_parts@).subrange(root_parts@.len() as int, file_parts@.len() as int)
            =~= rest);
    }
    if root_parts.len() == file_parts.len() {
        let path = normalize_path(file_path);
        return Err(ParseScriptError::NoFileName { path });
    }
    let last = file_parts.len() - 1;
    let file_name = file_parts[last].clone();
    let version = if last - root_parts.len() == 0 {
        None
    } else {
        let middle = copy_parts(&file_parts, root_parts.len(), last);
        assert(views(middle@) =~= rest.drop_last());
        Some(render_path(false, &middle))
    };
    Ok(PathConfig::new(root_text, version, file_name))
}

} // verus!

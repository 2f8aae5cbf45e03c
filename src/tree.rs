use vstd::prelude::*;
use vstd::string::*;

use crate::paths::{base_name, base_name_of, path_starts_with, starts_with_path, views};
use crate::text::{push_all, same_text, to_owned_string};

verus! {

/// What a tree entry points to.
#[derive(Debug)]
pub enum EntryKind {
    /// A subtree, with its own entries.
    Tree(Tree),
    /// A regular file.
    Blob,
    /// An executable file.
    BlobExecutable,
    /// Anything else: a symbolic link, a submodule.
    Other,
}

/// One named entry of a tree.
#[derive(Debug)]
pub struct Entry {
    pub name: String,
    pub kind: EntryKind,
}

/// A tree of a commit: its entries in the order the tree object stores them.
#[derive(Debug)]
pub struct Tree {
    pub entries: Vec<Entry>,
}

/// The path of an entry named `name` inside the directory `prefix`.
pub open spec fn child_path(prefix: Seq<char>, name: Seq<char>) -> Seq<char> {
    if prefix.len() == 0 {
        name
    } else {
        prefix + seq!['/'] + name
    }
}

/// The position of the last `.` in `s`, or `-1`.
pub open spec fn last_dot(s: Seq<char>) -> int
    decreases s.len(),
{
    if s.len() == 0 {
        -1
    } else if s.last() == '.' {
        s.len() - 1
    } else {
        last_dot(s.drop_last())
    }
}

/// The extension of a path's file name: what follows its last `.`, when that `.` is not
/// the name's first character. `..` has none.
pub open spec fn extension_of(p: Seq<char>) -> Option<Seq<char>> {
    let name = base_name(p);
    let k = last_dot(name);
    if name == seq!['.', '.'] || k <= 0 {
        None
    } else {
        Some(name.skip(k + 1))
    }
}

/// Whether a blob path passes the filters: it lies under `dir` (component by component)
/// and its extension is `ext`. An absent filter lets every path through.
pub open spec fn passes(p: Seq<char>, ext: Option<Seq<char>>, dir: Option<Seq<char>>) -> bool {
    &&& (dir is Some ==> starts_with_path(p, dir->0))
    &&& (ext is Some ==> extension_of(p) == Some(ext->0))
}

/// The paths of the regular and executable blobs reachable from `es`, in depth-first
/// pre-order, that pass the filters. Subtrees are entered whatever the filters say.
pub open spec fn listing(
    es: Seq<Entry>,
    prefix: Seq<char>,
    ext: Option<Seq<char>>,
    dir: Option<Seq<char>>,
) -> Seq<Seq<char>>
    decreases es,
{
    if es.len() == 0 {
        Seq::empty()
    } else {
        let e = es[es.len() - 1];
        let head = listing(es.subrange(0, es.len() - 1), prefix, ext, dir);
        let path = child_path(prefix, e.name@);
        match e.kind {
            EntryKind::Tree(t) => head + listing(t.entries@, path, ext, dir),
            EntryKind::Blob | EntryKind::BlobExecutable => if passes(path, ext, dir) {
                head.push(path)
            } else {
                head
            },
            EntryKind::Other => head,
        }
    }
}

pub open spec fn opt_view(o: Option<&str>) -> Option<Seq<char>> {
    match o {
        Some(s) => Some(s@),
        None => None,
    }
}

/// The extension of the file name of `p`, if it has one.
pub fn extension(p: &str) -> (r: Option<String>)
    ensures
        match r {
            Some(x) => extension_of(p@) == Some(x@),
            None => extension_of(p@) is None,
        },
{
    let name = base_name_of(p);
    let n = name.as_str().unicode_len();
    if n == 2 && name.as_str().get_char(0) == '.' && name.as_str().get_char(1) == '.' {
        assert(name@ =~= seq!['.', '.']);
        return None;
    }
    let mut k: usize = n;
    assert(name@.take(n as int) =~= name@);
    while k > 0 && name.as_str().get_char(k - 1) != '.'
        invariant
            k <= n,
            n == name@.len(),
            last_dot(name@) == last_dot(name@.take(k as int)),
        decreases k,
    {
        assert(name@.take(k as int).drop_last() =~= name@.take(k - 1));
        k -= 1;
    }
    if k > 0 {
        assert(name@.take(k as int).drop_last() =~= name@.take(k - 1));
    } else {
        assert(name@.take(0) =~= Seq::<char>::empty());
    }
    if k <= 1 {
        None
    } else {
        Some(to_owned_string(name.as_str().substring_char(k, n)))
    }
}

/// Whether the blob path `p` passes the extension and directory filters.
pub fn passes_filters(p: &str, ext: Option<&str>, dir: Option<&str>) -> (r: bool)
    ensures
        r == passes(p@, opt_view(ext), opt_view(dir)),
{
    if let Some(d) = dir {
        if !path_starts_with(p, d) {
            return false;
        }
    }
    match ext {
        None => true,
        Some(e) => match extension(p) {
            Some(x) => same_text(x.as_str(), e),
            None => false,
        },
    }
}

fn child_path_of(prefix: &String, name: &String) -> (r: String)
    ensures
        r@ == child_path(prefix@, name@),
{
    if prefix.as_str().unicode_len() == 0 {
        name.clone()
    } else {
        let mut s = prefix.clone();
        s.push('/');
        push_all(&mut s, name.as_str());
        s
    }
}

fn collect(
    tree: &Tree,
    prefix: &String,
    ext: Option<&str>,
    dir: Option<&str>,
    out: &mut Vec<String>,
)
    ensures
        views(final(out)@) == views(old(out)@) + listing(
            tree.entries@,
            prefix@,
            opt_view(ext),
            opt_view(dir),
        ),
    decreases tree,
{
    let n = tree.entries.len();
    let mut i: usize = 0;
    assert(tree.entries@.subrange(0, 0) =~= Seq::<Entry>::empty());
    assert(views(out@) =~= views(old(out)@) + Seq::<Seq<char>>::empty());
    while i < n
        invariant
            n == tree.entries@.len(),
            i <= n,
            views(out@) == views(old(out)@) + listing(
                tree.entries@.subrange(0, i as int),
                prefix@,
                opt_view(ext),
                opt_view(dir),
            ),
        decreases n - i,
    {
        let e = &tree.entries[i];
        let ghost before = views(out@);
        let ghost upto = tree.entries@.subrange(0, i + 1);
        proof {
            assert(upto.subrange(0, i as int) =~= tree.entries@.subrange(0, i as int));
            assert(upto[i as int] == tree.entries@[i as int]);
        }
        let path = child_path_of(prefix, &e.name);
        match &e.kind {
            EntryKind::Tree(sub) => {
                proof {
                    assert(decreases_to!(tree => tree.entries));
                    assert(decreases_to!(tree.entries => tree.entries@));
                    assert(decreases_to!(tree.entries@ => tree.entries@[i as int]));
                }
                collect(sub, &path, ext, dir, out);
                assert(views(out@) =~= views(old(out)@) + listing(upto, prefix@, opt_view(ext), opt_view(dir)));
            },
            EntryKind::Blob | EntryKind::BlobExecutable => {
                if passes_filters(path.as_str(), ext, dir) {
                    out.push(path);
                    assert(views(out@) =~= before.push(path@));
                }
                assert(views(out@) =~= views(old(out)@) + listing(upto, prefix@, opt_view(ext), opt_view(dir)));
            },
            EntryKind::Other => {
                assert(views(out@) =~= views(old(out)@) + listing(upto, prefix@, opt_view(ext), opt_view(dir)));
            },
        }
        i += 1;
    }
    assert(tree.entries@.subrange(0, n as int) =~= tree.entries@);
}

/// The paths of the regular and executable blobs of `tree`, in depth-first pre-order
/// (subtrees where they stand among the entries), that have extension `extension` and lie
/// under `directory`, when these filters are given.
pub fn matching_files(tree: &Tree, extension: Option<&str>, directory: Option<&str>) -> (r: Vec<
    String,
>)
    ensures
        views(r@) == listing(tree.entries@, Seq::empty(), opt_view(extension), opt_view(directory)),
{
    let mut out: Vec<String> = Vec::new();
    collect(tree, &String::new(), extension, directory, &mut out);
    assert(views(out@) =~= listing(
        tree.entries@,
        Seq::empty(),
        opt_view(extension),
        opt_view(directory),
    ));
    out
}

/// Listing the same tree twice with the same filters gives the same paths in the same
/// order.
pub proof fn lemma_listing_deterministic(
    tree: Tree,
    extension: Option<Seq<char>>,
    directory: Option<Seq<char>>,
    first: Seq<String>,
    second: Seq<String>,
)
    requires
        views(first) == listing(tree.entries@, Seq::empty(), extension, directory),
        views(second) == listing(tree.entries@, Seq::empty(), extension, directory),
    ensures
        views(first) == views(second),
{
}

} // verus!

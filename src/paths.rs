use vstd::prelude::*;
use vstd::string::*;

use crate::text::push_all;

verus! {

/// The pieces of `s` between `/` separators, empty pieces included.
pub open spec fn segments(s: Seq<char>) -> Seq<Seq<char>>
    decreases s.len(),
{
    if s.len() == 0 {
        seq![Seq::empty()]
    } else {
        let p = segments(s.drop_last());
        if s.last() == '/' {
            p.push(Seq::empty())
        } else {
            p.update(p.len() - 1, p.last().push(s.last()))
        }
    }
}

/// A piece that counts as a path component: neither empty nor the current directory.
pub open spec fn is_component(part: Seq<char>) -> bool {
    part.len() > 0 && part != seq!['.']
}

/// The pieces of `parts` that are components, in order.
pub open spec fn kept(parts: Seq<Seq<char>>) -> Seq<Seq<char>>
    decreases parts.len(),
{
    if parts.len() == 0 {
        Seq::empty()
    } else {
        let r = kept(parts.drop_last());
        if is_component(parts.last()) {
            r.push(parts.last())
        } else {
            r
        }
    }
}

/// The components of a path: `.` and empty pieces dropped, everything else (`..` too) kept.
pub open spec fn components(s: Seq<char>) -> Seq<Seq<char>> {
    kept(segments(s))
}

/// A path that starts at the file system root.
pub open spec fn is_absolute(s: Seq<char>) -> bool {
    s.len() > 0 && s[0] == '/'
}

/// The parts joined by `/`.
pub open spec fn join_parts(parts: Seq<Seq<char>>) -> Seq<char>
    decreases parts.len(),
{
    if parts.len() == 0 {
        Seq::empty()
    } else if parts.len() == 1 {
        parts[0]
    } else {
        join_parts(parts.drop_last()) + seq!['/'] + parts.last()
    }
}

/// A path written from its components, with a leading `/` when it is absolute.
pub open spec fn render(absolute: bool, parts: Seq<Seq<char>>) -> Seq<char> {
    if absolute {
        seq!['/'] + join_parts(parts)
    } else {
        join_parts(parts)
    }
}

/// The normal form of a path.
pub open spec fn normalized(s: Seq<char>) -> Seq<char> {
    render(is_absolute(s), components(s))
}

/// The last component of a path, or nothing when it has none.
pub open spec fn base_name(s: Seq<char>) -> Seq<char> {
    let c = components(s);
    if c.len() == 0 {
        Seq::empty()
    } else {
        c.last()
    }
}

/// Whether `p` starts with `prefix`, compared component by component.
pub open spec fn starts_with_path(p: Seq<char>, prefix: Seq<char>) -> bool {
    &&& is_absolute(p) == is_absolute(prefix)
    &&& components(prefix).is_prefix_of(components(p))
}

/// The characters of each string.
pub open spec fn views(v: Seq<String>) -> Seq<Seq<char>> {
    v.map_values(|p: String| p@)
}

/// A string without separators.
pub open spec fn no_sep(s: Seq<char>) -> bool {
    forall|i: int| 0 <= i < s.len() ==> s[i] != '/'
}

proof fn lemma_segments_append(a: Seq<char>, b: Seq<char>)
    requires
        no_sep(b),
    ensures
        segments(a + b) == segments(a).update(
            segments(a).len() - 1,
            segments(a).last() + b,
        ),
    decreases b.len(),
{
    lemma_segments_nonempty(a);
    if b.len() == 0 {
        assert(a + b =~= a);
        assert(segments(a).last() + b =~= segments(a).last());
        assert(segments(a).update(segments(a).len() - 1, segments(a).last() + b) =~= segments(a));
    } else {
        let b1 = b.drop_last();
        assert(no_sep(b1));
        lemma_segments_append(a, b1);
        assert((a + b).drop_last() =~= a + b1);
        assert((a + b).last() == b.last());
        assert(b.last() != '/');
        assert((segments(a).last() + b1).push(b.last()) =~= segments(a).last() + b);
        assert(segments(a + b) =~= segments(a).update(
            segments(a).len() - 1,
            segments(a).last() + b,
        ));
    }
}

/// A component joined onto a path is the last component of the result.
pub proof fn lemma_base_name_after_sep(a: Seq<char>, b: Seq<char>)
    requires
        no_sep(b),
        is_component(b),
        a.len() == 0 || a.last() == '/',
    ensures
        base_name(a + b) == b,
{
    lemma_segments_append(a, b);
    lemma_segments_nonempty(a);
    if a.len() == 0 {
        assert(segments(a) =~= seq![Seq::<char>::empty()]);
        assert(segments(a + b) =~= seq![b]);
        assert(seq![b].drop_last() =~= Seq::<Seq<char>>::empty());
    } else {
        let p = segments(a.drop_last());
        assert(segments(a) == p.push(Seq::<char>::empty()));
        assert(segments(a + b) =~= p.push(b));
        assert(p.push(b).drop_last() =~= p);
        assert(p.push(Seq::<char>::empty()).drop_last() =~= p);
    }
}

/// A component joined onto a path with a separator is the last component of the result.
pub proof fn lemma_base_name_join(a: Seq<char>, b: Seq<char>)
    requires
        no_sep(b),
        is_component(b),
    ensures
        base_name(a + seq!['/'] + b) == b,
{
    let a1 = a + seq!['/'];
    assert(a1.last() == '/');
    lemma_base_name_after_sep(a1, b);
}

proof fn lemma_segments_no_sep(s: Seq<char>)
    ensures
        forall|k: int| 0 <= k < segments(s).len() ==> no_sep(#[trigger] segments(s)[k]),
    decreases s.len(),
{
    lemma_segments_nonempty(s);
    if s.len() > 0 {
        lemma_segments_no_sep(s.drop_last());
        lemma_segments_nonempty(s.drop_last());
    }
}

proof fn lemma_kept_no_sep(parts: Seq<Seq<char>>)
    requires
        forall|k: int| 0 <= k < parts.len() ==> no_sep(#[trigger] parts[k]),
    ensures
        forall|k: int| 0 <= k < kept(parts).len() ==> no_sep(#[trigger] kept(parts)[k]),
    decreases parts.len(),
{
    if parts.len() > 0 {
        let q = parts.drop_last();
        assert forall|k: int| 0 <= k < q.len() implies no_sep(#[trigger] q[k]) by {
            assert(q[k] == parts[k]);
        }
        lemma_kept_no_sep(q);
        assert(no_sep(parts[parts.len() - 1]));
        assert forall|k: int| 0 <= k < kept(parts).len() implies no_sep(
            #[trigger] kept(parts)[k],
        ) by {
            if k < kept(q).len() {
                assert(kept(parts)[k] == kept(q)[k]);
            }
        }
    }
}

/// A file name holds no separator.
pub proof fn lemma_base_name_no_sep(s: Seq<char>)
    ensures
        no_sep(base_name(s)),
{
    lemma_segments_no_sep(s);
    lemma_kept_no_sep(segments(s));
}

proof fn lemma_segments_nonempty(s: Seq<char>)
    ensures
        segments(s).len() >= 1,
    decreases s.len(),
{
    if s.len() > 0 {
        lemma_segments_nonempty(s.drop_last());
    }
}

fn is_component_exec(part: &String) -> (r: bool)
    ensures
        r == is_component(part@),
{
    let n = part.as_str().unicode_len();
    if n == 0 {
        false
    } else if n == 1 && part.as_str().get_char(0) == '.' {
        assert(part@ =~= seq!['.']);
        false
    } else {
        assert(n == 1 ==> part@[0] != '.');
        assert(part@ != seq!['.'] || part@[0] == '.');
        true
    }
}

/// Whether the path starts at the file system root.
pub fn path_is_absolute(s: &str) -> (r: bool)
    ensures
        r == is_absolute(s@),
{
    s.unicode_len() > 0 && s.get_char(0) == '/'
}

/// The components of `s`, in order.
pub fn split_components(s: &str) -> (r: Vec<String>)
    ensures
        views(r@) == components(s@),
{
    let n = s.unicode_len();
    let mut parts: Vec<String> = Vec::new();
    let mut cur = String::new();
    let mut i: usize = 0;
    proof {
        assert(s@.take(0) =~= Seq::<char>::empty());
    }
    while i < n
        invariant
            n == s@.len(),
            i <= n,
            segments(s@.take(i as int)).len() >= 1,
            views(parts@) == kept(segments(s@.take(i as int)).drop_last()),
            cur@ == segments(s@.take(i as int)).last(),
        decreases n - i,
    {
        let c = s.get_char(i);
        let ghost prev = segments(s@.take(i as int));
        let ghost before = parts@;
        proof {
            assert(s@.take(i + 1).drop_last() =~= s@.take(i as int));
            assert(prev.drop_last().push(prev.last()) =~= prev);
        }
        if c == '/' {
            if is_component_exec(&cur) {
                parts.push(cur);
                assert(views(parts@) =~= views(before).push(prev.last()));
            }
            cur = String::new();
            assert(segments(s@.take(i + 1)).drop_last() =~= prev);
        } else {
            cur.push(c);
            assert(segments(s@.take(i + 1)).drop_last() =~= prev.drop_last());
        }
        i += 1;
    }
    proof {
        assert(s@.take(n as int) =~= s@);
    }
    let ghost all = segments(s@);
    let ghost before = parts@;
    proof {
        assert(all.drop_last().push(all.last()) =~= all);
    }
    if is_component_exec(&cur) {
        parts.push(cur);
        assert(views(parts@) =~= views(before).push(all.last()));
    }
    parts
}

/// Writes a path from its components, with a leading `/` when `absolute`.
pub fn render_path(absolute: bool, parts: &Vec<String>) -> (r: String)
    ensures
        r@ == render(absolute, views(parts@)),
{
    let mut out = String::new();
    if absolute {
        out.push('/');
    }
    let ghost lead = out@;
    let mut i: usize = 0;
    while i < parts.len()
        invariant
            i <= parts@.len(),
            out@ == lead + join_parts(views(parts@).take(i as int)),
            lead == (if absolute { seq!['/'] } else { Seq::<char>::empty() }),
        decreases parts@.len() - i,
    {
        let ghost pre = views(parts@).take(i as int);
        let ghost next = views(parts@).take(i + 1);
        proof {
            assert(next.drop_last() =~= pre);
            assert(next.last() == parts@[i as int]@);
        }
        if i > 0 {
            out.push('/');
        }
        push_all(&mut out, parts[i].as_str());
        proof {
            if i == 0 {
                assert(pre =~= Seq::<Seq<char>>::empty());
                assert(out@ =~= lead + join_parts(next));
            } else {
                assert(out@ =~= lead + join_parts(next));
            }
        }
        i += 1;
    }
    assert(views(parts@).take(parts@.len() as int) =~= views(parts@));
    out
}

/// Whether the components in `prefix` begin the components in `parts`.
pub fn parts_start_with(parts: &Vec<String>, prefix: &Vec<String>) -> (r: bool)
    ensures
        r == views(prefix@).is_prefix_of(views(parts@)),
{
    if prefix.len() > parts.len() {
        return false;
    }
    let mut i: usize = 0;
    while i < prefix.len()
        invariant
            prefix@.len() <= parts@.len(),
            i <= prefix@.len(),
            forall|k: int| 0 <= k < i ==> #[trigger] views(prefix@)[k] == views(parts@)[k],
        decreases prefix@.len() - i,
    {
        if !crate::text::same_text(prefix[i].as_str(), parts[i].as_str()) {
            assert(views(prefix@)[i as int] != views(parts@).subrange(0, prefix@.len() as int)[i as int]);
            return false;
        }
        i += 1;
    }
    assert(views(prefix@) =~= views(parts@).subrange(0, prefix@.len() as int));
    true
}

/// Whether the path `p` starts with the path `prefix`, component by component.
pub fn path_starts_with(p: &str, prefix: &str) -> (r: bool)
    ensures
        r == starts_with_path(p@, prefix@),
{
    if path_is_absolute(p) != path_is_absolute(prefix) {
        return false;
    }
    let pc = split_components(p);
    let qc = split_components(prefix);
    parts_start_with(&pc, &qc)
}

/// The last component of `s`, or an empty string when it has none.
pub fn base_name_of(s: &str) -> (r: String)
    ensures
        r@ == base_name(s@),
{
    let mut parts = split_components(s);
    match parts.pop() {
        Some(last) => last,
        None => String::new(),
    }
}

/// The normal form of a path: its components joined by `/`, with a leading `/` when it
/// is absolute.
pub fn normalize_path(path: &str) -> (r: String)
    ensures
        r@ == normalized(path@),
{
    let absolute = path_is_absolute(path);
    let parts = split_components(path);
    render_path(absolute, &parts)
}

} // verus!

use vstd::prelude::*;
use vstd::string::*;

use crate::digits::is_digit;
use crate::paths::{
    base_name, base_name_of, is_absolute, is_component, lemma_base_name_after_sep,
    lemma_base_name_join, lemma_base_name_no_sep, no_sep, path_is_absolute,
};
use crate::text::{push_all, to_owned_string};

verus! {

/// Whether a file name starts with an order prefix: two decimal digits followed by two or
/// more underscores.
pub open spec fn has_order_prefix(n: Seq<char>) -> bool {
    &&& n.len() >= 4
    &&& is_digit(n[0])
    &&& is_digit(n[1])
    &&& n[2] == '_'
    &&& n[3] == '_'
}

/// The position of the first character at or after `i` that is not an underscore.
pub open spec fn underscores_end(n: Seq<char>, i: nat) -> nat
    decreases n.len() - i,
{
    if i < n.len() && n[i as int] == '_' {
        underscores_end(n, i + 1)
    } else {
        i
    }
}

/// A file name without its order prefix, if it has one; the whole run of underscores
/// after the two digits goes with the prefix.
pub open spec fn slug(n: Seq<char>) -> Seq<char> {
    if has_order_prefix(n) {
        n.skip(underscores_end(n, 2) as int)
    } else {
        n
    }
}

/// `b` appended to the path `a`: an absolute `b` replaces `a`, and a separator is put
/// between them unless `a` is empty or already ends in one.
pub open spec fn join_path(a: Seq<char>, b: Seq<char>) -> Seq<char> {
    if is_absolute(b) {
        b
    } else if a.len() == 0 || a.last() == '/' {
        a + b
    } else {
        a + seq!['/'] + b
    }
}

/// The canonical name of a script: `<code>__<slug>`, where the slug is the script's file
/// name without its order prefix.
pub open spec fn canonical_file_name(code: Seq<char>, filename: Seq<char>) -> Seq<char> {
    code + seq!['_', '_'] + slug(base_name(filename))
}

/// The path that `format_target_name` produces.
pub open spec fn target_name(
    root: Seq<char>,
    version: Seq<char>,
    code: Seq<char>,
    filename: Seq<char>,
) -> Seq<char> {
    join_path(join_path(root, version), canonical_file_name(code, filename))
}

proof fn lemma_underscores_end(n: Seq<char>, i: nat)
    requires
        i <= n.len(),
    ensures
        i <= underscores_end(n, i) <= n.len(),
        underscores_end(n, i) < n.len() ==> n[underscores_end(n, i) as int] != '_',
        forall|j: int| i <= j < underscores_end(n, i) ==> n[j] == '_',
    decreases n.len() - i,
{
    if i < n.len() && n[i as int] == '_' {
        lemma_underscores_end(n, i + 1);
    }
}

/// Stripping the order prefix a second time changes nothing exactly when the stripped name
/// does not itself start with an order prefix (as `01__02__x.sql` does).
pub proof fn lemma_slug_idempotent(n: Seq<char>)
    ensures
        slug(slug(n)) == slug(n) <==> !has_order_prefix(slug(n)),
{
    let s = slug(n);
    if has_order_prefix(s) {
        lemma_underscores_end(s, 2);
        assert(underscores_end(s, 2) >= 4);
        assert(slug(s).len() < s.len());
    }
}

/// A name without separators, joined onto any path, is the last component of the result.
pub proof fn lemma_join_base_name(a: Seq<char>, b: Seq<char>)
    requires
        no_sep(b),
        is_component(b),
    ensures
        base_name(join_path(a, b)) == b,
{
    if a.len() == 0 || a.last() == '/' {
        lemma_base_name_after_sep(a, b);
    } else {
        lemma_base_name_join(a, b);
    }
}

/// The canonical name of a script holds no separator when its code holds none.
pub proof fn lemma_canonical_no_sep(code: Seq<char>, filename: Seq<char>)
    requires
        no_sep(code),
    ensures
        no_sep(canonical_file_name(code, filename)),
{
    let b = base_name(filename);
    lemma_base_name_no_sep(filename);
    let sl = slug(b);
    if has_order_prefix(b) {
        lemma_underscores_end(b, 2);
    }
    assert(no_sep(sl)) by {
        assert forall|i: int| 0 <= i < sl.len() implies sl[i] != '/' by {
            if has_order_prefix(b) {
                assert(sl[i] == b[i + underscores_end(b, 2)]);
            }
        }
    }
    let c = canonical_file_name(code, filename);
    assert forall|i: int| 0 <= i < c.len() implies c[i] != '/' by {
        if i < code.len() {
            assert(c[i] == code[i]);
        } else if i >= code.len() + 2 {
            assert(c[i] == sl[i - code.len() - 2]);
        }
    }
}

/// The file name `n` without its order prefix.
pub fn strip_order_prefix(n: &str) -> (r: String)
    ensures
        r@ == slug(n@),
{
    let len = n.unicode_len();
    if len < 4 {
        return to_owned_string(n);
    }
    let c0 = n.get_char(0);
    let c1 = n.get_char(1);
    if !('0' <= c0 && c0 <= '9' && '0' <= c1 && c1 <= '9' && n.get_char(2) == '_' && n.get_char(3)
        == '_') {
        return to_owned_string(n);
    }
    let mut i: usize = 2;
    proof {
        lemma_underscores_end(n@, 2);
    }
    while i < len && n.get_char(i) == '_'
        invariant
            2 <= i <= len,
            len == n@.len(),
            underscores_end(n@, i as nat) == underscores_end(n@, 2),
        decreases len - i,
    {
        i += 1;
    }
    to_owned_string(n.substring_char(i, len))
}

fn join_onto(a: &mut String, b: &str)
    ensures
        final(a)@ == join_path(old(a)@, b@),
{
    if path_is_absolute(b) {
        *a = to_owned_string(b);
        return;
    }
    let n = a.as_str().unicode_len();
    if n > 0 && a.as_str().get_char(n - 1) != '/' {
        a.push('/');
    }
    push_all(a, b);
}

/// The canonical path of the script `filename`: its file name without the order prefix,
/// after `order_code` and `__`, under `root` and then `version_path`. An empty
/// `version_path` places the script directly under `root`.
pub fn format_target_name(root: &str, version_path: &str, order_code: &str, filename: &str) -> (r:
    String)
    ensures
        r@ == target_name(root@, version_path@, order_code@, filename@),
{
    let base = base_name_of(filename);
    let slug_text = strip_order_prefix(base.as_str());
    let mut name = to_owned_string(order_code);
    push_all(&mut name, "__");
    push_all(&mut name, slug_text.as_str());
    proof {
        reveal_strlit("__");
        assert(name@ =~= canonical_file_name(order_code@, filename@));
    }
    let mut out = to_owned_string(root);
    join_onto(&mut out, version_path);
    join_onto(&mut out, name.as_str());
    out
}

} // verus!

//! Paths as the crate reasons about them.
//!
//! An absolute path is handed over as the list of its components (the root
//! as `"/"`, then one string per name), which is how whole-component prefix
//! tests and prefix stripping are decided. A path that a user or an agent
//! supplies is kept as text, and only accepted when every component of it is
//! a plain name.

use vstd::prelude::*;
use crate::text::{chars_of, join, join_with, string_views};

verus! {

/// The components `base` are the leading components of `path`.
pub open spec fn components_prefix(base: Seq<Seq<char>>, path: Seq<Seq<char>>) -> bool {
    base.len() <= path.len() && path.take(base.len() as int) == base
}

/// `path` relative to `base`, written with `/` between its components,
/// where `base` is a leading part of `path`.
pub open spec fn relative_text(base: Seq<Seq<char>>, path: Seq<Seq<char>>) -> Seq<char> {
    join_with(path.skip(base.len() as int), seq!['/'])
}

/// A `..` segment of `p` starts at index `i`.
pub open spec fn parent_segment_at(p: Seq<char>, i: int) -> bool {
    &&& 0 <= i
    &&& i + 2 <= p.len()
    &&& (i == 0 || p[i - 1] == '/')
    &&& p[i] == '.'
    &&& p[i + 1] == '.'
    &&& (i + 2 == p.len() || p[i + 2] == '/')
}

/// `p` starts with a `.` segment.
pub open spec fn leading_current_segment(p: Seq<char>) -> bool {
    p.len() > 0 && p[0] == '.' && (p.len() == 1 || p[1] == '/')
}

/// Every component of the path `p` is a plain name: it has no root, no
/// leading `.` and no `..` anywhere (empty and inner `.` segments are no
/// components at all).
pub open spec fn is_plain_relative(p: Seq<char>) -> bool {
    &&& !(p.len() > 0 && p[0] == '/')
    &&& !leading_current_segment(p)
    &&& forall|i: int| !parent_segment_at(p, i)
}

/// `rel` appended to `root` with one separator, as a path join does for a
/// path that has no root.
pub open spec fn join_path(root: Seq<char>, rel: Seq<char>) -> Seq<char> {
    if root.len() == 0 || root.last() == '/' {
        root + rel
    } else {
        root + seq!['/'] + rel
    }
}

/// A component that is a plain name: not empty, without a separator, and
/// neither `.` nor `..`.
pub open spec fn is_plain_name(c: Seq<char>) -> bool {
    &&& c.len() > 0
    &&& forall|k: int| 0 <= k < c.len() ==> c[k] != '/'
    &&& c != seq!['.']
    &&& c != seq!['.', '.']
}

proof fn lemma_join_plain_names(parts: Seq<Seq<char>>)
    requires
        parts.len() > 0,
        forall|k: int| 0 <= k < parts.len() ==> is_plain_name(#[trigger] parts[k]),
    ensures
        is_plain_relative(join_with(parts, seq!['/'])),
        join_with(parts, seq!['/']).len() > 0,
        join_with(parts, seq!['/'])[0] == parts[0][0],
    decreases parts.len(),
{
    let p = join_with(parts, seq!['/']);
    if parts.len() == 1 {
        let c = parts[0];
        assert(is_plain_name(c));
        assert(p == c);
        if c[0] == '.' && (c.len() == 1 || c[1] == '/') {
            assert(c == seq!['.']);
        }
        assert forall|i: int| !parent_segment_at(p, i) by {
            if parent_segment_at(p, i) {
                if i > 0 {
                    assert(c[i - 1] == '/');
                } else {
                    assert(c.len() == 2);
                    assert(c == seq!['.', '.']);
                }
            }
        }
    } else {
        let init = parts.drop_last();
        let b = parts.last();
        assert(is_plain_name(b));
        assert forall|k: int| 0 <= k < init.len() implies is_plain_name(#[trigger] init[k]) by {
            assert(init[k] == parts[k]);
        }
        lemma_join_plain_names(init);
        let a = join_with(init, seq!['/']);
        assert(p == a + seq!['/'] + b);
        assert(p[0] == a[0]);
        assert(init[0] == parts[0]);
        if p[0] == '.' && (p.len() == 1 || p[1] == '/') {
            if a.len() == 1 {
                assert(leading_current_segment(a));
            } else {
                assert(p[1] == a[1]);
                assert(leading_current_segment(a));
            }
        }
        assert forall|i: int| !parent_segment_at(p, i) by {
            if parent_segment_at(p, i) {
                let n = a.len() as int;
                if i + 2 < n {
                    assert(p[i + 2] == a[i + 2]);
                    if i > 0 {
                        assert(p[i - 1] == a[i - 1]);
                    }
                    assert(p[i] == a[i] && p[i + 1] == a[i + 1]);
                    assert(parent_segment_at(a, i));
                } else if i + 2 == n {
                    if i > 0 {
                        assert(p[i - 1] == a[i - 1]);
                    }
                    assert(p[i] == a[i] && p[i + 1] == a[i + 1]);
                    assert(parent_segment_at(a, i));
                } else if i == n - 1 {
                    assert(p[i + 1] == '/');
                } else if i == n {
                    assert(p[i] == '/');
                } else if i == n + 1 {
                    assert(p[i] == b[0] && p[i + 1] == b[1]);
                    if b.len() > 2 {
                        assert(p[i + 2] == b[2]);
                    }
                    assert(b.len() == 2);
                    assert(b == seq!['.', '.']);
                } else {
                    assert(p[i - 1] == b[i - 1 - n - 1]);
                }
            }
        }
    }
}

/// A path made relative to a base, from components that are all plain names
/// (as those of a canonical path are), is accepted as plain relative: every
/// file listed relative to a directory can be resolved in it again.
pub proof fn lemma_relative_text_is_plain(base: Seq<Seq<char>>, path: Seq<Seq<char>>)
    requires
        components_prefix(base, path),
        base.len() < path.len(),
        forall|k: int| base.len() <= k < path.len() ==> is_plain_name(#[trigger] path[k]),
    ensures
        is_plain_relative(relative_text(base, path)),
{
    let rest = path.skip(base.len() as int);
    assert forall|k: int| 0 <= k < rest.len() implies is_plain_name(#[trigger] rest[k]) by {
        assert(rest[k] == path[base.len() + k]);
    }
    lemma_join_plain_names(rest);
}

/// The text of an absolute path given by its components: the root `/`,
/// then the names separated by `/`.
pub open spec fn absolute_text(components: Seq<Seq<char>>) -> Seq<char> {
    seq!['/'] + join_with(components.skip(1), seq!['/'])
}

/// Joining two non-empty lists of parts is joining each and putting one
/// separator between them.
pub proof fn lemma_join_concat(a: Seq<Seq<char>>, b: Seq<Seq<char>>, sep: Seq<char>)
    requires
        a.len() > 0,
        b.len() > 0,
    ensures
        join_with(a + b, sep) == join_with(a, sep) + sep + join_with(b, sep),
    decreases b.len(),
{
    assert((a + b).drop_last() == a + b.drop_last());
    assert((a + b).last() == b.last());
    if b.len() > 1 {
        lemma_join_concat(a, b.drop_last(), sep);
    } else {
        assert(a + b.drop_last() == a);
    }
}

proof fn lemma_join_last(parts: Seq<Seq<char>>, sep: Seq<char>)
    requires
        parts.len() > 0,
        parts.last().len() > 0,
    ensures
        join_with(parts, sep).len() > 0,
        join_with(parts, sep).last() == parts.last().last(),
{
}

/// Joining the relative text onto the base gives the path back: for an
/// absolute path whose names are plain, the base's text joined with the
/// path's text relative to it is the path's own text.
pub proof fn lemma_relative_text_round_trip(base: Seq<Seq<char>>, path: Seq<Seq<char>>)
    requires
        components_prefix(base, path),
        base.len() >= 1,
        base.len() < path.len(),
        base[0] == seq!['/'],
        forall|k: int| 1 <= k < path.len() ==> is_plain_name(#[trigger] path[k]),
    ensures
        join_path(absolute_text(base), relative_text(base, path)) == absolute_text(path),
{
    let names = path.skip(1);
    let rest = path.skip(base.len() as int);
    assert(base.skip(1) == path.subrange(1, base.len() as int));
    if base.len() == 1 {
        assert(base.skip(1) == Seq::<Seq<char>>::empty());
        assert(absolute_text(base) == seq!['/']);
        assert(rest == names);
    } else {
        let front = base.skip(1);
        assert(names == front + rest);
        lemma_join_concat(front, rest, seq!['/']);
        assert(front.last() == path[base.len() - 1]);
        assert(is_plain_name(path[base.len() - 1]));
        lemma_join_last(front, seq!['/']);
        let t = absolute_text(base);
        assert(t.last() == join_with(front, seq!['/']).last());
        assert(t.last() != '/');
    }
}

/// A joined single part is the part itself.
pub proof fn lemma_join_single(part: Seq<char>, sep: Seq<char>)
    ensures
        join_with(seq![part], sep) == part,
        join_with(Seq::<Seq<char>>::empty(), sep) == Seq::<char>::empty(),
{
}

/// A path that climbs out is refused: one with a `..` segment anywhere, one
/// that starts with `..` or `.`, and one with a root.
pub proof fn lemma_climbing_paths_refused(a: Seq<char>, b: Seq<char>)
    ensures
        !is_plain_relative(a + seq!['/', '.', '.', '/'] + b),
        !is_plain_relative(a + seq!['/', '.', '.']),
        !is_plain_relative(seq!['.', '.', '/'] + b),
        !is_plain_relative(seq!['.', '.']),
        !is_plain_relative(seq!['.', '/'] + b),
        !is_plain_relative(seq!['/'] + b),
{
    let p1 = a + seq!['/', '.', '.', '/'] + b;
    assert(parent_segment_at(p1, a.len() as int + 1));
    let p2 = a + seq!['/', '.', '.'];
    assert(parent_segment_at(p2, a.len() as int + 1));
    let p3 = seq!['.', '.', '/'] + b;
    assert(parent_segment_at(p3, 0));
    assert(parent_segment_at(seq!['.', '.'], 0));
    let p5 = seq!['.', '/'] + b;
    assert(p5[0] == '.' && p5[1] == '/');
    let p6 = seq!['/'] + b;
    assert(p6[0] == '/');
}

/// Any components added below a base keep the base as their whole-component
/// prefix, at any depth, and the text relative to the base is exactly the
/// added components joined by `/`.
pub proof fn lemma_prefix_of_any_extension(base: Seq<Seq<char>>, extra: Seq<Seq<char>>)
    ensures
        components_prefix(base, base + extra),
        relative_text(base, base + extra) == join_with(extra, seq!['/']),
{
    assert((base + extra).take(base.len() as int) == base);
    assert((base + extra).skip(base.len() as int) == extra);
}

/// A whole-component prefix is a leading part of the list and nothing else:
/// the path is the base followed by the components after it.
pub proof fn lemma_prefix_means_leading_part(base: Seq<Seq<char>>, path: Seq<Seq<char>>)
    ensures
        components_prefix(base, path) <==> (base.len() <= path.len() && forall|k: int|
            0 <= k < base.len() ==> path[k] == base[k]),
        components_prefix(base, path) ==> path == base + path.skip(base.len() as int),
{
    if base.len() <= path.len() && forall|k: int| 0 <= k < base.len() ==> path[k] == base[k] {
        assert(path.take(base.len() as int) == base);
    }
    if components_prefix(base, path) {
        assert forall|k: int| 0 <= k < base.len() implies path[k] == base[k] by {
            assert(path.take(base.len() as int)[k] == path[k]);
        }
        assert(path == base + path.skip(base.len() as int));
    }
}

/// Whether the components `base` lead the components `path`.
pub fn has_component_prefix(path: &Vec<String>, base: &Vec<String>) -> (b: bool)
    ensures
        b == components_prefix(string_views(base@), string_views(path@)),
{
    let ghost bv = string_views(base@);
    let ghost pv = string_views(path@);
    if base.len() > path.len() {
        return false;
    }
    let mut i: usize = 0;
    while i < base.len()
        invariant
            base.len() <= path.len(),
            i <= base.len(),
            bv == string_views(base@),
            pv == string_views(path@),
            forall|k: int| 0 <= k < i ==> pv[k] == bv[k],
        decreases base.len() - i,
    {
        if path[i] != base[i] {
            assert(pv.take(bv.len() as int)[i as int] != bv[i as int]);
            return false;
        }
        i = i + 1;
    }
    assert(pv.take(bv.len() as int) == bv);
    true
}

/// `path` relative to `base`, when `base` leads it: a prefix strip of whole
/// components, shown with `/` between the remaining ones.
pub fn relative_path(base: &Vec<String>, path: &Vec<String>) -> (r: Option<String>)
    ensures
        match r {
            Some(rel) => components_prefix(string_views(base@), string_views(path@)) && rel@
                == relative_text(string_views(base@), string_views(path@)),
            None => !components_prefix(string_views(base@), string_views(path@)),
        },
{
    if !has_component_prefix(path, base) {
        return None;
    }
    let mut rest: Vec<String> = Vec::new();
    let mut i = base.len();
    while i < path.len()
        invariant
            base.len() <= i <= path.len(),
            rest@ == path@.subrange(base.len() as int, i as int),
        decreases path.len() - i,
    {
        rest.push(path[i].clone());
        assert(rest@ == path@.subrange(base.len() as int, i + 1));
        i = i + 1;
    }
    assert(string_views(rest@) == string_views(path@).skip(base.len() as int));
    proof {
        reveal_strlit("/");
        assert("/"@ == seq!['/']);
    }
    Some(join(&rest, "/"))
}

/// Whether every component of `rel` is a plain name.
pub fn is_plain_relative_path(rel: &str) -> (b: bool)
    ensures
        b == is_plain_relative(rel@),
{
    let p = chars_of(rel);
    let n = p.len();
    if n > 0 && p[0] == '/' {
        return false;
    }
    if n > 0 && p[0] == '.' && (n == 1 || p[1] == '/') {
        return false;
    }
    let mut i: usize = 0;
    while i < n
        invariant
            n == p@.len(),
            p@ == rel@,
            i <= n,
            forall|k: int| 0 <= k < i ==> !parent_segment_at(p@, k),
        decreases n - i,
    {
        if n - i >= 2 && (i == 0 || p[i - 1] == '/') && p[i] == '.' && p[i + 1] == '.' && (n - i
            == 2 || p[i + 2] == '/') {
            assert(parent_segment_at(p@, i as int));
            return false;
        }
        i = i + 1;
    }
    true
}

/// `rel` joined onto `root`.
pub fn join_onto(root: &str, rel: &str) -> (r: String)
    ensures
        r@ == join_path(root@, rel@),
{
    let root_chars = chars_of(root);
    let mut r = root.to_owned();
    let n = root_chars.len();
    if n > 0 && root_chars[n - 1] != '/' {
        r.append("/");
        proof {
            reveal_strlit("/");
        }
    }
    r.append(rel);
    r
}

/// The file `relative` inside the directory `root_abs`, the canonical form of
/// the directory that holds it (or why that form could not be had).
///
/// `relative` is refused, before the directory is looked at, unless every
/// component of it is a plain name; so an accepted path never leaves the
/// directory.
pub fn resolve_within(root_abs: Result<String, String>, relative: &str) -> (r: Result<
    String,
    String,
>)
    ensures
        match r {
            Ok(p) => is_plain_relative(relative@) && root_abs is Ok && p@ == join_path(
                root_abs->Ok_0@,
                relative@,
            ),
            Err(e) => if !is_plain_relative(relative@) {
                e@ == "caminho fora da área permitida: "@ + relative@
            } else {
                root_abs is Err && e@ == "erro no diretório base: "@ + root_abs->Err_0@
            },
        },
{
    if !is_plain_relative_path(relative) {
        let mut e = String::from_str("caminho fora da área permitida: ");
        e.append(relative);
        return Err(e);
    }
    match root_abs {
        Ok(root) => Ok(join_onto(root.as_str(), relative)),
        Err(cause) => {
            let mut e = String::from_str("erro no diretório base: ");
            e.append(cause.as_str());
            Err(e)
        },
    }
}

} // verus!

//! Laws of the path rules.

use vstd::prelude::*;

use crate::paths::{
    child, descent, excluded, has_hidden_part, is_at_or_below, is_dotted, is_listed, joined,
    last_slash, lemma_parts_not_empty, non_empty, parents, parts, temp_dir, trimmed,
};

verus! {

/// The parts of a path below `a` are the parts of `a`, then those of the rest.
proof fn lemma_parts_append(a: Seq<char>, b: Seq<char>)
    ensures
        parts(a + seq!['/'] + b) == parts(a) + parts(b),
    decreases b.len(),
{
    let whole = a + seq!['/'] + b;
    if b.len() == 0 {
        assert(whole.drop_last() =~= a);
        assert(whole.last() == '/');
        assert(parts(whole) =~= parts(a) + parts(b));
    } else {
        lemma_parts_append(a, b.drop_last());
        lemma_parts_not_empty(b.drop_last());
        assert(whole.drop_last() =~= a + seq!['/'] + b.drop_last());
        assert(whole.last() == b.last());
        assert(parts(whole) =~= parts(a) + parts(b));
    }
}

/// A text without a slash is its own only part.
proof fn lemma_single_part(s: Seq<char>)
    requires
        !s.contains('/'),
    ensures
        parts(s) == seq![s],
    decreases s.len(),
{
    if s.len() == 0 {
        assert(s =~= Seq::empty());
    } else {
        let front = s.drop_last();
        assert forall|c: int| 0 <= c < front.len() implies front[c] != '/' by {
            assert(s.contains(s[c]));
        }
        lemma_single_part(front);
        assert(s.contains(s[s.len() - 1]));
        assert(front.push(s.last()) =~= s);
        assert(parts(s) =~= seq![s]);
    }
}

/// No part holds a slash.
proof fn lemma_parts_hold_no_slash(s: Seq<char>, k: int)
    requires
        0 <= k < parts(s).len(),
    ensures
        !parts(s)[k].contains('/'),
    decreases s.len(),
{
    if s.len() > 0 {
        let front = s.drop_last();
        lemma_parts_not_empty(front);
        if s.last() == '/' {
            if k < parts(front).len() {
                lemma_parts_hold_no_slash(front, k);
            }
        } else if k < parts(front).len() - 1 {
            lemma_parts_hold_no_slash(front, k);
        } else {
            lemma_parts_hold_no_slash(front, parts(front).len() - 1);
            let p = parts(front).last();
            assert(parts(s)[k] == p.push(s.last()));
            assert forall|c: int| 0 <= c < p.push(s.last()).len() implies p.push(s.last())[c]
                != '/' by {
                if c < p.len() {
                    assert(p.contains(p[c]));
                }
            }
        }
    }
}

/// Names that can stand between slashes.
spec fn are_names(cs: Seq<Seq<char>>) -> bool {
    forall|k: int| 0 <= k < cs.len() ==> (#[trigger] cs[k]).len() > 0 && !cs[k].contains('/')
}

proof fn lemma_non_empty_parts_are_names(ps: Seq<Seq<char>>)
    requires
        forall|k: int| 0 <= k < ps.len() ==> !(#[trigger] ps[k]).contains('/'),
    ensures
        are_names(non_empty(ps)),
    decreases ps.len(),
{
    if ps.len() > 0 {
        let front = ps.drop_last();
        assert forall|k: int| 0 <= k < front.len() implies !(#[trigger] front[k]).contains('/') by {
            assert(front[k] == ps[k]);
        }
        lemma_non_empty_parts_are_names(front);
        assert(!ps[ps.len() - 1].contains('/'));
    }
}

/// Joined names fall apart into the same names.
proof fn lemma_parts_of_joined(cs: Seq<Seq<char>>)
    requires
        are_names(cs),
        cs.len() > 0,
    ensures
        parts(joined(cs)) == cs,
    decreases cs.len(),
{
    assert(cs[cs.len() - 1].len() > 0);
    lemma_single_part(cs.last());
    if cs.len() == 1 {
        assert(seq![cs[0]] =~= cs);
    } else {
        let front = cs.drop_last();
        assert forall|k: int| 0 <= k < front.len() implies (#[trigger] front[k]).len() > 0
            && !front[k].contains('/') by {
            assert(front[k] == cs[k]);
        }
        lemma_parts_of_joined(front);
        lemma_parts_append(joined(front), cs.last());
        assert(front + seq![cs.last()] =~= cs);
    }
}

proof fn lemma_non_empty_of_names(cs: Seq<Seq<char>>)
    requires
        are_names(cs),
    ensures
        non_empty(cs) == cs,
    decreases cs.len(),
{
    if cs.len() > 0 {
        let front = cs.drop_last();
        assert forall|k: int| 0 <= k < front.len() implies (#[trigger] front[k]).len() > 0
            && !front[k].contains('/') by {
            assert(front[k] == cs[k]);
        }
        lemma_non_empty_of_names(front);
        assert(cs[cs.len() - 1].len() > 0);
        assert(front.push(cs.last()) =~= cs);
    } else {
        assert(non_empty(cs) =~= cs);
    }
}

proof fn lemma_descent_take(cs: Seq<Seq<char>>, k: int)
    requires
        0 <= k < cs.len(),
    ensures
        descent(cs).len() == cs.len(),
        descent(cs)[k] == joined(cs.take(k + 1)),
        descent(cs).take(k) == descent(cs.take(k)),
    decreases cs.len(),
{
    let front = cs.drop_last();
    if k < front.len() {
        lemma_descent_take(front, k);
        assert(front.take(k + 1) =~= cs.take(k + 1));
        assert(front.take(k) =~= cs.take(k));
        assert(descent(cs).take(k) =~= descent(front).take(k));
    } else {
        if front.len() > 0 {
            lemma_descent_take(front, 0);
        }
        assert(cs.take(k + 1) =~= cs);
        assert(cs.take(k) =~= front);
        assert(descent(cs).take(k) =~= descent(front));
    }
}

/// What is excluded stays excluded further down, so an excluded directory need not be entered.
pub proof fn law_exclusion_is_inherited(
    dir: Seq<char>,
    name: Seq<char>,
    excludes: Seq<Seq<char>>,
    include_hidden: bool,
)
    requires
        excluded(dir, excludes, include_hidden),
    ensures
        excluded(dir + seq!['/'] + name, excludes, include_hidden),
        dir.len() > 0 ==> excluded(child(dir, name), excludes, include_hidden),
{
    let rel = dir + seq!['/'] + name;
    lemma_parts_append(dir, name);
    if has_hidden_part(dir) {
        let k = choose|k: int| 0 <= k < parts(dir).len() && is_dotted(#[trigger] parts(dir)[k]);
        assert(parts(rel)[k] == parts(dir)[k]);
    }
    if is_listed(dir, excludes) {
        let k = choose|k: int|
            0 <= k < excludes.len() && (#[trigger] excludes[k]) != ".*"@ && is_at_or_below(
                dir,
                excludes[k],
            );
        let ex = excludes[k];
        assert(rel.subrange(0, ex.len() as int) =~= dir.subrange(0, ex.len() as int));
        assert(dir.subrange(0, dir.len() as int) =~= dir);
        assert(is_at_or_below(rel, ex));
    }
}

/// A listed path covers itself and all below it, and nothing that merely starts with the same
/// letters.
pub proof fn law_listed_path_covers_its_subtree(ex: Seq<char>, below: Seq<char>, tail: Seq<char>)
    requires
        tail.len() > 0,
        tail[0] != '/',
    ensures
        is_at_or_below(ex, ex),
        is_at_or_below(ex + seq!['/'] + below, ex),
        !is_at_or_below(ex + tail, ex),
{
    assert((ex + seq!['/'] + below).subrange(0, ex.len() as int) =~= ex);
}

/// The directories above a directory of the chain are the ones that come before it.
pub proof fn law_parents_are_a_chain(rel: Seq<char>, k: int)
    requires
        0 <= k < parents(rel).len(),
    ensures
        parents(parents(rel)[k]) == parents(rel).take(k),
{
    let above = parts(rel).drop_last();
    let cs = non_empty(above);
    assert forall|j: int| 0 <= j < above.len() implies !(#[trigger] above[j]).contains('/') by {
        lemma_parts_hold_no_slash(rel, j);
    }
    lemma_non_empty_parts_are_names(above);
    if cs.len() > 0 {
        lemma_descent_take(cs, 0);
    }
    lemma_descent_take(cs, k);
    let here = cs.take(k + 1);
    assert forall|j: int| 0 <= j < here.len() implies (#[trigger] here[j]).len() > 0
        && !here[j].contains('/') by {
        assert(here[j] == cs[j]);
    }
    lemma_parts_of_joined(here);
    let up = here.drop_last();
    assert(up =~= cs.take(k));
    assert forall|j: int| 0 <= j < up.len() implies (#[trigger] up[j]).len() > 0
        && !up[j].contains('/') by {
        assert(up[j] == cs[j]);
    }
    lemma_non_empty_of_names(up);
}

/// Some part of the path is empty: it starts or ends with a slash, holds a doubled one, or is
/// empty itself.
pub open spec fn has_empty_part(rel: Seq<char>) -> bool {
    exists|k: int| 0 <= k < parts(rel).len() && (#[trigger] parts(rel)[k]).len() == 0
}

/// The directories above a path without empty parts are excluded only where the path is.
pub proof fn law_parents_of_a_synced_path_are_synced(
    rel: Seq<char>,
    k: int,
    excludes: Seq<Seq<char>>,
    include_hidden: bool,
)
    requires
        !has_empty_part(rel),
        !excluded(rel, excludes, include_hidden),
        0 <= k < parents(rel).len(),
    ensures
        !excluded(parents(rel)[k], excludes, include_hidden),
{
    let ps = parts(rel);
    let cs = ps.drop_last();
    lemma_parts_not_empty(rel);
    assert forall|j: int| 0 <= j < cs.len() implies (#[trigger] cs[j]).len() > 0
        && !cs[j].contains('/') by {
        assert(cs[j] == ps[j]);
        lemma_parts_hold_no_slash(rel, j);
    }
    lemma_non_empty_of_names(cs);
    if cs.len() > 0 {
        lemma_descent_take(cs, 0);
    }
    lemma_descent_take(cs, k);
    assert(cs.take(k + 1) =~= ps.take(k + 1));
    lemma_joined_parts(rel);
    lemma_joined_split(ps, k + 1);
    let dir = joined(ps.take(k + 1));
    if excluded(dir, excludes, include_hidden) {
        law_exclusion_is_inherited(dir, joined(ps.skip(k + 1)), excludes, include_hidden);
    }
}

/// The parts of a path, joined again, are the path.
proof fn lemma_joined_parts(s: Seq<char>)
    ensures
        joined(parts(s)) == s,
    decreases s.len(),
{
    if s.len() == 0 {
        assert(joined(parts(s)) =~= s);
    } else {
        let front = s.drop_last();
        let p = parts(front);
        lemma_joined_parts(front);
        lemma_parts_not_empty(front);
        assert(front.push(s.last()) =~= s);
        if s.last() == '/' {
            assert(parts(s).drop_last() =~= p);
            assert(joined(parts(s)) =~= front.push('/'));
        } else {
            let last = p.last().push(s.last());
            assert(parts(s) == p.drop_last().push(last));
            assert(parts(s).drop_last() =~= p.drop_last());
            if p.len() == 1 {
                assert(joined(parts(s)) == last);
                assert(joined(p) == p.last());
            }
            assert(joined(parts(s)) =~= joined(p).push(s.last()));
        }
    }
}

proof fn lemma_joined_split(cs: Seq<Seq<char>>, k: int)
    requires
        0 < k < cs.len(),
    ensures
        joined(cs) == joined(cs.take(k)) + seq!['/'] + joined(cs.skip(k)),
    decreases cs.len(),
{
    let front = cs.drop_last();
    if k == front.len() {
        assert(cs.take(k) =~= front);
        assert(cs.skip(k) =~= seq![cs.last()]);
    } else {
        lemma_joined_split(front, k);
        assert(front.take(k) =~= cs.take(k));
        assert(front.skip(k) =~= cs.skip(k).drop_last());
        assert(cs.skip(k).last() == cs.last());
    }
    assert(joined(cs) =~= joined(cs.take(k)) + seq!['/'] + joined(cs.skip(k)));
}

/// The temp dir is the parent of the per-project build dir, however many slashes end its path.
pub proof fn law_temp_dir_is_the_build_dirs_parent(
    dir: Seq<char>,
    name: Seq<char>,
    slashes: Seq<char>,
)
    requires
        name.len() > 0,
        !name.contains('/'),
        forall|i: int| 0 <= i < slashes.len() ==> (#[trigger] slashes[i]) == '/',
    ensures
        temp_dir(dir + seq!['/'] + name + slashes) == dir,
{
    let path = dir + seq!['/'] + name;
    assert(name.contains(name[name.len() - 1]));
    assert(path.last() == name.last());
    assert(trimmed(path) == path);
    lemma_trimmed_slashes(path, slashes);
    lemma_last_slash(dir, name);
    assert(path.subrange(0, dir.len() as int) =~= dir);
}

proof fn lemma_trimmed_slashes(path: Seq<char>, slashes: Seq<char>)
    requires
        forall|i: int| 0 <= i < slashes.len() ==> (#[trigger] slashes[i]) == '/',
    ensures
        trimmed(path + slashes) == trimmed(path),
    decreases slashes.len(),
{
    if slashes.len() == 0 {
        assert(path + slashes =~= path);
    } else {
        assert((path + slashes).last() == slashes[slashes.len() - 1]);
        assert((path + slashes).drop_last() =~= path + slashes.drop_last());
        lemma_trimmed_slashes(path, slashes.drop_last());
    }
}

proof fn lemma_last_slash(dir: Seq<char>, name: Seq<char>)
    requires
        !name.contains('/'),
    ensures
        last_slash(dir + seq!['/'] + name) == dir.len(),
    decreases name.len(),
{
    let path = dir + seq!['/'] + name;
    if name.len() > 0 {
        let front = name.drop_last();
        assert(name.contains(name[name.len() - 1]));
        assert forall|c: int| 0 <= c < front.len() implies front[c] != '/' by {
            assert(name.contains(name[c]));
        }
        lemma_last_slash(dir, front);
        assert(path.drop_last() =~= dir + seq!['/'] + front);
    }
}

/// A text without a slash has one part, itself; a slash splits: the parts of `a/b` are those of
/// `a`, then those of `b`.
pub proof fn law_slashes_split(name: Seq<char>, a: Seq<char>, b: Seq<char>)
    ensures
        !name.contains('/') ==> parts(name) == seq![name],
        parts(a + seq!['/'] + b) == parts(a) + parts(b),
{
    if !name.contains('/') {
        lemma_single_part(name);
    }
    lemma_parts_append(a, b);
}

/// An entry of the root has its name for a path. The path of an entry of another directory
/// starts with the directory, goes on with one slash, and ends with the name.
pub proof fn law_child_path(prefix: Seq<char>, name: Seq<char>)
    ensures
        prefix.len() == 0 ==> child(prefix, name) == name,
        prefix.len() > 0 ==> {
            let rel = child(prefix, name);
            let n = prefix.len() as int;
            &&& rel.len() == n + 1 + name.len()
            &&& rel.take(n) == prefix
            &&& rel[n] == '/'
            &&& rel.skip(n + 1) == name
        },
{
    if prefix.len() > 0 {
        let rel = child(prefix, name);
        let n = prefix.len() as int;
        assert(rel.take(n) =~= prefix);
        assert(rel.skip(n + 1) =~= name);
    }
}

/// What is left alone, letter by letter: unless hidden files are asked for, every path with a dot
/// at its start or right behind a slash, at any depth; and every path that is a listed one, or
/// goes on behind a listed one with a slash, at any depth. The entry `.*` lists nothing.
pub proof fn law_exclusion_letter_by_letter(
    rel: Seq<char>,
    excludes: Seq<Seq<char>>,
    include_hidden: bool,
)
    ensures
        excluded(rel, excludes, include_hidden) <==> {
            ||| !include_hidden && exists|i: int|
                0 <= i < rel.len() && #[trigger] rel[i] == '.' && (i == 0 || rel[i - 1] == '/')
            ||| exists|k: int|
                0 <= k < excludes.len() && #[trigger] excludes[k] != seq!['.', '*'] && {
                    let n = excludes[k].len() as int;
                    ||| rel == excludes[k]
                    ||| n < rel.len() && rel.take(n) == excludes[k] && rel[n] == '/'
                }
        },
{
    lemma_hidden_letter_by_letter(rel);
    reveal_strlit(".*");
    assert(".*"@ =~= seq!['.', '*']);
    assert forall|k: int| 0 <= k < excludes.len() implies rel.subrange(
        0,
        (#[trigger] excludes[k]).len() as int,
    ) == rel.take(excludes[k].len() as int) by {}
    if is_listed(rel, excludes) {
        let k = choose|k: int|
            0 <= k < excludes.len() && (#[trigger] excludes[k]) != ".*"@ && is_at_or_below(
                rel,
                excludes[k],
            );
        assert(excludes[k] != seq!['.', '*']);
    }
    if exists|k: int|
        0 <= k < excludes.len() && #[trigger] excludes[k] != seq!['.', '*'] && {
            let n = excludes[k].len() as int;
            ||| rel == excludes[k]
            ||| n < rel.len() && rel.take(n) == excludes[k] && rel[n] == '/'
        } {
        let k = choose|k: int|
            0 <= k < excludes.len() && #[trigger] excludes[k] != seq!['.', '*'] && {
                let n = excludes[k].len() as int;
                ||| rel == excludes[k]
                ||| n < rel.len() && rel.take(n) == excludes[k] && rel[n] == '/'
            };
        assert(is_at_or_below(rel, excludes[k]));
    }
}

/// A name with a dot at its start is excluded wherever it stands, unless hidden files are asked
/// for; and so is all that is beneath it.
pub proof fn law_dotted_names_are_excluded_at_any_depth(
    dir: Seq<char>,
    name: Seq<char>,
    below: Seq<char>,
    excludes: Seq<Seq<char>>,
)
    requires
        name.len() > 0,
        name[0] == '.',
    ensures
        excluded(name, excludes, false),
        excluded(dir + seq!['/'] + name, excludes, false),
        excluded(dir + seq!['/'] + name + seq!['/'] + below, excludes, false),
{
    law_exclusion_letter_by_letter(name, excludes, false);
    let rel = dir + seq!['/'] + name;
    law_exclusion_letter_by_letter(rel, excludes, false);
    assert(rel[dir.len() as int + 1] == '.');
    law_exclusion_is_inherited(rel, below, excludes, false);
}

proof fn lemma_last_part_empty(s: Seq<char>)
    ensures
        parts(s).len() > 0,
        parts(s).last().len() == 0 <==> s.len() == 0 || s.last() == '/',
    decreases s.len(),
{
    if s.len() > 0 {
        lemma_last_part_empty(s.drop_last());
    }
}

proof fn lemma_hidden_letter_by_letter(s: Seq<char>)
    ensures
        has_hidden_part(s) <==> exists|i: int|
            0 <= i < s.len() && #[trigger] s[i] == '.' && (i == 0 || s[i - 1] == '/'),
    decreases s.len(),
{
    if s.len() == 0 {
        assert forall|k: int| 0 <= k < parts(s).len() implies !is_dotted(#[trigger] parts(s)[k]) by {}
    } else {
        let front = s.drop_last();
        let c = s.last();
        let p = parts(front);
        let n = front.len() as int;
        lemma_hidden_letter_by_letter(front);
        lemma_last_part_empty(front);
        let m = p.len() - 1;
        if has_hidden_part(s) {
            let k = choose|k: int| 0 <= k < parts(s).len() && is_dotted(#[trigger] parts(s)[k]);
            if k < m || (k == m && (c == '/' || p[m].len() > 0)) {
                assert(is_dotted(p[k]));
                let i = choose|i: int|
                    0 <= i < front.len() && #[trigger] front[i] == '.' && (i == 0 || front[i - 1]
                        == '/');
                assert(s[i] == '.' && (i == 0 || s[i - 1] == '/'));
            } else {
                assert(s[n] == '.' && (n == 0 || s[n - 1] == '/'));
            }
        }
        if exists|i: int|
            0 <= i < s.len() && #[trigger] s[i] == '.' && (i == 0 || s[i - 1] == '/') {
            let i = choose|i: int|
                0 <= i < s.len() && #[trigger] s[i] == '.' && (i == 0 || s[i - 1] == '/');
            if i < n {
                assert(front[i] == '.' && (i == 0 || front[i - 1] == '/'));
                let k = choose|k: int| 0 <= k < p.len() && is_dotted(#[trigger] p[k]);
                assert(is_dotted(parts(s)[k]));
            } else {
                assert(p[m].len() == 0);
                assert(is_dotted(parts(s)[m]));
            }
        }
    }
}

/// A path that can be walked down to: not empty, no slash at its ends, none doubled.
pub open spec fn is_plain(s: Seq<char>) -> bool {
    &&& s.len() > 0
    &&& s[0] != '/'
    &&& s[s.len() - 1] != '/'
    &&& forall|i: int| 0 <= i && i + 1 < s.len() ==> !(#[trigger] s[i] == '/' && s[i + 1] == '/')
}

/// The directories above what stands in a directory are the directory itself, last, and before it
/// those above it. There is one for each part: one more than the directory's path has slashes.
pub proof fn law_parents_end_with_the_directory(dir: Seq<char>, name: Seq<char>)
    requires
        is_plain(dir),
        !name.contains('/'),
    ensures
        parents(dir + seq!['/'] + name) == parents(dir) + seq![dir],
        parents(dir + seq!['/'] + name).last() == dir,
        parents(dir + seq!['/'] + name).len() == dir.filter(|c: char| c == '/').len() + 1,
{
    let rel = dir + seq!['/'] + name;
    lemma_parts_append(dir, name);
    lemma_single_part(name);
    let ps = parts(dir);
    assert(parts(rel).drop_last() =~= ps);
    lemma_plain_parts(dir);
    lemma_parts_not_empty(dir);
    assert forall|k: int| 0 <= k < ps.len() implies (#[trigger] ps[k]).len() > 0
        && !ps[k].contains('/') by {
        lemma_parts_hold_no_slash(dir, k);
    }
    lemma_non_empty_of_names(ps);
    let up = ps.drop_last();
    assert forall|k: int| 0 <= k < up.len() implies (#[trigger] up[k]).len() > 0
        && !up[k].contains('/') by {
        assert(up[k] == ps[k]);
    }
    lemma_non_empty_of_names(up);
    lemma_joined_parts(dir);
    assert(descent(ps) == descent(up).push(joined(ps)));
    assert(parents(rel) =~= parents(dir) + seq![dir]);
    lemma_descent_take(ps, 0);
    lemma_part_count(dir);
}

/// What stands at the top has no directory above it. A slash at the start, or a second one behind
/// another, changes nothing, and neither does the name at the end.
pub proof fn law_parents_skip_empty_parts(
    a: Seq<char>,
    b: Seq<char>,
    name: Seq<char>,
    other: Seq<char>,
)
    requires
        !name.contains('/'),
        !other.contains('/'),
    ensures
        parents(name) == Seq::<Seq<char>>::empty(),
        parents(seq!['/'] + b) == parents(b),
        parents(a + seq!['/'] + seq!['/'] + b) == parents(a + seq!['/'] + b),
        parents(a + seq!['/'] + name) == parents(a + seq!['/'] + other),
{
    let none = Seq::<char>::empty();
    let one = seq!['/'];
    lemma_single_part(name);
    lemma_single_part(other);
    assert(parts(name).drop_last() =~= Seq::empty());
    assert(none + one + b =~= one + b);
    lemma_parts_append(none, b);
    lemma_parts_not_empty(b);
    lemma_non_empty_append(parts(none), parts(b).drop_last());
    assert(parts(one + b).drop_last() =~= parts(none) + parts(b).drop_last());
    assert(parts(none).drop_last() =~= Seq::empty());
    assert(non_empty(parts(none)) == Seq::<Seq<char>>::empty()) by {
        reveal_with_fuel(non_empty, 2);
    }
    assert(parents(one + b) =~= parents(b));

    assert(a + one + one + b =~= a + one + (one + b));
    lemma_parts_append(a, one + b);
    lemma_parts_append(a, b);
    let with = parts(a + one + one + b).drop_last();
    let without = parts(a + one + b).drop_last();
    assert(with =~= parts(a) + (parts(none) + parts(b).drop_last()));
    assert(without =~= parts(a) + parts(b).drop_last());
    lemma_non_empty_append(parts(a), parts(none) + parts(b).drop_last());
    lemma_non_empty_append(parts(a), parts(b).drop_last());
    assert(non_empty(with) =~= non_empty(without));

    lemma_parts_append(a, name);
    lemma_parts_append(a, other);
    assert(parts(a + one + name).drop_last() =~= parts(a));
    assert(parts(a + one + other).drop_last() =~= parts(a));
}

proof fn lemma_non_empty_append(x: Seq<Seq<char>>, y: Seq<Seq<char>>)
    ensures
        non_empty(x + y) == non_empty(x) + non_empty(y),
    decreases y.len(),
{
    if y.len() == 0 {
        assert(x + y =~= x);
        assert(non_empty(x) + non_empty(y) =~= non_empty(x));
    } else {
        lemma_non_empty_append(x, y.drop_last());
        assert((x + y).drop_last() =~= x + y.drop_last());
        assert((x + y).last() == y.last());
        assert(non_empty(x + y) =~= non_empty(x) + non_empty(y));
    }
}

proof fn lemma_part_count(s: Seq<char>)
    ensures
        parts(s).len() == s.filter(|c: char| c == '/').len() + 1,
    decreases s.len(),
{
    reveal(Seq::filter);
    if s.len() > 0 {
        lemma_part_count(s.drop_last());
        lemma_parts_not_empty(s.drop_last());
    }
}

proof fn lemma_plain_parts(s: Seq<char>)
    requires
        s.len() > 0,
        s[0] != '/',
        forall|i: int| 0 <= i && i + 1 < s.len() ==> !(#[trigger] s[i] == '/' && s[i + 1] == '/'),
    ensures
        forall|k: int| 0 <= k < parts(s).len() - 1 ==> (#[trigger] parts(s)[k]).len() > 0,
        s[s.len() - 1] != '/' ==> parts(s).last().len() > 0,
    decreases s.len(),
{
    lemma_last_part_empty(s);
    let front = s.drop_last();
    lemma_last_part_empty(front);
    if front.len() > 0 {
        assert forall|i: int| 0 <= i && i + 1 < front.len() implies !(#[trigger] front[i] == '/'
            && front[i + 1] == '/') by {
            assert(front[i] == s[i]);
        }
        lemma_plain_parts(front);
        let p = parts(front);
        assert forall|k: int| 0 <= k < parts(s).len() - 1 implies (#[trigger] parts(s)[k]).len()
            > 0 by {
            if k < p.len() - 1 {
                assert(parts(s)[k] == p[k]);
            } else {
                let j = front.len() - 1;
                assert(s[j] == front[j]);
                assert(parts(s)[k] == p.last());
            }
        }
    } else {
        assert(front =~= Seq::empty());
    }
}

/// A path that does not end with a slash is what is left of it behind which any number of slashes
/// was put.
pub proof fn law_slashes_at_the_end_are_trimmed(s: Seq<char>, slashes: Seq<char>)
    requires
        s.len() == 0 || s[s.len() - 1] != '/',
        forall|i: int| 0 <= i < slashes.len() ==> (#[trigger] slashes[i]) == '/',
    ensures
        trimmed(s + slashes) == s,
{
    lemma_trimmed_slashes(s, slashes);
}

/// A build path that names no directory above it is its own temp dir.
pub proof fn law_temp_dir_of_a_bare_name(name: Seq<char>, slashes: Seq<char>)
    requires
        !name.contains('/'),
        forall|i: int| 0 <= i < slashes.len() ==> (#[trigger] slashes[i]) == '/',
    ensures
        temp_dir(name + slashes) == name,
{
    if name.len() > 0 {
        assert(name.contains(name[name.len() - 1]));
    }
    lemma_trimmed_slashes(name, slashes);
    lemma_no_slash(name);
}

proof fn lemma_no_slash(s: Seq<char>)
    requires
        !s.contains('/'),
    ensures
        last_slash(s) < 0,
    decreases s.len(),
{
    if s.len() > 0 {
        let front = s.drop_last();
        assert(s.contains(s[s.len() - 1]));
        assert forall|c: int| 0 <= c < front.len() implies front[c] != '/' by {
            assert(s.contains(s[c]));
        }
        lemma_no_slash(front);
    }
}

} // verus!

//! `/`-separated relative paths: exclusion rules, parent directories, the remote temp dir.

use vstd::prelude::*;
use vstd::string::StringExecFns;

use crate::text::{from_chars, text_eq, to_chars};

verus! {

// --- parts ---------------------------------------------------------------------------------

/// The parts of `s` between its slashes, empty ones included.
pub open spec fn parts(s: Seq<char>) -> Seq<Seq<char>>
    decreases s.len(),
{
    if s.len() == 0 {
        seq![Seq::empty()]
    } else {
        let p = parts(s.drop_last());
        if s.last() == '/' {
            p.push(Seq::empty())
        } else {
            p.drop_last().push(p.last().push(s.last()))
        }
    }
}

/// The entries of `ps` that are not empty.
pub open spec fn non_empty(ps: Seq<Seq<char>>) -> Seq<Seq<char>>
    decreases ps.len(),
{
    if ps.len() == 0 {
        Seq::empty()
    } else if ps.last().len() == 0 {
        non_empty(ps.drop_last())
    } else {
        non_empty(ps.drop_last()).push(ps.last())
    }
}

/// `cs` with a slash between each two.
pub open spec fn joined(cs: Seq<Seq<char>>) -> Seq<char>
    decreases cs.len(),
{
    if cs.len() == 0 {
        Seq::empty()
    } else if cs.len() == 1 {
        cs[0]
    } else {
        joined(cs.drop_last()) + seq!['/'] + cs.last()
    }
}

/// The path of an entry called `name` in the directory `prefix` (empty for the root).
pub open spec fn child(prefix: Seq<char>, name: Seq<char>) -> Seq<char> {
    if prefix.len() == 0 {
        name
    } else {
        prefix + seq!['/'] + name
    }
}

pub(crate) proof fn lemma_parts_not_empty(s: Seq<char>)
    ensures
        parts(s).len() > 0,
    decreases s.len(),
{
    if s.len() > 0 {
        lemma_parts_not_empty(s.drop_last());
    }
}

/// The path of an entry called `name` in the directory `prefix` (empty for the root).
pub fn child_path(prefix: &str, name: &str) -> (rel: String)
    ensures
        rel@ == child(prefix@, name@),
{
    if prefix.is_empty() {
        name.to_owned()
    } else {
        let mut rel = prefix.to_owned();
        rel.push('/');
        rel.append(name);
        assert(rel@ =~= child(prefix@, name@));
        rel
    }
}

// --- exclusion -----------------------------------------------------------------------------

/// A name that starts with a dot.
pub open spec fn is_dotted(part: Seq<char>) -> bool {
    part.len() > 0 && part[0] == '.'
}

/// Some part of the path starts with a dot.
pub open spec fn has_hidden_part(rel: Seq<char>) -> bool {
    exists|k: int| 0 <= k < parts(rel).len() && is_dotted(#[trigger] parts(rel)[k])
}

/// `rel` is the path `ex` itself or lies beneath it.
pub open spec fn is_at_or_below(rel: Seq<char>, ex: Seq<char>) -> bool {
    ||| rel == ex
    ||| {
        &&& rel.len() > ex.len()
        &&& rel.subrange(0, ex.len() as int) == ex
        &&& rel[ex.len() as int] == '/'
    }
}

/// One of the excludes names `rel` or a directory above it. The entry `.*` names no path.
pub open spec fn is_listed(rel: Seq<char>, excludes: Seq<Seq<char>>) -> bool {
    exists|k: int|
        0 <= k < excludes.len() && (#[trigger] excludes[k]) != ".*"@ && is_at_or_below(
            rel,
            excludes[k],
        )
}

/// The paths that a sync leaves alone: hidden ones at any depth (unless asked for), and those at
/// or below a listed path.
pub open spec fn excluded(
    rel: Seq<char>,
    excludes: Seq<Seq<char>>,
    include_hidden: bool,
) -> bool {
    (!include_hidden && has_hidden_part(rel)) || is_listed(rel, excludes)
}

/// Whether some part of the path starts with a dot.
fn has_hidden(rel: &Vec<char>) -> (res: bool)
    ensures
        res == has_hidden_part(rel@),
{
    let mut at_start = true;
    let mut i: usize = 0;
    proof {
        assert(rel@.take(0) =~= Seq::empty());
        assert forall|k: int| 0 <= k < parts(rel@.take(0)).len() implies !is_dotted(
            #[trigger] parts(rel@.take(0))[k],
        ) by {}
    }
    while i < rel.len()
        invariant
            i <= rel@.len(),
            parts(rel@.take(i as int)).len() > 0,
            at_start == (parts(rel@.take(i as int)).last().len() == 0),
            forall|k: int|
                0 <= k < parts(rel@.take(i as int)).len() ==> !is_dotted(
                    #[trigger] parts(rel@.take(i as int))[k],
                ),
        decreases rel@.len() - i,
    {
        let c = rel[i];
        let ghost before = parts(rel@.take(i as int));
        let ghost after = parts(rel@.take(i + 1));
        assert(rel@.take(i + 1).drop_last() =~= rel@.take(i as int));
        if c == '/' {
            assert(after == before.push(Seq::empty()));
            at_start = true;
        } else {
            assert(after == before.drop_last().push(before.last().push(c)));
            if at_start && c == '.' {
                proof {
                    assert(is_dotted(after.last()));
                    lemma_hidden_grows(rel@, (i + 1) as nat);
                }
                return true;
            }
            assert(!is_dotted(before[before.len() - 1]));
            at_start = false;
        }
        i += 1;
    }
    assert(rel@.take(i as int) =~= rel@);
    false
}

/// A dotted part stays dotted, whatever follows.
proof fn lemma_hidden_grows(s: Seq<char>, n: nat)
    requires
        n <= s.len(),
        has_hidden_part(s.take(n as int)),
    ensures
        has_hidden_part(s),
    decreases s.len() - n,
{
    if n == s.len() {
        assert(s.take(n as int) =~= s);
    } else {
        let a = s.take(n as int);
        let b = s.take((n + 1) as int);
        assert(b.drop_last() =~= a);
        lemma_parts_not_empty(a);
        let k = choose|k: int| 0 <= k < parts(a).len() && is_dotted(#[trigger] parts(a)[k]);
        if k < parts(a).len() - 1 || b.last() == '/' {
            assert(parts(b)[k] == parts(a)[k]);
        } else {
            assert(parts(b)[k] == parts(a)[k].push(b.last()));
        }
        assert(is_dotted(parts(b)[k]));
        lemma_hidden_grows(s, n + 1);
    }
}

/// Whether `rel` is the path `ex` itself or lies beneath it.
fn at_or_below(rel: &Vec<char>, ex: &Vec<char>) -> (res: bool)
    ensures
        res == is_at_or_below(rel@, ex@),
{
    if rel.len() < ex.len() {
        return false;
    }
    let mut i: usize = 0;
    while i < ex.len()
        invariant
            i <= ex@.len() <= rel@.len(),
            rel@.subrange(0, i as int) == ex@.subrange(0, i as int),
        decreases ex@.len() - i,
    {
        if rel[i] != ex[i] {
            assert(rel@.subrange(0, ex@.len() as int)[i as int] != ex@[i as int]);
            return false;
        }
        i += 1;
        assert(rel@.subrange(0, i as int) =~= ex@.subrange(0, i as int));
    }
    assert(ex@.subrange(0, ex@.len() as int) =~= ex@);
    if rel.len() == ex.len() {
        assert(rel@.subrange(0, rel@.len() as int) =~= rel@);
        true
    } else {
        rel[ex.len()] == '/'
    }
}

/// Whether a sync leaves `rel` alone. Hidden components are excluded at any depth (unless
/// `include_hidden`); other excludes are top-level path prefixes (`target` covers `target` and
/// `target/...`, but not `crates/target.rs`). The `.*` sentinel is handled by the hidden check.
pub fn is_excluded(rel: &str, excludes: &[String], include_hidden: bool) -> (res: bool)
    ensures
        res == excluded(rel@, excludes.deep_view(), include_hidden),
{
    let chars = to_chars(rel);
    if !include_hidden && has_hidden(&chars) {
        return true;
    }
    let ghost model = excludes.deep_view();
    let mut i: usize = 0;
    while i < excludes.len()
        invariant
            i <= excludes@.len(),
            model == excludes.deep_view(),
            chars@ == rel@,
            forall|k: int|
                0 <= k < i ==> (#[trigger] model[k]) == ".*"@ || !is_at_or_below(rel@, model[k]),
        decreases excludes@.len() - i,
    {
        let ex = to_chars(excludes[i].as_str());
        assert(model[i as int] == ex@);
        if !text_eq(excludes[i].as_str(), ".*") && at_or_below(&chars, &ex) {
            return true;
        }
        i += 1;
    }
    false
}

// --- parent directories --------------------------------------------------------------------

/// The directories that `cs` descends through: its first entry, its first two joined, and so on.
pub open spec fn descent(cs: Seq<Seq<char>>) -> Seq<Seq<char>>
    decreases cs.len(),
{
    if cs.len() == 0 {
        Seq::empty()
    } else {
        descent(cs.drop_last()).push(joined(cs))
    }
}

/// The directories above `rel`, outermost first. Doubled and leading slashes do not count.
pub open spec fn parents(rel: Seq<char>) -> Seq<Seq<char>> {
    descent(non_empty(parts(rel).drop_last()))
}

/// The directories above `rel`, outermost first.
pub fn parent_dirs(rel: &str) -> (dirs: Vec<String>)
    ensures
        dirs.deep_view() == parents(rel@),
{
    let chars = to_chars(rel);
    let mut dirs: Vec<String> = Vec::new();
    let mut prefix = String::new();
    let mut part = String::new();
    let mut i: usize = 0;
    let ghost mut done: Seq<Seq<char>> = Seq::empty();
    assert(chars@.take(0) =~= Seq::empty());
    assert(parts(chars@.take(0)).drop_last() =~= Seq::empty());
    assert(dirs.deep_view() =~= descent(done));
    while i < chars.len()
        invariant
            i <= chars@.len(),
            parts(chars@.take(i as int)).len() > 0,
            done == non_empty(parts(chars@.take(i as int)).drop_last()),
            part@ == parts(chars@.take(i as int)).last(),
            prefix@ == joined(done),
            prefix@.len() == 0 <==> done.len() == 0,
            dirs.deep_view() == descent(done),
        decreases chars@.len() - i,
    {
        let c = chars[i];
        let ghost before = parts(chars@.take(i as int));
        let ghost after = parts(chars@.take(i + 1));
        assert(chars@.take(i + 1).drop_last() =~= chars@.take(i as int));
        if c == '/' {
            assert(after == before.push(Seq::empty()));
            assert(after.drop_last() =~= before);
            if !part.as_str().is_empty() {
                let ghost longer = done.push(part@);
                assert(longer.drop_last() =~= done);
                if prefix.as_str().is_empty() {
                    prefix = part;
                } else {
                    prefix.push('/');
                    prefix.append(part.as_str());
                }
                assert(prefix@ =~= joined(longer));
                let ghost listed = dirs.deep_view();
                dirs.push(prefix.clone());
                assert(dirs.deep_view() =~= listed.push(prefix@));
                proof {
                    done = longer;
                }
            }
            part = String::new();
        } else {
            assert(after == before.drop_last().push(before.last().push(c)));
            assert(after.drop_last() =~= before.drop_last());
            part.push(c);
        }
        i += 1;
    }
    assert(chars@.take(i as int) =~= chars@);
    dirs
}

// --- the remote temp dir -------------------------------------------------------------------

/// `s` without the slashes at its end.
pub open spec fn trimmed(s: Seq<char>) -> Seq<char>
    decreases s.len(),
{
    if s.len() > 0 && s.last() == '/' {
        trimmed(s.drop_last())
    } else {
        s
    }
}

/// Where the last slash of `s` stands, or -1 where it has none.
pub open spec fn last_slash(s: Seq<char>) -> int
    decreases s.len(),
{
    if s.len() == 0 {
        -1
    } else if s.last() == '/' {
        s.len() - 1
    } else {
        last_slash(s.drop_last())
    }
}

/// The directory that holds the build dir: what stands before the last slash of its trimmed
/// path, or the trimmed path itself where it has no slash.
pub open spec fn temp_dir(build_path: Seq<char>) -> Seq<char> {
    let t = trimmed(build_path);
    if last_slash(t) < 0 {
        t
    } else {
        t.subrange(0, last_slash(t))
    }
}

/// How many characters of `v` are left without the slashes at its end.
fn trimmed_len(v: &Vec<char>) -> (n: usize)
    ensures
        n <= v@.len(),
        v@.take(n as int) == trimmed(v@),
{
    let mut n: usize = v.len();
    assert(v@.take(n as int) =~= v@);
    while n > 0 && v[n - 1] == '/'
        invariant
            n <= v@.len(),
            trimmed(v@.take(n as int)) == trimmed(v@),
        decreases n,
    {
        assert(v@.take(n as int).drop_last() =~= v@.take(n - 1));
        n -= 1;
    }
    n
}

/// `s` without the slashes at its end.
pub fn trim_end_slashes(s: &str) -> (res: String)
    ensures
        res@ == trimmed(s@),
{
    let chars = to_chars(s);
    let n: usize = trimmed_len(&chars);
    assert(chars@.subrange(0, n as int) =~= chars@.take(n as int));
    from_chars(&chars, 0, n)
}

/// The temp dir: the parent of the per-project build dir `<temp_dir>/<hash>/`.
pub fn temp_dir_of(build_path: &str) -> (res: String)
    ensures
        res@ == temp_dir(build_path@),
{
    let chars = to_chars(build_path);
    let n: usize = trimmed_len(&chars);
    let ghost t = trimmed(build_path@);
    let mut k: usize = n;
    assert(t.take(n as int) =~= t);
    while k > 0 && chars[k - 1] != '/'
        invariant
            k <= n <= chars@.len(),
            t == chars@.take(n as int),
            last_slash(t.take(k as int)) == last_slash(t),
        decreases k,
    {
        assert(t.take(k as int).drop_last() =~= t.take(k - 1));
        k -= 1;
    }
    if k == 0 {
        assert(chars@.subrange(0, n as int) =~= t);
        from_chars(&chars, 0, n)
    } else {
        assert(t.take(k as int).last() == '/');
        assert(chars@.subrange(0, k - 1) =~= t.subrange(0, k - 1));
        from_chars(&chars, 0, k - 1)
    }
}

} // verus!

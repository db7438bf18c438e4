//! What a plan does, told by the manifest's and the remote tree's own values.

use vstd::prelude::*;

use crate::path_laws::{is_plain, law_parents_end_with_the_directory};
use crate::paths::parents;
use crate::proto::{FileModel, LinkModel};
use crate::reconcile::{
    add_dirs, add_files, add_links, add_removals, count_done, is_current_file, is_current_link,
    is_local, root_steps, steps_for, uploads_of, walk_failure_text, StepModel, Tally,
};
use crate::reconcile_laws::{
    is_ready, law_plan_is_well_ordered, law_uploads_are_the_stale_files, lemma_files_keep,
    lemma_links_keep, lemma_removals_keep,
};
use crate::seqs::{lemma_drop_last, lemma_push};
use crate::tree::TreeModel;

verus! {

// --- uploads -------------------------------------------------------------------------------

/// The uploads among steps are those that are upload steps, in order, and no others.
pub proof fn law_uploads_among_steps(
    steps: Seq<StepModel>,
    rel: Seq<char>,
    target: Seq<char>,
)
    ensures
        uploads_of(Seq::<StepModel>::empty()) == Seq::<Seq<char>>::empty(),
        uploads_of(steps.push(StepModel::Upload(rel))) == uploads_of(steps).push(rel),
        uploads_of(steps.push(StepModel::MakeRoot)) == uploads_of(steps),
        uploads_of(steps.push(StepModel::MakeDir(rel))) == uploads_of(steps),
        uploads_of(steps.push(StepModel::Relink { rel, target })) == uploads_of(steps),
        uploads_of(steps.push(StepModel::Remove(rel))) == uploads_of(steps),
{
    lemma_push(steps, StepModel::Upload(rel));
    lemma_push(steps, StepModel::MakeRoot);
    lemma_push(steps, StepModel::MakeDir(rel));
    lemma_push(steps, StepModel::Relink { rel, target });
    lemma_push(steps, StepModel::Remove(rel));
}

/// File by file: without files nothing is uploaded, and one more file in the manifest means one
/// more upload, at the end, unless the remote has a file of that path with the same size and the
/// same modification second.
pub proof fn law_uploads_file_by_file(
    tree: TreeModel,
    prune: bool,
    files: Seq<FileModel>,
    links: Seq<LinkModel>,
    f: FileModel,
)
    ensures
        uploads_of(steps_for(tree, prune, Seq::empty(), links)) == Seq::<Seq<char>>::empty(),
        uploads_of(steps_for(tree, prune, files.push(f), links)) == (if tree.files.contains_key(
            f.rel,
        ) && tree.files[f.rel].size == f.size && tree.files[f.rel].mtime == f.mtime {
            uploads_of(steps_for(tree, prune, files, links))
        } else {
            uploads_of(steps_for(tree, prune, files, links)).push(f.rel)
        }),
{
    law_uploads_are_the_stale_files(tree, prune, Seq::empty(), links);
    law_uploads_are_the_stale_files(tree, prune, files.push(f), links);
    law_uploads_are_the_stale_files(tree, prune, files, links);
    assert(files.push(f).drop_last() =~= files);
}

// --- symlinks ------------------------------------------------------------------------------

/// The symlinks that steps put in place, in order.
pub open spec fn relinks_of(steps: Seq<StepModel>) -> Seq<LinkModel>
    decreases steps.len(),
{
    if steps.len() == 0 {
        Seq::empty()
    } else {
        match steps.last() {
            StepModel::Relink { rel, target } => relinks_of(steps.drop_last()).push(
                LinkModel { rel, target },
            ),
            _ => relinks_of(steps.drop_last()),
        }
    }
}

/// Symlink by symlink: one more symlink in the manifest is one more to put in place, at the end
/// and with the manifest's target, unless the remote has a symlink of that path with that target.
pub proof fn law_symlinks_one_by_one(
    tree: TreeModel,
    prune: bool,
    files: Seq<FileModel>,
    links: Seq<LinkModel>,
    l: LinkModel,
)
    ensures
        relinks_of(steps_for(tree, prune, files, Seq::empty())) == Seq::<LinkModel>::empty(),
        relinks_of(steps_for(tree, prune, files, links.push(l))) == (if tree.links.contains_key(
            l.rel,
        ) && tree.links[l.rel] == l.target {
            relinks_of(steps_for(tree, prune, files, links))
        } else {
            relinks_of(steps_for(tree, prune, files, links)).push(l)
        }),
{
    lemma_relinks_of_plan(tree, prune, files, Seq::empty());
    lemma_relinks_of_plan(tree, prune, files, links);
    lemma_relinks_of_plan(tree, prune, files, links.push(l));
    assert(links.push(l).drop_last() =~= links);
}

spec fn stale_links(tree: TreeModel, links: Seq<LinkModel>) -> Seq<LinkModel>
    decreases links.len(),
{
    if links.len() == 0 {
        Seq::empty()
    } else if is_current_link(tree, links.last()) {
        stale_links(tree, links.drop_last())
    } else {
        stale_links(tree, links.drop_last()).push(links.last())
    }
}

proof fn lemma_relinks_of_dirs(steps: Seq<StepModel>, dirs: Seq<Seq<char>>)
    ensures
        relinks_of(add_dirs(steps, dirs)) == relinks_of(steps),
    decreases dirs.len(),
{
    if dirs.len() > 0 {
        lemma_relinks_of_dirs(steps, dirs.drop_last());
        lemma_push(add_dirs(steps, dirs.drop_last()), StepModel::MakeDir(dirs.last()));
    }
}

proof fn lemma_relinks_of_files(steps: Seq<StepModel>, tree: TreeModel, files: Seq<FileModel>)
    ensures
        relinks_of(add_files(steps, tree, files)) == relinks_of(steps),
    decreases files.len(),
{
    if files.len() > 0 {
        let f = files.last();
        lemma_relinks_of_files(steps, tree, files.drop_last());
        let before = add_files(steps, tree, files.drop_last());
        lemma_relinks_of_dirs(before, parents(f.rel));
        lemma_push(add_dirs(before, parents(f.rel)), StepModel::Upload(f.rel));
    }
}

proof fn lemma_relinks_of_links(steps: Seq<StepModel>, tree: TreeModel, links: Seq<LinkModel>)
    ensures
        relinks_of(add_links(steps, tree, links)) == relinks_of(steps) + stale_links(tree, links),
    decreases links.len(),
{
    if links.len() == 0 {
        assert(relinks_of(steps) + stale_links(tree, links) =~= relinks_of(steps));
    } else {
        let l = links.last();
        let front = links.drop_last();
        lemma_relinks_of_links(steps, tree, front);
        let before = add_links(steps, tree, front);
        lemma_relinks_of_dirs(before, parents(l.rel));
        lemma_push(
            add_dirs(before, parents(l.rel)),
            StepModel::Relink { rel: l.rel, target: l.target },
        );
        assert(relinks_of(steps) + stale_links(tree, front).push(l) =~= (relinks_of(steps)
            + stale_links(tree, front)).push(l));
    }
}

proof fn lemma_relinks_of_removals(
    steps: Seq<StepModel>,
    files: Seq<FileModel>,
    links: Seq<LinkModel>,
    paths: Seq<Seq<char>>,
)
    ensures
        relinks_of(add_removals(steps, files, links, paths)) == relinks_of(steps),
    decreases paths.len(),
{
    if paths.len() > 0 {
        lemma_relinks_of_removals(steps, files, links, paths.drop_last());
        lemma_push(
            add_removals(steps, files, links, paths.drop_last()),
            StepModel::Remove(paths.last()),
        );
    }
}

proof fn lemma_relinks_of_plan(
    tree: TreeModel,
    prune: bool,
    files: Seq<FileModel>,
    links: Seq<LinkModel>,
)
    ensures
        relinks_of(steps_for(tree, prune, files, links)) == stale_links(tree, links),
{
    let s0 = root_steps(tree, files, links);
    let s1 = add_files(s0, tree, files);
    let s2 = add_links(s1, tree, links);
    let s3 = add_removals(s2, files, links, tree.file_list);
    assert(relinks_of(s0) == Seq::<LinkModel>::empty()) by {
        reveal_with_fuel(relinks_of, 2);
        assert(s0.len() > 0 ==> s0.drop_last() =~= Seq::empty());
    }
    lemma_relinks_of_files(s0, tree, files);
    lemma_relinks_of_links(s1, tree, links);
    lemma_relinks_of_removals(s2, files, links, tree.file_list);
    lemma_relinks_of_removals(s3, files, links, tree.link_list);
    assert(relinks_of(s1) + stale_links(tree, links) =~= stale_links(tree, links));
}

// --- removals ------------------------------------------------------------------------------

/// The paths that steps remove, in order.
pub open spec fn removals_of(steps: Seq<StepModel>) -> Seq<Seq<char>>
    decreases steps.len(),
{
    if steps.len() == 0 {
        Seq::empty()
    } else {
        match steps.last() {
            StepModel::Remove(rel) => removals_of(steps.drop_last()).push(rel),
            _ => removals_of(steps.drop_last()),
        }
    }
}

/// The manifest has no file and no symlink of this path.
pub open spec fn is_foreign(
    files: Seq<FileModel>,
    links: Seq<LinkModel>,
    rel: Seq<char>,
) -> bool {
    &&& forall|i: int| 0 <= i < files.len() ==> (#[trigger] files[i]).rel != rel
    &&& forall|i: int| 0 <= i < links.len() ==> (#[trigger] links[i]).rel != rel
}

/// With pruning, what is removed is each file of the remote tree, then each symlink, that the
/// manifest does not have, once for each time that it is listed; without, nothing.
pub proof fn law_removals_are_the_foreign_paths(
    tree: TreeModel,
    files: Seq<FileModel>,
    links: Seq<LinkModel>,
)
    ensures
        removals_of(steps_for(tree, false, files, links)) == Seq::<Seq<char>>::empty(),
        removals_of(steps_for(tree, true, files, links)) == tree.file_list.filter(
            |rel: Seq<char>| is_foreign(files, links, rel),
        ) + tree.link_list.filter(|rel: Seq<char>| is_foreign(files, links, rel)),
{
    let s0 = root_steps(tree, files, links);
    let s1 = add_files(s0, tree, files);
    let s2 = add_links(s1, tree, links);
    let s3 = add_removals(s2, files, links, tree.file_list);
    let foreign = |rel: Seq<char>| is_foreign(files, links, rel);
    assert(removals_of(s0) == Seq::<Seq<char>>::empty()) by {
        reveal_with_fuel(removals_of, 2);
        assert(s0.len() > 0 ==> s0.drop_last() =~= Seq::empty());
    }
    lemma_removals_of_files(s0, tree, files);
    lemma_removals_of_links(s1, tree, links);
    lemma_removals_of_removals(s2, files, links, tree.file_list);
    lemma_removals_of_removals(s3, files, links, tree.link_list);
    assert(removals_of(s2) + tree.file_list.filter(foreign) =~= tree.file_list.filter(foreign));
}

proof fn lemma_removals_of_dirs(steps: Seq<StepModel>, dirs: Seq<Seq<char>>)
    ensures
        removals_of(add_dirs(steps, dirs)) == removals_of(steps),
    decreases dirs.len(),
{
    if dirs.len() > 0 {
        lemma_removals_of_dirs(steps, dirs.drop_last());
        lemma_push(add_dirs(steps, dirs.drop_last()), StepModel::MakeDir(dirs.last()));
    }
}

proof fn lemma_removals_of_files(steps: Seq<StepModel>, tree: TreeModel, files: Seq<FileModel>)
    ensures
        removals_of(add_files(steps, tree, files)) == removals_of(steps),
    decreases files.len(),
{
    if files.len() > 0 {
        let f = files.last();
        lemma_removals_of_files(steps, tree, files.drop_last());
        let before = add_files(steps, tree, files.drop_last());
        lemma_removals_of_dirs(before, parents(f.rel));
        lemma_push(add_dirs(before, parents(f.rel)), StepModel::Upload(f.rel));
    }
}

proof fn lemma_removals_of_links(steps: Seq<StepModel>, tree: TreeModel, links: Seq<LinkModel>)
    ensures
        removals_of(add_links(steps, tree, links)) == removals_of(steps),
    decreases links.len(),
{
    if links.len() > 0 {
        let l = links.last();
        lemma_removals_of_links(steps, tree, links.drop_last());
        let before = add_links(steps, tree, links.drop_last());
        lemma_removals_of_dirs(before, parents(l.rel));
        lemma_push(
            add_dirs(before, parents(l.rel)),
            StepModel::Relink { rel: l.rel, target: l.target },
        );
    }
}

proof fn lemma_removals_of_removals(
    steps: Seq<StepModel>,
    files: Seq<FileModel>,
    links: Seq<LinkModel>,
    paths: Seq<Seq<char>>,
)
    ensures
        removals_of(add_removals(steps, files, links, paths)) == removals_of(steps) + paths.filter(
            |rel: Seq<char>| is_foreign(files, links, rel),
        ),
    decreases paths.len(),
{
    let foreign = |rel: Seq<char>| is_foreign(files, links, rel);
    reveal(Seq::filter);
    if paths.len() == 0 {
        assert(removals_of(steps) + paths.filter(foreign) =~= removals_of(steps));
    } else {
        let front = paths.drop_last();
        lemma_removals_of_removals(steps, files, links, front);
        lemma_push(add_removals(steps, files, links, front), StepModel::Remove(paths.last()));
        assert(is_local(files, links, paths.last()) <==> !foreign(paths.last()));
        assert(removals_of(steps) + front.filter(foreign).push(paths.last()) =~= (removals_of(steps)
            + front.filter(foreign)).push(paths.last()));
    }
}

// --- directories ---------------------------------------------------------------------------

/// The remote does not have the file as the manifest lists it.
pub open spec fn must_be_sent(tree: TreeModel, f: FileModel) -> bool {
    !(tree.files.contains_key(f.rel) && tree.files[f.rel].size == f.size
        && tree.files[f.rel].mtime == f.mtime)
}

/// The remote does not have the symlink as the manifest lists it.
pub open spec fn must_be_linked(tree: TreeModel, l: LinkModel) -> bool {
    !(tree.links.contains_key(l.rel) && tree.links[l.rel] == l.target)
}

/// A plan makes the directories above the files to upload and the symlinks to put in place, and
/// no others.
pub proof fn law_directories_are_the_ones_needed(
    tree: TreeModel,
    prune: bool,
    files: Seq<FileModel>,
    links: Seq<LinkModel>,
    dir: Seq<char>,
)
    ensures
        steps_for(tree, prune, files, links).contains(StepModel::MakeDir(dir)) <==> {
            ||| exists|i: int|
                0 <= i < files.len() && must_be_sent(tree, #[trigger] files[i]) && parents(
                    files[i].rel,
                ).contains(dir)
            ||| exists|i: int|
                0 <= i < links.len() && must_be_linked(tree, #[trigger] links[i]) && parents(
                    links[i].rel,
                ).contains(dir)
        },
{
    let x = StepModel::MakeDir(dir);
    let s0 = root_steps(tree, files, links);
    let s1 = add_files(s0, tree, files);
    let s2 = add_links(s1, tree, links);
    let s3 = add_removals(s2, files, links, tree.file_list);
    assert(!s0.contains(x));
    lemma_files_make(s0, tree, files, dir);
    lemma_links_make(s1, tree, links, dir);
    lemma_removals_keep(s2, files, links, tree.file_list, x);
    lemma_removals_keep(s3, files, links, tree.link_list, x);
}

proof fn lemma_dirs_make(steps: Seq<StepModel>, dirs: Seq<Seq<char>>, dir: Seq<char>)
    ensures
        add_dirs(steps, dirs).contains(StepModel::MakeDir(dir)) <==> steps.contains(
            StepModel::MakeDir(dir),
        ) || dirs.contains(dir),
    decreases dirs.len(),
{
    if dirs.len() > 0 {
        lemma_dirs_make(steps, dirs.drop_last(), dir);
        lemma_push(add_dirs(steps, dirs.drop_last()), StepModel::MakeDir(dirs.last()));
        lemma_drop_last(dirs);
    }
}

proof fn lemma_files_make(
    steps: Seq<StepModel>,
    tree: TreeModel,
    files: Seq<FileModel>,
    dir: Seq<char>,
)
    ensures
        add_files(steps, tree, files).contains(StepModel::MakeDir(dir)) <==> steps.contains(
            StepModel::MakeDir(dir),
        ) || exists|i: int|
            0 <= i < files.len() && must_be_sent(tree, #[trigger] files[i]) && parents(
                files[i].rel,
            ).contains(dir),
    decreases files.len(),
{
    if files.len() > 0 {
        let front = files.drop_last();
        let n = front.len() as int;
        let f = files[n];
        lemma_files_make(steps, tree, front, dir);
        let before = add_files(steps, tree, front);
        lemma_dirs_make(before, parents(f.rel), dir);
        lemma_push(add_dirs(before, parents(f.rel)), StepModel::Upload(f.rel));
        assert(is_current_file(tree, f) <==> !must_be_sent(tree, f));
        if exists|i: int|
            0 <= i < front.len() && must_be_sent(tree, #[trigger] front[i]) && parents(
                front[i].rel,
            ).contains(dir) {
            let i = choose|i: int|
                0 <= i < front.len() && must_be_sent(tree, #[trigger] front[i]) && parents(
                    front[i].rel,
                ).contains(dir);
            assert(must_be_sent(tree, files[i]));
        }
        if exists|i: int|
            0 <= i < files.len() && must_be_sent(tree, #[trigger] files[i]) && parents(
                files[i].rel,
            ).contains(dir) {
            let i = choose|i: int|
                0 <= i < files.len() && must_be_sent(tree, #[trigger] files[i]) && parents(
                    files[i].rel,
                ).contains(dir);
            if i < n {
                assert(must_be_sent(tree, front[i]));
            }
        }
    }
}

proof fn lemma_links_make(
    steps: Seq<StepModel>,
    tree: TreeModel,
    links: Seq<LinkModel>,
    dir: Seq<char>,
)
    ensures
        add_links(steps, tree, links).contains(StepModel::MakeDir(dir)) <==> steps.contains(
            StepModel::MakeDir(dir),
        ) || exists|i: int|
            0 <= i < links.len() && must_be_linked(tree, #[trigger] links[i]) && parents(
                links[i].rel,
            ).contains(dir),
    decreases links.len(),
{
    if links.len() > 0 {
        let front = links.drop_last();
        let n = front.len() as int;
        let l = links[n];
        lemma_links_make(steps, tree, front, dir);
        let before = add_links(steps, tree, front);
        lemma_dirs_make(before, parents(l.rel), dir);
        lemma_push(
            add_dirs(before, parents(l.rel)),
            StepModel::Relink { rel: l.rel, target: l.target },
        );
        assert(is_current_link(tree, l) <==> !must_be_linked(tree, l));
        if exists|i: int|
            0 <= i < front.len() && must_be_linked(tree, #[trigger] front[i]) && parents(
                front[i].rel,
            ).contains(dir) {
            let i = choose|i: int|
                0 <= i < front.len() && must_be_linked(tree, #[trigger] front[i]) && parents(
                    front[i].rel,
                ).contains(dir);
            assert(must_be_linked(tree, links[i]));
        }
        if exists|i: int|
            0 <= i < links.len() && must_be_linked(tree, #[trigger] links[i]) && parents(
                links[i].rel,
            ).contains(dir) {
            let i = choose|i: int|
                0 <= i < links.len() && must_be_linked(tree, #[trigger] links[i]) && parents(
                    links[i].rel,
                ).contains(dir);
            if i < n {
                assert(must_be_linked(tree, front[i]));
            }
        }
    }
}

/// No directory is made twice.
pub proof fn law_each_directory_is_made_once(
    tree: TreeModel,
    prune: bool,
    files: Seq<FileModel>,
    links: Seq<LinkModel>,
    i: int,
    j: int,
)
    requires
        0 <= i < j < steps_for(tree, prune, files, links).len(),
        steps_for(tree, prune, files, links)[i] is MakeDir,
    ensures
        steps_for(tree, prune, files, links)[j] != steps_for(tree, prune, files, links)[i],
{
    let steps = steps_for(tree, prune, files, links);
    law_plan_is_well_ordered(tree, prune, files, links);
    assert(is_ready(tree.has_root, steps.take(j), steps[j]));
    assert(steps.take(j)[i] == steps[i]);
}

/// Before a file is uploaded or a symlink put in place, the very directory that holds it is made,
/// and the one that holds that, and so on: at any depth.
pub proof fn law_holding_directory_is_made_first(
    tree: TreeModel,
    prune: bool,
    files: Seq<FileModel>,
    links: Seq<LinkModel>,
    i: int,
    dir: Seq<char>,
    name: Seq<char>,
)
    requires
        0 <= i < steps_for(tree, prune, files, links).len(),
        is_plain(dir),
        !name.contains('/'),
        ({
            let step = steps_for(tree, prune, files, links)[i];
            let rel = dir + seq!['/'] + name;
            ||| step == StepModel::Upload(rel)
            ||| step == StepModel::MakeDir(rel)
            ||| step matches StepModel::Relink { rel: r, .. } && r == rel
        }),
    ensures
        exists|j: int|
            0 <= j < i && #[trigger] steps_for(tree, prune, files, links)[j] == StepModel::MakeDir(
                dir,
            ),
{
    let steps = steps_for(tree, prune, files, links);
    let rel = dir + seq!['/'] + name;
    law_plan_is_well_ordered(tree, prune, files, links);
    law_parents_end_with_the_directory(dir, name);
    assert(is_ready(tree.has_root, steps.take(i), steps[i]));
    let k = parents(rel).len() - 1;
    assert(parents(rel)[k] == dir);
    assert(steps.take(i).contains(StepModel::MakeDir(parents(rel)[k])));
    let j = choose|j: int|
        0 <= j < steps.take(i).len() && steps.take(i)[j] == StepModel::MakeDir(dir);
    assert(steps[j] == StepModel::MakeDir(dir));
}

/// The build root is made where it is missing and the manifest holds anything, first of all and
/// only once; otherwise never.
pub proof fn law_root_is_made_first(
    tree: TreeModel,
    prune: bool,
    files: Seq<FileModel>,
    links: Seq<LinkModel>,
)
    ensures
        ({
            let steps = steps_for(tree, prune, files, links);
            let needed = !tree.has_root && (files.len() > 0 || links.len() > 0);
            &&& needed ==> steps.len() > 0 && steps[0] is MakeRoot
            &&& forall|i: int|
                0 <= i < steps.len() && #[trigger] steps[i] is MakeRoot ==> needed && i == 0
        }),
{
    let steps = steps_for(tree, prune, files, links);
    let s0 = root_steps(tree, files, links);
    let s1 = add_files(s0, tree, files);
    let s2 = add_links(s1, tree, links);
    let s3 = add_removals(s2, files, links, tree.file_list);
    let x = StepModel::MakeRoot;
    lemma_files_keep(s0, tree, files, x);
    lemma_links_keep(s1, tree, links, x);
    lemma_removals_keep(s2, files, links, tree.file_list, x);
    lemma_removals_keep(s3, files, links, tree.link_list, x);
    lemma_files_extend(s0, tree, files);
    lemma_links_extend(s1, tree, links);
    lemma_removals_extend(s2, files, links, tree.file_list);
    lemma_removals_extend(s3, files, links, tree.link_list);
    law_plan_is_well_ordered(tree, prune, files, links);
    if s0.len() > 0 {
        assert(steps[0] == s0[0]);
    }
    assert forall|i: int| 0 <= i < steps.len() && #[trigger] steps[i] is MakeRoot implies !tree.has_root
        && (files.len() > 0 || links.len() > 0) && i == 0 by {
        assert(steps.contains(x));
        assert(s0.contains(x));
        assert(is_ready(tree.has_root, steps.take(i), steps[i]));
        if i > 0 {
            assert(steps.take(i)[0] == x);
        }
    }
}

/// `long` starts with `short`.
spec fn extends(short: Seq<StepModel>, long: Seq<StepModel>) -> bool {
    short.len() <= long.len() && forall|i: int| 0 <= i < short.len() ==> #[trigger] long[i]
        == short[i]
}

proof fn lemma_dirs_extend(steps: Seq<StepModel>, dirs: Seq<Seq<char>>)
    ensures
        extends(steps, add_dirs(steps, dirs)),
    decreases dirs.len(),
{
    if dirs.len() > 0 {
        lemma_dirs_extend(steps, dirs.drop_last());
    }
}

proof fn lemma_files_extend(steps: Seq<StepModel>, tree: TreeModel, files: Seq<FileModel>)
    ensures
        extends(steps, add_files(steps, tree, files)),
    decreases files.len(),
{
    if files.len() > 0 {
        lemma_files_extend(steps, tree, files.drop_last());
        lemma_dirs_extend(
            add_files(steps, tree, files.drop_last()),
            parents(files.last().rel),
        );
    }
}

proof fn lemma_links_extend(steps: Seq<StepModel>, tree: TreeModel, links: Seq<LinkModel>)
    ensures
        extends(steps, add_links(steps, tree, links)),
    decreases links.len(),
{
    if links.len() > 0 {
        lemma_links_extend(steps, tree, links.drop_last());
        lemma_dirs_extend(
            add_links(steps, tree, links.drop_last()),
            parents(links.last().rel),
        );
    }
}

proof fn lemma_removals_extend(
    steps: Seq<StepModel>,
    files: Seq<FileModel>,
    links: Seq<LinkModel>,
    paths: Seq<Seq<char>>,
)
    ensures
        extends(steps, add_removals(steps, files, links, paths)),
    decreases paths.len(),
{
    if paths.len() > 0 {
        lemma_removals_extend(steps, files, links, paths.drop_last());
    }
}

// --- order ---------------------------------------------------------------------------------

/// Uploads come before symlinks, and removals come last.
pub open spec fn in_order(steps: Seq<StepModel>) -> bool {
    forall|i: int, j: int|
        0 <= i < j < steps.len() ==> {
            &&& #[trigger] steps[i] is Remove ==> #[trigger] steps[j] is Remove
            &&& steps[i] is Relink ==> !(steps[j] is Upload)
        }
}

pub proof fn law_uploads_then_symlinks_then_removals(
    tree: TreeModel,
    prune: bool,
    files: Seq<FileModel>,
    links: Seq<LinkModel>,
)
    ensures
        in_order(steps_for(tree, prune, files, links)),
{
    let s0 = root_steps(tree, files, links);
    let s1 = add_files(s0, tree, files);
    let s2 = add_links(s1, tree, links);
    let s3 = add_removals(s2, files, links, tree.file_list);
    lemma_files_in_order(s0, tree, files);
    lemma_links_in_order(s1, tree, links);
    lemma_removals_in_order(s2, files, links, tree.file_list);
    lemma_removals_in_order(s3, files, links, tree.link_list);
}

spec fn no_removal(steps: Seq<StepModel>) -> bool {
    forall|i: int| 0 <= i < steps.len() ==> !(#[trigger] steps[i] is Remove)
}

spec fn no_relink(steps: Seq<StepModel>) -> bool {
    forall|i: int| 0 <= i < steps.len() ==> !(#[trigger] steps[i] is Relink)
}

proof fn lemma_dirs_in_order(steps: Seq<StepModel>, dirs: Seq<Seq<char>>)
    requires
        no_removal(steps),
        in_order(steps),
    ensures
        no_removal(add_dirs(steps, dirs)),
        in_order(add_dirs(steps, dirs)),
        no_relink(steps) ==> no_relink(add_dirs(steps, dirs)),
    decreases dirs.len(),
{
    if dirs.len() > 0 {
        lemma_dirs_in_order(steps, dirs.drop_last());
    }
}

proof fn lemma_files_in_order(steps: Seq<StepModel>, tree: TreeModel, files: Seq<FileModel>)
    requires
        no_removal(steps),
        no_relink(steps),
        in_order(steps),
    ensures
        no_removal(add_files(steps, tree, files)),
        no_relink(add_files(steps, tree, files)),
        in_order(add_files(steps, tree, files)),
    decreases files.len(),
{
    if files.len() > 0 {
        lemma_files_in_order(steps, tree, files.drop_last());
        lemma_dirs_in_order(
            add_files(steps, tree, files.drop_last()),
            parents(files.last().rel),
        );
    }
}

proof fn lemma_links_in_order(steps: Seq<StepModel>, tree: TreeModel, links: Seq<LinkModel>)
    requires
        no_removal(steps),
        in_order(steps),
    ensures
        no_removal(add_links(steps, tree, links)),
        in_order(add_links(steps, tree, links)),
    decreases links.len(),
{
    if links.len() > 0 {
        lemma_links_in_order(steps, tree, links.drop_last());
        lemma_dirs_in_order(
            add_links(steps, tree, links.drop_last()),
            parents(links.last().rel),
        );
    }
}

proof fn lemma_removals_in_order(
    steps: Seq<StepModel>,
    files: Seq<FileModel>,
    links: Seq<LinkModel>,
    paths: Seq<Seq<char>>,
)
    requires
        in_order(steps),
    ensures
        in_order(add_removals(steps, files, links, paths)),
    decreases paths.len(),
{
    if paths.len() > 0 {
        lemma_removals_in_order(steps, files, links, paths.drop_last());
    }
}

/// The answer where the tree could not be read is an error that ends with the reason.
pub proof fn law_walk_failure_gives_the_reason(error: Seq<char>)
    ensures
        walk_failure_text(error) == "failed to read remote build tree: "@ + error,
{
}

// --- counters ------------------------------------------------------------------------------

/// Step by step: a counter grows by one where a step of its kind succeeded, and not otherwise. A
/// made root or directory counts as a directory, a symlink put in place as a link, a removal as a
/// removal, and an upload as nothing.
pub proof fn law_counters_step_by_step(
    tally: Tally,
    steps: Seq<StepModel>,
    done: Seq<bool>,
    step: StepModel,
    ok: bool,
)
    requires
        steps.len() == done.len(),
    ensures
        count_done(tally, Seq::empty(), done) == 0,
        count_done(tally, steps.push(step), done.push(ok)) == count_done(tally, steps, done) + (
        if ok && (match (tally, step) {
            (Tally::Dirs, StepModel::MakeRoot) => true,
            (Tally::Dirs, StepModel::MakeDir(_)) => true,
            (Tally::Links, StepModel::Relink { .. }) => true,
            (Tally::Removals, StepModel::Remove(_)) => true,
            _ => false,
        }) {
            1nat
        } else {
            0nat
        }),
{
    lemma_push(steps, step);
    lemma_count_prefix(tally, steps, done, done.push(ok));
}

proof fn lemma_count_prefix(tally: Tally, steps: Seq<StepModel>, a: Seq<bool>, b: Seq<bool>)
    requires
        steps.len() <= a.len(),
        steps.len() <= b.len(),
        forall|i: int| 0 <= i < steps.len() ==> #[trigger] a[i] == b[i],
    ensures
        count_done(tally, steps, a) == count_done(tally, steps, b),
    decreases steps.len(),
{
    if steps.len() > 0 {
        lemma_count_prefix(tally, steps.drop_last(), a, b);
        assert(a[steps.len() - 1] == b[steps.len() - 1]);
    }
}

/// Where every step succeeds, the counters and the uploads account for all of them.
pub proof fn law_counters_add_up(steps: Seq<StepModel>, done: Seq<bool>)
    requires
        steps.len() <= done.len(),
        forall|i: int| 0 <= i < steps.len() ==> #[trigger] done[i],
    ensures
        count_done(Tally::Dirs, steps, done) + count_done(Tally::Links, steps, done) + count_done(
            Tally::Removals,
            steps,
            done,
        ) + uploads_of(steps).len() == steps.len(),
    decreases steps.len(),
{
    if steps.len() > 0 {
        law_counters_add_up(steps.drop_last(), done);
        assert(done[steps.len() - 1]);
    }
}

} // verus!

//! What holds of every reconciliation plan.

use vstd::prelude::*;

use crate::path_laws::law_parents_are_a_chain;
use crate::paths::parents;
use crate::proto::{FileModel, LinkModel};
use crate::reconcile::{
    add_dirs, add_files, add_links, add_removals, is_current_file, is_current_link, is_local,
    root_steps, steps_for, uploads_of, StepModel,
};
use crate::seqs::{lemma_drop_last, lemma_push};
use crate::tree::TreeModel;

verus! {

/// The paths of the files whose remote copy is absent or differs, in manifest order.
pub open spec fn stale_files(tree: TreeModel, files: Seq<FileModel>) -> Seq<Seq<char>>
    decreases files.len(),
{
    if files.len() == 0 {
        Seq::empty()
    } else {
        let front = stale_files(tree, files.drop_last());
        if is_current_file(tree, files.last()) {
            front
        } else {
            front.push(files.last().rel)
        }
    }
}

/// The remote tree holds what the manifest lists, as it lists it.
pub open spec fn is_current(tree: TreeModel, files: Seq<FileModel>, links: Seq<LinkModel>) -> bool {
    &&& forall|i: int| 0 <= i < files.len() ==> is_current_file(tree, #[trigger] files[i])
    &&& forall|i: int| 0 <= i < links.len() ==> is_current_link(tree, #[trigger] links[i])
}

/// The remote tree holds what the manifest lists, as it lists it, and nothing else.
pub open spec fn mirrors(tree: TreeModel, files: Seq<FileModel>, links: Seq<LinkModel>) -> bool {
    &&& is_current(tree, files, links)
    &&& forall|i: int|
        0 <= i < tree.file_list.len() ==> is_local(files, links, #[trigger] tree.file_list[i])
    &&& forall|i: int|
        0 <= i < tree.link_list.len() ==> is_local(files, links, #[trigger] tree.link_list[i])
}

/// The build root is there, or made by `steps`.
pub open spec fn root_made(has_root: bool, steps: Seq<StepModel>) -> bool {
    has_root || steps.contains(StepModel::MakeRoot)
}

/// The build root is there or made by `steps`, and so is every directory above `rel`.
pub open spec fn parents_made(has_root: bool, steps: Seq<StepModel>, rel: Seq<char>) -> bool {
    &&& root_made(has_root, steps)
    &&& forall|k: int|
        0 <= k < parents(rel).len() ==> steps.contains(
            StepModel::MakeDir(#[trigger] parents(rel)[k]),
        )
}

/// `step` can be taken once `before` was: the root and its parent directories are made, and
/// neither the root nor a directory is made a second time.
pub open spec fn is_ready(has_root: bool, before: Seq<StepModel>, step: StepModel) -> bool {
    match step {
        StepModel::MakeRoot => !root_made(has_root, before),
        StepModel::MakeDir(dir) => !before.contains(step) && parents_made(has_root, before, dir),
        StepModel::Upload(rel) => parents_made(has_root, before, rel),
        StepModel::Relink { rel, .. } => parents_made(has_root, before, rel),
        StepModel::Remove(_) => true,
    }
}

pub open spec fn well_ordered(has_root: bool, steps: Seq<StepModel>) -> bool {
    forall|i: int| 0 <= i < steps.len() ==> is_ready(has_root, steps.take(i), #[trigger] steps[i])
}

// --- the laws ------------------------------------------------------------------------------

/// The host is asked for exactly the files whose size or mtime differ on the remote or that are
/// absent there, in manifest order.
pub proof fn law_uploads_are_the_stale_files(
    tree: TreeModel,
    prune: bool,
    files: Seq<FileModel>,
    links: Seq<LinkModel>,
)
    ensures
        uploads_of(steps_for(tree, prune, files, links)) == stale_files(tree, files),
{
    let s0 = root_steps(tree, files, links);
    let s1 = add_files(s0, tree, files);
    let s2 = add_links(s1, tree, links);
    let s3 = add_removals(s2, files, links, tree.file_list);
    assert(uploads_of(s0) == Seq::<Seq<char>>::empty()) by {
        reveal_with_fuel(uploads_of, 2);
        assert(s0.len() > 0 ==> s0.drop_last() =~= Seq::empty());
    }
    lemma_uploads_of_files(s0, tree, files);
    lemma_uploads_of_links(s1, tree, links);
    lemma_uploads_of_removals(s2, files, links, tree.file_list);
    lemma_uploads_of_removals(s3, files, links, tree.link_list);
    assert(uploads_of(s0) + stale_files(tree, files) =~= stale_files(tree, files));
}

/// Where there is no remote tree, or nothing in it, every file is uploaded.
pub proof fn law_empty_tree_uploads_everything(
    has_root: bool,
    prune: bool,
    files: Seq<FileModel>,
    links: Seq<LinkModel>,
)
    ensures
        uploads_of(steps_for(TreeModel::bare(has_root), prune, files, links)) == files.map_values(
            |f: FileModel| f.rel,
        ),
{
    law_uploads_are_the_stale_files(TreeModel::bare(has_root), prune, files, links);
    lemma_all_stale(has_root, files);
}

/// Where the remote mirrors the host, there is nothing to do: no upload, no directory, no link,
/// no removal. Without pruning, it may hold more than the host does.
pub proof fn law_mirror_needs_no_steps(
    tree: TreeModel,
    prune: bool,
    files: Seq<FileModel>,
    links: Seq<LinkModel>,
)
    requires
        tree.wf(),
        is_current(tree, files, links),
        prune ==> mirrors(tree, files, links),
    ensures
        steps_for(tree, prune, files, links) == Seq::<StepModel>::empty(),
{
    let none = Seq::<StepModel>::empty();
    if files.len() > 0 {
        assert(is_current_file(tree, files[0]));
        assert(tree.file_list.contains(files[0].rel));
    }
    if links.len() > 0 {
        assert(is_current_link(tree, links[0]));
        assert(tree.link_list.contains(links[0].rel));
    }
    lemma_current_files_add_nothing(none, tree, files);
    lemma_current_links_add_nothing(none, tree, links);
    if prune {
        lemma_local_paths_add_nothing(none, files, links, tree.file_list);
        lemma_local_paths_add_nothing(none, files, links, tree.link_list);
    }
}

/// In every plan the build root, where it is missing, and each directory is made once, and
/// before anything that goes into it.
pub proof fn law_plan_is_well_ordered(
    tree: TreeModel,
    prune: bool,
    files: Seq<FileModel>,
    links: Seq<LinkModel>,
)
    ensures
        well_ordered(tree.has_root, steps_for(tree, prune, files, links)),
{
    let s0 = root_steps(tree, files, links);
    let s1 = add_files(s0, tree, files);
    let s2 = add_links(s1, tree, links);
    let s3 = add_removals(s2, files, links, tree.file_list);
    assert(well_ordered(tree.has_root, s0)) by {
        assert(well_ordered(tree.has_root, Seq::empty()));
        lemma_push(Seq::empty(), StepModel::MakeRoot);
        assert(Seq::empty().push(StepModel::MakeRoot) =~= seq![StepModel::MakeRoot]);
        if !tree.has_root {
            lemma_ready_step(tree.has_root, Seq::empty(), StepModel::MakeRoot);
        }
    }
    if files.len() > 0 || links.len() > 0 {
        assert(!tree.has_root ==> s0[0] == StepModel::MakeRoot);
        assert(root_made(tree.has_root, s0));
    }
    lemma_files_keep(s0, tree, files, StepModel::MakeRoot);
    lemma_files_well_ordered(s0, tree, files);
    lemma_links_well_ordered(s1, tree, links);
    lemma_removals_well_ordered(tree.has_root, s2, files, links, tree.file_list);
    lemma_removals_well_ordered(tree.has_root, s3, files, links, tree.link_list);
}

/// What is removed: with pruning, the files and links of the remote tree that the host does not
/// have; without, nothing.
pub proof fn law_removals(
    tree: TreeModel,
    prune: bool,
    files: Seq<FileModel>,
    links: Seq<LinkModel>,
    rel: Seq<char>,
)
    requires
        tree.wf(),
    ensures
        steps_for(tree, prune, files, links).contains(StepModel::Remove(rel)) <==> prune
            && !is_local(files, links, rel) && (tree.files.contains_key(rel)
            || tree.links.contains_key(rel)),
{
    let x = StepModel::Remove(rel);
    let s0 = root_steps(tree, files, links);
    let s1 = add_files(s0, tree, files);
    let s2 = add_links(s1, tree, links);
    let s3 = add_removals(s2, files, links, tree.file_list);
    assert(!s0.contains(x));
    lemma_files_keep(s0, tree, files, x);
    lemma_links_keep(s1, tree, links, x);
    lemma_removals_contain(s2, files, links, tree.file_list, rel);
    lemma_removals_contain(s3, files, links, tree.link_list, rel);
}

/// What is relinked: the symlinks whose remote target differs or that are absent there.
pub proof fn law_relinks(
    tree: TreeModel,
    prune: bool,
    files: Seq<FileModel>,
    links: Seq<LinkModel>,
    rel: Seq<char>,
    target: Seq<char>,
)
    ensures
        steps_for(tree, prune, files, links).contains(StepModel::Relink { rel, target })
            <==> links.contains(LinkModel { rel, target }) && !is_current_link(
            tree,
            LinkModel { rel, target },
        ),
{
    let x = StepModel::Relink { rel, target };
    let s0 = root_steps(tree, files, links);
    let s1 = add_files(s0, tree, files);
    let s2 = add_links(s1, tree, links);
    let s3 = add_removals(s2, files, links, tree.file_list);
    assert(!s0.contains(x));
    lemma_files_keep(s0, tree, files, x);
    lemma_links_contain(s1, tree, links, LinkModel { rel, target });
    lemma_removals_keep(s2, files, links, tree.file_list, x);
    lemma_removals_keep(s3, files, links, tree.link_list, x);
}

// --- lemmas --------------------------------------------------------------------------------

proof fn lemma_uploads_of_dirs(steps: Seq<StepModel>, dirs: Seq<Seq<char>>)
    ensures
        uploads_of(add_dirs(steps, dirs)) == uploads_of(steps),
    decreases dirs.len(),
{
    if dirs.len() > 0 {
        lemma_uploads_of_dirs(steps, dirs.drop_last());
        lemma_push(add_dirs(steps, dirs.drop_last()), StepModel::MakeDir(dirs.last()));
    }
}

proof fn lemma_uploads_of_files(steps: Seq<StepModel>, tree: TreeModel, files: Seq<FileModel>)
    ensures
        uploads_of(add_files(steps, tree, files)) == uploads_of(steps) + stale_files(tree, files),
    decreases files.len(),
{
    if files.len() == 0 {
        assert(uploads_of(steps) + stale_files(tree, files) =~= uploads_of(steps));
    } else {
        let front = files.drop_last();
        let f = files.last();
        lemma_uploads_of_files(steps, tree, front);
        let before = add_files(steps, tree, front);
        let dirs = add_dirs(before, parents(f.rel));
        lemma_uploads_of_dirs(before, parents(f.rel));
        lemma_push(dirs, StepModel::Upload(f.rel));
        assert(uploads_of(steps) + stale_files(tree, front).push(f.rel) =~= (uploads_of(steps)
            + stale_files(tree, front)).push(f.rel));
    }
}

proof fn lemma_uploads_of_links(steps: Seq<StepModel>, tree: TreeModel, links: Seq<LinkModel>)
    ensures
        uploads_of(add_links(steps, tree, links)) == uploads_of(steps),
    decreases links.len(),
{
    if links.len() > 0 {
        let l = links.last();
        lemma_uploads_of_links(steps, tree, links.drop_last());
        let before = add_links(steps, tree, links.drop_last());
        lemma_uploads_of_dirs(before, parents(l.rel));
        lemma_push(
            add_dirs(before, parents(l.rel)),
            StepModel::Relink { rel: l.rel, target: l.target },
        );
    }
}

proof fn lemma_uploads_of_removals(
    steps: Seq<StepModel>,
    files: Seq<FileModel>,
    links: Seq<LinkModel>,
    paths: Seq<Seq<char>>,
)
    ensures
        uploads_of(add_removals(steps, files, links, paths)) == uploads_of(steps),
    decreases paths.len(),
{
    if paths.len() > 0 {
        lemma_uploads_of_removals(steps, files, links, paths.drop_last());
        lemma_push(
            add_removals(steps, files, links, paths.drop_last()),
            StepModel::Remove(paths.last()),
        );
    }
}

proof fn lemma_all_stale(has_root: bool, files: Seq<FileModel>)
    ensures
        stale_files(TreeModel::bare(has_root), files) == files.map_values(|f: FileModel| f.rel),
    decreases files.len(),
{
    let rels = files.map_values(|f: FileModel| f.rel);
    if files.len() == 0 {
        assert(rels =~= Seq::empty());
    } else {
        lemma_all_stale(has_root, files.drop_last());
        assert(rels =~= files.drop_last().map_values(|f: FileModel| f.rel).push(files.last().rel));
    }
}

proof fn lemma_current_files_add_nothing(
    steps: Seq<StepModel>,
    tree: TreeModel,
    files: Seq<FileModel>,
)
    requires
        forall|i: int| 0 <= i < files.len() ==> is_current_file(tree, #[trigger] files[i]),
    ensures
        add_files(steps, tree, files) == steps,
    decreases files.len(),
{
    if files.len() > 0 {
        assert(is_current_file(tree, files[files.len() - 1]));
        assert forall|i: int| 0 <= i < files.drop_last().len() implies is_current_file(
            tree,
            #[trigger] files.drop_last()[i],
        ) by {
            assert(is_current_file(tree, files[i]));
        }
        lemma_current_files_add_nothing(steps, tree, files.drop_last());
    }
}

proof fn lemma_current_links_add_nothing(
    steps: Seq<StepModel>,
    tree: TreeModel,
    links: Seq<LinkModel>,
)
    requires
        forall|i: int| 0 <= i < links.len() ==> is_current_link(tree, #[trigger] links[i]),
    ensures
        add_links(steps, tree, links) == steps,
    decreases links.len(),
{
    if links.len() > 0 {
        assert(is_current_link(tree, links[links.len() - 1]));
        assert forall|i: int| 0 <= i < links.drop_last().len() implies is_current_link(
            tree,
            #[trigger] links.drop_last()[i],
        ) by {
            assert(is_current_link(tree, links[i]));
        }
        lemma_current_links_add_nothing(steps, tree, links.drop_last());
    }
}

proof fn lemma_local_paths_add_nothing(
    steps: Seq<StepModel>,
    files: Seq<FileModel>,
    links: Seq<LinkModel>,
    paths: Seq<Seq<char>>,
)
    requires
        forall|i: int| 0 <= i < paths.len() ==> is_local(files, links, #[trigger] paths[i]),
    ensures
        add_removals(steps, files, links, paths) == steps,
    decreases paths.len(),
{
    if paths.len() > 0 {
        assert(is_local(files, links, paths[paths.len() - 1]));
        assert forall|i: int| 0 <= i < paths.drop_last().len() implies is_local(
            files,
            links,
            #[trigger] paths.drop_last()[i],
        ) by {
            assert(is_local(files, links, paths[i]));
        }
        lemma_local_paths_add_nothing(steps, files, links, paths.drop_last());
    }
}

proof fn lemma_ready_step(has_root: bool, steps: Seq<StepModel>, x: StepModel)
    requires
        well_ordered(has_root, steps),
        is_ready(has_root, steps, x),
    ensures
        well_ordered(has_root, steps.push(x)),
{
    let all = steps.push(x);
    assert forall|i: int| 0 <= i < all.len() implies is_ready(
        has_root,
        all.take(i),
        #[trigger] all[i],
    ) by {
        if i < steps.len() {
            assert(all.take(i) =~= steps.take(i));
            assert(all[i] == steps[i]);
        } else {
            assert(all.take(i) =~= steps);
        }
    }
}

/// Making the first `n` directories above `rel` keeps the order, and makes them.
proof fn lemma_dirs_well_ordered(has_root: bool, steps: Seq<StepModel>, rel: Seq<char>, n: int)
    requires
        well_ordered(has_root, steps),
        root_made(has_root, steps),
        0 <= n <= parents(rel).len(),
    ensures
        well_ordered(has_root, add_dirs(steps, parents(rel).take(n))),
        root_made(has_root, add_dirs(steps, parents(rel).take(n))),
        forall|k: int|
            0 <= k < n ==> add_dirs(steps, parents(rel).take(n)).contains(
                StepModel::MakeDir(#[trigger] parents(rel)[k]),
            ),
    decreases n,
{
    let dirs = parents(rel);
    if n > 0 {
        lemma_dirs_well_ordered(has_root, steps, rel, n - 1);
        assert(dirs.take(n).drop_last() =~= dirs.take(n - 1));
        assert(dirs.take(n).last() == dirs[n - 1]);
        let before = add_dirs(steps, dirs.take(n - 1));
        let dir = dirs[n - 1];
        law_parents_are_a_chain(rel, n - 1);
        assert(parents(dir) == dirs.take(n - 1));
        assert(parents_made(has_root, before, dir));
        lemma_push(before, StepModel::MakeDir(dir));
        if !before.contains(StepModel::MakeDir(dir)) {
            lemma_ready_step(has_root, before, StepModel::MakeDir(dir));
        }
    }
}

proof fn lemma_parents_well_ordered(has_root: bool, steps: Seq<StepModel>, rel: Seq<char>)
    requires
        well_ordered(has_root, steps),
        root_made(has_root, steps),
    ensures
        well_ordered(has_root, add_dirs(steps, parents(rel))),
        parents_made(has_root, add_dirs(steps, parents(rel)), rel),
{
    let n = parents(rel).len() as int;
    lemma_dirs_well_ordered(has_root, steps, rel, n);
    assert(parents(rel).take(n) =~= parents(rel));
}

proof fn lemma_files_well_ordered(steps: Seq<StepModel>, tree: TreeModel, files: Seq<FileModel>)
    requires
        well_ordered(tree.has_root, steps),
        files.len() > 0 ==> root_made(tree.has_root, steps),
    ensures
        well_ordered(tree.has_root, add_files(steps, tree, files)),
    decreases files.len(),
{
    if files.len() > 0 {
        let f = files.last();
        lemma_files_well_ordered(steps, tree, files.drop_last());
        let before = add_files(steps, tree, files.drop_last());
        lemma_files_keep(steps, tree, files.drop_last(), StepModel::MakeRoot);
        lemma_parents_well_ordered(tree.has_root, before, f.rel);
        lemma_ready_step(
            tree.has_root,
            add_dirs(before, parents(f.rel)),
            StepModel::Upload(f.rel),
        );
    }
}

proof fn lemma_links_well_ordered(steps: Seq<StepModel>, tree: TreeModel, links: Seq<LinkModel>)
    requires
        well_ordered(tree.has_root, steps),
        links.len() > 0 ==> root_made(tree.has_root, steps),
    ensures
        well_ordered(tree.has_root, add_links(steps, tree, links)),
    decreases links.len(),
{
    if links.len() > 0 {
        let l = links.last();
        lemma_links_well_ordered(steps, tree, links.drop_last());
        let before = add_links(steps, tree, links.drop_last());
        lemma_links_keep(steps, tree, links.drop_last(), StepModel::MakeRoot);
        lemma_parents_well_ordered(tree.has_root, before, l.rel);
        lemma_ready_step(
            tree.has_root,
            add_dirs(before, parents(l.rel)),
            StepModel::Relink { rel: l.rel, target: l.target },
        );
    }
}

proof fn lemma_removals_well_ordered(
    has_root: bool,
    steps: Seq<StepModel>,
    files: Seq<FileModel>,
    links: Seq<LinkModel>,
    paths: Seq<Seq<char>>,
)
    requires
        well_ordered(has_root, steps),
    ensures
        well_ordered(has_root, add_removals(steps, files, links, paths)),
    decreases paths.len(),
{
    if paths.len() > 0 {
        lemma_removals_well_ordered(has_root, steps, files, links, paths.drop_last());
        lemma_ready_step(
            has_root,
            add_removals(steps, files, links, paths.drop_last()),
            StepModel::Remove(paths.last()),
        );
    }
}

proof fn lemma_dirs_keep(steps: Seq<StepModel>, dirs: Seq<Seq<char>>, x: StepModel)
    requires
        !(x is MakeDir),
    ensures
        add_dirs(steps, dirs).contains(x) <==> steps.contains(x),
    decreases dirs.len(),
{
    if dirs.len() > 0 {
        lemma_dirs_keep(steps, dirs.drop_last(), x);
        lemma_push(add_dirs(steps, dirs.drop_last()), StepModel::MakeDir(dirs.last()));
    }
}

pub(crate) proof fn lemma_files_keep(
    steps: Seq<StepModel>,
    tree: TreeModel,
    files: Seq<FileModel>,
    x: StepModel,
)
    requires
        x is Relink || x is Remove || x is MakeRoot,
    ensures
        add_files(steps, tree, files).contains(x) <==> steps.contains(x),
    decreases files.len(),
{
    if files.len() > 0 {
        let f = files.last();
        lemma_files_keep(steps, tree, files.drop_last(), x);
        let before = add_files(steps, tree, files.drop_last());
        lemma_dirs_keep(before, parents(f.rel), x);
        lemma_push(add_dirs(before, parents(f.rel)), StepModel::Upload(f.rel));
    }
}

pub(crate) proof fn lemma_links_keep(
    steps: Seq<StepModel>,
    tree: TreeModel,
    links: Seq<LinkModel>,
    x: StepModel,
)
    requires
        x is Remove || x is MakeRoot,
    ensures
        add_links(steps, tree, links).contains(x) <==> steps.contains(x),
    decreases links.len(),
{
    if links.len() > 0 {
        let l = links.last();
        lemma_links_keep(steps, tree, links.drop_last(), x);
        let before = add_links(steps, tree, links.drop_last());
        lemma_dirs_keep(before, parents(l.rel), x);
        lemma_push(
            add_dirs(before, parents(l.rel)),
            StepModel::Relink { rel: l.rel, target: l.target },
        );
    }
}

proof fn lemma_links_contain(
    steps: Seq<StepModel>,
    tree: TreeModel,
    links: Seq<LinkModel>,
    l: LinkModel,
)
    ensures
        add_links(steps, tree, links).contains(StepModel::Relink { rel: l.rel, target: l.target })
            <==> steps.contains(StepModel::Relink { rel: l.rel, target: l.target })
            || links.contains(l) && !is_current_link(tree, l),
    decreases links.len(),
{
    let x = StepModel::Relink { rel: l.rel, target: l.target };
    if links.len() > 0 {
        let last = links.last();
        let front = links.drop_last();
        lemma_links_contain(steps, tree, front, l);
        let before = add_links(steps, tree, front);
        lemma_dirs_keep(before, parents(last.rel), x);
        lemma_push(
            add_dirs(before, parents(last.rel)),
            StepModel::Relink { rel: last.rel, target: last.target },
        );
        lemma_drop_last(links);
    }
}

pub(crate) proof fn lemma_removals_keep(
    steps: Seq<StepModel>,
    files: Seq<FileModel>,
    links: Seq<LinkModel>,
    paths: Seq<Seq<char>>,
    x: StepModel,
)
    requires
        !(x is Remove),
    ensures
        add_removals(steps, files, links, paths).contains(x) <==> steps.contains(x),
    decreases paths.len(),
{
    if paths.len() > 0 {
        lemma_removals_keep(steps, files, links, paths.drop_last(), x);
        lemma_push(
            add_removals(steps, files, links, paths.drop_last()),
            StepModel::Remove(paths.last()),
        );
    }
}

proof fn lemma_removals_contain(
    steps: Seq<StepModel>,
    files: Seq<FileModel>,
    links: Seq<LinkModel>,
    paths: Seq<Seq<char>>,
    rel: Seq<char>,
)
    ensures
        add_removals(steps, files, links, paths).contains(StepModel::Remove(rel))
            <==> steps.contains(StepModel::Remove(rel)) || paths.contains(rel) && !is_local(
            files,
            links,
            rel,
        ),
    decreases paths.len(),
{
    if paths.len() > 0 {
        let front = paths.drop_last();
        lemma_removals_contain(steps, files, links, front, rel);
        lemma_push(add_removals(steps, files, links, front), StepModel::Remove(paths.last()));
        lemma_drop_last(paths);
    }
}

} // verus!

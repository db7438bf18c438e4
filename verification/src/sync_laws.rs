//! What a plan does to the remote once it is carried out: a second plan finds nothing to do.

use vstd::prelude::*;

use crate::paths::{excluded, parents};
use crate::proto::{FileModel, LinkModel};
use crate::reconcile::{
    add_dirs, add_files, add_links, add_removals, count_done, is_current_file, is_current_link,
    is_local, root_steps, steps_for, uploads_of, StepModel, Tally,
};
use crate::reconcile_laws::{
    is_current, law_mirror_needs_no_steps, law_relinks, law_removals, lemma_files_keep, lemma_links_keep,
    lemma_removals_keep, mirrors,
};
use crate::seqs::{lemma_drop_last, lemma_push};
use crate::tree::{Stamp, TreeModel};

verus! {

/// The remote: whether the build root is there, and the files and symlinks beneath it, excluded
/// ones too.
pub struct RemoteState {
    pub root: bool,
    pub files: Map<Seq<char>, Stamp>,
    pub links: Map<Seq<char>, Seq<char>>,
}

/// What an upload does to a symlink that is in its way.
pub enum Uploading {
    /// The symlink gives way to the file.
    Replaces,
    /// The upload goes through the symlink, and leaves it as it is.
    FollowsLinks,
}

/// `tree` is what a walk finds on the remote: all that is not excluded.
pub open spec fn seen(
    tree: TreeModel,
    state: RemoteState,
    excludes: Seq<Seq<char>>,
    include_hidden: bool,
) -> bool {
    &&& tree.has_root == state.root
    &&& forall|rel: Seq<char>| #[trigger]
        tree.files.contains_key(rel) <==> state.files.contains_key(rel) && !excluded(
            rel,
            excludes,
            include_hidden,
        )
    &&& forall|rel: Seq<char>| #[trigger]
        tree.files.contains_key(rel) ==> tree.files[rel] == state.files[rel]
    &&& forall|rel: Seq<char>| #[trigger]
        tree.links.contains_key(rel) <==> state.links.contains_key(rel) && !excluded(
            rel,
            excludes,
            include_hidden,
        )
    &&& forall|rel: Seq<char>| #[trigger]
        tree.links.contains_key(rel) ==> tree.links[rel] == state.links[rel]
}

/// No path of the manifest is excluded.
pub open spec fn none_excluded(
    files: Seq<FileModel>,
    links: Seq<LinkModel>,
    excludes: Seq<Seq<char>>,
    include_hidden: bool,
) -> bool {
    &&& forall|i: int|
        0 <= i < files.len() ==> !excluded((#[trigger] files[i]).rel, excludes, include_hidden)
    &&& forall|i: int|
        0 <= i < links.len() ==> !excluded((#[trigger] links[i]).rel, excludes, include_hidden)
}

/// What is at `rel` is the same in both.
pub open spec fn agree_at(a: RemoteState, b: RemoteState, rel: Seq<char>) -> bool {
    &&& a.files.contains_key(rel) == b.files.contains_key(rel)
    &&& a.files.contains_key(rel) ==> a.files[rel] == b.files[rel]
    &&& a.links.contains_key(rel) == b.links.contains_key(rel)
    &&& a.links.contains_key(rel) ==> a.links[rel] == b.links[rel]
}

/// The paths of the manifest are all different.
pub open spec fn distinct_paths(files: Seq<FileModel>, links: Seq<LinkModel>) -> bool {
    &&& forall|i: int, j: int|
        0 <= i < j < files.len() ==> (#[trigger] files[i]).rel != (#[trigger] files[j]).rel
    &&& forall|i: int, j: int|
        0 <= i < j < links.len() ==> (#[trigger] links[i]).rel != (#[trigger] links[j]).rel
    &&& forall|i: int, j: int|
        0 <= i < files.len() && 0 <= j < links.len() ==> (#[trigger] files[i]).rel != (
        #[trigger] links[j]).rel
}

/// No file of the host is a symlink on the remote.
pub open spec fn no_file_is_a_link(tree: TreeModel, files: Seq<FileModel>) -> bool {
    forall|i: int| 0 <= i < files.len() ==> !tree.links.contains_key((#[trigger] files[i]).rel)
}

/// `f` is the manifest's file of this path.
pub open spec fn is_listed_file(files: Seq<FileModel>, rel: Seq<char>, f: FileModel) -> bool {
    files.contains(f) && f.rel == rel
}

/// Size and mtime that the manifest has for a file.
pub open spec fn listed_stamp(files: Seq<FileModel>, rel: Seq<char>) -> Stamp {
    let f = choose|f: FileModel| is_listed_file(files, rel, f);
    Stamp { size: f.size, mtime: f.mtime }
}

/// The remote after a step that succeeds. An upload gives the file the size and the mtime of the
/// manifest.
pub open spec fn after_step(
    how: Uploading,
    state: RemoteState,
    step: StepModel,
    files: Seq<FileModel>,
) -> RemoteState {
    match step {
        StepModel::MakeRoot => RemoteState { root: true, ..state },
        StepModel::MakeDir(_) => state,
        StepModel::Upload(rel) => if how is FollowsLinks && state.links.contains_key(rel) {
            state
        } else {
            RemoteState {
                files: state.files.insert(rel, listed_stamp(files, rel)),
                links: state.links.remove(rel),
                ..state
            }
        },
        StepModel::Relink { rel, target } => RemoteState {
            files: state.files.remove(rel),
            links: state.links.insert(rel, target),
            ..state
        },
        StepModel::Remove(rel) => RemoteState {
            files: state.files.remove(rel),
            links: state.links.remove(rel),
            ..state
        },
    }
}

/// The remote after all steps, in order.
pub open spec fn after_steps(
    how: Uploading,
    state: RemoteState,
    steps: Seq<StepModel>,
    files: Seq<FileModel>,
) -> RemoteState
    decreases steps.len(),
{
    if steps.len() == 0 {
        state
    } else {
        after_step(how, after_steps(how, state, steps.drop_last(), files), steps.last(), files)
    }
}

/// There is nothing to do: no steps, so no uploads, and counters of zero whatever is reported.
pub open spec fn is_done(
    tree: TreeModel,
    prune: bool,
    files: Seq<FileModel>,
    links: Seq<LinkModel>,
) -> bool {
    &&& steps_for(tree, prune, files, links) == Seq::<StepModel>::empty()
    &&& uploads_of(steps_for(tree, prune, files, links)) == Seq::<Seq<char>>::empty()
    &&& forall|tally: Tally, done: Seq<bool>| #[trigger]
        count_done(tally, steps_for(tree, prune, files, links), done) == 0
}

/// Once a plan is carried out and each upload has left a regular file at its path, a second plan
/// with the same setting of `prune` has nothing to do, nor has one without pruning. After
/// pruning, a walk finds the manifest mirrored. The paths of the manifest are all different, and
/// none is excluded.
pub proof fn law_second_plan_is_empty(
    state: RemoteState,
    tree: TreeModel,
    prune: bool,
    excludes: Seq<Seq<char>>,
    include_hidden: bool,
    files: Seq<FileModel>,
    links: Seq<LinkModel>,
    found: TreeModel,
)
    requires
        tree.wf(),
        seen(tree, state, excludes, include_hidden),
        distinct_paths(files, links),
        none_excluded(files, links, excludes, include_hidden),
        found.wf(),
        seen(
            found,
            after_steps(
                Uploading::Replaces,
                state,
                steps_for(tree, prune, files, links),
                files,
            ),
            excludes,
            include_hidden,
        ),
    ensures
        is_current(found, files, links),
        prune ==> mirrors(found, files, links),
        is_done(found, prune, files, links),
        is_done(found, false, files, links),
{
    lemma_second_plan(
        Uploading::Replaces,
        state,
        tree,
        prune,
        excludes,
        include_hidden,
        files,
        links,
        found,
    );
}

/// The same where uploads go through symlinks: then no file of the manifest may be a symlink on
/// the remote.
pub proof fn law_second_plan_is_empty_through_links(
    state: RemoteState,
    tree: TreeModel,
    prune: bool,
    excludes: Seq<Seq<char>>,
    include_hidden: bool,
    files: Seq<FileModel>,
    links: Seq<LinkModel>,
    found: TreeModel,
)
    requires
        tree.wf(),
        seen(tree, state, excludes, include_hidden),
        distinct_paths(files, links),
        none_excluded(files, links, excludes, include_hidden),
        no_file_is_a_link(tree, files),
        found.wf(),
        seen(
            found,
            after_steps(
                Uploading::FollowsLinks,
                state,
                steps_for(tree, prune, files, links),
                files,
            ),
            excludes,
            include_hidden,
        ),
    ensures
        is_current(found, files, links),
        prune ==> mirrors(found, files, links),
        is_done(found, prune, files, links),
        is_done(found, false, files, links),
{
    lemma_second_plan(
        Uploading::FollowsLinks,
        state,
        tree,
        prune,
        excludes,
        include_hidden,
        files,
        links,
        found,
    );
}

/// Carrying out a plan leaves what is excluded as it was, with pruning or without.
pub proof fn law_excluded_paths_stay_as_they_are(
    how: Uploading,
    state: RemoteState,
    tree: TreeModel,
    prune: bool,
    excludes: Seq<Seq<char>>,
    include_hidden: bool,
    files: Seq<FileModel>,
    links: Seq<LinkModel>,
    rel: Seq<char>,
)
    requires
        tree.wf(),
        seen(tree, state, excludes, include_hidden),
        none_excluded(files, links, excludes, include_hidden),
        excluded(rel, excludes, include_hidden),
    ensures
        agree_at(
            after_steps(how, state, steps_for(tree, prune, files, links), files),
            state,
            rel,
        ),
{
    let steps = steps_for(tree, prune, files, links);
    assert(!is_local(files, links, rel));
    law_removals(tree, prune, files, links, rel);
    lemma_only_removed(tree, prune, files, links, rel);
    lemma_touched_by_only(how, state, steps, files, rel, StepModel::Remove(rel));
}

/// Carrying out a plan that puts something on the remote leaves a build root there.
pub proof fn law_root_is_there_afterwards(
    how: Uploading,
    state: RemoteState,
    tree: TreeModel,
    prune: bool,
    files: Seq<FileModel>,
    links: Seq<LinkModel>,
)
    requires
        tree.has_root == state.root,
        files.len() > 0 || links.len() > 0,
    ensures
        after_steps(how, state, steps_for(tree, prune, files, links), files).root,
{
    let steps = steps_for(tree, prune, files, links);
    if !tree.has_root {
        let s0 = root_steps(tree, files, links);
        let s1 = add_files(s0, tree, files);
        let s2 = add_links(s1, tree, links);
        let s3 = add_removals(s2, files, links, tree.file_list);
        assert(s0[0] == StepModel::MakeRoot);
        lemma_files_keep(s0, tree, files, StepModel::MakeRoot);
        lemma_links_keep(s1, tree, links, StepModel::MakeRoot);
        lemma_removals_keep(s2, files, links, tree.file_list, StepModel::MakeRoot);
        lemma_removals_keep(s3, files, links, tree.link_list, StepModel::MakeRoot);
    }
    lemma_root_after_steps(how, state, steps, files);
}

// --- lemmas --------------------------------------------------------------------------------

proof fn lemma_root_after_steps(
    how: Uploading,
    state: RemoteState,
    steps: Seq<StepModel>,
    files: Seq<FileModel>,
)
    ensures
        after_steps(how, state, steps, files).root == (state.root || steps.contains(
            StepModel::MakeRoot,
        )),
    decreases steps.len(),
{
    if steps.len() > 0 {
        lemma_drop_last(steps);
        lemma_root_after_steps(how, state, steps.drop_last(), files);
    }
}

proof fn lemma_second_plan(
    how: Uploading,
    state: RemoteState,
    tree: TreeModel,
    prune: bool,
    excludes: Seq<Seq<char>>,
    include_hidden: bool,
    files: Seq<FileModel>,
    links: Seq<LinkModel>,
    found: TreeModel,
)
    requires
        tree.wf(),
        seen(tree, state, excludes, include_hidden),
        distinct_paths(files, links),
        none_excluded(files, links, excludes, include_hidden),
        how is FollowsLinks ==> no_file_is_a_link(tree, files),
        found.wf(),
        seen(
            found,
            after_steps(how, state, steps_for(tree, prune, files, links), files),
            excludes,
            include_hidden,
        ),
    ensures
        is_current(found, files, links),
        prune ==> mirrors(found, files, links),
        is_done(found, prune, files, links),
        is_done(found, false, files, links),
{
    let done = after_steps(how, state, steps_for(tree, prune, files, links), files);
    assert forall|i: int| 0 <= i < files.len() implies is_current_file(
        found,
        #[trigger] files[i],
    ) by {
        lemma_file_is_current(how, state, tree, prune, excludes, include_hidden, files, links, i);
        assert(found.files.contains_key(files[i].rel));
    }
    assert forall|i: int| 0 <= i < links.len() implies is_current_link(
        found,
        #[trigger] links[i],
    ) by {
        lemma_link_is_current(how, state, tree, prune, excludes, include_hidden, files, links, i);
        assert(found.links.contains_key(links[i].rel));
    }
    if prune {
        assert forall|rel: Seq<char>|
            found.files.contains_key(rel) || found.links.contains_key(
                rel,
            ) implies #[trigger] is_local(files, links, rel) by {
            if !is_local(files, links, rel) {
                lemma_foreign_path_is_gone(
                    how,
                    state,
                    tree,
                    prune,
                    excludes,
                    include_hidden,
                    files,
                    links,
                    rel,
                );
            }
        }
        assert forall|i: int| 0 <= i < found.file_list.len() implies is_local(
            files,
            links,
            #[trigger] found.file_list[i],
        ) by {
            assert(found.file_list.contains(found.file_list[i]));
            assert(found.files.contains_key(found.file_list[i]));
        }
        assert forall|i: int| 0 <= i < found.link_list.len() implies is_local(
            files,
            links,
            #[trigger] found.link_list[i],
        ) by {
            assert(found.link_list.contains(found.link_list[i]));
            assert(found.links.contains_key(found.link_list[i]));
        }
    }
    law_mirror_needs_no_steps(found, prune, files, links);
    law_mirror_needs_no_steps(found, false, files, links);
}

/// `step` changes what is at `rel`.
spec fn touches(step: StepModel, rel: Seq<char>) -> bool {
    match step {
        StepModel::MakeRoot => false,
        StepModel::MakeDir(_) => false,
        StepModel::Upload(r) => r == rel,
        StepModel::Relink { rel: r, .. } => r == rel,
        StepModel::Remove(r) => r == rel,
    }
}

/// Of the steps that touch `rel`, all are `only`.
spec fn touched_by_only(steps: Seq<StepModel>, rel: Seq<char>, only: StepModel) -> bool {
    forall|s: StepModel| #[trigger] steps.contains(s) && touches(s, rel) ==> s == only
}

/// What is at `rel` after steps of which only one kind touches it: what that step puts there, or
/// what was there where no step touches it.
proof fn lemma_touched_by_only(
    how: Uploading,
    state: RemoteState,
    steps: Seq<StepModel>,
    files: Seq<FileModel>,
    rel: Seq<char>,
    only: StepModel,
)
    requires
        touches(only, rel),
        touched_by_only(steps, rel, only),
    ensures
        agree_at(
            after_steps(how, state, steps, files),
            if steps.contains(only) {
                after_step(how, state, only, files)
            } else {
                state
            },
            rel,
        ),
    decreases steps.len(),
{
    if steps.len() > 0 {
        lemma_drop_last(steps);
        assert forall|s: StepModel| #[trigger]
            steps.drop_last().contains(s) && touches(s, rel) implies s == only by {
            assert(steps.contains(s));
        }
        lemma_touched_by_only(how, state, steps.drop_last(), files, rel, only);
        assert(steps.contains(steps.last()));
    }
}

proof fn lemma_dirs_keep_uploads(steps: Seq<StepModel>, dirs: Seq<Seq<char>>, rel: Seq<char>)
    ensures
        add_dirs(steps, dirs).contains(StepModel::Upload(rel)) <==> steps.contains(
            StepModel::Upload(rel),
        ),
    decreases dirs.len(),
{
    if dirs.len() > 0 {
        let before = add_dirs(steps, dirs.drop_last());
        lemma_dirs_keep_uploads(steps, dirs.drop_last(), rel);
        lemma_push(before, StepModel::MakeDir(dirs.last()));
    }
}

/// A plan uploads a path exactly where the manifest has a file of that path that is not current.
proof fn lemma_files_upload(
    steps: Seq<StepModel>,
    tree: TreeModel,
    files: Seq<FileModel>,
    rel: Seq<char>,
)
    ensures
        add_files(steps, tree, files).contains(StepModel::Upload(rel)) <==> steps.contains(
            StepModel::Upload(rel),
        ) || exists|i: int|
            0 <= i < files.len() && (#[trigger] files[i]).rel == rel && !is_current_file(
                tree,
                files[i],
            ),
    decreases files.len(),
{
    if files.len() > 0 {
        let f = files.last();
        let front = files.drop_last();
        lemma_files_upload(steps, tree, front, rel);
        let before = add_files(steps, tree, front);
        lemma_dirs_keep_uploads(before, parents(f.rel), rel);
        lemma_push(add_dirs(before, parents(f.rel)), StepModel::Upload(f.rel));
        if exists|i: int|
            0 <= i < front.len() && (#[trigger] front[i]).rel == rel && !is_current_file(
                tree,
                front[i],
            ) {
            let i = choose|i: int|
                0 <= i < front.len() && (#[trigger] front[i]).rel == rel && !is_current_file(
                    tree,
                    front[i],
                );
            assert(files[i] == front[i]);
        }
        if exists|i: int|
            0 <= i < files.len() && (#[trigger] files[i]).rel == rel && !is_current_file(
                tree,
                files[i],
            ) {
            let i = choose|i: int|
                0 <= i < files.len() && (#[trigger] files[i]).rel == rel && !is_current_file(
                    tree,
                    files[i],
                );
            if i < front.len() {
                assert(files[i] == front[i]);
            }
        }
        assert(files[files.len() - 1] == f);
    }
}

proof fn lemma_links_keep_uploads(
    steps: Seq<StepModel>,
    tree: TreeModel,
    links: Seq<LinkModel>,
    rel: Seq<char>,
)
    ensures
        add_links(steps, tree, links).contains(StepModel::Upload(rel)) <==> steps.contains(
            StepModel::Upload(rel),
        ),
    decreases links.len(),
{
    if links.len() > 0 {
        let l = links.last();
        lemma_links_keep_uploads(steps, tree, links.drop_last(), rel);
        let before = add_links(steps, tree, links.drop_last());
        lemma_dirs_keep_uploads(before, parents(l.rel), rel);
        lemma_push(
            add_dirs(before, parents(l.rel)),
            StepModel::Relink { rel: l.rel, target: l.target },
        );
    }
}

proof fn lemma_removals_keep_uploads(
    steps: Seq<StepModel>,
    files: Seq<FileModel>,
    links: Seq<LinkModel>,
    paths: Seq<Seq<char>>,
    rel: Seq<char>,
)
    ensures
        add_removals(steps, files, links, paths).contains(StepModel::Upload(rel))
            <==> steps.contains(StepModel::Upload(rel)),
    decreases paths.len(),
{
    if paths.len() > 0 {
        lemma_removals_keep_uploads(steps, files, links, paths.drop_last(), rel);
        lemma_push(
            add_removals(steps, files, links, paths.drop_last()),
            StepModel::Remove(paths.last()),
        );
    }
}

proof fn lemma_uploads(
    tree: TreeModel,
    prune: bool,
    files: Seq<FileModel>,
    links: Seq<LinkModel>,
    rel: Seq<char>,
)
    ensures
        steps_for(tree, prune, files, links).contains(StepModel::Upload(rel)) <==> exists|i: int|
            0 <= i < files.len() && (#[trigger] files[i]).rel == rel && !is_current_file(
                tree,
                files[i],
            ),
{
    let s0 = root_steps(tree, files, links);
    let s1 = add_files(s0, tree, files);
    let s2 = add_links(s1, tree, links);
    let s3 = add_removals(s2, files, links, tree.file_list);
    assert(!s0.contains(StepModel::Upload(rel)));
    lemma_files_upload(s0, tree, files, rel);
    lemma_links_keep_uploads(s1, tree, links, rel);
    lemma_removals_keep_uploads(s2, files, links, tree.file_list, rel);
    lemma_removals_keep_uploads(s3, files, links, tree.link_list, rel);
}

proof fn lemma_file_is_current(
    how: Uploading,
    state: RemoteState,
    tree: TreeModel,
    prune: bool,
    excludes: Seq<Seq<char>>,
    include_hidden: bool,
    files: Seq<FileModel>,
    links: Seq<LinkModel>,
    i: int,
)
    requires
        tree.wf(),
        seen(tree, state, excludes, include_hidden),
        distinct_paths(files, links),
        none_excluded(files, links, excludes, include_hidden),
        how is FollowsLinks ==> no_file_is_a_link(tree, files),
        0 <= i < files.len(),
    ensures
        ({
            let done = after_steps(how, state, steps_for(tree, prune, files, links), files);
            &&& done.files.contains_key(files[i].rel)
            &&& done.files[files[i].rel] == (Stamp { size: files[i].size, mtime: files[i].mtime })
        }),
{
    let rel = files[i].rel;
    let steps = steps_for(tree, prune, files, links);
    let only = StepModel::Upload(rel);
    lemma_uploads(tree, prune, files, links, rel);
    assert(is_local(files, links, rel));
    assert forall|s: StepModel| #[trigger] steps.contains(s) && touches(s, rel) implies s
        == only by {
        match s {
            StepModel::Relink { rel: r, target } => {
                law_relinks(tree, prune, files, links, r, target);
                let l = LinkModel { rel: r, target };
                let j = choose|j: int| 0 <= j < links.len() && links[j] == l;
                assert(files[i].rel != links[j].rel);
            },
            StepModel::Remove(r) => {
                law_removals(tree, prune, files, links, r);
            },
            _ => {},
        }
    }
    lemma_touched_by_only(how, state, steps, files, rel, only);
    assert(files.contains(files[i]));
    assert(is_listed_file(files, rel, files[i]));
    let f = choose|f: FileModel| is_listed_file(files, rel, f);
    let k = choose|k: int| 0 <= k < files.len() && files[k] == f;
    assert(k == i) by {
        if k < i {
            assert(files[k].rel != files[i].rel);
        }
        if i < k {
            assert(files[i].rel != files[k].rel);
        }
    }
}

proof fn lemma_link_is_current(
    how: Uploading,
    state: RemoteState,
    tree: TreeModel,
    prune: bool,
    excludes: Seq<Seq<char>>,
    include_hidden: bool,
    files: Seq<FileModel>,
    links: Seq<LinkModel>,
    i: int,
)
    requires
        tree.wf(),
        seen(tree, state, excludes, include_hidden),
        distinct_paths(files, links),
        none_excluded(files, links, excludes, include_hidden),
        0 <= i < links.len(),
    ensures
        ({
            let done = after_steps(how, state, steps_for(tree, prune, files, links), files);
            &&& done.links.contains_key(links[i].rel)
            &&& done.links[links[i].rel] == links[i].target
        }),
{
    let rel = links[i].rel;
    let steps = steps_for(tree, prune, files, links);
    let only = StepModel::Relink { rel, target: links[i].target };
    law_relinks(tree, prune, files, links, rel, links[i].target);
    assert(links[i] == (LinkModel { rel, target: links[i].target }));
    assert(links.contains(links[i]));
    assert(is_local(files, links, rel));
    assert forall|s: StepModel| #[trigger] steps.contains(s) && touches(s, rel) implies s
        == only by {
        match s {
            StepModel::Relink { rel: r, target } => {
                law_relinks(tree, prune, files, links, r, target);
                let l = LinkModel { rel: r, target };
                let j = choose|j: int| 0 <= j < links.len() && links[j] == l;
                if j < i {
                    assert(links[j].rel != links[i].rel);
                }
                if i < j {
                    assert(links[i].rel != links[j].rel);
                }
            },
            StepModel::Remove(r) => {
                law_removals(tree, prune, files, links, r);
            },
            StepModel::Upload(r) => {
                lemma_uploads(tree, prune, files, links, r);
                let k = choose|k: int|
                    0 <= k < files.len() && (#[trigger] files[k]).rel == r && !is_current_file(
                        tree,
                        files[k],
                    );
                assert(files[k].rel != links[i].rel);
            },
            _ => {},
        }
    }
    lemma_touched_by_only(how, state, steps, files, rel, only);
}

proof fn lemma_foreign_path_is_gone(
    how: Uploading,
    state: RemoteState,
    tree: TreeModel,
    prune: bool,
    excludes: Seq<Seq<char>>,
    include_hidden: bool,
    files: Seq<FileModel>,
    links: Seq<LinkModel>,
    rel: Seq<char>,
)
    requires
        prune,
        tree.wf(),
        seen(tree, state, excludes, include_hidden),
        !is_local(files, links, rel),
        !excluded(rel, excludes, include_hidden),
    ensures
        ({
            let done = after_steps(how, state, steps_for(tree, prune, files, links), files);
            &&& !done.files.contains_key(rel)
            &&& !done.links.contains_key(rel)
        }),
{
    let steps = steps_for(tree, prune, files, links);
    law_removals(tree, prune, files, links, rel);
    lemma_only_removed(tree, prune, files, links, rel);
    lemma_touched_by_only(how, state, steps, files, rel, StepModel::Remove(rel));
    assert(tree.files.contains_key(rel) <==> state.files.contains_key(rel));
    assert(tree.links.contains_key(rel) <==> state.links.contains_key(rel));
}

/// A path that the host does not have is at most removed.
proof fn lemma_only_removed(
    tree: TreeModel,
    prune: bool,
    files: Seq<FileModel>,
    links: Seq<LinkModel>,
    rel: Seq<char>,
)
    requires
        tree.wf(),
        !is_local(files, links, rel),
    ensures
        touched_by_only(steps_for(tree, prune, files, links), rel, StepModel::Remove(rel)),
{
    let steps = steps_for(tree, prune, files, links);
    let only = StepModel::Remove(rel);
    assert forall|s: StepModel| #[trigger] steps.contains(s) && touches(s, rel) implies s
        == only by {
        match s {
            StepModel::Relink { rel: r, target } => {
                law_relinks(tree, prune, files, links, r, target);
                let l = LinkModel { rel: r, target };
                let j = choose|j: int| 0 <= j < links.len() && links[j] == l;
                assert(links[j].rel == rel);
            },
            StepModel::Upload(r) => {
                lemma_uploads(tree, prune, files, links, r);
                let k = choose|k: int|
                    0 <= k < files.len() && (#[trigger] files[k]).rel == r && !is_current_file(
                        tree,
                        files[k],
                    );
                assert(files[k].rel == rel);
            },
            _ => {},
        }
    }
}

} // verus!

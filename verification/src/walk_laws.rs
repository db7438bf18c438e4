//! What a walk finds in a given file tree, and what it leaves alone.

use vstd::prelude::*;

use crate::path_laws::{has_empty_part, law_parents_of_a_synced_path_are_synced};
use crate::paths::{child, excluded, parents};
use crate::proto::{FileModel, LinkModel};
use crate::reconcile::{
    add_dirs, add_files, add_links, add_removals, root_steps, steps_for, StepModel,
};
use crate::reconcile_laws::law_removals;
use crate::tree::{Stamp, TreeModel};
use crate::walk::{
    lemma_after_keeps_wf, walk_start, wire_mtime, AnswerModel, EntryKind, QueryModel, WalkModel,
};

verus! {

/// A file system entry.
pub enum Node {
    /// A directory, with its entries in the order in which they are listed.
    Dir(Seq<(Seq<char>, Node)>),
    File(Stamp),
    Symlink(Seq<char>),
    /// A symlink whose target cannot be read.
    BrokenSymlink,
    Other,
}

/// `tree` with the first `n` entries of the directory `prefix`, and all that is beneath them,
/// recorded: files and readable symlinks, but nothing that is excluded or in an excluded
/// directory.
pub open spec fn collected(
    tree: TreeModel,
    prefix: Seq<char>,
    entries: Seq<(Seq<char>, Node)>,
    n: nat,
    excludes: Seq<Seq<char>>,
    include_hidden: bool,
) -> TreeModel
    decreases entries, n,
{
    if n == 0 || n > entries.len() {
        tree
    } else {
        let front = collected(tree, prefix, entries, (n - 1) as nat, excludes, include_hidden);
        let rel = child(prefix, entries[n - 1].0);
        if excluded(rel, excludes, include_hidden) {
            front
        } else {
            match entries[n - 1].1 {
                Node::Dir(inner) => collected(
                    front,
                    rel,
                    inner,
                    inner.len(),
                    excludes,
                    include_hidden,
                ),
                Node::File(stamp) => front.with_file(rel, stamp),
                Node::Symlink(target) => front.with_link(rel, target),
                Node::BrokenSymlink => front,
                Node::Other => front,
            }
        }
    }
}

/// What the file system answers while the first `n` entries of the directory `prefix` are
/// listed.
pub open spec fn answers(
    prefix: Seq<char>,
    entries: Seq<(Seq<char>, Node)>,
    n: nat,
    excludes: Seq<Seq<char>>,
    include_hidden: bool,
) -> Seq<AnswerModel>
    decreases entries, n,
{
    if n == 0 || n > entries.len() {
        Seq::empty()
    } else {
        let front = answers(prefix, entries, (n - 1) as nat, excludes, include_hidden).push(
            AnswerModel::Entry(entries[n - 1].0),
        );
        let rel = child(prefix, entries[n - 1].0);
        if excluded(rel, excludes, include_hidden) {
            front
        } else {
            match entries[n - 1].1 {
                Node::Dir(inner) => front.push(AnswerModel::Kind(EntryKind::Dir)).push(
                    AnswerModel::Opened,
                ) + answers(rel, inner, inner.len(), excludes, include_hidden).push(
                    AnswerModel::Exhausted,
                ),
                Node::File(stamp) => front.push(AnswerModel::Kind(EntryKind::File)).push(
                    AnswerModel::Measured(stamp),
                ),
                Node::Symlink(target) => front.push(AnswerModel::Kind(EntryKind::Symlink)).push(
                    AnswerModel::Target(target),
                ),
                Node::BrokenSymlink => front.push(AnswerModel::Kind(EntryKind::Symlink)).push(
                    AnswerModel::Failed,
                ),
                Node::Other => front.push(AnswerModel::Kind(EntryKind::Other)),
            }
        }
    }
}

/// The state after a run of answers.
pub open spec fn after_all(m: WalkModel, run: Seq<AnswerModel>) -> WalkModel
    decreases run.len(),
{
    if run.len() == 0 {
        m
    } else {
        after_all(m, run.drop_last()).after(run.last())
    }
}

/// A walk over a readable build root ends with exactly the files and symlinks of the root that
/// are not excluded.
pub proof fn law_walk_collects_the_tree(
    entries: Seq<(Seq<char>, Node)>,
    excludes: Seq<Seq<char>>,
    include_hidden: bool,
)
    ensures
        ({
            let done = after_all(
                walk_start(true, excludes, include_hidden),
                seq![AnswerModel::Opened] + answers(
                    Seq::empty(),
                    entries,
                    entries.len(),
                    excludes,
                    include_hidden,
                ).push(AnswerModel::Exhausted),
            );
            &&& done.query is Finish
            &&& done.tree == collected(
                TreeModel::empty(),
                Seq::empty(),
                entries,
                entries.len(),
                excludes,
                include_hidden,
            )
        }),
{
    let root = Seq::<char>::empty();
    let start = walk_start(true, excludes, include_hidden);
    let opened = start.after(AnswerModel::Opened);
    let listing = answers(root, entries, entries.len(), excludes, include_hidden);
    lemma_single(start, AnswerModel::Opened);
    lemma_append(start, seq![AnswerModel::Opened], listing.push(AnswerModel::Exhausted));
    assert(opened.open =~= seq![root]);
    lemma_listing(opened, entries, entries.len());
    lemma_push(opened, listing, AnswerModel::Exhausted);
}

/// Where a walk starts: at the root, if there is one, with nothing found; otherwise it is over.
pub proof fn law_walk_starts_at_the_root(
    root_exists: bool,
    excludes: Seq<Seq<char>>,
    include_hidden: bool,
)
    ensures
        ({
            let m = walk_start(root_exists, excludes, include_hidden);
            &&& m.excludes == excludes
            &&& m.include_hidden == include_hidden
            &&& m.open.len() == 0
            &&& root_exists ==> m.query == QueryModel::Open(Seq::empty())
            &&& !root_exists ==> m.query is Finish
            &&& m.tree.has_root == root_exists
            &&& m.tree.file_list.len() == 0 && m.tree.link_list.len() == 0
            &&& forall|rel: Seq<char>| !#[trigger] m.tree.files.contains_key(rel)
            &&& forall|rel: Seq<char>| !#[trigger] m.tree.links.contains_key(rel)
        }),
{
}

/// What a failure does: a symlink that cannot be read is passed over, and nothing of it is
/// recorded; any other failure ends the walk.
pub proof fn law_failures_end_the_walk_but_for_symlinks(m: WalkModel)
    ensures
        m.query is Open || m.query is NextEntry || m.query is Kind || m.query is Measure
            ==> m.after(AnswerModel::Failed).query is GiveUp,
        m.query is ReadLink ==> m.after(AnswerModel::Failed).query is NextEntry,
        m.after(AnswerModel::Failed).tree == m.tree,
        m.after(AnswerModel::Failed).open == m.open,
{
}

/// A walk that is over stays as it is, and so does one that is answered what it did not ask.
pub proof fn law_stray_answers_change_nothing(m: WalkModel, answer: AnswerModel)
    ensures
        m.query is Finish || m.query is GiveUp ==> m.after(answer) == m,
        answer is Opened && !(m.query is Open) ==> m.after(answer) == m,
        answer is Entry && !(m.query is NextEntry) ==> m.after(answer) == m,
        answer is Exhausted && !(m.query is NextEntry) ==> m.after(answer) == m,
        answer is Kind && !(m.query is Kind) ==> m.after(answer) == m,
        answer is Target && !(m.query is ReadLink) ==> m.after(answer) == m,
        answer is Measured && !(m.query is Measure) ==> m.after(answer) == m,
        m.after(answer).excludes == m.excludes,
        m.after(answer).include_hidden == m.include_hidden,
{
}

/// What is asked next, and what is recorded. An entry is passed over where its path is excluded.
/// A symlink's target is read and never followed; a directory is entered; a file is measured; all
/// else is passed over. When a directory is exhausted, the one that holds it goes on, and the
/// walk is over with the outermost.
pub proof fn law_walk_moves(
    m: WalkModel,
    rel: Seq<char>,
    name: Seq<char>,
    target: Seq<char>,
    stamp: Stamp,
)
    requires
        m.open.len() > 0,
    ensures
        ({
            let opening = WalkModel { query: QueryModel::Open(rel), ..m };
            let listing = WalkModel { query: QueryModel::NextEntry, ..m };
            let asking = WalkModel { query: QueryModel::Kind(rel), ..m };
            let linking = WalkModel { query: QueryModel::ReadLink(rel), ..m };
            let measuring = WalkModel { query: QueryModel::Measure(rel), ..m };
            let top = m.open[m.open.len() - 1];
            let path = if top.len() == 0 {
                name
            } else {
                top + seq!['/'] + name
            };
            &&& opening.after(AnswerModel::Opened) == (WalkModel {
                open: m.open + seq![rel],
                ..listing
            })
            &&& listing.after(AnswerModel::Entry(name)) == (if excluded(
                path,
                m.excludes,
                m.include_hidden,
            ) {
                listing
            } else {
                WalkModel { query: QueryModel::Kind(path), ..m }
            })
            &&& listing.after(AnswerModel::Exhausted) == (WalkModel {
                open: m.open.take(m.open.len() - 1),
                query: if m.open.len() == 1 {
                    QueryModel::Finish
                } else {
                    QueryModel::NextEntry
                },
                ..m
            })
            &&& asking.after(AnswerModel::Kind(EntryKind::Symlink)) == linking
            &&& asking.after(AnswerModel::Kind(EntryKind::Dir)) == opening
            &&& asking.after(AnswerModel::Kind(EntryKind::File)) == measuring
            &&& asking.after(AnswerModel::Kind(EntryKind::Other)) == listing
            &&& linking.after(AnswerModel::Target(target)).query is NextEntry
            &&& linking.after(AnswerModel::Target(target)).open == m.open
            &&& linking.after(AnswerModel::Target(target)).tree == m.tree.with_link(rel, target)
            &&& measuring.after(AnswerModel::Measured(stamp)).query is NextEntry
            &&& measuring.after(AnswerModel::Measured(stamp)).open == m.open
            &&& measuring.after(AnswerModel::Measured(stamp)).tree == m.tree.with_file(rel, stamp)
        }),
{
    assert(m.open + seq![rel] =~= m.open.push(rel));
    assert(m.open.take(m.open.len() - 1) =~= m.open.drop_last());
}

/// What recording a file or a symlink does to the tree: its path is there with what was recorded
/// and is listed, at the end if it is new; everything else stays, and the root is there.
pub proof fn law_recording(
    tree: TreeModel,
    rel: Seq<char>,
    stamp: Stamp,
    target: Seq<char>,
    other: Seq<char>,
)
    requires
        other != rel,
    ensures
        ({
            let t = tree.with_file(rel, stamp);
            &&& t.has_root
            &&& t.files.contains_key(rel) && t.files[rel].size == stamp.size && t.files[rel].mtime
                == stamp.mtime
            &&& t.files.contains_key(other) == tree.files.contains_key(other)
            &&& tree.files.contains_key(other) ==> t.files[other] == tree.files[other]
            &&& t.links == tree.links && t.link_list == tree.link_list
            &&& tree.files.contains_key(rel) ==> t.file_list == tree.file_list
            &&& !tree.files.contains_key(rel) ==> t.file_list == tree.file_list + seq![rel]
        }),
        ({
            let t = tree.with_link(rel, target);
            &&& t.has_root
            &&& t.links.contains_key(rel) && t.links[rel] == target
            &&& t.links.contains_key(other) == tree.links.contains_key(other)
            &&& tree.links.contains_key(other) ==> t.links[other] == tree.links[other]
            &&& t.files == tree.files && t.file_list == tree.file_list
            &&& tree.links.contains_key(rel) ==> t.link_list == tree.link_list
            &&& !tree.links.contains_key(rel) ==> t.link_list == tree.link_list + seq![rel]
        }),
{
    assert(tree.file_list + seq![rel] =~= tree.file_list.push(rel));
    assert(tree.link_list + seq![rel] =~= tree.link_list.push(rel));
}

/// Modification seconds go over the wire as they are while they fit in 32 bits, and start over
/// from 0 beyond; no time is 0.
pub proof fn law_wire_mtime(secs: u64)
    ensures
        wire_mtime(None) == 0,
        secs < 4294967296 ==> wire_mtime(Some(secs)) == secs,
        secs >= 4294967296 ==> wire_mtime(Some(secs)) == wire_mtime(
            Some((secs - 4294967296) as u64),
        ),
{
}

/// Where there is no build root, the walk is over at once; the tree is bare, and says so.
pub proof fn law_missing_root_is_a_bare_tree(excludes: Seq<Seq<char>>, include_hidden: bool)
    ensures
        walk_start(false, excludes, include_hidden).query is Finish,
        walk_start(false, excludes, include_hidden).tree == TreeModel::bare(false),
{
}

/// A walk never opens, reads or records an excluded path, whatever is answered.
pub proof fn law_walk_leaves_excluded_paths_alone(
    root_exists: bool,
    excludes: Seq<Seq<char>>,
    include_hidden: bool,
    run: Seq<AnswerModel>,
    rel: Seq<char>,
)
    requires
        rel.len() > 0,
        excluded(rel, excludes, include_hidden),
    ensures
        ({
            let m = after_all(walk_start(root_exists, excludes, include_hidden), run);
            &&& m.query != QueryModel::Open(rel)
            &&& m.query != QueryModel::Kind(rel)
            &&& m.query != QueryModel::ReadLink(rel)
            &&& m.query != QueryModel::Measure(rel)
            &&& !m.tree.files.contains_key(rel)
            &&& !m.tree.links.contains_key(rel)
        }),
{
    lemma_run_keeps_wf(walk_start(root_exists, excludes, include_hidden), run);
}

/// Pruning against a walked tree never removes an excluded path, whatever was answered.
pub proof fn law_pruning_spares_excluded_paths(
    root_exists: bool,
    excludes: Seq<Seq<char>>,
    include_hidden: bool,
    run: Seq<AnswerModel>,
    files: Seq<FileModel>,
    links: Seq<LinkModel>,
    rel: Seq<char>,
)
    requires
        excluded(rel, excludes, include_hidden),
    ensures
        !steps_for(
            after_all(walk_start(root_exists, excludes, include_hidden), run).tree,
            true,
            files,
            links,
        ).contains(StepModel::Remove(rel)),
{
    let m = after_all(walk_start(root_exists, excludes, include_hidden), run);
    lemma_run_keeps_wf(walk_start(root_exists, excludes, include_hidden), run);
    law_removals(m.tree, true, files, links, rel);
}

/// The path that a step makes, fills or removes is `rel`.
pub open spec fn names(step: StepModel, rel: Seq<char>) -> bool {
    match step {
        StepModel::MakeRoot => false,
        StepModel::MakeDir(dir) => dir == rel,
        StepModel::Upload(r) => r == rel,
        StepModel::Relink { rel: r, .. } => r == rel,
        StepModel::Remove(r) => r == rel,
    }
}

/// No path of the manifest is excluded or has an empty part.
pub open spec fn is_clean(
    files: Seq<FileModel>,
    links: Seq<LinkModel>,
    excludes: Seq<Seq<char>>,
    include_hidden: bool,
) -> bool {
    &&& forall|i: int|
        0 <= i < files.len() ==> !has_empty_part((#[trigger] files[i]).rel) && !excluded(
            files[i].rel,
            excludes,
            include_hidden,
        )
    &&& forall|i: int|
        0 <= i < links.len() ==> !has_empty_part((#[trigger] links[i]).rel) && !excluded(
            links[i].rel,
            excludes,
            include_hidden,
        )
}

/// A plan against a walked tree never touches an excluded path: where the manifest holds no
/// excluded path and none with an empty part, no step makes, uploads, links or removes one,
/// whatever was answered.
pub proof fn law_plan_never_touches_excluded_paths(
    root_exists: bool,
    excludes: Seq<Seq<char>>,
    include_hidden: bool,
    run: Seq<AnswerModel>,
    prune: bool,
    files: Seq<FileModel>,
    links: Seq<LinkModel>,
    step: StepModel,
    rel: Seq<char>,
)
    requires
        is_clean(files, links, excludes, include_hidden),
        excluded(rel, excludes, include_hidden),
        steps_for(
            after_all(walk_start(root_exists, excludes, include_hidden), run).tree,
            prune,
            files,
            links,
        ).contains(step),
    ensures
        !names(step, rel),
{
    let m = after_all(walk_start(root_exists, excludes, include_hidden), run);
    lemma_run_keeps_wf(walk_start(root_exists, excludes, include_hidden), run);
    let tree = m.tree;
    assert forall|i: int| 0 <= i < tree.file_list.len() implies !excluded(
        #[trigger] tree.file_list[i],
        excludes,
        include_hidden,
    ) by {
        assert(tree.file_list.contains(tree.file_list[i]));
        assert(tree.files.contains_key(tree.file_list[i]));
    }
    assert forall|i: int| 0 <= i < tree.link_list.len() implies !excluded(
        #[trigger] tree.link_list[i],
        excludes,
        include_hidden,
    ) by {
        assert(tree.link_list.contains(tree.link_list[i]));
        assert(tree.links.contains_key(tree.link_list[i]));
    }
    let s0 = root_steps(tree, files, links);
    let s1 = add_files(s0, tree, files);
    let s2 = add_links(s1, tree, links);
    let s3 = add_removals(s2, files, links, tree.file_list);
    lemma_files_spare(s0, tree, files, excludes, include_hidden);
    lemma_links_spare(s1, tree, links, excludes, include_hidden);
    lemma_removals_spare(s2, files, links, tree.file_list, excludes, include_hidden);
    lemma_removals_spare(s3, files, links, tree.link_list, excludes, include_hidden);
}

// --- lemmas --------------------------------------------------------------------------------

/// No step names an excluded path.
spec fn spares(steps: Seq<StepModel>, excludes: Seq<Seq<char>>, include_hidden: bool) -> bool {
    forall|i: int, rel: Seq<char>|
        0 <= i < steps.len() && excluded(rel, excludes, include_hidden) ==> !#[trigger] names(
            steps[i],
            rel,
        )
}

proof fn lemma_push_spares(
    steps: Seq<StepModel>,
    step: StepModel,
    excludes: Seq<Seq<char>>,
    include_hidden: bool,
)
    requires
        spares(steps, excludes, include_hidden),
        forall|rel: Seq<char>|
            excluded(rel, excludes, include_hidden) ==> !#[trigger] names(step, rel),
    ensures
        spares(steps.push(step), excludes, include_hidden),
{
    let all = steps.push(step);
    assert forall|i: int, rel: Seq<char>|
        0 <= i < all.len() && excluded(rel, excludes, include_hidden) implies !#[trigger] names(
        all[i],
        rel,
    ) by {
        if i < steps.len() {
            assert(!names(steps[i], rel));
        }
    }
}

proof fn lemma_dirs_spare(
    steps: Seq<StepModel>,
    dirs: Seq<Seq<char>>,
    excludes: Seq<Seq<char>>,
    include_hidden: bool,
)
    requires
        spares(steps, excludes, include_hidden),
        forall|k: int|
            0 <= k < dirs.len() ==> !excluded(#[trigger] dirs[k], excludes, include_hidden),
    ensures
        spares(add_dirs(steps, dirs), excludes, include_hidden),
    decreases dirs.len(),
{
    if dirs.len() > 0 {
        let front = dirs.drop_last();
        assert forall|k: int| 0 <= k < front.len() implies !excluded(
            #[trigger] front[k],
            excludes,
            include_hidden,
        ) by {
            assert(front[k] == dirs[k]);
        }
        lemma_dirs_spare(steps, front, excludes, include_hidden);
        assert(!excluded(dirs[dirs.len() - 1], excludes, include_hidden));
        lemma_push_spares(
            add_dirs(steps, front),
            StepModel::MakeDir(dirs.last()),
            excludes,
            include_hidden,
        );
    }
}

proof fn lemma_parents_spare(
    steps: Seq<StepModel>,
    rel: Seq<char>,
    excludes: Seq<Seq<char>>,
    include_hidden: bool,
)
    requires
        spares(steps, excludes, include_hidden),
        !has_empty_part(rel),
        !excluded(rel, excludes, include_hidden),
    ensures
        spares(add_dirs(steps, parents(rel)), excludes, include_hidden),
{
    assert forall|k: int| 0 <= k < parents(rel).len() implies !excluded(
        #[trigger] parents(rel)[k],
        excludes,
        include_hidden,
    ) by {
        law_parents_of_a_synced_path_are_synced(rel, k, excludes, include_hidden);
    }
    lemma_dirs_spare(steps, parents(rel), excludes, include_hidden);
}

proof fn lemma_files_spare(
    steps: Seq<StepModel>,
    tree: TreeModel,
    files: Seq<FileModel>,
    excludes: Seq<Seq<char>>,
    include_hidden: bool,
)
    requires
        spares(steps, excludes, include_hidden),
        is_clean(files, Seq::empty(), excludes, include_hidden),
    ensures
        spares(add_files(steps, tree, files), excludes, include_hidden),
    decreases files.len(),
{
    if files.len() > 0 {
        let front = files.drop_last();
        let f = files[files.len() - 1];
        assert forall|i: int| 0 <= i < front.len() implies !has_empty_part(
            (#[trigger] front[i]).rel,
        ) && !excluded(front[i].rel, excludes, include_hidden) by {
            assert(front[i] == files[i]);
        }
        lemma_files_spare(steps, tree, front, excludes, include_hidden);
        let before = add_files(steps, tree, front);
        lemma_parents_spare(before, f.rel, excludes, include_hidden);
        lemma_push_spares(
            add_dirs(before, parents(f.rel)),
            StepModel::Upload(f.rel),
            excludes,
            include_hidden,
        );
    }
}

proof fn lemma_links_spare(
    steps: Seq<StepModel>,
    tree: TreeModel,
    links: Seq<LinkModel>,
    excludes: Seq<Seq<char>>,
    include_hidden: bool,
)
    requires
        spares(steps, excludes, include_hidden),
        is_clean(Seq::empty(), links, excludes, include_hidden),
    ensures
        spares(add_links(steps, tree, links), excludes, include_hidden),
    decreases links.len(),
{
    if links.len() > 0 {
        let front = links.drop_last();
        let l = links[links.len() - 1];
        assert forall|i: int| 0 <= i < front.len() implies !has_empty_part(
            (#[trigger] front[i]).rel,
        ) && !excluded(front[i].rel, excludes, include_hidden) by {
            assert(front[i] == links[i]);
        }
        lemma_links_spare(steps, tree, front, excludes, include_hidden);
        let before = add_links(steps, tree, front);
        lemma_parents_spare(before, l.rel, excludes, include_hidden);
        lemma_push_spares(
            add_dirs(before, parents(l.rel)),
            StepModel::Relink { rel: l.rel, target: l.target },
            excludes,
            include_hidden,
        );
    }
}

proof fn lemma_removals_spare(
    steps: Seq<StepModel>,
    files: Seq<FileModel>,
    links: Seq<LinkModel>,
    paths: Seq<Seq<char>>,
    excludes: Seq<Seq<char>>,
    include_hidden: bool,
)
    requires
        spares(steps, excludes, include_hidden),
        forall|k: int|
            0 <= k < paths.len() ==> !excluded(#[trigger] paths[k], excludes, include_hidden),
    ensures
        spares(add_removals(steps, files, links, paths), excludes, include_hidden),
    decreases paths.len(),
{
    if paths.len() > 0 {
        let front = paths.drop_last();
        assert forall|k: int| 0 <= k < front.len() implies !excluded(
            #[trigger] front[k],
            excludes,
            include_hidden,
        ) by {
            assert(front[k] == paths[k]);
        }
        lemma_removals_spare(steps, files, links, front, excludes, include_hidden);
        assert(!excluded(paths[paths.len() - 1], excludes, include_hidden));
        lemma_push_spares(
            add_removals(steps, files, links, front),
            StepModel::Remove(paths.last()),
            excludes,
            include_hidden,
        );
    }
}

proof fn lemma_run_keeps_wf(m: WalkModel, run: Seq<AnswerModel>)
    requires
        m.wf(),
    ensures
        after_all(m, run).wf(),
        after_all(m, run).excludes == m.excludes,
        after_all(m, run).include_hidden == m.include_hidden,
    decreases run.len(),
{
    if run.len() > 0 {
        lemma_run_keeps_wf(m, run.drop_last());
        lemma_after_keeps_wf(after_all(m, run.drop_last()), run.last());
    }
}

proof fn lemma_push(m: WalkModel, run: Seq<AnswerModel>, answer: AnswerModel)
    ensures
        after_all(m, run.push(answer)) == after_all(m, run).after(answer),
{
    assert(run.push(answer).drop_last() =~= run);
}

proof fn lemma_single(m: WalkModel, answer: AnswerModel)
    ensures
        after_all(m, seq![answer]) == m.after(answer),
{
    assert(seq![answer] =~= Seq::<AnswerModel>::empty().push(answer));
    lemma_push(m, Seq::empty(), answer);
}

proof fn lemma_append(m: WalkModel, a: Seq<AnswerModel>, b: Seq<AnswerModel>)
    ensures
        after_all(m, a + b) == after_all(after_all(m, a), b),
    decreases b.len(),
{
    if b.len() == 0 {
        assert(a + b =~= a);
    } else {
        assert((a + b).drop_last() =~= a + b.drop_last());
        lemma_append(m, a, b.drop_last());
    }
}

/// Listing a directory changes nothing but the tree.
proof fn lemma_listing(m: WalkModel, entries: Seq<(Seq<char>, Node)>, n: nat)
    requires
        m.query is NextEntry,
        m.open.len() > 0,
        n <= entries.len(),
    ensures
        after_all(m, answers(m.open.last(), entries, n, m.excludes, m.include_hidden)) == (
        WalkModel {
            tree: collected(m.tree, m.open.last(), entries, n, m.excludes, m.include_hidden),
            ..m
        }),
    decreases entries, n,
{
    let prefix = m.open.last();
    if n > 0 {
        let front = answers(prefix, entries, (n - 1) as nat, m.excludes, m.include_hidden);
        let (name, node) = entries[n - 1];
        let rel = child(prefix, name);
        lemma_listing(m, entries, (n - 1) as nat);
        let m1 = after_all(m, front);
        let named = front.push(AnswerModel::Entry(name));
        lemma_push(m, front, AnswerModel::Entry(name));
        if !m.excludes_path(rel) {
            match node {
                Node::Dir(inner) => {
                    let kind = AnswerModel::Kind(EntryKind::Dir);
                    let opened = named.push(kind).push(AnswerModel::Opened);
                    lemma_push(m, named, kind);
                    lemma_push(m, named.push(kind), AnswerModel::Opened);
                    let m2 = after_all(m, opened);
                    let below = answers(rel, inner, inner.len(), m.excludes, m.include_hidden);
                    lemma_append(m, opened, below.push(AnswerModel::Exhausted));
                    assert(m2.open == m.open.push(rel));
                    lemma_listing(m2, inner, inner.len());
                    lemma_push(m2, below, AnswerModel::Exhausted);
                    assert(m.open.push(rel).drop_last() =~= m.open);
                },
                Node::File(stamp) => {
                    let kind = AnswerModel::Kind(EntryKind::File);
                    lemma_push(m, named, kind);
                    lemma_push(m, named.push(kind), AnswerModel::Measured(stamp));
                },
                Node::Symlink(target) => {
                    let kind = AnswerModel::Kind(EntryKind::Symlink);
                    lemma_push(m, named, kind);
                    lemma_push(m, named.push(kind), AnswerModel::Target(target));
                },
                Node::BrokenSymlink => {
                    let kind = AnswerModel::Kind(EntryKind::Symlink);
                    lemma_push(m, named, kind);
                    lemma_push(m, named.push(kind), AnswerModel::Failed);
                },
                Node::Other => {
                    lemma_push(m, named, AnswerModel::Kind(EntryKind::Other));
                },
            }
        }
    }
}

} // verus!

//! The reconciliation engine: given what is on the remote and what the host has, the steps that
//! bring the remote in line, and the worklist that is reported back.

use vstd::hash_set::StringHashSet;
use vstd::prelude::*;
use vstd::string::StringExecFns;

use crate::paths::{parent_dirs, parents};
use crate::proto::{FileEntry, FileModel, LinkEntry, LinkModel, Response, ResponseModel};
use crate::seqs::lemma_push;
use crate::tree::{Stamp, Tree, TreeModel};

verus! {

/// One step of a reconciliation, in the order in which the steps are to be taken. Paths are
/// relative to the build root.
#[derive(Debug, PartialEq, Eq)]
pub enum Step {
    /// Create the build root, which is missing.
    MakeRoot,
    /// Create a directory. The root, where it is missing, and the parents come earlier in the
    /// list.
    MakeDir(String),
    /// The host must send this file's contents. Nothing to do on the remote.
    Upload(String),
    /// Clear whatever file or link stands at `rel`, and put a symlink there.
    Relink { rel: String, target: String },
    /// Delete a file or symlink that the host no longer has.
    Remove(String),
}

/// What a [`Step`] says.
pub enum StepModel {
    MakeRoot,
    MakeDir(Seq<char>),
    Upload(Seq<char>),
    Relink { rel: Seq<char>, target: Seq<char> },
    Remove(Seq<char>),
}

impl DeepView for Step {
    type V = StepModel;

    open spec fn deep_view(&self) -> StepModel {
        match self {
            Step::MakeRoot => StepModel::MakeRoot,
            Step::MakeDir(dir) => StepModel::MakeDir(dir@),
            Step::Upload(rel) => StepModel::Upload(rel@),
            Step::Relink { rel, target } => StepModel::Relink { rel: rel@, target: target@ },
            Step::Remove(rel) => StepModel::Remove(rel@),
        }
    }
}

// --- what is to be done --------------------------------------------------------------------

/// The quick-check: the remote has the file with the same size and modification second.
pub open spec fn is_current_file(tree: TreeModel, f: FileModel) -> bool {
    tree.files.contains_key(f.rel) && tree.files[f.rel] == (Stamp { size: f.size, mtime: f.mtime })
}

/// The remote has the symlink with the same target.
pub open spec fn is_current_link(tree: TreeModel, l: LinkModel) -> bool {
    tree.links.contains_key(l.rel) && tree.links[l.rel] == l.target
}

/// The host has a file or symlink of this path.
pub open spec fn is_local(files: Seq<FileModel>, links: Seq<LinkModel>, rel: Seq<char>) -> bool {
    ||| exists|i: int| 0 <= i < files.len() && (#[trigger] files[i]).rel == rel
    ||| exists|i: int| 0 <= i < links.len() && (#[trigger] links[i]).rel == rel
}

/// `steps`, with `dir` made unless an earlier step makes it.
pub open spec fn add_dir(steps: Seq<StepModel>, dir: Seq<char>) -> Seq<StepModel> {
    if steps.contains(StepModel::MakeDir(dir)) {
        steps
    } else {
        steps.push(StepModel::MakeDir(dir))
    }
}

/// `steps`, with each of `dirs` made, in order.
pub open spec fn add_dirs(steps: Seq<StepModel>, dirs: Seq<Seq<char>>) -> Seq<StepModel>
    decreases dirs.len(),
{
    if dirs.len() == 0 {
        steps
    } else {
        add_dir(add_dirs(steps, dirs.drop_last()), dirs.last())
    }
}

/// `steps`, with the upload of `f` and its parent directories unless the remote copy is current.
pub open spec fn add_file(steps: Seq<StepModel>, tree: TreeModel, f: FileModel) -> Seq<StepModel> {
    if is_current_file(tree, f) {
        steps
    } else {
        add_dirs(steps, parents(f.rel)).push(StepModel::Upload(f.rel))
    }
}

pub open spec fn add_files(
    steps: Seq<StepModel>,
    tree: TreeModel,
    files: Seq<FileModel>,
) -> Seq<StepModel>
    decreases files.len(),
{
    if files.len() == 0 {
        steps
    } else {
        add_file(add_files(steps, tree, files.drop_last()), tree, files.last())
    }
}

/// `steps`, with `l` put in place and its parent directories unless the remote one is current.
pub open spec fn add_link(steps: Seq<StepModel>, tree: TreeModel, l: LinkModel) -> Seq<StepModel> {
    if is_current_link(tree, l) {
        steps
    } else {
        add_dirs(steps, parents(l.rel)).push(
            StepModel::Relink { rel: l.rel, target: l.target },
        )
    }
}

pub open spec fn add_links(
    steps: Seq<StepModel>,
    tree: TreeModel,
    links: Seq<LinkModel>,
) -> Seq<StepModel>
    decreases links.len(),
{
    if links.len() == 0 {
        steps
    } else {
        add_link(add_links(steps, tree, links.drop_last()), tree, links.last())
    }
}

/// `steps`, with the removal of each of `paths` that the host does not have.
pub open spec fn add_removals(
    steps: Seq<StepModel>,
    files: Seq<FileModel>,
    links: Seq<LinkModel>,
    paths: Seq<Seq<char>>,
) -> Seq<StepModel>
    decreases paths.len(),
{
    if paths.len() == 0 {
        steps
    } else {
        let front = add_removals(steps, files, links, paths.drop_last());
        if is_local(files, links, paths.last()) {
            front
        } else {
            front.push(StepModel::Remove(paths.last()))
        }
    }
}

/// What comes before anything else: the build root is made where it is missing and something is
/// to go into it.
pub open spec fn root_steps(
    tree: TreeModel,
    files: Seq<FileModel>,
    links: Seq<LinkModel>,
) -> Seq<StepModel> {
    if !tree.has_root && (files.len() > 0 || links.len() > 0) {
        seq![StepModel::MakeRoot]
    } else {
        Seq::empty()
    }
}

/// The steps that bring the remote tree in line with the manifest.
pub open spec fn steps_for(
    tree: TreeModel,
    prune: bool,
    files: Seq<FileModel>,
    links: Seq<LinkModel>,
) -> Seq<StepModel> {
    let sync = add_links(add_files(root_steps(tree, files, links), tree, files), tree, links);
    if prune {
        add_removals(
            add_removals(sync, files, links, tree.file_list),
            files,
            links,
            tree.link_list,
        )
    } else {
        sync
    }
}

// --- planning ------------------------------------------------------------------------------

/// The steps so far, with the set of directories that they make.
struct Draft {
    steps: Vec<Step>,
    ensured: StringHashSet,
}

impl Draft {
    spec fn wf(&self) -> bool {
        forall|d: Seq<char>| #[trigger]
            self.ensured@.contains(d) <==> self.steps.deep_view().contains(StepModel::MakeDir(d))
    }

    fn new() -> (draft: Draft)
        ensures
            draft.wf(),
            draft.steps.deep_view() == Seq::<StepModel>::empty(),
    {
        let draft = Draft { steps: Vec::new(), ensured: StringHashSet::new() };
        assert(draft.steps.deep_view() =~= Seq::<StepModel>::empty());
        draft
    }

    /// Appends a step that makes no directory.
    fn push(&mut self, step: Step)
        requires
            old(self).wf(),
            !(step is MakeDir),
        ensures
            final(self).wf(),
            final(self).steps.deep_view() == old(self).steps.deep_view().push(step.deep_view()),
    {
        let ghost before = self.steps.deep_view();
        self.steps.push(step);
        proof {
            assert(self.steps.deep_view() =~= before.push(step.deep_view()));
            lemma_push(before, step.deep_view());
        }
    }

    /// Makes the directories above `rel`, outermost first, each once over the whole plan.
    fn ensure_parent(&mut self, rel: &str)
        requires
            old(self).wf(),
        ensures
            final(self).wf(),
            final(self).steps.deep_view() == add_dirs(old(self).steps.deep_view(), parents(rel@)),
    {
        let dirs = parent_dirs(rel);
        let ghost start = self.steps.deep_view();
        let ghost all = dirs.deep_view();
        let mut i: usize = 0;
        assert(all.take(0) =~= Seq::empty());
        while i < dirs.len()
            invariant
                i <= dirs@.len(),
                all == dirs.deep_view(),
                self.wf(),
                self.steps.deep_view() == add_dirs(start, all.take(i as int)),
            decreases dirs@.len() - i,
        {
            let ghost before = self.steps.deep_view();
            let ghost dir = dirs@[i as int]@;
            assert(all.take(i + 1).drop_last() =~= all.take(i as int));
            assert(all.take(i + 1).last() == dir);
            assert(self.ensured@.contains(dir) <==> before.contains(StepModel::MakeDir(dir)));
            if self.ensured.insert(dirs[i].clone()) {
                self.steps.push(Step::MakeDir(dirs[i].clone()));
                proof {
                    assert(self.steps.deep_view() =~= before.push(StepModel::MakeDir(dir)));
                    lemma_push(before, StepModel::MakeDir(dir));
                }
            }
            i += 1;
        }
        assert(all.take(i as int) =~= all);
    }

    fn add_files(&mut self, tree: &Tree, files: &[FileEntry])
        requires
            old(self).wf(),
        ensures
            final(self).wf(),
            final(self).steps.deep_view() == add_files(
                old(self).steps.deep_view(),
                tree@,
                files.deep_view(),
            ),
    {
        let ghost start = self.steps.deep_view();
        let ghost all = files.deep_view();
        let mut i: usize = 0;
        assert(all.take(0) =~= Seq::empty());
        while i < files.len()
            invariant
                i <= files@.len(),
                all == files.deep_view(),
                self.wf(),
                self.steps.deep_view() == add_files(start, tree@, all.take(i as int)),
            decreases files@.len() - i,
        {
            let f = &files[i];
            assert(all.take(i + 1).drop_last() =~= all.take(i as int));
            assert(all.take(i + 1).last() == f.deep_view());
            if !tree.has_file(f.rel.as_str(), f.size, f.mtime) {
                self.ensure_parent(f.rel.as_str());
                self.push(Step::Upload(f.rel.clone()));
            }
            i += 1;
        }
        assert(all.take(i as int) =~= all);
    }

    fn add_links(&mut self, tree: &Tree, links: &[LinkEntry])
        requires
            old(self).wf(),
        ensures
            final(self).wf(),
            final(self).steps.deep_view() == add_links(
                old(self).steps.deep_view(),
                tree@,
                links.deep_view(),
            ),
    {
        let ghost start = self.steps.deep_view();
        let ghost all = links.deep_view();
        let mut i: usize = 0;
        assert(all.take(0) =~= Seq::empty());
        while i < links.len()
            invariant
                i <= links@.len(),
                all == links.deep_view(),
                self.wf(),
                self.steps.deep_view() == add_links(start, tree@, all.take(i as int)),
            decreases links@.len() - i,
        {
            let l = &links[i];
            assert(all.take(i + 1).drop_last() =~= all.take(i as int));
            assert(all.take(i + 1).last() == l.deep_view());
            if !tree.has_link(l.rel.as_str(), &l.target) {
                self.ensure_parent(l.rel.as_str());
                self.push(Step::Relink { rel: l.rel.clone(), target: l.target.clone() });
            }
            i += 1;
        }
        assert(all.take(i as int) =~= all);
    }

    fn add_removals(
        &mut self,
        local: &StringHashSet,
        paths: &Vec<String>,
        Ghost(files): Ghost<Seq<FileModel>>,
        Ghost(links): Ghost<Seq<LinkModel>>,
    )
        requires
            old(self).wf(),
            forall|rel: Seq<char>| #[trigger]
                local@.contains(rel) <==> is_local(files, links, rel),
        ensures
            final(self).wf(),
            final(self).steps.deep_view() == add_removals(
                old(self).steps.deep_view(),
                files,
                links,
                paths.deep_view(),
            ),
    {
        let ghost start = self.steps.deep_view();
        let ghost all = paths.deep_view();
        let mut i: usize = 0;
        assert(all.take(0) =~= Seq::empty());
        while i < paths.len()
            invariant
                i <= paths@.len(),
                all == paths.deep_view(),
                self.wf(),
                forall|rel: Seq<char>| #[trigger]
                    local@.contains(rel) <==> is_local(files, links, rel),
                self.steps.deep_view() == add_removals(start, files, links, all.take(i as int)),
            decreases paths@.len() - i,
        {
            assert(all.take(i + 1).drop_last() =~= all.take(i as int));
            assert(all.take(i + 1).last() == paths@[i as int]@);
            if !local.contains(paths[i].as_str()) {
                self.push(Step::Remove(paths[i].clone()));
            }
            i += 1;
        }
        assert(all.take(i as int) =~= all);
    }
}

/// The paths of the manifest.
fn local_paths(files: &[FileEntry], links: &[LinkEntry]) -> (local: StringHashSet)
    ensures
        forall|rel: Seq<char>| #[trigger]
            local@.contains(rel) <==> is_local(files.deep_view(), links.deep_view(), rel),
{
    let ghost fs = files.deep_view();
    let ghost ls = links.deep_view();
    let mut local = StringHashSet::new();
    let mut i: usize = 0;
    while i < files.len()
        invariant
            i <= files@.len(),
            fs == files.deep_view(),
            forall|rel: Seq<char>| #[trigger]
                local@.contains(rel) <==> exists|k: int| 0 <= k < i && (#[trigger] fs[k]).rel == rel,
        decreases files@.len() - i,
    {
        let ghost before = local@;
        local.insert(files[i].rel.clone());
        assert forall|rel: Seq<char>| #[trigger] local@.contains(rel) <==> exists|k: int|
            0 <= k < i + 1 && (#[trigger] fs[k]).rel == rel by {
            assert(fs[i as int].rel == files@[i as int].rel@);
            assert(before.contains(rel) <==> exists|k: int|
                0 <= k < i && (#[trigger] fs[k]).rel == rel);
        }
        i += 1;
    }
    let mut j: usize = 0;
    while j < links.len()
        invariant
            j <= links@.len(),
            fs == files.deep_view(),
            ls == links.deep_view(),
            forall|rel: Seq<char>| #[trigger]
                local@.contains(rel) <==> (exists|k: int|
                    0 <= k < fs.len() && (#[trigger] fs[k]).rel == rel) || (exists|k: int|
                    0 <= k < j && (#[trigger] ls[k]).rel == rel),
        decreases links@.len() - j,
    {
        let ghost before = local@;
        local.insert(links[j].rel.clone());
        assert forall|rel: Seq<char>| #[trigger] local@.contains(rel) <==> (exists|k: int|
            0 <= k < fs.len() && (#[trigger] fs[k]).rel == rel) || (exists|k: int|
            0 <= k < j + 1 && (#[trigger] ls[k]).rel == rel) by {
            assert(ls[j as int].rel == links@[j as int].rel@);
            assert(before.contains(rel) <==> (exists|k: int|
                0 <= k < fs.len() && (#[trigger] fs[k]).rel == rel) || (exists|k: int|
                0 <= k < j && (#[trigger] ls[k]).rel == rel));
        }
        j += 1;
    }
    local
}

/// The steps that bring the remote tree in line with the host's manifest: the build root where
/// it is missing, directories and uploads for the files whose size or mtime differ (or that are
/// absent), directories and links for the symlinks whose target differs, and, with `prune`, the
/// removal of what the host no longer has.
pub fn apply_plan(
    tree: &Tree,
    prune: bool,
    files: &[FileEntry],
    links: &[LinkEntry],
) -> (steps: Vec<Step>)
    ensures
        steps.deep_view() == steps_for(tree@, prune, files.deep_view(), links.deep_view()),
{
    let mut draft = Draft::new();
    if !tree.has_root() && (files.len() > 0 || links.len() > 0) {
        draft.push(Step::MakeRoot);
    }
    assert(draft.steps.deep_view() =~= root_steps(
        tree@,
        files.deep_view(),
        links.deep_view(),
    ));
    draft.add_files(tree, files);
    draft.add_links(tree, links);
    if prune {
        let local = local_paths(files, links);
        draft.add_removals(
            &local,
            tree.file_paths(),
            Ghost(files.deep_view()),
            Ghost(links.deep_view()),
        );
        draft.add_removals(
            &local,
            tree.link_paths(),
            Ghost(files.deep_view()),
            Ghost(links.deep_view()),
        );
    }
    draft.steps
}

// --- reporting -----------------------------------------------------------------------------

/// The uploads among `steps`, in order.
pub open spec fn uploads_of(steps: Seq<StepModel>) -> Seq<Seq<char>>
    decreases steps.len(),
{
    if steps.len() == 0 {
        Seq::empty()
    } else {
        match steps.last() {
            StepModel::Upload(rel) => uploads_of(steps.drop_last()).push(rel),
            _ => uploads_of(steps.drop_last()),
        }
    }
}

/// The kind of steps that a counter counts.
pub enum Tally {
    Dirs,
    Links,
    Removals,
}

pub open spec fn is_tallied(tally: Tally, step: StepModel) -> bool {
    match tally {
        Tally::Dirs => step is MakeDir || step is MakeRoot,
        Tally::Links => step is Relink,
        Tally::Removals => step is Remove,
    }
}

/// How many steps of a kind succeeded.
pub open spec fn count_done(tally: Tally, steps: Seq<StepModel>, done: Seq<bool>) -> nat
    decreases steps.len(),
{
    if steps.len() == 0 {
        0
    } else {
        count_done(tally, steps.drop_last(), done) + if is_tallied(tally, steps.last())
            && done[steps.len() - 1] {
            1nat
        } else {
            0nat
        }
    }
}

/// More steps never count less.
proof fn lemma_count_grows(tally: Tally, steps: Seq<StepModel>, done: Seq<bool>, n: int)
    requires
        0 <= n <= steps.len(),
    ensures
        count_done(tally, steps.take(n), done) <= count_done(tally, steps, done),
    decreases steps.len() - n,
{
    if n == steps.len() {
        assert(steps.take(n) =~= steps);
    } else {
        assert(steps.take(n + 1).drop_last() =~= steps.take(n));
        lemma_count_grows(tally, steps, done, n + 1);
    }
}

/// The worklist to report once the steps were taken: the files that the host must upload, and
/// how many directories were created (the root counts), entries pruned and symlinks put in
/// place. `done[i]` says whether step `i` succeeded.
pub fn worklist(steps: &Vec<Step>, done: &Vec<bool>) -> (res: Response)
    requires
        steps@.len() == done@.len(),
        count_done(Tally::Dirs, steps.deep_view(), done@) <= u32::MAX,
        count_done(Tally::Removals, steps.deep_view(), done@) <= u32::MAX,
        count_done(Tally::Links, steps.deep_view(), done@) <= u32::MAX,
    ensures
        res.deep_view() == (ResponseModel::Worklist {
            uploads: uploads_of(steps.deep_view()),
            created_dirs: count_done(Tally::Dirs, steps.deep_view(), done@) as u32,
            pruned: count_done(Tally::Removals, steps.deep_view(), done@) as u32,
            symlinks: count_done(Tally::Links, steps.deep_view(), done@) as u32,
        }),
{
    let ghost all = steps.deep_view();
    let mut uploads: Vec<String> = Vec::new();
    let mut created_dirs: u32 = 0;
    let mut pruned: u32 = 0;
    let mut symlinks: u32 = 0;
    let mut i: usize = 0;
    assert(all.take(0) =~= Seq::empty());
    assert(uploads.deep_view() =~= uploads_of(all.take(0)));
    while i < steps.len()
        invariant
            i <= steps@.len(),
            steps@.len() == done@.len(),
            all == steps.deep_view(),
            count_done(Tally::Dirs, all, done@) <= u32::MAX,
            count_done(Tally::Removals, all, done@) <= u32::MAX,
            count_done(Tally::Links, all, done@) <= u32::MAX,
            uploads.deep_view() == uploads_of(all.take(i as int)),
            created_dirs == count_done(Tally::Dirs, all.take(i as int), done@),
            pruned == count_done(Tally::Removals, all.take(i as int), done@),
            symlinks == count_done(Tally::Links, all.take(i as int), done@),
        decreases steps@.len() - i,
    {
        assert(all.take(i + 1).drop_last() =~= all.take(i as int));
        assert(all.take(i + 1).last() == steps@[i as int].deep_view());
        let ghost listed = uploads.deep_view();
        proof {
            lemma_count_grows(Tally::Dirs, all, done@, i + 1);
            lemma_count_grows(Tally::Removals, all, done@, i + 1);
            lemma_count_grows(Tally::Links, all, done@, i + 1);
        }
        match &steps[i] {
            Step::Upload(rel) => {
                uploads.push(rel.clone());
                assert(uploads.deep_view() =~= listed.push(rel@));
            },
            Step::MakeDir(_) | Step::MakeRoot => {
                if done[i] {
                    created_dirs += 1;
                }
            },
            Step::Relink { .. } => {
                if done[i] {
                    symlinks += 1;
                }
            },
            Step::Remove(_) => {
                if done[i] {
                    pruned += 1;
                }
            },
        }
        i += 1;
    }
    assert(all.take(i as int) =~= all);
    Response::Worklist { uploads, created_dirs, pruned, symlinks }
}

/// What is said where the remote tree could not be read.
pub open spec fn walk_failure_text(error: Seq<char>) -> Seq<char> {
    "failed to read remote build tree: "@ + error
}

/// The reply where the remote tree could not be read.
pub fn walk_failure(error: &str) -> (res: Response)
    ensures
        res.deep_view() == (ResponseModel::Error { message: walk_failure_text(error@) }),
        res.deep_view() == (ResponseModel::Error {
            message: "failed to read remote build tree: "@ + error@,
        }),
{
    let mut message = "failed to read remote build tree: ".to_owned();
    message.append(error);
    Response::Error { message }
}

} // verus!

//! The walk over the build tree, as a machine: it says what to ask of the file system next, and
//! takes in what the file system answered.

use vstd::prelude::*;

use crate::paths::{child, child_path, excluded, is_excluded};
use crate::tree::{Stamp, Tree, TreeModel};

verus! {

/// What a directory entry is, without following symlinks.
#[derive(Debug, Clone, Copy, PartialEq, Eq)]
pub enum EntryKind {
    Symlink,
    Dir,
    File,
    /// A socket, a device or the like: passed over.
    Other,
}

/// What to ask of the file system next. Paths are relative to the build root, which itself is
/// the empty path.
#[derive(Debug, PartialEq, Eq)]
pub enum Query {
    /// Open this directory for listing.
    Open(String),
    /// Take the next entry of the directory that was opened last and is not exhausted.
    NextEntry,
    /// Tell what kind of entry this is.
    Kind(String),
    /// Read this symlink's target.
    ReadLink(String),
    /// Read this file's size and modification time.
    Measure(String),
    /// Nothing: the tree is complete.
    Finish,
    /// Nothing: the tree could not be read.
    GiveUp,
}

/// What the file system answered.
#[derive(Debug, PartialEq, Eq)]
pub enum Answer {
    Opened,
    Entry(String),
    Exhausted,
    Kind(EntryKind),
    Target(String),
    Measured { size: u64, mtime: u32 },
    Failed,
}

/// What a [`Query`] asks.
pub enum QueryModel {
    Open(Seq<char>),
    NextEntry,
    Kind(Seq<char>),
    ReadLink(Seq<char>),
    Measure(Seq<char>),
    Finish,
    GiveUp,
}

/// What an [`Answer`] says.
pub enum AnswerModel {
    Opened,
    Entry(Seq<char>),
    Exhausted,
    Kind(EntryKind),
    Target(Seq<char>),
    Measured(Stamp),
    Failed,
}

impl DeepView for Query {
    type V = QueryModel;

    open spec fn deep_view(&self) -> QueryModel {
        match self {
            Query::Open(rel) => QueryModel::Open(rel@),
            Query::NextEntry => QueryModel::NextEntry,
            Query::Kind(rel) => QueryModel::Kind(rel@),
            Query::ReadLink(rel) => QueryModel::ReadLink(rel@),
            Query::Measure(rel) => QueryModel::Measure(rel@),
            Query::Finish => QueryModel::Finish,
            Query::GiveUp => QueryModel::GiveUp,
        }
    }
}

impl DeepView for Answer {
    type V = AnswerModel;

    open spec fn deep_view(&self) -> AnswerModel {
        match self {
            Answer::Opened => AnswerModel::Opened,
            Answer::Entry(name) => AnswerModel::Entry(name@),
            Answer::Exhausted => AnswerModel::Exhausted,
            Answer::Kind(kind) => AnswerModel::Kind(*kind),
            Answer::Target(target) => AnswerModel::Target(target@),
            Answer::Measured { size, mtime } => AnswerModel::Measured(
                Stamp { size: *size, mtime: *mtime },
            ),
            Answer::Failed => AnswerModel::Failed,
        }
    }
}

/// The state of a walk: the directories being listed, outermost first, what is asked, and what
/// was found so far.
pub struct WalkModel {
    pub excludes: Seq<Seq<char>>,
    pub include_hidden: bool,
    pub open: Seq<Seq<char>>,
    pub query: QueryModel,
    pub tree: TreeModel,
}

impl WalkModel {
    pub open spec fn excludes_path(self, rel: Seq<char>) -> bool {
        excluded(rel, self.excludes, self.include_hidden)
    }

    /// A path that the walk may touch: the root, or one that is not excluded.
    pub open spec fn may_visit(self, rel: Seq<char>) -> bool {
        rel.len() == 0 || !self.excludes_path(rel)
    }

    pub open spec fn wf(self) -> bool {
        &&& self.tree.wf()
        &&& forall|rel: Seq<char>| #[trigger]
            self.tree.files.contains_key(rel) ==> !self.excludes_path(rel)
        &&& forall|rel: Seq<char>| #[trigger]
            self.tree.links.contains_key(rel) ==> !self.excludes_path(rel)
        &&& forall|i: int| 0 <= i < self.open.len() ==> self.may_visit(#[trigger] self.open[i])
        &&& match self.query {
            QueryModel::Open(rel) => self.may_visit(rel),
            QueryModel::NextEntry => self.open.len() > 0,
            QueryModel::Kind(rel) => self.open.len() > 0 && !self.excludes_path(rel),
            QueryModel::ReadLink(rel) => self.open.len() > 0 && !self.excludes_path(rel),
            QueryModel::Measure(rel) => self.open.len() > 0 && !self.excludes_path(rel),
            QueryModel::Finish => self.open.len() == 0,
            QueryModel::GiveUp => true,
        }
    }

    pub open spec fn asking(self, query: QueryModel) -> WalkModel {
        WalkModel { query, ..self }
    }

    /// The state after an answer. An unreadable symlink is passed over; any other failure ends
    /// the walk. An answer to another question than the one asked changes nothing.
    pub open spec fn after(self, answer: AnswerModel) -> WalkModel {
        match (self.query, answer) {
            (QueryModel::Open(rel), AnswerModel::Opened) => WalkModel {
                open: self.open.push(rel),
                query: QueryModel::NextEntry,
                ..self
            },
            (QueryModel::Open(_), AnswerModel::Failed) => self.asking(QueryModel::GiveUp),
            (QueryModel::NextEntry, AnswerModel::Entry(name)) => {
                let rel = child(self.open.last(), name);
                if self.excludes_path(rel) {
                    self
                } else {
                    self.asking(QueryModel::Kind(rel))
                }
            },
            (QueryModel::NextEntry, AnswerModel::Exhausted) => WalkModel {
                open: self.open.drop_last(),
                query: if self.open.len() > 1 {
                    QueryModel::NextEntry
                } else {
                    QueryModel::Finish
                },
                ..self
            },
            (QueryModel::NextEntry, AnswerModel::Failed) => self.asking(QueryModel::GiveUp),
            (QueryModel::Kind(rel), AnswerModel::Kind(kind)) => match kind {
                EntryKind::Symlink => self.asking(QueryModel::ReadLink(rel)),
                EntryKind::Dir => self.asking(QueryModel::Open(rel)),
                EntryKind::File => self.asking(QueryModel::Measure(rel)),
                EntryKind::Other => self.asking(QueryModel::NextEntry),
            },
            (QueryModel::Kind(_), AnswerModel::Failed) => self.asking(QueryModel::GiveUp),
            (QueryModel::ReadLink(rel), AnswerModel::Target(target)) => WalkModel {
                tree: self.tree.with_link(rel, target),
                query: QueryModel::NextEntry,
                ..self
            },
            (QueryModel::ReadLink(_), AnswerModel::Failed) => self.asking(QueryModel::NextEntry),
            (QueryModel::Measure(rel), AnswerModel::Measured(stamp)) => WalkModel {
                tree: self.tree.with_file(rel, stamp),
                query: QueryModel::NextEntry,
                ..self
            },
            (QueryModel::Measure(_), AnswerModel::Failed) => self.asking(QueryModel::GiveUp),
            _ => self,
        }
    }
}

/// The state in which a walk starts. Where there is no root, the walk is over at once.
pub open spec fn walk_start(
    root_exists: bool,
    excludes: Seq<Seq<char>>,
    include_hidden: bool,
) -> WalkModel {
    WalkModel {
        excludes,
        include_hidden,
        open: Seq::empty(),
        query: if root_exists {
            QueryModel::Open(Seq::empty())
        } else {
            QueryModel::Finish
        },
        tree: TreeModel::bare(root_exists),
    }
}

/// A walk in progress.
pub struct Walk {
    excludes: Vec<String>,
    include_hidden: bool,
    open: Vec<String>,
    query: Query,
    tree: Tree,
}

impl View for Walk {
    type V = WalkModel;

    closed spec fn view(&self) -> WalkModel {
        WalkModel {
            excludes: self.excludes.deep_view(),
            include_hidden: self.include_hidden,
            open: self.open.deep_view(),
            query: self.query.deep_view(),
            tree: self.tree@,
        }
    }
}

impl Walk {
    pub open spec fn wf(&self) -> bool {
        self@.wf()
    }

    /// Starts a walk over the build root.
    pub fn start(root_exists: bool, excludes: Vec<String>, include_hidden: bool) -> (walk: Walk)
        ensures
            walk.wf(),
            walk@ == walk_start(root_exists, excludes.deep_view(), include_hidden),
    {
        let query = if root_exists {
            Query::Open(String::new())
        } else {
            Query::Finish
        };
        let walk = Walk { excludes, include_hidden, open: Vec::new(), query, tree: Tree::bare(root_exists) };
        assert(walk@.open =~= Seq::empty());
        walk
    }

    /// What to ask next.
    pub fn query(&self) -> (query: &Query)
        ensures
            query.deep_view() == self@.query,
    {
        &self.query
    }

    /// Takes in an answer.
    pub fn answer(&mut self, answer: Answer)
        requires
            old(self).wf(),
        ensures
            final(self).wf(),
            final(self)@ == old(self)@.after(answer.deep_view()),
    {
        let ghost before = self@;
        let mut asked = Query::NextEntry;
        std::mem::swap(&mut asked, &mut self.query);
        match (asked, answer) {
            (Query::Open(rel), Answer::Opened) => {
                self.open.push(rel);
                assert(self.open.deep_view() =~= before.open.push(rel@));
            },
            (Query::NextEntry, Answer::Entry(name)) => {
                assert(self.open@.len() == before.open.len());
                let prefix = &self.open[self.open.len() - 1];
                assert(before.open.last() == prefix@);
                let rel = child_path(prefix.as_str(), name.as_str());
                if !is_excluded(rel.as_str(), self.excludes.as_slice(), self.include_hidden) {
                    self.query = Query::Kind(rel);
                }
            },
            (Query::NextEntry, Answer::Exhausted) => {
                assert(self.open@.len() == before.open.len());
                self.open.pop();
                assert(self.open.deep_view() =~= before.open.drop_last());
                if self.open.len() == 0 {
                    self.query = Query::Finish;
                }
            },
            (Query::Kind(rel), Answer::Kind(kind)) => {
                match kind {
                    EntryKind::Symlink => {
                        self.query = Query::ReadLink(rel);
                    },
                    EntryKind::Dir => {
                        self.query = Query::Open(rel);
                    },
                    EntryKind::File => {
                        self.query = Query::Measure(rel);
                    },
                    EntryKind::Other => {},
                }
            },
            (Query::ReadLink(rel), Answer::Target(target)) => {
                self.tree.insert_link(rel, target);
            },
            (Query::ReadLink(_), Answer::Failed) => {},
            (Query::Measure(rel), Answer::Measured { size, mtime }) => {
                self.tree.insert_file(rel, size, mtime);
            },
            (Query::Open(_), Answer::Failed)
            | (Query::NextEntry, Answer::Failed)
            | (Query::Kind(_), Answer::Failed)
            | (Query::Measure(_), Answer::Failed) => {
                self.query = Query::GiveUp;
            },
            (other, _) => {
                self.query = other;
            },
        }
        proof {
            lemma_after_keeps_wf(before, answer.deep_view());
        }
    }

    /// What the walk found so far; the whole tree once the walk asks nothing more.
    pub fn into_tree(self) -> (tree: Tree)
        ensures
            tree@ == self@.tree,
    {
        self.tree
    }
}

pub proof fn lemma_after_keeps_wf(m: WalkModel, answer: AnswerModel)
    requires
        m.wf(),
    ensures
        m.after(answer).wf(),
{
    match (m.query, answer) {
        (QueryModel::ReadLink(rel), AnswerModel::Target(target)) => {
            m.tree.lemma_with_link(rel, target);
        },
        (QueryModel::Measure(rel), AnswerModel::Measured(stamp)) => {
            m.tree.lemma_with_file(rel, stamp);
        },
        _ => {},
    }
}

/// The modification second that the wire carries: the low 32 bits of the seconds since the epoch,
/// or 0 where there is no such time.
pub open spec fn wire_mtime(since_epoch: Option<u64>) -> u32 {
    match since_epoch {
        Some(secs) => (secs % 0x1_0000_0000) as u32,
        None => 0,
    }
}

/// Modification second of a file as the wire carries it: the low 32 bits of the seconds since
/// the epoch, or 0 where there is no such time.
pub fn mtime_secs(since_epoch: Option<u64>) -> (res: u32)
    ensures
        res == (match since_epoch {
            Some(secs) => secs % 0x1_0000_0000,
            None => 0,
        }),
        res == wire_mtime(since_epoch),
{
    match since_epoch {
        Some(secs) => (secs % 0x1_0000_0000) as u32,
        None => 0,
    }
}

} // verus!

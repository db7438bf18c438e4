//! What is on the remote: the files and symlinks found beneath the build root.

use vstd::hash_map::StringHashMap;
use vstd::prelude::*;

use crate::seqs::lemma_push;

verus! {

/// Size and modification second of a file: what the quick-check compares.
pub struct Stamp {
    pub size: u64,
    pub mtime: u32,
}

/// What a [`Tree`] holds: whether the build root is there, and what is beneath it. The two lists
/// give the keys of the maps, each once, in the order in which they were first recorded.
pub struct TreeModel {
    pub has_root: bool,
    pub files: Map<Seq<char>, Stamp>,
    pub links: Map<Seq<char>, Seq<char>>,
    pub file_list: Seq<Seq<char>>,
    pub link_list: Seq<Seq<char>>,
}

/// `list` gives the keys of `m`, each once.
pub open spec fn lists_keys<V>(list: Seq<Seq<char>>, m: Map<Seq<char>, V>) -> bool {
    &&& list.no_duplicates()
    &&& forall|k: Seq<char>| #[trigger] m.contains_key(k) <==> list.contains(k)
}

impl TreeModel {
    pub open spec fn wf(self) -> bool {
        &&& lists_keys(self.file_list, self.files)
        &&& lists_keys(self.link_list, self.links)
        &&& self.has_root || (self.file_list.len() == 0 && self.link_list.len() == 0)
    }

    /// A build root with nothing in it, or none at all.
    pub open spec fn bare(has_root: bool) -> TreeModel {
        TreeModel {
            has_root,
            files: Map::empty(),
            links: Map::empty(),
            file_list: Seq::empty(),
            link_list: Seq::empty(),
        }
    }

    /// A build root with nothing in it.
    pub open spec fn empty() -> TreeModel {
        TreeModel::bare(true)
    }

    /// The tree with the file `rel` recorded; a later record of the same path replaces it.
    pub open spec fn with_file(self, rel: Seq<char>, stamp: Stamp) -> TreeModel {
        TreeModel {
            has_root: true,
            files: self.files.insert(rel, stamp),
            file_list: if self.files.contains_key(rel) {
                self.file_list
            } else {
                self.file_list.push(rel)
            },
            ..self
        }
    }

    /// The tree with the symlink `rel` recorded; a later record of the same path replaces it.
    pub open spec fn with_link(self, rel: Seq<char>, target: Seq<char>) -> TreeModel {
        TreeModel {
            has_root: true,
            links: self.links.insert(rel, target),
            link_list: if self.links.contains_key(rel) {
                self.link_list
            } else {
                self.link_list.push(rel)
            },
            ..self
        }
    }
}

/// The remote tree: path to size and mtime for files, path to target for symlinks.
pub struct Tree {
    has_root: bool,
    files: StringHashMap<Stamp>,
    links: StringHashMap<String>,
    file_list: Vec<String>,
    link_list: Vec<String>,
}

impl View for Tree {
    type V = TreeModel;

    closed spec fn view(&self) -> TreeModel {
        TreeModel {
            has_root: self.has_root,
            files: self.files@,
            links: self.links@.map_values(|t: String| t@),
            file_list: self.file_list.deep_view(),
            link_list: self.link_list.deep_view(),
        }
    }
}

impl Tree {
    pub open spec fn wf(&self) -> bool {
        self@.wf()
    }

    /// A build root with nothing in it.
    pub fn new() -> (t: Tree)
        ensures
            t.wf(),
            t@ == TreeModel::empty(),
    {
        Tree::bare(true)
    }

    /// A build root with nothing in it, or none at all.
    pub fn bare(has_root: bool) -> (t: Tree)
        ensures
            t.wf(),
            t@ == TreeModel::bare(has_root),
    {
        let t = Tree {
            has_root,
            files: StringHashMap::new(),
            links: StringHashMap::new(),
            file_list: Vec::new(),
            link_list: Vec::new(),
        };
        assert(t@.files =~= Map::empty());
        assert(t@.links =~= Map::empty());
        assert(t@.file_list =~= Seq::empty());
        assert(t@.link_list =~= Seq::empty());
        t
    }

    /// Whether the build root is there.
    pub fn has_root(&self) -> (res: bool)
        ensures
            res == self@.has_root,
    {
        self.has_root
    }

    /// Records a file.
    pub fn insert_file(&mut self, rel: String, size: u64, mtime: u32)
        requires
            old(self).wf(),
        ensures
            final(self).wf(),
            final(self)@ == old(self)@.with_file(rel@, Stamp { size, mtime }),
    {
        let ghost before = self@;
        if !self.files.contains_key(rel.as_str()) {
            self.file_list.push(rel.clone());
            assert(self.file_list.deep_view() =~= before.file_list.push(rel@));
        }
        self.files.insert(rel, Stamp { size, mtime });
        self.has_root = true;
        proof {
            before.lemma_with_file(rel@, Stamp { size, mtime });
            assert(self@ == before.with_file(rel@, Stamp { size, mtime }));
        }
    }

    /// Records a symlink.
    pub fn insert_link(&mut self, rel: String, target: String)
        requires
            old(self).wf(),
        ensures
            final(self).wf(),
            final(self)@ == old(self)@.with_link(rel@, target@),
    {
        let ghost before = self@;
        if !self.links.contains_key(rel.as_str()) {
            self.link_list.push(rel.clone());
            assert(self.link_list.deep_view() =~= before.link_list.push(rel@));
        }
        self.links.insert(rel, target);
        self.has_root = true;
        proof {
            before.lemma_with_link(rel@, target@);
            assert(self@.links =~= before.links.insert(rel@, target@));
            assert(self@ == before.with_link(rel@, target@));
        }
    }

    /// Whether the file `rel` is there with this size and mtime.
    pub fn has_file(&self, rel: &str, size: u64, mtime: u32) -> (res: bool)
        ensures
            res == (self@.files.contains_key(rel@) && self@.files[rel@] == Stamp { size, mtime }),
    {
        match self.files.get(rel) {
            Some(stamp) => stamp.size == size && stamp.mtime == mtime,
            None => false,
        }
    }

    /// Whether the symlink `rel` is there with this target.
    pub fn has_link(&self, rel: &str, target: &String) -> (res: bool)
        ensures
            res == (self@.links.contains_key(rel@) && self@.links[rel@] == target@),
    {
        match self.links.get(rel) {
            Some(found) => *found == *target,
            None => false,
        }
    }

    /// The paths of the files.
    pub fn file_paths(&self) -> (list: &Vec<String>)
        ensures
            list.deep_view() == self@.file_list,
    {
        &self.file_list
    }

    /// The paths of the symlinks.
    pub fn link_paths(&self) -> (list: &Vec<String>)
        ensures
            list.deep_view() == self@.link_list,
    {
        &self.link_list
    }
}

proof fn lemma_list_grows<V>(list: Seq<Seq<char>>, m: Map<Seq<char>, V>, key: Seq<char>, v: V)
    requires
        lists_keys(list, m),
    ensures
        lists_keys(if m.contains_key(key) { list } else { list.push(key) }, m.insert(key, v)),
{
    let longer = list.push(key);
    lemma_push(list, key);
    assert forall|k: Seq<char>| #[trigger] m.insert(key, v).contains_key(k) <==> (if m.contains_key(
        key,
    ) {
        list
    } else {
        longer
    }).contains(k) by {
        assert(m.contains_key(k) <==> list.contains(k));
    }
    if !m.contains_key(key) {
        assert(!list.contains(key));
        assert(longer.no_duplicates());
    }
}

impl TreeModel {
    pub proof fn lemma_with_file(self, rel: Seq<char>, stamp: Stamp)
        requires
            self.wf(),
        ensures
            self.with_file(rel, stamp).wf(),
    {
        lemma_list_grows(self.file_list, self.files, rel, stamp);
    }

    pub proof fn lemma_with_link(self, rel: Seq<char>, target: Seq<char>)
        requires
            self.wf(),
        ensures
            self.with_link(rel, target).wf(),
    {
        lemma_list_grows(self.link_list, self.links, rel, target);
    }
}

} // verus!

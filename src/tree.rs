//! The merged asset tree: directories and files contributed by mods, with
//! last-writer-wins replacement of files. Directories live in one arena;
//! parent and child links are indices into it.

use vstd::prelude::*;
use crate::text::str_eq;

verus! {

/// A loose file contributed by a mod.
pub struct TocFile {
    /// Leaf name, extension included.
    pub name: String,
    pub file_size: u64,
    /// Where the file lies on disk.
    pub os_file_path: String,
}

impl TocFile {
    pub fn new(name: &str, file_size: u64, os_path: &str) -> (r: Self)
        ensures
            r.name@ == name@,
            r.file_size == file_size,
            r.os_file_path@ == os_path@,
    {
        TocFile { name: name.to_owned(), file_size, os_file_path: os_path.to_owned() }
    }
}

/// Whether adding a file appended it or replaced a file of the same name.
pub enum TocFileAddType {
    Addition,
    Replacement,
}

/// One directory: its name (none on the root), a back-reference to its
/// parent, its child directories in insertion order and its files.
pub struct TocDirectory {
    pub name: Option<String>,
    pub parent: Option<usize>,
    pub children: Vec<usize>,
    pub files: Vec<TocFile>,
}

/// No two files of `fs` share a name.
pub open spec fn file_names_unique(fs: Seq<TocFile>) -> bool {
    forall|i: int, j: int|
        0 <= i < fs.len() && 0 <= j < fs.len() && i != j ==> fs[i].name@ != fs[j].name@
}

/// Some file of `fs` is named `name`.
pub open spec fn has_file_named(fs: Seq<TocFile>, name: Seq<char>) -> bool {
    exists|j: int| 0 <= j < fs.len() && fs[j].name@ == name
}

/// The file list after adding `f`: it takes the place of the file with its
/// name, or goes to the end.
pub open spec fn add_or_replace(fs: Seq<TocFile>, f: TocFile) -> Seq<TocFile> {
    if has_file_named(fs, f.name@) {
        fs.update(choose|j: int| 0 <= j < fs.len() && fs[j].name@ == f.name@, f)
    } else {
        fs.push(f)
    }
}

impl TocDirectory {
    pub fn new(name: Option<String>) -> (r: Self)
        ensures
            r.name == name,
            r.parent is None,
            r.children@.len() == 0,
            r.files@.len() == 0,
    {
        TocDirectory { name, parent: None, children: Vec::new(), files: Vec::new() }
    }

    pub fn has_children(&self) -> (r: bool)
        ensures
            r == (self.children@.len() > 0),
    {
        self.children.len() > 0
    }

    pub fn has_files(&self) -> (r: bool)
        ensures
            r == (self.files@.len() > 0),
    {
        self.files.len() > 0
    }

    /// Puts `file` in place of the file with the same name, keeping its
    /// position, or appends it.
    pub fn add_or_replace_file(&mut self, file: TocFile) -> (r: TocFileAddType)
        requires
            file_names_unique(old(self).files@),
        ensures
            final(self).files@ == add_or_replace(old(self).files@, file),
            file_names_unique(final(self).files@),
            (r is Replacement) == has_file_named(old(self).files@, file.name@),
            final(self).name == old(self).name,
            final(self).parent == old(self).parent,
            final(self).children == old(self).children,
    {
        let ghost fs = self.files@;
        let mut i: usize = 0;
        while i < self.files.len()
            invariant
                i <= self.files@.len(),
                self.files@ == fs,
                fs == old(self).files@,
                file_names_unique(fs),
                self.name == old(self).name,
                self.parent == old(self).parent,
                self.children == old(self).children,
                forall|j: int| 0 <= j < i ==> fs[j].name@ != file.name@,
            decreases self.files@.len() - i,
        {
            if str_eq(self.files[i].name.as_str(), file.name.as_str()) {
                let ghost f = file;
                assert(fs[i as int].name@ == f.name@);
                assert(has_file_named(fs, f.name@));
                self.files.set(i, file);
                proof {
                    let c = choose|j: int| 0 <= j < fs.len() && fs[j].name@ == f.name@;
                    assert(fs[c].name@ == fs[i as int].name@);
                    assert(c == i);
                    assert(self.files@ =~= fs.update(i as int, f));
                }
                return TocFileAddType::Replacement;
            }
            i = i + 1;
        }
        self.files.push(file);
        TocFileAddType::Addition
    }
}

/// The arena of directories; index 0 is the root.
pub struct TocTree {
    pub dirs: Vec<TocDirectory>,
}

/// What `enter_directory` stores for a directory met in a mod: a first-level
/// directory not named `Engine` is stored as `Game`.
pub open spec fn stored_dir_name(name: Seq<char>, first: bool) -> Seq<char> {
    if first && name != "Engine"@ {
        "Game"@
    } else {
        name
    }
}

/// What entering a directory does: the result is the child of `parent`
/// with the stored name; where one existed the tree is unchanged, else it
/// is a new, empty directory appended to the arena and to the children.
pub open spec fn enter_directory_post(
    t0: TocTree,
    t1: TocTree,
    parent: int,
    name: Seq<char>,
    first: bool,
    r: usize,
) -> bool {
    let stored = stored_dir_name(name, first);
    &&& t1.wf()
    &&& r < t1.dirs@.len()
    &&& t1.dirs@[r as int].parent == Some(parent as usize)
    &&& t1.dirs@[parent].children@.contains(r)
    &&& t1.dir_name(r as int) == stored
    &&& t1.has_child_named(parent, stored)
    &&& t0.has_child_named(parent, stored) ==> t1 == t0
    &&& !t0.has_child_named(parent, stored) ==> {
        &&& r == t0.dirs@.len()
        &&& t1.dirs@.len() == t0.dirs@.len() + 1
        &&& t1.dirs@[parent].children@ == t0.dirs@[parent].children@.push(r)
        &&& t1.dirs@[r as int].files@.len() == 0
        &&& t1.dirs@[r as int].children@.len() == 0
        &&& forall|i: int| 0 <= i < t0.dirs@.len() && i != parent ==> t1.dirs@[i] == t0.dirs@[i]
    }
}

impl TocTree {
    /// Well-formed: the root is unnamed and parentless; every other directory
    /// is named, its parent comes before it and lists it; children come after
    /// their parent; sibling directory names and sibling file names are unique.
    pub open spec fn wf(&self) -> bool {
        let d = self.dirs@;
        &&& d.len() >= 1
        &&& d[0].name is None
        &&& d[0].parent is None
        &&& forall|i: int| 1 <= i < d.len() ==> {
            &&& #[trigger] d[i].name is Some
            &&& d[i].parent is Some
            &&& d[i].parent->0 < i
        }
        &&& forall|i: int, k: int| 0 <= i < d.len() && 0 <= k < d[i].children@.len() ==> {
            &&& i < #[trigger] d[i].children@[k] < d.len()
            &&& d[d[i].children@[k] as int].parent == Some(i as usize)
        }
        &&& forall|i: int| 0 <= i < d.len() ==> #[trigger] self.child_names_unique(i)
        &&& forall|i: int| 0 <= i < d.len() ==> file_names_unique(#[trigger] d[i].files@)
    }

    /// The name of directory `c`, as a character sequence.
    pub open spec fn dir_name(&self, c: int) -> Seq<char> {
        self.dirs@[c].name->0@
    }

    pub open spec fn child_names_unique(&self, i: int) -> bool {
        let ch = self.dirs@[i].children@;
        forall|a: int, b: int|
            0 <= a < ch.len() && 0 <= b < ch.len() && a != b ==> self.dir_name(ch[a] as int)
                != self.dir_name(ch[b] as int)
    }

    /// Some child directory of `parent` is named `name`.
    pub open spec fn has_child_named(&self, parent: int, name: Seq<char>) -> bool {
        exists|k: int|
            0 <= k < self.dirs@[parent].children@.len() && self.dir_name(
                #[trigger] self.dirs@[parent].children@[k] as int,
            ) == name
    }

    /// A tree holding only the unnamed root.
    pub fn new() -> (r: Self)
        ensures
            r.wf(),
            r.dirs@.len() == 1,
            r.dirs@[0].children@.len() == 0,
            r.dirs@[0].files@.len() == 0,
    {
        let mut dirs: Vec<TocDirectory> = Vec::new();
        dirs.push(TocDirectory::new(None));
        TocTree { dirs }
    }

    /// The child of `parent` named `exist`, by a linear scan of its children.
    pub fn get_child_dir(&self, parent: usize, exist: &str) -> (r: Option<usize>)
        requires
            self.wf(),
            parent < self.dirs@.len(),
        ensures
            r is None <==> !self.has_child_named(parent as int, exist@),
            r is Some ==> self.dirs@[parent as int].children@.contains(r->0) && self.dir_name(
                r->0 as int,
            ) == exist@ && self.dirs@[r->0 as int].parent == Some(parent),
    {
        let ch = &self.dirs[parent].children;
        let mut k: usize = 0;
        while k < ch.len()
            invariant
                self.wf(),
                parent < self.dirs@.len(),
                *ch == self.dirs@[parent as int].children,
                k <= ch@.len(),
                forall|j: int| 0 <= j < k ==> self.dir_name(ch@[j] as int) != exist@,
            decreases ch@.len() - k,
        {
            let c = ch[k];
            assert(parent < c < self.dirs@.len());
            match &self.dirs[c].name {
                Some(n) => {
                    if str_eq(n.as_str(), exist) {
                        return Some(c);
                    }
                },
                None => {},
            }
            k = k + 1;
        }
        None
    }

    /// Appends `child` to the children of `parent` and sets its parent link.
    /// The caller has found no child of that name.
    pub fn add_directory(&mut self, parent: usize, child: TocDirectory) -> (r: usize)
        requires
            old(self).wf(),
            parent < old(self).dirs@.len(),
            child.name is Some,
            child.children@.len() == 0,
            file_names_unique(child.files@),
            !old(self).has_child_named(parent as int, child.name->0@),
        ensures
            final(self).wf(),
            r == old(self).dirs@.len(),
            final(self).dirs@.len() == old(self).dirs@.len() + 1,
            final(self).dirs@[r as int].name == child.name,
            final(self).dirs@[r as int].parent == Some(parent),
            final(self).dirs@[r as int].files == child.files,
            final(self).dirs@[r as int].children@.len() == 0,
            final(self).dirs@[parent as int].children@ == old(self).dirs@[parent as int].children@.push(r),
            final(self).dirs@[parent as int].files == old(self).dirs@[parent as int].files,
            final(self).dirs@[parent as int].name == old(self).dirs@[parent as int].name,
            final(self).dirs@[parent as int].parent == old(self).dirs@[parent as int].parent,
            forall|i: int| 0 <= i < old(self).dirs@.len() && i != parent ==> final(self).dirs@[i] == old(self).dirs@[i],
    {
        let r = self.dirs.len();
        let mut child = child;
        child.parent = Some(parent);
        self.dirs.push(child);
        let ghost mid = self.dirs@;
        let mut p = self.dirs.remove(parent);
        p.children.push(r);
        self.dirs.insert(parent, p);
        proof {
            let d = self.dirs@;
            assert(d =~= mid.update(parent as int, d[parent as int]));
            assert forall|i: int| 0 <= i < d.len() implies #[trigger] self.child_names_unique(i) by {
                if i == parent as int {
                    let ch = d[i].children@;
                    assert forall|a: int, b: int|
                        0 <= a < ch.len() && 0 <= b < ch.len() && a != b implies self.dir_name(ch[a] as int)
                            != self.dir_name(ch[b] as int) by {
                        if a < ch.len() - 1 && b < ch.len() - 1 {
                            assert(old(self).child_names_unique(i));
                        } else if a == ch.len() - 1 {
                            assert(ch[b] < r);
                        } else {
                            assert(ch[a] < r);
                        }
                    }
                } else if i < r {
                    assert(old(self).child_names_unique(i));
                    assert(d[i] == old(self).dirs@[i]);
                }
            }
        }
        r
    }

    /// Finds or creates the child of `parent` for a directory named `name`
    /// met while reading a mod; `first` marks the top level of the mod, where
    /// a name other than `Engine` becomes `Game`. Directories are never replaced.
    pub fn enter_directory(&mut self, parent: usize, name: &str, first: bool) -> (r: usize)
        requires
            old(self).wf(),
            parent < old(self).dirs@.len(),
        ensures
            enter_directory_post(*old(self), *final(self), parent as int, name@, first, r),
    {
        let stored: String = if first && !str_eq(name, "Engine") {
            proof {
                reveal_strlit("Game");
            }
            "Game".to_owned()
        } else {
            name.to_owned()
        };
        proof {
            reveal_strlit("Engine");
        }
        assert(stored@ == stored_dir_name(name@, first));
        match self.get_child_dir(parent, stored.as_str()) {
            Some(c) => {
                proof {
                    let k = choose|k: int| 0 <= k < self.dirs@[parent as int].children@.len()
                        && self.dirs@[parent as int].children@[k] == c;
                    assert(self.dir_name(self.dirs@[parent as int].children@[k] as int) == stored@);
                    assert(self.dirs@[parent as int].children@.contains(c));
                }
                c
            },
            None => {
                let d = TocDirectory::new(Some(stored));
                let r = self.add_directory(parent, d);
                proof {
                    let k = self.dirs@[parent as int].children@.len() - 1;
                    assert(self.dirs@[parent as int].children@[k] == r);
                    assert(self.dirs@[parent as int].children@.contains(r));
                }
                r
            },
        }
    }

    /// Adds `file` to directory `dir`, replacing the file of the same name.
    pub fn add_file(&mut self, dir: usize, file: TocFile) -> (r: TocFileAddType)
        requires
            old(self).wf(),
            dir < old(self).dirs@.len(),
        ensures
            final(self).wf(),
            final(self).dirs@.len() == old(self).dirs@.len(),
            final(self).dirs@[dir as int].files@ == add_or_replace(old(self).dirs@[dir as int].files@, file),
            (r is Replacement) == has_file_named(old(self).dirs@[dir as int].files@, file.name@),
            forall|i: int| 0 <= i < old(self).dirs@.len() && i != dir ==> final(self).dirs@[i] == old(self).dirs@[i],
            forall|i: int| 0 <= i < old(self).dirs@.len() ==> final(self).dirs@[i].children == old(self).dirs@[i].children
                && final(self).dirs@[i].name == old(self).dirs@[i].name
                && final(self).dirs@[i].parent == old(self).dirs@[i].parent,
    {
        let mut d = self.dirs.remove(dir);
        let ghost mid = self.dirs@;
        proof {
            assert(old(self).dirs@[dir as int] == d);
        }
        let r = d.add_or_replace_file(file);
        self.dirs.insert(dir, d);
        proof {
            let n = self.dirs@;
            assert(n =~= old(self).dirs@.update(dir as int, d));
            assert forall|i: int| 0 <= i < n.len() implies #[trigger] self.child_names_unique(i) by {
                assert(old(self).child_names_unique(i));
            }
        }
        r
    }
}

proof fn lemma_add_or_replace_props(fs: Seq<TocFile>, f: TocFile)
    requires
        file_names_unique(fs),
    ensures
        file_names_unique(add_or_replace(fs, f)),
        has_file_named(add_or_replace(fs, f), f.name@),
        has_file_named(fs, f.name@) ==> add_or_replace(fs, f).len() == fs.len(),
        !has_file_named(fs, f.name@) ==> add_or_replace(fs, f) == fs.push(f),
        forall|j: int| 0 <= j < add_or_replace(fs, f).len() && add_or_replace(fs, f)[j].name@ == f.name@
            ==> add_or_replace(fs, f)[j] == f,
{
    let r = add_or_replace(fs, f);
    if has_file_named(fs, f.name@) {
        let c = choose|j: int| 0 <= j < fs.len() && fs[j].name@ == f.name@;
        assert(r[c] == f);
        assert forall|j: int| 0 <= j < r.len() && r[j].name@ == f.name@ implies r[j] == f by {
            if j != c {
                assert(fs[j].name@ == fs[c].name@);
            }
        }
    } else {
        assert(r[fs.len() as int] == f);
    }
}

/// Every directory of a well-formed tree, which each operation keeps, has
/// sibling directories of distinct names and files of distinct names.
pub proof fn lemma_sibling_names_unique(t: TocTree, i: int)
    requires
        t.wf(),
        0 <= i < t.dirs@.len(),
    ensures
        t.child_names_unique(i),
        file_names_unique(t.dirs@[i].files@),
{
}

/// Adding the same file twice leaves the files as adding it once.
pub proof fn lemma_add_file_idempotent(fs: Seq<TocFile>, f: TocFile)
    requires
        file_names_unique(fs),
    ensures
        add_or_replace(add_or_replace(fs, f), f) == add_or_replace(fs, f),
{
    lemma_add_or_replace_props(fs, f);
    let r = add_or_replace(fs, f);
    let c = choose|j: int| 0 <= j < r.len() && r[j].name@ == f.name@;
    assert(r[c] == f);
    assert(r.update(c, f) =~= r);
}

/// Where a later file has the name of an earlier one, the directory holds
/// one file of that name, the later one, where the earlier one stood.
pub proof fn lemma_later_file_wins(fs: Seq<TocFile>, a: TocFile, b: TocFile)
    requires
        file_names_unique(fs),
        a.name@ == b.name@,
    ensures
        ({
            let once = add_or_replace(fs, a);
            let twice = add_or_replace(once, b);
            &&& twice.len() == once.len()
            &&& forall|j: int| 0 <= j < twice.len() && twice[j].name@ == a.name@ ==> twice[j] == b
            &&& forall|j: int| 0 <= j < once.len() && once[j].name@ == a.name@ ==> twice[j] == b
            &&& forall|j: int| 0 <= j < once.len() && once[j].name@ != a.name@ ==> twice[j] == once[j]
        }),
{
    lemma_add_or_replace_props(fs, a);
    let once = add_or_replace(fs, a);
    lemma_add_or_replace_props(once, b);
    let twice = add_or_replace(once, b);
    let c = choose|j: int| 0 <= j < once.len() && once[j].name@ == b.name@;
    assert forall|j: int| 0 <= j < once.len() && once[j].name@ == a.name@ implies twice[j] == b by {
        assert(j == c);
    }
}

/// Entering a directory a second time, with the same name at the same
/// level, returns the directory that the first call made or found and
/// leaves the tree as the first call left it.
pub proof fn lemma_enter_directory_idempotent(
    t0: TocTree,
    t1: TocTree,
    t2: TocTree,
    parent: int,
    name: Seq<char>,
    first: bool,
    r1: usize,
    r2: usize,
)
    requires
        t0.wf(),
        0 <= parent < t0.dirs@.len(),
        enter_directory_post(t0, t1, parent, name, first, r1),
        enter_directory_post(t1, t2, parent, name, first, r2),
    ensures
        t2 == t1,
        r2 == r1,
{
    let ch = t1.dirs@[parent].children@;
    let a = choose|a: int| 0 <= a < ch.len() && ch[a] == r1;
    let b = choose|b: int| 0 <= b < ch.len() && ch[b] == r2;
    assert(t1.child_names_unique(parent));
    if a != b {
        assert(t1.dir_name(ch[a] as int) != t1.dir_name(ch[b] as int));
    }
}

} // verus!

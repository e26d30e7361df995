//! The TOC resolver: flattens the asset tree into the directory, file and
//! string indices, lays each file out in the virtual container, and
//! serializes the table of contents.

use vstd::prelude::*;
use vstd::string::*;
use crate::container::ContainerHeader;
use crate::io_toc::{
    IoChunkId, IoChunkType4, IoDirectoryIndexEntry, IoFileIndexEntry, IoOffsetAndLength,
    IoStoreTocCompressedBlockEntry, IoStoreTocEntryMeta, IO_OFFSET_LENGTH_MAX, NO_INDEX,
};
use crate::metadata::UtocMetadata;
use crate::package::ContainerHeaderPackage;
use crate::string::{encode_utf16, fstring32_bytes, hash16_of, utf16_units, FString32NoHash, Hasher16};
use crate::io_toc::{
    block_bytes, chunk_id_bytes, dir_entry_bytes, file_entry_bytes, flat_map, lemma_flat_map_step, meta_bytes,
    offset_length_bytes, toc_header_bytes, IoStoreTocHeaderType3,
};
use crate::bytes::{le_bytes, push_all, push_u32};
use vstd::utf8::{encode_utf8, is_ascii_chars, is_ascii_chars_encode_utf8};
use crate::text::{find_substr, occurs_at, occurs_in, str_eq, file_extension, file_stem, extension_of, stem_of};
use crate::tree::{TocDirectory, TocTree};

verus! {

/// Why no table of contents could be built.
#[derive(Debug, PartialEq, Eq, Structural)]
pub enum BuildError {
    /// A file's path holds no `/Content` segment to remove.
    MissingContentSegment,
    /// A file's extension names no chunk type.
    UnsupportedFile,
    /// A count, offset or length exceeds its field.
    TooLarge,
    /// The bytes of an export-bundle file were not supplied.
    PackageDataMissing,
    /// An export-bundle file could not be inspected.
    Package(crate::package::PackageError),
}

/// Path components of directory `d`, from the first level down.
pub open spec fn dir_comps(dirs: Seq<TocDirectory>, d: int) -> Seq<Seq<char>>
    decreases d,
{
    if d <= 0 || d >= dirs.len() {
        Seq::empty()
    } else {
        match dirs[d].parent {
            Some(p) => if p < d {
                dir_comps(dirs, p as int).push(dirs[d].name->0@)
            } else {
                Seq::empty()
            },
            None => Seq::empty(),
        }
    }
}

/// Components joined with `/`.
pub open spec fn join_path(s: Seq<Seq<char>>) -> Seq<char>
    decreases s.len(),
{
    if s.len() == 0 {
        Seq::empty()
    } else if s.len() == 1 {
        s[0]
    } else {
        join_path(s.drop_last()) + "/"@ + s.last()
    }
}

/// The path of file `name` in directory `d` before `/Content` is removed:
/// the directory's path, `/`, and the name without its extension.
pub open spec fn hash_source(dirs: Seq<TocDirectory>, d: int, name: Seq<char>) -> Seq<char> {
    join_path(dir_comps(dirs, d)) + "/"@ + file_stem(name)
}

/// `/` then the path with its first `/Content` removed; `None` without one.
pub open spec fn excise_content(p: Seq<char>) -> Option<Seq<char>> {
    if occurs_in(p, "/Content"@) {
        let i = choose|i: int| occurs_at(p, "/Content"@, i) && forall|j: int| 0 <= j < i ==> !occurs_at(p, "/Content"@, j);
        Some("/"@ + p.subrange(0, i) + p.subrange(i + 8, p.len() as int))
    } else {
        None
    }
}

/// Chunk type of a file by its extension.
pub open spec fn chunk_type_of(name: Seq<char>) -> Option<IoChunkType4> {
    match file_extension(name) {
        Some(e) => if e == "uasset"@ || e == "umap"@ {
            Some(IoChunkType4::ExportBundleData)
        } else if e == "ubulk"@ {
            Some(IoChunkType4::BulkData)
        } else if e == "uptnl"@ {
            Some(IoChunkType4::OptionalBulkData)
        } else {
            None
        },
        None => None,
    }
}

/// The chunk type of a file, from its extension.
pub fn get_chunk_type(name: &str) -> (r: Option<IoChunkType4>)
    ensures
        r == chunk_type_of(name@),
{
    proof {
        reveal_strlit("uasset");
        reveal_strlit("umap");
        reveal_strlit("ubulk");
        reveal_strlit("uptnl");
    }
    match extension_of(name) {
        Some(e) => {
            let e = e.as_str();
            if str_eq(e, "uasset") || str_eq(e, "umap") {
                Some(IoChunkType4::ExportBundleData)
            } else if str_eq(e, "ubulk") {
                Some(IoChunkType4::BulkData)
            } else if str_eq(e, "uptnl") {
                Some(IoChunkType4::OptionalBulkData)
            } else {
                None
            }
        },
        None => None,
    }
}

/// Removes the first `/Content` from `path` and puts `/` in front.
pub fn remove_content_segment(path: &str) -> (r: Option<String>)
    ensures
        r is None <==> excise_content(path@) is None,
        r is Some ==> excise_content(path@) == Some(r->0@),
{
    proof {
        reveal_strlit("/Content");
        reveal_strlit("/");
    }
    let n = path.unicode_len();
    match find_substr(path, "/Content") {
        Some(i) => {
            let mut s = "/".to_owned();
            s.append(path.substring_char(0, i));
            s.append(path.substring_char(i + 8, n));
            proof {
                let c = choose|k: int|
                    occurs_at(path@, "/Content"@, k) && forall|j: int| 0 <= j < k ==> !occurs_at(path@, "/Content"@, j);
                assert(c == i as int) by {
                    if c < i {
                    } else if c > i {
                    }
                }
            }
            Some(s)
        },
        None => None,
    }
}

/// Directory links only point forward: a first child or next sibling comes
/// after the entry that names it.
pub open spec fn dir_links_forward(d: Seq<IoDirectoryIndexEntry>) -> bool {
    forall|k: int|
        0 <= k < d.len() ==> (#[trigger] d[k].first_child != NO_INDEX ==> d[k].first_child > k) && (
        d[k].next_sibling != NO_INDEX ==> d[k].next_sibling > k)
}

/// File links form runs: a next file is the following entry, and each
/// entry's user data is its own position.
pub open spec fn file_links_contiguous(f: Seq<IoFileIndexEntry>) -> bool {
    forall|k: int|
        0 <= k < f.len() ==> (#[trigger] f[k].next_file != NO_INDEX ==> f[k].next_file == k + 1) && f[k].user_data
            == k
}

/// No two strings of the pool are equal.
pub open spec fn strings_unique(s: Seq<String>) -> bool {
    forall|i: int, j: int| 0 <= i < s.len() && 0 <= j < s.len() && i != j ==> s[i]@ != s[j]@
}

/// Counts stay clear of the `u32` sentinel.
pub const MAX_INDEX_ENTRIES: usize = 0xFFFF_0000;

/// State of one TOC build.
pub struct TocResolverType2 {
    pub directories: Vec<IoDirectoryIndexEntry>,
    pub files: Vec<IoFileIndexEntry>,
    pub strings: Vec<String>,
}

impl TocResolverType2 {
    /// The flattened indices are consistent: links forward, file runs
    /// contiguous, names point into the pool, which has no duplicates.
    pub open spec fn flat_wf(&self) -> bool {
        &&& dir_links_forward(self.directories@)
        &&& file_links_contiguous(self.files@)
        &&& strings_unique(self.strings@)
        &&& self.directories@.len() <= MAX_INDEX_ENTRIES
        &&& self.files@.len() <= MAX_INDEX_ENTRIES
        &&& self.strings@.len() <= MAX_INDEX_ENTRIES
        &&& forall|k: int| 0 <= k < self.files@.len() ==> (#[trigger] self.files@[k]).name < self.strings@.len()
        &&& forall|k: int| 0 <= k < self.directories@.len() ==> (#[trigger] self.directories@[k]).name == NO_INDEX
            || self.directories@[k].name < self.strings@.len()
        &&& forall|k: int| 0 <= k < self.files@.len() ==> excise_content(#[trigger] self.files@[k].hash_source@)
            == Some(self.files@[k].hash_path@)
        &&& forall|k: int| 0 <= k < self.files@.len() ==> chunk_type_of(#[trigger] self.files@[k].leaf@)
            == Some(self.files@[k].chunk_type)
    }

    pub fn new() -> (r: Self)
        ensures
            r.flat_wf(),
            r.directories@.len() == 0,
            r.files@.len() == 0,
            r.strings@.len() == 0,
    {
        TocResolverType2 { directories: Vec::new(), files: Vec::new(), strings: Vec::new() }
    }

    /// Index of `name` in the string pool, added at the end if new.
    pub fn get_flat_string_index(&mut self, name: &str) -> (r: Result<u32, BuildError>)
        requires
            old(self).flat_wf(),
        ensures
            final(self).flat_wf(),
            final(self).directories == old(self).directories,
            final(self).files == old(self).files,
            r is Err ==> r == Err::<u32, BuildError>(BuildError::TooLarge) && final(self).strings == old(self).strings
                && old(self).strings@.len() >= MAX_INDEX_ENTRIES,
            r is Ok ==> r->Ok_0 < final(self).strings@.len() && final(self).strings@[r->Ok_0 as int]@ == name@,
            r is Ok ==> final(self).strings@.len() <= old(self).strings@.len() + 1,
            (exists|k: int| 0 <= k < old(self).strings@.len() && (#[trigger] old(self).strings@[k])@ == name@) ==> r is Ok
                && final(self).strings == old(self).strings,
            !(exists|k: int| 0 <= k < old(self).strings@.len() && (#[trigger] old(self).strings@[k])@ == name@)
                && old(self).strings@.len() < MAX_INDEX_ENTRIES ==> r is Ok && r->Ok_0 == old(self).strings@.len()
                && final(self).strings@.len() == old(self).strings@.len() + 1
                && final(self).strings@.drop_last() == old(self).strings@,
            final(self).strings@.len() >= old(self).strings@.len(),
            forall|k: int| 0 <= k < old(self).strings@.len() ==> final(self).strings@[k] == old(self).strings@[k],
    {
        let mut i: usize = 0;
        while i < self.strings.len()
            invariant
                i <= self.strings@.len(),
                *self == *old(self),
                self.flat_wf(),
                forall|j: int| 0 <= j < i ==> self.strings@[j]@ != name@,
            decreases self.strings@.len() - i,
        {
            if str_eq(self.strings[i].as_str(), name) {
                return Ok(i as u32);
            }
            i = i + 1;
        }
        if self.strings.len() >= MAX_INDEX_ENTRIES {
            return Err(BuildError::TooLarge);
        }
        self.strings.push(name.to_owned());
        Ok(i as u32)
    }
}

/// Directories of the subtree at `d`, in preorder: `d`, then the subtree of
/// each child in order.
pub open spec fn subtree(dirs: Seq<TocDirectory>, d: int) -> Seq<int>
    decreases dirs.len() - d, if 0 <= d < dirs.len() { dirs[d].children@.len() + 1 } else { 0 },
{
    if 0 <= d < dirs.len() {
        seq![d] + children_subtrees(dirs, d, dirs[d].children@.len() as int)
    } else {
        Seq::empty()
    }
}

/// The subtrees of the first `k` children of `d`, one after the other.
pub open spec fn children_subtrees(dirs: Seq<TocDirectory>, d: int, k: int) -> Seq<int>
    decreases dirs.len() - d, k,
{
    if k <= 0 || !(0 <= d < dirs.len()) || k > dirs[d].children@.len() {
        Seq::empty()
    } else {
        let c = dirs[d].children@[k - 1] as int;
        children_subtrees(dirs, d, k - 1) + if d < c < dirs.len() {
            subtree(dirs, c)
        } else {
            Seq::empty()
        }
    }
}

/// The files of the directories `ids`, as (directory, position) pairs, in order.
pub open spec fn files_of(dirs: Seq<TocDirectory>, ids: Seq<int>) -> Seq<(int, int)>
    decreases ids.len(),
{
    if ids.len() == 0 {
        Seq::empty()
    } else {
        let x = ids.last();
        files_of(dirs, ids.drop_last()) + Seq::new(
            if 0 <= x < dirs.len() { dirs[x].files@.len() } else { 0 },
            |j: int| (x, j),
        )
    }
}

proof fn lemma_children_subtrees_prefix(dirs: Seq<TocDirectory>, d: int, k: int, m: int)
    requires
        0 <= d < dirs.len(),
        0 <= k <= m <= dirs[d].children@.len(),
    ensures
        exists|x: Seq<int>| children_subtrees(dirs, d, m) == children_subtrees(dirs, d, k) + x,
    decreases m - k,
{
    if k == m {
        assert(children_subtrees(dirs, d, m) == children_subtrees(dirs, d, k) + Seq::<int>::empty());
    } else {
        lemma_children_subtrees_prefix(dirs, d, k, m - 1);
        let x = choose|x: Seq<int>| children_subtrees(dirs, d, m - 1) == children_subtrees(dirs, d, k) + x;
        let c = dirs[d].children@[m - 1] as int;
        let y = if d < c < dirs.len() { subtree(dirs, c) } else { Seq::empty() };
        assert(children_subtrees(dirs, d, m) == children_subtrees(dirs, d, k) + (x + y));
    }
}

proof fn lemma_files_of_concat(dirs: Seq<TocDirectory>, a: Seq<int>, b: Seq<int>)
    ensures
        files_of(dirs, a + b) == files_of(dirs, a) + files_of(dirs, b),
    decreases b.len(),
{
    if b.len() == 0 {
        assert(a + b =~= a);
        assert(files_of(dirs, a) + files_of(dirs, b) =~= files_of(dirs, a));
    } else {
        lemma_files_of_concat(dirs, a, b.drop_last());
        assert((a + b).drop_last() =~= a + b.drop_last());
        assert(files_of(dirs, a + b) =~= files_of(dirs, a) + files_of(dirs, b));
    }
}

/// Some file of the tree has a path without `/Content`.
pub open spec fn some_file_lacks_content(t: Seq<TocDirectory>) -> bool {
    exists|x: int, j: int|
        0 <= x < t.len() && 0 <= j < t[x].files@.len() && #[trigger] excise_content(
            hash_source(t, x, t[x].files@[j].name@),
        ) is None
}

/// Some file of the tree has an extension that names no chunk type.
pub open spec fn some_file_unsupported(t: Seq<TocDirectory>) -> bool {
    exists|x: int, j: int| 0 <= x < t.len() && 0 <= j < t[x].files@.len() && #[trigger] chunk_type_of(t[x].files@[j].name@) is None
}

/// A directory entry names directory `x`: no name for the root, else the
/// pool string with its name.
pub open spec fn dir_entry_matches(strings: Seq<String>, e: IoDirectoryIndexEntry, dirs: Seq<TocDirectory>, x: int) -> bool {
    if dirs[x].name is None {
        e.name == NO_INDEX
    } else {
        e.name < strings.len() && strings[e.name as int]@ == dirs[x].name->0@
    }
}

/// Directory `x` is the last child of its parent.
pub open spec fn is_last_child(t: Seq<TocDirectory>, x: int) -> bool {
    t[x].parent is Some && t[t[x].parent->0 as int].children@.len() > 0
        && t[t[x].parent->0 as int].children@.last() == x as usize
}

/// The links of the entry at position `p` for directory `x`: its first
/// child follows it, or none; its next sibling comes after its whole
/// subtree, or none for the top of the walk and for a last child; its
/// files start at `fstart`, or none.
pub open spec fn dir_links_match(t: Seq<TocDirectory>, e: IoDirectoryIndexEntry, x: int, p: int, top: bool, fstart: nat) -> bool {
    &&& e.first_child == if t[x].children@.len() > 0 { (p + 1) as u32 } else { NO_INDEX }
    &&& e.next_sibling == if top || is_last_child(t, x) { NO_INDEX } else { (p + subtree(t, x).len()) as u32 }
    &&& e.first_file == if t[x].files@.len() > 0 { fstart as u32 } else { NO_INDEX }
}

/// The file entry at position `q` for file `j` of directory `x` links to
/// the next entry, except at the end of the directory's run.
pub open spec fn file_link_match(t: Seq<TocDirectory>, e: IoFileIndexEntry, x: int, j: int, q: int) -> bool {
    e.next_file == if j + 1 < t[x].files@.len() { (q + 1) as u32 } else { NO_INDEX }
}

/// A file entry stands for file `j` of directory `x`: its name in the pool,
/// its size, its path on disk and the path its hash is made from.
pub open spec fn file_entry_matches(strings: Seq<String>, e: IoFileIndexEntry, dirs: Seq<TocDirectory>, x: int, j: int) -> bool {
    let f = dirs[x].files@[j];
    &&& e.name < strings.len()
    &&& strings[e.name as int]@ == f.name@
    &&& e.leaf@ == f.name@
    &&& e.os_path@ == f.os_file_path@
    &&& e.file_size == f.file_size
    &&& e.hash_source@ == hash_source(dirs, x, f.name@)
}

impl TocResolverType2 {
    /// Flattens directory `d` (whose path is `path`) and everything under
    /// it, in preorder: its entry, its files as one run, then each child.
    #[verifier::rlimit(100)]
    pub fn flatten_toc_tree_dir(&mut self, tree: &TocTree, d: usize, path: &String) -> (r: Result<(), BuildError>)
        requires
            old(self).flat_wf(),
            tree.wf(),
            d < tree.dirs@.len(),
            path@ == join_path(dir_comps(tree.dirs@, d as int)),
        ensures
            final(self).flat_wf(),
            final(self).directories@.len() >= old(self).directories@.len(),
            final(self).files@.len() >= old(self).files@.len(),
            r is Ok ==> final(self).directories@.len() > old(self).directories@.len(),
            forall|k: int| 0 <= k < old(self).directories@.len() ==> final(self).directories@[k] == old(self).directories@[k],
            forall|k: int| 0 <= k < old(self).files@.len() ==> final(self).files@[k] == old(self).files@[k],
            final(self).strings@.len() >= old(self).strings@.len(),
            forall|k: int| 0 <= k < old(self).strings@.len() ==> final(self).strings@[k] == old(self).strings@[k],
            r is Err ==> {
                ||| r->Err_0 == BuildError::MissingContentSegment && some_file_lacks_content(tree.dirs@)
                ||| r->Err_0 == BuildError::UnsupportedFile && some_file_unsupported(tree.dirs@)
                ||| r->Err_0 == BuildError::TooLarge && ({
                    let ids = subtree(tree.dirs@, d as int);
                    let fl = files_of(tree.dirs@, ids);
                    ||| old(self).directories@.len() + ids.len() > MAX_INDEX_ENTRIES
                    ||| old(self).files@.len() + fl.len() >= MAX_INDEX_ENTRIES
                    ||| old(self).strings@.len() + ids.len() + fl.len() > MAX_INDEX_ENTRIES
                })
            },
            r is Ok ==> final(self).strings@.len() <= old(self).strings@.len() + subtree(tree.dirs@, d as int).len()
                + files_of(tree.dirs@, subtree(tree.dirs@, d as int)).len(),
            r is Ok ==> {
                let ids = subtree(tree.dirs@, d as int);
                let fl = files_of(tree.dirs@, ids);
                &&& final(self).directories@.len() == old(self).directories@.len() + ids.len()
                &&& final(self).files@.len() == old(self).files@.len() + fl.len()
                &&& forall|p: int| old(self).directories@.len() <= p < final(self).directories@.len() ==> dir_entry_matches(
                    final(self).strings@,
                    #[trigger] final(self).directories@[p],
                    tree.dirs@,
                    ids[p - old(self).directories@.len()],
                )
                &&& forall|q: int| old(self).files@.len() <= q < final(self).files@.len() ==> file_entry_matches(
                    final(self).strings@,
                    #[trigger] final(self).files@[q],
                    tree.dirs@,
                    fl[q - old(self).files@.len()].0,
                    fl[q - old(self).files@.len()].1,
                )
                &&& forall|p: int| old(self).directories@.len() <= p < final(self).directories@.len() ==> dir_links_match(
                    tree.dirs@,
                    #[trigger] final(self).directories@[p],
                    ids[p - old(self).directories@.len()],
                    p,
                    p == old(self).directories@.len(),
                    old(self).files@.len() + files_of(tree.dirs@, ids.subrange(0, p - old(self).directories@.len())).len(),
                )
                &&& forall|q: int| old(self).files@.len() <= q < final(self).files@.len() ==> file_link_match(
                    tree.dirs@,
                    #[trigger] final(self).files@[q],
                    fl[q - old(self).files@.len()].0,
                    fl[q - old(self).files@.len()].1,
                    q,
                )
            },
        decreases tree.dirs@.len() - d,
    {
        let ghost t = tree.dirs@;
        let ghost csn = children_subtrees(t, d as int, t[d as int].children@.len() as int);
        let ghost big_s = subtree(t, d as int).len();
        let ghost big_f = files_of(t, subtree(t, d as int)).len();
        proof {
            assert(subtree(t, d as int) == seq![d as int] + csn);
            lemma_files_of_concat(t, seq![d as int], csn);
            assert(seq![d as int].drop_last() =~= Seq::<int>::empty());
            assert(files_of(t, Seq::<int>::empty()) =~= Seq::<(int, int)>::empty());
            assert(files_of(t, seq![d as int]).len() == t[d as int].files@.len());
        }
        let my = self.directories.len();
        if my >= MAX_INDEX_ENTRIES {
            return Err(BuildError::TooLarge);
        }
        let ghost strings_in = self.strings@;
        let dir = &tree.dirs[d];
        let name_idx: u32 = match &dir.name {
            Some(n) => match self.get_flat_string_index(n.as_str()) {
                Ok(i) => i,
                Err(e) => return Err(e),
            },
            None => NO_INDEX,
        };
        let ghost dirs0 = self.directories@;
        let ghost files0 = self.files@;
        let nf = dir.files.len();
        let first_file: u32 = if nf > 0 { self.files.len() as u32 } else { NO_INDEX };
        let mut j: usize = 0;
        while j < nf
            invariant
                self.flat_wf(),
                tree.wf(),
                t == tree.dirs@,
                d < t.len(),
                *dir == t[d as int],
                nf == dir.files@.len(),
                j <= nf,
                path@ == join_path(dir_comps(t, d as int)),
                self.directories@ == dirs0,
                dirs0 == old(self).directories@,
                files0 == old(self).files@,
                self.directories@.len() == my,
                dir.name is None ==> name_idx == NO_INDEX,
                dir.name is Some ==> name_idx < self.strings@.len() && self.strings@[name_idx as int]@ == dir.name->0@,
                self.files@.len() == files0.len() + j,
                forall|k: int| 0 <= k < files0.len() ==> self.files@[k] == files0[k],
                forall|q: int| files0.len() <= q < self.files@.len() ==> file_entry_matches(
                    self.strings@, #[trigger] self.files@[q], t, d as int, q - files0.len()),
                forall|q: int| files0.len() <= q < self.files@.len() ==> file_link_match(
                    t, #[trigger] self.files@[q], d as int, q - files0.len(), q),
                self.strings@.len() >= strings_in.len(),
                forall|k: int| 0 <= k < strings_in.len() ==> self.strings@[k] == strings_in[k],
                strings_in == old(self).strings@,
                self.strings@.len() <= strings_in.len() + 1 + j,
                big_s == 1 + csn.len(),
                big_f == nf + files_of(t, csn).len(),
                csn == children_subtrees(t, d as int, t[d as int].children@.len() as int),
                big_s == subtree(t, d as int).len(),
                big_f == files_of(t, subtree(t, d as int)).len(),
            decreases nf - j,
        {
            if self.files.len() >= MAX_INDEX_ENTRIES - 1 {
                return Err(BuildError::TooLarge);
            }
            let f = &dir.files[j];
            let ghost s_before = self.strings@;
            let nidx = match self.get_flat_string_index(f.name.as_str()) {
                Ok(i) => i,
                Err(e) => return Err(e),
            };
            let stem = stem_of(f.name.as_str());
            let mut src = path.clone();
            proof {
                reveal_strlit("/");
            }
            src.append("/");
            src.append(stem.as_str());
            proof {
                assert(dir.files@[j as int] == *f);
                assert(src@ == hash_source(t, d as int, f.name@));
            }
            let hp = match remove_content_segment(src.as_str()) {
                Some(h) => h,
                None => {
                    assert(excise_content(hash_source(t, d as int, t[d as int].files@[j as int].name@)) is None);
                    return Err(BuildError::MissingContentSegment);
                },
            };
            let ct = match get_chunk_type(f.name.as_str()) {
                Some(t) => t,
                None => {
                    assert(chunk_type_of(t[d as int].files@[j as int].name@) is None);
                    return Err(BuildError::UnsupportedFile);
                },
            };
            let idx = self.files.len();
            let next: u32 = if j + 1 < nf { (idx + 1) as u32 } else { NO_INDEX };
            let entry = IoFileIndexEntry {
                name: nidx,
                next_file: next,
                user_data: idx as u32,
                file_size: f.file_size,
                os_path: f.os_file_path.clone(),
                hash_path: hp,
                hash_source: src,
                leaf: f.name.clone(),
                chunk_type: ct,
            };
            let ghost fs_before = self.files@;
            assert(entry.user_data as int == idx as int);
            assert(entry.next_file != NO_INDEX ==> entry.next_file as int == idx + 1);
            assert(fs_before.len() == idx);
            self.files.push(entry);
            proof {
                let fs = self.files@;
                assert(fs == fs_before.push(entry));
                assert(file_links_contiguous(fs)) by {
                    assert forall|k: int| 0 <= k < fs.len() implies (#[trigger] fs[k].next_file != NO_INDEX ==> fs[k].next_file == k + 1)
                        && fs[k].user_data == k by {
                        if k < fs_before.len() {
                            assert(fs[k] == fs_before[k]);
                            assert(file_links_contiguous(fs_before));
                            assert(fs_before[k].next_file != NO_INDEX ==> fs_before[k].next_file == k + 1);
                        } else {
                            assert(fs[k] == entry);
                        }
                    }
                }
                assert forall|k: int| 0 <= k < fs.len() implies (#[trigger] fs[k]).name < self.strings@.len() by {
                    if k < fs_before.len() {
                        assert(fs[k] == fs_before[k]);
                    }
                }
                assert forall|k: int| 0 <= k < fs.len() implies excise_content(#[trigger] fs[k].hash_source@)
                    == Some(fs[k].hash_path@) by {
                    if k < fs_before.len() {
                        assert(fs[k] == fs_before[k]);
                    }
                }
                assert forall|k: int| 0 <= k < fs.len() implies chunk_type_of(#[trigger] fs[k].leaf@)
                    == Some(fs[k].chunk_type) by {
                    if k < fs_before.len() {
                        assert(fs[k] == fs_before[k]);
                    }
                }
                assert(dir.files@[j as int] == *f);
                assert forall|q: int| files0.len() <= q < fs.len() implies file_entry_matches(
                    self.strings@, #[trigger] fs[q], t, d as int, q - files0.len()) by {
                    if q < fs_before.len() {
                        assert(fs[q] == fs_before[q]);
                        let e = fs[q];
                        assert(e.name < s_before.len());
                        assert(self.strings@[e.name as int] == s_before[e.name as int]);
                    } else {
                        assert(fs[q] == entry);
                    }
                }
                assert forall|q: int| files0.len() <= q < fs.len() implies file_link_match(
                    t, #[trigger] fs[q], d as int, q - files0.len(), q) by {
                    if q < fs_before.len() {
                        assert(fs[q] == fs_before[q]);
                    } else {
                        assert(fs[q] == entry);
                    }
                }
            }
            j = j + 1;
        }
        let nc = dir.children.len();
        let first_child: u32 = if nc > 0 { (my + 1) as u32 } else { NO_INDEX };
        let my_entry = IoDirectoryIndexEntry { name: name_idx, first_child, next_sibling: NO_INDEX, first_file };
        self.directories.push(my_entry);
        let ghost dirs1 = self.directories@;
        let ghost files1 = self.files@;
        proof {
            assert(files_of(t, seq![d as int]) =~= Seq::new(nf as nat, |j: int| (d as int, j))) by {
                assert(seq![d as int].drop_last() =~= Seq::<int>::empty());
                assert(seq![d as int].last() == d as int);
                assert(files_of(t, Seq::<int>::empty()) =~= Seq::<(int, int)>::empty());
                assert(t[d as int].files@.len() == nf);
            }
        }
        let mut k: usize = 0;
        while k < nc
            invariant
                self.flat_wf(),
                tree.wf(),
                t == tree.dirs@,
                d < t.len(),
                *dir == t[d as int],
                nc == dir.children@.len(),
                nf == dir.files@.len(),
                k <= nc,
                path@ == join_path(dir_comps(t, d as int)),
                dirs1.len() == my + 1,
                dirs0.len() == my,
                forall|i: int| 0 <= i < dirs1.len() ==> self.directories@[i].name == dirs1[i].name
                    && self.directories@[i].first_child == dirs1[i].first_child,
                forall|i: int| 0 <= i < dirs0.len() ==> self.directories@[i] == dirs0[i],
                forall|i: int| 0 <= i < dirs0.len() ==> dirs1[i] == dirs0[i],
                dirs1[my as int] == my_entry,
                files1.len() == files0.len() + nf,
                forall|i: int| 0 <= i < files1.len() ==> self.files@[i] == files1[i],
                forall|i: int| 0 <= i < files0.len() ==> files1[i] == files0[i],
                dirs0 == old(self).directories@,
                files0 == old(self).files@,
                self.directories@.len() == my + 1 + children_subtrees(t, d as int, k as int).len(),
                self.files@.len() == files1.len() + files_of(t, children_subtrees(t, d as int, k as int)).len(),
                dir_entry_matches(self.strings@, self.directories@[my as int], t, d as int),
                forall|p: int| my + 1 <= p < self.directories@.len() ==> dir_entry_matches(
                    self.strings@, #[trigger] self.directories@[p], t, children_subtrees(t, d as int, k as int)[p - my - 1]),
                forall|q: int| files0.len() <= q < files1.len() ==> file_entry_matches(
                    self.strings@, #[trigger] self.files@[q], t, d as int, q - files0.len()),
                forall|q: int| files1.len() <= q < self.files@.len() ==> file_entry_matches(
                    self.strings@, #[trigger] self.files@[q], t,
                    files_of(t, children_subtrees(t, d as int, k as int))[q - files1.len()].0,
                    files_of(t, children_subtrees(t, d as int, k as int))[q - files1.len()].1),
                dir_links_match(t, self.directories@[my as int], d as int, my as int, true, files0.len()),
                forall|p: int| my + 1 <= p < self.directories@.len() ==> dir_links_match(
                    t, #[trigger] self.directories@[p], children_subtrees(t, d as int, k as int)[p - my - 1], p, false,
                    files1.len() + files_of(t, children_subtrees(t, d as int, k as int).subrange(0, p - my - 1)).len()),
                forall|q: int| files0.len() <= q < files1.len() ==> file_link_match(
                    t, #[trigger] self.files@[q], d as int, q - files0.len(), q),
                forall|q: int| files1.len() <= q < self.files@.len() ==> file_link_match(
                    t, #[trigger] self.files@[q],
                    files_of(t, children_subtrees(t, d as int, k as int))[q - files1.len()].0,
                    files_of(t, children_subtrees(t, d as int, k as int))[q - files1.len()].1, q),
                self.strings@.len() >= strings_in.len(),
                forall|i: int| 0 <= i < strings_in.len() ==> self.strings@[i] == strings_in[i],
                strings_in == old(self).strings@,
                self.strings@.len() <= strings_in.len() + 1 + nf + children_subtrees(t, d as int, k as int).len()
                    + files_of(t, children_subtrees(t, d as int, k as int)).len(),
                big_s == 1 + csn.len(),
                big_f == nf + files_of(t, csn).len(),
                csn == children_subtrees(t, d as int, nc as int),
                big_s == subtree(t, d as int).len(),
                big_f == files_of(t, subtree(t, d as int)).len(),
            decreases nc - k,
        {
            let c = dir.children[k];
            assert(d < c < tree.dirs@.len());
            let cname: &String = match &tree.dirs[c].name {
                Some(n) => n,
                None => { assert(false); return Err(BuildError::TooLarge) },
            };
            let child_path: String = if d == 0 {
                cname.clone()
            } else {
                let mut p = path.clone();
                proof {
                    reveal_strlit("/");
                }
                p.append("/");
                p.append(cname.as_str());
                p
            };
            proof {
                let s = dir_comps(tree.dirs@, d as int);
                assert(dir_comps(tree.dirs@, c as int) == s.push(cname@));
                if d != 0 {
                    assert(s.len() > 0);
                }
                assert(s.push(cname@).drop_last() =~= s);
            }
            let pos = self.directories.len();
            let fpos = self.files.len();
            let ghost dirs_before = self.directories@;
            let ghost files_before = self.files@;
            let ghost strings_before = self.strings@;
            let ghost cs = children_subtrees(t, d as int, k as int);
            proof {
                let sc = subtree(t, c as int);
                let cs1 = children_subtrees(t, d as int, k + 1);
                assert(cs1 == cs + sc);
                lemma_children_subtrees_prefix(t, d as int, k + 1, nc as int);
                let x = choose|x: Seq<int>| csn == cs1 + x;
                lemma_files_of_concat(t, cs1, x);
                lemma_files_of_concat(t, cs, sc);
                assert(cs.len() + sc.len() <= csn.len());
                assert(files_of(t, cs).len() + files_of(t, sc).len() <= files_of(t, csn).len());
            }
            match self.flatten_toc_tree_dir(tree, c, &child_path) {
                Ok(()) => {},
                Err(e) => return Err(e),
            }
            let ghost dirs_after = self.directories@;
            if k + 1 < nc {
                let mut e = self.directories[pos];
                e.next_sibling = self.directories.len() as u32;
                self.directories.set(pos, e);
            }
            proof {
                let sc = subtree(t, c as int);
                let cs1 = children_subtrees(t, d as int, k + 1);
                assert(cs1 == cs + sc);
                lemma_files_of_concat(t, cs, sc);
                let fo = files_of(t, cs);
                let fo1 = files_of(t, cs1);
                assert(fo1 == fo + files_of(t, sc));
                assert forall|p: int| my + 1 <= p < self.directories@.len() implies dir_entry_matches(
                    self.strings@, #[trigger] self.directories@[p], t, cs1[p - my - 1]) by {
                    if p < pos {
                        let e = dirs_before[p];
                        assert(self.directories@[p].name == e.name);
                        assert(dir_entry_matches(strings_before, e, t, cs[p - my - 1]));
                        if e.name != NO_INDEX && t[cs[p - my - 1]].name is Some {
                            assert(self.strings@[e.name as int] == strings_before[e.name as int]);
                        }
                    } else {
                        assert(self.directories@[p].name == dirs_after[p].name);
                        assert(dir_entry_matches(self.strings@, dirs_after[p], t, sc[p - pos]));
                    }
                }
                let e0 = self.directories@[my as int];
                assert(e0.name == dirs_before[my as int].name);
                if t[d as int].name is Some {
                    assert(self.strings@[e0.name as int] == strings_before[e0.name as int]);
                }
                assert forall|q: int| files0.len() <= q < files1.len() implies file_entry_matches(
                    self.strings@, #[trigger] self.files@[q], t, d as int, q - files0.len()) by {
                    let e = files_before[q];
                    assert(self.files@[q] == e);
                    assert(file_entry_matches(strings_before, e, t, d as int, q - files0.len()));
                    assert(self.strings@[e.name as int] == strings_before[e.name as int]);
                }
                assert forall|q: int| files1.len() <= q < self.files@.len() implies file_entry_matches(
                    self.strings@, #[trigger] self.files@[q], t, fo1[q - files1.len()].0, fo1[q - files1.len()].1) by {
                    if q < fpos {
                        let e = files_before[q];
                        assert(self.files@[q] == e);
                        assert(file_entry_matches(strings_before, e, t, fo[q - files1.len()].0, fo[q - files1.len()].1));
                        assert(self.strings@[e.name as int] == strings_before[e.name as int]);
                    } else {
                        let fsc = files_of(t, sc);
                        assert(fo1[q - files1.len()] == fsc[q - fpos]);
                    }
                }
                // links
                assert(t[c as int].parent == Some(d));
                assert(nc > 0);
                if k + 1 < nc {
                    assert(t[d as int].children@.last() == t[d as int].children@[nc - 1]);
                    assert(tree.child_names_unique(d as int));
                    assert(tree.dir_name(t[d as int].children@[k as int] as int)
                        != tree.dir_name(t[d as int].children@[nc - 1] as int));
                    assert(!is_last_child(t, c as int));
                } else {
                    assert(is_last_child(t, c as int));
                }
                assert forall|p: int| my + 1 <= p < self.directories@.len() implies dir_links_match(
                    t, #[trigger] self.directories@[p], cs1[p - my - 1], p, false,
                    files1.len() + files_of(t, cs1.subrange(0, p - my - 1)).len()) by {
                    if p < pos {
                        assert(self.directories@[p] == dirs_before[p]);
                        assert(dir_links_match(t, dirs_before[p], cs[p - my - 1], p, false,
                            files1.len() + files_of(t, cs.subrange(0, p - my - 1)).len()));
                        assert(cs1.subrange(0, p - my - 1) =~= cs.subrange(0, p - my - 1));
                        assert(cs1[p - my - 1] == cs[p - my - 1]);
                    } else {
                        assert(cs1[p - my - 1] == sc[p - pos]);
                        assert(cs1.subrange(0, p - my - 1) =~= cs + sc.subrange(0, p - pos));
                        lemma_files_of_concat(t, cs, sc.subrange(0, p - pos));
                        assert(dir_links_match(t, dirs_after[p], sc[p - pos], p, p == pos,
                            (fpos + files_of(t, sc.subrange(0, p - pos)).len()) as nat));
                        if p == pos {
                            assert(sc[0] == c as int);
                        } else {
                            assert(self.directories@[p] == dirs_after[p]);
                        }
                    }
                }
                assert(self.directories@[my as int] == dirs_before[my as int]);
                assert forall|q: int| files0.len() <= q < files1.len() implies file_link_match(
                    t, #[trigger] self.files@[q], d as int, q - files0.len(), q) by {
                    assert(self.files@[q] == files_before[q]);
                }
                assert forall|q: int| files1.len() <= q < self.files@.len() implies file_link_match(
                    t, #[trigger] self.files@[q], fo1[q - files1.len()].0, fo1[q - files1.len()].1, q) by {
                    if q < fpos {
                        assert(self.files@[q] == files_before[q]);
                    } else {
                        let fsc = files_of(t, sc);
                        assert(fo1[q - files1.len()] == fsc[q - fpos]);
                    }
                }
            }
            k = k + 1;
        }
        proof {
            let cs = children_subtrees(t, d as int, nc as int);
            let ids = subtree(t, d as int);
            assert(ids == seq![d as int] + cs);
            lemma_files_of_concat(t, seq![d as int], cs);
            let fd = files_of(t, seq![d as int]);
            assert(fd.len() == nf);
            assert(files_of(t, Seq::<int>::empty()) =~= Seq::<(int, int)>::empty());
            assert(ids.subrange(0, 0) =~= Seq::<int>::empty());
            assert forall|p: int| my < p < self.directories@.len() implies
                files_of(t, #[trigger] ids.subrange(0, p - my)).len() == nf + files_of(t, cs.subrange(0, p - my - 1)).len() by {
                assert(ids.subrange(0, p - my) =~= seq![d as int] + cs.subrange(0, p - my - 1));
                lemma_files_of_concat(t, seq![d as int], cs.subrange(0, p - my - 1));
            }
            assert forall|p: int| my <= p < self.directories@.len() implies dir_links_match(
                t, #[trigger] self.directories@[p], ids[p - my], p, p == my,
                files0.len() + files_of(t, ids.subrange(0, p - my)).len()) by {
                if p > my {
                    assert(ids[p - my] == cs[p - my - 1]);
                    assert(files_of(t, ids.subrange(0, p - my)).len() == nf + files_of(t, cs.subrange(0, p - my - 1)).len());
                }
            }
        }
        Ok(())
    }
}

/// Size of a compression block, and the unit of chunk offsets.
pub const COMPRESSION_BLOCK_SIZE: u64 = 0x10000;

/// Default alignment of files in the virtual container.
pub const DEFAULT_COMPRESSION_BLOCK_ALIGNMENT: u32 = 0x800;

/// `x` rounded up to a multiple of `a`.
pub open spec fn align_up(x: nat, a: nat) -> nat {
    if x % a == 0 {
        x
    } else {
        (x + (a - x % a)) as nat
    }
}

/// Blocks of a chunk of `size` bytes at `ptr`: one per started 0x10000
/// bytes, each as long as what remains, at most 0x10000.
pub open spec fn blocks_for(size: nat, ptr: nat) -> Seq<IoStoreTocCompressedBlockEntry> {
    Seq::new(
        ((size + 0xFFFF) / 0x10000) as nat,
        |k: int|
            IoStoreTocCompressedBlockEntry {
                offset: (ptr + k * 0x10000) as u64,
                size: (if size - k * 0x10000 > 0x10000 {
                    0x10000
                } else {
                    size - k * 0x10000
                }) as u32,
            },
    )
}

/// Where a range of the virtual container comes from: a file on disk.
pub struct PartitionBlock {
    /// UTF-16 path of the file, NUL-terminated.
    pub os_path: Vec<u16>,
    pub start: u64,
    pub length: u64,
}

/// The serialized container header, the store entries it was made from,
/// and the map of the virtual container.
pub struct ContainerData {
    pub header: Vec<u8>,
    pub packages: Vec<ContainerHeaderPackage>,
    pub virtual_blocks: Vec<PartitionBlock>,
}

/// The parallel arrays of the TOC and the position in the virtual container.
pub struct TocLayout {
    pub chunk_ids: Vec<IoChunkId>,
    pub offsets_and_lengths: Vec<IoOffsetAndLength>,
    pub compression_blocks: Vec<IoStoreTocCompressedBlockEntry>,
    pub metas: Vec<IoStoreTocEntryMeta>,
    /// Current end of the virtual container, aligned.
    pub cas_pointer: u64,
    pub compression_block_alignment: u64,
}

impl TocLayout {
    /// Arrays in step; every offset and length within 40 bits; the pointer
    /// on the alignment.
    pub open spec fn wf(&self) -> bool {
        &&& self.chunk_ids@.len() == self.offsets_and_lengths@.len()
        &&& self.chunk_ids@.len() == self.metas@.len()
        &&& forall|k: int| 0 <= k < self.offsets_and_lengths@.len() ==> (#[trigger] self.offsets_and_lengths@[k]).offset
            <= IO_OFFSET_LENGTH_MAX && self.offsets_and_lengths@[k].length <= IO_OFFSET_LENGTH_MAX
        &&& forall|k: int| 0 <= k < self.compression_blocks@.len() ==> (#[trigger] self.compression_blocks@[k]).offset
            <= IO_OFFSET_LENGTH_MAX && self.compression_blocks@[k].size <= 0x10000
        &&& self.compression_block_alignment >= 0x10
        &&& self.compression_block_alignment <= 0x1_0000_0000
        &&& self.cas_pointer <= IO_OFFSET_LENGTH_MAX + 0x1_0000_0000
        &&& self.cas_pointer % self.compression_block_alignment == 0
    }

    /// An empty layout; an alignment under 0x10 is raised to 0x10.
    pub fn new(block_align: u32) -> (r: Self)
        ensures
            r.wf(),
            r.chunk_ids@.len() == 0,
            r.compression_blocks@.len() == 0,
            r.cas_pointer == 0,
            r.compression_block_alignment == if block_align < 0x10 { 0x10 } else { block_align as u64 },
    {
        let a: u64 = if block_align < 0x10 { 0x10 } else { block_align as u64 };
        assert(0u64 % a == 0) by (nonlinear_arith)
            requires a >= 0x10;
        TocLayout {
            chunk_ids: Vec::new(),
            offsets_and_lengths: Vec::new(),
            compression_blocks: Vec::new(),
            metas: Vec::new(),
            cas_pointer: 0,
            compression_block_alignment: a,
        }
    }

    /// Appends the blocks of a chunk of `file_size` bytes at `pointer`.
    pub fn create_compression_blocks(&mut self, file_size: u64, pointer: u64)
        requires
            old(self).wf(),
            pointer + file_size <= IO_OFFSET_LENGTH_MAX,
        ensures
            final(self).wf(),
            final(self).compression_blocks@ == old(self).compression_blocks@ + blocks_for(file_size as nat, pointer as nat),
            final(self).chunk_ids == old(self).chunk_ids,
            final(self).offsets_and_lengths == old(self).offsets_and_lengths,
            final(self).metas == old(self).metas,
            final(self).cas_pointer == old(self).cas_pointer,
            final(self).compression_block_alignment == old(self).compression_block_alignment,
    {
        let count: u64 = file_size / COMPRESSION_BLOCK_SIZE + if file_size % COMPRESSION_BLOCK_SIZE > 0 { 1 } else { 0 };
        assert(count == (file_size + 0xFFFF) / 0x10000) by (nonlinear_arith)
            requires count == file_size / 0x10000 + if file_size % 0x10000 > 0 { 1int } else { 0int };
        let ghost start = self.compression_blocks@;
        let ghost want = blocks_for(file_size as nat, pointer as nat);
        let mut k: u64 = 0;
        while k < count
            invariant
                count == (file_size + 0xFFFF) / 0x10000,
                want.len() == count,
                want == blocks_for(file_size as nat, pointer as nat),
                k <= count,
                pointer + file_size <= IO_OFFSET_LENGTH_MAX,
                self.compression_blocks@ == start + want.subrange(0, k as int),
                self.chunk_ids == old(self).chunk_ids,
                self.offsets_and_lengths == old(self).offsets_and_lengths,
                self.metas == old(self).metas,
                self.cas_pointer == old(self).cas_pointer,
                self.compression_block_alignment == old(self).compression_block_alignment,
                start == old(self).compression_blocks@,
                self.wf(),
            decreases count - k,
        {
            assert(k * 0x10000 < file_size) by (nonlinear_arith)
                requires k < count, count == (file_size + 0xFFFF) / 0x10000;
            let done: u64 = k * COMPRESSION_BLOCK_SIZE;
            let remaining: u64 = file_size - done;
            let size: u64 = if remaining > COMPRESSION_BLOCK_SIZE { COMPRESSION_BLOCK_SIZE } else { remaining };
            let b = IoStoreTocCompressedBlockEntry::new(pointer + done, size as u32);
            self.compression_blocks.push(b);
            k = k + 1;
            assert(self.compression_blocks@ =~= start + want.subrange(0, k as int));
        }
        assert(want.subrange(0, count as int) =~= want);
    }
}

/// A chunk of `size` bytes fits after `blocks` compression blocks with the
/// container at `cas`: its offset, its length and the end of its data all
/// hold in 40 bits.
pub open spec fn chunk_fits(blocks: nat, cas: nat, size: nat) -> bool {
    blocks * 0x10000 <= IO_OFFSET_LENGTH_MAX && size <= IO_OFFSET_LENGTH_MAX && cas + size <= IO_OFFSET_LENGTH_MAX
}

proof fn lemma_align_up(x: nat, a: nat)
    requires
        a > 0,
    ensures
        align_up(x, a) % a == 0,
        x <= align_up(x, a) < x + a,
{
    if x % a != 0 {
        let xi = x as int;
        let ai = a as int;
        assert((xi + (ai - xi % ai)) % ai == 0) by (nonlinear_arith)
            requires ai > 0, xi % ai != 0;
        assert(xi % ai < ai) by (nonlinear_arith)
            requires ai > 0;
    }
}

impl TocLayout {
    /// Lays out one chunk: its id, its offset (the blocks so far times the
    /// block size) and length, its compression blocks from the container
    /// pointer, an empty meta; then moves the pointer past it and up to the
    /// alignment. Returns where its data starts.
    pub fn add_chunk(&mut self, id: IoChunkId, size: u64) -> (r: Result<u64, BuildError>)
        requires
            old(self).wf(),
        ensures
            r is Ok <==> chunk_fits(old(self).compression_blocks@.len(), old(self).cas_pointer as nat, size as nat),
            r is Err ==> r == Err::<u64, BuildError>(BuildError::TooLarge) && *final(self) == *old(self),
            r is Ok ==> {
                &&& final(self).wf()
                &&& r->Ok_0 == old(self).cas_pointer
                &&& final(self).chunk_ids@ == old(self).chunk_ids@.push(id)
                &&& final(self).offsets_and_lengths@ == old(self).offsets_and_lengths@.push(
                    IoOffsetAndLength { offset: (old(self).compression_blocks@.len() * 0x10000) as u64, length: size },
                )
                &&& final(self).compression_blocks@ == old(self).compression_blocks@ + blocks_for(
                    size as nat,
                    old(self).cas_pointer as nat,
                )
                &&& final(self).metas@ == old(self).metas@.push(IoStoreTocEntryMeta { flags: 0 })
                &&& final(self).cas_pointer == align_up(
                    (old(self).cas_pointer + size) as nat,
                    old(self).compression_block_alignment as nat,
                )
                &&& final(self).compression_block_alignment == old(self).compression_block_alignment
            },
    {
        let nblocks = self.compression_blocks.len();
        if nblocks as u64 > IO_OFFSET_LENGTH_MAX / COMPRESSION_BLOCK_SIZE || size > IO_OFFSET_LENGTH_MAX
            || self.cas_pointer > IO_OFFSET_LENGTH_MAX - size {
            proof {
                if nblocks as u64 > IO_OFFSET_LENGTH_MAX / COMPRESSION_BLOCK_SIZE {
                    assert(nblocks * 0x10000 > IO_OFFSET_LENGTH_MAX) by (nonlinear_arith)
                        requires nblocks > IO_OFFSET_LENGTH_MAX / 0x10000;
                }
            }
            return Err(BuildError::TooLarge);
        }
        assert(nblocks * 0x10000 <= IO_OFFSET_LENGTH_MAX) by (nonlinear_arith)
            requires nblocks <= IO_OFFSET_LENGTH_MAX / 0x10000;
        let offset: u64 = nblocks as u64 * COMPRESSION_BLOCK_SIZE;
        let start = self.cas_pointer;
        self.create_compression_blocks(size, start);
        self.chunk_ids.push(id);
        self.offsets_and_lengths.push(IoOffsetAndLength::new(offset, size));
        self.metas.push(IoStoreTocEntryMeta::new_empty());
        let end: u64 = start + size;
        let a = self.compression_block_alignment;
        let rem = end % a;
        let aligned: u64 = if rem > 0 { end + (a - rem) } else { end };
        proof {
            lemma_align_up(end as nat, a as nat);
        }
        self.cas_pointer = aligned;
        Ok(start)
    }
}

/// Chunks of `sizes`, laid out in order after `blocks` compression blocks
/// with the container pointer at `cas` and alignment `a`, all fit.
pub open spec fn chunks_fit(sizes: Seq<u64>, blocks: nat, cas: nat, a: nat) -> bool
    decreases sizes.len(),
{
    if sizes.len() == 0 {
        true
    } else {
        chunk_fits(blocks, cas, sizes[0] as nat) && chunks_fit(
            sizes.drop_first(),
            blocks + ((sizes[0] + 0xFFFF) / 0x10000) as nat,
            align_up((cas + sizes[0]) as nat, a),
            a,
        )
    }
}

/// Compression blocks and container pointer after laying out chunks of
/// `sizes` from `blocks` blocks and pointer `cas`.
pub open spec fn layout_after(sizes: Seq<u64>, blocks: nat, cas: nat, a: nat) -> (nat, nat)
    decreases sizes.len(),
{
    if sizes.len() == 0 {
        (blocks, cas)
    } else {
        layout_after(
            sizes.drop_first(),
            blocks + ((sizes[0] + 0xFFFF) / 0x10000) as nat,
            align_up((cas + sizes[0]) as nat, a),
            a,
        )
    }
}

/// Compression blocks and container pointer once the first `k` chunks of
/// `sizes` are laid out from an empty container with alignment `a`.
pub open spec fn layout_before(sizes: Seq<u64>, k: int, a: nat) -> (nat, nat)
    decreases k,
{
    if k <= 0 {
        (0, 0)
    } else {
        let prev = layout_before(sizes, k - 1, a);
        (prev.0 + ((sizes[k - 1] + 0xFFFF) / 0x10000) as nat, align_up((prev.1 + sizes[k - 1]) as nat, a))
    }
}

/// The compression blocks of the first `k` chunks of `sizes`, each chunk's
/// blocks starting at the container pointer where it is laid out.
pub open spec fn blocks_upto(sizes: Seq<u64>, k: int, a: nat) -> Seq<IoStoreTocCompressedBlockEntry>
    decreases k,
{
    if k <= 0 {
        Seq::empty()
    } else {
        blocks_upto(sizes, k - 1, a) + blocks_for(sizes[k - 1] as nat, layout_before(sizes, k - 1, a).1)
    }
}

/// Positions of the export bundles among the first `k` files.
pub open spec fn bundle_files(files: Seq<IoFileIndexEntry>, k: int) -> Seq<int>
    decreases k,
{
    if k <= 0 {
        Seq::empty()
    } else if files[k - 1].chunk_type == IoChunkType4::ExportBundleData {
        bundle_files(files, k - 1).push(k - 1)
    } else {
        bundle_files(files, k - 1)
    }
}

/// The store entry `p` is the one of file `f` with bytes `data`: its chunk
/// hash, its size, and the export count, bundle count and imports that
/// the inspector finds, with load order 0.
pub open spec fn package_matches(
    p: ContainerHeaderPackage,
    f: IoFileIndexEntry,
    data: Seq<u8>,
    alt: Set<u64>,
    manual: Map<u64, Vec<u64>>,
) -> bool {
    let rec = crate::package::package_record_spec(data, hash16_of(f.hash_path@), alt, manual)->Ok_0;
    &&& p.hash == hash16_of(f.hash_path@)
    &&& p.export_bundle_size == f.file_size
    &&& p.export_count == rec.0
    &&& p.export_bundle_count == rec.1
    &&& p.import_ids@ == rec.2
    &&& p.load_order == 0
}

/// Import lists of the export bundles among the first `k` files, in order.
pub open spec fn record_imports(
    files: Seq<IoFileIndexEntry>,
    data: Seq<Vec<u8>>,
    alt: Set<u64>,
    manual: Map<u64, Vec<u64>>,
    k: int,
) -> Seq<Seq<u64>>
    decreases k,
{
    if k <= 0 {
        Seq::empty()
    } else if files[k - 1].chunk_type == IoChunkType4::ExportBundleData {
        record_imports(files, data, alt, manual, k - 1).push(
            (crate::package::package_record_spec(data[k - 1]@, hash16_of(files[k - 1].hash_path@), alt, manual)->Ok_0).2,
        )
    } else {
        record_imports(files, data, alt, manual, k - 1)
    }
}

/// Total length of the first `k` lists.
pub open spec fn lens_total(imps: Seq<Seq<u64>>, k: int) -> nat
    decreases k,
{
    if k <= 0 || k > imps.len() {
        0
    } else {
        lens_total(imps, k - 1) + imps[k - 1].len()
    }
}

/// Length of a store-entries blob for packages with these import lists.
pub open spec fn blob_len_of(imps: Seq<Seq<u64>>) -> nat {
    32 * imps.len() + 8 * lens_total(imps, imps.len() as int)
}

/// Length of the container header for packages with these import lists.
pub open spec fn header_len_of(imps: Seq<Seq<u64>>) -> nat {
    44 + 8 * imps.len() + blob_len_of(imps)
}

proof fn lemma_blob_len_of(pkgs: Seq<ContainerHeaderPackage>, imps: Seq<Seq<u64>>, k: int)
    requires
        pkgs.len() == imps.len(),
        0 <= k <= pkgs.len(),
        forall|j: int| 0 <= j < pkgs.len() ==> (#[trigger] pkgs[j]).import_ids@ == imps[j],
    ensures
        crate::container::imports_total(pkgs, k) == lens_total(imps, k),
    decreases k,
{
    if k > 0 {
        lemma_blob_len_of(pkgs, imps, k - 1);
        assert(pkgs[k - 1].import_ids@ == imps[k - 1]);
    }
}

/// Sizes of the flattened files, in order.
pub open spec fn file_sizes(files: Seq<IoFileIndexEntry>) -> Seq<u64> {
    Seq::new(files.len(), |k: int| files[k].file_size)
}

/// Every export bundle among the files can be inspected.
pub open spec fn packages_ok(
    files: Seq<IoFileIndexEntry>,
    data: Seq<Vec<u8>>,
    alt: Set<u64>,
    manual: Map<u64, Vec<u64>>,
) -> bool {
    forall|k: int|
        0 <= k < files.len() && #[trigger] files[k].chunk_type == IoChunkType4::ExportBundleData
            ==> crate::package::package_record_spec(data[k]@, hash16_of(files[k].hash_path@), alt, manual) is Ok
}

/// `Hash16("Game")`: the container id and the hash of the container-header chunk.
pub fn container_name_hash() -> (r: u64)
    ensures
        r == hash16_of("Game"@),
{
    Hasher16::get_cityhash64("Game")
}

/// The path as NUL-terminated UTF-16.
pub fn utf16_path(path: &str) -> (r: Vec<u16>)
    ensures
        r@ == utf16_units(path@).push(0),
{
    let mut v = encode_utf16(path);
    v.push(0);
    v
}

impl TocResolverType2 {
    /// Lays out every file in flatten order: its chunk id from its hash path
    /// and chunk type, its offset, blocks and meta, a store entry for each
    /// export bundle (from `package_data[i]`, the bytes of file `i`), and a
    /// partition block mapping its range of the virtual container to its file.
    pub fn serialize_entries(
        &self,
        layout: &mut TocLayout,
        header: &mut ContainerHeader,
        package_data: &Vec<Vec<u8>>,
        meta: &UtocMetadata,
    ) -> (r: Result<Vec<PartitionBlock>, BuildError>)
        requires
            self.flat_wf(),
            old(layout).wf(),
            old(layout).chunk_ids@.len() == 0,
            old(layout).compression_blocks@.len() == 0,
            old(layout).cas_pointer == 0,
            old(header).packages@.len() == 0,
            package_data@.len() == self.files@.len(),
        ensures
            final(layout).compression_block_alignment == old(layout).compression_block_alignment,
            final(header).container_id == old(header).container_id,
            r is Ok ==> (final(layout).compression_blocks@.len() as nat, final(layout).cas_pointer as nat) == layout_after(
                file_sizes(self.files@),
                old(layout).compression_blocks@.len(),
                old(layout).cas_pointer as nat,
                old(layout).compression_block_alignment as nat,
            ),
            r is Ok ==> {
                let imps = record_imports(self.files@, package_data@, meta.alt_import_assets@, meta.manual_import_assets@, self.files@.len() as int);
                &&& final(header).packages@.len() == imps.len()
                &&& forall|j: int| 0 <= j < imps.len() ==> (#[trigger] final(header).packages@[j]).import_ids@ == imps[j]
            },
            r is Ok <==> chunks_fit(
                file_sizes(self.files@),
                old(layout).compression_blocks@.len(),
                old(layout).cas_pointer as nat,
                old(layout).compression_block_alignment as nat,
            ) && packages_ok(self.files@, package_data@, meta.alt_import_assets@, meta.manual_import_assets@),
            r is Err ==> r->Err_0 == BuildError::TooLarge || r->Err_0 is Package,
            r is Err && r->Err_0 is Package ==> !packages_ok(
                self.files@,
                package_data@,
                meta.alt_import_assets@,
                meta.manual_import_assets@,
            ),
            r is Ok ==> {
                let b = r->Ok_0@;
                let l = *final(layout);
                &&& l.wf()
                &&& l.chunk_ids@.len() == self.files@.len()
                &&& b.len() == self.files@.len()
                &&& forall|k: int| 0 <= k < self.files@.len() ==> {
                    &&& (#[trigger] l.chunk_ids@[k]).hash == hash16_of(self.files@[k].hash_path@)
                    &&& l.chunk_ids@[k].index == 0
                    &&& l.chunk_ids@[k].obj_type == self.files@[k].chunk_type
                    &&& l.offsets_and_lengths@[k].length == self.files@[k].file_size
                    &&& b[k].start % l.compression_block_alignment == 0
                    &&& b[k].length == self.files@[k].file_size
                    &&& b[k].os_path@ == utf16_units(self.files@[k].os_path@).push(0)
                }
                &&& forall|k: int| 0 <= k < b.len() - 1 ==> #[trigger] b[k + 1].start >= b[k].start + b[k].length
            },
            r is Ok ==> {
                let b = r->Ok_0@;
                let l = *final(layout);
                let sizes = file_sizes(self.files@);
                let a = old(layout).compression_block_alignment as nat;
                let n = self.files@.len() as int;
                let bf = bundle_files(self.files@, n);
                &&& l.compression_blocks@ == blocks_upto(sizes, n, a)
                &&& (l.compression_blocks@.len() as nat, l.cas_pointer as nat) == layout_before(sizes, n, a)
                &&& forall|k: int| 0 <= k < n ==> {
                    &&& (#[trigger] l.offsets_and_lengths@[k]).offset == (layout_before(sizes, k, a).0 * 0x10000) as u64
                    &&& l.metas@[k].flags == 0
                    &&& b[k].start as nat == layout_before(sizes, k, a).1
                }
                &&& final(header).packages@.len() == bf.len()
                &&& forall|j: int| 0 <= j < bf.len() ==> package_matches(
                    #[trigger] final(header).packages@[j], self.files@[bf[j]], package_data@[bf[j]]@,
                    meta.alt_import_assets@, meta.manual_import_assets@)
            },
    {
        let mut blocks: Vec<PartitionBlock> = Vec::new();
        let n = self.files.len();
        let ghost l0 = *layout;
        assert(file_sizes(self.files@).subrange(0, n as int) =~= file_sizes(self.files@));
        let mut i: usize = 0;
        while i < n
            invariant
                self.flat_wf(),
                n == self.files@.len(),
                package_data@.len() == n,
                i <= n,
                layout.wf(),
                layout.compression_block_alignment == l0.compression_block_alignment,
                l0 == *old(layout),
                layout.chunk_ids@.len() == i,
                blocks@.len() == i,
                forall|k: int| 0 <= k < i ==> {
                    &&& (#[trigger] layout.chunk_ids@[k]).hash == hash16_of(self.files@[k].hash_path@)
                    &&& layout.chunk_ids@[k].index == 0
                    &&& layout.chunk_ids@[k].obj_type == self.files@[k].chunk_type
                    &&& layout.offsets_and_lengths@[k].length == self.files@[k].file_size
                    &&& blocks@[k].start % layout.compression_block_alignment == 0
                    &&& blocks@[k].length == self.files@[k].file_size
                    &&& blocks@[k].os_path@ == utf16_units(self.files@[k].os_path@).push(0)
                    &&& layout.offsets_and_lengths@[k].offset == (layout_before(file_sizes(self.files@), k, l0.compression_block_alignment as nat).0 * 0x10000) as u64
                    &&& layout.metas@[k].flags == 0
                    &&& blocks@[k].start as nat == layout_before(file_sizes(self.files@), k, l0.compression_block_alignment as nat).1
                },
                (layout.compression_blocks@.len() as nat, layout.cas_pointer as nat)
                    == layout_before(file_sizes(self.files@), i as int, l0.compression_block_alignment as nat),
                layout.compression_blocks@ == blocks_upto(file_sizes(self.files@), i as int, l0.compression_block_alignment as nat),
                l0.compression_blocks@.len() == 0,
                l0.cas_pointer == 0,
                header.packages@.len() == bundle_files(self.files@, i as int).len(),
                forall|j: int| 0 <= j < header.packages@.len() ==> package_matches(
                    #[trigger] header.packages@[j], self.files@[bundle_files(self.files@, i as int)[j]],
                    package_data@[bundle_files(self.files@, i as int)[j]]@, meta.alt_import_assets@, meta.manual_import_assets@),
                forall|k: int| 0 <= k < blocks@.len() - 1 ==> #[trigger] blocks@[k + 1].start >= blocks@[k].start + blocks@[k].length,
                blocks@.len() > 0 ==> blocks@.last().start + blocks@.last().length <= layout.cas_pointer,
                chunks_fit(file_sizes(self.files@), l0.compression_blocks@.len(), l0.cas_pointer as nat, l0.compression_block_alignment as nat)
                    == chunks_fit(file_sizes(self.files@).subrange(i as int, n as int), layout.compression_blocks@.len(),
                        layout.cas_pointer as nat, layout.compression_block_alignment as nat),
                forall|k: int| 0 <= k < i && #[trigger] self.files@[k].chunk_type == IoChunkType4::ExportBundleData
                    ==> crate::package::package_record_spec(package_data@[k]@, hash16_of(self.files@[k].hash_path@),
                        meta.alt_import_assets@, meta.manual_import_assets@) is Ok,
                layout_after(file_sizes(self.files@), l0.compression_blocks@.len(), l0.cas_pointer as nat, l0.compression_block_alignment as nat)
                    == layout_after(file_sizes(self.files@).subrange(i as int, n as int), layout.compression_blocks@.len(),
                        layout.cas_pointer as nat, layout.compression_block_alignment as nat),
                header.container_id == old(header).container_id,
                header.packages@.len() == record_imports(self.files@, package_data@, meta.alt_import_assets@, meta.manual_import_assets@, i as int).len(),
                forall|j: int| 0 <= j < header.packages@.len() ==> (#[trigger] header.packages@[j]).import_ids@
                    == record_imports(self.files@, package_data@, meta.alt_import_assets@, meta.manual_import_assets@, i as int)[j],
            decreases n - i,
        {
            let f = &self.files[i];
            let id = IoChunkId::new(f.hash_path.as_str(), f.chunk_type);
            let ghost before = *layout;
            let ghost rest = file_sizes(self.files@).subrange(i as int, n as int);
            assert(rest[0] == f.file_size);
            assert(rest.drop_first() =~= file_sizes(self.files@).subrange(i + 1, n as int));
            let start = match layout.add_chunk(id, f.file_size) {
                Ok(s) => s,
                Err(e) => return Err(e),
            };
            let ghost pk_before = header.packages@;
            if f.chunk_type == IoChunkType4::ExportBundleData {
                match ContainerHeaderPackage::from_package_summary(package_data[i].as_slice(), id.hash, f.file_size, meta) {
                    Ok(p) => {
                        header.packages.push(p);
                        proof {
                            let imps = record_imports(self.files@, package_data@, meta.alt_import_assets@, meta.manual_import_assets@, i + 1);
                            assert forall|j: int| 0 <= j < header.packages@.len() implies (#[trigger] header.packages@[j]).import_ids@
                                == imps[j] by {
                                if j < pk_before.len() {
                                    assert(header.packages@[j] == pk_before[j]);
                                }
                            }
                            let bf = bundle_files(self.files@, i + 1);
                            assert(bf == bundle_files(self.files@, i as int).push(i as int));
                            assert forall|j: int| 0 <= j < header.packages@.len() implies package_matches(
                                #[trigger] header.packages@[j], self.files@[bf[j]], package_data@[bf[j]]@,
                                meta.alt_import_assets@, meta.manual_import_assets@) by {
                                if j < pk_before.len() {
                                    assert(header.packages@[j] == pk_before[j]);
                                }
                            }
                        }
                    },
                    Err(e) => {
                        assert(self.files@[i as int].chunk_type == IoChunkType4::ExportBundleData);
                        return Err(BuildError::Package(e));
                    },
                }
            }
            proof {
                lemma_align_up((start + f.file_size) as nat, layout.compression_block_alignment as nat);
            }
            blocks.push(PartitionBlock { os_path: utf16_path(f.os_path.as_str()), start, length: f.file_size });
            proof {
                assert(layout.chunk_ids@[i as int] == id);
                assert forall|k: int| 0 <= k < i implies layout.chunk_ids@[k] == before.chunk_ids@[k]
                    && layout.offsets_and_lengths@[k] == before.offsets_and_lengths@[k]
                    && layout.metas@[k] == before.metas@[k] by {}
                assert(file_sizes(self.files@)[i as int] == f.file_size);
                if f.chunk_type != IoChunkType4::ExportBundleData {
                    assert(bundle_files(self.files@, i + 1) == bundle_files(self.files@, i as int));
                }
            }
            i = i + 1;
        }
        assert(file_sizes(self.files@).subrange(n as int, n as int) =~= Seq::<u64>::empty());
        proof {
            let a = l0.compression_block_alignment as nat;
            assert forall|k: int| 0 <= k < n implies {
                &&& (#[trigger] layout.offsets_and_lengths@[k]).offset == (layout_before(file_sizes(self.files@), k, a).0 * 0x10000) as u64
                &&& layout.metas@[k].flags == 0
                &&& blocks@[k].start as nat == layout_before(file_sizes(self.files@), k, a).1
            } by {
                assert(layout.chunk_ids@[k].index == 0);
            }
        }
        Ok(blocks)
    }
}

/// The mount point `../../../` as a length-prefixed string.
pub open spec fn mount_point_bytes() -> Seq<u8> {
    seq![0x0Au8, 0, 0, 0, 0x2E, 0x2E, 0x2F, 0x2E, 0x2E, 0x2F, 0x2E, 0x2E, 0x2F, 0]
}

/// The mount point serializes to `0A 00 00 00`, `../../../` and a NUL.
pub proof fn lemma_mount_point_bytes()
    ensures
        fstring32_bytes("../../../"@) == mount_point_bytes(),
{
    reveal_strlit("../../../");
    let c = "../../../"@;
    assert(is_ascii_chars(c));
    is_ascii_chars_encode_utf8(c);
    assert(encode_utf8(c) =~= seq![0x2Eu8, 0x2E, 0x2F, 0x2E, 0x2E, 0x2F, 0x2E, 0x2E, 0x2F]);
    crate::bytes::lemma_le_bytes_len(10, 4);
    assert(le_bytes(10, 4) =~= seq![0x0Au8, 0, 0, 0]) by {
        reveal_with_fuel(le_bytes, 5);
        assert(crate::bytes::byte_of(10, 0) == 10) by (bit_vector);
        assert(crate::bytes::byte_of(10, 1) == 0) by (bit_vector);
        assert(crate::bytes::byte_of(10, 2) == 0) by (bit_vector);
        assert(crate::bytes::byte_of(10, 3) == 0) by (bit_vector);
    }
    assert(fstring32_bytes(c) =~= mount_point_bytes());
}

pub open spec fn string_bytes(s: String) -> Seq<u8> {
    fstring32_bytes(s@)
}

/// Items 5 to 8 of the TOC: mount point, directory index, file index and
/// string pool, each list after its `u32` count.
pub open spec fn directory_index_bytes(
    dirs: Seq<IoDirectoryIndexEntry>,
    files: Seq<IoFileIndexEntry>,
    strings: Seq<String>,
) -> Seq<u8> {
    mount_point_bytes() + le_bytes(dirs.len() as u64, 4) + flat_map(dirs, |e: IoDirectoryIndexEntry| dir_entry_bytes(e))
        + le_bytes(files.len() as u64, 4) + flat_map(files, |e: IoFileIndexEntry| file_entry_bytes(e)) + le_bytes(
        strings.len() as u64,
        4,
    ) + flat_map(strings, |x: String| string_bytes(x))
}

/// The whole TOC: header, chunk ids, offsets and lengths, compression
/// blocks, directory index section, metas.
pub open spec fn toc_bytes(r: TocResolverType2, l: TocLayout, cid: u64) -> Seq<u8> {
    let di = directory_index_bytes(r.directories@, r.files@, r.strings@);
    toc_header_bytes(
        IoStoreTocHeaderType3 {
            toc_entry_count: l.chunk_ids@.len() as u32,
            toc_compressed_block_entry_count: l.compression_blocks@.len() as u32,
            compression_block_size: 0x10000,
            directory_index_size: di.len() as u32,
            container_id: cid,
        },
    ) + flat_map(l.chunk_ids@, |c: IoChunkId| chunk_id_bytes(c)) + flat_map(
        l.offsets_and_lengths@,
        |o: IoOffsetAndLength| offset_length_bytes(o),
    ) + flat_map(l.compression_blocks@, |b: IoStoreTocCompressedBlockEntry| block_bytes(b)) + di + flat_map(
        l.metas@,
        |m: IoStoreTocEntryMeta| meta_bytes(m),
    )
}

/// Every pool string is short enough for its 32-bit length prefix.
pub open spec fn strings_fit(strings: Seq<String>) -> bool {
    forall|k: int| 0 <= k < strings.len() ==> encode_utf8((#[trigger] strings[k])@).len() < 0xFFFF_FFFF
}

impl TocResolverType2 {
    /// Serializes items 5 to 8; `None` where a string is too long for its prefix.
    pub fn directory_index_to_buffer(&self) -> (r: Option<Vec<u8>>)
        requires
            self.flat_wf(),
        ensures
            r is Some <==> strings_fit(self.strings@),
            r is Some ==> r->0@ == directory_index_bytes(self.directories@, self.files@, self.strings@),
    {
        let mut out: Vec<u8> = Vec::new();
        proof {
            reveal_strlit("../../../");
            is_ascii_chars_encode_utf8("../../../"@);
            lemma_mount_point_bytes();
        }
        FString32NoHash::to_buffer("../../../", &mut out);
        push_u32(&mut out, self.directories.len() as u32);
        let ghost h1 = out@;
        let mut i: usize = 0;
        while i < self.directories.len()
            invariant
                i <= self.directories@.len(),
                out@ == h1 + flat_map(self.directories@.subrange(0, i as int), |e: IoDirectoryIndexEntry| dir_entry_bytes(e)),
            decreases self.directories@.len() - i,
        {
            self.directories[i].to_buffer(&mut out);
            proof { lemma_flat_map_step(self.directories@, |e: IoDirectoryIndexEntry| dir_entry_bytes(e), i as int); }
            i = i + 1;
        }
        assert(self.directories@.subrange(0, self.directories@.len() as int) =~= self.directories@);
        push_u32(&mut out, self.files.len() as u32);
        let ghost h2 = out@;
        let mut i: usize = 0;
        while i < self.files.len()
            invariant
                i <= self.files@.len(),
                out@ == h2 + flat_map(self.files@.subrange(0, i as int), |e: IoFileIndexEntry| file_entry_bytes(e)),
            decreases self.files@.len() - i,
        {
            self.files[i].to_buffer(&mut out);
            proof { lemma_flat_map_step(self.files@, |e: IoFileIndexEntry| file_entry_bytes(e), i as int); }
            i = i + 1;
        }
        assert(self.files@.subrange(0, self.files@.len() as int) =~= self.files@);
        push_u32(&mut out, self.strings.len() as u32);
        let ghost h3 = out@;
        let mut i: usize = 0;
        while i < self.strings.len()
            invariant
                i <= self.strings@.len(),
                out@ == h3 + flat_map(self.strings@.subrange(0, i as int), |x: String| string_bytes(x)),
                forall|k: int| 0 <= k < i ==> encode_utf8((#[trigger] self.strings@[k])@).len() < 0xFFFF_FFFF,
            decreases self.strings@.len() - i,
        {
            let st = self.strings[i].as_str();
            if st.as_bytes().len() >= 0xFFFF_FFFF {
                return None;
            }
            FString32NoHash::to_buffer(st, &mut out);
            proof { lemma_flat_map_step(self.strings@, |x: String| string_bytes(x), i as int); }
            i = i + 1;
        }
        assert(self.strings@.subrange(0, self.strings@.len() as int) =~= self.strings@);
        assert(out@ =~= directory_index_bytes(self.directories@, self.files@, self.strings@));
        Some(out)
    }
}

/// `serialize` succeeds: every file's chunk fits, every export bundle can
/// be inspected, the store-entries blob fits its length field, the header's
/// chunk fits after the files, the pool strings and the directory index
/// fit their length fields, and the block count fits the TOC header.
pub open spec fn serialize_ok(
    r: TocResolverType2,
    data: Seq<Vec<u8>>,
    alt: Set<u64>,
    manual: Map<u64, Vec<u64>>,
    a: nat,
) -> bool {
    let sizes = file_sizes(r.files@);
    let imps = record_imports(r.files@, data, alt, manual, r.files@.len() as int);
    let la = layout_after(sizes, 0, 0, a);
    let h = header_len_of(imps);
    &&& chunks_fit(sizes, 0, 0, a)
    &&& packages_ok(r.files@, data, alt, manual)
    &&& blob_len_of(imps) <= u32::MAX
    &&& chunk_fits(la.0, la.1, h)
    &&& strings_fit(r.strings@)
    &&& directory_index_bytes(r.directories@, r.files@, r.strings@).len() <= u32::MAX
    &&& la.0 + (h + 0xFFFF) / 0x10000 <= u32::MAX
}

/// Serializes the container header and lays out its chunk after the files.
pub fn add_header_chunk(layout: &mut TocLayout, header: &ContainerHeader) -> (r: Result<Vec<u8>, BuildError>)
    requires
        old(layout).wf(),
    ensures
        r is Ok <==> crate::container::blob_len(header.packages@) <= u32::MAX && chunk_fits(
            old(layout).compression_blocks@.len(),
            old(layout).cas_pointer as nat,
            crate::container::container_header_bytes(header.container_id, header.packages@).len(),
        ),
        r is Err ==> r->Err_0 == BuildError::TooLarge,
        r is Ok ==> {
            let h = r->Ok_0@;
            let l = *final(layout);
            &&& h == crate::container::container_header_bytes(header.container_id, header.packages@)
            &&& l.wf()
            &&& l.chunk_ids@ == old(layout).chunk_ids@.push(
                IoChunkId { hash: header.container_id, index: 0, obj_type: IoChunkType4::ContainerHeader })
            &&& l.offsets_and_lengths@ == old(layout).offsets_and_lengths@.push(
                IoOffsetAndLength { offset: (old(layout).compression_blocks@.len() * 0x10000) as u64, length: h.len() as u64 })
            &&& l.compression_blocks@ == old(layout).compression_blocks@ + blocks_for(h.len(), old(layout).cas_pointer as nat)
            &&& l.metas@ == old(layout).metas@.push(IoStoreTocEntryMeta { flags: 0 })
            &&& l.compression_block_alignment == old(layout).compression_block_alignment
        },
{
    let hbytes = match header.to_buffer() {
        Some(b) => b,
        None => return Err(BuildError::TooLarge),
    };
    let hid = IoChunkId::new_from_hash(header.container_id, IoChunkType4::ContainerHeader);
    match layout.add_chunk(hid, hbytes.len() as u64) {
        Ok(_) => Ok(hbytes),
        Err(e) => Err(e),
    }
}

impl TocResolverType2 {
    /// Writes the TOC from a finished layout and the serialized directory
    /// index section.
    pub fn write_toc(&self, l: &TocLayout, di: &Vec<u8>, cid: u64) -> (toc: Vec<u8>)
        requires
            di@ == directory_index_bytes(self.directories@, self.files@, self.strings@),
        ensures
            toc@ == toc_bytes(*self, *l, cid),
    {
        let th = IoStoreTocHeaderType3::new(
            cid,
            l.chunk_ids.len() as u32,
            l.compression_blocks.len() as u32,
            COMPRESSION_BLOCK_SIZE as u32,
            di.len() as u32,
        );
        let mut toc: Vec<u8> = Vec::new();
        th.to_buffer(&mut toc);
        let ghost h1 = toc@;
        let mut i: usize = 0;
        while i < l.chunk_ids.len()
            invariant
                i <= l.chunk_ids@.len(),
                toc@ == h1 + flat_map(l.chunk_ids@.subrange(0, i as int), |c: IoChunkId| chunk_id_bytes(c)),
            decreases l.chunk_ids@.len() - i,
        {
            l.chunk_ids[i].to_buffer(&mut toc);
            proof { lemma_flat_map_step(l.chunk_ids@, |c: IoChunkId| chunk_id_bytes(c), i as int); }
            i = i + 1;
        }
        assert(l.chunk_ids@.subrange(0, l.chunk_ids@.len() as int) =~= l.chunk_ids@);
        let ghost h2 = toc@;
        let mut i: usize = 0;
        while i < l.offsets_and_lengths.len()
            invariant
                i <= l.offsets_and_lengths@.len(),
                toc@ == h2 + flat_map(l.offsets_and_lengths@.subrange(0, i as int), |o: IoOffsetAndLength| offset_length_bytes(o)),
            decreases l.offsets_and_lengths@.len() - i,
        {
            l.offsets_and_lengths[i].to_buffer(&mut toc);
            proof { lemma_flat_map_step(l.offsets_and_lengths@, |o: IoOffsetAndLength| offset_length_bytes(o), i as int); }
            i = i + 1;
        }
        assert(l.offsets_and_lengths@.subrange(0, l.offsets_and_lengths@.len() as int) =~= l.offsets_and_lengths@);
        let ghost h3 = toc@;
        let mut i: usize = 0;
        while i < l.compression_blocks.len()
            invariant
                i <= l.compression_blocks@.len(),
                toc@ == h3 + flat_map(l.compression_blocks@.subrange(0, i as int), |b: IoStoreTocCompressedBlockEntry| block_bytes(b)),
            decreases l.compression_blocks@.len() - i,
        {
            l.compression_blocks[i].to_buffer(&mut toc);
            proof { lemma_flat_map_step(l.compression_blocks@, |b: IoStoreTocCompressedBlockEntry| block_bytes(b), i as int); }
            i = i + 1;
        }
        assert(l.compression_blocks@.subrange(0, l.compression_blocks@.len() as int) =~= l.compression_blocks@);
        push_all(&mut toc, di.as_slice());
        let ghost h4 = toc@;
        let mut i: usize = 0;
        while i < l.metas.len()
            invariant
                i <= l.metas@.len(),
                toc@ == h4 + flat_map(l.metas@.subrange(0, i as int), |m: IoStoreTocEntryMeta| meta_bytes(m)),
            decreases l.metas@.len() - i,
        {
            l.metas[i].to_buffer(&mut toc);
            proof { lemma_flat_map_step(l.metas@, |m: IoStoreTocEntryMeta| meta_bytes(m), i as int); }
            i = i + 1;
        }
        assert(l.metas@.subrange(0, l.metas@.len() as int) =~= l.metas@);
        assert(toc@ =~= toc_bytes(*self, *l, cid));
        toc
    }
}

/// The chunk id of the container header.
pub open spec fn container_header_chunk_id() -> IoChunkId {
    IoChunkId { hash: hash16_of("Game"@), index: 0, obj_type: IoChunkType4::ContainerHeader }
}

impl TocResolverType2 {
    /// Flattens the whole tree from its root.
    pub fn flatten_toc_tree(&mut self, tree: &TocTree) -> (r: Result<(), BuildError>)
        requires
            old(self).flat_wf(),
            old(self).directories@.len() == 0,
            old(self).files@.len() == 0,
            tree.wf(),
        ensures
            final(self).flat_wf(),
            r is Err ==> {
                ||| r->Err_0 == BuildError::MissingContentSegment && some_file_lacks_content(tree.dirs@)
                ||| r->Err_0 == BuildError::UnsupportedFile && some_file_unsupported(tree.dirs@)
                ||| r->Err_0 == BuildError::TooLarge && ({
                    let ids = subtree(tree.dirs@, 0);
                    let fl = files_of(tree.dirs@, ids);
                    ||| ids.len() > MAX_INDEX_ENTRIES
                    ||| fl.len() >= MAX_INDEX_ENTRIES
                    ||| old(self).strings@.len() + ids.len() + fl.len() > MAX_INDEX_ENTRIES
                })
            },
            r is Ok ==> {
                let ids = subtree(tree.dirs@, 0);
                let fl = files_of(tree.dirs@, ids);
                &&& final(self).directories@.len() == ids.len()
                &&& final(self).files@.len() == fl.len()
                &&& forall|p: int| 0 <= p < final(self).directories@.len() ==> dir_entry_matches(
                    final(self).strings@,
                    #[trigger] final(self).directories@[p],
                    tree.dirs@,
                    ids[p],
                )
                &&& forall|q: int| 0 <= q < final(self).files@.len() ==> file_entry_matches(
                    final(self).strings@,
                    #[trigger] final(self).files@[q],
                    tree.dirs@,
                    fl[q].0,
                    fl[q].1,
                )
                &&& forall|p: int| 0 <= p < final(self).directories@.len() ==> dir_links_match(
                    tree.dirs@,
                    #[trigger] final(self).directories@[p],
                    ids[p],
                    p,
                    p == 0,
                    files_of(tree.dirs@, ids.subrange(0, p)).len(),
                )
                &&& forall|q: int| 0 <= q < final(self).files@.len() ==> file_link_match(
                    tree.dirs@,
                    #[trigger] final(self).files@[q],
                    fl[q].0,
                    fl[q].1,
                    q,
                )
            },
    {
        let root_path = String::new();
        self.flatten_toc_tree_dir(tree, 0, &root_path)
    }

    /// Lays out the files and the container header and serializes the TOC.
    /// `package_data[i]` holds the bytes of file `i` where it is an export
    /// bundle.
    #[verifier::rlimit(100)]
    pub fn serialize(
        &self,
        layout: &mut TocLayout,
        package_data: &Vec<Vec<u8>>,
        meta: &UtocMetadata,
    ) -> (r: Result<(Vec<u8>, ContainerData), BuildError>)
        requires
            self.flat_wf(),
            old(layout).wf(),
            old(layout).chunk_ids@.len() == 0,
            old(layout).compression_blocks@.len() == 0,
            old(layout).cas_pointer == 0,
            package_data@.len() == self.files@.len(),
        ensures
            r is Ok <==> serialize_ok(
                *self,
                package_data@,
                meta.alt_import_assets@,
                meta.manual_import_assets@,
                old(layout).compression_block_alignment as nat,
            ),
            r is Err ==> r->Err_0 == BuildError::TooLarge || r->Err_0 is Package,
            r is Err && r->Err_0 is Package ==> !packages_ok(
                self.files@,
                package_data@,
                meta.alt_import_assets@,
                meta.manual_import_assets@,
            ),
            r is Ok ==> {
                let toc = (r->Ok_0).0;
                let cd = (r->Ok_0).1;
                let l = *final(layout);
                let n = self.files@.len();
                &&& l.wf()
                &&& l.compression_block_alignment == old(layout).compression_block_alignment
                &&& l.chunk_ids@.len() == n + 1
                &&& l.offsets_and_lengths@.len() == n + 1
                &&& l.metas@.len() == n + 1
                &&& forall|k: int| 0 <= k < n ==> {
                    &&& (#[trigger] l.chunk_ids@[k]).hash == hash16_of(self.files@[k].hash_path@)
                    &&& l.chunk_ids@[k].index == 0
                    &&& l.chunk_ids@[k].obj_type == self.files@[k].chunk_type
                    &&& l.offsets_and_lengths@[k].length == self.files@[k].file_size
                    &&& cd.virtual_blocks@[k].start % l.compression_block_alignment == 0
                    &&& cd.virtual_blocks@[k].length == self.files@[k].file_size
                    &&& cd.virtual_blocks@[k].os_path@ == utf16_units(self.files@[k].os_path@).push(0)
                }
                &&& cd.virtual_blocks@.len() == n
                &&& forall|k: int| 0 <= k < n - 1 ==> {
                    &&& #[trigger] cd.virtual_blocks@[k + 1].start >= cd.virtual_blocks@[k].start + cd.virtual_blocks@[k].length
                    &&& (cd.virtual_blocks@[k + 1].start - cd.virtual_blocks@[k].start) % (l.compression_block_alignment as int) == 0
                }
                &&& l.chunk_ids@[n as int] == container_header_chunk_id()
                &&& l.offsets_and_lengths@[n as int].length == cd.header@.len()
                &&& toc@ == toc_bytes(*self, l, hash16_of("Game"@))
            },
            r is Ok ==> {
                let cd = (r->Ok_0).1;
                let l = *final(layout);
                let sizes = file_sizes(self.files@);
                let a = old(layout).compression_block_alignment as nat;
                let n = self.files@.len() as int;
                let la = layout_before(sizes, n, a);
                let bf = bundle_files(self.files@, n);
                &&& cd.header@ == crate::container::container_header_bytes(hash16_of("Game"@), cd.packages@)
                &&& cd.packages@.len() == bf.len()
                &&& forall|j: int| 0 <= j < bf.len() ==> package_matches(
                    #[trigger] cd.packages@[j], self.files@[bf[j]], package_data@[bf[j]]@,
                    meta.alt_import_assets@, meta.manual_import_assets@)
                &&& l.compression_blocks@ == blocks_upto(sizes, n, a) + blocks_for(cd.header@.len(), la.1)
                &&& forall|k: int| 0 <= k < n ==> {
                    &&& (#[trigger] l.offsets_and_lengths@[k]).offset == (layout_before(sizes, k, a).0 * 0x10000) as u64
                    &&& cd.virtual_blocks@[k].start as nat == layout_before(sizes, k, a).1
                }
                &&& l.offsets_and_lengths@[n].offset == (la.0 * 0x10000) as u64
                &&& forall|k: int| 0 <= k <= n ==> (#[trigger] l.metas@[k]).flags == 0
            },
    {
        let cid = container_name_hash();
        let mut header = ContainerHeader::new(cid);
        let blocks = match self.serialize_entries(layout, &mut header, package_data, meta) {
            Ok(b) => b,
            Err(e) => return Err(e),
        };
        proof {
            let a = layout.compression_block_alignment as int;
            assert forall|k: int| 0 <= k < blocks@.len() - 1 implies (#[trigger] blocks@[k + 1].start - blocks@[k].start) % a == 0 by {
                let x = blocks@[k + 1].start as int;
                let y = blocks@[k].start as int;
                assert(layout.chunk_ids@[k].index == 0);
                assert(layout.chunk_ids@[k + 1].index == 0);
                assert(blocks@[k].start % layout.compression_block_alignment == 0);
                assert(blocks@[k + 1].start % layout.compression_block_alignment == 0);
                assert(x % a == 0 && y % a == 0);
                vstd::arithmetic::div_mod::lemma_fundamental_div_mod(x, a);
                vstd::arithmetic::div_mod::lemma_fundamental_div_mod(y, a);
                assert(x - y == (x / a - y / a) * a) by (nonlinear_arith)
                    requires x == a * (x / a) + 0, y == a * (y / a) + 0;
                vstd::arithmetic::div_mod::lemma_mod_multiples_basic(x / a - y / a, a);
            }
        }
        let ghost imps = record_imports(self.files@, package_data@, meta.alt_import_assets@, meta.manual_import_assets@, self.files@.len() as int);
        proof {
            lemma_blob_len_of(header.packages@, imps, imps.len() as int);
            crate::container::lemma_container_header_len(header.container_id, header.packages@);
        }
        let ghost before = *layout;
        let hbytes = match add_header_chunk(layout, &header) {
            Ok(b) => b,
            Err(e) => return Err(e),
        };
        assert(hbytes@.len() == header_len_of(imps));
        proof {
            let n = self.files@.len() as int;
            assert forall|k: int| 0 <= k < n implies layout.chunk_ids@[k] == before.chunk_ids@[k]
                && layout.offsets_and_lengths@[k] == before.offsets_and_lengths@[k]
                && layout.metas@[k] == before.metas@[k] by {}
        }
        let di = match self.directory_index_to_buffer() {
            Some(d) => d,
            None => return Err(BuildError::TooLarge),
        };
        if di.len() > 0xFFFF_FFFF || layout.compression_blocks.len() > 0xFFFF_FFFF {
            return Err(BuildError::TooLarge);
        }
        let toc = self.write_toc(&*layout, &di, cid);
        Ok((toc, ContainerData { header: hbytes, packages: header.packages, virtual_blocks: blocks }))
    }
}

/// Name of the emulated container.
pub const TOC_NAME: &'static str = "UnrealEssentials";

/// File name of the emulated table of contents.
pub const TARGET_TOC: &'static str = "UnrealEssentials.utoc";

/// File name of the emulated container stream.
pub const TARGET_CAS: &'static str = "UnrealEssentials.ucas";

/// The last component of a path, after its last `/` or `\`.
pub open spec fn last_component(p: Seq<char>) -> Seq<char> {
    if exists|i: int| 0 <= i < p.len() && (p[i] == '/' || p[i] == '\\') {
        let i = choose|i: int|
            0 <= i < p.len() && (p[i] == '/' || p[i] == '\\') && forall|j: int| i < j < p.len() ==> p[j] != '/' && p[j] != '\\';
        p.subrange(i + 1, p.len() as int)
    } else {
        p
    }
}

/// What a build request gets.
#[derive(Debug, PartialEq, Eq, Structural)]
pub enum BuildRequest {
    /// The path names another table of contents.
    NotMyFile,
    /// No mod was loaded: nothing to emulate.
    NoMods,
    /// Build the table of contents.
    Build,
}

/// The last component of a path.
pub fn file_name_of(path: &str) -> (r: String)
    ensures
        r@ == last_component(path@),
{
    let n = path.unicode_len();
    let mut i: usize = n;
    while i > 0
        invariant
            n == path@.len(),
            i <= n,
            forall|j: int| i <= j < n ==> path@[j] != '/' && path@[j] != '\\',
        decreases i,
    {
        let c = path.get_char(i - 1);
        if c == '/' || c == '\\' {
            proof {
                let d = (i - 1) as int;
                let p = path@;
                let k = choose|k: int|
                    0 <= k < p.len() && (p[k] == '/' || p[k] == '\\') && forall|j: int| k < j < p.len() ==> p[j] != '/' && p[j] != '\\';
                assert(k == d) by {
                    if k < d {
                    } else if k > d {
                    }
                }
            }
            return path.substring_char(i, n).to_owned();
        }
        i = i - 1;
    }
    path.to_owned()
}

/// Decides a build request for `toc_path`: only the emulated table of
/// contents is built, and only once some mod was loaded.
pub fn check_build_request(toc_path: &str, mods_loaded: bool) -> (r: BuildRequest)
    ensures
        last_component(toc_path@) != TARGET_TOC@ ==> r == BuildRequest::NotMyFile,
        last_component(toc_path@) == TARGET_TOC@ && !mods_loaded ==> r == BuildRequest::NoMods,
        last_component(toc_path@) == TARGET_TOC@ && mods_loaded ==> r == BuildRequest::Build,
{
    let name = file_name_of(toc_path);
    if !str_eq(name.as_str(), TARGET_TOC) {
        BuildRequest::NotMyFile
    } else if !mods_loaded {
        BuildRequest::NoMods
    } else {
        BuildRequest::Build
    }
}

} // verus!

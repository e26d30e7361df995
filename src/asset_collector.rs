//! What the collector decides for each entry of a mod directory, and the
//! per-mod tallies it keeps.

use vstd::prelude::*;
use crate::package::{is_valid_asset_spec, is_valid_asset_type};
use crate::text::{extension_of, file_extension, str_eq};
use crate::tree::{has_file_named, TocFile, TocFileAddType, TocTree};

verus! {

/// How a file met in a mod is treated.
#[derive(Debug, PartialEq, Eq, Structural)]
pub enum FileClass {
    /// `.uasset` or `.umap`: enters the tree unless it is a cooked asset.
    ExportBundle,
    /// `.ubulk` or `.uptnl`: enters the tree.
    BulkData,
    /// The `.utocmeta` sidecar.
    Metadata,
    /// Any other extension: skipped.
    Unsupported,
    /// No extension: skipped.
    NoExtension,
}

pub open spec fn file_class_of(name: Seq<char>) -> FileClass {
    match file_extension(name) {
        Some(e) => if e == "uasset"@ || e == "umap"@ {
            FileClass::ExportBundle
        } else if e == "ubulk"@ || e == "uptnl"@ {
            FileClass::BulkData
        } else {
            FileClass::Unsupported
        },
        None => if name == ".utocmeta"@ {
            FileClass::Metadata
        } else {
            FileClass::NoExtension
        },
    }
}

/// Classifies a file by its name.
pub fn classify_file(name: &str) -> (r: FileClass)
    ensures
        r == file_class_of(name@),
{
    proof {
        reveal_strlit("uasset");
        reveal_strlit("umap");
        reveal_strlit("ubulk");
        reveal_strlit("uptnl");
        reveal_strlit(".utocmeta");
    }
    match extension_of(name) {
        Some(e) => {
            let e = e.as_str();
            if str_eq(e, "uasset") || str_eq(e, "umap") {
                FileClass::ExportBundle
            } else if str_eq(e, "ubulk") || str_eq(e, "uptnl") {
                FileClass::BulkData
            } else {
                FileClass::Unsupported
            }
        },
        None => if str_eq(name, ".utocmeta") {
            FileClass::Metadata
        } else {
            FileClass::NoExtension
        },
    }
}

/// A directory entry that could not be read.
pub struct AssetCollectorProfilerFailedFsObject {
    pub os_path: String,
    pub reason: String,
}

/// A file left out of the tree, and why.
pub struct AssetCollectorSkippedFileEntry {
    pub os_path: String,
    pub reason: String,
}

/// Tallies of one mod.
pub struct AssetCollectorProfilerModContents {
    pub failed_file_system_objects: Vec<AssetCollectorProfilerFailedFsObject>,
    pub directory_count: u64,
    pub added_files_count: u64,
    pub added_files_size: u64,
    pub replaced_files_count: u64,
    pub replaced_files_size: u64,
    pub incorrect_asset_header: Vec<String>,
    pub skipped_files: Vec<AssetCollectorSkippedFileEntry>,
    pub skipped_file_size: u64,
}

/// `a + b`, held at `u64::MAX`.
pub open spec fn sat_add(a: u64, b: u64) -> u64 {
    if a + b > u64::MAX { u64::MAX } else { (a + b) as u64 }
}

impl AssetCollectorProfilerModContents {
    pub fn new() -> (r: Self)
        ensures
            r.failed_file_system_objects@.len() == 0,
            r.directory_count == 0,
            r.added_files_count == 0,
            r.added_files_size == 0,
            r.replaced_files_count == 0,
            r.replaced_files_size == 0,
            r.incorrect_asset_header@.len() == 0,
            r.skipped_files@.len() == 0,
            r.skipped_file_size == 0,
    {
        AssetCollectorProfilerModContents {
            failed_file_system_objects: Vec::new(),
            directory_count: 0,
            added_files_count: 0,
            added_files_size: 0,
            replaced_files_count: 0,
            replaced_files_size: 0,
            incorrect_asset_header: Vec::new(),
            skipped_files: Vec::new(),
            skipped_file_size: 0,
        }
    }

    pub fn add_failed_fs_object(&mut self, parent_dir: &str, reason: String)
        ensures
            final(self).failed_file_system_objects@.len() == old(self).failed_file_system_objects@.len() + 1,
            final(self).failed_file_system_objects@.drop_last() == old(self).failed_file_system_objects@,
            final(self).failed_file_system_objects@.last().os_path@ == parent_dir@,
            final(self).failed_file_system_objects@.last().reason == reason,
            final(self).directory_count == old(self).directory_count,
            final(self).added_files_count == old(self).added_files_count,
            final(self).added_files_size == old(self).added_files_size,
            final(self).replaced_files_count == old(self).replaced_files_count,
            final(self).replaced_files_size == old(self).replaced_files_size,
            final(self).incorrect_asset_header == old(self).incorrect_asset_header,
            final(self).skipped_files == old(self).skipped_files,
            final(self).skipped_file_size == old(self).skipped_file_size,
    {
        self.failed_file_system_objects.push(
            AssetCollectorProfilerFailedFsObject { os_path: parent_dir.to_owned(), reason },
        );
    }

    /// Records a skipped file; the size total is held at `u64::MAX`.
    pub fn add_skipped_file(&mut self, os_path: &str, reason: String, size: u64)
        ensures
            final(self).skipped_files@.len() == old(self).skipped_files@.len() + 1,
            final(self).skipped_files@.drop_last() == old(self).skipped_files@,
            final(self).skipped_files@.last().os_path@ == os_path@,
            final(self).skipped_files@.last().reason == reason,
            final(self).skipped_file_size == sat_add(old(self).skipped_file_size, size),
            final(self).failed_file_system_objects == old(self).failed_file_system_objects,
            final(self).directory_count == old(self).directory_count,
            final(self).added_files_count == old(self).added_files_count,
            final(self).added_files_size == old(self).added_files_size,
            final(self).replaced_files_count == old(self).replaced_files_count,
            final(self).replaced_files_size == old(self).replaced_files_size,
            final(self).incorrect_asset_header == old(self).incorrect_asset_header,
    {
        self.skipped_files.push(AssetCollectorSkippedFileEntry { os_path: os_path.to_owned(), reason });
        self.skipped_file_size = self.skipped_file_size.saturating_add(size);
    }

    pub fn add_directory(&mut self)
        ensures
            final(self).directory_count == sat_add(old(self).directory_count, 1),
            final(self).failed_file_system_objects == old(self).failed_file_system_objects,
            final(self).added_files_count == old(self).added_files_count,
            final(self).added_files_size == old(self).added_files_size,
            final(self).replaced_files_count == old(self).replaced_files_count,
            final(self).replaced_files_size == old(self).replaced_files_size,
            final(self).incorrect_asset_header == old(self).incorrect_asset_header,
            final(self).skipped_files == old(self).skipped_files,
            final(self).skipped_file_size == old(self).skipped_file_size,
    {
        self.directory_count = self.directory_count.saturating_add(1);
    }

    pub fn add_added_file(&mut self, size: u64)
        ensures
            final(self).added_files_count == sat_add(old(self).added_files_count, 1),
            final(self).added_files_size == sat_add(old(self).added_files_size, size),
            final(self).failed_file_system_objects == old(self).failed_file_system_objects,
            final(self).directory_count == old(self).directory_count,
            final(self).replaced_files_count == old(self).replaced_files_count,
            final(self).replaced_files_size == old(self).replaced_files_size,
            final(self).incorrect_asset_header == old(self).incorrect_asset_header,
            final(self).skipped_files == old(self).skipped_files,
            final(self).skipped_file_size == old(self).skipped_file_size,
    {
        self.added_files_count = self.added_files_count.saturating_add(1);
        self.added_files_size = self.added_files_size.saturating_add(size);
    }

    pub fn add_replaced_file(&mut self, size: u64)
        ensures
            final(self).replaced_files_count == sat_add(old(self).replaced_files_count, 1),
            final(self).replaced_files_size == sat_add(old(self).replaced_files_size, size),
            final(self).failed_file_system_objects == old(self).failed_file_system_objects,
            final(self).directory_count == old(self).directory_count,
            final(self).added_files_count == old(self).added_files_count,
            final(self).added_files_size == old(self).added_files_size,
            final(self).incorrect_asset_header == old(self).incorrect_asset_header,
            final(self).skipped_files == old(self).skipped_files,
            final(self).skipped_file_size == old(self).skipped_file_size,
    {
        self.replaced_files_count = self.replaced_files_count.saturating_add(1);
        self.replaced_files_size = self.replaced_files_size.saturating_add(size);
    }
}

/// Tallies of one mod, with the path it was read from.
pub struct AssetCollectorProfilerMod {
    pub os_path: String,
    pub data: AssetCollectorProfilerModContents,
}

impl AssetCollectorProfilerMod {
    pub fn new(mod_path: &str) -> (r: Self)
        ensures
            r.os_path@ == mod_path@,
            r.data.added_files_count == 0,
            r.data.skipped_files@.len() == 0,
    {
        AssetCollectorProfilerMod { os_path: mod_path.to_owned(), data: AssetCollectorProfilerModContents::new() }
    }
}

/// Tallies of every mod read.
pub struct AssetCollectorProfiler {
    pub mods_loaded: Vec<AssetCollectorProfilerMod>,
}

impl AssetCollectorProfiler {
    /// Width of the report, in columns.
    pub fn get_terminal_length() -> (r: usize)
        ensures
            r == 80,
    {
        80
    }

    pub fn new() -> (r: Self)
        ensures
            r.mods_loaded@.len() == 0,
    {
        AssetCollectorProfiler { mods_loaded: Vec::new() }
    }
}

/// `p1` is `p0` with one more skipped file, `os_path` for `reason`, whose
/// size joins the skipped total.
pub open spec fn skipped_one(
    p0: AssetCollectorProfilerModContents,
    p1: AssetCollectorProfilerModContents,
    os_path: Seq<char>,
    reason: Seq<char>,
    size: u64,
) -> bool {
    &&& p1.skipped_files@.len() == p0.skipped_files@.len() + 1
    &&& p1.skipped_files@.drop_last() == p0.skipped_files@
    &&& p1.skipped_files@.last().os_path@ == os_path
    &&& p1.skipped_files@.last().reason@ == reason
    &&& p1.skipped_file_size == sat_add(p0.skipped_file_size, size)
    &&& p1.added_files_count == p0.added_files_count
    &&& p1.added_files_size == p0.added_files_size
    &&& p1.replaced_files_count == p0.replaced_files_count
    &&& p1.replaced_files_size == p0.replaced_files_size
    &&& p1.directory_count == p0.directory_count
    &&& p1.failed_file_system_objects == p0.failed_file_system_objects
}

/// `p1` is `p0` with one more added (or, with `replaced`, replaced) file of
/// `size` bytes.
pub open spec fn counted_one(
    p0: AssetCollectorProfilerModContents,
    p1: AssetCollectorProfilerModContents,
    replaced: bool,
    size: u64,
) -> bool {
    &&& p1.added_files_count == if replaced { p0.added_files_count } else { sat_add(p0.added_files_count, 1) }
    &&& p1.added_files_size == if replaced { p0.added_files_size } else { sat_add(p0.added_files_size, size) }
    &&& p1.replaced_files_count == if replaced { sat_add(p0.replaced_files_count, 1) } else { p0.replaced_files_count }
    &&& p1.replaced_files_size == if replaced { sat_add(p0.replaced_files_size, size) } else { p0.replaced_files_size }
    &&& p1.skipped_files == p0.skipped_files
    &&& p1.skipped_file_size == p0.skipped_file_size
    &&& p1.directory_count == p0.directory_count
    &&& p1.failed_file_system_objects == p0.failed_file_system_objects
}

/// What became of a file met in a mod.
#[derive(Debug, PartialEq, Eq, Structural)]
pub enum FileOutcome {
    Added,
    Replaced,
    /// A `.uasset`/`.umap` that starts with the cooked-asset magic.
    SkippedCooked,
    SkippedUnsupported,
    SkippedNoExtension,
    /// The `.utocmeta` sidecar, to be read into the metadata.
    Metadata,
}

impl TocTree {
    /// Handles a file named `name` met in directory `dir` of a mod:
    /// `head` holds its first bytes (at least four where there are four).
    /// Export bundles whose first bytes are the cooked magic, unsupported
    /// and extension-less files are recorded as skipped; the sidecar is left
    /// to the caller; the rest are added to or replace in the tree.
    pub fn add_mod_file(
        &mut self,
        dir: usize,
        name: &str,
        file_size: u64,
        os_path: &str,
        head: &[u8],
        profiler: &mut AssetCollectorProfilerModContents,
    ) -> (r: FileOutcome)
        requires
            old(self).wf(),
            dir < old(self).dirs@.len(),
        ensures
            final(self).wf(),
            final(self).dirs@.len() == old(self).dirs@.len(),
            ({
                let c = file_class_of(name@);
                let enters = c == FileClass::BulkData || (c == FileClass::ExportBundle && is_valid_asset_spec(head@));
                &&& enters ==> final(self).dirs@[dir as int].files@.len() == old(self).dirs@[dir as int].files@.len()
                    + if has_file_named(old(self).dirs@[dir as int].files@, name@) { 0int } else { 1int }
                &&& enters ==> (r == if has_file_named(old(self).dirs@[dir as int].files@, name@) {
                    FileOutcome::Replaced
                } else {
                    FileOutcome::Added
                })
                &&& enters ==> exists|j: int|
                    0 <= j < final(self).dirs@[dir as int].files@.len() && final(self).dirs@[dir as int].files@[j].name@ == name@
                        && final(self).dirs@[dir as int].files@[j].os_file_path@ == os_path@
                        && final(self).dirs@[dir as int].files@[j].file_size == file_size
                &&& !enters ==> *final(self) == *old(self)
                &&& c == FileClass::ExportBundle && !is_valid_asset_spec(head@) ==> r == FileOutcome::SkippedCooked
                &&& c == FileClass::Unsupported ==> r == FileOutcome::SkippedUnsupported
                &&& c == FileClass::NoExtension ==> r == FileOutcome::SkippedNoExtension
                &&& c == FileClass::Metadata ==> r == FileOutcome::Metadata
                &&& r == FileOutcome::SkippedCooked ==> skipped_one(*old(profiler), *final(profiler), os_path@, "Uses cooked package"@, file_size)
                &&& r == FileOutcome::SkippedUnsupported ==> skipped_one(*old(profiler), *final(profiler), os_path@, "Unsupported file type"@, file_size)
                &&& r == FileOutcome::SkippedNoExtension ==> skipped_one(*old(profiler), *final(profiler), os_path@, "No file extension"@, file_size)
                &&& r == FileOutcome::Added ==> counted_one(*old(profiler), *final(profiler), false, file_size)
                &&& r == FileOutcome::Replaced ==> counted_one(*old(profiler), *final(profiler), true, file_size)
                &&& r == FileOutcome::Metadata ==> *final(profiler) == *old(profiler)
            }),
    {
        let class = classify_file(name);
        match class {
            FileClass::ExportBundle | FileClass::BulkData => {
                if class == FileClass::ExportBundle && !is_valid_asset_type(head) {
                    profiler.add_skipped_file(os_path, "Uses cooked package".to_owned(), file_size);
                    return FileOutcome::SkippedCooked;
                }
                let f = TocFile::new(name, file_size, os_path);
                let ghost fv = f;
                let ghost old_files = self.dirs@[dir as int].files@;
                let r = self.add_file(dir, f);
                proof {
                    let fs = self.dirs@[dir as int].files@;
                    if has_file_named(old_files, fv.name@) {
                        let j = choose|j: int| 0 <= j < old_files.len() && old_files[j].name@ == fv.name@;
                        assert(fs[j] == fv);
                    } else {
                        assert(fs[old_files.len() as int] == fv);
                    }
                }
                match r {
                    TocFileAddType::Addition => {
                        profiler.add_added_file(file_size);
                        FileOutcome::Added
                    },
                    TocFileAddType::Replacement => {
                        profiler.add_replaced_file(file_size);
                        FileOutcome::Replaced
                    },
                }
            },
            FileClass::Metadata => FileOutcome::Metadata,
            FileClass::Unsupported => {
                profiler.add_skipped_file(os_path, "Unsupported file type".to_owned(), file_size);
                FileOutcome::SkippedUnsupported
            },
            FileClass::NoExtension => {
                profiler.add_skipped_file(os_path, "No file extension".to_owned(), file_size);
                FileOutcome::SkippedNoExtension
            },
        }
    }
}

} // verus!

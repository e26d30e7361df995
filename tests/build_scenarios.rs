use utoc_emulator::asset_collector::{AssetCollectorProfilerModContents, FileOutcome};
use utoc_emulator::io_toc::{IoChunkType4, NO_INDEX};
use utoc_emulator::metadata::UtocMetadata;
use utoc_emulator::string::Hasher16;
use utoc_emulator::toc_factory::{
    check_build_request, BuildError, BuildRequest, ContainerData, TocLayout, TocResolverType2,
    DEFAULT_COMPRESSION_BLOCK_ALIGNMENT,
};
use utoc_emulator::package::PackageError;
use utoc_emulator::tree::{TocFile, TocTree};

fn u32_at(b: &[u8], pos: usize) -> u32 {
    u32::from_le_bytes([b[pos], b[pos + 1], b[pos + 2], b[pos + 3]])
}

fn u64_at(b: &[u8], pos: usize) -> u64 {
    let mut a = [0u8; 8];
    a.copy_from_slice(&b[pos..pos + 8]);
    u64::from_le_bytes(a)
}

fn put_u32(b: &mut Vec<u8>, pos: usize, v: u32) {
    b[pos..pos + 4].copy_from_slice(&v.to_le_bytes());
}

/// A package with no exports, one export bundle and the given graph ids.
fn single_bundle_package(graph_ids: &[u64]) -> Vec<u8> {
    let mut d = vec![0u8; 0x40];
    put_u32(&mut d, 0x18, 0x38);
    put_u32(&mut d, 0x24, 8);
    put_u32(&mut d, 0x2C, 0x40);
    put_u32(&mut d, 0x30, 0x40);
    put_u32(&mut d, 0x34, 0x50);
    d.extend_from_slice(&0u32.to_le_bytes());
    d.extend_from_slice(&1u32.to_le_bytes());
    d.extend_from_slice(&[0u8; 8]);
    d.extend_from_slice(&(graph_ids.len() as u32).to_le_bytes());
    for id in graph_ids {
        d.extend_from_slice(&id.to_le_bytes());
        d.extend_from_slice(&0u32.to_le_bytes());
    }
    d
}

/// Adds one file under `root_name/Content/<sub...>` of a mod.
fn ingest(tree: &mut TocTree, root_name: &str, subdirs: &[&str], file: &str, size: u64, os_path: &str) -> FileOutcome {
    let mut prof = AssetCollectorProfilerModContents::new();
    let mut dir = tree.enter_directory(0, root_name, true);
    dir = tree.enter_directory(dir, "Content", false);
    for s in subdirs {
        dir = tree.enter_directory(dir, s, false);
    }
    tree.add_mod_file(dir, file, size, os_path, &[0, 0, 0, 0], &mut prof)
}

fn build(tree: &TocTree, packages: Vec<Vec<u8>>) -> (TocResolverType2, TocLayout, Vec<u8>, ContainerData) {
    let mut resolver = TocResolverType2::new();
    resolver.flatten_toc_tree(tree).unwrap();
    let mut data = packages;
    data.resize(resolver.files.len(), vec![]);
    let mut layout = TocLayout::new(DEFAULT_COMPRESSION_BLOCK_ALIGNMENT);
    let (toc, cd) = resolver.serialize(&mut layout, &data, &UtocMetadata::new()).unwrap();
    (resolver, layout, toc, cd)
}

#[test]
fn empty_ingest_builds_nothing() {
    assert_eq!(check_build_request("C:\\Game\\Content\\Paks\\UnrealEssentials.utoc", false), BuildRequest::NoMods);
    assert_eq!(check_build_request("C:/Game/Content/Paks/UnrealEssentials.utoc", true), BuildRequest::Build);
    assert_eq!(check_build_request("C:/Game/Content/Paks/pakchunk0.utoc", true), BuildRequest::NotMyFile);
    assert_eq!(check_build_request("UnrealEssentials.utoc", true), BuildRequest::Build);
}

#[test]
fn single_bulk_file() {
    let mut tree = TocTree::new();
    assert_eq!(ingest(&mut tree, "Mod", &[], "foo.ubulk", 1000, "/mods/a/Mod/Content/foo.ubulk"), FileOutcome::Added);
    let (resolver, layout, toc, data) = build(&tree, vec![]);
    assert_eq!(resolver.files.len(), 1);
    assert_eq!(resolver.files[0].hash_path, "/Game/foo");
    assert_eq!(u32_at(&toc, 0x18), 2);
    assert_eq!(u32_at(&toc, 0x1C), 2);
    assert!(layout.metas.iter().all(|m| m.flags == 0));
    assert_eq!(layout.offsets_and_lengths[1].offset, 0x10000);
    assert!(data.packages.is_empty());
    assert_eq!(layout.offsets_and_lengths[0].length, 1000);
    assert_eq!(layout.chunk_ids[0].obj_type, IoChunkType4::BulkData);
    assert_eq!(toc[0x90 + 11], 3);
    assert_eq!(layout.chunk_ids[0].hash, Hasher16::get_cityhash64("/Game/foo"));
    // one block for the file, capped by its length; the header's comes next
    assert_eq!(layout.compression_blocks[0].size, 1000);
    assert_eq!(layout.compression_blocks.len(), 2);
    assert_eq!(layout.compression_blocks[1].offset, 0x800);
    assert_eq!(data.virtual_blocks.len(), 1);
    assert_eq!(data.virtual_blocks[0].start, 0);
    assert_eq!(data.virtual_blocks[0].length, 1000);
}

#[test]
fn renaming_root() {
    let mut tree = TocTree::new();
    let mut prof = AssetCollectorProfilerModContents::new();
    let top = tree.enter_directory(0, "MyMod", true);
    assert_eq!(tree.dirs[top].name.as_deref(), Some("Game"));
    let content = tree.enter_directory(top, "Content", false);
    let out = tree.add_mod_file(content, "a.uasset", 0, "/m/MyMod/Content/a.uasset", &[0, 0, 0, 0], &mut prof);
    assert_eq!(out, FileOutcome::Added);
    let pkg = single_bundle_package(&[0x1234]);
    let (resolver, layout, _toc, data) = build(&tree, vec![pkg]);
    assert_eq!(resolver.files[0].hash_path, "/Game/a");
    assert_eq!(layout.chunk_ids[0].hash, Hasher16::get_cityhash64("/Game/a"));
    assert_eq!(layout.chunk_ids[0].obj_type, IoChunkType4::ExportBundleData);
    // the container header lists the package and its import
    let h = &data.header;
    assert_eq!(data.packages.len(), 1);
    assert_eq!(data.packages[0].hash, Hasher16::get_cityhash64("/Game/a"));
    assert_eq!(data.packages[0].import_ids, vec![0x1234]);
    assert_eq!(u32_at(h, 8), 1);
    assert_eq!(u32_at(h, 28), 1);
    assert_eq!(u64_at(h, 32), Hasher16::get_cityhash64("/Game/a"));
    // store entry: size, exports, bundles, load order, pad, import count, offset
    assert_eq!(u32_at(h, 40), 32 + 8);
    assert_eq!(u32_at(h, 44 + 8), 0);
    assert_eq!(u32_at(h, 44 + 12), 1);
    assert_eq!(u32_at(h, 44 + 24), 1);
    assert_eq!(u32_at(h, 44 + 28), 8);
    assert_eq!(u64_at(h, 44 + 32), 0x1234);
}

#[test]
fn engine_root_keeps_its_name() {
    let mut tree = TocTree::new();
    let top = tree.enter_directory(0, "Engine", true);
    assert_eq!(tree.dirs[top].name.as_deref(), Some("Engine"));
}

#[test]
fn file_override_points_to_later_mod() {
    let mut tree = TocTree::new();
    assert_eq!(ingest(&mut tree, "Mod", &[], "x.ubulk", 1, "/modA/Mod/Content/x.ubulk"), FileOutcome::Added);
    assert_eq!(ingest(&mut tree, "Mod", &[], "x.ubulk", 1, "/modB/Mod/Content/x.ubulk"), FileOutcome::Replaced);
    let (_resolver, layout, toc, data) = build(&tree, vec![]);
    assert_eq!(u32_at(&toc, 0x18), 2);
    assert_eq!(layout.chunk_ids.len(), 2);
    let expected: Vec<u16> = "/modB/Mod/Content/x.ubulk".encode_utf16().chain(std::iter::once(0)).collect();
    assert_eq!(data.virtual_blocks[0].os_path, expected);
}

#[test]
fn two_mods_new_directory() {
    let mut tree = TocTree::new();
    ingest(&mut tree, "Mod", &["sub1"], "a.ubulk", 10, "/modA/Mod/Content/sub1/a.ubulk");
    ingest(&mut tree, "Mod", &["sub2"], "b.ubulk", 20, "/modB/Mod/Content/sub2/b.ubulk");
    let game = tree.get_child_dir(0, "Game").unwrap();
    let content = tree.get_child_dir(game, "Content").unwrap();
    assert_eq!(tree.dirs[content].children.len(), 2);
    assert!(tree.get_child_dir(content, "sub1").is_some());
    assert!(tree.get_child_dir(content, "sub2").is_some());
    let (resolver, _layout, toc, _data) = build(&tree, vec![]);
    assert_eq!(u32_at(&toc, 0x18), 3);
    assert_eq!(resolver.files[0].hash_path, "/Game/sub1/a");
    assert_eq!(resolver.files[1].hash_path, "/Game/sub2/b");
}

#[test]
fn cooked_asset_rejected() {
    let mut tree = TocTree::new();
    let mut prof = AssetCollectorProfilerModContents::new();
    let game = tree.enter_directory(0, "Mod", true);
    let content = tree.enter_directory(game, "Content", false);
    let out = tree.add_mod_file(content, "foo.uasset", 8, "/m/Mod/Content/foo.uasset", &[0xC1, 0x83, 0x2A, 0x9E], &mut prof);
    assert_eq!(out, FileOutcome::SkippedCooked);
    assert_eq!(prof.skipped_files.len(), 1);
    assert_eq!(prof.skipped_files[0].reason, "Uses cooked package");
    assert_eq!(prof.added_files_count, 0);
    assert_eq!(tree.dirs[content].files.len(), 0);
    let (resolver, _layout, toc, _data) = build(&tree, vec![]);
    assert_eq!(resolver.files.len(), 0);
    assert_eq!(u32_at(&toc, 0x18), 1);
}

#[test]
fn other_files_are_skipped_or_kept_aside() {
    let mut tree = TocTree::new();
    let mut prof = AssetCollectorProfilerModContents::new();
    let out = tree.add_mod_file(0, "readme.txt", 5, "/m/readme.txt", &[], &mut prof);
    assert_eq!(out, FileOutcome::SkippedUnsupported);
    let out = tree.add_mod_file(0, "LICENSE", 5, "/m/LICENSE", &[], &mut prof);
    assert_eq!(out, FileOutcome::SkippedNoExtension);
    let out = tree.add_mod_file(0, ".utocmeta", 16, "/m/.utocmeta", &[], &mut prof);
    assert_eq!(out, FileOutcome::Metadata);
    assert_eq!(prof.skipped_files.len(), 2);
    assert_eq!(prof.skipped_file_size, 10);
    assert_eq!(prof.skipped_files[0].reason, "Unsupported file type");
    assert_eq!(prof.skipped_files[1].reason, "No file extension");
    assert_eq!(tree.dirs[0].files.len(), 0);
}

#[test]
fn sibling_names_stay_unique() {
    let mut tree = TocTree::new();
    ingest(&mut tree, "Mod", &["a"], "x.ubulk", 1, "/1/x.ubulk");
    ingest(&mut tree, "Other", &["a"], "x.ubulk", 2, "/2/x.ubulk");
    ingest(&mut tree, "Mod", &["a"], "y.ubulk", 3, "/3/y.ubulk");
    assert_eq!(tree.dirs[0].children.len(), 1);
    for d in &tree.dirs {
        let names: Vec<&str> = d.children.iter().map(|c| tree.dirs[*c].name.as_deref().unwrap()).collect();
        let mut sorted = names.clone();
        sorted.sort();
        sorted.dedup();
        assert_eq!(sorted.len(), names.len());
        let files: Vec<&str> = d.files.iter().map(|f| f.name.as_str()).collect();
        let mut fsorted = files.clone();
        fsorted.sort();
        fsorted.dedup();
        assert_eq!(fsorted.len(), files.len());
    }
}

#[test]
fn ingesting_twice_changes_nothing() {
    let mut once = TocTree::new();
    ingest(&mut once, "Mod", &["a"], "x.ubulk", 1, "/1/x.ubulk");
    ingest(&mut once, "Mod", &["b"], "y.uptnl", 2, "/1/y.uptnl");
    let mut twice = TocTree::new();
    for _ in 0..2 {
        ingest(&mut twice, "Mod", &["a"], "x.ubulk", 1, "/1/x.ubulk");
        ingest(&mut twice, "Mod", &["b"], "y.uptnl", 2, "/1/y.uptnl");
    }
    assert_eq!(once.dirs.len(), twice.dirs.len());
    let (r1, l1, t1, _) = build(&once, vec![]);
    let (r2, l2, t2, _) = build(&twice, vec![]);
    assert_eq!(t1, t2);
    assert_eq!(r1.files.len(), r2.files.len());
    assert_eq!(l1.chunk_ids.len(), l2.chunk_ids.len());
}

#[test]
fn flatten_links_point_forward() {
    let mut tree = TocTree::new();
    ingest(&mut tree, "Mod", &["a", "b"], "x.ubulk", 1, "/1/x.ubulk");
    ingest(&mut tree, "Mod", &["a"], "y.ubulk", 1, "/1/y.ubulk");
    ingest(&mut tree, "Mod", &["a"], "z.ubulk", 1, "/1/z.ubulk");
    ingest(&mut tree, "Mod", &["c"], "w.ubulk", 1, "/1/w.ubulk");
    let (r, _l, _t, _d) = build(&tree, vec![]);
    for (k, d) in r.directories.iter().enumerate() {
        if d.first_child != NO_INDEX {
            assert!(d.first_child as usize > k);
        }
        if d.next_sibling != NO_INDEX {
            assert!(d.next_sibling as usize > k);
        }
    }
    for (k, f) in r.files.iter().enumerate() {
        assert_eq!(f.user_data as usize, k);
        if f.next_file != NO_INDEX {
            assert_eq!(f.next_file as usize, k + 1);
        }
    }
    // root, Game, Content, a, b, c
    assert_eq!(r.directories.len(), 6);
    assert_eq!(r.directories[0].name, NO_INDEX);
    assert_eq!(r.directories[0].first_child, 1);
    assert_eq!(r.directories[3].first_file, 0);
    assert_eq!(r.files[0].next_file, 1);
    assert_eq!(r.files[1].next_file, NO_INDEX);
    assert_eq!(r.directories[3].next_sibling, 5);
    // a: first child b follows it; b and c are leaves; c is the last sibling
    assert_eq!(r.directories[3].first_child, 4);
    assert_eq!(r.directories[4].first_child, NO_INDEX);
    assert_eq!(r.directories[4].next_sibling, NO_INDEX);
    assert_eq!(r.directories[5].next_sibling, NO_INDEX);
    assert_eq!(r.directories[0].next_sibling, NO_INDEX);
    assert_eq!(r.directories[0].first_file, NO_INDEX);
    assert_eq!(r.directories[4].first_file, 2);
    assert_eq!(r.directories[5].first_file, 3);
    assert_eq!(r.files[2].next_file, NO_INDEX);
    assert_eq!(r.files[3].next_file, NO_INDEX);
    assert_eq!(r.strings, vec!["Game", "Content", "a", "y.ubulk", "z.ubulk", "b", "x.ubulk", "c", "w.ubulk"]);
}

#[test]
fn parallel_arrays_have_one_extra_entry() {
    let mut tree = TocTree::new();
    ingest(&mut tree, "Mod", &[], "a.ubulk", 70000, "/1/a.ubulk");
    ingest(&mut tree, "Mod", &[], "b.ubulk", 5, "/1/b.ubulk");
    let (r, l, _t, d) = build(&tree, vec![]);
    assert_eq!(l.chunk_ids.len(), r.files.len() + 1);
    assert_eq!(l.offsets_and_lengths.len(), r.files.len() + 1);
    assert_eq!(l.metas.len(), r.files.len() + 1);
    assert_eq!(l.chunk_ids[2].obj_type, IoChunkType4::ContainerHeader);
    assert_eq!(l.chunk_ids[2].hash, Hasher16::get_cityhash64("Game"));
    assert_eq!(l.offsets_and_lengths[2].length, d.header.len() as u64);
    // a 70000-byte file takes two blocks; the next file's offset counts them
    assert_eq!(l.compression_blocks[0].size, 0x10000);
    assert_eq!(l.compression_blocks[1].size, 70000 - 0x10000);
    assert_eq!(l.compression_blocks[1].offset, 0x10000);
    assert_eq!(l.offsets_and_lengths[1].offset, 2 * 0x10000);
    for o in &l.offsets_and_lengths {
        assert!(o.offset < (1 << 40) && o.length < (1 << 40));
    }
}

#[test]
fn files_start_on_alignment() {
    let mut tree = TocTree::new();
    ingest(&mut tree, "Mod", &[], "a.ubulk", 1, "/1/a.ubulk");
    ingest(&mut tree, "Mod", &[], "b.ubulk", 0x801, "/1/b.ubulk");
    ingest(&mut tree, "Mod", &[], "c.ubulk", 0x800, "/1/c.ubulk");
    let (_r, _l, _t, d) = build(&tree, vec![]);
    let starts: Vec<u64> = d.virtual_blocks.iter().map(|b| b.start).collect();
    assert_eq!(starts, vec![0, 0x800, 0x1800]);
    for w in starts.windows(2) {
        assert_eq!((w[1] - w[0]) % 0x800, 0);
    }
}

#[test]
fn hash_path_drops_content() {
    let mut tree = TocTree::new();
    ingest(&mut tree, "Proj", &["Maps"], "Level.umap", 0, "/1/Level.umap");
    let pkg = single_bundle_package(&[]);
    let mut resolver = TocResolverType2::new();
    resolver.flatten_toc_tree(&tree).unwrap();
    let mut layout = TocLayout::new(DEFAULT_COMPRESSION_BLOCK_ALIGNMENT);
    resolver.serialize(&mut layout, &vec![pkg], &UtocMetadata::new()).unwrap();
    let hp = &resolver.files[0].hash_path;
    assert_eq!(hp, "/Game/Maps/Level");
    assert!(!hp.contains("/Content"));
    assert_eq!(layout.chunk_ids[0].hash, Hasher16::get_cityhash64(hp));
}

#[test]
fn mount_point_bytes_in_toc() {
    let mut tree = TocTree::new();
    ingest(&mut tree, "Mod", &[], "a.ubulk", 1, "/1/a.ubulk");
    let (_r, l, toc, _d) = build(&tree, vec![]);
    let at = 0x90 + 12 * l.chunk_ids.len() + 10 * l.offsets_and_lengths.len() + 12 * l.compression_blocks.len();
    assert_eq!(
        &toc[at..at + 14],
        &[0x0A, 0, 0, 0, 0x2E, 0x2E, 0x2F, 0x2E, 0x2E, 0x2F, 0x2E, 0x2E, 0x2F, 0]
    );
    // the directory index size covers mount point, directories, files, strings
    let dis = u32_at(&toc, 0x30) as usize;
    assert_eq!(toc.len(), at + dis + 33 * l.metas.len());
}

#[test]
fn toc_header_fields() {
    let mut tree = TocTree::new();
    ingest(&mut tree, "Mod", &[], "a.ubulk", 1, "/1/a.ubulk");
    let (_r, l, toc, _d) = build(&tree, vec![]);
    assert_eq!(&toc[0..16], b"-==--==--==--==-");
    assert_eq!(toc[0x10], 3);
    assert_eq!(u32_at(&toc, 0x14), 0x90);
    assert_eq!(u32_at(&toc, 0x1C), l.compression_blocks.len() as u32);
    assert_eq!(u32_at(&toc, 0x20), 12);
    assert_eq!(u32_at(&toc, 0x24), 0);
    assert_eq!(u32_at(&toc, 0x28), 32);
    assert_eq!(u32_at(&toc, 0x2C), 0x10000);
    assert_eq!(u32_at(&toc, 0x34), 1);
    assert_eq!(u64_at(&toc, 0x38), Hasher16::get_cityhash64("Game"));
    assert_eq!(toc[0x50], 8);
    assert_eq!(u64_at(&toc, 0x58), u64::MAX);
    assert!(toc[0x60..0x90].iter().all(|b| *b == 0));
}

#[test]
fn file_outside_content_is_an_error() {
    let mut tree = TocTree::new();
    let mut prof = AssetCollectorProfilerModContents::new();
    tree.add_mod_file(0, "loose.ubulk", 1, "/1/loose.ubulk", &[], &mut prof);
    let mut resolver = TocResolverType2::new();
    assert_eq!(resolver.flatten_toc_tree(&tree), Err(BuildError::MissingContentSegment));
}

#[test]
fn unsupported_file_in_tree_is_an_error() {
    let mut tree = TocTree::new();
    let game = tree.enter_directory(0, "Mod", true);
    let content = tree.enter_directory(game, "Content", false);
    tree.add_file(content, TocFile::new("notes.txt", 1, "/1/notes.txt"));
    let mut resolver = TocResolverType2::new();
    assert_eq!(resolver.flatten_toc_tree(&tree), Err(BuildError::UnsupportedFile));
}

#[test]
fn oversized_file_is_an_error() {
    let mut tree = TocTree::new();
    ingest(&mut tree, "Mod", &[], "big.ubulk", 1u64 << 40, "/1/big.ubulk");
    let mut resolver = TocResolverType2::new();
    resolver.flatten_toc_tree(&tree).unwrap();
    let mut layout = TocLayout::new(DEFAULT_COMPRESSION_BLOCK_ALIGNMENT);
    let r = resolver.serialize(&mut layout, &vec![vec![]], &UtocMetadata::new());
    assert!(matches!(r, Err(BuildError::TooLarge)));
}

#[test]
fn broken_package_is_an_error() {
    let mut tree = TocTree::new();
    let mut prof = AssetCollectorProfilerModContents::new();
    let game = tree.enter_directory(0, "Mod", true);
    let content = tree.enter_directory(game, "Content", false);
    tree.add_mod_file(content, "a.uasset", 4, "/1/a.uasset", &[0, 0, 0, 0], &mut prof);
    let mut resolver = TocResolverType2::new();
    resolver.flatten_toc_tree(&tree).unwrap();
    let mut layout = TocLayout::new(DEFAULT_COMPRESSION_BLOCK_ALIGNMENT);
    let r = resolver.serialize(&mut layout, &vec![vec![1, 2, 3, 4]], &UtocMetadata::new());
    assert!(matches!(r, Err(BuildError::Package(PackageError::Truncated))));
}

#[test]
fn string_pool_reuses_names() {
    let mut r = TocResolverType2::new();
    assert_eq!(r.get_flat_string_index("a"), Ok(0));
    assert_eq!(r.get_flat_string_index("b"), Ok(1));
    assert_eq!(r.get_flat_string_index("a"), Ok(0));
    assert_eq!(r.strings, vec!["a", "b"]);
}

#[test]
fn collector_tallies_added_and_replaced() {
    let mut tree = TocTree::new();
    let mut prof = AssetCollectorProfilerModContents::new();
    tree.add_mod_file(0, "a.ubulk", 10, "/1/a.ubulk", &[], &mut prof);
    tree.add_mod_file(0, "a.ubulk", 20, "/2/a.ubulk", &[], &mut prof);
    assert_eq!(prof.added_files_count, 1);
    assert_eq!(prof.added_files_size, 10);
    assert_eq!(prof.replaced_files_count, 1);
    assert_eq!(prof.replaced_files_size, 20);
    assert!(prof.skipped_files.is_empty());
}

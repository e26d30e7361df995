use utoc_emulator::io_toc::{
    IoChunkId, IoChunkType4, IoDirectoryIndexEntry, IoOffsetAndLength, IoStoreTocCompressedBlockEntry,
    IoStoreTocEntryMeta,
};
use utoc_emulator::string::{FMappedName, FString16, FString32, FString32NoHash, Hasher, Hasher16, NAME_HASH_ALGORITHM};
use utoc_emulator::text::{extension_of, find_substr, stem_of};
use utoc_emulator::toc_factory::{get_chunk_type, remove_content_segment, TocLayout};
use utoc_emulator::tree::{TocDirectory, TocFile, TocFileAddType};

fn utf16le(s: &str) -> Vec<u8> {
    s.encode_utf16().flat_map(|u| u.to_le_bytes()).collect()
}

#[test]
fn hash16_is_cityhash_of_lowercase_utf16() {
    let expected: u64 = cityhasher::hash(utf16le("/game/a"));
    assert_eq!(Hasher16::get_cityhash64("/Game/A"), expected);
    assert_eq!(Hasher16::get_cityhash64("/game/a"), expected);
    let wide: u64 = cityhasher::hash(utf16le("/game/\u{1F600}é"));
    assert_eq!(Hasher16::get_cityhash64("/Game/\u{1F600}É"), wide);
}

#[test]
fn hash8_is_cityhash_of_lowercase_utf8() {
    let expected: u64 = cityhasher::hash("none".as_bytes());
    assert_eq!(Hasher::get_cityhash64("None"), expected);
    assert_eq!(FString16::check_hash("NONE"), Hasher16::get_cityhash64("none"));
    assert_ne!(Hasher::get_cityhash64("None"), Hasher16::get_cityhash64("None"));
}

#[test]
fn string_pool_record() {
    let mut out = Vec::new();
    FString32NoHash::to_buffer("abc", &mut out);
    assert_eq!(out, vec![4, 0, 0, 0, b'a', b'b', b'c', 0]);
    assert_eq!(FString32NoHash::get_expected_length("abc"), 8);
}

#[test]
fn short_name_text_block() {
    let d = [0, 3, b'a', b'/', b'c', 0, 1];
    let (s, next) = FString16::from_buffer_text(&d, 0).unwrap();
    assert_eq!(s, "a/c");
    assert_eq!(next, 5);
    assert_eq!(FString16::from_buffer_text(&d, 5), None);
    assert_eq!(FString16::from_buffer_text(&[0, 1, 0xFF], 0), None);
}

#[test]
fn mapped_name_packing() {
    let m = FMappedName::from_u64(0x0000_0002_0000_0007);
    assert_eq!(m.get_name_index(), 7);
    assert_eq!(m.get_extra_index(), 2);
    assert_eq!(m.to_u64(), 0x0000_0002_0000_0007);
}

#[test]
fn chunk_id_bytes() {
    let mut out = Vec::new();
    IoChunkId::new_from_hash(0x0102030405060708, IoChunkType4::ExportBundleData).to_buffer(&mut out);
    assert_eq!(out, vec![8, 7, 6, 5, 4, 3, 2, 1, 0, 0, 0, 2]);
    let id = IoChunkId::new("/Game/a", IoChunkType4::OptionalBulkData);
    assert_eq!(id.get_raw_hash(), Hasher16::get_cityhash64("/Game/a"));
    assert_eq!(id.get_type(), IoChunkType4::OptionalBulkData);
    assert_eq!(IoChunkType4::ContainerHeader.tag(), 10);
}

#[test]
fn offset_and_length_bytes() {
    let mut out = Vec::new();
    IoOffsetAndLength::new(0x0102030405, 0x0A0B0C0D0E).to_buffer(&mut out);
    assert_eq!(out, vec![1, 2, 3, 4, 5, 0x0A, 0x0B, 0x0C, 0x0D, 0x0E]);
}

#[test]
fn compression_block_bytes() {
    let mut out = Vec::new();
    IoStoreTocCompressedBlockEntry::new(0x0102030405, 0x10000).to_buffer(&mut out);
    assert_eq!(out, vec![5, 4, 3, 2, 1, 0, 0, 1, 0, 0, 1, 0]);
}

#[test]
fn directory_entry_and_meta_bytes() {
    let mut out = Vec::new();
    IoDirectoryIndexEntry { name: 1, first_child: 2, next_sibling: 0xFFFFFFFF, first_file: 3 }.to_buffer(&mut out);
    assert_eq!(out, vec![1, 0, 0, 0, 2, 0, 0, 0, 0xFF, 0xFF, 0xFF, 0xFF, 3, 0, 0, 0]);
    let mut m = Vec::new();
    IoStoreTocEntryMeta::new_empty().to_buffer(&mut m);
    assert_eq!(m, vec![0u8; 33]);
}

#[test]
fn file_name_parts() {
    assert_eq!(stem_of("a.b.uasset"), "a.b");
    assert_eq!(extension_of("a.b.uasset").as_deref(), Some("uasset"));
    assert_eq!(extension_of(".utocmeta"), None);
    assert_eq!(stem_of(".utocmeta"), ".utocmeta");
    assert_eq!(get_chunk_type("x.umap"), Some(IoChunkType4::ExportBundleData));
    assert_eq!(get_chunk_type("x.uptnl"), Some(IoChunkType4::OptionalBulkData));
    assert_eq!(get_chunk_type("x.uexp"), None);
}

#[test]
fn content_segment_removal() {
    assert_eq!(find_substr("ab/Content/c", "/Content"), Some(2));
    assert_eq!(remove_content_segment("Game/Content/Maps/L").as_deref(), Some("/Game/Maps/L"));
    assert_eq!(remove_content_segment("Game/Content/Content/x").as_deref(), Some("/Game/Content/x"));
    assert_eq!(remove_content_segment("Game/Maps/L"), None);
}

#[test]
fn compression_blocks_of_a_chunk() {
    let mut l = TocLayout::new(0);
    assert_eq!(l.compression_block_alignment, 0x10);
    l.create_compression_blocks(0x20000, 0x800);
    assert_eq!(l.compression_blocks.len(), 2);
    assert_eq!(l.compression_blocks[1].offset, 0x10800);
    assert_eq!(l.compression_blocks[1].size, 0x10000);
    l.create_compression_blocks(0, 0);
    assert_eq!(l.compression_blocks.len(), 2);
}

#[test]
fn directory_file_replacement_keeps_position() {
    let mut d = TocDirectory::new(Some("x".to_owned()));
    assert!(!d.has_files());
    assert!(matches!(d.add_or_replace_file(TocFile::new("a", 1, "/A/a")), TocFileAddType::Addition));
    assert!(matches!(d.add_or_replace_file(TocFile::new("b", 2, "/A/b")), TocFileAddType::Addition));
    assert!(matches!(d.add_or_replace_file(TocFile::new("a", 3, "/B/a")), TocFileAddType::Replacement));
    assert_eq!(d.files.len(), 2);
    assert_eq!(d.files[0].os_file_path, "/B/a");
    assert_eq!(d.files[0].file_size, 3);
    assert_eq!(d.files[1].name, "b");
    assert!(d.has_files());
    assert!(!d.has_children());
}

#[test]
fn length_prefixed_reads_refuse_empty() {
    let d = [4, 0, 0, 0, b'a', b'b', b'c', 0, 9, 9, 9, 9];
    let (s, next) = FString32NoHash::from_buffer(&d, 0).unwrap();
    assert_eq!(s, "abc");
    assert_eq!(next, 8);
    let (s, next) = FString32::from_buffer(&d, 0).unwrap();
    assert_eq!(s, "abc");
    assert_eq!(next, 12);
    assert_eq!(FString32::from_buffer(&d[..11], 0), None);
    assert_eq!(FString32NoHash::from_buffer(&[0, 0, 0, 0, 1], 0), None);
    assert_eq!(FString32NoHash::from_buffer(&[9, 0, 0, 0, 1], 0), None);
}

#[test]
fn io_name_map_two_blocks() {
    let names = vec!["/Game/A".to_owned(), "None".to_owned()];
    let mut out = vec![0xEE];
    assert!(FString16::write_name_map(&names, &mut out));
    let mut expected = vec![0xEE, 0, 7];
    expected.extend_from_slice(b"/Game/A");
    expected.extend_from_slice(&[0, 4]);
    expected.extend_from_slice(b"None");
    while expected.len() % 8 != 0 {
        expected.push(0);
    }
    expected.extend_from_slice(&NAME_HASH_ALGORITHM.to_le_bytes());
    expected.extend_from_slice(&Hasher16::get_cityhash64("/Game/A").to_le_bytes());
    expected.extend_from_slice(&Hasher16::get_cityhash64("None").to_le_bytes());
    assert_eq!(out, expected);
    let long = vec!["x".repeat(70000)];
    let mut out2 = vec![1];
    assert!(!FString16::write_name_map(&long, &mut out2));
    assert_eq!(out2, vec![1]);
}

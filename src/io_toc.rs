//! Records of an IO Store table of contents and their byte layout.

use vstd::prelude::*;
use crate::bytes::{be_bytes, le_bytes, push_be, push_le, push_u32, push_u64, push_u8, push_zeros};
use crate::string::{hash16_of, Hasher16};

verus! {

/// Largest offset or length that five bytes hold.
pub const IO_OFFSET_LENGTH_MAX: u64 = 0xFFFFFFFFFF;

/// Largest block size that three bytes hold.
pub const IO_COMPRESSED_BLOCK_LENGTH_MAX: u32 = 0xFFFFFF;

/// Serialized size of one file-index entry.
pub const IO_FILE_INDEX_ENTRY_SERIALIZED_SIZE: usize = 0xc;

/// Serialized size of one directory-index entry.
pub const IO_DIRECTORY_INDEX_ENTRY_SERIALIZED_SIZE: usize = 0x10;

/// Serialized size of the version 3 header, written in its size field: the
/// fields from the magic to the 48 reserved bytes at 0x60 end at 0x90.
pub const IO_STORE_TOC_HEADER_SIZE: u32 = 0x90;

/// Concatenation of `f` over the items of `s`, in order.
pub open spec fn flat_map<T>(s: Seq<T>, f: spec_fn(T) -> Seq<u8>) -> Seq<u8>
    decreases s.len(),
{
    if s.len() == 0 {
        Seq::empty()
    } else {
        flat_map(s.drop_last(), f) + f(s.last())
    }
}

pub proof fn lemma_flat_map_step<T>(s: Seq<T>, f: spec_fn(T) -> Seq<u8>, i: int)
    requires
        0 <= i < s.len(),
    ensures
        flat_map(s.subrange(0, i + 1), f) == flat_map(s.subrange(0, i), f) + f(s[i]),
{
    assert(s.subrange(0, i + 1).drop_last() =~= s.subrange(0, i));
}

pub proof fn lemma_flat_map_len<T>(s: Seq<T>, f: spec_fn(T) -> Seq<u8>, k: nat)
    requires
        forall|x: T| #[trigger] f(x).len() == k,
    ensures
        flat_map(s, f).len() == k * s.len(),
    decreases s.len(),
{
    if s.len() > 0 {
        lemma_flat_map_len(s.drop_last(), f, k);
        assert(k * s.len() == k * (s.len() - 1) + k) by (nonlinear_arith);
    }
}

/// Version of the TOC layout.
pub enum IoStoreTocVersion {
    Invalid,
    Initial,
    DirectoryIndex,
    PartitionSize,
    PerfectHash,
    PerfectHashWithOverflow,
}

pub open spec fn toc_version_value(v: IoStoreTocVersion) -> u8 {
    match v {
        IoStoreTocVersion::Invalid => 0,
        IoStoreTocVersion::Initial => 1,
        IoStoreTocVersion::DirectoryIndex => 2,
        IoStoreTocVersion::PartitionSize => 3,
        IoStoreTocVersion::PerfectHash => 4,
        IoStoreTocVersion::PerfectHashWithOverflow => 5,
    }
}

impl IoStoreTocVersion {
    pub fn value(&self) -> (r: u8)
        ensures
            r == toc_version_value(*self),
    {
        match self {
            IoStoreTocVersion::Invalid => 0,
            IoStoreTocVersion::Initial => 1,
            IoStoreTocVersion::DirectoryIndex => 2,
            IoStoreTocVersion::PartitionSize => 3,
            IoStoreTocVersion::PerfectHash => 4,
            IoStoreTocVersion::PerfectHashWithOverflow => 5,
        }
    }
}

/// Kind of data a chunk holds.
#[derive(Clone, Copy, Debug, PartialEq, Eq, Structural)]
pub enum IoChunkType4 {
    Invalid,
    InstallManifest,
    ExportBundleData,
    BulkData,
    OptionalBulkData,
    MemoryMappedBulkData,
    LoaderGlobalMeta,
    LoaderInitialLoadMeta,
    LoaderGlobalNames,
    LoaderGlobalNameHashes,
    ContainerHeader,
}

pub open spec fn chunk_type_tag(t: IoChunkType4) -> u8 {
    match t {
        IoChunkType4::Invalid => 0,
        IoChunkType4::InstallManifest => 1,
        IoChunkType4::ExportBundleData => 2,
        IoChunkType4::BulkData => 3,
        IoChunkType4::OptionalBulkData => 4,
        IoChunkType4::MemoryMappedBulkData => 5,
        IoChunkType4::LoaderGlobalMeta => 6,
        IoChunkType4::LoaderInitialLoadMeta => 7,
        IoChunkType4::LoaderGlobalNames => 8,
        IoChunkType4::LoaderGlobalNameHashes => 9,
        IoChunkType4::ContainerHeader => 10,
    }
}

impl IoChunkType4 {
    /// The tag written in a chunk id.
    pub fn tag(&self) -> (r: u8)
        ensures
            r == chunk_type_tag(*self),
    {
        match self {
            IoChunkType4::Invalid => 0,
            IoChunkType4::InstallManifest => 1,
            IoChunkType4::ExportBundleData => 2,
            IoChunkType4::BulkData => 3,
            IoChunkType4::OptionalBulkData => 4,
            IoChunkType4::MemoryMappedBulkData => 5,
            IoChunkType4::LoaderGlobalMeta => 6,
            IoChunkType4::LoaderInitialLoadMeta => 7,
            IoChunkType4::LoaderGlobalNames => 8,
            IoChunkType4::LoaderGlobalNameHashes => 9,
            IoChunkType4::ContainerHeader => 10,
        }
    }
}

/// A chunk id: the hash of a path, an index and the chunk kind.
#[derive(Clone, Copy, Debug)]
pub struct IoChunkId {
    pub hash: u64,
    pub index: u16,
    pub obj_type: IoChunkType4,
}

/// 12 bytes: the hash, the index, a pad byte and the type tag.
pub open spec fn chunk_id_bytes(c: IoChunkId) -> Seq<u8> {
    le_bytes(c.hash, 8) + le_bytes(c.index as u64, 2) + seq![0u8, chunk_type_tag(c.obj_type)]
}

impl IoChunkId {
    /// The id of the chunk at `path`: `Hash16` of the path, index 0.
    pub fn new(path: &str, chunk_type: IoChunkType4) -> (r: Self)
        ensures
            r.hash == hash16_of(path@),
            r.index == 0,
            r.obj_type == chunk_type,
    {
        IoChunkId { hash: Hasher16::get_cityhash64(path), index: 0, obj_type: chunk_type }
    }

    pub fn new_from_hash(hash: u64, obj_type: IoChunkType4) -> (r: Self)
        ensures
            r.hash == hash,
            r.index == 0,
            r.obj_type == obj_type,
    {
        IoChunkId { hash, index: 0, obj_type }
    }

    pub fn get_raw_hash(&self) -> (r: u64)
        ensures
            r == self.hash,
    {
        self.hash
    }

    pub fn get_type(&self) -> (r: IoChunkType4)
        ensures
            r == self.obj_type,
    {
        self.obj_type
    }

    pub fn to_buffer(&self, out: &mut Vec<u8>)
        ensures
            final(out)@ == old(out)@ + chunk_id_bytes(*self),
    {
        push_u64(out, self.hash);
        push_le(out, self.index as u64, 2);
        push_u8(out, 0);
        push_u8(out, self.obj_type.tag());
        assert(final(out)@ =~= old(out)@ + chunk_id_bytes(*self));
    }
}

/// Where a chunk starts in the virtual container and how long it is.
#[derive(Clone, Copy, Debug)]
pub struct IoOffsetAndLength {
    pub offset: u64,
    pub length: u64,
}

/// 10 bytes: a 5-byte big-endian offset then a 5-byte big-endian length.
pub open spec fn offset_length_bytes(o: IoOffsetAndLength) -> Seq<u8> {
    be_bytes(o.offset, 5) + be_bytes(o.length, 5)
}

impl IoOffsetAndLength {
    pub fn new(offset: u64, length: u64) -> (r: Self)
        requires
            offset <= IO_OFFSET_LENGTH_MAX,
            length <= IO_OFFSET_LENGTH_MAX,
        ensures
            r.offset == offset,
            r.length == length,
    {
        IoOffsetAndLength { offset, length }
    }

    pub fn to_buffer(&self, out: &mut Vec<u8>)
        ensures
            final(out)@ == old(out)@ + offset_length_bytes(*self),
    {
        push_be(out, self.offset, 5);
        push_be(out, self.length, 5);
        assert(final(out)@ =~= old(out)@ + offset_length_bytes(*self));
    }
}

/// One compression block; blocks are stored uncompressed.
#[derive(Clone, Copy, Debug)]
pub struct IoStoreTocCompressedBlockEntry {
    pub offset: u64,
    pub size: u32,
}

/// 12 bytes: 5-byte offset, 3-byte compressed and 3-byte uncompressed size
/// (equal), and method 0.
pub open spec fn block_bytes(b: IoStoreTocCompressedBlockEntry) -> Seq<u8> {
    le_bytes(b.offset, 5) + le_bytes(b.size as u64, 3) + le_bytes(b.size as u64, 3) + seq![0u8]
}

impl IoStoreTocCompressedBlockEntry {
    pub fn new(offset: u64, length: u32) -> (r: Self)
        requires
            offset <= IO_OFFSET_LENGTH_MAX,
            length <= IO_COMPRESSED_BLOCK_LENGTH_MAX,
        ensures
            r.offset == offset,
            r.size == length,
    {
        IoStoreTocCompressedBlockEntry { offset, size: length }
    }

    pub fn to_buffer(&self, out: &mut Vec<u8>)
        ensures
            final(out)@ == old(out)@ + block_bytes(*self),
    {
        push_le(out, self.offset, 5);
        push_le(out, self.size as u64, 3);
        push_le(out, self.size as u64, 3);
        push_u8(out, 0);
        assert(final(out)@ =~= old(out)@ + block_bytes(*self));
    }
}

/// Sentinel for an absent link in the directory index.
pub const NO_INDEX: u32 = 0xFFFFFFFF;

/// A directory of the flattened directory index.
#[derive(Clone, Copy, Debug)]
pub struct IoDirectoryIndexEntry {
    pub name: u32,
    pub first_child: u32,
    pub next_sibling: u32,
    pub first_file: u32,
}

pub open spec fn dir_entry_bytes(e: IoDirectoryIndexEntry) -> Seq<u8> {
    le_bytes(e.name as u64, 4) + le_bytes(e.first_child as u64, 4) + le_bytes(e.next_sibling as u64, 4)
        + le_bytes(e.first_file as u64, 4)
}

impl IoDirectoryIndexEntry {
    pub fn to_buffer(&self, out: &mut Vec<u8>)
        ensures
            final(out)@ == old(out)@ + dir_entry_bytes(*self),
    {
        push_u32(out, self.name);
        push_u32(out, self.first_child);
        push_u32(out, self.next_sibling);
        push_u32(out, self.first_file);
        assert(final(out)@ =~= old(out)@ + dir_entry_bytes(*self));
    }
}

/// A file of the flattened file index, with what serialization needs of it.
pub struct IoFileIndexEntry {
    pub name: u32,
    pub next_file: u32,
    /// Position in the chunk-id, offset-and-length and meta arrays.
    pub user_data: u32,
    pub file_size: u64,
    pub os_path: String,
    /// Root-relative path without extension and without `/Content`.
    pub hash_path: String,
    /// The path before `/Content` was removed from it.
    pub hash_source: String,
    /// Leaf name of the file.
    pub leaf: String,
    pub chunk_type: IoChunkType4,
}

pub open spec fn file_entry_bytes(e: IoFileIndexEntry) -> Seq<u8> {
    le_bytes(e.name as u64, 4) + le_bytes(e.next_file as u64, 4) + le_bytes(e.user_data as u64, 4)
}

impl IoFileIndexEntry {
    pub fn to_buffer(&self, out: &mut Vec<u8>)
        ensures
            final(out)@ == old(out)@ + file_entry_bytes(*self),
    {
        push_u32(out, self.name);
        push_u32(out, self.next_file);
        push_u32(out, self.user_data);
        assert(final(out)@ =~= old(out)@ + file_entry_bytes(*self));
    }
}

/// Per-chunk meta: a 32-byte hash, always zero here, and flags.
#[derive(Clone, Copy, Debug)]
pub struct IoStoreTocEntryMeta {
    pub flags: u8,
}

pub open spec fn meta_bytes(m: IoStoreTocEntryMeta) -> Seq<u8> {
    Seq::new(32, |i: int| 0u8).push(m.flags)
}

impl IoStoreTocEntryMeta {
    /// A meta entry with a zero hash and no flags.
    pub fn new_empty() -> (r: Self)
        ensures
            r.flags == 0,
    {
        IoStoreTocEntryMeta { flags: 0 }
    }

    pub fn to_buffer(&self, out: &mut Vec<u8>)
        ensures
            final(out)@ == old(out)@ + meta_bytes(*self),
    {
        push_zeros(out, 32);
        push_u8(out, self.flags);
        assert(final(out)@ =~= old(out)@ + meta_bytes(*self));
    }
}

/// The version 3 (4.27) header of a table of contents.
pub struct IoStoreTocHeaderType3 {
    pub toc_entry_count: u32,
    pub toc_compressed_block_entry_count: u32,
    pub compression_block_size: u32,
    pub directory_index_size: u32,
    pub container_id: u64,
}

/// The magic `-==--==--==--==-`.
pub open spec fn toc_magic() -> Seq<u8> {
    let q = seq![0x2Du8, 0x3Du8, 0x3Du8, 0x2Du8];
    q + q + q + q
}

/// The header bytes: magic; version 3 and padding; header size; entry count;
/// block count; block entry size 12; no compression method names, of name
/// length 32; block size; directory index size; one partition; container id;
/// a zero key guid; flags `Indexed` and padding; partition size `u64::MAX`;
/// 48 reserved zero bytes.
pub open spec fn toc_header_bytes(h: IoStoreTocHeaderType3) -> Seq<u8> {
    toc_magic() + seq![3u8, 0u8, 0u8, 0u8] + le_bytes(IO_STORE_TOC_HEADER_SIZE as u64, 4) + le_bytes(
        h.toc_entry_count as u64,
        4,
    ) + le_bytes(h.toc_compressed_block_entry_count as u64, 4) + le_bytes(12, 4) + le_bytes(0, 4)
        + le_bytes(32, 4) + le_bytes(h.compression_block_size as u64, 4) + le_bytes(
        h.directory_index_size as u64,
        4,
    ) + le_bytes(1, 4) + le_bytes(h.container_id, 8) + Seq::new(16, |i: int| 0u8) + seq![
        8u8,
        0u8,
        0u8,
        0u8,
        0u8,
        0u8,
        0u8,
        0u8,
    ] + le_bytes(u64::MAX, 8) + Seq::new(48, |i: int| 0u8)
}

impl IoStoreTocHeaderType3 {
    pub fn new(
        container_id: u64,
        entries: u32,
        compressed_blocks: u32,
        compression_block_size: u32,
        dir_index_size: u32,
    ) -> (r: Self)
        ensures
            r.container_id == container_id,
            r.toc_entry_count == entries,
            r.toc_compressed_block_entry_count == compressed_blocks,
            r.compression_block_size == compression_block_size,
            r.directory_index_size == dir_index_size,
    {
        IoStoreTocHeaderType3 {
            toc_entry_count: entries,
            toc_compressed_block_entry_count: compressed_blocks,
            compression_block_size,
            directory_index_size: dir_index_size,
            container_id,
        }
    }

    pub fn to_buffer(&self, out: &mut Vec<u8>)
        ensures
            final(out)@ == old(out)@ + toc_header_bytes(*self),
    {
        let ghost start = out@;
        let mut k: usize = 0;
        while k < 4
            invariant
                k <= 4,
                out@ == start + Seq::new(4 * k as nat, |i: int| seq![0x2Du8, 0x3Du8, 0x3Du8, 0x2Du8][i % 4]),
            decreases 4 - k,
        {
            push_u8(out, 0x2D);
            push_u8(out, 0x3D);
            push_u8(out, 0x3D);
            push_u8(out, 0x2D);
            k = k + 1;
            assert(out@ =~= start + Seq::new(4 * k as nat, |i: int| seq![0x2Du8, 0x3Du8, 0x3Du8, 0x2Du8][i % 4]));
        }
        assert(out@ =~= start + toc_magic());
        push_u8(out, IoStoreTocVersion::PartitionSize.value());
        push_zeros(out, 3);
        push_u32(out, IO_STORE_TOC_HEADER_SIZE);
        push_u32(out, self.toc_entry_count);
        push_u32(out, self.toc_compressed_block_entry_count);
        push_u32(out, 12);
        push_u32(out, 0);
        push_u32(out, 32);
        push_u32(out, self.compression_block_size);
        push_u32(out, self.directory_index_size);
        push_u32(out, 1);
        push_u64(out, self.container_id);
        push_zeros(out, 16);
        push_u8(out, 8);
        push_zeros(out, 7);
        push_u64(out, u64::MAX);
        push_zeros(out, 48);
        assert(out@ =~= start + toc_header_bytes(*self));
    }
}

} // verus!

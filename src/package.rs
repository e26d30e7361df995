//! Inspection of IO package headers: export counts, the export-bundle count,
//! and the packages an asset imports.

use vstd::prelude::*;
use vstd::utf8::{decode_utf8, valid_utf8};
use vstd::string::*;
use crate::bytes::{le_value, read_le, read_u32, read_u64};
use crate::metadata::UtocMetadata;
use crate::string::{fstring16_text_at, hash16_of, FString16, Hasher16};

verus! {

broadcast use vstd::std_specs::hash::group_hash_axioms;

/// Magic of a cooked (PAK-format) asset, read little-endian from its first bytes.
pub const UASSET_MAGIC: u32 = 0x9E2A83C1;

/// Serialized size of one export-map entry.
pub const IO_PACKAGE_FEXPORTMAP_SERIALIZED_SIZE: u64 = 0x48;

/// Size of the package summary fields that are read.
pub const PACKAGE_SUMMARY_SIZE: usize = 0x38;

/// The little-endian `u32` at `pos`.
pub open spec fn u32_at(d: Seq<u8>, pos: int) -> nat {
    le_value(d.subrange(pos, pos + 4))
}

/// The little-endian `u64` at `pos`.
pub open spec fn u64_at(d: Seq<u8>, pos: int) -> nat {
    le_value(d.subrange(pos, pos + 8))
}

/// A file may enter the tree unless its first four bytes are the cooked magic.
pub open spec fn is_valid_asset_spec(head: Seq<u8>) -> bool {
    !(head.len() >= 4 && u32_at(head, 0) == UASSET_MAGIC)
}

/// Whether the first bytes of an export-bundle file are not the cooked-asset
/// magic; a file shorter than four bytes does not carry it.
pub fn is_valid_asset_type(head: &[u8]) -> (r: bool)
    ensures
        r == is_valid_asset_spec(head@),
{
    match read_le(head, 0, 4) {
        Some(v) => v != UASSET_MAGIC as u64,
        None => true,
    }
}

/// Why a package could not be inspected; each leaves the build without a TOC.
#[derive(Debug, PartialEq, Eq, Structural)]
pub enum PackageError {
    /// A field or list runs past the end of the data.
    Truncated,
    /// The summary's offsets or sizes contradict each other.
    MalformedSummary,
    /// The export-bundle headers leave no room before the graph data.
    BundleAreaOverrun,
    /// A name of the name map is not UTF-8.
    InvalidName,
}

/// The summary fields the inspector needs.
pub struct PackageSummaryExports {
    pub name_offset: u32,
    pub name_count: u32,
    pub import_offset: u32,
    pub export_offset: u32,
    pub export_bundle_offset: u32,
    pub graph_offset: u32,
}

/// The summary fields of a 4.25+/4.26/4.27 package, or why they are refused.
pub open spec fn summary_spec(d: Seq<u8>) -> Result<(nat, nat, nat, nat, nat, nat), PackageError> {
    if d.len() < PACKAGE_SUMMARY_SIZE {
        Err(PackageError::Truncated)
    } else if u32_at(d, 0x24) < 8 || u32_at(d, 0x30) < u32_at(d, 0x2C) {
        Err(PackageError::MalformedSummary)
    } else {
        Ok(
            (
                u32_at(d, 0x18),
                ((u32_at(d, 0x24) - 8) / 8) as nat,
                u32_at(d, 0x28),
                u32_at(d, 0x2C),
                u32_at(d, 0x30),
                u32_at(d, 0x34),
            ),
        )
    }
}

impl PackageSummaryExports {
    pub open spec fn view_tuple(&self) -> (nat, nat, nat, nat, nat, nat) {
        (
            self.name_offset as nat,
            self.name_count as nat,
            self.import_offset as nat,
            self.export_offset as nat,
            self.export_bundle_offset as nat,
            self.graph_offset as nat,
        )
    }

    /// Reads the summary at the start of a package (4.25+ to 4.27 layout):
    /// name-map offset at 0x18, name-hash size at 0x24, import, export,
    /// export-bundle and graph offsets from 0x28.
    pub fn from_bytes(d: &[u8]) -> (r: Result<Self, PackageError>)
        ensures
            r is Ok <==> summary_spec(d@) is Ok,
            r is Err ==> summary_spec(d@) == Err::<(nat, nat, nat, nat, nat, nat), PackageError>(r->Err_0),
            r is Ok ==> summary_spec(d@) == Ok::<_, PackageError>(r->Ok_0.view_tuple()),
    {
        if d.len() < PACKAGE_SUMMARY_SIZE {
            return Err(PackageError::Truncated);
        }
        let name_offset = read_u32(d, 0x18).unwrap();
        let hashes_size = read_u32(d, 0x24).unwrap();
        let import_offset = read_u32(d, 0x28).unwrap();
        let export_offset = read_u32(d, 0x2C).unwrap();
        let export_bundle_offset = read_u32(d, 0x30).unwrap();
        let graph_offset = read_u32(d, 0x34).unwrap();
        if hashes_size < 8 || export_bundle_offset < export_offset {
            return Err(PackageError::MalformedSummary);
        }
        Ok(PackageSummaryExports {
            name_offset: name_offset,
            name_count: (hashes_size - 8) / 8,
            import_offset: import_offset,
            export_offset: export_offset,
            export_bundle_offset: export_bundle_offset,
            graph_offset: graph_offset,
        })
    }

    /// Number of export-map entries between the export map and the bundles.
    pub fn get_export_count(&self) -> (r: u32)
        requires
            self.export_offset <= self.export_bundle_offset,
        ensures
            r == (self.export_bundle_offset - self.export_offset) / (IO_PACKAGE_FEXPORTMAP_SERIALIZED_SIZE as int),
    {
        (self.export_bundle_offset - self.export_offset) / IO_PACKAGE_FEXPORTMAP_SERIALIZED_SIZE as u32
    }
}

/// Entry counts of the export-bundle headers accepted from `pos` on: each is
/// accepted while its first entry index equals `cum`, the entries of those
/// before it, and its entry count is not zero.
pub open spec fn bundle_headers(d: Seq<u8>, pos: int, cum: nat) -> Seq<nat>
    decreases d.len() - pos,
{
    if pos < 0 || pos + 8 > d.len() {
        Seq::empty()
    } else if u32_at(d, pos) == cum && u32_at(d, pos + 4) != 0 {
        seq![u32_at(d, pos + 4)] + bundle_headers(d, pos + 8, cum + u32_at(d, pos + 4))
    } else {
        Seq::empty()
    }
}

/// Sum of the first `k` items.
pub open spec fn sum_prefix(s: Seq<nat>, k: int) -> nat
    decreases k,
{
    if k <= 0 || k > s.len() {
        0
    } else {
        sum_prefix(s, k - 1) + s[k - 1]
    }
}

/// The largest `j <= k` whose prefix sum is `total`, else 0.
pub open spec fn best_prefix(s: Seq<nat>, total: nat, k: int) -> nat
    decreases k,
{
    if k <= 0 {
        0
    } else if sum_prefix(s, k) == total {
        k as nat
    } else {
        best_prefix(s, total, k - 1)
    }
}

/// The export-bundle count that the headers at `bundle_off` and the graph
/// data at `graph_off` imply; `None` where the headers overrun the graph data.
pub open spec fn bundle_count_spec(d: Seq<u8>, bundle_off: nat, graph_off: nat) -> Option<nat> {
    let h = bundle_headers(d, bundle_off as int, 0);
    if graph_off < bundle_off + 8 * h.len() {
        None
    } else {
        let total = ((graph_off - bundle_off - 8 * h.len()) / 8) as nat;
        let k = best_prefix(h, total, h.len() as int);
        Some(if k > 0 { k } else { 1 })
    }
}

proof fn lemma_bundle_headers_step(d: Seq<u8>, pos: int, cum: nat)
    requires
        0 <= pos,
        pos + 8 <= d.len(),
        u32_at(d, pos) == cum,
        u32_at(d, pos + 4) != 0,
    ensures
        bundle_headers(d, pos, cum) == seq![u32_at(d, pos + 4)] + bundle_headers(d, pos + 8, cum + u32_at(d, pos + 4)),
{
}

proof fn lemma_sum_prefix_step(s: Seq<nat>, k: int)
    requires
        0 <= k < s.len(),
    ensures
        sum_prefix(s, k + 1) == sum_prefix(s, k) + s[k],
{
}

proof fn lemma_sum_prefix_push(s: Seq<nat>, x: nat, k: int)
    requires
        0 <= k <= s.len(),
    ensures
        sum_prefix(s.push(x), k) == sum_prefix(s, k),
    decreases k,
{
    if k > 0 {
        lemma_sum_prefix_push(s, x, k - 1);
    }
}

/// Export-bundle headers of a 4.25 to 4.27 package.
pub struct ExportBundleHeader4 {
    pub first_entry_index: u32,
    pub entry_count: u32,
}

impl ExportBundleHeader4 {
    /// Reconstructs the export-bundle count, which the summary does not
    /// store, from the headers at `export_bundle_offset` and the space left
    /// before `graph_offset`.
    pub fn from_buffer(export_bundle_offset: u32, graph_offset: u32, d: &[u8]) -> (r: Option<u32>)
        ensures
            r is Some <==> bundle_count_spec(d@, export_bundle_offset as nat, graph_offset as nat) is Some,
            r is Some ==> bundle_count_spec(d@, export_bundle_offset as nat, graph_offset as nat) == Some(
                r->0 as nat,
            ),
    {
        let ghost whole = bundle_headers(d@, export_bundle_offset as int, 0);
        let mut counts: Vec<u64> = Vec::new();
        let mut sums: Vec<u64> = Vec::new();
        sums.push(0);
        let mut cum: u64 = 0;
        let mut pos: usize = export_bundle_offset as usize;
        let ghost c_spec: Seq<nat> = Seq::empty();
        loop
            invariant
                counts@.len() == c_spec.len(),
                forall|i: int| 0 <= i < c_spec.len() ==> counts@[i] as nat == #[trigger] c_spec[i],
                forall|i: int| 0 <= i < c_spec.len() ==> c_spec[i] < 0x1_0000_0000,
                sums@.len() == c_spec.len() + 1,
                forall|i: int| 0 <= i <= c_spec.len() ==> sums@[i] as nat == #[trigger] sum_prefix(c_spec, i),
                cum as nat == sum_prefix(c_spec, c_spec.len() as int),
                cum <= 0x1_FFFF_FFFE,
                pos as nat == export_bundle_offset as nat + 8 * c_spec.len(),
                c_spec + bundle_headers(d@, pos as int, cum as nat) == whole,
            ensures
                bundle_headers(d@, pos as int, cum as nat) == Seq::<nat>::empty(),
            decreases d@.len() + 8 - pos,
        {
            if d.len() < 8 || pos > d.len() - 8 {
                break;
            }
            let first = read_u32(d, pos).unwrap();
            if first as u64 != cum {
                break;
            }
            let count = read_u32(d, pos + 4).unwrap();
            if count == 0 {
                break;
            }
            proof {
                assert(d@.subrange(pos as int, pos + 4) == d@.subrange(pos as int, pos as int + 4));
                lemma_bundle_headers_step(d@, pos as int, cum as nat);
                lemma_sum_prefix_push(c_spec, count as nat, c_spec.len() as int);
                assert forall|i: int| 0 <= i <= c_spec.len() implies sum_prefix(c_spec.push(count as nat), i)
                    == sum_prefix(c_spec, i) by {
                    lemma_sum_prefix_push(c_spec, count as nat, i);
                }
                lemma_sum_prefix_step(c_spec.push(count as nat), c_spec.len() as int);
            }
            counts.push(count as u64);
            cum = cum + count as u64;
            sums.push(cum);
            pos = pos + 8;
            proof {
                let old_c = c_spec;
                c_spec = c_spec.push(count as nat);
                assert forall|i: int| 0 <= i <= c_spec.len() implies sums@[i] as nat == #[trigger] sum_prefix(c_spec, i) by {
                    if i < c_spec.len() {
                        lemma_sum_prefix_push(old_c, count as nat, i);
                    }
                }
                assert(c_spec + bundle_headers(d@, pos as int, cum as nat) =~= old_c + (seq![count as nat]
                    + bundle_headers(d@, pos as int, cum as nat)));
            }
        }
        proof {
            assert(c_spec =~= whole);
        }
        let p = counts.len();
        let base = export_bundle_offset as u64 + 8 * p as u64;
        if (graph_offset as u64) < base {
            return None;
        }
        let total: u64 = (graph_offset as u64 - base) / 8;
        let mut k: usize = p;
        while k > 0 && sums[k] != total
            invariant
                k <= p,
                p == c_spec.len(),
                c_spec == whole,
                sums@.len() == p + 1,
                forall|i: int| 0 <= i <= c_spec.len() ==> sums@[i] as nat == #[trigger] sum_prefix(c_spec, i),
                best_prefix(whole, total as nat, p as int) == best_prefix(whole, total as nat, k as int),
            decreases k,
        {
            k = k - 1;
        }
        let r: u32 = if k > 0 { k as u32 } else { 1 };
        Some(r)
    }
}

/// `Some(p + rest)` where `o` is `Some(rest)`.
pub open spec fn opt_prepend<T>(p: Seq<T>, o: Option<Seq<T>>) -> Option<Seq<T>> {
    match o {
        Some(r) => Some(p + r),
        None => None,
    }
}

proof fn lemma_opt_prepend_assoc<T>(a: Seq<T>, b: Seq<T>, o: Option<Seq<T>>)
    ensures
        opt_prepend(a, opt_prepend(b, o)) == opt_prepend(a + b, o),
{
    if let Some(r) = o {
        assert(a + (b + r) =~= (a + b) + r);
    }
}

/// Imported package ids of the `n` graph entries from `pos`: each is a
/// `u64` id, a `u32` arc count and that many pairs of `u32`.
pub open spec fn graph_ids(d: Seq<u8>, pos: int, n: nat) -> Option<Seq<u64>>
    decreases n,
{
    if n == 0 {
        Some(Seq::empty())
    } else if pos < 0 || pos + 12 > d.len() {
        None
    } else {
        let next = pos + 12 + 8 * u32_at(d, pos + 8);
        if next > d.len() {
            None
        } else {
            opt_prepend(seq![u64_at(d, pos) as u64], graph_ids(d, next, (n - 1) as nat))
        }
    }
}

/// The graph data at `off`: a `u32` count then the entries.
pub open spec fn graph_ids_at(d: Seq<u8>, off: nat) -> Option<Seq<u64>> {
    if off + 4 > d.len() {
        None
    } else {
        graph_ids(d, (off + 4) as int, u32_at(d, off as int))
    }
}

/// Reads the imported package ids of the graph data at `off`.
pub fn read_graph_package_ids(d: &[u8], off: u32) -> (r: Option<Vec<u64>>)
    ensures
        r is Some <==> graph_ids_at(d@, off as nat) is Some,
        r is Some ==> graph_ids_at(d@, off as nat) == Some(r->0@),
{
    let n = match read_u32(d, off as usize) {
        Some(v) => v,
        None => return None,
    };
    if off as usize > d.len() - 4 {
        return None;
    }
    let start: usize = off as usize + 4;
    let mut pos: usize = start;
    let mut ids: Vec<u64> = Vec::new();
    let mut i: u32 = 0;
    while i < n
        invariant
            i <= n,
            pos <= d@.len(),
            n as nat == u32_at(d@, off as int),
            start == off + 4,
            opt_prepend(ids@, graph_ids(d@, pos as int, (n - i) as nat)) == graph_ids(d@, start as int, n as nat),
        decreases n - i,
    {
        if d.len() < 12 || pos > d.len() - 12 {
            return None;
        }
        let id = read_u64(d, pos).unwrap();
        let arcs = read_u32(d, pos + 8).unwrap();
        let room: usize = d.len() - pos - 12;
        if arcs as usize > room / 8 {
            return None;
        }
        let next = pos + 12 + 8 * arcs as usize;
        proof {
            lemma_opt_prepend_assoc(ids@, seq![id], graph_ids(d@, next as int, (n - i - 1) as nat));
            assert(d@.subrange(pos as int, pos + 8) == d@.subrange(pos as int, pos as int + 8));
        }
        ids.push(id);
        pos = next;
        i = i + 1;
    }
    proof {
        assert(ids@ + Seq::<u64>::empty() =~= ids@);
    }
    Some(ids)
}

/// Hashes (`Hash16`) of the names that begin with `/` among the `n` names of
/// the name map from `pos`; `None` where a name runs past the end or is not
/// UTF-8.
pub open spec fn name_hashes(d: Seq<u8>, pos: int, n: nat) -> Option<Seq<u64>>
    decreases n,
{
    if n == 0 {
        Some(Seq::empty())
    } else {
        match fstring16_text_at(d, pos) {
            None => None,
            Some(tn) => if !valid_utf8(tn.0) {
                None
            } else {
                let s = decode_utf8(tn.0);
                opt_prepend(
                    if s.len() > 0 && s[0] == '/' { seq![hash16_of(s)] } else { Seq::empty() },
                    name_hashes(d, tn.1, (n - 1) as nat),
                )
            },
        }
    }
}

/// Reads the name map and hashes its path names.
pub fn read_path_name_hashes(d: &[u8], name_offset: u32, name_count: u32) -> (r: Option<Vec<u64>>)
    ensures
        r is Some <==> name_hashes(d@, name_offset as int, name_count as nat) is Some,
        r is Some ==> name_hashes(d@, name_offset as int, name_count as nat) == Some(r->0@),
{
    let mut pos: usize = name_offset as usize;
    let mut hashes: Vec<u64> = Vec::new();
    let mut i: u32 = 0;
    while i < name_count
        invariant
            i <= name_count,
            opt_prepend(hashes@, name_hashes(d@, pos as int, (name_count - i) as nat)) == name_hashes(
                d@,
                name_offset as int,
                name_count as nat,
            ),
        decreases name_count - i,
    {
        let (s, next) = match FString16::from_buffer_text(d, pos) {
            Some(t) => t,
            None => return None,
        };
        let n = s.as_str().unicode_len();
        let is_path = n > 0 && s.as_str().get_char(0) == '/';
        let ghost pre = hashes@;
        if is_path {
            let h = Hasher16::get_cityhash64(s.as_str());
            hashes.push(h);
        }
        proof {
            let add: Seq<u64> = if s@.len() > 0 && s@[0] == '/' { seq![hash16_of(s@)] } else { Seq::empty() };
            assert(hashes@ =~= pre + add);
            lemma_opt_prepend_assoc(pre, add, name_hashes(d@, next as int, (name_count - i - 1) as nat));
        }
        pos = next;
        i = i + 1;
    }
    proof {
        assert(hashes@ + Seq::<u64>::empty() =~= hashes@);
    }
    Some(hashes)
}

/// The graph ids kept as imports: those among the path-name hashes or in
/// the set of ids always kept.
pub open spec fn filter_ids(ids: Seq<u64>, hashes: Seq<u64>, alt: Set<u64>) -> Seq<u64>
    decreases ids.len(),
{
    if ids.len() == 0 {
        Seq::empty()
    } else {
        let p = filter_ids(ids.drop_last(), hashes, alt);
        let x = ids.last();
        if hashes.contains(x) || alt.contains(x) {
            p.push(x)
        } else {
            p
        }
    }
}

pub fn vec_contains(v: &Vec<u64>, x: u64) -> (r: bool)
    ensures
        r == v@.contains(x),
{
    let mut i: usize = 0;
    while i < v.len()
        invariant
            i <= v@.len(),
            forall|j: int| 0 <= j < i ==> v@[j] != x,
        decreases v@.len() - i,
    {
        if v[i] == x {
            return true;
        }
        i = i + 1;
    }
    false
}

/// Store-entry data of one export-bundle package in the container header.
pub struct ContainerHeaderPackage {
    /// Chunk hash of the package.
    pub hash: u64,
    pub export_bundle_size: u64,
    pub export_count: u32,
    pub export_bundle_count: u32,
    pub load_order: u32,
    pub import_ids: Vec<u64>,
}

/// Export count, export-bundle count and imported package ids of the
/// package `d` with chunk hash `hash`, or why it cannot be read. A manual
/// import list for the hash replaces the graph ids; with one export bundle
/// every graph id is kept; otherwise those named by a path in the name map
/// or listed as always kept.
pub open spec fn package_record_spec(
    d: Seq<u8>,
    hash: u64,
    alt: Set<u64>,
    manual: Map<u64, Vec<u64>>,
) -> Result<(u32, u32, Seq<u64>), PackageError> {
    match summary_spec(d) {
        Err(e) => Err(e),
        Ok(s) => match bundle_count_spec(d, s.4, s.5) {
            None => Err(PackageError::BundleAreaOverrun),
            Some(bc) => match graph_ids_at(d, s.5) {
                None => Err(PackageError::Truncated),
                Some(ids) => {
                    let ec = ((s.4 - s.3) / 0x48) as u32;
                    if manual.contains_key(hash) {
                        Ok((ec, bc as u32, manual[hash]@))
                    } else if bc == 1 {
                        Ok((ec, 1u32, ids))
                    } else {
                        match name_hashes(d, s.0 as int, s.1) {
                            None => Err(PackageError::InvalidName),
                            Some(hs) => Ok((ec, bc as u32, filter_ids(ids, hs, alt))),
                        }
                    }
                },
            },
        },
    }
}

impl ContainerHeaderPackage {
    /// Inspects the package `d` (the file's bytes) whose chunk hash is
    /// `hash` and whose length is `size`.
    pub fn from_package_summary(d: &[u8], hash: u64, size: u64, meta: &UtocMetadata) -> (r: Result<Self, PackageError>)
        ensures
            r is Ok <==> package_record_spec(d@, hash, meta.alt_import_assets@, meta.manual_import_assets@) is Ok,
            r is Err ==> package_record_spec(d@, hash, meta.alt_import_assets@, meta.manual_import_assets@)
                == Err::<(u32, u32, Seq<u64>), PackageError>(r->Err_0),
            r is Ok ==> {
                let p = r->Ok_0;
                &&& package_record_spec(d@, hash, meta.alt_import_assets@, meta.manual_import_assets@)
                    == Ok::<(u32, u32, Seq<u64>), PackageError>((p.export_count, p.export_bundle_count, p.import_ids@))
                &&& p.hash == hash
                &&& p.export_bundle_size == size
                &&& p.load_order == 0
            },
    {
        let summary = match PackageSummaryExports::from_bytes(d) {
            Ok(s) => s,
            Err(e) => return Err(e),
        };
        let export_count = summary.get_export_count();
        let bundle_count = match ExportBundleHeader4::from_buffer(summary.export_bundle_offset, summary.graph_offset, d) {
            Some(c) => c,
            None => return Err(PackageError::BundleAreaOverrun),
        };
        let ids = match read_graph_package_ids(d, summary.graph_offset) {
            Some(v) => v,
            None => return Err(PackageError::Truncated),
        };
        let import_ids: Vec<u64> = match meta.get_manual_import(hash) {
            Some(m) => m.clone(),
            None => if bundle_count == 1 {
                ids
            } else {
                let hashes = match read_path_name_hashes(d, summary.name_offset, summary.name_count) {
                    Some(h) => h,
                    None => return Err(PackageError::InvalidName),
                };
                let mut kept: Vec<u64> = Vec::new();
                let mut i: usize = 0;
                while i < ids.len()
                    invariant
                        i <= ids@.len(),
                        kept@ == filter_ids(ids@.subrange(0, i as int), hashes@, meta.alt_import_assets@),
                    decreases ids@.len() - i,
                {
                    let x = ids[i];
                    if vec_contains(&hashes, x) || meta.is_alt_import(x) {
                        kept.push(x);
                    }
                    i = i + 1;
                    assert(ids@.subrange(0, i as int).drop_last() =~= ids@.subrange(0, i - 1));
                }
                assert(ids@.subrange(0, ids@.len() as int) =~= ids@);
                kept
            },
        };
        Ok(ContainerHeaderPackage {
            hash,
            export_bundle_size: size,
            export_count,
            export_bundle_count: bundle_count,
            load_order: 0,
            import_ids,
        })
    }
}

} // verus!

//! The container header: the package-store blob placed last in the virtual
//! container stream.

use vstd::prelude::*;
use crate::bytes::{le_bytes, lemma_le_bytes_len, push_u32, push_u64};
use crate::io_toc::{flat_map, lemma_flat_map_len, lemma_flat_map_step};
use crate::package::ContainerHeaderPackage;
use crate::string::NAME_HASH_ALGORITHM;

verus! {

/// Serialized size of one store entry.
pub const CONTAINER_HEADER_PACKAGE_SERIALIZED_SIZE: u64 = 0x20;

/// Import ids of the packages before `k`.
pub open spec fn imports_total(pkgs: Seq<ContainerHeaderPackage>, k: int) -> nat
    decreases k,
{
    if k <= 0 {
        0
    } else {
        imports_total(pkgs, k - 1) + pkgs[k - 1].import_ids@.len()
    }
}

/// Length of the store-entries blob: the fixed entries then the import lists.
pub open spec fn blob_len(pkgs: Seq<ContainerHeaderPackage>) -> nat {
    32 * pkgs.len() + 8 * imports_total(pkgs, pkgs.len() as int)
}

/// Offset from the import-count field of entry `i` to its import list, which
/// starts `cur` bytes into the region after all `n` entries; 0 without imports.
pub open spec fn relative_import_offset(i: nat, n: nat, cur: nat, count: nat) -> nat {
    if count > 0 {
        (32 * n + cur - (32 * i + 24)) as nat
    } else {
        0
    }
}

/// One 32-byte store entry: bundle size, export count, bundle count, load
/// order, padding, import count and the relative offset to the imports.
pub open spec fn entry_bytes(p: ContainerHeaderPackage, i: nat, n: nat, cur: nat) -> Seq<u8> {
    let cnt = p.import_ids@.len();
    le_bytes(p.export_bundle_size, 8) + le_bytes(p.export_count as u64, 4) + le_bytes(
        p.export_bundle_count as u64,
        4,
    ) + le_bytes(p.load_order as u64, 4) + le_bytes(0, 4) + le_bytes(cnt as u64, 4) + le_bytes(
        relative_import_offset(i, n, cur, cnt) as u64,
        4,
    )
}

/// The entries of the first `k` packages.
pub open spec fn entries_bytes(pkgs: Seq<ContainerHeaderPackage>, k: int) -> Seq<u8>
    decreases k,
{
    if k <= 0 {
        Seq::empty()
    } else {
        entries_bytes(pkgs, k - 1) + entry_bytes(
            pkgs[k - 1],
            (k - 1) as nat,
            pkgs.len(),
            8 * imports_total(pkgs, k - 1),
        )
    }
}

pub open spec fn u64_bytes(x: u64) -> Seq<u8> {
    le_bytes(x, 8)
}

/// The import lists of the first `k` packages, one after the other.
pub open spec fn import_lists_bytes(pkgs: Seq<ContainerHeaderPackage>, k: int) -> Seq<u8>
    decreases k,
{
    if k <= 0 {
        Seq::empty()
    } else {
        import_lists_bytes(pkgs, k - 1) + flat_map(pkgs[k - 1].import_ids@, |x: u64| u64_bytes(x))
    }
}

pub open spec fn store_entries_blob(pkgs: Seq<ContainerHeaderPackage>) -> Seq<u8> {
    entries_bytes(pkgs, pkgs.len() as int) + import_lists_bytes(pkgs, pkgs.len() as int)
}

pub open spec fn package_hash_bytes(pkgs: Seq<ContainerHeaderPackage>) -> Seq<u8> {
    flat_map(pkgs, |p: ContainerHeaderPackage| u64_bytes(p.hash))
}

/// Container id; package count; an empty names array; the two-element name
/// hashes array (8, then the algorithm id); the package ids; the store
/// entries blob with its length; empty culture map and redirects.
pub open spec fn container_header_bytes(cid: u64, pkgs: Seq<ContainerHeaderPackage>) -> Seq<u8> {
    let n = pkgs.len();
    le_bytes(cid, 8) + le_bytes(n as u64, 4) + le_bytes(0, 4) + le_bytes(8, 4) + le_bytes(
        NAME_HASH_ALGORITHM,
        8,
    ) + le_bytes(n as u64, 4) + package_hash_bytes(pkgs) + le_bytes(blob_len(pkgs) as u64, 4)
        + store_entries_blob(pkgs) + le_bytes(0, 4) + le_bytes(0, 4)
}

proof fn lemma_imports_total_mono(pkgs: Seq<ContainerHeaderPackage>, a: int, b: int)
    requires
        a <= b <= pkgs.len(),
    ensures
        imports_total(pkgs, a) <= imports_total(pkgs, b),
    decreases b - a,
{
    if a < b {
        lemma_imports_total_mono(pkgs, a, b - 1);
    }
}

proof fn lemma_entries_len(pkgs: Seq<ContainerHeaderPackage>, k: int)
    requires
        0 <= k <= pkgs.len(),
    ensures
        entries_bytes(pkgs, k).len() == 32 * k,
    decreases k,
{
    if k > 0 {
        lemma_entries_len(pkgs, k - 1);
        let p = pkgs[k - 1];
        lemma_le_bytes_len(p.export_bundle_size, 8);
        lemma_le_bytes_len(p.export_count as u64, 4);
        lemma_le_bytes_len(p.export_bundle_count as u64, 4);
        lemma_le_bytes_len(p.load_order as u64, 4);
        lemma_le_bytes_len(0, 4);
        lemma_le_bytes_len(p.import_ids@.len() as u64, 4);
        lemma_le_bytes_len(
            relative_import_offset((k - 1) as nat, pkgs.len(), 8 * imports_total(pkgs, k - 1), p.import_ids@.len()) as u64,
            4,
        );
    }
}

proof fn lemma_import_lists_len(pkgs: Seq<ContainerHeaderPackage>, k: int)
    requires
        0 <= k <= pkgs.len(),
    ensures
        import_lists_bytes(pkgs, k).len() == 8 * imports_total(pkgs, k),
    decreases k,
{
    if k > 0 {
        lemma_import_lists_len(pkgs, k - 1);
        assert forall|x: u64| #[trigger] u64_bytes(x).len() == 8 by {
            lemma_le_bytes_len(x, 8);
        }
        lemma_flat_map_len(pkgs[k - 1].import_ids@, |x: u64| u64_bytes(x), 8);
    }
}

/// The store-entries blob holds one 32-byte entry per package, then the
/// import lists; each package's import offset, taken from its import-count
/// field, lands on an 8-byte-aligned position of the blob after the entries,
/// with room for all its ids.
pub proof fn lemma_container_header_consistent(pkgs: Seq<ContainerHeaderPackage>, i: int)
    requires
        0 <= i < pkgs.len(),
        pkgs[i].import_ids@.len() > 0,
    ensures
        entries_bytes(pkgs, pkgs.len() as int).len() == 32 * pkgs.len(),
        store_entries_blob(pkgs).len() == blob_len(pkgs),
        ({
            let target = 32 * i + 24 + relative_import_offset(
                i as nat,
                pkgs.len(),
                8 * imports_total(pkgs, i),
                pkgs[i].import_ids@.len(),
            );
            &&& target % 8 == 0
            &&& 32 * pkgs.len() <= target
            &&& target + 8 * pkgs[i].import_ids@.len() <= blob_len(pkgs)
        }),
{
    lemma_entries_len(pkgs, pkgs.len() as int);
    lemma_import_lists_len(pkgs, pkgs.len() as int);
    lemma_imports_total_mono(pkgs, i + 1, pkgs.len() as int);
    let n = pkgs.len();
    let t = imports_total(pkgs, i);
    assert((32 * n + 8 * t) % 8 == 0) by (nonlinear_arith);
}

/// Length of the header: 44 fixed bytes, 8 per package id, and the blob.
pub proof fn lemma_container_header_len(cid: u64, pkgs: Seq<ContainerHeaderPackage>)
    ensures
        container_header_bytes(cid, pkgs).len() == 44 + 8 * pkgs.len() + blob_len(pkgs),
{
    lemma_entries_len(pkgs, pkgs.len() as int);
    lemma_import_lists_len(pkgs, pkgs.len() as int);
    assert forall|p: ContainerHeaderPackage| #[trigger] u64_bytes(p.hash).len() == 8 by {
        lemma_le_bytes_len(p.hash, 8);
    }
    lemma_flat_map_len(pkgs, |p: ContainerHeaderPackage| u64_bytes(p.hash), 8);
    lemma_le_bytes_len(cid, 8);
    lemma_le_bytes_len(pkgs.len() as u64, 4);
    lemma_le_bytes_len(0, 4);
    lemma_le_bytes_len(8, 4);
    lemma_le_bytes_len(NAME_HASH_ALGORITHM, 8);
    lemma_le_bytes_len(blob_len(pkgs) as u64, 4);
}

impl ContainerHeaderPackage {
    /// Appends the store entry of package `index` of `n`, whose import list
    /// starts `cur` bytes into the region after the entries.
    pub fn to_buffer_store_entry(&self, out: &mut Vec<u8>, index: u64, n: u64, cur: u64)
        requires
            index < n,
            32 * n + cur <= u32::MAX,
            self.import_ids@.len() <= u32::MAX,
        ensures
            final(out)@ == old(out)@ + entry_bytes(*self, index as nat, n as nat, cur as nat),
    {
        let cnt = self.import_ids.len() as u64;
        let rel: u64 = if cnt > 0 { 32 * n + cur - (32 * index + 24) } else { 0 };
        push_u64(out, self.export_bundle_size);
        push_u32(out, self.export_count);
        push_u32(out, self.export_bundle_count);
        push_u32(out, self.load_order);
        push_u32(out, 0);
        push_u32(out, cnt as u32);
        push_u32(out, rel as u32);
        assert(final(out)@ =~= old(out)@ + entry_bytes(*self, index as nat, n as nat, cur as nat));
    }
}

/// The container header of the virtual container.
pub struct ContainerHeader {
    pub container_id: u64,
    /// One record per export-bundle file, in flatten order.
    pub packages: Vec<ContainerHeaderPackage>,
}

impl ContainerHeader {
    pub fn new(container_id: u64) -> (r: Self)
        ensures
            r.container_id == container_id,
            r.packages@.len() == 0,
    {
        ContainerHeader { container_id, packages: Vec::new() }
    }

    /// Serializes the header; `None` where the store-entries blob would not
    /// fit its 32-bit length.
    pub fn to_buffer(&self) -> (r: Option<Vec<u8>>)
        ensures
            r is None <==> blob_len(self.packages@) > u32::MAX,
            r is Some ==> r->0@ == container_header_bytes(self.container_id, self.packages@),
    {
        let pk = &self.packages;
        let ghost ps = pk@;
        let n = pk.len();
        // total of import ids, stopping once the blob cannot fit
        let mut total: u64 = 0;
        let mut i: usize = 0;
        if n as u64 > 0x7FFFFFF {
            proof {
                assert(32 * n > 0xFFFF_FFFF) by (nonlinear_arith)
                    requires n > 0x7FFFFFF;
                assert(blob_len(ps) >= 32 * n);
            }
            return None;
        }
        while i < n
            invariant
                n == ps.len(),
                pk@ == ps,
                self.packages@ == ps,
                n <= 0x7FFFFFF,
                i <= n,
                total as nat == imports_total(ps, i as int),
                32 * n + 8 * total <= u32::MAX,
            decreases n - i,
        {
            let c = pk[i].import_ids.len() as u64;
            if c > (0xFFFF_FFFF - 32 * n as u64) / 8 - total {
                proof {
                    lemma_imports_total_mono(ps, i + 1, n as int);
                    assert(imports_total(ps, i + 1) == total + c);
                    assert(32 * n + 8 * (total + c) > 0xFFFF_FFFF) by (nonlinear_arith)
                        requires c > (0xFFFF_FFFF - 32 * n) / 8 - total, 32 * n <= 0xFFFF_FFFF;
                    assert(imports_total(ps, n as int) >= total + c);
                    assert(blob_len(ps) == 32 * n + 8 * imports_total(ps, n as int));
                    assert(blob_len(self.packages@) > u32::MAX);
                }
                return None;
            }
            proof {
                assert(8 * (total + c) <= 0xFFFF_FFFF - 32 * n) by (nonlinear_arith)
                    requires c <= (0xFFFF_FFFF - 32 * n) / 8 - total, 32 * n <= 0xFFFF_FFFF;
            }
            total = total + c;
            i = i + 1;
        }
        let blob_size: u64 = 32 * n as u64 + 8 * total;
        let mut out: Vec<u8> = Vec::new();
        push_u64(&mut out, self.container_id);
        push_u32(&mut out, n as u32);
        push_u32(&mut out, 0);
        push_u32(&mut out, 8);
        push_u64(&mut out, NAME_HASH_ALGORITHM);
        push_u32(&mut out, n as u32);
        let ghost head = out@;
        let mut k: usize = 0;
        while k < n
            invariant
                n == ps.len(),
                pk@ == ps,
                self.packages@ == ps,
                k <= n,
                out@ == head + flat_map(ps.subrange(0, k as int), |p: ContainerHeaderPackage| u64_bytes(p.hash)),
            decreases n - k,
        {
            push_u64(&mut out, pk[k].hash);
            proof {
                lemma_flat_map_step(ps, |p: ContainerHeaderPackage| u64_bytes(p.hash), k as int);
            }
            k = k + 1;
        }
        assert(ps.subrange(0, n as int) =~= ps);
        push_u32(&mut out, blob_size as u32);
        let ghost head2 = out@;
        let mut cur: u64 = 0;
        let mut k: usize = 0;
        while k < n
            invariant
                n == ps.len(),
                pk@ == ps,
                self.packages@ == ps,
                n <= 0x7FFFFFF,
                k <= n,
                cur as nat == 8 * imports_total(ps, k as int),
                total as nat == imports_total(ps, n as int),
                32 * n + 8 * total <= u32::MAX,
                out@ == head2 + entries_bytes(ps, k as int),
            decreases n - k,
        {
            proof {
                lemma_imports_total_mono(ps, k + 1, n as int);
            }
            assert(ps[k as int].import_ids@.len() + imports_total(ps, k as int) == imports_total(ps, k + 1));
            pk[k].to_buffer_store_entry(&mut out, k as u64, n as u64, cur);
            cur = cur + 8 * pk[k].import_ids.len() as u64;
            k = k + 1;
        }
        let ghost head3 = out@;
        let mut k: usize = 0;
        while k < n
            invariant
                n == ps.len(),
                pk@ == ps,
                self.packages@ == ps,
                k <= n,
                out@ == head3 + import_lists_bytes(ps, k as int),
            decreases n - k,
        {
            let ids = &pk[k].import_ids;
            let ghost before = out@;
            let mut j: usize = 0;
            while j < ids.len()
                invariant
                    j <= ids@.len(),
                    out@ == before + flat_map(ids@.subrange(0, j as int), |x: u64| u64_bytes(x)),
                decreases ids@.len() - j,
            {
                push_u64(&mut out, ids[j]);
                proof {
                    lemma_flat_map_step(ids@, |x: u64| u64_bytes(x), j as int);
                }
                j = j + 1;
            }
            assert(ids@.subrange(0, ids@.len() as int) =~= ids@);
            k = k + 1;
        }
        push_u32(&mut out, 0);
        push_u32(&mut out, 0);
        assert(out@ =~= container_header_bytes(self.container_id, ps));
        Some(out)
    }
}

} // verus!

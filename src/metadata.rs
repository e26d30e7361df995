//! The optional `.utocmeta` sidecar: import overrides and compression flags.

use vstd::prelude::*;
use std::collections::{HashMap, HashSet};
use crate::bytes::{le_value, read_u32, read_u64};

verus! {

broadcast use vstd::std_specs::hash::group_hash_axioms;

/// Compression flag bits of a package.
pub const UTOC_META_ZLIB: u8 = 0x1;
pub const UTOC_META_OODLE: u8 = 0x2;
pub const UTOC_META_LZ4: u8 = 0x4;
pub const UTOC_META_GZIP: u8 = 0x8;

/// How the imports of an asset are decided.
pub enum UtocMetaImportType {
    /// Graph packages, kept only where the name map confirms them.
    GraphPackageUnvalidated,
    /// Graph packages, always kept.
    GraphPackageValidated,
    /// The list that the sidecar gives.
    Manual,
}

/// Overrides gathered from every sidecar read so far.
pub struct UtocMetadata {
    /// Package ids that are emitted as imports without the name-map check.
    pub alt_import_assets: HashSet<u64>,
    /// Asset hash to the import list that replaces its dependencies.
    pub manual_import_assets: HashMap<u64, Vec<u64>>,
    /// Asset hash to compression flags.
    pub compressed_assets: HashMap<u64, u8>,
}

/// Why a sidecar was refused.
#[derive(Debug, PartialEq, Eq, Structural)]
pub enum UtocMetadataError {
    Truncated,
    UnknownCompressionFlags,
}

impl UtocMetadata {
    pub fn new() -> (r: Self)
        ensures
            r.alt_import_assets@ == Set::<u64>::empty(),
            r.manual_import_assets@ == Map::<u64, Vec<u64>>::empty(),
            r.compressed_assets@ == Map::<u64, u8>::empty(),
    {
        UtocMetadata {
            alt_import_assets: HashSet::new(),
            manual_import_assets: HashMap::new(),
            compressed_assets: HashMap::new(),
        }
    }

    pub fn get_import_type(&self, asset: u64) -> (r: UtocMetaImportType)
        ensures
            self.alt_import_assets@.contains(asset) ==> r is GraphPackageValidated,
            !self.alt_import_assets@.contains(asset) && self.manual_import_assets@.contains_key(asset)
                ==> r is Manual,
            !self.alt_import_assets@.contains(asset) && !self.manual_import_assets@.contains_key(asset)
                ==> r is GraphPackageUnvalidated,
    {
        if self.alt_import_assets.contains(&asset) {
            UtocMetaImportType::GraphPackageValidated
        } else if self.manual_import_assets.contains_key(&asset) {
            UtocMetaImportType::Manual
        } else {
            UtocMetaImportType::GraphPackageUnvalidated
        }
    }

    pub fn get_manual_import(&self, hash: u64) -> (r: Option<&Vec<u64>>)
        ensures
            r is Some <==> self.manual_import_assets@.contains_key(hash),
            r is Some ==> *r->0 == self.manual_import_assets@[hash],
    {
        self.manual_import_assets.get(&hash)
    }

    pub fn is_alt_import(&self, id: u64) -> (r: bool)
        ensures
            r == self.alt_import_assets@.contains(id),
    {
        self.alt_import_assets.contains(&id)
    }
}

pub open spec fn u32_at(d: Seq<u8>, pos: int) -> nat {
    le_value(d.subrange(pos, pos + 4))
}

pub open spec fn u64_at(d: Seq<u8>, pos: int) -> u64 {
    le_value(d.subrange(pos, pos + 8)) as u64
}

/// `n` little-endian `u64`s from `pos`.
pub open spec fn u64s_at(d: Seq<u8>, pos: int, n: nat) -> Seq<u64> {
    Seq::new(n, |j: int| u64_at(d, pos + 8 * j))
}

/// The `n` manual-import records from `pos` (asset hash, count, ids) and
/// where they end; `None` where one runs past the end.
pub open spec fn manual_records(d: Seq<u8>, pos: int, n: nat) -> Option<(Seq<(u64, Seq<u64>)>, int)>
    decreases n,
{
    if n == 0 {
        Some((Seq::empty(), pos))
    } else if pos < 0 || pos + 16 > d.len() {
        None
    } else {
        let k = le_value(d.subrange(pos + 8, pos + 16));
        let end = pos + 16 + 8 * k;
        if end > d.len() {
            None
        } else {
            match manual_records(d, end, (n - 1) as nat) {
                Some(rest) => Some((seq![(u64_at(d, pos), u64s_at(d, pos + 16, k))] + rest.0, rest.1)),
                None => None,
            }
        }
    }
}

/// A sidecar's contents: always-kept ids, manual import lists and
/// compression flags, in file order.
pub struct ParsedUtocMetadata {
    pub alt_imports: Vec<u64>,
    pub manual_imports: Vec<(u64, Vec<u64>)>,
    pub compressed: Vec<(u64, u8)>,
}

/// What a sidecar holds: after the version and three counts, the
/// always-kept ids, the manual records, the compressed-package hashes, then
/// one flag byte per package; flags beyond the four known bits are refused.
pub open spec fn parse_spec(d: Seq<u8>) -> Result<(Seq<u64>, Seq<(u64, Seq<u64>)>, Seq<(u64, u8)>), UtocMetadataError> {
    if d.len() < 16 {
        Err(UtocMetadataError::Truncated)
    } else {
        let n1 = u32_at(d, 4);
        let n2 = u32_at(d, 8);
        let n3 = u32_at(d, 12);
        if 16 + 8 * n1 > d.len() {
            Err(UtocMetadataError::Truncated)
        } else {
            match manual_records(d, (16 + 8 * n1) as int, n2) {
                None => Err(UtocMetadataError::Truncated),
                Some(m) => {
                    let e = m.1;
                    let flags = d.subrange(e + 8 * n3, e + 9 * n3);
                    if e + 9 * n3 > d.len() {
                        Err(UtocMetadataError::Truncated)
                    } else if exists|j: int| 0 <= j < n3 && #[trigger] flags[j] > 0xF {
                        Err(UtocMetadataError::UnknownCompressionFlags)
                    } else {
                        Ok(
                            (
                                u64s_at(d, 16, n1),
                                m.0,
                                Seq::new(n3, |j: int| (u64_at(d, e + 8 * j), flags[j])),
                            ),
                        )
                    }
                },
            }
        }
    }
}

/// Reads `n` little-endian `u64`s from `pos`.
fn read_u64s(d: &[u8], pos: usize, n: usize) -> (r: Vec<u64>)
    requires
        pos + 8 * n <= d.len(),
    ensures
        r@ == u64s_at(d@, pos as int, n as nat),
{
    let mut v: Vec<u64> = Vec::new();
    let mut j: usize = 0;
    while j < n
        invariant
            pos + 8 * n <= d.len(),
            j <= n,
            v@ == u64s_at(d@, pos as int, j as nat),
        decreases n - j,
    {
        let x = read_u64(d, pos + 8 * j).unwrap();
        v.push(x);
        j = j + 1;
        assert(v@ =~= u64s_at(d@, pos as int, j as nat));
    }
    v
}

impl ParsedUtocMetadata {
    pub open spec fn view_tuple(&self) -> (Seq<u64>, Seq<(u64, Seq<u64>)>, Seq<(u64, u8)>) {
        (self.alt_imports@, self.manual_imports@.map_values(|p: (u64, Vec<u64>)| (p.0, p.1@)), self.compressed@)
    }

    /// Parses a sidecar.
    pub fn from_bytes(d: &[u8]) -> (r: Result<Self, UtocMetadataError>)
        ensures
            r is Ok <==> parse_spec(d@) is Ok,
            r is Err ==> parse_spec(d@) == Err::<(Seq<u64>, Seq<(u64, Seq<u64>)>, Seq<(u64, u8)>), UtocMetadataError>(r->Err_0),
            r is Ok ==> parse_spec(d@) == Ok::<_, UtocMetadataError>(r->Ok_0.view_tuple()),
    {
        if d.len() < 16 {
            return Err(UtocMetadataError::Truncated);
        }
        let n1 = read_u32(d, 4).unwrap() as usize;
        let n2 = read_u32(d, 8).unwrap();
        let n3 = read_u32(d, 12).unwrap() as usize;
        if n1 > (d.len() - 16) / 8 {
            assert(16 + 8 * n1 > d.len()) by (nonlinear_arith)
                requires n1 > (d.len() - 16) / 8, d.len() >= 16;
            return Err(UtocMetadataError::Truncated);
        }
        let alt_imports = read_u64s(d, 16, n1);
        let start: usize = 16 + 8 * n1;
        let mut pos: usize = start;
        let mut manual: Vec<(u64, Vec<u64>)> = Vec::new();
        let mut i: u32 = 0;
        while i < n2
            invariant
                i <= n2,
                pos <= d@.len(),
                start == 16 + 8 * n1,
                start <= d.len(),
                n1 as nat == u32_at(d@, 4),
                n3 as nat == u32_at(d@, 12),
                d@.len() >= 16,
                n2 as nat == u32_at(d@, 8),
                ({
                    let mv = manual@.map_values(|p: (u64, Vec<u64>)| (p.0, p.1@));
                    match manual_records(d@, start as int, n2 as nat) {
                        Some(all) => match manual_records(d@, pos as int, (n2 - i) as nat) {
                            Some(rest) => all.0 == mv + rest.0 && all.1 == rest.1,
                            None => false,
                        },
                        None => manual_records(d@, pos as int, (n2 - i) as nat) is None,
                    }
                }),
            decreases n2 - i,
        {
            if d.len() < 16 || pos > d.len() - 16 {
                assert(manual_records(d@, pos as int, (n2 - i) as nat) is None);
                return Err(UtocMetadataError::Truncated);
            }
            let asset = read_u64(d, pos).unwrap();
            let k = read_u64(d, pos + 8).unwrap();
            if k > ((d.len() - pos - 16) / 8) as u64 {
                assert(d@.subrange(pos + 8, pos + 16) == d@.subrange(pos + 8, pos + 8 + 8));
                assert(manual_records(d@, pos as int, (n2 - i) as nat) is None);
                return Err(UtocMetadataError::Truncated);
            }
            let ids = read_u64s(d, pos + 16, k as usize);
            let ghost mv0 = manual@.map_values(|p: (u64, Vec<u64>)| (p.0, p.1@));
            manual.push((asset, ids));
            pos = pos + 16 + 8 * k as usize;
            i = i + 1;
            proof {
                let mv = manual@.map_values(|p: (u64, Vec<u64>)| (p.0, p.1@));
                assert(mv =~= mv0.push((asset, ids@)));
                match manual_records(d@, start as int, n2 as nat) {
                    Some(all) => {
                        let rest = manual_records(d@, pos as int, (n2 - i) as nat)->0;
                        assert(all.0 =~= mv + rest.0);
                    },
                    None => {},
                }
            }
        }
        let e = pos;
        assert(manual_records(d@, pos as int, 0) == Some((Seq::<(u64, Seq<u64>)>::empty(), pos as int)));
        proof {
            let all = manual_records(d@, start as int, n2 as nat);
            assert(all is Some && (all->0).1 == e);
        }
        if n3 > (d.len() - e) / 9 {
            assert(e + 9 * n3 > d.len()) by (nonlinear_arith)
                requires n3 > (d.len() - e) / 9, d.len() >= e;
            return Err(UtocMetadataError::Truncated);
        }
        let hashes = read_u64s(d, e, n3);
        let fstart: usize = e + 8 * n3;
        let mut compressed: Vec<(u64, u8)> = Vec::new();
        let mut j: usize = 0;
        while j < n3
            invariant
                j <= n3,
                fstart == e + 8 * n3,
                fstart + n3 <= d.len(),
                e + 9 * n3 <= d.len(),
                d@.len() >= 16,
                16 + 8 * n1 <= d.len(),
                n1 as nat == u32_at(d@, 4),
                n2 as nat == u32_at(d@, 8),
                n3 as nat == u32_at(d@, 12),
                manual_records(d@, (16 + 8 * n1) as int, n2 as nat) is Some,
                (manual_records(d@, (16 + 8 * n1) as int, n2 as nat)->0).1 == e,
                hashes@ == u64s_at(d@, e as int, n3 as nat),
                forall|q: int| 0 <= q < j ==> #[trigger] d@.subrange(fstart as int, fstart + n3)[q] <= 0xF,
                compressed@ == Seq::new(j as nat, |q: int| (u64_at(d@, e + 8 * q), d@.subrange(fstart as int, fstart + n3)[q])),
            decreases n3 - j,
        {
            let flag = d[fstart + j];
            assert(d@.subrange(fstart as int, fstart + n3)[j as int] == flag);
            if flag > 0xF {
                proof {
                    let flags = d@.subrange(e + 8 * n3, e + 9 * n3);
                    assert(flags[j as int] > 0xF);
                }
                return Err(UtocMetadataError::UnknownCompressionFlags);
            }
            compressed.push((hashes[j], flag));
            j = j + 1;
            assert(compressed@ =~= Seq::new(j as nat, |q: int| (u64_at(d@, e + 8 * q), d@.subrange(fstart as int, fstart + n3)[q])));
        }
        Ok(ParsedUtocMetadata { alt_imports, manual_imports: manual, compressed })
    }
}

/// `m` after inserting each pair of `s` in order; a later pair wins.
pub open spec fn insert_pairs<V>(m: Map<u64, V>, s: Seq<(u64, V)>) -> Map<u64, V>
    decreases s.len(),
{
    if s.len() == 0 {
        m
    } else {
        insert_pairs(m, s.drop_last()).insert(s.last().0, s.last().1)
    }
}

/// The manual import lists as sequences.
pub open spec fn manual_view(m: Map<u64, Vec<u64>>) -> Map<u64, Seq<u64>> {
    m.map_values(|v: Vec<u64>| v@)
}

impl UtocMetadata {
    /// Reads a sidecar and merges it: its always-kept ids join the set, its
    /// manual lists and compression flags are inserted in file order. A
    /// refused sidecar changes nothing.
    pub fn add_entries(&mut self, data: &[u8]) -> (r: Result<(), UtocMetadataError>)
        ensures
            r is Ok <==> parse_spec(data@) is Ok,
            r is Err ==> parse_spec(data@) == Err::<(Seq<u64>, Seq<(u64, Seq<u64>)>, Seq<(u64, u8)>), UtocMetadataError>(r->Err_0)
                && *final(self) == *old(self),
            r is Ok ==> {
                let p = parse_spec(data@)->Ok_0;
                &&& final(self).alt_import_assets@ == old(self).alt_import_assets@ + p.0.to_set()
                &&& manual_view(final(self).manual_import_assets@) == insert_pairs(manual_view(old(self).manual_import_assets@), p.1)
                &&& final(self).compressed_assets@ == insert_pairs(old(self).compressed_assets@, p.2)
            },
    {
        let parsed = match ParsedUtocMetadata::from_bytes(data) {
            Ok(p) => p,
            Err(e) => return Err(e),
        };
        let ghost pv = parsed.view_tuple();
        let ghost alt0 = self.alt_import_assets@;
        let mut i: usize = 0;
        while i < parsed.alt_imports.len()
            invariant
                i <= parsed.alt_imports@.len(),
                self.alt_import_assets@ == alt0 + parsed.alt_imports@.subrange(0, i as int).to_set(),
                self.manual_import_assets == old(self).manual_import_assets,
                self.compressed_assets == old(self).compressed_assets,
            decreases parsed.alt_imports@.len() - i,
        {
            let x = parsed.alt_imports[i];
            self.alt_import_assets.insert(x);
            let ghost pre = parsed.alt_imports@.subrange(0, i as int);
            i = i + 1;
            proof {
                let post = parsed.alt_imports@.subrange(0, i as int);
                assert(post =~= pre.push(x));
                assert forall|y: u64| post.to_set().contains(y) <==> pre.to_set().insert(x).contains(y) by {
                    if y == x {
                        assert(post[post.len() - 1] == x);
                    } else if post.to_set().contains(y) {
                        let j = choose|j: int| 0 <= j < post.len() && post[j] == y;
                        assert(pre[j] == y);
                    } else if pre.to_set().contains(y) {
                        let j = choose|j: int| 0 <= j < pre.len() && pre[j] == y;
                        assert(post[j] == y);
                    }
                }
                assert(post.to_set() =~= pre.to_set().insert(x));
                assert(self.alt_import_assets@ =~= alt0 + post.to_set());
            }
        }
        assert(parsed.alt_imports@.subrange(0, parsed.alt_imports@.len() as int) =~= parsed.alt_imports@);
        let ghost man0 = manual_view(self.manual_import_assets@);
        let mut i: usize = 0;
        while i < parsed.manual_imports.len()
            invariant
                i <= parsed.manual_imports@.len(),
                pv == parsed.view_tuple(),
                manual_view(self.manual_import_assets@) == insert_pairs(man0, pv.1.subrange(0, i as int)),
                self.compressed_assets == old(self).compressed_assets,
                self.alt_import_assets@ == alt0 + parsed.alt_imports@.to_set(),
                man0 == manual_view(old(self).manual_import_assets@),
                alt0 == old(self).alt_import_assets@,
            decreases parsed.manual_imports@.len() - i,
        {
            let k = parsed.manual_imports[i].0;
            let v = parsed.manual_imports[i].1.clone();
            let ghost before = self.manual_import_assets@;
            assert(v@ == parsed.manual_imports@[i as int].1@);
            self.manual_import_assets.insert(k, v);
            let ghost pre = pv.1.subrange(0, i as int);
            i = i + 1;
            proof {
                assert(pv.1.subrange(0, i as int).drop_last() =~= pre);
                assert(manual_view(self.manual_import_assets@) =~= manual_view(before).insert(k, v@));
            }
        }
        assert(pv.1.subrange(0, pv.1.len() as int) =~= pv.1);
        let ghost comp0 = self.compressed_assets@;
        let mut i: usize = 0;
        while i < parsed.compressed.len()
            invariant
                i <= parsed.compressed@.len(),
                self.compressed_assets@ == insert_pairs(comp0, parsed.compressed@.subrange(0, i as int)),
                comp0 == old(self).compressed_assets@,
                pv == parsed.view_tuple(),
                manual_view(self.manual_import_assets@) == insert_pairs(man0, pv.1),
                self.alt_import_assets@ == alt0 + parsed.alt_imports@.to_set(),
                man0 == manual_view(old(self).manual_import_assets@),
                alt0 == old(self).alt_import_assets@,
            decreases parsed.compressed@.len() - i,
        {
            let (k, f) = parsed.compressed[i];
            self.compressed_assets.insert(k, f);
            let ghost pre = parsed.compressed@.subrange(0, i as int);
            i = i + 1;
            assert(parsed.compressed@.subrange(0, i as int).drop_last() =~= pre);
        }
        assert(parsed.compressed@.subrange(0, parsed.compressed@.len() as int) =~= parsed.compressed@);
        Ok(())
    }
}

} // verus!

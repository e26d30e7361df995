use utoc_emulator::container::ContainerHeader;
use utoc_emulator::metadata::{ParsedUtocMetadata, UtocMetaImportType, UtocMetadata, UtocMetadataError};
use utoc_emulator::package::{
    is_valid_asset_type, read_graph_package_ids, ContainerHeaderPackage, ExportBundleHeader4, PackageError,
    PackageSummaryExports,
};
use utoc_emulator::string::Hasher16;

fn put_u32(b: &mut Vec<u8>, pos: usize, v: u32) {
    b[pos..pos + 4].copy_from_slice(&v.to_le_bytes());
}

fn u32_at(b: &[u8], pos: usize) -> u32 {
    u32::from_le_bytes([b[pos], b[pos + 1], b[pos + 2], b[pos + 3]])
}

fn u64_at(b: &[u8], pos: usize) -> u64 {
    let mut a = [0u8; 8];
    a.copy_from_slice(&b[pos..pos + 8]);
    u64::from_le_bytes(a)
}

fn name(s: &str) -> Vec<u8> {
    let mut v = (s.len() as u16).to_be_bytes().to_vec();
    v.extend_from_slice(s.as_bytes());
    v
}

/// Two exports in two bundles; names `/Game/Dep` and `Other`; graph ids
/// for `/Game/Dep` and an unnamed localization package.
fn two_bundle_package() -> Vec<u8> {
    let mut d = vec![0u8; 0x40];
    put_u32(&mut d, 0x18, 0x40);
    put_u32(&mut d, 0x24, 8 + 2 * 8);
    put_u32(&mut d, 0x28, 0x58);
    put_u32(&mut d, 0x2C, 0x60);
    put_u32(&mut d, 0x30, 0x60 + 2 * 0x48);
    put_u32(&mut d, 0x34, 0x110);
    d.extend(name("/Game/Dep"));
    d.extend(name("Other"));
    d.resize(0xF0, 0);
    for (first, count) in [(0u32, 1u32), (1, 1)] {
        d.extend_from_slice(&first.to_le_bytes());
        d.extend_from_slice(&count.to_le_bytes());
    }
    for (idx, cmd) in [(0u32, 0u32), (1, 1)] {
        d.extend_from_slice(&idx.to_le_bytes());
        d.extend_from_slice(&cmd.to_le_bytes());
    }
    assert_eq!(d.len(), 0x110);
    d.extend_from_slice(&2u32.to_le_bytes());
    d.extend_from_slice(&Hasher16::get_cityhash64("/Game/Dep").to_le_bytes());
    d.extend_from_slice(&0u32.to_le_bytes());
    d.extend_from_slice(&0x999u64.to_le_bytes());
    d.extend_from_slice(&1u32.to_le_bytes());
    d.extend_from_slice(&[1, 0, 0, 0, 2, 0, 0, 0]);
    d
}

#[test]
fn cooked_magic_detection() {
    assert!(!is_valid_asset_type(&[0xC1, 0x83, 0x2A, 0x9E, 0]));
    assert!(is_valid_asset_type(&[0, 0, 0, 0]));
    assert!(is_valid_asset_type(&[0xC1, 0x83, 0x2A]));
}

#[test]
fn summary_fields_and_export_count() {
    let d = two_bundle_package();
    let s = PackageSummaryExports::from_bytes(&d).ok().unwrap();
    assert_eq!(s.name_offset, 0x40);
    assert_eq!(s.name_count, 2);
    assert_eq!(s.import_offset, 0x58);
    assert_eq!(s.export_offset, 0x60);
    assert_eq!(s.export_bundle_offset, 0xF0);
    assert_eq!(s.graph_offset, 0x110);
    assert_eq!(s.get_export_count(), 2);
}

#[test]
fn summary_errors() {
    assert!(matches!(PackageSummaryExports::from_bytes(&[0u8; 0x37]), Err(PackageError::Truncated)));
    let mut d = vec![0u8; 0x38];
    assert!(matches!(PackageSummaryExports::from_bytes(&d), Err(PackageError::MalformedSummary)));
    put_u32(&mut d, 0x24, 8);
    put_u32(&mut d, 0x2C, 0x100);
    put_u32(&mut d, 0x30, 0x80);
    assert!(matches!(PackageSummaryExports::from_bytes(&d), Err(PackageError::MalformedSummary)));
}

#[test]
fn export_bundle_count_heuristic() {
    let d = two_bundle_package();
    assert_eq!(ExportBundleHeader4::from_buffer(0xF0, 0x110, &d), Some(2));
    // three headers (0,2), (2,1), (3,4) with only 3 entry slots: two bundles
    let mut e = vec![0u8; 0];
    for (f, c) in [(0u32, 2u32), (2, 1), (3, 4)] {
        e.extend_from_slice(&f.to_le_bytes());
        e.extend_from_slice(&c.to_le_bytes());
    }
    e.extend_from_slice(&[0xFF; 24]);
    assert_eq!(ExportBundleHeader4::from_buffer(0, 24 + 24, &e), Some(2));
    // nothing matches: one bundle
    assert_eq!(ExportBundleHeader4::from_buffer(0, 24 + 40, &e), Some(1));
    // headers overrun the graph data
    assert_eq!(ExportBundleHeader4::from_buffer(0, 16, &e), None);
}

#[test]
fn graph_ids_are_read() {
    let d = two_bundle_package();
    let ids = read_graph_package_ids(&d, 0x110).unwrap();
    assert_eq!(ids, vec![Hasher16::get_cityhash64("/Game/Dep"), 0x999]);
    assert_eq!(read_graph_package_ids(&d[..d.len() - 4], 0x110), None);
}

#[test]
fn imports_filtered_by_name_map() {
    let d = two_bundle_package();
    let meta = UtocMetadata::new();
    let p = ContainerHeaderPackage::from_package_summary(&d, 7, d.len() as u64, &meta).ok().unwrap();
    assert_eq!(p.hash, 7);
    assert_eq!(p.export_bundle_size, d.len() as u64);
    assert_eq!(p.export_count, 2);
    assert_eq!(p.export_bundle_count, 2);
    assert_eq!(p.load_order, 0);
    assert_eq!(p.import_ids, vec![Hasher16::get_cityhash64("/Game/Dep")]);
}

#[test]
fn sidecar_overrides_imports() {
    let d = two_bundle_package();
    let mut side = Vec::new();
    for v in [1u32, 1, 1, 1] {
        side.extend_from_slice(&v.to_le_bytes());
    }
    side.extend_from_slice(&0x999u64.to_le_bytes());
    side.extend_from_slice(&42u64.to_le_bytes());
    side.extend_from_slice(&2u64.to_le_bytes());
    side.extend_from_slice(&5u64.to_le_bytes());
    side.extend_from_slice(&6u64.to_le_bytes());
    side.extend_from_slice(&77u64.to_le_bytes());
    side.push(0x2);
    let mut meta = UtocMetadata::new();
    assert_eq!(meta.add_entries(&side), Ok(()));
    assert!(meta.is_alt_import(0x999));
    assert!(matches!(meta.get_import_type(0x999), UtocMetaImportType::GraphPackageValidated));
    assert!(matches!(meta.get_import_type(42), UtocMetaImportType::Manual));
    assert!(matches!(meta.get_import_type(1), UtocMetaImportType::GraphPackageUnvalidated));
    assert_eq!(meta.get_manual_import(42), Some(&vec![5, 6]));
    assert_eq!(meta.compressed_assets.get(&77), Some(&0x2));
    // the always-kept id passes the name filter
    let p = ContainerHeaderPackage::from_package_summary(&d, 7, 1, &meta).ok().unwrap();
    assert_eq!(p.import_ids, vec![Hasher16::get_cityhash64("/Game/Dep"), 0x999]);
    // a manual list replaces the graph ids
    let p = ContainerHeaderPackage::from_package_summary(&d, 42, 1, &meta).ok().unwrap();
    assert_eq!(p.import_ids, vec![5, 6]);
}

#[test]
fn sidecar_errors() {
    assert_eq!(ParsedUtocMetadata::from_bytes(&[0u8; 15]).err(), Some(UtocMetadataError::Truncated));
    let mut side = Vec::new();
    for v in [1u32, 0, 0, 1] {
        side.extend_from_slice(&v.to_le_bytes());
    }
    side.extend_from_slice(&77u64.to_le_bytes());
    side.push(0x10);
    let mut meta = UtocMetadata::new();
    assert_eq!(meta.add_entries(&side), Err(UtocMetadataError::UnknownCompressionFlags));
    assert!(meta.compressed_assets.is_empty());
    side.pop();
    assert_eq!(meta.add_entries(&side), Err(UtocMetadataError::Truncated));
}

#[test]
fn invalid_name_map_is_an_error() {
    let mut d = two_bundle_package();
    d[0x42] = 0xFF;
    let r = ContainerHeaderPackage::from_package_summary(&d, 7, 1, &UtocMetadata::new());
    assert!(matches!(r, Err(PackageError::InvalidName)));
}

#[test]
fn overrun_bundles_are_an_error() {
    let mut d = two_bundle_package();
    put_u32(&mut d, 0x34, 0xF8);
    let r = ContainerHeaderPackage::from_package_summary(&d, 7, 1, &UtocMetadata::new());
    assert!(matches!(r, Err(PackageError::BundleAreaOverrun)));
}

fn package(hash: u64, imports: Vec<u64>) -> ContainerHeaderPackage {
    ContainerHeaderPackage {
        hash,
        export_bundle_size: 100 + hash,
        export_count: 3,
        export_bundle_count: 1,
        load_order: 0,
        import_ids: imports,
    }
}

#[test]
fn container_header_import_offsets() {
    let mut h = ContainerHeader::new(0xABCD);
    h.packages.push(package(1, vec![11, 12]));
    h.packages.push(package(2, vec![]));
    h.packages.push(package(3, vec![31]));
    let b = h.to_buffer().unwrap();
    assert_eq!(u64_at(&b, 0), 0xABCD);
    assert_eq!(u32_at(&b, 8), 3);
    assert_eq!(u32_at(&b, 12), 0);
    assert_eq!(u32_at(&b, 16), 8);
    assert_eq!(u64_at(&b, 20), 0xC1640000);
    assert_eq!(u32_at(&b, 28), 3);
    assert_eq!(u64_at(&b, 32), 1);
    assert_eq!(u64_at(&b, 48), 3);
    let blob_len = u32_at(&b, 56) as usize;
    assert_eq!(blob_len, 3 * 32 + 3 * 8);
    let blob = &b[60..60 + blob_len];
    assert_eq!(b.len(), 60 + blob_len + 8);
    for i in 0..3 {
        let e = 32 * i;
        let count = u32_at(blob, e + 24) as usize;
        let rel = u32_at(blob, e + 28) as usize;
        if count == 0 {
            assert_eq!(rel, 0);
            continue;
        }
        let target = e + 24 + rel;
        assert_eq!(target % 8, 0);
        assert!(target >= 96 && target + 8 * count <= blob_len);
    }
    assert_eq!(u64_at(blob, 96), 11);
    assert_eq!(u64_at(blob, 104), 12);
    assert_eq!(u64_at(blob, 112), 31);
    assert_eq!(u32_at(blob, 28), 96 - 24);
    assert_eq!(u32_at(blob, 64 + 28), 112 - 64 - 24);
    assert_eq!(u64_at(blob, 0), 101);
    assert_eq!(u32_at(blob, 8), 3);
}

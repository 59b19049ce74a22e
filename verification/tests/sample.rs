use copc_rs::bounds::Bounds;
use copc_rs::double::Double;
use copc_rs::forward::RecordKind;
use copc_rs::header::{is_point_format_compressed, point_format_id_compressed_to_uncompressd};
use copc_rs::hierarchy::Entry;
use copc_rs::index::{HierarchyLoader, LoadStep};
use copc_rs::iter::{PointIter, PointStep};
use copc_rs::key::VoxelKey;
use copc_rs::query::{level_range, load_octree_for_query, BoundsSelection, LodSelection, Query};
use copc_rs::reader::CopcHeaders;
use copc_rs::vlr::Vlr;

/// The first two records of a small file of 107 points in one chunk, as
/// another writer left them: the COPC info and the LAZ record.
fn records() -> Vec<u8> {
    vec![
        0, 0, 99, 111, 112, 99, 0, 0, 0, 0, 0, 0, 0, 0, 0, 0,
        0, 0, 1, 0, 160, 0, 67, 79, 80, 67, 32, 105, 110, 102, 111, 32,
        86, 76, 82, 0, 0, 0, 0, 0, 0, 0, 0, 0, 0, 0, 0, 0,
        0, 0, 0, 0, 0, 0, 51, 51, 51, 51, 63, 120, 35, 65, 113, 61,
        10, 87, 51, 250, 41, 65, 226, 91, 143, 194, 245, 204, 164, 64, 0, 225,
        122, 20, 174, 156, 161, 64, 131, 151, 142, 211, 217, 171, 62, 64, 240, 16,
        0, 0, 0, 0, 0, 0, 32, 0, 0, 0, 0, 0, 0, 0, 108, 37,
        30, 63, 227, 243, 13, 65, 108, 165, 255, 71, 161, 125, 14, 65, 0, 0,
        0, 0, 0, 0, 0, 0, 0, 0, 0, 0, 0, 0, 0, 0, 0, 0,
        0, 0, 0, 0, 0, 0, 0, 0, 0, 0, 0, 0, 0, 0, 0, 0,
        0, 0, 0, 0, 0, 0, 0, 0, 0, 0, 0, 0, 0, 0, 0, 0,
        0, 0, 0, 0, 0, 0, 0, 0, 0, 0, 0, 0, 0, 0, 0, 0,
        0, 0, 0, 0, 0, 0, 0, 0, 0, 0, 0, 0, 0, 0, 0, 0,
        0, 0, 0, 0, 0, 0, 0, 0, 108, 97, 115, 122, 105, 112, 32, 101,
        110, 99, 111, 100, 101, 100, 0, 0, 188, 86, 46, 0, 108, 97, 122, 112,
        101, 114, 102, 32, 118, 97, 114, 105, 97, 110, 116, 0, 0, 0, 0, 0,
        0, 0, 0, 0, 0, 0, 0, 0, 0, 0, 0, 0, 3, 0, 0, 0,
        3, 4, 3, 0, 0, 0, 0, 0, 255, 255, 255, 255, 255, 255, 255, 255,
        255, 255, 255, 255, 255, 255, 255, 255, 255, 255, 255, 255, 2, 0, 10, 0,
        30, 0, 3, 0, 11, 0, 6, 0, 3, 0,
    ]
}

/// The hierarchy of that file: one page with the entry of the root.
fn hierarchy() -> Vlr {
    let mut user_id = [0u8; 16];
    user_id[..4].copy_from_slice(b"copc");
    let mut description = [0u8; 32];
    description[..13].copy_from_slice(b"EPT Hierarchy");
    Vlr {
        user_id,
        record_id: 1000,
        description,
        data: vec![
            0, 0, 0, 0, 0, 0, 0, 0, 0, 0, 0, 0, 0, 0, 0, 0,
            208, 6, 0, 0, 0, 0, 0, 0, 213, 9, 0, 0, 107, 0, 0, 0,
        ],
    }
}

fn number(d: &Double) -> f64 {
    f64::from_bits(d.to_bits())
}

fn read() -> CopcHeaders {
    let (mut all, end) = Vlr::read_all(&records(), 0, 2).unwrap();
    assert_eq!(end, 314);
    all.push(hierarchy());
    CopcHeaders::read_from(&all).unwrap()
}

#[test]
fn records_of_another_writer_are_read() {
    let bytes = records();
    let (all, _) = Vlr::read_all(&bytes, 0, 2).unwrap();
    assert_eq!(all[0].user_id(), "copc");
    assert_eq!(all[0].description(), "COPC info VLR");
    assert_eq!(RecordKind::of(&all[0]), RecordKind::CopcInfo);
    assert_eq!(all[1].user_id(), "laszip encoded");
    assert_eq!(all[1].description(), "lazperf variant");
    assert_eq!(RecordKind::of(&all[1]), RecordKind::LasZip);
    assert_eq!(RecordKind::of(&hierarchy()), RecordKind::CopcHierarchy);
    assert_eq!(all[1].data.len(), 34 + 2 * 6);
}

#[test]
fn info_of_another_writer_is_read() {
    let info = read().copc_info;
    assert_eq!(number(&info.center.x), 637983.6);
    assert_eq!(number(&info.center.y), 851225.67);
    assert_eq!(number(&info.center.z), 2662.4799999999677);
    assert_eq!(number(&info.halfsize), 2254.3399999999674);
    assert_eq!(number(&info.spacing), 30.67129251700636);
    assert_eq!(info.root_hier_offset, 4336);
    assert_eq!(info.root_hier_size, 32);
    assert_eq!(number(&info.gpstime_minimum), 245372.40581921802);
    assert_eq!(number(&info.gpstime_maximum), 249780.16015557514);
    // what was read is written as it was
    assert_eq!(info.into_vlr().data, records()[54..214].to_vec());
}

#[test]
fn points_of_the_root_of_another_writer_are_found() {
    let headers = read();
    let page = headers.root_page().unwrap();
    assert_eq!(
        page.entries,
        vec![Entry {
            key: VoxelKey { level: 0, x: 0, y: 0, z: 0 },
            offset: 1744,
            byte_size: 2517,
            point_count: 107,
        }]
    );
    let mut loader = HierarchyLoader::new(page);
    assert_eq!(loader.step(), Ok(LoadStep::Done));
    let index = loader.finish();
    // the root cube on a grid of hundredths
    let root = Bounds::new(63572926, 84897133, 40814, 64023794, 85348001, 491682);
    let everywhere = BoundsSelection::Within(Bounds::new(
        i64::MIN,
        i64::MIN,
        i64::MIN,
        i64::MAX,
        i64::MAX,
        i64::MAX,
    ));
    for (lod, within) in [
        (LodSelection::Level(0), BoundsSelection::All),
        (LodSelection::All, BoundsSelection::All),
        (LodSelection::All, everywhere),
        (LodSelection::Resolution(Double::from_bits(1.0f64.to_bits())), BoundsSelection::All),
    ] {
        let (level_min, level_max) = level_range(&lod, &headers.copc_info.spacing).unwrap();
        let query = Query { root, level_min, level_max, within };
        let nodes = load_octree_for_query(&index, &query);
        assert_eq!(nodes.len(), 1);
        let mut it = PointIter::new(nodes, within);
        assert_eq!(it.size_hint(), 107);
        assert_eq!(it.advance(), PointStep::Read { seek: Some(1744) });
    }
    let (_, end) = level_range(
        &LodSelection::Resolution(Double::from_bits(1.0f64.to_bits())),
        &headers.copc_info.spacing,
    )
    .unwrap();
    // the spacing of 30.67 is halved five times to get below one
    assert_eq!(end, 6);
    let nodes = load_octree_for_query(
        &index,
        &Query { root, level_min: 1, level_max: 2, within: BoundsSelection::All },
    );
    assert_eq!(nodes.len(), 0);
}

#[test]
fn format_of_another_writer_is_told() {
    // the point format byte of that file
    assert!(is_point_format_compressed(135));
    assert_eq!(point_format_id_compressed_to_uncompressd(135), 7);
}

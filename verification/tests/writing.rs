use copc_rs::bounds::Bounds;
use copc_rs::double::{Double, Vector};
use copc_rs::error::{Error, PointAddError};
use copc_rs::header::{Header, PointAttributes, PointFormat};
use copc_rs::hierarchy::{Entry, HierarchyPage};
use copc_rs::index::{HierarchyLoader, LoadStep};
use copc_rs::info::CopcInfo;
use copc_rs::iter::PointIter;
use copc_rs::key::VoxelKey;
use copc_rs::query::{load_octree_for_query, BoundsSelection, Query};
use copc_rs::octree::{
    choose_weighted, expected_levels, find_candidates, find_greedy, get_random_weighted_index,
    pick, power_of_four, total_weight, NodeState, NodeTable,
};
use copc_rs::vlr::{text16, text32, Vlr};
use copc_rs::layout::length_of_records;
use copc_rs::writer::{
    node_sizes, CopcWriter, Georeference, OpenChunk, PointRecord, Strategy,
};

fn d(v: f64) -> Double {
    Double::from_bits(v.to_bits())
}

fn key(level: i32, x: i32, y: i32, z: i32) -> VoxelKey {
    VoxelKey { level, x, y, z }
}

fn vlr(user: &str, record_id: u16, data: Vec<u8>) -> Vlr {
    Vlr {
        user_id: text16(user),
        record_id,
        description: text32("forwarded"),
        data,
    }
}

fn source(format: u8, length: u16, vlrs: Vec<Vlr>) -> Header {
    Header {
        version_major: 1,
        version_minor: 2,
        header_size: 227,
        point_data_record_format: format,
        point_data_record_length: length,
        global_encoding: 1,
        generating_software: [b'x'; 32],
        number_of_points: 77,
        number_of_points_by_return: [5; 15],
        bounds: Bounds::new(0, 0, 0, 1000, 1000, 1000),
        start_of_first_evlr: 12345,
        number_of_evlrs: 3,
        vlrs,
        evlrs: vec![vlr("copc", 1000, vec![0; 32]), vlr("mine", 5, vec![1, 2])],
    }
}

fn wkt() -> Vlr {
    vlr("LASF_Projection", 2112, b"PROJCS[]".to_vec())
}

fn geo(epsg: Option<u16>) -> Georeference {
    Georeference {
        scale: Vector { x: d(0.01), y: d(0.01), z: d(0.01) },
        root: Bounds::new(0, 0, 0, 0, 0, 0),
        extents: Vector { x: d(10.0), y: d(10.0), z: d(10.0) },
        center: Vector { x: d(5.0), y: d(5.0), z: d(5.0) },
        halfsize: d(5.0),
        epsg,
    }
}

fn writer(min: i32, max: i32) -> CopcWriter {
    CopcWriter::new(source(6, 30, vec![wkt()]), geo(None), 0, min, max).unwrap()
}

fn point(x: i32, y: i32, z: i32, t: f64) -> PointRecord {
    let mut data = vec![0u8; 30];
    data[0..4].copy_from_slice(&x.to_le_bytes());
    data[4..8].copy_from_slice(&y.to_le_bytes());
    data[8..12].copy_from_slice(&z.to_le_bytes());
    PointRecord {
        on_grid: true,
        x,
        y,
        z,
        gps_time: d(t),
        return_number: 1,
        attributes: PointAttributes {
            has_gps_time: true,
            has_color: false,
            has_waveform: false,
            has_nir: false,
            extra_bytes: 0,
        },
        data,
    }
}

/// Writes every chunk that comes as if it took ten bytes.
fn written(w: &mut CopcWriter, chunk: Option<OpenChunk>, pos: &mut u64) -> Option<Entry> {
    chunk.map(|_| {
        *pos += 10;
        w.chunk_written(*pos).unwrap()
    })
}

#[test]
fn node_sizes_have_defaults() {
    assert_eq!(node_sizes(0, 0), Ok((256, 16384)));
    assert_eq!(node_sizes(-5, 1000), Ok((256, 1000)));
    assert_eq!(node_sizes(10, -1), Ok((10, 16384)));
    assert_eq!(node_sizes(1, 2), Ok((1, 2)));
    assert_eq!(node_sizes(2, 2), Err(Error::InvalidNodeSize));
    assert_eq!(node_sizes(300, 256), Err(Error::InvalidNodeSize));
    assert_eq!(node_sizes(0, 256), Err(Error::InvalidNodeSize));
    assert_eq!(node_sizes(16384, 0), Err(Error::InvalidNodeSize));
}

#[test]
fn new_writer_has_a_header_of_las_1_4_without_points() {
    let w = writer(0, 0);
    assert!(!w.is_closed());
    assert_eq!(w.min_node_size(), 256);
    assert_eq!(w.max_node_size(), 16384);
    let h = w.header();
    assert_eq!((h.version_major, h.version_minor), (1, 4));
    assert_eq!(h.header_size, 375);
    assert_eq!(h.point_data_record_format, 0xC6);
    assert_eq!(h.point_data_record_length, 30);
    assert_eq!(h.global_encoding, 17);
    assert_eq!(&h.generating_software[..14], b"COPC-rs v0.5.0");
    assert!(h.generating_software[14..].iter().all(|b| *b == 0));
    assert_eq!(h.number_of_points, 0);
    assert_eq!(h.number_of_points_by_return, [0; 15]);
    assert_eq!(h.bounds, Bounds::new(0, 0, 0, 1000, 1000, 1000));
    assert_eq!(h.start_of_first_evlr, 0);
    assert_eq!(h.number_of_evlrs, 0);
    assert_eq!(w.hierarchy_entries().entries.len(), 0);
    assert_eq!(w.root, Bounds::new(0, 0, 0, 1000, 1000, 1000));
    assert_eq!(w.format, PointFormat { number: 6, extra_bytes: 0 });
}

#[test]
fn new_writer_has_the_info_first_then_the_laz_record_then_what_is_kept() {
    let w = CopcWriter::new(
        source(
            7,
            38,
            vec![
                vlr("copc", 1, vec![3; 160]),
                vlr("mine", 9, vec![1; 5]),
                vlr("laszip encoded", 22204, vec![2; 40]),
                wkt(),
                vlr("LASF_Projection", 34735, vec![4; 8]),
            ],
        ),
        geo(None),
        0,
        0,
        0,
    )
    .unwrap();
    let v = &w.header().vlrs;
    assert_eq!(v.len(), 4);
    assert_eq!((v[0].user_id(), v[0].record_id), ("copc".to_string(), 1));
    assert_eq!(v[0].data, vec![0u8; 160]);
    assert_eq!(
        (v[1].user_id(), v[1].record_id),
        ("laszip encoded".to_string(), 22204)
    );
    // the core, colour, and two extra bytes
    assert_eq!(v[1].data.len(), 34 + 3 * 6);
    assert_eq!((v[2].user_id(), v[2].record_id), ("mine".to_string(), 9));
    assert_eq!(v[2].data, vec![1; 5]);
    assert_eq!(v[3].record_id, 2112);
    assert_eq!(v[3].data, b"PROJCS[]".to_vec());
    let e = &w.header().evlrs;
    assert_eq!(e.len(), 1);
    assert_eq!(e[0].user_id(), "mine");
    // the points start behind the header, the records, and eight bytes
    let records: u64 = v.iter().map(|r| 54 + r.data.len() as u64).sum();
    assert_eq!(length_of_records(v), Some(records));
    assert_eq!(w.compressor.start_pos, 375 + records);
    assert_eq!(w.compressor.chunk_start_pos, 375 + records + 8);
    assert_eq!(w.compressor.record_size, 38);
}

#[test]
fn new_writer_starts_with_the_widest_range_of_times() {
    let w = writer(0, 0);
    let info = w.copc_info();
    assert_eq!(info.center, geo(None).center);
    assert_eq!(info.halfsize, d(5.0));
    assert_eq!(info.spacing, d(0.0));
    assert_eq!(info.root_hier_offset, 0);
    assert_eq!(info.root_hier_size, 0);
    assert_eq!(info.gpstime_minimum, d(f64::MAX));
    assert_eq!(info.gpstime_maximum, d(f64::MIN));
}

#[test]
fn format_one_is_upgraded_when_writing() {
    let w = CopcWriter::new(source(1, 28, vec![wkt()]), geo(None), 0, 0, 0).unwrap();
    assert_eq!(w.header().point_data_record_format, 0xC6);
    assert_eq!(w.header().point_data_record_length, 30);
    let w = CopcWriter::new(source(3, 34, vec![wkt()]), geo(None), 0, 0, 0).unwrap();
    assert_eq!(w.header().point_data_record_format, 0xC7);
    assert_eq!(w.header().point_data_record_length, 36);
}

#[test]
fn root_cube_is_the_cube_around_the_bounds() {
    let mut h = source(6, 30, vec![wkt()]);
    h.bounds = Bounds::new(0, 0, 0, 1000, 10, 100);
    let w = CopcWriter::new(h, geo(None), 0, 0, 0).unwrap();
    assert_eq!(w.root, Bounds::new(0, -495, -450, 1000, 505, 550));
}

#[test]
fn root_on_a_grid_whose_step_differs_between_the_axes() {
    let mut g = geo(None);
    g.scale.z = d(0.001);
    g.root = Bounds::new(0, 0, -4500, 1000, 1000, 5500);
    assert_eq!(
        CopcWriter::root_for(&source(6, 30, vec![wkt()]), &g),
        Some(g.root)
    );
    let mut w = CopcWriter::new(source(6, 30, vec![wkt()]), g, 0, 1, 2).unwrap();
    assert_eq!(w.root, g.root);
    let mut pos = w.compressor.chunk_start_pos;
    for (x, y, z) in [(1, 1, 1), (2, 2, 2), (3, 3, 3), (4, 4, 400)] {
        let chunk = w.write_point(&point(x, y, z, 1.0)).unwrap();
        written(&mut w, chunk, &mut pos);
    }
    // along z a cell at level one is 5000 steps long, along x and y 500
    let keys: Vec<VoxelKey> = w.hierarchy_entries().entries.iter().map(|e| e.key).collect();
    assert_eq!(keys, vec![key(0, 0, 0, 0), key(1, 0, 0, 0)]);
    assert!(w.write_point(&point(4, 4, 999, 1.0)).unwrap().is_none());
    assert_eq!(w.drain().unwrap().unwrap().key, key(1, 0, 0, 1));
    assert_eq!(
        key(1, 0, 0, 0).bounds(&w.root),
        Bounds::new(0, 0, -4500, 500, 500, 500)
    );
    assert_eq!(
        key(1, 1, 1, 1).bounds(&w.root),
        Bounds::new(500, 500, 500, 1000, 1000, 5500)
    );
    // the same step along all axes: the cube around the bounds
    assert_eq!(
        CopcWriter::root_for(&source(6, 30, vec![wkt()]), &geo(None)),
        Some(Bounds::new(0, 0, 0, 1000, 1000, 1000))
    );
}

#[test]
fn a_point_off_the_grid_is_out_of_bounds() {
    let mut w = writer(1, 2);
    let mut p = point(1, 1, 1, 1.0);
    p.on_grid = false;
    assert!(w.write_point(&p).unwrap().is_none());
    assert_eq!(w.header().number_of_points, 0);
    assert_eq!(
        w.outcome(),
        Err(Error::InvalidPoint(PointAddError::PointNotInBounds))
    );
    assert!(w.write_point(&point(1, 1, 1, 1.0)).unwrap().is_none());
    assert_eq!(w.header().number_of_points, 1);
}

#[test]
fn wkt_of_the_epsg_code_is_added_where_there_is_none() {
    let w = CopcWriter::new(source(6, 30, vec![vlr("mine", 9, vec![])]), geo(Some(4326)), 0, 0, 0)
        .unwrap();
    let v = &w.header().vlrs;
    assert_eq!(v.len(), 4);
    assert_eq!(v[3].user_id(), "LASF_Projection");
    assert_eq!(v[3].record_id, 2112);
    assert!(v[3].data.starts_with(b"GEOGCS[\"WGS 84\""));
}

#[test]
fn wkt_among_the_extended_records_counts() {
    let mut h = source(6, 30, vec![]);
    h.evlrs.push(wkt());
    let w = CopcWriter::new(h, geo(None), 0, 0, 0).unwrap();
    assert_eq!(w.header().vlrs.len(), 2);
    assert_eq!(w.header().evlrs.len(), 2);
}

#[test]
fn new_writer_refuses_what_it_cannot_write() {
    let make = |h: Header, g: Georeference, min: i32, max: i32| {
        CopcWriter::new(h, g, 0, min, max).err()
    };
    assert_eq!(
        make(source(6, 30, vec![wkt()]), geo(None), 10, 5),
        Some(Error::InvalidNodeSize)
    );
    assert_eq!(
        make(source(6, 30, vec![]), geo(None), 0, 0),
        Some(Error::InvalidCrs)
    );
    for (major, minor) in [(1u8, 1u8), (1, 0), (1, 5), (2, 4), (0, 2)] {
        let mut h = source(6, 30, vec![]);
        h.version_major = major;
        h.version_minor = minor;
        assert_eq!(make(h, geo(None), 0, 0), Some(Error::WrongLasVersion));
    }
    for minor in [2u8, 3, 4] {
        let mut h = source(6, 30, vec![wkt()]);
        h.version_minor = minor;
        assert_eq!(make(h, geo(None), 0, 0), None);
    }
    assert_eq!(
        make(source(6, 30, vec![]), geo(Some(1)), 0, 0),
        Some(Error::InvalidEPSGCode(1))
    );
    for bad in [0.0, f64::NAN, f64::INFINITY, f64::MIN_POSITIVE / 2.0] {
        let mut g = geo(None);
        g.extents.y = d(bad);
        assert_eq!(
            make(source(6, 30, vec![wkt()]), g, 0, 0),
            Some(Error::InvalidBounds)
        );
    }
    let mut h = source(6, 30, vec![wkt()]);
    h.bounds = Bounds::new(0, 0, 0, -1, 10, 10);
    assert_eq!(make(h, geo(None), 0, 0), Some(Error::InvalidBounds));
    // on a grid whose step differs between the axes the root is given,
    // and must hold the bounds
    let mut g = geo(None);
    g.scale.z = d(0.001);
    assert_eq!(
        make(source(6, 30, vec![wkt()]), g, 0, 0),
        Some(Error::InvalidBounds)
    );
    g.root = Bounds::new(0, 0, 0, 1000, 1000, 999);
    assert_eq!(
        make(source(6, 30, vec![wkt()]), g, 0, 0),
        Some(Error::InvalidBounds)
    );
    g.root = Bounds::new(0, 0, -4500, 1000, 1000, 5500);
    assert_eq!(make(source(6, 30, vec![wkt()]), g, 0, 0), None);
    let mut h = source(6, 30, vec![wkt()]);
    h.bounds = Bounds::new(i64::MIN, 0, 0, i64::MAX, 10, 10);
    assert_eq!(make(h, geo(None), 0, 0), Some(Error::InvalidBounds));
    assert_eq!(
        make(source(2, 26, vec![wkt()]), geo(None), 0, 0),
        Some(Error::UnsupportedPointFormat(2))
    );
    // the node sizes are looked at first, the format last
    assert_eq!(
        make(source(2, 26, vec![]), geo(None), 5, 5),
        Some(Error::InvalidNodeSize)
    );
    assert_eq!(
        make(source(2, 26, vec![]), geo(None), 0, 0),
        Some(Error::InvalidCrs)
    );
}

#[test]
fn few_points_go_the_greedy_way() {
    let mut w = writer(256, 4096);
    assert_eq!(w.write(4351), Ok(Strategy::Greedy));
    assert_eq!(w.write(-1), Ok(Strategy::Greedy));
    assert_eq!(
        w.write(4352),
        Ok(Strategy::Stochastic { hint: 4352, levels: 1 })
    );
    assert_eq!(
        w.write(100_000),
        Ok(Strategy::Stochastic { hint: 100_000, levels: 3 })
    );
    assert_eq!(w.strategy, Strategy::Stochastic { hint: 100_000, levels: 3 });
}

#[test]
fn expected_levels_follow_the_formula() {
    for (n, max) in [
        (100_000, 4096),
        (4352, 4096),
        (1, 16384),
        (16384, 16384),
        (16385, 16384),
        (10_000_000, 16384),
        (i32::MAX, 1),
        (i32::MAX, 16384),
        (50_000, 100),
        (1_365, 1),
    ] {
        let by_formula = ((((3.0 * n as f64) / max as f64 + 1.0).log2() - 2.0) / 2.0).ceil();
        let by_formula = if by_formula < 0.0 { 0 } else { by_formula as i32 };
        assert_eq!(expected_levels(n, max), by_formula, "{} {}", n, max);
    }
    assert_eq!(expected_levels(100_000, 4096), 3);
    assert_eq!(expected_levels(i32::MAX, 1), 16);
    assert_eq!(expected_levels(0, 5), 0);
    assert_eq!(expected_levels(-7, 5), 0);
}

#[test]
fn powers_and_weights() {
    assert_eq!(power_of_four(0), 1);
    assert_eq!(power_of_four(3), 64);
    assert_eq!(power_of_four(31), 1u128 << 62);
    let c = vec![key(1, 0, 0, 0), key(2, 0, 0, 0), key(4, 0, 0, 0)];
    assert_eq!(total_weight(&c), 1 + 4 + 64);
    assert_eq!(total_weight(&vec![]), 0);
}

#[test]
fn a_draw_picks_the_candidate_into_whose_part_it_falls() {
    let c = vec![key(0, 0, 0, 0), key(1, 0, 0, 0), key(2, 0, 0, 0)];
    assert_eq!(choose_weighted(&c, 0), 0);
    for draw in 1..5 {
        assert_eq!(choose_weighted(&c, draw), 1);
    }
    for draw in 5..21 {
        assert_eq!(choose_weighted(&c, draw), 2);
    }
    assert_eq!(choose_weighted(&c, 21), 2);
    assert_eq!(choose_weighted(&c, u128::MAX), 2);
    assert_eq!(choose_weighted(&vec![key(3, 1, 1, 1)], 0), 0);
}

#[test]
fn random_picks_stay_among_the_candidates_and_reach_each() {
    let c = vec![key(0, 0, 0, 0), key(1, 0, 0, 0)];
    let mut seen = [0usize; 2];
    for _ in 0..2000 {
        seen[get_random_weighted_index(&c)] += 1;
    }
    assert!(seen[0] > 0);
    assert!(seen[1] > seen[0]);
}

#[test]
fn the_child_in_the_last_direction_that_holds_the_point_is_picked() {
    let root = Bounds::new(0, 0, 0, 1000, 1000, 1000);
    let k = key(0, 0, 0, 0);
    assert_eq!(pick(&k, &root, 1, 1, 1), key(1, 0, 0, 0));
    assert_eq!(pick(&k, &root, 999, 1, 1), key(1, 1, 0, 0));
    assert_eq!(pick(&k, &root, 1, 999, 1), key(1, 0, 1, 0));
    assert_eq!(pick(&k, &root, 1, 1, 999), key(1, 0, 0, 1));
    // on shared faces the last direction wins
    assert_eq!(pick(&k, &root, 500, 500, 500), key(1, 1, 1, 1));
    assert_eq!(pick(&k, &root, 500, 1, 1), key(1, 1, 0, 0));
    assert_eq!(pick(&key(1, 1, 0, 0), &root, 600, 100, 250), key(2, 2, 0, 1));
}

#[test]
fn greedy_finds_the_first_node_that_is_not_full() {
    let root = Bounds::new(0, 0, 0, 1000, 1000, 1000);
    let mut nodes = NodeTable::new();
    assert_eq!(find_greedy(&nodes, &root, 2, 1, 1, 1), Some(key(0, 0, 0, 0)));
    nodes.insert(&key(0, 0, 0, 0), NodeState { count: 1, slot: 0, written: false });
    assert_eq!(find_greedy(&nodes, &root, 2, 1, 1, 1), Some(key(0, 0, 0, 0)));
    nodes.insert(&key(0, 0, 0, 0), NodeState { count: 2, slot: 0, written: false });
    assert_eq!(find_greedy(&nodes, &root, 2, 1, 1, 1), Some(key(1, 0, 0, 0)));
    nodes.insert(&key(1, 0, 0, 0), NodeState { count: 2, slot: 1, written: false });
    assert_eq!(find_greedy(&nodes, &root, 2, 1, 1, 1), Some(key(2, 0, 0, 0)));
    assert_eq!(find_greedy(&nodes, &root, 2, 999, 1, 1), Some(key(1, 1, 0, 0)));
    assert_eq!(find_greedy(&nodes, &root, 3, 1, 1, 1), Some(key(0, 0, 0, 0)));
}

#[test]
fn greedy_gives_up_below_the_deepest_level() {
    let root = Bounds::new(0, 0, 0, 1000, 1000, 1000);
    let mut nodes = NodeTable::new();
    let mut k = key(0, 0, 0, 0);
    for _ in 0..32 {
        nodes.insert(&k, NodeState { count: 1, slot: 0, written: false });
        if k.level < 31 {
            k = pick(&k, &root, 0, 0, 0);
        }
    }
    assert_eq!(k.level, 31);
    assert_eq!(find_greedy(&nodes, &root, 1, 0, 0, 0), None);
    assert_eq!(find_greedy(&nodes, &root, 2, 0, 0, 0), Some(key(0, 0, 0, 0)));
}

#[test]
fn candidates_are_the_nodes_on_the_way_that_are_not_full() {
    let root = Bounds::new(0, 0, 0, 1000, 1000, 1000);
    let mut nodes = NodeTable::new();
    assert_eq!(
        find_candidates(&nodes, &root, 2, 1, 1, 1, 2),
        vec![key(0, 0, 0, 0), key(1, 0, 0, 0), key(2, 0, 0, 0)]
    );
    assert_eq!(find_candidates(&nodes, &root, 2, 1, 1, 1, 0), vec![key(0, 0, 0, 0)]);
    nodes.insert(&key(1, 0, 0, 0), NodeState { count: 2, slot: 0, written: false });
    assert_eq!(
        find_candidates(&nodes, &root, 2, 1, 1, 1, 2),
        vec![key(0, 0, 0, 0), key(2, 0, 0, 0)]
    );
    nodes.insert(&key(0, 0, 0, 0), NodeState { count: 5, slot: 0, written: false });
    assert_eq!(find_candidates(&nodes, &root, 2, 1, 1, 1, 1), Vec::<VoxelKey>::new());
    assert_eq!(
        find_candidates(&nodes, &root, 2, 999, 999, 999, 1),
        vec![key(1, 1, 1, 1)]
    );
}

#[test]
fn greedy_writing_fills_the_root_first() {
    let mut w = writer(1, 2);
    assert_eq!(w.write(0), Ok(Strategy::Greedy));
    let mut pos = w.compressor.chunk_start_pos;
    let start = pos;
    assert!(w.write_point(&point(1, 1, 1, 10.0)).unwrap().is_none());
    assert_eq!(w.root_point_count(), 1);
    let chunk = w.write_point(&point(2, 2, 2, 5.0)).unwrap().unwrap();
    assert_eq!(chunk.key, key(0, 0, 0, 0));
    assert_eq!(chunk.points, 2);
    assert_eq!(chunk.data.len(), 60);
    assert_eq!(&chunk.data[0..4], &[1, 0, 0, 0]);
    assert_eq!(&chunk.data[30..34], &[2, 0, 0, 0]);
    assert_eq!(
        written(&mut w, Some(chunk), &mut pos),
        Some(Entry { key: key(0, 0, 0, 0), offset: start, byte_size: 10, point_count: 2 })
    );
    assert!(w.write_point(&point(3, 3, 3, 7.0)).unwrap().is_none());
    let chunk = w.write_point(&point(4, 4, 4, 20.0)).unwrap().unwrap();
    assert_eq!(chunk.key, key(1, 0, 0, 0));
    assert_eq!(
        written(&mut w, Some(chunk), &mut pos),
        Some(Entry { key: key(1, 0, 0, 0), offset: start + 10, byte_size: 10, point_count: 2 })
    );
    assert!(w.write_point(&point(999, 999, 999, 1.0)).unwrap().is_none());
    assert_eq!(w.header().number_of_points, 5);
    assert_eq!(w.header().number_of_points_by_return[0], 5);
    assert_eq!(w.header().number_of_points_by_return[1], 0);
    assert_eq!(w.copc_info().gpstime_minimum, d(1.0));
    assert_eq!(w.copc_info().gpstime_maximum, d(20.0));
    assert_eq!(w.root_point_count(), 2);
    assert_eq!(w.outcome(), Ok(()));
    // closing: the chunk of the one node that is not full
    let chunk = w.drain().unwrap().unwrap();
    assert_eq!(chunk.key, key(1, 1, 1, 1));
    assert_eq!(chunk.points, 1);
    assert_eq!(
        written(&mut w, Some(chunk), &mut pos),
        Some(Entry { key: key(1, 1, 1, 1), offset: start + 20, byte_size: 10, point_count: 1 })
    );
    assert!(w.drain().unwrap().is_none());
    assert_eq!(w.compressor.done(), (start - 8, start + 30));
    let closing = w.close(5000, d(0.25)).unwrap();
    assert!(w.is_closed());
    assert_eq!(w.copc_info().root_hier_offset, 5060);
    assert_eq!(w.copc_info().root_hier_size, 96);
    assert_eq!(w.copc_info().spacing, d(0.25));
    assert_eq!(w.header().start_of_first_evlr, 5000);
    assert_eq!(w.header().number_of_evlrs, 2);
    assert_eq!(closing.hierarchy.record_id, 1000);
    assert_eq!(closing.hierarchy.data.len(), 96);
    let page = HierarchyPage::read_from(&closing.hierarchy.data, 0, 96).unwrap();
    assert_eq!(page.entries, w.hierarchy_entries().entries);
    let counted: i64 = page.entries.iter().map(|e| e.point_count as i64).sum();
    assert_eq!(counted, 5);
    assert_eq!(closing.info.record_id, 1);
    assert_eq!(CopcInfo::read_from(&closing.info.data), Ok(*w.copc_info()));
}

#[test]
fn a_single_point_sets_both_ends_of_the_range_of_times() {
    let mut w = writer(1, 2);
    assert!(w.write_point(&point(1, 1, 1, 42.0)).unwrap().is_none());
    assert_eq!(w.copc_info().gpstime_minimum, d(42.0));
    assert_eq!(w.copc_info().gpstime_maximum, d(42.0));
}

#[test]
fn a_closed_writer_takes_nothing() {
    let mut w = writer(1, 2);
    let mut pos = w.compressor.chunk_start_pos;
    assert!(w.write_point(&point(1, 1, 1, 1.0)).unwrap().is_none());
    let chunk = w.drain().unwrap();
    written(&mut w, chunk, &mut pos);
    // once the chunks are handed out no point is taken
    assert_eq!(w.write_point(&point(1, 1, 1, 1.0)).err(), Some(Error::ClosedWriter));
    assert_eq!(w.write(10).err(), Some(Error::ClosedWriter));
    assert!(w.drain().unwrap().is_none());
    assert!(w.close(1000, d(1.0)).is_ok());
    assert_eq!(w.close(1000, d(1.0)).err(), Some(Error::ClosedWriter));
    assert_eq!(w.drain().err(), Some(Error::ClosedWriter));
    assert_eq!(w.write(10).err(), Some(Error::ClosedWriter));
    assert_eq!(w.write_point(&point(1, 1, 1, 1.0)).err(), Some(Error::ClosedWriter));
    assert_eq!(w.write_greedy(&point(1, 1, 1, 1.0)).err(), Some(Error::ClosedWriter));
    assert_eq!(
        w.write_stochastic(&point(1, 1, 1, 1.0), 10, 1).err(),
        Some(Error::ClosedWriter)
    );
    assert_eq!(w.header().number_of_points, 1);
}

#[test]
fn an_empty_iterator_is_told() {
    let mut w = writer(1, 2);
    assert_eq!(w.write(0), Ok(Strategy::Greedy));
    assert_eq!(w.outcome(), Err(Error::EmptyIterator));
    assert!(w.write_point(&point(1, 1, 1, 1.0)).unwrap().is_none());
    assert_eq!(w.outcome(), Ok(()));
}

#[test]
fn failures_are_told_in_words() {
    assert_eq!(
        Error::ClosedWriter.message(),
        "This writer has already been closed"
    );
    assert_eq!(
        Error::EmptyCopcFile.message(),
        "There are no points added to this file"
    );
    assert_eq!(
        Error::WrongCopcExtension.message(),
        "The extension of the file to write does not match .copc.laz"
    );
    assert_eq!(
        Error::InvalidPoint(PointAddError::PointNotInBounds).message(),
        PointAddError::PointNotInBounds.message()
    );
    assert_eq!(
        PointAddError::PointAttributesDoNotMatch(6).message(),
        "The point attributes of a point in the iterator don't match the header"
    );
    assert_eq!(Error::LasZipVlrNotFound.message(), "laszip vlr not found");
    let all = [
        Error::ClosedWriter,
        Error::EmptyCopcFile,
        Error::EmptyIterator,
        Error::WrongCopcExtension,
        Error::WrongLasVersion,
        Error::HeaderNot375Bytes,
        Error::InvalidResolution,
        Error::InvalidBounds,
        Error::InvalidNodeSize,
        Error::InvalidEPSGCode(1),
        Error::InvalidCrs,
        Error::UnsupportedPointFormat(2),
        Error::CopcInfoVlrNotFound,
        Error::EptHierarchyVlrNotFound,
        Error::LasZipVlrNotFound,
        Error::CorruptMetadata,
        Error::InvalidPoint(PointAddError::PointNotInBounds),
        Error::PointNotAddedToAnyNode,
    ];
    let mut messages: Vec<String> = all.iter().map(|e| e.message()).collect();
    assert!(messages.iter().all(|m| !m.is_empty()));
    messages.sort();
    messages.dedup();
    assert_eq!(messages.len(), all.len());
}

#[test]
fn a_file_without_points_cannot_be_closed() {
    let mut w = writer(1, 2);
    assert_eq!(w.drain().err(), Some(Error::EmptyCopcFile));
    assert_eq!(w.close(1000, d(1.0)).err(), Some(Error::EmptyCopcFile));
    assert!(!w.is_closed());
}

#[test]
fn a_file_with_open_chunks_cannot_be_closed() {
    let mut w = writer(1, 2);
    assert!(w.write_point(&point(1, 1, 1, 1.0)).unwrap().is_none());
    assert_eq!(w.close(1000, d(1.0)).err(), Some(Error::PointNotAddedToAnyNode));
    let chunk = w.drain().unwrap();
    assert!(chunk.is_some());
    // the chunk was handed out and is not written yet
    assert_eq!(w.close(1000, d(1.0)).err(), Some(Error::PointNotAddedToAnyNode));
    assert!(!w.is_closed());
}

#[test]
fn a_chunk_that_is_too_large_is_refused() {
    let mut w = writer(1, 2);
    let start = w.compressor.chunk_start_pos;
    assert!(w.write_point(&point(1, 1, 1, 1.0)).unwrap().is_none());
    assert!(w.drain().unwrap().is_some());
    assert_eq!(
        w.chunk_written(start + i32::MAX as u64 + 1).err(),
        Some(Error::InvalidNodeSize)
    );
    assert_eq!(
        w.chunk_written(start + i32::MAX as u64),
        Ok(Entry { key: key(0, 0, 0, 0), offset: start, byte_size: i32::MAX, point_count: 1 })
    );
}

#[test]
fn refused_points_are_noted_and_left_out() {
    let mut w = writer(1, 2);
    assert!(w.write_point(&point(5000, 1, 1, 1.0)).unwrap().is_none());
    assert_eq!(
        w.outcome(),
        Err(Error::InvalidPoint(PointAddError::PointNotInBounds))
    );
    let mut coloured = point(1, 1, 1, 1.0);
    coloured.attributes.has_color = true;
    assert!(w.write_point(&coloured).unwrap().is_none());
    assert_eq!(
        w.outcome(),
        Err(Error::InvalidPoint(PointAddError::PointAttributesDoNotMatch(6)))
    );
    // a point out of bounds does not take the place of the mismatch
    assert!(w.write_point(&point(-1, 1, 1, 1.0)).unwrap().is_none());
    assert_eq!(
        w.outcome(),
        Err(Error::InvalidPoint(PointAddError::PointAttributesDoNotMatch(6)))
    );
    let mut short = point(1, 1, 1, 1.0);
    short.data.pop();
    assert!(w.write_point(&short).unwrap().is_none());
    assert_eq!(w.header().number_of_points, 0);
    assert_eq!(w.offered, 4);
    // the points that fit are written all the same
    assert!(w.write_point(&point(1, 1, 1, 1.0)).unwrap().is_none());
    assert_eq!(w.header().number_of_points, 1);
    assert_eq!(
        w.outcome(),
        Err(Error::InvalidPoint(PointAddError::PointAttributesDoNotMatch(6)))
    );
}

#[test]
fn points_on_the_faces_of_the_root_are_taken() {
    let mut w = writer(1, 100);
    for (x, y, z) in [(0, 0, 0), (1000, 1000, 1000), (0, 1000, 500)] {
        assert!(w.write_point(&point(x, y, z, 1.0)).unwrap().is_none());
    }
    assert_eq!(w.outcome(), Ok(()));
    assert_eq!(w.header().number_of_points, 3);
    assert_eq!(w.outcome(), Ok(()));
}

#[test]
fn header_counts_returns_and_grows_its_bounds() {
    let mut h = source(6, 30, vec![]);
    h.number_of_points = 0;
    h.number_of_points_by_return = [0; 15];
    h.bounds = Bounds::default();
    h.add_point(1, 2, 3, 1);
    h.add_point(-1, 5, 3, 15);
    h.add_point(0, 0, 0, 0);
    h.add_point(0, 0, 9, 16);
    assert_eq!(h.number_of_points, 4);
    let mut counts = [0u64; 15];
    counts[0] = 1;
    counts[14] = 1;
    assert_eq!(h.number_of_points_by_return, counts);
    assert_eq!(h.bounds, Bounds::new(-1, 0, 0, 1, 5, 9));
    assert!(h.has_room());
}

/// A small generator of numbers that look random.
fn next(state: &mut u64) -> u64 {
    *state = state
        .wrapping_mul(6364136223846793005)
        .wrapping_add(1442695040888963407);
    *state >> 33
}

fn write_all(n: usize, hint: i32, min: i32, max: i32) -> (CopcWriter, Vec<f64>) {
    let mut w = writer(min, max);
    w.write(hint).unwrap();
    let mut pos = w.compressor.chunk_start_pos;
    let mut state = 7u64;
    let mut times = vec![];
    for _ in 0..n {
        let x = (next(&mut state) % 1001) as i32;
        let y = (next(&mut state) % 1001) as i32;
        let z = (next(&mut state) % 1001) as i32;
        let t = (next(&mut state) % 1_000_000) as f64 / 1_000_000.0;
        times.push(t);
        let chunk = w.write_point(&point(x, y, z, t)).unwrap();
        if let Some(c) = &chunk {
            assert!(c.points >= max);
            assert_eq!(c.data.len(), 30 * c.points as usize);
            let cell = c.key.bounds(&w.root);
            for record in c.data.chunks(30) {
                let x = i32::from_le_bytes(record[0..4].try_into().unwrap());
                let y = i32::from_le_bytes(record[4..8].try_into().unwrap());
                let z = i32::from_le_bytes(record[8..12].try_into().unwrap());
                assert!(cell.contains_point(x as i64, y as i64, z as i64));
            }
        }
        written(&mut w, chunk, &mut pos);
    }
    loop {
        let chunk = w.drain().unwrap();
        if chunk.is_none() {
            break;
        }
        let c = chunk.as_ref().unwrap();
        let cell = c.key.bounds(&w.root);
        for record in c.data.chunks(30) {
            let x = i32::from_le_bytes(record[0..4].try_into().unwrap());
            let y = i32::from_le_bytes(record[4..8].try_into().unwrap());
            let z = i32::from_le_bytes(record[8..12].try_into().unwrap());
            assert!(cell.contains_point(x as i64, y as i64, z as i64));
        }
        written(&mut w, chunk, &mut pos);
    }
    w.close(pos + 100, d(1.0)).unwrap();
    (w, times)
}

fn check_written(w: &CopcWriter, times: &Vec<f64>, n: usize) {
    assert_eq!(w.header().number_of_points, n as u64);
    let least = times.iter().cloned().fold(f64::INFINITY, f64::min);
    let most = times.iter().cloned().fold(f64::NEG_INFINITY, f64::max);
    assert!(f64::from_bits(w.copc_info().gpstime_minimum.to_bits()) <= least);
    assert!(f64::from_bits(w.copc_info().gpstime_maximum.to_bits()) >= most);
    let entries = &w.hierarchy_entries().entries;
    let counted: u64 = entries.iter().map(|e| e.point_count as u64).sum();
    assert_eq!(counted, n as u64);
    // each node has one entry, and the chunks follow each other in the file
    let mut keys: Vec<u128> = entries.iter().map(|e| e.key.id()).collect();
    keys.sort();
    keys.dedup();
    assert_eq!(keys.len(), entries.len());
    let chunks: Vec<&Entry> = entries.iter().filter(|e| e.point_count > 0).collect();
    for pair in chunks.windows(2) {
        assert_eq!(pair[0].offset + pair[0].byte_size as u64, pair[1].offset);
    }
    // a node without points has an entry without a chunk
    for e in entries.iter().filter(|e| e.point_count == 0) {
        assert_eq!((e.offset, e.byte_size), (0, 0));
    }
    // the hierarchy leads to each of its nodes
    for e in entries.iter().filter(|e| e.key.level > 0) {
        let above = VoxelKey {
            level: e.key.level - 1,
            x: e.key.x / 2,
            y: e.key.y / 2,
            z: e.key.z / 2,
        };
        assert!(entries.iter().any(|a| a.key == above));
    }
    assert_eq!(w.copc_info().root_hier_size, 32 * entries.len() as u64);
    // a reader that asks for everything finds every point
    let closing_page = HierarchyPage { entries: entries.clone() };
    let mut loader = HierarchyLoader::new(closing_page);
    assert_eq!(loader.step(), Ok(LoadStep::Done));
    let index = loader.finish();
    let query = Query {
        root: w.root,
        level_min: 0,
        level_max: i32::MAX as i64,
        within: BoundsSelection::All,
    };
    let nodes = load_octree_for_query(&index, &query);
    assert_eq!(nodes.len(), chunks.len());
    let it = PointIter::new(nodes, BoundsSelection::All);
    assert_eq!(it.size_hint(), n as u128);
}

#[test]
fn a_point_deep_in_the_octree_is_led_to() {
    for _ in 0..20 {
        let mut w = writer(1, 2);
        let mut pos = w.compressor.chunk_start_pos;
        w.write(1_000_000).unwrap();
        let chunk = w.write_point(&point(1, 1, 1, 3.0)).unwrap();
        written(&mut w, chunk, &mut pos);
        let chunk = w.drain().unwrap();
        written(&mut w, chunk, &mut pos);
        assert!(w.drain().unwrap().is_none());
        w.close(pos, d(1.0)).unwrap();
        check_written(&w, &vec![3.0], 1);
        let entries = &w.hierarchy_entries().entries;
        let deepest = entries.iter().map(|e| e.key.level).max().unwrap();
        assert_eq!(entries.len() as i32, deepest + 1);
        assert_eq!(entries.iter().filter(|e| e.point_count == 1).count(), 1);
    }
}

#[test]
fn a_hundred_thousand_points_the_stochastic_way() {
    let (w, times) = write_all(100_000, 100_000, 256, 4096);
    assert_eq!(w.strategy, Strategy::Stochastic { hint: 100_000, levels: 3 });
    check_written(&w, &times, 100_000);
    assert!(w.hierarchy_entries().entries.iter().all(|e| e.key.level <= 3));
    assert!(w.hierarchy_entries().entries.iter().any(|e| e.key.level == 3));
}

#[test]
fn more_points_than_expected_go_the_greedy_way() {
    let (w, times) = write_all(30_000, 5_000, 100, 1000);
    assert_eq!(w.strategy, Strategy::Stochastic { hint: 5_000, levels: 1 });
    check_written(&w, &times, 30_000);
    assert_eq!(w.root_point_count(), 1000);
}

#[test]
fn ten_thousand_points_the_greedy_way() {
    let (w, times) = write_all(10_000, 0, 10, 500);
    assert_eq!(w.strategy, Strategy::Greedy);
    check_written(&w, &times, 10_000);
    assert_eq!(w.root_point_count(), 500);
    assert_eq!(w.hierarchy_entries().entries[0].key, key(0, 0, 0, 0));
    assert_eq!(w.hierarchy_entries().entries[0].point_count, 500);
}

use copc_rs::bounds::Bounds;
use copc_rs::double::{Double, Vector};
use copc_rs::error::Error;
use copc_rs::header::Header;
use copc_rs::hierarchy::{Entry, HierarchyPage};
use copc_rs::index::{HierarchyIndex, HierarchyLoader, LoadStep};
use copc_rs::info::CopcInfo;
use copc_rs::iter::{PointIter, PointStep};
use copc_rs::key::VoxelKey;
use copc_rs::node::OctreeNode;
use copc_rs::query::{level_range, load_octree_for_query, BoundsSelection, LodSelection, Query};
use copc_rs::reader::CopcReader;

fn d(v: f64) -> Double {
    Double::from_bits(v.to_bits())
}

fn entry(level: i32, x: i32, y: i32, z: i32, offset: u64, point_count: i32) -> Entry {
    Entry {
        key: VoxelKey { level, x, y, z },
        offset,
        byte_size: 10,
        point_count,
    }
}

fn entries() -> Vec<Entry> {
    vec![
        entry(0, 0, 0, 0, 1000, 10),
        entry(1, 0, 0, 0, 500, 5),
        entry(1, 1, 1, 1, 2000, 7),
        entry(2, 0, 0, 0, 100, 3),
        entry(2, 3, 3, 3, 0, 0),
        entry(2, 2, 2, 2, 3000, 4),
        entry(3, 7, 7, 7, 4000, 2),
        // the parent of this one is missing
        entry(3, 0, 0, 7, 5000, 9),
    ]
}

fn index() -> HierarchyIndex {
    let mut index = HierarchyIndex::new();
    for e in entries() {
        index.insert(e);
    }
    index
}

fn root() -> Bounds {
    Bounds::new(0, 0, 0, 1024, 1024, 1024)
}

fn query(level_min: i64, level_max: i64, within: BoundsSelection) -> Query {
    Query {
        root: root(),
        level_min,
        level_max,
        within,
    }
}

fn offsets(nodes: &Vec<OctreeNode>) -> Vec<u64> {
    nodes.iter().map(|n| n.entry.offset).collect()
}

fn header() -> Header {
    Header {
        version_major: 1,
        version_minor: 4,
        header_size: 375,
        point_data_record_format: 0xC6,
        point_data_record_length: 30,
        global_encoding: 16,
        generating_software: [0; 32],
        number_of_points: 40,
        number_of_points_by_return: [0; 15],
        bounds: root(),
        start_of_first_evlr: 0,
        number_of_evlrs: 0,
        vlrs: vec![],
        evlrs: vec![],
    }
}

fn info(spacing: f64) -> CopcInfo {
    CopcInfo {
        center: Vector {
            x: d(512.0),
            y: d(512.0),
            z: d(512.0),
        },
        halfsize: d(512.0),
        spacing: d(spacing),
        root_hier_offset: 0,
        root_hier_size: 0,
        gpstime_minimum: d(0.0),
        gpstime_maximum: d(1.0),
    }
}

#[test]
fn levels_of_the_plain_selections() {
    let s = d(8.0);
    assert_eq!(level_range(&LodSelection::All, &s), Ok((0, i32::MAX as i64)));
    assert_eq!(level_range(&LodSelection::Level(3), &s), Ok((3, 4)));
    assert_eq!(
        level_range(&LodSelection::Level(i32::MAX), &s),
        Ok((i32::MAX as i64, i32::MAX as i64 + 1))
    );
    assert_eq!(level_range(&LodSelection::LevelMinMax(1, 5), &s), Ok((1, 5)));
}

#[test]
fn levels_of_a_resolution() {
    // max(1, ceil(log2(spacing / resolution)) + 1)
    let cases = [
        (8.0, 1.0, 4),
        (8.0, 3.0, 3),
        (3.0, 1.0, 3),
        (1.0, 100.0, 1),
        (1.0, 1.0, 1),
        (1.0, 0.75, 2),
        (1.0, 0.5, 2),
        (1.0, 0.49, 3),
        (16.0, 0.01, 12),
        (1e-3, 1e3, 1),
    ];
    for (spacing, resolution, end) in cases {
        let by_formula = 1.max((spacing / resolution as f64).log2().ceil() as i64 + 1);
        assert_eq!(by_formula, end, "{} {}", spacing, resolution);
        assert_eq!(
            level_range(&LodSelection::Resolution(d(resolution)), &d(spacing)),
            Ok((0, end)),
            "{} {}",
            spacing,
            resolution
        );
    }
}

#[test]
fn levels_of_a_resolution_beyond_what_a_quotient_holds() {
    // log2(1e600) is 1993.2: 1994 halvings, and with the root 1995 levels
    assert_eq!(
        level_range(&LodSelection::Resolution(d(1e-300)), &d(1e300)),
        Ok((0, 1995))
    );
}

#[test]
fn resolution_must_be_a_normal_number_above_zero() {
    for r in [
        0.0,
        -0.0,
        -1.0,
        f64::NAN,
        f64::INFINITY,
        f64::NEG_INFINITY,
        f64::MIN_POSITIVE / 2.0,
    ] {
        assert_eq!(
            level_range(&LodSelection::Resolution(d(r)), &d(8.0)),
            Err(Error::InvalidResolution),
            "{}",
            r
        );
    }
}

#[test]
fn spacing_that_is_no_normal_number_above_zero() {
    let r = LodSelection::Resolution(d(1.0));
    for s in [0.0, -4.0, f64::NAN, f64::NEG_INFINITY, f64::MIN_POSITIVE / 2.0] {
        assert_eq!(level_range(&r, &d(s)), Ok((0, 1)), "{}", s);
    }
    assert_eq!(level_range(&r, &d(f64::INFINITY)), Ok((0, i32::MAX as i64)));
}

#[test]
fn all_levels_and_all_space() {
    let nodes = load_octree_for_query(&index(), &query(0, i32::MAX as i64, BoundsSelection::All));
    assert_eq!(offsets(&nodes), vec![4000, 3000, 2000, 1000, 500, 100]);
    assert_eq!(nodes[0].entry, entry(3, 7, 7, 7, 4000, 2));
    assert_eq!(nodes[0].bounds, Bounds::new(896, 896, 896, 1024, 1024, 1024));
    assert_eq!(nodes[0].children()[7], VoxelKey { level: 4, x: 15, y: 15, z: 15 });
    assert_eq!(OctreeNode::new().entry, Entry::default());
    assert!(nodes[3].is_full(10));
    assert!(!nodes[3].is_full(11));
    assert_eq!(nodes[3].bounds, root());
}

#[test]
fn one_level() {
    let nodes = load_octree_for_query(&index(), &query(1, 2, BoundsSelection::All));
    assert_eq!(offsets(&nodes), vec![2000, 500]);
    let nodes = load_octree_for_query(&index(), &query(0, 1, BoundsSelection::All));
    assert_eq!(offsets(&nodes), vec![1000]);
}

#[test]
fn deeper_queries_hold_the_shallower_ones() {
    let mut before: Vec<u64> = vec![];
    for end in 0..6 {
        let nodes = load_octree_for_query(&index(), &query(0, end, BoundsSelection::All));
        let now = offsets(&nodes);
        for o in before.iter() {
            assert!(now.contains(o));
        }
        before = now;
    }
    assert_eq!(before.len(), 6);
}

#[test]
fn a_box_at_the_corner_of_the_root() {
    let q = BoundsSelection::Within(Bounds::new(0, 0, 0, 10, 10, 10));
    let nodes = load_octree_for_query(&index(), &query(0, i32::MAX as i64, q));
    assert_eq!(offsets(&nodes), vec![1000, 500, 100]);
}

#[test]
fn a_box_on_a_shared_face_reaches_both_sides() {
    let q = BoundsSelection::Within(Bounds::new(512, 512, 512, 512, 512, 512));
    let nodes = load_octree_for_query(&index(), &query(0, 2, q));
    assert_eq!(offsets(&nodes), vec![2000, 1000, 500]);
}

#[test]
fn wider_boxes_hold_the_narrower_ones() {
    let boxes = [
        Bounds::new(600, 600, 600, 610, 610, 610),
        Bounds::new(500, 500, 500, 700, 700, 700),
        Bounds::new(0, 0, 0, 900, 900, 900),
        Bounds::new(-5, -5, -5, 2000, 2000, 2000),
    ];
    let mut before: Vec<u64> = vec![];
    for b in boxes {
        let nodes =
            load_octree_for_query(&index(), &query(0, i32::MAX as i64, BoundsSelection::Within(b)));
        let now = offsets(&nodes);
        for o in before.iter() {
            assert!(now.contains(o));
        }
        before = now;
    }
    assert_eq!(before, vec![4000, 3000, 2000, 1000, 500, 100]);
}

#[test]
fn a_box_apart_from_the_root_reaches_nothing() {
    let q = BoundsSelection::Within(Bounds::new(2000, 0, 0, 3000, 10, 10));
    let nodes = load_octree_for_query(&index(), &query(0, i32::MAX as i64, q));
    assert_eq!(nodes.len(), 0);
    let mut it = PointIter::new(nodes, q);
    assert_eq!(it.size_hint(), 0);
    assert_eq!(it.advance(), PointStep::End);
}

#[test]
fn an_empty_hierarchy_reaches_nothing() {
    let nodes =
        load_octree_for_query(&HierarchyIndex::new(), &query(0, 10, BoundsSelection::All));
    assert_eq!(nodes.len(), 0);
}

#[test]
fn index_finds_entries_by_key() {
    let index = index();
    assert_eq!(
        index.get(&VoxelKey { level: 1, x: 1, y: 1, z: 1 }),
        Some(entry(1, 1, 1, 1, 2000, 7))
    );
    assert_eq!(index.get(&VoxelKey { level: 1, x: 1, y: 1, z: 0 }), None);
    let mut index = index;
    index.insert(entry(1, 1, 1, 1, 1, 1));
    assert_eq!(
        index.get(&VoxelKey { level: 1, x: 1, y: 1, z: 1 }),
        Some(entry(1, 1, 1, 1, 1, 1))
    );
}

#[test]
fn loader_asks_for_the_pages_behind_page_entries() {
    let page_entry = Entry {
        key: VoxelKey { level: 1, x: 1, y: 0, z: 0 },
        offset: 7777,
        byte_size: 64,
        point_count: -1,
    };
    let root_page = HierarchyPage {
        entries: vec![entry(0, 0, 0, 0, 1000, 10), page_entry, entry(1, 0, 0, 0, 500, 5)],
    };
    let mut loader = HierarchyLoader::new(root_page);
    assert_eq!(
        loader.step(),
        Ok(LoadStep::Fetch { offset: 7777, byte_size: 64 })
    );
    assert_eq!(loader.pending.len(), 1);
    loader.supply(HierarchyPage {
        entries: vec![entry(1, 1, 0, 0, 600, 6), entry(2, 2, 0, 0, 700, 7)],
    });
    assert_eq!(loader.step(), Ok(LoadStep::Done));
    assert_eq!(loader.step(), Ok(LoadStep::Done));
    let index = loader.finish();
    for e in [
        entry(0, 0, 0, 0, 1000, 10),
        entry(1, 0, 0, 0, 500, 5),
        entry(1, 1, 0, 0, 600, 6),
        entry(2, 2, 0, 0, 700, 7),
    ] {
        assert_eq!(index.get(&e.key), Some(e));
    }
}

#[test]
fn loader_refuses_a_page_of_negative_size() {
    let page_entry = Entry {
        key: VoxelKey { level: 1, x: 1, y: 0, z: 0 },
        offset: 7777,
        byte_size: -64,
        point_count: -1,
    };
    let mut loader = HierarchyLoader::new(HierarchyPage { entries: vec![page_entry] });
    assert_eq!(loader.step(), Err(Error::CorruptMetadata));
}

#[test]
fn iterator_reads_the_file_forwards() {
    let nodes = load_octree_for_query(&index(), &query(0, i32::MAX as i64, BoundsSelection::All));
    let mut it = PointIter::new(nodes, BoundsSelection::All);
    assert_eq!(it.size_hint(), 31);
    let mut seeks = vec![];
    let mut yielded = 0;
    loop {
        match it.advance() {
            PointStep::End => break,
            PointStep::Read { seek } => {
                if let Some(offset) = seek {
                    seeks.push(offset);
                }
                if it.offer(1, 2, 3) {
                    yielded += 1;
                }
            }
        }
    }
    assert_eq!(seeks, vec![100, 500, 1000, 2000, 3000, 4000]);
    assert_eq!(yielded, 31);
    assert_eq!(it.size_hint(), 0);
}

#[test]
fn iterator_hands_out_the_points_in_the_box() {
    let b = BoundsSelection::Within(Bounds::new(0, 0, 0, 10, 10, 10));
    let nodes = load_octree_for_query(&index(), &query(0, 1, b));
    let mut it = PointIter::new(nodes, b);
    assert_eq!(it.advance(), PointStep::Read { seek: Some(1000) });
    assert!(it.offer(0, 0, 0));
    assert_eq!(it.advance(), PointStep::Read { seek: None });
    assert!(it.offer(10, 10, 10));
    assert_eq!(it.advance(), PointStep::Read { seek: None });
    assert!(!it.offer(11, 10, 10));
    assert!(!it.offer(5, -1, 5));
    assert_eq!(it.size_hint(), 6);
}

#[test]
fn reader_answers_queries() {
    let reader = CopcReader::new(header(), info(8.0), root(), index()).unwrap();
    assert_eq!(reader.header().number_of_points, 40);
    assert_eq!(reader.copc_info().spacing, d(8.0));
    let it = reader.points(LodSelection::Level(0), BoundsSelection::All).unwrap();
    assert_eq!(it.size_hint(), 10);
    assert_eq!(offsets(&it.nodes), vec![1000]);
    let it = reader.points(LodSelection::All, BoundsSelection::All).unwrap();
    assert_eq!(it.size_hint(), 31);
    let it = reader
        .points(LodSelection::LevelMinMax(1, 3), BoundsSelection::All)
        .unwrap();
    assert_eq!(offsets(&it.nodes), vec![3000, 2000, 500, 100]);
    // spacing 8 and resolution 4: one halving, so the levels 0 and 1
    let it = reader
        .points(LodSelection::Resolution(d(4.0)), BoundsSelection::All)
        .unwrap();
    assert_eq!(offsets(&it.nodes), vec![2000, 1000, 500]);
    assert_eq!(
        reader
            .points(LodSelection::Resolution(d(-4.0)), BoundsSelection::All)
            .err(),
        Some(Error::InvalidResolution)
    );
}

#[test]
fn reader_wants_a_header_of_las_1_4() {
    let mut h = header();
    h.version_minor = 3;
    let r = CopcReader::new(h, info(8.0), root(), index());
    assert_eq!(r.err(), Some(Error::WrongLasVersion));
    let mut h = header();
    h.version_major = 2;
    let r = CopcReader::new(h, info(8.0), root(), index());
    assert_eq!(r.err(), Some(Error::WrongLasVersion));
    let mut h = header();
    h.header_size = 227;
    let r = CopcReader::new(h, info(8.0), root(), index());
    assert_eq!(r.err(), Some(Error::HeaderNot375Bytes));
}

#[test]
fn a_box_around_everything_reaches_every_node_with_points() {
    let q = BoundsSelection::Within(Bounds::new(
        i64::MIN,
        i64::MIN,
        i64::MIN,
        i64::MAX,
        i64::MAX,
        i64::MAX,
    ));
    let nodes = load_octree_for_query(&index(), &query(0, i32::MAX as i64, q));
    assert_eq!(offsets(&nodes), vec![4000, 3000, 2000, 1000, 500, 100]);
    let mut it = PointIter::new(nodes, q);
    assert_eq!(it.size_hint(), 31);
    let mut yielded = 0;
    while let PointStep::Read { .. } = it.advance() {
        if it.offer(i32::MIN, 0, i32::MAX) {
            yielded += 1;
        }
    }
    assert_eq!(yielded, 31);
}

#[test]
fn reader_wants_a_box() {
    for bad in [
        Bounds::new(0, 0, 0, -1, 10, 10),
        Bounds::new(0, 0, 0, 10, -1, 10),
        Bounds::new(0, 0, 0, 10, 10, -1),
    ] {
        let r = CopcReader::new(header(), info(8.0), bad, index());
        assert_eq!(r.err(), Some(Error::InvalidBounds));
    }
}

#[test]
fn reader_on_a_grid_whose_step_differs_between_the_axes() {
    // the root cube of the world on a grid that is ten times as fine
    // along z
    let root = Bounds::new(0, 0, 0, 1024, 1024, 10240);
    let reader = CopcReader::new(header(), info(8.0), root, index()).unwrap();
    let it = reader.points(LodSelection::All, BoundsSelection::All).unwrap();
    assert_eq!(offsets(&it.nodes), vec![4000, 3000, 2000, 1000, 500, 100]);
    assert_eq!(it.nodes[0].bounds, Bounds::new(896, 896, 8960, 1024, 1024, 10240));
    // a box high up along z touches the upper cells alone
    let high = BoundsSelection::Within(Bounds::new(0, 0, 6000, 1024, 1024, 7000));
    let it = reader.points(LodSelection::All, high).unwrap();
    assert_eq!(offsets(&it.nodes), vec![3000, 2000, 1000]);
    let low = BoundsSelection::Within(Bounds::new(0, 0, 600, 1024, 1024, 700));
    let it = reader.points(LodSelection::All, low).unwrap();
    assert_eq!(offsets(&it.nodes), vec![1000, 500, 100]);
}

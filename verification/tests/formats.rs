use copc_rs::error::Error;
use copc_rs::header::{
    compressed_format_byte, is_point_format_compressed, laz_items,
    point_format_id_compressed_to_uncompressd, point_format_id_uncompressed_to_compressed,
    upgrade_format, with_wkt_bit, LazItem, PointAttributes, PointFormat, UpgradePdrf,
};
use copc_rs::path::check_extension;

#[test]
fn compressed_bit_is_the_highest() {
    assert!(!is_point_format_compressed(6));
    assert!(is_point_format_compressed(0x86));
    assert!(is_point_format_compressed(0xC6));
    assert!(!is_point_format_compressed(0x46));
    assert_eq!(point_format_id_compressed_to_uncompressd(0xC6), 6);
    assert_eq!(point_format_id_compressed_to_uncompressd(0x83), 3);
    assert_eq!(point_format_id_compressed_to_uncompressd(7), 7);
    assert_eq!(point_format_id_uncompressed_to_compressed(7), 0x87);
    assert_eq!(point_format_id_uncompressed_to_compressed(0x87), 0x87);
}

#[test]
fn upgrades_are_named() {
    assert_eq!(UpgradePdrf::for_format(1), Ok(UpgradePdrf::From1to6));
    assert_eq!(UpgradePdrf::for_format(3), Ok(UpgradePdrf::From3to7));
    for n in [6u8, 7, 8, 0xC6, 0x87] {
        assert_eq!(UpgradePdrf::for_format(n), Ok(UpgradePdrf::NoUpgrade));
    }
    for n in [0u8, 2, 4, 5, 9, 10, 11, 63] {
        assert_eq!(
            UpgradePdrf::for_format(n),
            Err(Error::UnsupportedPointFormat(n))
        );
    }
    assert_eq!(
        UpgradePdrf::From1to6.log_string(),
        "Upgrading LAS PDRF from 1 to 6"
    );
    assert_eq!(
        UpgradePdrf::From3to7.log_string(),
        "Upgrading LAS PDRF from 3 to 7"
    );
    assert_eq!(
        UpgradePdrf::NoUpgrade.log_string(),
        "COPC supports the given PDRF"
    );
}

#[test]
fn format_one_becomes_six_and_grows_by_two_bytes() {
    let f = upgrade_format(1, 28).unwrap();
    assert_eq!(f, PointFormat { number: 6, extra_bytes: 0 });
    assert_eq!(f.len(), 30);
    assert_eq!(compressed_format_byte(&f), 0xC6);
    let f = upgrade_format(1, 33).unwrap();
    assert_eq!(f, PointFormat { number: 6, extra_bytes: 5 });
    assert_eq!(f.len(), 35);
}

#[test]
fn format_three_becomes_seven_and_grows_by_two_bytes() {
    let f = upgrade_format(0x83, 34).unwrap();
    assert_eq!(f, PointFormat { number: 7, extra_bytes: 0 });
    assert_eq!(f.len(), 36);
    assert_eq!(compressed_format_byte(&f), 0xC7);
}

#[test]
fn formats_six_to_eight_stay() {
    assert_eq!(upgrade_format(6, 30), Ok(PointFormat { number: 6, extra_bytes: 0 }));
    assert_eq!(upgrade_format(7, 40), Ok(PointFormat { number: 7, extra_bytes: 4 }));
    assert_eq!(upgrade_format(0xC8, 38), Ok(PointFormat { number: 8, extra_bytes: 0 }));
}

#[test]
fn other_formats_and_wrong_lengths_are_refused() {
    assert_eq!(upgrade_format(0, 20), Err(Error::UnsupportedPointFormat(0)));
    assert_eq!(upgrade_format(2, 26), Err(Error::UnsupportedPointFormat(2)));
    assert_eq!(upgrade_format(10, 67), Err(Error::UnsupportedPointFormat(10)));
    assert_eq!(upgrade_format(6, 29), Err(Error::UnsupportedPointFormat(6)));
    assert_eq!(upgrade_format(1, 27), Err(Error::UnsupportedPointFormat(1)));
    assert_eq!(upgrade_format(1, 65534), Err(Error::UnsupportedPointFormat(1)));
    assert!(upgrade_format(1, 65533).is_ok());
    assert!(upgrade_format(6, 65535).is_ok());
}

#[test]
fn items_follow_the_format() {
    assert_eq!(
        laz_items(&PointFormat { number: 6, extra_bytes: 0 }),
        vec![LazItem::Point14]
    );
    assert_eq!(
        laz_items(&PointFormat { number: 7, extra_bytes: 0 }),
        vec![LazItem::Point14, LazItem::RGB14]
    );
    assert_eq!(
        laz_items(&PointFormat { number: 8, extra_bytes: 2 }),
        vec![LazItem::Point14, LazItem::RGBNIR14, LazItem::Byte14(2)]
    );
    assert_eq!(
        laz_items(&PointFormat { number: 6, extra_bytes: 9 }),
        vec![LazItem::Point14, LazItem::Byte14(9)]
    );
}

#[test]
fn points_match_their_format() {
    let f = PointFormat { number: 7, extra_bytes: 2 };
    let p = PointAttributes {
        has_gps_time: true,
        has_color: true,
        has_waveform: false,
        has_nir: false,
        extra_bytes: 2,
    };
    assert!(f.matches(&p));
    assert!(!f.matches(&PointAttributes { has_gps_time: false, ..p }));
    assert!(!f.matches(&PointAttributes { has_color: false, ..p }));
    assert!(!f.matches(&PointAttributes { has_waveform: true, ..p }));
    assert!(!f.matches(&PointAttributes { has_nir: true, ..p }));
    assert!(!f.matches(&PointAttributes { extra_bytes: 0, ..p }));
    assert!(f.has_color());
    assert!(!f.has_nir());
    assert!(PointFormat { number: 8, extra_bytes: 0 }.has_nir());
}

#[test]
fn wkt_bit_is_set_once() {
    assert_eq!(with_wkt_bit(0), 16);
    assert_eq!(with_wkt_bit(16), 16);
    assert_eq!(with_wkt_bit(1), 17);
    assert_eq!(with_wkt_bit(0xFFEF), 0xFFFF);
}

#[test]
fn extension_must_be_copc_laz() {
    assert_eq!(check_extension("out.laz"), Err(Error::WrongCopcExtension));
    assert_eq!(check_extension("out.COPC.LAZ"), Ok(()));
    assert_eq!(check_extension("out.copc.laz"), Ok(()));
    assert_eq!(check_extension("a.b.Copc.Laz"), Ok(()));
    assert_eq!(check_extension("out.copc.las"), Err(Error::WrongCopcExtension));
    assert_eq!(check_extension("out.copc"), Err(Error::WrongCopcExtension));
    assert_eq!(check_extension("out"), Err(Error::WrongCopcExtension));
    assert_eq!(check_extension(""), Err(Error::WrongCopcExtension));
    assert_eq!(check_extension(".copc.laz"), Err(Error::WrongCopcExtension));
    assert_eq!(check_extension(".laz"), Err(Error::WrongCopcExtension));
    assert_eq!(check_extension("out.copc.laz.bak"), Err(Error::WrongCopcExtension));
    assert_eq!(check_extension("outcopc.laz"), Err(Error::WrongCopcExtension));
    assert_eq!(check_extension("..copc.laz"), Ok(()));
}

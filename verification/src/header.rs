//! What the library reads and writes of a LAS header: the point format, the
//! counters, the bounds and the records.

use crate::bounds::Bounds;
use crate::error::Error;
use crate::vlr::Vlr;
use vstd::prelude::*;

verus! {

/// The bit of the point format byte that marks compressed points.
pub const IS_COMPRESSED_MASK: u8 = 0x80;

/// The number of bytes of a LAS 1.4 header.
pub const HEADER_BYTES: u16 = 375;

/// The bit of the global encoding that says the CRS is given as WKT.
pub const WKT_BIT: u16 = 0b10000;

/// Whether the point format byte marks compressed points.
pub fn is_point_format_compressed(point_format_id: u8) -> (r: bool)
    ensures
        r == (point_format_id >= 128),
{
    assert((point_format_id & 0x80 == 0x80) == (point_format_id >= 128)) by (bit_vector);
    point_format_id & IS_COMPRESSED_MASK == IS_COMPRESSED_MASK
}

/// The number of the point format: the byte without its two highest bits.
pub fn point_format_id_compressed_to_uncompressd(point_format_id: u8) -> (r: u8)
    ensures
        r == point_format_id % 64,
{
    assert(point_format_id & 0x3f == point_format_id % 64) by (bit_vector);
    point_format_id & 0x3f
}

/// The point format byte with the bit for compressed points set.
pub fn point_format_id_uncompressed_to_compressed(point_format_id: u8) -> (r: u8)
    ensures
        r == (if point_format_id >= 128 {
            point_format_id as int
        } else {
            point_format_id + 128
        }),
{
    assert(point_format_id | 0x80 == (if point_format_id >= 128 {
        point_format_id
    } else {
        (point_format_id + 128) as u8
    })) by (bit_vector);
    point_format_id | 0x80
}

/// How the point format of a header is brought to one that COPC knows.
#[derive(Clone, Copy, Debug, PartialEq, Eq, Structural)]
pub enum UpgradePdrf {
    /// Format 1 becomes format 6.
    From1to6,
    /// Format 3 becomes format 7.
    From3to7,
    /// Formats 6, 7 and 8 stay.
    NoUpgrade,
}

impl UpgradePdrf {
    /// What the upgrade does, in words.
    pub fn log_string(&self) -> (text: &'static str)
        ensures
            text@ == (match *self {
                UpgradePdrf::From1to6 => "Upgrading LAS PDRF from 1 to 6"@,
                UpgradePdrf::From3to7 => "Upgrading LAS PDRF from 3 to 7"@,
                UpgradePdrf::NoUpgrade => "COPC supports the given PDRF"@,
            }),
    {
        match self {
            UpgradePdrf::From1to6 => "Upgrading LAS PDRF from 1 to 6",
            UpgradePdrf::From3to7 => "Upgrading LAS PDRF from 3 to 7",
            UpgradePdrf::NoUpgrade => "COPC supports the given PDRF",
        }
    }

    /// The upgrade for a point format number; `None` for a format that
    /// cannot be written.
    pub open spec fn spec_for(number: int) -> Option<UpgradePdrf> {
        if number == 1 {
            Some(UpgradePdrf::From1to6)
        } else if number == 3 {
            Some(UpgradePdrf::From3to7)
        } else if 6 <= number <= 8 {
            Some(UpgradePdrf::NoUpgrade)
        } else {
            None
        }
    }

    /// By how much the number of the point format grows.
    pub open spec fn number_step(self) -> int {
        match self {
            UpgradePdrf::From1to6 => 5,
            UpgradePdrf::From3to7 => 4,
            UpgradePdrf::NoUpgrade => 0,
        }
    }

    /// By how many bytes a point record grows.
    pub open spec fn length_step(self) -> int {
        match self {
            UpgradePdrf::NoUpgrade => 0,
            _ => 2,
        }
    }

    /// The upgrade for the point format byte of a header, whose two highest
    /// bits do not count. Formats other than 1, 3, 6, 7 and 8 cannot be
    /// written.
    pub fn for_format(point_format_id: u8) -> (r: Result<UpgradePdrf, Error>)
        ensures
            match UpgradePdrf::spec_for(point_format_id as int % 64) {
                Some(u) => r == Ok::<UpgradePdrf, Error>(u),
                None => r == Err::<UpgradePdrf, Error>(
                    Error::UnsupportedPointFormat(point_format_id),
                ),
            },
    {
        let number = point_format_id_compressed_to_uncompressd(point_format_id);
        if number == 1 {
            Ok(UpgradePdrf::From1to6)
        } else if number == 3 {
            Ok(UpgradePdrf::From3to7)
        } else if 6 <= number && number <= 8 {
            Ok(UpgradePdrf::NoUpgrade)
        } else {
            Err(Error::UnsupportedPointFormat(point_format_id))
        }
    }
}

/// A point format that COPC knows, with the number of extra bytes that each
/// point carries.
#[derive(Clone, Copy, Debug, PartialEq, Eq, Structural)]
pub struct PointFormat {
    /// The number of the format: 6, 7 or 8.
    pub number: u8,
    /// The number of bytes of a point beyond those of the format.
    pub extra_bytes: u16,
}

/// What a point carries besides its position.
#[derive(Clone, Copy, Debug, PartialEq, Eq, Structural)]
pub struct PointAttributes {
    pub has_gps_time: bool,
    pub has_color: bool,
    pub has_waveform: bool,
    pub has_nir: bool,
    /// The number of extra bytes of the point.
    pub extra_bytes: usize,
}

impl PointFormat {
    /// The number of bytes of a point of format 6, 7 or 8 without extra
    /// bytes.
    pub open spec fn base_length(number: int) -> int {
        if number == 6 {
            30
        } else if number == 7 {
            36
        } else {
            38
        }
    }

    /// The format is one of 6, 7, 8 and the length of a point fits its field.
    pub open spec fn valid(self) -> bool {
        6 <= self.number <= 8 && PointFormat::base_length(self.number as int) + self.extra_bytes
            <= u16::MAX
    }

    /// Points of the format carry colour.
    pub open spec fn spec_has_color(self) -> bool {
        self.number == 7 || self.number == 8
    }

    /// Points of the format carry near infrared.
    pub open spec fn spec_has_nir(self) -> bool {
        self.number == 8
    }

    /// Whether points of the format carry colour.
    pub fn has_color(&self) -> (r: bool)
        ensures
            r == self.spec_has_color(),
    {
        self.number == 7 || self.number == 8
    }

    /// Whether points of the format carry near infrared.
    pub fn has_nir(&self) -> (r: bool)
        ensures
            r == self.spec_has_nir(),
    {
        self.number == 8
    }

    /// The number of bytes of a point.
    pub fn len(&self) -> (n: u16)
        requires
            self.valid(),
        ensures
            n == PointFormat::base_length(self.number as int) + self.extra_bytes,
            n >= 30,
    {
        let base: u16 = if self.number == 6 {
            30
        } else if self.number == 7 {
            36
        } else {
            38
        };
        base + self.extra_bytes
    }

    /// A point with these attributes can be written in the format: it has a
    /// GPS time and no waveform, colour and near infrared as the format
    /// has them, and as many extra bytes.
    pub open spec fn spec_matches(self, point: PointAttributes) -> bool {
        &&& point.has_gps_time
        &&& point.has_color == self.spec_has_color()
        &&& !point.has_waveform
        &&& point.has_nir == self.spec_has_nir()
        &&& point.extra_bytes == self.extra_bytes
    }

    /// Whether a point with these attributes can be written in the format.
    pub fn matches(&self, point: &PointAttributes) -> (r: bool)
        ensures
            r == self.spec_matches(*point),
    {
        point.has_gps_time && point.has_color == self.has_color() && !point.has_waveform
            && point.has_nir == self.has_nir() && point.extra_bytes == self.extra_bytes as usize
    }
}

/// An item of a compressed point record.
#[derive(Clone, Copy, Debug, PartialEq, Eq, Structural)]
pub enum LazItem {
    /// The core of a point of format 6 and above.
    Point14,
    /// Colour.
    RGB14,
    /// Colour and near infrared.
    RGBNIR14,
    /// The given number of extra bytes.
    Byte14(u16),
}

/// The items of a compressed point record of a format: the core; colour, or
/// colour and near infrared, where the format has them; the extra bytes
/// where there are any.
pub open spec fn spec_laz_items(format: PointFormat) -> Seq<LazItem> {
    seq![LazItem::Point14] + (if format.spec_has_nir() {
        seq![LazItem::RGBNIR14]
    } else if format.spec_has_color() {
        seq![LazItem::RGB14]
    } else {
        Seq::<LazItem>::empty()
    }) + (if format.extra_bytes > 0 {
        seq![LazItem::Byte14(format.extra_bytes)]
    } else {
        Seq::<LazItem>::empty()
    })
}

/// The items of a compressed point record of a format.
pub fn laz_items(format: &PointFormat) -> (items: Vec<LazItem>)
    ensures
        items@ == spec_laz_items(*format),
{
    let mut items: Vec<LazItem> = Vec::new();
    items.push(LazItem::Point14);
    if format.has_color() {
        if format.has_nir() {
            items.push(LazItem::RGBNIR14);
        } else {
            items.push(LazItem::RGB14);
        }
    }
    if format.extra_bytes > 0 {
        items.push(LazItem::Byte14(format.extra_bytes));
    }
    assert(items@ =~= spec_laz_items(*format));
    items
}

/// The point format byte and the length of a point record after the
/// upgrade; `None` where the format cannot be written or the length does not
/// fit the format.
pub open spec fn spec_upgraded(point_format_id: u8, record_length: u16) -> Option<(int, int)> {
    match UpgradePdrf::spec_for(point_format_id as int % 64) {
        None => None,
        Some(u) => {
            let number = point_format_id % 64 + u.number_step();
            let length = record_length + u.length_step();
            if length < PointFormat::base_length(number) || length > u16::MAX {
                None
            } else {
                Some((number, length))
            }
        },
    }
}

/// Upgrades the point format of a header: 1 becomes 6, 3 becomes 7, and 6,
/// 7 and 8 stay; a record grows by two bytes where the format changes. What
/// a record holds beyond its format are extra bytes. Any other format, and
/// a record that is shorter than its format or longer than its field, is
/// refused.
pub fn upgrade_format(point_format_id: u8, record_length: u16) -> (r: Result<PointFormat, Error>)
    ensures
        match spec_upgraded(point_format_id, record_length) {
            Some((number, length)) => r == Ok::<PointFormat, Error>(
                PointFormat {
                    number: number as u8,
                    extra_bytes: (length - PointFormat::base_length(number)) as u16,
                },
            ) && r->Ok_0.valid(),
            None => r == Err::<PointFormat, Error>(Error::UnsupportedPointFormat(point_format_id)),
        },
{
    let upgrade = match UpgradePdrf::for_format(point_format_id) {
        Ok(u) => u,
        Err(e) => {
            return Err(e);
        },
    };
    let number: u8 = point_format_id_compressed_to_uncompressd(point_format_id) + match upgrade {
        UpgradePdrf::From1to6 => 5,
        UpgradePdrf::From3to7 => 4,
        UpgradePdrf::NoUpgrade => 0,
    };
    let length: u32 = record_length as u32 + match upgrade {
        UpgradePdrf::NoUpgrade => 0,
        _ => 2,
    };
    let base: u32 = if number == 6 {
        30
    } else if number == 7 {
        36
    } else {
        38
    };
    if length < base || length > u16::MAX as u32 {
        return Err(Error::UnsupportedPointFormat(point_format_id));
    }
    Ok(PointFormat { number, extra_bytes: (length - base) as u16 })
}

/// The point format byte of a written header: the number of the format with
/// the two highest bits set.
pub fn compressed_format_byte(format: &PointFormat) -> (byte: u8)
    requires
        format.valid(),
    ensures
        byte == 192 + format.number,
{
    let number: u8 = format.number;
    assert(number | 0b11000000 == 192 + number) by (bit_vector)
        requires
            6 <= number <= 8,
    ;
    number | 0b11000000
}

/// The global encoding with the bit set that says the CRS is given as WKT.
pub fn with_wkt_bit(global_encoding: u16) -> (r: u16)
    ensures
        r == (if (global_encoding / 16) % 2 == 1 {
            global_encoding as int
        } else {
            global_encoding + 16
        }),
{
    assert(global_encoding | 0b10000 == (if (global_encoding / 16) % 2 == 1 {
        global_encoding
    } else {
        (global_encoding + 16) as u16
    })) by (bit_vector);
    global_encoding | WKT_BIT
}

/// The part of a LAS header that the library reads and writes.
#[derive(Debug)]
pub struct Header {
    pub version_major: u8,
    pub version_minor: u8,
    /// The number of bytes of the header.
    pub header_size: u16,
    /// The point format byte: the number of the format, and in the two
    /// highest bits whether the points are compressed.
    pub point_data_record_format: u8,
    /// The number of bytes of a point record.
    pub point_data_record_length: u16,
    pub global_encoding: u16,
    /// The name of the software that wrote the file, filled up with NUL
    /// bytes.
    pub generating_software: [u8; 32],
    pub number_of_points: u64,
    /// The number of points of the first, second, ... fifteenth return.
    pub number_of_points_by_return: [u64; 15],
    /// The box around all points, on the grid.
    pub bounds: Bounds,
    /// Where the extended records start; zero where there are none.
    pub start_of_first_evlr: u64,
    pub number_of_evlrs: u32,
    /// The records that follow the header.
    pub vlrs: Vec<Vlr>,
    /// The extended records that follow the points.
    pub evlrs: Vec<Vlr>,
}

impl Header {
    /// The counts of returns after one more point of the given return.
    pub open spec fn counted(counts: Seq<u64>, return_number: u8) -> Seq<u64> {
        if 1 <= return_number <= 15 && counts[return_number - 1] < u64::MAX {
            counts.update(return_number - 1, (counts[return_number - 1] + 1) as u64)
        } else {
            counts
        }
    }

    /// Whether the header can count one more point.
    pub fn has_room(&self) -> (r: bool)
        ensures
            r == (self.number_of_points < u64::MAX),
    {
        self.number_of_points < u64::MAX
    }

    /// Counts a point: one more point, one more point of its return where
    /// the return number is one of 1 to 15, and bounds that hold the point.
    pub fn add_point(&mut self, x: i32, y: i32, z: i32, return_number: u8)
        requires
            old(self).number_of_points < u64::MAX,
        ensures
            final(self).number_of_points == old(self).number_of_points + 1,
            final(self).number_of_points_by_return@ == Header::counted(
                old(self).number_of_points_by_return@,
                return_number,
            ),
            final(self).bounds == old(self).bounds.join(
                Bounds::point(x as i64, y as i64, z as i64),
            ),
            final(self).version_major == old(self).version_major,
            final(self).version_minor == old(self).version_minor,
            final(self).header_size == old(self).header_size,
            final(self).point_data_record_format == old(self).point_data_record_format,
            final(self).point_data_record_length == old(self).point_data_record_length,
            final(self).global_encoding == old(self).global_encoding,
            final(self).generating_software == old(self).generating_software,
            final(self).start_of_first_evlr == old(self).start_of_first_evlr,
            final(self).number_of_evlrs == old(self).number_of_evlrs,
            final(self).vlrs == old(self).vlrs,
            final(self).evlrs == old(self).evlrs,
    {
        self.number_of_points = self.number_of_points + 1;
        if 1 <= return_number && return_number <= 15 {
            let i: usize = (return_number - 1) as usize;
            let n: u64 = self.number_of_points_by_return[i];
            if n < u64::MAX {
                self.number_of_points_by_return[i] = n + 1;
            }
        }
        self.bounds.expand_xyz(x as i64, y as i64, z as i64);
    }
}

} // verus!

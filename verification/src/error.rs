//! What can go wrong.

use vstd::prelude::*;

verus! {

/// Why a point could not be added.
#[derive(Clone, Copy, Debug, PartialEq, Eq, Structural)]
pub enum PointAddError {
    /// The point's attributes are not those of the header's point format,
    /// whose number is given.
    PointAttributesDoNotMatch(u8),
    /// The point lies outside the root cube.
    PointNotInBounds,
}

/// The failures of the library.
#[derive(Clone, Copy, Debug, PartialEq, Eq, Structural)]
pub enum Error {
    /// The writer has been closed already.
    ClosedWriter,
    /// No point was added before closing.
    EmptyCopcFile,
    /// No point was offered for writing.
    EmptyIterator,
    /// The file name does not end in `.copc.laz`.
    WrongCopcExtension,
    /// The header's version is not one of 1.2, 1.3, 1.4.
    WrongLasVersion,
    /// The header is not 375 bytes long.
    HeaderNot375Bytes,
    /// The requested resolution is not a positive normal number.
    InvalidResolution,
    /// An extent of the header's bounds is not a normal number.
    InvalidBounds,
    /// The node sizes are not `min < max`.
    InvalidNodeSize,
    /// No definition is known for this EPSG code.
    InvalidEPSGCode(u16),
    /// The header gives no coordinate reference system.
    InvalidCrs,
    /// The point format, whose number is given, cannot be written.
    UnsupportedPointFormat(u8),
    /// The COPC info record is missing or is not the first record.
    CopcInfoVlrNotFound,
    /// The hierarchy record is missing.
    EptHierarchyVlrNotFound,
    /// The LAZ record is missing.
    LasZipVlrNotFound,
    /// A record or a hierarchy page is shorter than it says.
    CorruptMetadata,
    /// A point was rejected; the rest was written.
    InvalidPoint(PointAddError),
    /// No node took the point.
    PointNotAddedToAnyNode,
}

impl PointAddError {
    /// The failure in words.
    pub fn message(&self) -> (text: String)
        ensures
            text@ == (match *self {
                PointAddError::PointAttributesDoNotMatch(_) =>
                    "The point attributes of a point in the iterator don't match the header"@,
                PointAddError::PointNotInBounds =>
                    "A point in the iterator was not inside the bounds of the header"@,
            }),
    {
        match self {
            PointAddError::PointAttributesDoNotMatch(_) =>
                "The point attributes of a point in the iterator don't match the header".to_owned(),
            PointAddError::PointNotInBounds =>
                "A point in the iterator was not inside the bounds of the header".to_owned(),
        }
    }
}

impl Error {
    /// The failure in words.
    pub fn message(&self) -> (text: String)
        ensures
            text@ == (match *self {
                Error::ClosedWriter => "This writer has already been closed"@,
                Error::EmptyCopcFile => "There are no points added to this file"@,
                Error::EmptyIterator =>
                    "The provided iterator for writing points to copc did not contain any points"@,
                Error::WrongCopcExtension =>
                    "The extension of the file to write does not match .copc.laz"@,
                Error::WrongLasVersion => "The version of the header is not 1.2, 1.3 or 1.4"@,
                Error::HeaderNot375Bytes => "The header is not 375 bytes long"@,
                Error::InvalidResolution => "The requested resolution is not possible"@,
                Error::InvalidBounds => "the bounds in the passed in header is not normal"@,
                Error::InvalidNodeSize =>
                    "the set min or max sizes for point in node is invalid"@,
                Error::InvalidEPSGCode(_) =>
                    "the found epsg-code is not defined in the crs-definitions library"@,
                Error::InvalidCrs => "the header gives no coordinate reference system"@,
                Error::UnsupportedPointFormat(_) => "the point format cannot be written"@,
                Error::CopcInfoVlrNotFound =>
                    "The source to be read does not contain a COPC info vlr"@,
                Error::EptHierarchyVlrNotFound =>
                    "The source to be read does not contain a EPT hierarchy vlr"@,
                Error::LasZipVlrNotFound => "laszip vlr not found"@,
                Error::CorruptMetadata => "a record is shorter than it says"@,
                Error::InvalidPoint(e) => match e {
                    PointAddError::PointAttributesDoNotMatch(_) =>
                        "The point attributes of a point in the iterator don't match the header"@,
                    PointAddError::PointNotInBounds =>
                        "A point in the iterator was not inside the bounds of the header"@,
                },
                Error::PointNotAddedToAnyNode =>
                    "The point could not be added to any node in the octree"@,
            }),
    {
        match self {
            Error::ClosedWriter => "This writer has already been closed".to_owned(),
            Error::EmptyCopcFile => "There are no points added to this file".to_owned(),
            Error::EmptyIterator =>
                "The provided iterator for writing points to copc did not contain any points".to_owned(),
            Error::WrongCopcExtension =>
                "The extension of the file to write does not match .copc.laz".to_owned(),
            Error::WrongLasVersion => "The version of the header is not 1.2, 1.3 or 1.4".to_owned(),
            Error::HeaderNot375Bytes => "The header is not 375 bytes long".to_owned(),
            Error::InvalidResolution => "The requested resolution is not possible".to_owned(),
            Error::InvalidBounds => "the bounds in the passed in header is not normal".to_owned(),
            Error::InvalidNodeSize =>
                "the set min or max sizes for point in node is invalid".to_owned(),
            Error::InvalidEPSGCode(_) =>
                "the found epsg-code is not defined in the crs-definitions library".to_owned(),
            Error::InvalidCrs => "the header gives no coordinate reference system".to_owned(),
            Error::UnsupportedPointFormat(_) => "the point format cannot be written".to_owned(),
            Error::CopcInfoVlrNotFound =>
                "The source to be read does not contain a COPC info vlr".to_owned(),
            Error::EptHierarchyVlrNotFound =>
                "The source to be read does not contain a EPT hierarchy vlr".to_owned(),
            Error::LasZipVlrNotFound => "laszip vlr not found".to_owned(),
            Error::CorruptMetadata => "a record is shorter than it says".to_owned(),
            Error::InvalidPoint(e) => e.message(),
            Error::PointNotAddedToAnyNode =>
                "The point could not be added to any node in the octree".to_owned(),
        }
    }
}

} // verus!

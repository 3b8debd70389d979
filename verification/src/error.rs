use vstd::prelude::*;

verus! {

/// Errors reported by the library.
///
/// Every variant carries the human-readable message of the failure. The
/// `Io` and `Json` variants carry the message of an I/O or JSON failure
/// that happened around the library (reading tile files, parsing JSON),
/// or, for `Io`, a header that ended before all of its bytes were read.
#[derive(Debug, PartialEq, Eq)]
pub enum TesseraError {
    Io(String),
    Json(String),
    Processing(String),
    Tileset(String),
    UnsupportedTileType(String),
    InvalidGltfFile(String),
    InvalidB3dmFile(String),
    InvalidPntsFile(String),
    UnsuportedGltfPrimitiveType(String),
    UnsupportedPrimitiveComparison(String),
    DracoError(String),
}

impl TesseraError {
    /// The message carried by the error, whatever its variant.
    pub open spec fn message(self) -> Seq<char> {
        match self {
            TesseraError::Io(m) => m@,
            TesseraError::Json(m) => m@,
            TesseraError::Processing(m) => m@,
            TesseraError::Tileset(m) => m@,
            TesseraError::UnsupportedTileType(m) => m@,
            TesseraError::InvalidGltfFile(m) => m@,
            TesseraError::InvalidB3dmFile(m) => m@,
            TesseraError::InvalidPntsFile(m) => m@,
            TesseraError::UnsuportedGltfPrimitiveType(m) => m@,
            TesseraError::UnsupportedPrimitiveComparison(m) => m@,
            TesseraError::DracoError(m) => m@,
        }
    }
}

} // verus!

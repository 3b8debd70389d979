use vstd::prelude::*;
use vstd::string::*;

use crate::error::TesseraError;
use crate::tile::b3dm::{length_mismatch, length_mismatch_message, read_u32_at, short_header_message, u32_at};
use crate::utils::{path_extension, spec_path_extension, str_eq};

verus! {

/// The magic bytes that open a .pnts file: `b"pnts"`.
pub open spec fn pnts_magic() -> Seq<u8> {
    seq![0x70u8, 0x6eu8, 0x74u8, 0x73u8]
}

/// The header section of a .pnts file.
#[derive(Copy, Clone, Debug)]
pub struct Header {
    /// Must be `b"pnts"`.
    pub magic: [u8; 4],
    /// Must be `1`.
    pub version: u32,
    /// Must match the length of the .pnts file.
    pub length: u32,
    /// Must match the length of the feature table JSON.
    pub feature_table_json_byte_length: u32,
    /// Must match the length of the feature table binary.
    pub feature_table_binary_byte_length: u32,
    /// Must match the length of the batch table JSON. Zero if no batch table.
    pub batch_table_json_byte_length: u32,
    /// Must match the length of the batch table binary. Zero if json byte length is zero.
    pub batch_table_binary_byte_length: u32,
}

/// `h` is the header that the first 28 bytes of `bytes` encode: the four
/// magic bytes, then six little-endian `u32` fields in declaration order.
pub open spec fn decodes_header(h: Header, bytes: Seq<u8>) -> bool {
    &&& h.magic@ == bytes.take(4)
    &&& h.version as int == u32_at(bytes, 4)
    &&& h.length as int == u32_at(bytes, 8)
    &&& h.feature_table_json_byte_length as int == u32_at(bytes, 12)
    &&& h.feature_table_binary_byte_length as int == u32_at(bytes, 16)
    &&& h.batch_table_json_byte_length as int == u32_at(bytes, 20)
    &&& h.batch_table_binary_byte_length as int == u32_at(bytes, 24)
}

impl Header {
    /// Decodes the header from the bytes that open a .pnts file.
    ///
    /// Fewer than 28 bytes is an `Io` error, as reading the header from a
    /// short file is; a header whose magic is not `pnts` is an
    /// `InvalidPntsFile` error.
    pub fn from_bytes(bytes: &[u8]) -> (res: Result<Header, TesseraError>)
        ensures
            bytes@.len() < 28 ==> (res matches Err(TesseraError::Io(m)) && m@
                == short_header_message()),
            bytes@.len() >= 28 && bytes@.take(4) != pnts_magic() ==> (res matches Err(
                TesseraError::InvalidPntsFile(m),
            ) && m@ == "invalid PNTS file, magic did not match"@),
            bytes@.len() >= 28 && bytes@.take(4) == pnts_magic() ==> (res matches Ok(h)
                && decodes_header(h, bytes@)),
    {
        if bytes.len() < 28 {
            return Err(TesseraError::Io(String::from_str("failed to fill whole buffer")));
        }
        let magic: [u8; 4] = [bytes[0], bytes[1], bytes[2], bytes[3]];
        let version = read_u32_at(bytes, 4);
        let length = read_u32_at(bytes, 8);
        let feature_table_json_byte_length = read_u32_at(bytes, 12);
        let feature_table_binary_byte_length = read_u32_at(bytes, 16);
        let batch_table_json_byte_length = read_u32_at(bytes, 20);
        let batch_table_binary_byte_length = read_u32_at(bytes, 24);
        assert(magic@ =~= bytes@.take(4));
        if !(magic[0] == 0x70u8 && magic[1] == 0x6eu8 && magic[2] == 0x74u8 && magic[3] == 0x73u8) {
            assert(magic@ != pnts_magic());
            return Err(
                TesseraError::InvalidPntsFile(
                    String::from_str("invalid PNTS file, magic did not match"),
                ),
            );
        }
        assert(magic@ =~= pnts_magic());
        Ok(
            Header {
                magic,
                version,
                length,
                feature_table_json_byte_length,
                feature_table_binary_byte_length,
                batch_table_json_byte_length,
                batch_table_binary_byte_length,
            },
        )
    }

    /// The size of the header in bytes.
    pub fn header_size(self) -> (n: u64)
        ensures
            n == 28,
    {
        28
    }

    /// The length of the feature table: its JSON and binary parts together.
    pub open spec fn spec_feature_table_length(self) -> int {
        self.feature_table_json_byte_length + self.feature_table_binary_byte_length
    }

    pub fn get_feature_table_length(self) -> (n: u64)
        ensures
            n as int == self.spec_feature_table_length(),
    {
        self.feature_table_json_byte_length as u64 + self.feature_table_binary_byte_length as u64
    }

    /// The feature table starts right after the header.
    pub fn get_feature_table_start_offset(self) -> (n: u64)
        ensures
            n == 28,
    {
        self.header_size()
    }

    /// The feature table's binary part starts after the header and the
    /// table's JSON part.
    pub fn get_feature_table_binary_start_offset(self) -> (n: u64)
        ensures
            n as int == 28 + self.feature_table_json_byte_length,
    {
        self.get_feature_table_start_offset() + self.feature_table_json_byte_length as u64
    }
}

/// Reference from the feature table JSON to a part of its binary body.
#[derive(Debug, Clone)]
pub struct BinaryBodyReference {
    pub byte_offset: u32,
    pub component_type: Option<String>,
}

/// A global integer property of the feature table.
#[derive(Debug, Clone, Copy)]
pub struct GlobalPropertyInteger {
    pub value: i32,
}

/// Whether a path names a .pnts file: its extension is exactly `pnts`.
pub open spec fn spec_is_pnts_like(path: Seq<char>) -> bool {
    spec_path_extension(path) == Some("pnts"@)
}

pub fn is_pnts_like(path: &str) -> (res: bool)
    ensures
        res == spec_is_pnts_like(path@),
{
    match path_extension(path) {
        Some(e) => str_eq(e, "pnts"),
        None => false,
    }
}

/// Checks a .pnts file's layout against its header and gives the offset
/// from which the point data is read.
///
/// The file's length must be the header's `length`, the feature table must
/// start before the end of the file and must end within it; each failure is
/// an `InvalidPntsFile` error.
pub fn point_data_seek_offset(header: Header, file_length: u64, file_name: &str) -> (res: Result<i64, TesseraError>)
    ensures
        header.length as u64 != file_length ==> (res matches Err(
            TesseraError::InvalidPntsFile(m),
        ) && m@ == length_mismatch_message(
            file_name@,
            file_length as nat,
            header.length as nat,
        )),
        header.length as u64 == file_length && 28 >= header.length ==> (res matches Err(
            TesseraError::InvalidPntsFile(m),
        ) && m@ == file_name@ + ": Point data would start off the end of the file"@),
        header.length as u64 == file_length && 28 < header.length && 28
            + header.spec_feature_table_length() > header.length ==> (res matches Err(
            TesseraError::InvalidPntsFile(m),
        ) && m@ == file_name@ + ": Point data exceeds file length"@),
        header.length as u64 == file_length && 28 < header.length && 28
            + header.spec_feature_table_length() <= header.length ==> res == Ok::<
            i64,
            TesseraError,
        >(28),
{
    let header_specified_length = header.length as u64;
    if header_specified_length != file_length {
        return Err(
            TesseraError::InvalidPntsFile(
                length_mismatch(file_name, file_length, header_specified_length),
            ),
        );
    }
    let feature_table_length = header.get_feature_table_length();
    let feature_table_start_position = header.get_feature_table_start_offset();
    if feature_table_start_position >= header_specified_length {
        let mut m = String::from_str(file_name);
        m.append(": Point data would start off the end of the file");
        return Err(TesseraError::InvalidPntsFile(m));
    }
    if feature_table_start_position + feature_table_length > header_specified_length {
        let mut m = String::from_str(file_name);
        m.append(": Point data exceeds file length");
        return Err(TesseraError::InvalidPntsFile(m));
    }
    Ok(feature_table_start_position as i64)
}

/// Chooses the feature table's position reference: exactly one of
/// `POSITION` and `POSITION_QUANTIZED` must be present.
pub fn select_position_reference<'a>(
    position: &'a Option<BinaryBodyReference>,
    position_quantized: &'a Option<BinaryBodyReference>,
    file_name: &str,
) -> (res: Result<&'a BinaryBodyReference, TesseraError>)
    ensures
        position.is_some() && position_quantized.is_some() ==> (res matches Err(
            TesseraError::InvalidPntsFile(m),
        ) && m@ == file_name@ + ": Both Position and Position_QUANTIZED are present"@),
        position.is_none() && position_quantized.is_none() ==> (res matches Err(
            TesseraError::InvalidPntsFile(m),
        ) && m@ == file_name@ + ": POSITION or POSITION_QUANTIZED is required"@),
        position.is_some() && position_quantized.is_none() ==> res == Ok::<
            &BinaryBodyReference,
            TesseraError,
        >(&position.unwrap()),
        position.is_none() && position_quantized.is_some() ==> res == Ok::<
            &BinaryBodyReference,
            TesseraError,
        >(&position_quantized.unwrap()),
{
    match (position, position_quantized) {
        (Some(_), Some(_)) => {
            let mut m = String::from_str(file_name);
            m.append(": Both Position and Position_QUANTIZED are present");
            Err(TesseraError::InvalidPntsFile(m))
        },
        (Some(p), None) => Ok(p),
        (None, Some(q)) => Ok(q),
        (None, None) => {
            let mut m = String::from_str(file_name);
            m.append(": POSITION or POSITION_QUANTIZED is required");
            Err(TesseraError::InvalidPntsFile(m))
        },
    }
}

/// Reads the positions of `num_points` points from the feature table's
/// binary body: twelve bytes per point from the reference's byte offset, each
/// coordinate the little-endian bit pattern of an `f32`.
///
/// The bytes must lie within the body; beyond it the read is refused.
pub fn extract_position_words(
    feature_table_binary_data: &[u8],
    position: &BinaryBodyReference,
    num_points: usize,
) -> (res: Vec<[u32; 3]>)
    requires
        position.byte_offset + 12 * num_points <= feature_table_binary_data@.len(),
    ensures
        res@.len() == num_points,
        forall|i: int, k: int|
            0 <= i < num_points && 0 <= k < 3 ==> #[trigger] res@[i][k] as int == u32_at(
                feature_table_binary_data@,
                position.byte_offset + 12 * i + 4 * k,
            ),
{
    let data = feature_table_binary_data;
    let n = data.len();
    let start = position.byte_offset as usize;
    let mut out: Vec<[u32; 3]> = Vec::with_capacity(num_points);
    let mut i: usize = 0;
    let mut at: usize = start;
    while i < num_points
        invariant
            n == data@.len(),
            start == position.byte_offset,
            start + 12 * num_points <= n,
            i <= num_points,
            at == start + 12 * i,
            out@.len() == i,
            forall|j: int, k: int|
                0 <= j < i && 0 <= k < 3 ==> #[trigger] out@[j][k] as int == u32_at(
                    data@,
                    start + 12 * j + 4 * k,
                ),
        decreases num_points - i,
    {
        assert(at + 12 <= n) by (nonlinear_arith)
            requires
                at == start + 12 * i,
                i < num_points,
                start + 12 * num_points <= n,
        ;
        let x = read_u32_at(data, at);
        let y = read_u32_at(data, at + 4);
        let z = read_u32_at(data, at + 8);
        let point: [u32; 3] = [x, y, z];
        out.push(point);
        proof {
            assert forall|j: int, k: int|
                0 <= j < i + 1 && 0 <= k < 3 implies #[trigger] out@[j][k] as int == u32_at(
                data@,
                start + 12 * j + 4 * k,
            ) by {
                if j == i {
                    assert(out@[j] == point);
                    assert(point@[0] == x && point@[1] == y && point@[2] == z);
                }
            }
        }
        i = i + 1;
        at = at + 12;
    }
    out
}

} // verus!

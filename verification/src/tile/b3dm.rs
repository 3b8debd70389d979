use vstd::prelude::*;
use vstd::string::*;

use crate::error::TesseraError;
use crate::tile::{le_u32_value, read_u32_le};
use crate::utils::{decimal, path_extension, spec_decimal, spec_path_extension, str_eq};

verus! {

/// The magic bytes that open a .b3dm file: `b"b3dm"`.
pub open spec fn b3dm_magic() -> Seq<u8> {
    seq![0x62u8, 0x33u8, 0x64u8, 0x6du8]
}

/// The header section of a .b3dm file.
#[derive(Copy, Clone, Debug)]
pub struct Header {
    /// Must be `b"b3dm"`.
    pub magic: [u8; 4],
    /// Must be `1`.
    pub version: u32,
    /// Must match the length of the .b3dm file.
    pub length: u32,
    /// Must match the length of the feature table JSON.
    pub feature_table_json_byte_length: u32,
    /// Must match the length of the feature table binary.
    pub feature_table_binary_byte_length: u32,
    /// Must match the length of the batch table JSON.
    pub batch_table_json_byte_length: u32,
    /// Must match the length of the batch table binary.
    pub batch_table_binary_byte_length: u32,
}

/// The message of an input that ends before the whole header was read.
pub open spec fn short_header_message() -> Seq<char> {
    "failed to fill whole buffer"@
}

/// The little-endian `u32` at byte offset `at` of `bytes`.
pub open spec fn u32_at(bytes: Seq<u8>, at: int) -> int {
    le_u32_value(bytes.subrange(at, at + 4))
}

/// `h` is the header that the first 28 bytes of `bytes` encode: the four
/// magic bytes, then six little-endian `u32` fields in declaration order.
pub open spec fn decodes_header(h: Header, bytes: Seq<u8>) -> bool {
    &&& h.magic@ == bytes.take(4)
    &&& h.version as int == u32_at(bytes, 4)
    &&& h.length as int == u32_at(bytes, 8)
    &&& h.feature_table_json_byte_length as int == u32_at(bytes, 12)
    &&& h.feature_table_binary_byte_length as int == u32_at(bytes, 16)
    &&& h.batch_table_json_byte_length as int == u32_at(bytes, 20)
    &&& h.batch_table_binary_byte_length as int == u32_at(bytes, 24)
}

pub(crate) fn read_u32_at(bytes: &[u8], at: usize) -> (v: u32)
    requires
        at + 4 <= bytes@.len(),
    ensures
        v as int == u32_at(bytes@, at as int),
{
    let n = bytes.len();
    assert(at + 4 <= n);
    let slice = &bytes[at..at + 4];
    read_u32_le(slice)
}

impl Header {
    /// Decodes the header from the bytes that open a .b3dm file.
    ///
    /// Fewer than 28 bytes is an `Io` error, as reading the header from a
    /// short file is; a header whose magic is not `b3dm` is an
    /// `InvalidB3dmFile` error.
    pub fn from_bytes(bytes: &[u8]) -> (res: Result<Header, TesseraError>)
        ensures
            bytes@.len() < 28 ==> (res matches Err(TesseraError::Io(m)) && m@
                == short_header_message()),
            bytes@.len() >= 28 && bytes@.take(4) != b3dm_magic() ==> (res matches Err(
                TesseraError::InvalidB3dmFile(m),
            ) && m@ == "invalid B3DM file, magic did not match"@),
            bytes@.len() >= 28 && bytes@.take(4) == b3dm_magic() ==> (res matches Ok(h)
                && decodes_header(h, bytes@)),
    {
        if bytes.len() < 28 {
            return Err(TesseraError::Io(String::from_str("failed to fill whole buffer")));
        }
        let magic: [u8; 4] = [bytes[0], bytes[1], bytes[2], bytes[3]];
        let version = read_u32_at(bytes, 4);
        let length = read_u32_at(bytes, 8);
        let feature_table_json_byte_length = read_u32_at(bytes, 12);
        let feature_table_binary_byte_length = read_u32_at(bytes, 16);
        let batch_table_json_byte_length = read_u32_at(bytes, 20);
        let batch_table_binary_byte_length = read_u32_at(bytes, 24);
        assert(magic@ =~= bytes@.take(4));
        if !(magic[0] == 0x62u8 && magic[1] == 0x33u8 && magic[2] == 0x64u8 && magic[3] == 0x6du8) {
            assert(magic@ != b3dm_magic());
            return Err(
                TesseraError::InvalidB3dmFile(
                    String::from_str("invalid B3DM file, magic did not match"),
                ),
            );
        }
        assert(magic@ =~= b3dm_magic());
        Ok(
            Header {
                magic,
                version,
                length,
                feature_table_json_byte_length,
                feature_table_binary_byte_length,
                batch_table_json_byte_length,
                batch_table_binary_byte_length,
            },
        )
    }

    /// The size of the header in bytes.
    pub fn header_size(self) -> (n: u64)
        ensures
            n == 28,
    {
        28
    }

    /// The summed lengths of the feature and batch tables, JSON and binary:
    /// everything between the header and the embedded GLB.
    pub open spec fn spec_non_glb_data_length(self) -> int {
        self.feature_table_json_byte_length + self.feature_table_binary_byte_length
            + self.batch_table_json_byte_length + self.batch_table_binary_byte_length
    }

    pub fn get_non_glb_data_length(self) -> (n: u64)
        ensures
            n as int == self.spec_non_glb_data_length(),
    {
        self.feature_table_json_byte_length as u64 + self.feature_table_binary_byte_length as u64
            + self.batch_table_json_byte_length as u64
            + self.batch_table_binary_byte_length as u64
    }

    /// Offset of the embedded GLB from the start of the file: the header
    /// followed by the feature and batch tables.
    pub fn get_glb_data_start_offset(self) -> (n: u64)
        ensures
            n as int == self.spec_non_glb_data_length() + 28,
    {
        self.get_non_glb_data_length() + self.header_size()
    }
}

/// Whether a path names a .b3dm file: its extension is exactly `b3dm`.
pub open spec fn spec_is_b3dm_like(path: Seq<char>) -> bool {
    spec_path_extension(path) == Some("b3dm"@)
}

pub fn is_b3dm_like(path: &str) -> (res: bool)
    ensures
        res == spec_is_b3dm_like(path@),
{
    match path_extension(path) {
        Some(e) => str_eq(e, "b3dm"),
        None => false,
    }
}

/// The message of a file whose length differs from its header's.
pub open spec fn length_mismatch_message(file_name: Seq<char>, file_length: nat, header_length: nat) -> Seq<char> {
    file_name + " has different file length "@ + spec_decimal(file_length)
        + " than reported \\\n            in header "@ + spec_decimal(header_length)
        + "! File is probably corrupt in some way."@
}

pub(crate) fn length_mismatch(file_name: &str, file_length: u64, header_length: u64) -> (m: String)
    ensures
        m@ == length_mismatch_message(file_name@, file_length as nat, header_length as nat),
{
    let mut m = String::from_str(file_name);
    m.append(" has different file length ");
    let a = decimal(file_length);
    m.append(a.as_str());
    m.append(" than reported \\\n            in header ");
    let b = decimal(header_length);
    m.append(b.as_str());
    m.append("! File is probably corrupt in some way.");
    m
}

/// Checks a .b3dm file's layout against its header and gives the offset to
/// skip, from the end of the header, to reach the embedded GLB.
///
/// The file's length must be the header's `length`, and the GLB must start
/// before the end of the file; each failure is an `InvalidB3dmFile` error.
pub fn glb_data_seek_offset(header: Header, file_length: u64, file_name: &str) -> (res: Result<i64, TesseraError>)
    ensures
        header.length as u64 != file_length ==> (res matches Err(TesseraError::InvalidB3dmFile(m))
            && m@ == length_mismatch_message(file_name@, file_length as nat, header.length as nat)),
        header.length as u64 == file_length && header.spec_non_glb_data_length() + 28
            >= header.length ==> (res matches Err(TesseraError::InvalidB3dmFile(m)) && m@
            == file_name@ + ": GLB data would start off the end of the file"@),
        header.length as u64 == file_length && header.spec_non_glb_data_length() + 28
            < header.length ==> (res matches Ok(off) && off as int
            == header.spec_non_glb_data_length()),
{
    let header_specified_length = header.length as u64;
    if header_specified_length != file_length {
        return Err(
            TesseraError::InvalidB3dmFile(
                length_mismatch(file_name, file_length, header_specified_length),
            ),
        );
    }
    let non_glb_data_length = header.get_non_glb_data_length();
    let glb_data_start_position = header.get_glb_data_start_offset();
    if glb_data_start_position >= header_specified_length {
        let mut m = String::from_str(file_name);
        m.append(": GLB data would start off the end of the file");
        return Err(TesseraError::InvalidB3dmFile(m));
    }
    if non_glb_data_length > i64::MAX as u64 {
        let mut m = String::from_str("could not seek to start of GLB data in ");
        m.append(file_name);
        m.append(", specified length was too large");
        return Err(TesseraError::InvalidB3dmFile(m));
    }
    Ok(non_glb_data_length as i64)
}

} // verus!

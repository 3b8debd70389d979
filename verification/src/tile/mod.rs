use vstd::prelude::*;

use crate::error::TesseraError;
use crate::tile::b3dm::{is_b3dm_like, spec_is_b3dm_like};
use crate::tile::gltf::{is_gltf_like, spec_is_gltf_like};
use crate::tile::pnts::{is_pnts_like, spec_is_pnts_like};
use crate::utils::{spec_path_extension, spec_lowercase};

pub mod b3dm;
pub mod gltf;
pub mod pnts;

verus! {

/// The value of four bytes read as a little-endian unsigned integer.
pub open spec fn le_u32_value(b: Seq<u8>) -> int {
    b[0] as int + 256 * (b[1] as int) + 65536 * (b[2] as int) + 16777216 * (b[3] as int)
}

/// `byteorder::LittleEndian::read_u32`: the first four bytes of `buf` as a
/// little-endian `u32`. The crate panics on fewer than four bytes, which the
/// `requires` leaves out.
#[verifier::external_body]
pub(crate) fn read_u32_le(buf: &[u8]) -> (v: u32)
    requires
        buf@.len() >= 4,
    ensures
        v as int == le_u32_value(buf@),
{
    <byteorder::LittleEndian as byteorder::ByteOrder>::read_u32(buf)
}

/// The kind of tile content, chosen from the content path's extension.
#[derive(Debug, Clone, Copy, PartialEq, Eq)]
pub enum TileType {
    GLTF,
    B3DM,
    PNTS,
}

/// The extension test that decides the loader for a path: glTF (`gltf` or
/// `glb`, any case), then B3DM (`b3dm`), then PNTS (`pnts`).
pub open spec fn spec_loader_for(path: Seq<char>) -> Option<TileType> {
    match spec_path_extension(path) {
        Some(e) => {
            if spec_lowercase(e) == "gltf"@ || spec_lowercase(e) == "glb"@ {
                Some(TileType::GLTF)
            } else if e == "b3dm"@ {
                Some(TileType::B3DM)
            } else if e == "pnts"@ {
                Some(TileType::PNTS)
            } else {
                None
            }
        },
        None => None,
    }
}

/// The loader chosen for a path agrees with the content tests: glTF
/// exactly for the paths that `is_gltf_like` accepts, B3DM for those that
/// `is_b3dm_like` accepts and are not glTF, PNTS for those that
/// `is_pnts_like` accepts and are neither, and none for any other path.
pub proof fn lemma_loader_agrees_with_content_tests(path: Seq<char>)
    ensures
        spec_loader_for(path) == Some(TileType::GLTF) <==> spec_is_gltf_like(path),
        spec_loader_for(path) == Some(TileType::B3DM) <==> (spec_is_b3dm_like(path)
            && !spec_is_gltf_like(path)),
        spec_loader_for(path) == Some(TileType::PNTS) <==> (spec_is_pnts_like(path)
            && !spec_is_gltf_like(path) && !spec_is_b3dm_like(path)),
        spec_loader_for(path) is None <==> (!spec_is_gltf_like(path) && !spec_is_b3dm_like(path)
            && !spec_is_pnts_like(path)),
{
}

/// Chooses the loader for a content path. A path with no known extension is
/// refused with `UnsupportedTileType`, whose message is the path.
pub fn get_loader_for_uri(uri: &str) -> (res: Result<TileType, TesseraError>)
    ensures
        match spec_loader_for(uri@) {
            Some(t) => res == Ok::<TileType, TesseraError>(t),
            None => res matches Err(TesseraError::UnsupportedTileType(m)) && m@ == uri@,
        },
        res == Ok::<TileType, TesseraError>(TileType::GLTF) <==> spec_is_gltf_like(uri@),
        res == Ok::<TileType, TesseraError>(TileType::B3DM) <==> (spec_is_b3dm_like(uri@)
            && !spec_is_gltf_like(uri@)),
        res == Ok::<TileType, TesseraError>(TileType::PNTS) <==> (spec_is_pnts_like(uri@)
            && !spec_is_gltf_like(uri@) && !spec_is_b3dm_like(uri@)),
{
    proof {
        lemma_loader_agrees_with_content_tests(uri@);
    }
    if is_gltf_like(uri) {
        Ok(TileType::GLTF)
    } else if is_b3dm_like(uri) {
        Ok(TileType::B3DM)
    } else if is_pnts_like(uri) {
        Ok(TileType::PNTS)
    } else {
        Err(TesseraError::UnsupportedTileType(uri.to_owned()))
    }
}

} // verus!

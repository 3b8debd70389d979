use vstd::prelude::*;
use vstd::string::*;

use crate::error::TesseraError;
use crate::geometry::{LinePrimitive, PointPrimitive, Primitive, TrianglePrimitive};
use crate::utils::{decimal, path_extension, spec_decimal, spec_lowercase, spec_path_extension, str_eq, to_lowercase};

verus! {

/// A parsed glTF document of the `gltf` crate, carried through the library
/// unread.
#[verifier::external_type_specification]
#[verifier::external_body]
pub struct ExGltfDocument(::gltf::Document);

/// The bytes of a glTF buffer, as the `gltf` crate imports them.
#[verifier::external_type_specification]
#[verifier::external_body]
pub struct ExGltfBufferData(::gltf::buffer::Data);

/// A decoded glTF image, as the `gltf` crate imports it.
#[verifier::external_type_specification]
#[verifier::external_body]
pub struct ExGltfImageData(::gltf::image::Data);

/// A glTF document imported from a file, with its buffers and images.
pub struct GltfAsset {
    pub source_path: String,
    pub document: ::gltf::Document,
    pub buffers: Vec<::gltf::buffer::Data>,
    pub images: Vec<::gltf::image::Data>,
}

/// Whether a path names glTF content: its extension, lower-cased, is
/// `gltf` or `glb`.
pub open spec fn spec_is_gltf_like(path: Seq<char>) -> bool {
    match spec_path_extension(path) {
        Some(e) => spec_lowercase(e) == "gltf"@ || spec_lowercase(e) == "glb"@,
        None => false,
    }
}

pub fn is_gltf_like(path: &str) -> (res: bool)
    ensures
        res == spec_is_gltf_like(path@),
{
    match path_extension(path) {
        Some(ext) => {
            let lower = to_lowercase(ext);
            str_eq(lower.as_str(), "gltf") || str_eq(lower.as_str(), "glb")
        },
        None => false,
    }
}

/// The topology of a glTF mesh primitive.
#[derive(Debug, Clone, Copy, PartialEq, Eq)]
pub enum Mode {
    Points,
    Lines,
    LineLoop,
    LineStrip,
    Triangles,
    TriangleStrip,
    TriangleFan,
}

/// Starts an empty primitive of the kind that a glTF primitive's mode
/// names: points, lines and triangles are supported; loops, strips and fans
/// are refused with `UnsuportedGltfPrimitiveType`, whose message is the
/// given description of the glTF primitive.
pub fn create_primitive_from_gltf_primitive<V>(mode: Mode, description: &str) -> (res: Result<
    Primitive<V>,
    TesseraError,
>)
    ensures
        mode == Mode::Triangles ==> (res matches Ok(Primitive::TrianglePrimitive(p))
            && p.vertices@.len() == 0 && p.indices is None),
        mode == Mode::Lines ==> (res matches Ok(Primitive::LinePrimitive(p))
            && p.vertices@.len() == 0 && p.indices is None),
        mode == Mode::Points ==> (res matches Ok(Primitive::PointPrimitive(p))
            && p.vertices@.len() == 0 && p.indices is None),
        mode != Mode::Triangles && mode != Mode::Lines && mode != Mode::Points ==> (res matches Err(
            TesseraError::UnsuportedGltfPrimitiveType(m),
        ) && m@ == description@),
{
    match mode {
        Mode::Triangles => Ok(Primitive::TrianglePrimitive(TrianglePrimitive::new())),
        Mode::Lines => Ok(Primitive::LinePrimitive(LinePrimitive::new())),
        Mode::Points => Ok(Primitive::PointPrimitive(PointPrimitive::new())),
        _ => Err(TesseraError::UnsuportedGltfPrimitiveType(String::from_str(description))),
    }
}

/// Reads the references of a `KHR_draco_mesh_compression` extension: its
/// `bufferView` (taken as an index, as `as usize` takes it) and its
/// `POSITION` attribute id (taken as `as i32` takes it). A missing value is
/// a `Processing` error, and so is a view index with no buffer behind it.
pub fn draco_buffer_view_and_position(
    buffer_view: Option<u64>,
    position_attribute: Option<i64>,
    buffer_count: usize,
) -> (res: Result<(usize, i32), TesseraError>)
    ensures
        buffer_view is None ==> (res matches Err(TesseraError::Processing(m)) && m@
            == "KHR_draco_mesh_compression missing bufferView"@),
        buffer_view is Some && position_attribute is None ==> (res matches Err(
            TesseraError::Processing(m),
        ) && m@ == "KHR_draco_mesh_compression missing POSITION attribute"@),
        buffer_view is Some && position_attribute is Some && buffer_view.unwrap() as usize
            >= buffer_count ==> (res matches Err(TesseraError::Processing(m)) && m@
            == "Invalid Draco bufferView index "@ + spec_decimal(
            (buffer_view.unwrap() as usize) as nat,
        )),
        buffer_view is Some && position_attribute is Some && (buffer_view.unwrap() as usize)
            < buffer_count ==> res == Ok::<(usize, i32), TesseraError>(
            (buffer_view.unwrap() as usize, position_attribute.unwrap() as i32),
        ),
{
    let view = match buffer_view {
        Some(v) => v as usize,
        None => {
            return Err(
                TesseraError::Processing(
                    String::from_str("KHR_draco_mesh_compression missing bufferView"),
                ),
            );
        },
    };
    let position = match position_attribute {
        Some(p) => p as i32,
        None => {
            return Err(
                TesseraError::Processing(
                    String::from_str("KHR_draco_mesh_compression missing POSITION attribute"),
                ),
            );
        },
    };
    if view >= buffer_count {
        let mut m = String::from_str("Invalid Draco bufferView index ");
        let d = decimal(view as u64);
        m.append(d.as_str());
        return Err(TesseraError::Processing(m));
    }
    Ok((view, position))
}

} // verus!

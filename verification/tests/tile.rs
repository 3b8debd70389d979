use tessera::error::TesseraError;
use tessera::tile::b3dm;
use tessera::tile::gltf::{create_primitive_from_gltf_primitive, draco_buffer_view_and_position, is_gltf_like, Mode};
use tessera::tile::pnts;
use tessera::tile::{get_loader_for_uri, TileType};
use tessera::geometry::Primitive;

fn header_bytes(magic: &[u8; 4], fields: [u32; 6]) -> Vec<u8> {
    let mut bytes = magic.to_vec();
    for f in fields {
        bytes.extend_from_slice(&f.to_le_bytes());
    }
    bytes
}

#[test]
fn b3dm_header_decodes_little_endian_fields() {
    let bytes = header_bytes(b"b3dm", [1, 1000, 20, 30, 40, 50]);
    let header = b3dm::Header::from_bytes(&bytes).unwrap();
    assert_eq!(&header.magic, b"b3dm");
    assert_eq!(header.version, 1);
    assert_eq!(header.length, 1000);
    assert_eq!(header.feature_table_json_byte_length, 20);
    assert_eq!(header.feature_table_binary_byte_length, 30);
    assert_eq!(header.batch_table_json_byte_length, 40);
    assert_eq!(header.batch_table_binary_byte_length, 50);
    assert_eq!(header.header_size(), 28);
    assert_eq!(header.get_non_glb_data_length(), 140);
    assert_eq!(header.get_glb_data_start_offset(), 168);
}

#[test]
fn b3dm_header_reads_multi_byte_values() {
    let mut bytes = header_bytes(b"b3dm", [0; 6]);
    bytes[8] = 0x78;
    bytes[9] = 0x56;
    bytes[10] = 0x34;
    bytes[11] = 0x12;
    let header = b3dm::Header::from_bytes(&bytes).unwrap();
    assert_eq!(header.length, 0x1234_5678);
}

#[test]
fn b3dm_header_rejects_bad_magic() {
    let bytes = header_bytes(b"pnts", [1, 28, 0, 0, 0, 0]);
    match b3dm::Header::from_bytes(&bytes) {
        Err(TesseraError::InvalidB3dmFile(m)) => assert_eq!(m, "invalid B3DM file, magic did not match"),
        other => panic!("unexpected {:?}", other),
    }
}

#[test]
fn b3dm_header_rejects_short_input() {
    let bytes = header_bytes(b"b3dm", [1, 28, 0, 0, 0, 0]);
    match b3dm::Header::from_bytes(&bytes[..27]) {
        Err(TesseraError::Io(m)) => assert_eq!(m, "failed to fill whole buffer"),
        other => panic!("unexpected {:?}", other),
    }
}

#[test]
fn b3dm_glb_offset_skips_tables() {
    let header = b3dm::Header::from_bytes(&header_bytes(b"b3dm", [1, 500, 10, 20, 30, 40])).unwrap();
    assert_eq!(b3dm::glb_data_seek_offset(header, 500, "t.b3dm").unwrap(), 100);
}

#[test]
fn b3dm_glb_offset_rejects_length_mismatch() {
    let header = b3dm::Header::from_bytes(&header_bytes(b"b3dm", [1, 500, 0, 0, 0, 0])).unwrap();
    match b3dm::glb_data_seek_offset(header, 499, "t.b3dm") {
        Err(TesseraError::InvalidB3dmFile(m)) => assert_eq!(
            m,
            "t.b3dm has different file length 499 than reported \\\n            in header 500! File is probably corrupt in some way."
        ),
        other => panic!("unexpected {:?}", other),
    }
}

#[test]
fn b3dm_glb_offset_rejects_glb_past_end() {
    let header = b3dm::Header::from_bytes(&header_bytes(b"b3dm", [1, 100, 72, 0, 0, 0])).unwrap();
    match b3dm::glb_data_seek_offset(header, 100, "t.b3dm") {
        Err(TesseraError::InvalidB3dmFile(m)) => {
            assert_eq!(m, "t.b3dm: GLB data would start off the end of the file")
        }
        other => panic!("unexpected {:?}", other),
    }
    let header = b3dm::Header::from_bytes(&header_bytes(b"b3dm", [1, 100, 71, 0, 0, 0])).unwrap();
    assert_eq!(b3dm::glb_data_seek_offset(header, 100, "t.b3dm").unwrap(), 71);
}

#[test]
fn extension_checks_follow_the_file_name() {
    assert!(b3dm::is_b3dm_like("tiles/0/0.b3dm"));
    assert!(!b3dm::is_b3dm_like("tiles/0/0.B3DM"));
    assert!(!b3dm::is_b3dm_like("tiles/0/.b3dm"));
    assert!(b3dm::is_b3dm_like("tiles/0/0.b3dm/"));
    assert!(b3dm::is_b3dm_like("tiles/0/0.b3dm/."));
    assert!(!b3dm::is_b3dm_like("tiles/0/0.b3dm/.."));
    assert!(pnts::is_pnts_like("a.b.pnts"));
    assert!(!pnts::is_pnts_like("pnts"));
    assert!(is_gltf_like("model.GLB"));
    assert!(is_gltf_like("dir/model.gltf"));
    assert!(is_gltf_like("dir/model.Gltf"));
    assert!(!is_gltf_like("dir/model.glbx"));
    assert!(!is_gltf_like("dir/"));
}

#[test]
fn loader_is_chosen_by_extension() {
    assert_eq!(get_loader_for_uri("base/a.glb").unwrap(), TileType::GLTF);
    assert_eq!(get_loader_for_uri("base/a.b3dm").unwrap(), TileType::B3DM);
    assert_eq!(get_loader_for_uri("base/a.pnts").unwrap(), TileType::PNTS);
    match get_loader_for_uri("base/a.i3dm") {
        Err(TesseraError::UnsupportedTileType(m)) => assert_eq!(m, "base/a.i3dm"),
        other => panic!("unexpected {:?}", other),
    }
}

#[test]
fn pnts_header_and_offsets() {
    let header = pnts::Header::from_bytes(&header_bytes(b"pnts", [1, 200, 16, 24, 0, 0])).unwrap();
    assert_eq!(header.length, 200);
    assert_eq!(header.get_feature_table_length(), 40);
    assert_eq!(header.get_feature_table_start_offset(), 28);
    assert_eq!(header.get_feature_table_binary_start_offset(), 44);
    assert_eq!(pnts::point_data_seek_offset(header, 200, "p.pnts").unwrap(), 28);
    match pnts::Header::from_bytes(&header_bytes(b"b3dm", [1, 200, 16, 24, 0, 0])) {
        Err(TesseraError::InvalidPntsFile(m)) => assert_eq!(m, "invalid PNTS file, magic did not match"),
        other => panic!("unexpected {:?}", other),
    }
}

#[test]
fn pnts_layout_errors() {
    let header = pnts::Header::from_bytes(&header_bytes(b"pnts", [1, 60, 16, 24, 0, 0])).unwrap();
    match pnts::point_data_seek_offset(header, 60, "p.pnts") {
        Err(TesseraError::InvalidPntsFile(m)) => assert_eq!(m, "p.pnts: Point data exceeds file length"),
        other => panic!("unexpected {:?}", other),
    }
    let header = pnts::Header::from_bytes(&header_bytes(b"pnts", [1, 28, 0, 0, 0, 0])).unwrap();
    match pnts::point_data_seek_offset(header, 28, "p.pnts") {
        Err(TesseraError::InvalidPntsFile(m)) => {
            assert_eq!(m, "p.pnts: Point data would start off the end of the file")
        }
        other => panic!("unexpected {:?}", other),
    }
    match pnts::point_data_seek_offset(header, 29, "p.pnts") {
        Err(TesseraError::InvalidPntsFile(m)) => assert!(m.starts_with("p.pnts has different file length 29")),
        other => panic!("unexpected {:?}", other),
    }
}

#[test]
fn pnts_position_reference_must_be_unique() {
    let plain = Some(pnts::BinaryBodyReference { byte_offset: 4, component_type: None });
    let quantized = Some(pnts::BinaryBodyReference { byte_offset: 8, component_type: None });
    assert_eq!(pnts::select_position_reference(&plain, &None, "p").unwrap().byte_offset, 4);
    assert_eq!(pnts::select_position_reference(&None, &quantized, "p").unwrap().byte_offset, 8);
    match pnts::select_position_reference(&plain, &quantized, "p") {
        Err(TesseraError::InvalidPntsFile(m)) => assert_eq!(m, "p: Both Position and Position_QUANTIZED are present"),
        other => panic!("unexpected {:?}", other),
    }
    match pnts::select_position_reference(&None, &None, "p") {
        Err(TesseraError::InvalidPntsFile(m)) => assert_eq!(m, "p: POSITION or POSITION_QUANTIZED is required"),
        other => panic!("unexpected {:?}", other),
    }
}

#[test]
fn pnts_positions_are_read_as_little_endian_floats() {
    let mut data = vec![0xffu8; 4];
    for v in [1.0f32, 2.5, -3.0, 4.0, 0.5, 6.25] {
        data.extend_from_slice(&v.to_le_bytes());
    }
    let reference = pnts::BinaryBodyReference { byte_offset: 4, component_type: None };
    let words = pnts::extract_position_words(&data, &reference, 2);
    let points: Vec<[f32; 3]> = words
        .iter()
        .map(|w| [f32::from_bits(w[0]), f32::from_bits(w[1]), f32::from_bits(w[2])])
        .collect();
    assert_eq!(points, vec![[1.0, 2.5, -3.0], [4.0, 0.5, 6.25]]);
    assert!(pnts::extract_position_words(&data, &reference, 0).is_empty());
}

#[test]
fn gltf_modes_map_to_primitive_kinds() {
    assert!(matches!(create_primitive_from_gltf_primitive::<u8>(Mode::Triangles, "p"), Ok(Primitive::TrianglePrimitive(_))));
    assert!(matches!(create_primitive_from_gltf_primitive::<u8>(Mode::Lines, "p"), Ok(Primitive::LinePrimitive(_))));
    assert!(matches!(create_primitive_from_gltf_primitive::<u8>(Mode::Points, "p"), Ok(Primitive::PointPrimitive(_))));
    for mode in [Mode::LineLoop, Mode::LineStrip, Mode::TriangleStrip, Mode::TriangleFan] {
        match create_primitive_from_gltf_primitive::<u8>(mode, "Primitive { .. }") {
            Err(TesseraError::UnsuportedGltfPrimitiveType(m)) => assert_eq!(m, "Primitive { .. }"),
            other => panic!("unexpected {:?}", other),
        }
    }
}

#[test]
fn draco_extension_references() {
    assert_eq!(draco_buffer_view_and_position(Some(1), Some(7), 2).unwrap(), (1, 7));
    match draco_buffer_view_and_position(None, Some(7), 2) {
        Err(TesseraError::Processing(m)) => assert_eq!(m, "KHR_draco_mesh_compression missing bufferView"),
        other => panic!("unexpected {:?}", other),
    }
    match draco_buffer_view_and_position(Some(0), None, 2) {
        Err(TesseraError::Processing(m)) => assert_eq!(m, "KHR_draco_mesh_compression missing POSITION attribute"),
        other => panic!("unexpected {:?}", other),
    }
    match draco_buffer_view_and_position(Some(12), Some(0), 2) {
        Err(TesseraError::Processing(m)) => assert_eq!(m, "Invalid Draco bufferView index 12"),
        other => panic!("unexpected {:?}", other),
    }
    // the attribute id is truncated to 32 bits, as a cast truncates it
    assert_eq!(draco_buffer_view_and_position(Some(0), Some(0x1_0000_0005), 1).unwrap(), (0, 5));
}

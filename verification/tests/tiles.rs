use tessera::tiles::{
    checked_summarize_gltf, collect_content_uris, gltf_asset_paths, resolve_uri, summarize_gltf,
    Content, Tile, Tileset,
};

fn leaf(uri: &str) -> Tile<f64> {
    Tile {
        content: Some(Content { uri: uri.to_string() }),
        contents: None,
        children: vec![],
        geometricError: Some(0.0),
    }
}

#[test]
fn content_uris_are_collected_in_preorder() {
    let root = Tile {
        content: Some(Content { uri: "root.glb".to_string() }),
        contents: Some(vec![
            Content { uri: "extra1.glb".to_string() },
            Content { uri: "extra2.glb".to_string() },
        ]),
        children: vec![
            leaf("c1.b3dm"),
            Tile { content: None, contents: None, children: vec![leaf("g1.pnts")], geometricError: None },
        ],
        geometricError: Some(2.0),
    };
    let tileset = Tileset { root, asset: None };
    assert_eq!(
        collect_content_uris(&tileset),
        vec!["root.glb", "extra1.glb", "extra2.glb", "c1.b3dm", "g1.pnts"]
    );
}

#[test]
fn gltf_assets_are_chosen_by_extension() {
    let uris = vec![
        "a.glb?x".to_string(),
        "b.b3dm".to_string(),
        "/abs/c.GLTF".to_string(),
        "d.pnts".to_string(),
    ];
    assert_eq!(gltf_asset_paths("/base", &uris), vec!["/base/a.glb", "/abs/c.GLTF"]);
    assert_eq!(resolve_uri("/base", "x/y.glb#f"), "/base/x/y.glb");
}

#[test]
fn gltf_summary_counts_meshes_nodes_and_primitives() {
    let json = r#"{
        "asset": {"version": "2.0"},
        "nodes": [{"mesh": 0}, {"mesh": 1}, {}],
        "meshes": [
            {"primitives": [{"attributes": {}}, {"attributes": {}}]},
            {"primitives": [{"attributes": {}}]}
        ]
    }"#;
    let gltf = gltf::Gltf::from_slice_without_validation(json.as_bytes()).unwrap();
    assert_eq!(summarize_gltf(&gltf.document), (2, 3, 3));
    assert_eq!(checked_summarize_gltf(&gltf.document), Some((2, 3, 3)));
}

fn document(json: &str) -> gltf::Document {
    gltf::Gltf::from_slice_without_validation(json.as_bytes()).unwrap().document
}

#[test]
fn summarize_gltf_of_empty_document() {
    let doc = document(r#"{ "asset": { "version": "2.0" } }"#);
    assert_eq!(summarize_gltf(&doc), (0, 0, 0));
}

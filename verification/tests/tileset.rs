use std::collections::HashMap;

use tessera::error::TesseraError;
use tessera::set_tileset_geometric_error;
use tessera::tileset::loader::{
    assign_tile_ids_warn_and_reject_implicit_tiling, is_tileset_uri, merge_external_root_into_tile,
    path_to_uri, rebase_uri, rebased_uri, split_contents,
};
use tessera::tileset::traverse::{ancestor_ids, parse_tileset_nodes, TilesetNode};
use tessera::tileset::{Content, Refine, Tile, Tileset};

type T = Tile<f64, &'static str, u8>;

fn content(uri: &str) -> Content<u8> {
    Content { uri: uri.to_string(), extra: 0 }
}

fn tile(name: &'static str, error: f64, children: Vec<T>) -> T {
    Tile {
        id: 99,
        geometric_error: error,
        refine: None,
        content: None,
        contents: None,
        has_implicit_tiling: false,
        children,
        extra: name,
    }
}

fn sample() -> T {
    let mut a = tile("a", 4.0, vec![tile("a1", 0.0, vec![]), tile("a2", 0.0, vec![])]);
    a.content = Some(content("a.b3dm"));
    let mut b = tile("b", 3.0, vec![tile("b1", 0.0, vec![])]);
    b.contents = Some(vec![content("b.glb"), content("b2.glb")]);
    tile("root", 10.0, vec![a, b])
}

fn ids_in_preorder(t: &T, out: &mut Vec<(usize, &'static str)>) {
    out.push((t.id, t.extra));
    for c in &t.children {
        ids_in_preorder(c, out);
    }
}

#[test]
fn ids_are_assigned_in_preorder_from_zero() {
    let mut root = sample();
    assign_tile_ids_warn_and_reject_implicit_tiling(&mut root).unwrap();
    let mut seen = Vec::new();
    ids_in_preorder(&root, &mut seen);
    assert_eq!(
        seen,
        vec![(0, "root"), (1, "a"), (2, "a1"), (3, "a2"), (4, "b"), (5, "b1")]
    );
}

#[test]
fn implicit_tiling_is_refused_naming_the_first_such_tile() {
    let mut root = sample();
    root.children[1].has_implicit_tiling = true;
    root.children[1].children[0].has_implicit_tiling = true;
    match assign_tile_ids_warn_and_reject_implicit_tiling(&mut root) {
        Err(TesseraError::Tileset(m)) => assert_eq!(
            m,
            "Implicit tiling is not implemented; encountered on tile 4 with content b.glb"
        ),
        other => panic!("unexpected {:?}", other),
    }
    // the tree keeps its shape
    assert_eq!(root.children.len(), 2);
    assert_eq!(root.children[1].children.len(), 1);
    let mut seen = Vec::new();
    ids_in_preorder(&root, &mut seen);
    assert_eq!(seen.len(), 6);

    let mut lone = tile("x", 1.0, vec![]);
    lone.has_implicit_tiling = true;
    match assign_tile_ids_warn_and_reject_implicit_tiling(&mut lone) {
        Err(TesseraError::Tileset(m)) => assert_eq!(
            m,
            "Implicit tiling is not implemented; encountered on tile 0 with content <no content>"
        ),
        other => panic!("unexpected {:?}", other),
    }
}

#[test]
fn node_map_describes_the_tree() {
    let mut root = sample();
    assign_tile_ids_warn_and_reject_implicit_tiling(&mut root).unwrap();
    let tileset = Tileset { root, geometric_error: Some(10.0), extra: () };
    let (nodes, root_id, leaves) = parse_tileset_nodes(&tileset);
    assert_eq!(root_id, 0);
    assert_eq!(leaves, vec![2, 3, 5]);
    assert_eq!(nodes.len(), 6);
    assert_eq!(nodes[&0].child_ids, vec![1, 4]);
    assert_eq!(nodes[&0].parent_id, None);
    assert_eq!(nodes[&1].content, vec!["a.b3dm".to_string()]);
    assert_eq!(nodes[&4].content, vec!["b.glb".to_string(), "b2.glb".to_string()]);
    assert_eq!(nodes[&5].parent_id, Some(4));
    assert_eq!(nodes[&1].original_geometric_error, 4.0);
    assert!(nodes.values().all(|n| n.geometric_error.is_none()));
    assert!(nodes[&2].is_leaf());
    assert!(!nodes[&4].is_leaf());
    assert_eq!(ancestor_ids(&nodes, 5), vec![4, 0]);
    assert_eq!(ancestor_ids(&nodes, 3), vec![1, 0]);
    assert!(ancestor_ids(&nodes, 0).is_empty());
}

#[test]
fn later_registration_wins_for_shared_ids() {
    // without numbering every tile keeps id 99: the root, registered last,
    // is the one node left
    let tileset = Tileset { root: sample(), geometric_error: None, extra: () };
    let (nodes, root_id, leaves) = parse_tileset_nodes(&tileset);
    assert_eq!(root_id, 99);
    assert_eq!(nodes.len(), 1);
    assert_eq!(nodes[&99].child_ids, vec![99, 99]);
    assert_eq!(leaves, vec![99, 99, 99]);
}

#[test]
fn calculated_errors_are_copied_into_the_tiles() {
    let mut root = sample();
    assign_tile_ids_warn_and_reject_implicit_tiling(&mut root).unwrap();
    let mut tileset = Tileset { root, geometric_error: Some(10.0), extra: () };
    let (mut nodes, _, _) = parse_tileset_nodes(&tileset);
    for (id, node) in nodes.iter_mut() {
        node.geometric_error = Some(*id as f64 * 1.5);
    }
    set_tileset_geometric_error(&mut tileset, &nodes).unwrap();
    assert_eq!(tileset.root.geometric_error, 0.0);
    assert_eq!(tileset.root.children[0].geometric_error, 1.5);
    assert_eq!(tileset.root.children[1].children[0].geometric_error, 7.5);
    assert_eq!(tileset.geometric_error, Some(10.0));
}

#[test]
fn missing_calculated_errors_are_reported() {
    let mut root = sample();
    assign_tile_ids_warn_and_reject_implicit_tiling(&mut root).unwrap();
    let mut tileset = Tileset { root, geometric_error: None, extra: () };
    let (mut nodes, _, _) = parse_tileset_nodes(&tileset);
    for node in nodes.values_mut() {
        node.geometric_error = Some(1.0);
    }
    nodes.get_mut(&3).unwrap().geometric_error = None;
    match set_tileset_geometric_error(&mut tileset, &nodes) {
        Err(TesseraError::Tileset(m)) => assert_eq!(m, "Geometric error not found for tile 3"),
        other => panic!("unexpected {:?}", other),
    }
    let empty: HashMap<usize, TilesetNode<f64>> = HashMap::new();
    match set_tileset_geometric_error(&mut tileset, &empty) {
        Err(TesseraError::Tileset(m)) => assert_eq!(m, "Tileset node not found for tile 0"),
        other => panic!("unexpected {:?}", other),
    }
}

#[test]
fn external_root_is_merged_into_its_tile() {
    let mut parent = tile("parent", 8.0, vec![tile("own", 0.0, vec![])]);
    parent.id = 3;
    parent.content = Some(content("external/tileset.json"));
    parent.refine = Some(Refine::ADD);
    let mut external = tile("ext", 5.0, vec![tile("e1", 0.0, vec![]), tile("e2", 0.0, vec![])]);
    external.content = Some(content("root.glb"));
    external.refine = Some(Refine::REPLACE);
    merge_external_root_into_tile(&mut parent, external);
    assert_eq!(parent.id, 3);
    assert_eq!(parent.geometric_error, 8.0);
    assert_eq!(parent.extra, "parent");
    assert_eq!(parent.content.as_ref().unwrap().uri, "root.glb");
    assert_eq!(parent.refine, Some(Refine::REPLACE));
    let names: Vec<&str> = parent.children.iter().map(|c| c.extra).collect();
    assert_eq!(names, vec!["e1", "e2", "own"]);

    let mut keep = tile("keep", 1.0, vec![]);
    keep.refine = Some(Refine::ADD);
    merge_external_root_into_tile(&mut keep, tile("plain", 0.0, vec![]));
    assert_eq!(keep.refine, Some(Refine::ADD));
    assert!(keep.content.is_none());
}

#[test]
fn tileset_uris_are_recognised() {
    assert!(is_tileset_uri("sub/tileset.json"));
    assert!(is_tileset_uri("sub/TILESET.JSON?v=1"));
    assert!(!is_tileset_uri("sub/tile.b3dm"));
    assert!(!is_tileset_uri("sub/tileset.json.b3dm#x.json"));
}

#[test]
fn uris_are_rebased_to_the_root_directory() {
    assert_eq!(rebase_uri("0.b3dm?v=1", "/data/root/sub", "/data/root"), "sub/0.b3dm?v=1");
    assert_eq!(rebase_uri("../x/0.b3dm", "/data/root/sub", "/data/root"), "sub/../x/0.b3dm");
    assert_eq!(rebase_uri("/abs/0.b3dm#f", "/data/root/sub", "/data/root"), "/abs/0.b3dm#f");
    assert_eq!(rebase_uri("0.b3dm", "/data/root", "/data/root"), "0.b3dm");
    assert_eq!(rebased_uri("/a/b", None, "?q"), "/a/b?q");
    assert_eq!(rebased_uri("/a/b", Some("c\\d".to_string()), ""), "c/d");
    assert_eq!(path_to_uri("a\\b\\c"), "a/b/c");
}

#[test]
fn contents_split_into_kept_and_external() {
    let contents = vec![
        Content { uri: "a.glb".to_string(), extra: 1u8 },
        Content { uri: "ext/tileset.json".to_string(), extra: 2 },
        Content { uri: "b.b3dm".to_string(), extra: 3 },
        Content { uri: "other.JSON".to_string(), extra: 4 },
    ];
    let (kept, externals) = split_contents(contents, "/r/sub", "/r");
    let kept = kept.unwrap();
    assert_eq!(kept.len(), 2);
    assert_eq!(kept[0].uri, "sub/a.glb");
    assert_eq!(kept[0].extra, 1);
    assert_eq!(kept[1].uri, "sub/b.b3dm");
    assert_eq!(kept[1].extra, 3);
    assert_eq!(externals, vec!["ext/tileset.json".to_string(), "other.JSON".to_string()]);

    let only_external = vec![Content { uri: "t.json".to_string(), extra: 0u8 }];
    let (kept, externals) = split_contents(only_external, "/r", "/r");
    assert!(kept.is_none());
    assert_eq!(externals, vec!["t.json".to_string()]);
}

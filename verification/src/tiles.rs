use vstd::prelude::*;

use crate::tile::gltf::{is_gltf_like, spec_is_gltf_like};
use crate::utils::{spec_join, spec_strip_query_and_fragment};

verus! {

/// A tileset as a tree of content links.
#[verifier::reject_recursive_types(G)]
#[derive(Debug)]
pub struct Tileset<G> {
    pub root: Tile<G>,
    pub asset: Option<Asset>,
}

/// Metadata about a tileset.
#[derive(Debug)]
pub struct Asset {
    pub version: Option<String>,
}

/// A tile: its content links, its children and its geometric error.
#[verifier::reject_recursive_types(G)]
#[derive(Debug)]
#[allow(non_snake_case)]
pub struct Tile<G> {
    pub content: Option<Content>,
    /// Several contents (3D Tiles 1.1).
    pub contents: Option<Vec<Content>>,
    pub children: Vec<Tile<G>>,
    pub geometricError: Option<G>,
}

/// A link to tile content.
#[derive(Debug, Clone)]
pub struct Content {
    pub uri: String,
}

/// The content URIs of a tree in preorder: a tile's single content, then its
/// contents in order, then those of its children in order.
pub open spec fn tile_content_uris<G>(t: Tile<G>) -> Seq<Seq<char>>
    decreases t,
{
    (match t.content {
        Some(c) => seq![c.uri@],
        None => Seq::empty(),
    }) + (match t.contents {
        Some(v) => v@.map_values(|c: Content| c.uri@),
        None => Seq::empty(),
    }) + forest_content_uris(t.children@)
}

/// The content URIs of a list of trees in preorder.
pub open spec fn forest_content_uris<G>(s: Seq<Tile<G>>) -> Seq<Seq<char>>
    decreases s,
{
    if s.len() == 0 {
        Seq::empty()
    } else {
        forest_content_uris(s.drop_last()) + tile_content_uris(s.last())
    }
}

fn visit<G>(tile: &Tile<G>, out: &mut Vec<String>)
    ensures
        final(out)@.map_values(|s: String| s@) == old(out)@.map_values(|s: String| s@)
            + tile_content_uris(*tile),
    decreases tile,
{
    let ghost start = out@.map_values(|s: String| s@);
    if let Some(c) = &tile.content {
        let ghost before = out@;
        out.push(c.uri.clone());
        assert(out@.map_values(|s: String| s@) =~= before.map_values(|s: String| s@).push(c.uri@));
    }
    let ghost first = match &tile.content {
        Some(c) => seq![c.uri@],
        None => Seq::<Seq<char>>::empty(),
    };
    assert(out@.map_values(|s: String| s@) =~= start + first);
    let ghost second = match &tile.contents {
        Some(v) => v@.map_values(|c: Content| c.uri@),
        None => Seq::<Seq<char>>::empty(),
    };
    if let Some(multi) = &tile.contents {
        let mut i: usize = 0;
        while i < multi.len()
            invariant
                i <= multi@.len(),
                out@.map_values(|s: String| s@) =~= start + first + multi@.take(i as int).map_values(
                    |c: Content| c.uri@,
                ),
            decreases multi.len() - i,
        {
            let ghost before = out@;
            out.push(multi[i].uri.clone());
            assert(multi@.take(i as int + 1) =~= multi@.take(i as int).push(multi@[i as int]));
            assert(out@.map_values(|s: String| s@) =~= before.map_values(|s: String| s@).push(
                multi@[i as int].uri@,
            ));
            i = i + 1;
        }
        assert(multi@.take(i as int) =~= multi@);
    }
    assert(out@.map_values(|s: String| s@) =~= start + first + second);
    let mut i: usize = 0;
    while i < tile.children.len()
        invariant
            i <= tile.children@.len(),
            out@.map_values(|s: String| s@) =~= start + first + second + forest_content_uris(
                tile.children@.take(i as int),
            ),
        decreases tile.children.len() - i,
    {
        proof {
            assert(decreases_to!(tile => tile.children));
            assert(decreases_to!(tile.children => tile.children@));
            assert(decreases_to!(tile.children@ => tile.children@[i as int]));
            assert(tile.children@.take(i as int + 1).drop_last() =~= tile.children@.take(i as int));
            assert(tile.children@.take(i as int + 1).last() == tile.children@[i as int]);
        }
        visit(&tile.children[i], out);
        i = i + 1;
    }
    assert(tile.children@.take(i as int) =~= tile.children@);
}

/// The content URIs of a tileset, in preorder: each tile's single content,
/// then its contents, then its children's.
pub fn collect_content_uris<G>(tileset: &Tileset<G>) -> (uris: Vec<String>)
    ensures
        uris@.map_values(|s: String| s@) == tile_content_uris(tileset.root),
{
    let mut uris: Vec<String> = Vec::new();
    assert(uris@.map_values(|s: String| s@) =~= Seq::<Seq<char>>::empty());
    visit(&tileset.root, &mut uris);
    assert(uris@.map_values(|s: String| s@) =~= tile_content_uris(tileset.root));
    uris
}

/// Resolves a content URI against a base directory: the URI without its
/// query and fragment, joined to `base_dir` unless it is absolute.
pub fn resolve_uri(base_dir: &str, uri: &str) -> (res: String)
    ensures
        res@ == spec_join(base_dir@, spec_strip_query_and_fragment(uri@)),
{
    crate::utils::resolve_uri(base_dir, uri)
}

/// The resolved paths of the URIs that name glTF content, in order: the
/// files that loading the glTF assets of a tileset imports.
pub open spec fn gltf_asset_paths_spec(base_dir: Seq<char>, uris: Seq<Seq<char>>) -> Seq<Seq<char>>
    decreases uris.len(),
{
    if uris.len() == 0 {
        Seq::empty()
    } else {
        let path = spec_join(base_dir, spec_strip_query_and_fragment(uris.last()));
        if spec_is_gltf_like(path) {
            gltf_asset_paths_spec(base_dir, uris.drop_last()).push(path)
        } else {
            gltf_asset_paths_spec(base_dir, uris.drop_last())
        }
    }
}

/// Resolves the URIs against `base_dir` and keeps those that name glTF
/// content, in order.
pub fn gltf_asset_paths(base_dir: &str, uris: &[String]) -> (paths: Vec<String>)
    ensures
        paths@.map_values(|s: String| s@) == gltf_asset_paths_spec(
            base_dir@,
            uris@.map_values(|s: String| s@),
        ),
{
    let ghost all = uris@.map_values(|s: String| s@);
    let mut paths: Vec<String> = Vec::new();
    let mut i: usize = 0;
    while i < uris.len()
        invariant
            i <= uris@.len(),
            all == uris@.map_values(|s: String| s@),
            paths@.map_values(|s: String| s@) =~= gltf_asset_paths_spec(base_dir@, all.take(i as int)),
        decreases uris.len() - i,
    {
        let path = resolve_uri(base_dir, uris[i].as_str());
        proof {
            assert(all.take(i as int + 1).drop_last() =~= all.take(i as int));
            assert(all.take(i as int + 1).last() == uris@[i as int]@);
        }
        if is_gltf_like(path.as_str()) {
            let ghost before = paths@;
            paths.push(path);
            assert(paths@.map_values(|s: String| s@) =~= before.map_values(|s: String| s@).push(
                path@,
            ));
        }
        i = i + 1;
    }
    assert(all.take(i as int) =~= all);
    paths
}

/// A glTF asset imported from a tileset's content.
pub struct LoadedGltfAsset {
    pub source_path: String,
    pub document: ::gltf::Document,
    pub buffers: Vec<::gltf::buffer::Data>,
    pub images: Vec<::gltf::image::Data>,
}

/// What a glTF document holds, as summaries read it: the number of
/// primitives of each of its meshes, in mesh order.
pub uninterp spec fn gltf_mesh_primitive_counts(document: ::gltf::Document) -> Seq<usize>;

/// The number of nodes of a glTF document.
pub uninterp spec fn gltf_node_count(document: ::gltf::Document) -> usize;

/// `gltf::Document::meshes`, each mesh read through `gltf::Mesh::primitives`:
/// the number of primitives of each mesh, in mesh order.
#[verifier::external_body]
fn mesh_primitive_counts(document: &::gltf::Document) -> (counts: Vec<usize>)
    ensures
        counts@ == gltf_mesh_primitive_counts(*document),
{
    document.meshes().map(|mesh| mesh.primitives().len()).collect()
}

/// `gltf::Document::nodes`: the number of nodes of the document.
#[verifier::external_body]
fn node_count(document: &::gltf::Document) -> (n: usize)
    ensures
        n == gltf_node_count(*document),
{
    document.nodes().len()
}

/// The sum of a sequence of counts.
pub open spec fn total(s: Seq<usize>) -> nat
    decreases s.len(),
{
    if s.len() == 0 {
        0
    } else {
        total(s.drop_last()) + s.last() as nat
    }
}

proof fn lemma_total_prefix(s: Seq<usize>, k: int)
    requires
        0 <= k <= s.len(),
    ensures
        total(s.take(k)) <= total(s),
    decreases s.len(),
{
    if k < s.len() {
        assert(s.drop_last().take(k) =~= s.take(k));
        lemma_total_prefix(s.drop_last(), k);
    } else {
        assert(s.take(k) =~= s);
    }
}

fn sum_counts(counts: &Vec<usize>) -> (res: Option<usize>)
    ensures
        total(counts@) <= usize::MAX ==> res == Some(total(counts@) as usize),
        total(counts@) > usize::MAX ==> res is None,
{
    let mut sum: usize = 0;
    let mut i: usize = 0;
    while i < counts.len()
        invariant
            i <= counts@.len(),
            sum as int == total(counts@.take(i as int)),
        decreases counts.len() - i,
    {
        proof {
            assert(counts@.take(i as int + 1).drop_last() =~= counts@.take(i as int));
            lemma_total_prefix(counts@, i as int + 1);
        }
        match sum.checked_add(counts[i]) {
            Some(s) => sum = s,
            None => {
                return None;
            },
        }
        i = i + 1;
    }
    assert(counts@.take(i as int) =~= counts@);
    Some(sum)
}

/// Counts of a glTF document: its meshes, its nodes, and the primitives of
/// all its meshes together.
pub fn summarize_gltf(doc: &::gltf::Document) -> (res: (usize, usize, usize))
    requires
        total(gltf_mesh_primitive_counts(*doc)) <= usize::MAX,
    ensures
        res.0 == gltf_mesh_primitive_counts(*doc).len(),
        res.1 == gltf_node_count(*doc),
        res.2 == total(gltf_mesh_primitive_counts(*doc)),
{
    let counts = mesh_primitive_counts(doc);
    let mesh_count = counts.len();
    let nodes = node_count(doc);
    let primitive_count = match sum_counts(&counts) {
        Some(n) => n,
        None => 0,
    };
    (mesh_count, nodes, primitive_count)
}

/// `summarize_gltf` where its counts fit in a `usize`; `None` where the
/// document's primitives are too many to count.
pub fn checked_summarize_gltf(doc: &::gltf::Document) -> (res: Option<(usize, usize, usize)>)
    ensures
        total(gltf_mesh_primitive_counts(*doc)) <= usize::MAX ==> res == Some(
            (
                gltf_mesh_primitive_counts(*doc).len() as usize,
                gltf_node_count(*doc),
                total(gltf_mesh_primitive_counts(*doc)) as usize,
            ),
        ),
        total(gltf_mesh_primitive_counts(*doc)) > usize::MAX ==> res is None,
{
    let counts = mesh_primitive_counts(doc);
    match sum_counts(&counts) {
        Some(_) => Some(summarize_gltf(doc)),
        None => None,
    }
}

} // verus!

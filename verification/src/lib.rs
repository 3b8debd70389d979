use std::collections::HashMap;
use vstd::prelude::*;
use vstd::string::*;

use crate::error::TesseraError;
use crate::tileset::traverse::{
    TilesetNode, lemma_numbered_tree_nodes_precede_parents, registers, tree_sources,
};
use crate::tileset::{Tile, Tileset, forest_numbered_from, forest_size, numbered_from, tree_size};
use crate::utils::{decimal, spec_decimal};

pub mod error;
pub mod geometry;
pub mod tile;
pub mod tiles;
pub mod tileset;
pub mod utils;

verus! {

broadcast use vstd::std_specs::hash::group_hash_axioms;

/// Whether the node map holds a calculated geometric error for the tile
/// `id`.
pub open spec fn has_calculated_error<G>(m: Map<usize, TilesetNode<G>>, id: usize) -> bool {
    m.contains_key(id) && m[id].geometric_error is Some
}

/// The id of the first tile, in preorder, without a calculated geometric
/// error in the node map.
pub open spec fn first_uncalculated<G, T, C>(t: Tile<G, T, C>, m: Map<usize, TilesetNode<G>>) -> Option<usize>
    decreases t,
{
    if !has_calculated_error(m, t.id) {
        Some(t.id)
    } else {
        forest_first_uncalculated(t.children@, m)
    }
}

/// `first_uncalculated` of a list of trees.
pub open spec fn forest_first_uncalculated<G, T, C>(s: Seq<Tile<G, T, C>>, m: Map<usize, TilesetNode<G>>) -> Option<usize>
    decreases s,
{
    if s.len() == 0 {
        None
    } else {
        match forest_first_uncalculated(s.drop_last(), m) {
            Some(id) => Some(id),
            None => first_uncalculated(s.last(), m),
        }
    }
}

/// `a` is `b` with every tile's geometric error replaced by the one the node
/// map calculated for the tile's id.
pub open spec fn with_calculated_errors<G, T, C>(a: Tile<G, T, C>, b: Tile<G, T, C>, m: Map<usize, TilesetNode<G>>) -> bool
    decreases a,
{
    &&& a.id == b.id
    &&& a.geometric_error == m[b.id].geometric_error.unwrap()
    &&& a.refine == b.refine
    &&& a.content == b.content
    &&& a.contents == b.contents
    &&& a.has_implicit_tiling == b.has_implicit_tiling
    &&& a.extra == b.extra
    &&& forest_with_calculated_errors(a.children@, b.children@, m)
}

/// `with_calculated_errors` of two lists of trees.
pub open spec fn forest_with_calculated_errors<G, T, C>(s: Seq<Tile<G, T, C>>, r: Seq<Tile<G, T, C>>, m: Map<usize, TilesetNode<G>>) -> bool
    decreases s,
{
    &&& s.len() == r.len()
    &&& s.len() > 0 ==> {
        &&& forest_with_calculated_errors(s.drop_last(), r.drop_last(), m)
        &&& with_calculated_errors(s.last(), r.last(), m)
    }
}

/// The message of the error for a tile without a calculated geometric
/// error.
pub open spec fn uncalculated_message<G>(m: Map<usize, TilesetNode<G>>, id: usize) -> Seq<char> {
    if m.contains_key(id) {
        "Geometric error not found for tile "@ + spec_decimal(id as nat)
    } else {
        "Tileset node not found for tile "@ + spec_decimal(id as nat)
    }
}

proof fn lemma_first_uncalculated_prefix<G, T, C>(s: Seq<Tile<G, T, C>>, k: int, m: Map<usize, TilesetNode<G>>)
    requires
        0 <= k <= s.len(),
        forest_first_uncalculated(s.take(k), m) is Some,
    ensures
        forest_first_uncalculated(s, m) == forest_first_uncalculated(s.take(k), m),
    decreases s.len(),
{
    if k < s.len() {
        assert(s.drop_last().take(k) =~= s.take(k));
        lemma_first_uncalculated_prefix(s.drop_last(), k, m);
    } else {
        assert(s.take(k) =~= s);
    }
}

fn uncalculated_error<G>(node_map: &HashMap<usize, TilesetNode<G>>, id: usize) -> (e: TesseraError)
    ensures
        e matches TesseraError::Tileset(msg) && msg@ == uncalculated_message(node_map@, id),
{
    let mut msg = if node_map.contains_key(&id) {
        String::from_str("Geometric error not found for tile ")
    } else {
        String::from_str("Tileset node not found for tile ")
    };
    let d = decimal(id as u64);
    msg.append(d.as_str());
    TesseraError::Tileset(msg)
}

fn traverse_and_set<G: Copy, T, C>(tile: &mut Tile<G, T, C>, node_map: &HashMap<usize, TilesetNode<G>>) -> (res: Result<(), TesseraError>)
    ensures
        match first_uncalculated(*old(tile), node_map@) {
            None => res is Ok && with_calculated_errors(*final(tile), *old(tile), node_map@),
            Some(id) => res matches Err(TesseraError::Tileset(msg)) && msg@ == uncalculated_message(
                node_map@,
                id,
            ),
        },
    decreases *old(tile),
{
    let calculated = match node_map.get(&tile.id) {
        Some(node) => match node.geometric_error {
            Some(e) => e,
            None => {
                return Err(uncalculated_error(node_map, tile.id));
            },
        },
        None => {
            return Err(uncalculated_error(node_map, tile.id));
        },
    };
    tile.geometric_error = calculated;
    let mut pending: Vec<Tile<G, T, C>> = Vec::new();
    std::mem::swap(&mut pending, &mut tile.children);
    let ghost orig = pending@;
    let ghost old_tile = *old(tile);
    let ghost m = node_map@;
    while pending.len() > 0
        invariant
            old_tile == *old(tile),
            m == node_map@,
            orig == old_tile.children@,
            has_calculated_error(m, old_tile.id),
            tile.id == old_tile.id,
            tile.geometric_error == m[old_tile.id].geometric_error.unwrap(),
            tile.refine == old_tile.refine,
            tile.content == old_tile.content,
            tile.contents == old_tile.contents,
            tile.has_implicit_tiling == old_tile.has_implicit_tiling,
            tile.extra == old_tile.extra,
            tile.children@.len() + pending@.len() == orig.len(),
            pending@ == orig.skip(tile.children@.len() as int),
            forest_with_calculated_errors(tile.children@, orig.take(tile.children@.len() as int), m),
            forest_first_uncalculated(orig.take(tile.children@.len() as int), m) is None,
        decreases pending@.len(),
    {
        let ghost k = tile.children@.len() as int;
        let ghost done = tile.children@;
        let mut child = pending.remove(0);
        proof {
            assert(child == orig[k]);
            assert(decreases_to!(old_tile => old_tile.children));
            assert(decreases_to!(old_tile.children => old_tile.children@));
            assert(decreases_to!(old_tile.children@ => old_tile.children@[k]));
            assert(decreases_to!(old_tile => child));
        }
        let r = traverse_and_set(&mut child, node_map);
        tile.children.push(child);
        proof {
            assert(tile.children@.drop_last() =~= done);
            assert(orig.take(k + 1).drop_last() =~= orig.take(k));
            assert(orig.take(k + 1).last() == orig[k]);
            assert(pending@ =~= orig.skip(k + 1));
        }
        match r {
            Err(e) => {
                tile.children.append(&mut pending);
                proof {
                    lemma_first_uncalculated_prefix(orig, k + 1, m);
                }
                return Err(e);
            },
            Ok(()) => {},
        }
    }
    proof {
        assert(orig.take(orig.len() as int) =~= orig);
    }
    Ok(())
}

/// Copies the calculated geometric errors of the node map into the
/// tileset's tiles, each tile taking the error of the node with its id.
///
/// A tile whose id has no node, or whose node has no calculated error, is
/// refused with a `Tileset` error that names the first such tile in
/// preorder.
pub fn set_tileset_geometric_error<G: Copy, T, C, A>(
    tileset: &mut Tileset<G, T, C, A>,
    node_map: &HashMap<usize, TilesetNode<G>>,
) -> (res: Result<(), TesseraError>)
    ensures
        match first_uncalculated(old(tileset).root, node_map@) {
            None => {
                &&& res is Ok
                &&& with_calculated_errors(final(tileset).root, old(tileset).root, node_map@)
                &&& final(tileset).geometric_error == old(tileset).geometric_error
                &&& final(tileset).extra == old(tileset).extra
            },
            Some(id) => res matches Err(TesseraError::Tileset(msg)) && msg@ == uncalculated_message(
                node_map@,
                id,
            ),
        },
{
    traverse_and_set(&mut tileset.root, node_map)
}

proof fn lemma_numbered_all_calculated<G, T, C>(t: Tile<G, T, C>, start: int, m: Map<usize, TilesetNode<G>>)
    requires
        numbered_from(t, start),
        forall|k: usize| start <= k < start + tree_size(t) ==> #[trigger] has_calculated_error(m, k),
    ensures
        first_uncalculated(t, m) is None,
    decreases t,
{
    lemma_forest_numbered_all_calculated(t.children@, start + 1, m);
}

proof fn lemma_forest_numbered_all_calculated<G, T, C>(s: Seq<Tile<G, T, C>>, start: int, m: Map<usize, TilesetNode<G>>)
    requires
        forest_numbered_from(s, start),
        forall|k: usize| start <= k < start + forest_size(s) ==> #[trigger] has_calculated_error(m, k),
    ensures
        forest_first_uncalculated(s, m) is None,
    decreases s,
{
    if s.len() > 0 {
        lemma_forest_numbered_all_calculated(s.drop_last(), start, m);
        lemma_numbered_all_calculated(s.last(), start + forest_size(s.drop_last()), m);
    }
}

/// Once every node of the map that `parse_tileset_nodes` builds for a tree
/// numbered in preorder from 0 has a calculated geometric error, copying the
/// errors back into the tree succeeds: every tile has its node.
pub proof fn lemma_calculated_node_map_covers_every_tile<G, T, C>(
    root: Tile<G, T, C>,
    built: Map<usize, TilesetNode<G>>,
    calculated: Map<usize, TilesetNode<G>>,
)
    requires
        numbered_from(root, 0),
        registers(built, Map::empty(), tree_sources(root, None)),
        calculated.dom() == built.dom(),
        forall|k: usize| #[trigger] calculated.contains_key(k) ==> calculated[k].geometric_error is Some,
    ensures
        first_uncalculated(root, calculated) is None,
{
    lemma_numbered_tree_nodes_precede_parents(root, built);
    assert forall|k: usize| 0 <= k < 0 + tree_size(root) implies #[trigger] has_calculated_error(
        calculated,
        k,
    ) by {
        assert(built.contains_key(k));
        assert(calculated.contains_key(k));
    }
    lemma_numbered_all_calculated(root, 0, calculated);
}

} // verus!

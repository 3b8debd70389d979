use vstd::prelude::*;
use std::collections::HashMap;

use crate::tileset::{Content, Tile, Tileset, forest_numbered_from, forest_size, numbered_from, tree_size};

verus! {

broadcast use vstd::std_specs::hash::group_hash_axioms;

/// A tile of the tree as a node of the node map: its content URIs, the ids
/// of its parent and children, and its geometric errors as given and as
/// calculated.
#[derive(Debug)]
pub struct TilesetNode<G> {
    pub id: usize,
    pub content: Vec<String>,
    pub parent_id: Option<usize>,
    pub child_ids: Vec<usize>,
    /// The geometric error that the tileset gave the tile.
    pub original_geometric_error: G,
    /// The geometric error calculated for the tile, once it is.
    pub geometric_error: Option<G>,
}

impl<G> TilesetNode<G> {
    pub fn add_content(&mut self, content: String)
        ensures
            final(self).content@ == old(self).content@.push(content),
            final(self).id == old(self).id,
            final(self).parent_id == old(self).parent_id,
            final(self).child_ids == old(self).child_ids,
            final(self).original_geometric_error == old(self).original_geometric_error,
            final(self).geometric_error == old(self).geometric_error,
    {
        self.content.push(content);
    }

    pub fn add_child(&mut self, child_id: usize)
        ensures
            final(self).child_ids@ == old(self).child_ids@.push(child_id),
            final(self).id == old(self).id,
            final(self).parent_id == old(self).parent_id,
            final(self).content == old(self).content,
            final(self).original_geometric_error == old(self).original_geometric_error,
            final(self).geometric_error == old(self).geometric_error,
    {
        self.child_ids.push(child_id);
    }

    /// A node is a leaf when it has no children.
    pub fn is_leaf(&self) -> (res: bool)
        ensures
            res == (self.child_ids@.len() == 0),
    {
        self.child_ids.is_empty()
    }
}

/// The content URIs of a tile: its single content's, else those of its
/// contents in order, else none.
pub open spec fn content_uris<G, T, C>(t: Tile<G, T, C>) -> Seq<Seq<char>> {
    match t.content {
        Some(c) => seq![c.uri@],
        None => match t.contents {
            Some(v) => v@.map_values(|c: Content<C>| c.uri@),
            None => Seq::empty(),
        },
    }
}

/// The ids of a tile's children, in order.
pub open spec fn child_ids_of<G, T, C>(t: Tile<G, T, C>) -> Seq<usize> {
    t.children@.map_values(|c: Tile<G, T, C>| c.id)
}

/// `n` is the node of tile `t`, whose parent has the id `parent`.
pub open spec fn describes<G, T, C>(n: TilesetNode<G>, t: Tile<G, T, C>, parent: Option<usize>) -> bool {
    &&& n.id == t.id
    &&& n.content@.map_values(|s: String| s@) == content_uris(t)
    &&& n.parent_id == parent
    &&& n.child_ids@ == child_ids_of(t)
    &&& n.original_geometric_error == t.geometric_error
    &&& n.geometric_error is None
}

/// Each id of a tree mapped to the tile that has it and that tile's
/// parent's id. The walk registers children before their parent and
/// siblings in order, a later registration replacing an earlier one with
/// the same id.
pub open spec fn tree_sources<G, T, C>(t: Tile<G, T, C>, parent: Option<usize>) -> Map<
    usize,
    (Tile<G, T, C>, Option<usize>),
>
    decreases t,
{
    forest_sources(t.children@, Some(t.id)).insert(t.id, (t, parent))
}

/// `tree_sources` of a list of sibling trees whose parent has the id
/// `parent`.
pub open spec fn forest_sources<G, T, C>(s: Seq<Tile<G, T, C>>, parent: Option<usize>) -> Map<
    usize,
    (Tile<G, T, C>, Option<usize>),
>
    decreases s,
{
    if s.len() == 0 {
        Map::empty()
    } else {
        forest_sources(s.drop_last(), parent).union_prefer_right(tree_sources(s.last(), parent))
    }
}

/// The ids of a tree's leaves, left to right.
pub open spec fn tree_leaves<G, T, C>(t: Tile<G, T, C>) -> Seq<usize>
    decreases t,
{
    if t.children@.len() == 0 {
        seq![t.id]
    } else {
        forest_leaves(t.children@)
    }
}

/// The ids of the leaves of a list of trees, left to right.
pub open spec fn forest_leaves<G, T, C>(s: Seq<Tile<G, T, C>>) -> Seq<usize>
    decreases s,
{
    if s.len() == 0 {
        Seq::empty()
    } else {
        forest_leaves(s.drop_last()) + tree_leaves(s.last())
    }
}

/// `new` is `old` with a node registered for every id of `src`, each
/// describing the tile and parent that `src` gives for it.
pub open spec fn registers<G, T, C>(
    new: Map<usize, TilesetNode<G>>,
    old: Map<usize, TilesetNode<G>>,
    src: Map<usize, (Tile<G, T, C>, Option<usize>)>,
) -> bool {
    &&& new.dom() == old.dom().union(src.dom())
    &&& forall|k: usize|
        #![trigger new[k]]
        new.contains_key(k) ==> (if src.contains_key(k) {
            describes(new[k], src[k].0, src[k].1)
        } else {
            new[k] == old[k]
        })
}

proof fn lemma_registers_trans<G, T, C>(
    m1: Map<usize, TilesetNode<G>>,
    m2: Map<usize, TilesetNode<G>>,
    m3: Map<usize, TilesetNode<G>>,
    s1: Map<usize, (Tile<G, T, C>, Option<usize>)>,
    s2: Map<usize, (Tile<G, T, C>, Option<usize>)>,
)
    requires
        registers(m2, m1, s1),
        registers(m3, m2, s2),
    ensures
        registers(m3, m1, s1.union_prefer_right(s2)),
{
    assert(m3.dom() =~= m1.dom().union(s1.union_prefer_right(s2).dom()));
    assert forall|k: usize| #![trigger m3[k]] m3.contains_key(k) implies (if s1.union_prefer_right(
        s2,
    ).contains_key(k) {
        describes(m3[k], s1.union_prefer_right(s2)[k].0, s1.union_prefer_right(s2)[k].1)
    } else {
        m3[k] == m1[k]
    }) by {
        if s2.contains_key(k) {
        } else {
            assert(m3[k] == m2[k]);
        }
    }
}

fn collect_content_uris_of<G, T, C>(tile: &Tile<G, T, C>) -> (res: Vec<String>)
    ensures
        res@.map_values(|s: String| s@) == content_uris(*tile),
{
    let mut out: Vec<String> = Vec::new();
    match &tile.content {
        Some(content) => {
            out.push(content.uri.clone());
            assert(out@.map_values(|s: String| s@) =~= content_uris(*tile));
        },
        None => match &tile.contents {
            Some(contents) => {
                let mut i: usize = 0;
                while i < contents.len()
                    invariant
                        i <= contents@.len(),
                        out@.map_values(|s: String| s@) =~= contents@.take(i as int).map_values(
                            |c: Content<C>| c.uri@,
                        ),
                    decreases contents.len() - i,
                {
                    let ghost before = out@;
                    let uri = contents[i].uri.clone();
                    out.push(uri);
                    assert(contents@.take(i as int + 1) =~= contents@.take(i as int).push(
                        contents@[i as int],
                    ));
                    assert(out@.map_values(|s: String| s@) =~= before.map_values(|s: String| s@).push(
                        contents@[i as int].uri@,
                    ));
                    i = i + 1;
                }
                assert(contents@.take(i as int) =~= contents@);
            },
            None => {
                assert(out@.map_values(|s: String| s@) =~= content_uris(*tile));
            },
        },
    }
    out
}

fn traverse<G: Copy, T, C>(
    tile: &Tile<G, T, C>,
    parent_id: Option<usize>,
    node_map: &mut HashMap<usize, TilesetNode<G>>,
    leaf_ids: &mut Vec<usize>,
) -> (key: usize)
    ensures
        key == tile.id,
        registers(final(node_map)@, old(node_map)@, tree_sources(*tile, parent_id)),
        final(leaf_ids)@ == old(leaf_ids)@ + tree_leaves(*tile),
    decreases tile,
{
    let content = collect_content_uris_of(tile);
    let mut node = TilesetNode {
        id: tile.id,
        content,
        parent_id,
        child_ids: Vec::new(),
        original_geometric_error: tile.geometric_error,
        geometric_error: None,
    };
    let ghost map0 = node_map@;
    let ghost leaves0 = leaf_ids@;
    proof {
        let empty_src = forest_sources(tile.children@.take(0), Some(tile.id));
        assert(tile.children@.take(0) =~= Seq::<Tile<G, T, C>>::empty());
        assert(map0.dom().union(empty_src.dom()) =~= map0.dom());
        assert(leaf_ids@ =~= leaves0 + forest_leaves(tile.children@.take(0)));
    }
    let mut i: usize = 0;
    while i < tile.children.len()
        invariant
            i <= tile.children@.len(),
            node.id == tile.id,
            node.content@.map_values(|s: String| s@) == content_uris(*tile),
            node.parent_id == parent_id,
            node.original_geometric_error == tile.geometric_error,
            node.geometric_error is None,
            node.child_ids@ == tile.children@.take(i as int).map_values(|c: Tile<G, T, C>| c.id),
            registers(node_map@, map0, forest_sources(tile.children@.take(i as int), Some(tile.id))),
            leaf_ids@ == leaves0 + forest_leaves(tile.children@.take(i as int)),
        decreases tile.children.len() - i,
    {
        let ghost map1 = node_map@;
        let ghost leaves1 = leaf_ids@;
        let child = &tile.children[i];
        proof {
            assert(decreases_to!(tile => tile.children));
            assert(decreases_to!(tile.children => tile.children@));
            assert(decreases_to!(tile.children@ => tile.children@[i as int]));
        }
        let child_id = traverse(child, Some(tile.id), node_map, leaf_ids);
        node.add_child(child_id);
        proof {
            let pre = tile.children@.take(i as int);
            let next = tile.children@.take(i as int + 1);
            assert(next.drop_last() =~= pre);
            assert(next.last() == tile.children@[i as int]);
            lemma_registers_trans(
                map0,
                map1,
                node_map@,
                forest_sources(pre, Some(tile.id)),
                tree_sources(*child, Some(tile.id)),
            );
            assert(next.map_values(|c: Tile<G, T, C>| c.id) =~= pre.map_values(
                |c: Tile<G, T, C>| c.id,
            ).push(child_id));
            assert(leaf_ids@ =~= leaves0 + forest_leaves(next));
        }
        i = i + 1;
    }
    proof {
        assert(tile.children@.take(i as int) =~= tile.children@);
    }
    let key = node.id;
    if node.is_leaf() {
        leaf_ids.push(key);
        proof {
            assert(tile.children@.len() == 0);
            assert(leaf_ids@ =~= leaves0 + tree_leaves(*tile));
        }
    } else {
        proof {
            assert(leaf_ids@ =~= leaves0 + tree_leaves(*tile));
        }
    }
    let ghost map2 = node_map@;
    node_map.insert(key, node);
    proof {
        let src = tree_sources(*tile, parent_id);
        let fs = forest_sources(tile.children@, Some(tile.id));
        assert(node_map@.dom() =~= map0.dom().union(src.dom()));
        assert forall|k: usize| #![trigger node_map@[k]] node_map@.contains_key(k) implies (if src.contains_key(k) {
            describes(node_map@[k], src[k].0, src[k].1)
        } else {
            node_map@[k] == map0[k]
        }) by {
            if k != key {
                assert(node_map@[k] == map2[k]);
            }
        }
    }
    key
}

/// Builds the node map of a tileset's tile tree: a node per tile id, with
/// its content URIs, parent id and child ids; together with the root's id
/// and the ids of the leaves, left to right.
///
/// Tiles are registered children first, siblings in order, so that when
/// two tiles share an id the one registered last is kept.
pub fn parse_tileset_nodes<G: Copy, T, C, A>(tileset: &Tileset<G, T, C, A>) -> (res: (
    HashMap<usize, TilesetNode<G>>,
    usize,
    Vec<usize>,
))
    ensures
        registers(res.0@, Map::empty(), tree_sources(tileset.root, None)),
        res.1 == tileset.root.id,
        res.2@ == tree_leaves(tileset.root),
{
    let mut node_map: HashMap<usize, TilesetNode<G>> = HashMap::new();
    let mut leaf_ids: Vec<usize> = Vec::new();
    traverse(&tileset.root, None, &mut node_map, &mut leaf_ids);
    assert(leaf_ids@ =~= tree_leaves(tileset.root));
    (node_map, tileset.root.id, leaf_ids)
}

/// Every node of the map sits under its own id, and every node's parent is
/// in the map under a smaller id.
pub open spec fn parents_precede<G>(m: Map<usize, TilesetNode<G>>) -> bool {
    forall|k: usize|
        #![trigger m[k]]
        m.contains_key(k) ==> {
            &&& m[k].id == k
            &&& (m[k].parent_id matches Some(p) ==> p < k && m.contains_key(p))
        }
}

proof fn lemma_tree_sources_numbered<G, T, C>(t: Tile<G, T, C>, start: int, parent: Option<usize>)
    requires
        numbered_from(t, start),
        parent matches Some(p) ==> p < start,
    ensures
        forall|k: usize|
            #![trigger tree_sources(t, parent).contains_key(k)]
            tree_sources(t, parent).contains_key(k) <==> start <= k < start + tree_size(t),
        forall|k: usize|
            #![trigger tree_sources(t, parent)[k]]
            tree_sources(t, parent).contains_key(k) ==> {
                &&& tree_sources(t, parent)[k].0.id == k
                &&& (tree_sources(t, parent)[k].1 matches Some(q) ==> q < k && (start <= q || (k
                    == start && parent == Some(q))))
                &&& (tree_sources(t, parent)[k].1 is None ==> k == start && parent is None)
            },
    decreases t,
{
    lemma_forest_sources_numbered(t.children@, start + 1, Some(t.id));
}

proof fn lemma_forest_sources_numbered<G, T, C>(s: Seq<Tile<G, T, C>>, start: int, parent: Option<usize>)
    requires
        forest_numbered_from(s, start),
        parent matches Some(p) ==> p < start,
    ensures
        forall|k: usize|
            #![trigger forest_sources(s, parent).contains_key(k)]
            forest_sources(s, parent).contains_key(k) <==> start <= k < start + forest_size(s),
        forall|k: usize|
            #![trigger forest_sources(s, parent)[k]]
            forest_sources(s, parent).contains_key(k) ==> {
                &&& forest_sources(s, parent)[k].0.id == k
                &&& (forest_sources(s, parent)[k].1 matches Some(q) ==> q < k && (start <= q
                    || parent == Some(q)))
                &&& (forest_sources(s, parent)[k].1 is None ==> parent is None)
            },
    decreases s,
{
    if s.len() > 0 {
        let mid = start + forest_size(s.drop_last());
        lemma_forest_sources_numbered(s.drop_last(), start, parent);
        lemma_tree_sources_numbered(s.last(), mid, parent);
        let a = forest_sources(s.drop_last(), parent);
        let b = tree_sources(s.last(), parent);
        assert forall|k: usize| #![trigger forest_sources(s, parent)[k]]
            forest_sources(s, parent).contains_key(k) implies {
                &&& forest_sources(s, parent)[k].0.id == k
                &&& (forest_sources(s, parent)[k].1 matches Some(q) ==> q < k && (start <= q
                    || parent == Some(q)))
                &&& (forest_sources(s, parent)[k].1 is None ==> parent is None)
            } by {
            if b.contains_key(k) {
                assert(b[k].0.id == k);
            } else {
                assert(a.contains_key(k));
                assert(a[k].0.id == k);
            }
        }
    }
}

/// The node map of a tree numbered in preorder from 0 has a node for each
/// number below the tile count and no other, each node under its own id,
/// and every node's parent in the map under a smaller id: walking from any
/// node to its parents reaches the root.
pub proof fn lemma_numbered_tree_nodes_precede_parents<G, T, C>(
    root: Tile<G, T, C>,
    m: Map<usize, TilesetNode<G>>,
)
    requires
        numbered_from(root, 0),
        registers(m, Map::empty(), tree_sources(root, None)),
    ensures
        parents_precede(m),
        forall|k: usize| #[trigger] m.contains_key(k) <==> k < tree_size(root),
{
    lemma_tree_sources_numbered(root, 0, None);
    let src = tree_sources(root, None);
    assert forall|k: usize| #[trigger] m.contains_key(k) <==> k < tree_size(root) by {
        assert(m.contains_key(k) <==> src.contains_key(k));
    }
    assert forall|k: usize| #![trigger m[k]] m.contains_key(k) implies {
        &&& m[k].id == k
        &&& (m[k].parent_id matches Some(p) ==> p < k && m.contains_key(p))
    } by {
        assert(src.contains_key(k));
        assert(describes(m[k], src[k].0, src[k].1));
        if m[k].parent_id is Some {
            let p = m[k].parent_id.unwrap();
            assert(src.contains_key(p));
        }
    }
}

/// The ids met walking from the node `id` to the root, parent first.
pub open spec fn spec_ancestors<G>(m: Map<usize, TilesetNode<G>>, id: usize) -> Seq<usize>
    decreases id,
{
    if m.contains_key(id) {
        match m[id].parent_id {
            Some(p) => if p < id {
                seq![p] + spec_ancestors(m, p)
            } else {
                Seq::empty()
            },
            None => Seq::empty(),
        }
    } else {
        Seq::empty()
    }
}

/// The chain of ancestors of a node, as parent links: empty when the node
/// has no parent; otherwise it starts at the node's parent, each id in it is
/// the parent of the one before, every id is a node of the map, and the last
/// one has no parent.
pub open spec fn is_parent_chain<G>(m: Map<usize, TilesetNode<G>>, id: usize, r: Seq<usize>) -> bool {
    &&& (m[id].parent_id is None ==> r.len() == 0)
    &&& (m[id].parent_id matches Some(p) ==> r.len() > 0 && r[0] == p)
    &&& forall|i: int| 0 <= i < r.len() ==> #[trigger] m.contains_key(r[i])
    &&& forall|i: int| 0 <= i < r.len() - 1 ==> #[trigger] m[r[i]].parent_id == Some(r[i + 1])
    &&& (r.len() > 0 ==> m[r.last()].parent_id is None)
}

/// In a node map where parents precede their children, the ancestors of a
/// node are its parent followed by the ancestors of that parent: every
/// ancestor up to the root, none skipped.
pub proof fn lemma_ancestors_follow_parents<G>(m: Map<usize, TilesetNode<G>>, id: usize)
    requires
        parents_precede(m),
        m.contains_key(id),
    ensures
        is_parent_chain(m, id, spec_ancestors(m, id)),
    decreases id,
{
    let r = spec_ancestors(m, id);
    match m[id].parent_id {
        Some(p) => {
            assert(p < id && m.contains_key(p));
            lemma_ancestors_follow_parents(m, p);
            let rp = spec_ancestors(m, p);
            assert(r == seq![p] + rp);
            assert forall|i: int| 0 <= i < r.len() implies #[trigger] m.contains_key(r[i]) by {
                if i > 0 {
                    assert(r[i] == rp[i - 1]);
                }
            }
            assert forall|i: int| 0 <= i < r.len() - 1 implies #[trigger] m[r[i]].parent_id == Some(
                r[i + 1],
            ) by {
                assert(r[i + 1] == rp[i]);
                if i > 0 {
                    assert(r[i] == rp[i - 1]);
                } else {
                    assert(rp.len() > 0);
                }
            }
            if rp.len() > 0 {
                assert(r.last() == rp.last());
            }
        },
        None => {},
    }
}

/// The ids of the ancestors of a node, from its parent up to the root: the
/// tiles whose geometric error a leaf bounds.
pub fn ancestor_ids<G>(node_map: &HashMap<usize, TilesetNode<G>>, id: usize) -> (res: Vec<usize>)
    requires
        parents_precede(node_map@),
        node_map@.contains_key(id),
    ensures
        res@ == spec_ancestors(node_map@, id),
        is_parent_chain(node_map@, id, res@),
{
    let mut res: Vec<usize> = Vec::new();
    let mut current = id;
    loop
        invariant
            parents_precede(node_map@),
            node_map@.contains_key(id),
            node_map@.contains_key(current),
            res@ + spec_ancestors(node_map@, current) == spec_ancestors(node_map@, id),
        decreases current,
    {
        let node = node_map.get(&current).unwrap();
        assert(node_map@[current] == *node);
        match node.parent_id {
            Some(parent) => {
                proof {
                    assert(res@.push(parent) + spec_ancestors(node_map@, parent) =~= res@ + (seq![
                        parent,
                    ] + spec_ancestors(node_map@, parent)));
                }
                res.push(parent);
                current = parent;
            },
            None => {
                assert(res@ + spec_ancestors(node_map@, current) =~= res@);
                proof {
                    lemma_ancestors_follow_parents(node_map@, id);
                }
                return res;
            },
        }
    }
}

/// In the node map of a tree numbered in preorder from 0, the root (id 0)
/// is the one node without a parent.
pub proof fn lemma_numbered_tree_only_root_lacks_parent<G, T, C>(
    root: Tile<G, T, C>,
    m: Map<usize, TilesetNode<G>>,
)
    requires
        numbered_from(root, 0),
        registers(m, Map::empty(), tree_sources(root, None)),
    ensures
        forall|k: usize| #[trigger] m.contains_key(k) ==> (m[k].parent_id is None <==> k == 0),
{
    lemma_tree_sources_numbered(root, 0, None);
    let src = tree_sources(root, None);
    assert forall|k: usize| #[trigger] m.contains_key(k) implies (m[k].parent_id is None <==> k
        == 0) by {
        assert(src.contains_key(k));
        assert(describes(m[k], src[k].0, src[k].1));
        if k == 0 {
            assert(src[k].0.id == k);
            if src[k].1 is Some {
                let q = src[k].1.unwrap();
                assert(q < k);
            }
        }
    }
}

/// In a node map where parents precede their children and only the node 0
/// lacks a parent, walking up from any other node ends at the node 0.
pub proof fn lemma_ancestors_reach_root<G>(m: Map<usize, TilesetNode<G>>, id: usize)
    requires
        parents_precede(m),
        forall|k: usize| #[trigger] m.contains_key(k) ==> (m[k].parent_id is None <==> k == 0),
        m.contains_key(id),
        id != 0,
    ensures
        spec_ancestors(m, id).len() > 0,
        spec_ancestors(m, id).last() == 0,
    decreases id,
{
    let p = m[id].parent_id.unwrap();
    assert(p < id && m.contains_key(p));
    if p != 0 {
        lemma_ancestors_reach_root(m, p);
        assert((seq![p] + spec_ancestors(m, p)).last() == spec_ancestors(m, p).last());
    } else {
        assert(spec_ancestors(m, 0) =~= Seq::<usize>::empty());
        assert(spec_ancestors(m, id) =~= seq![0usize]);
    }
}

/// Walking up from any tile of a tree numbered in preorder from 0, through
/// the node map that `parse_tileset_nodes` builds for it, ends at the root.
pub proof fn lemma_numbered_tree_ancestors_reach_root<G, T, C>(
    root: Tile<G, T, C>,
    m: Map<usize, TilesetNode<G>>,
    id: usize,
)
    requires
        numbered_from(root, 0),
        registers(m, Map::empty(), tree_sources(root, None)),
        0 < id < tree_size(root),
    ensures
        spec_ancestors(m, id).len() > 0,
        spec_ancestors(m, id).last() == root.id,
{
    lemma_numbered_tree_nodes_precede_parents(root, m);
    lemma_numbered_tree_only_root_lacks_parent(root, m);
    assert(m.contains_key(id));
    lemma_ancestors_reach_root(m, id);
}

} // verus!

use vstd::prelude::*;

pub mod compare;
pub mod loader;
pub mod traverse;

verus! {

/// How a tile's children refine its content.
#[derive(Debug, Clone, Copy, PartialEq, Eq)]
pub enum Refine {
    /// The children's content is added to the tile's content.
    ADD,
    /// The children's content replaces the tile's content.
    REPLACE,
}

/// How an implicitly tiled tile is subdivided.
#[derive(Debug, Clone, Copy, PartialEq, Eq)]
pub enum SubdivisionScheme {
    /// Each tile is split into four square children.
    QUADTREE,
    /// Each tile is split into eight cubic children.
    OCTREE,
}

/// A link from a tile to its content. `extra` holds the content's other
/// properties (bounding volume, metadata, group, extensions), which the
/// library carries without reading them.
#[derive(Debug)]
pub struct Content<C> {
    /// The URI of the content, relative to the tileset file that names it
    /// unless it is absolute.
    pub uri: String,
    pub extra: C,
}

/// A tile of a tileset's tile tree.
///
/// `G` is the type of geometric errors; `T` holds the tile's other
/// properties (bounding volumes, transform, metadata, implicit tiling
/// description, extensions), which the library carries without reading
/// them; `C` is the type of the content's other properties.
#[verifier::reject_recursive_types(G)]
#[verifier::reject_recursive_types(T)]
#[verifier::reject_recursive_types(C)]
#[derive(Debug)]
pub struct Tile<G, T, C> {
    /// The tile's position in a preorder walk of the tree, once numbered.
    pub id: usize,
    /// The error, in metres, of rendering the tile without its children.
    pub geometric_error: G,
    /// Refinement of the tile's children; inherited from the parent when
    /// absent.
    pub refine: Option<Refine>,
    /// The tile's single content.
    pub content: Option<Content<C>>,
    /// The tile's contents, when it has several.
    pub contents: Option<Vec<Content<C>>>,
    /// Whether the tile describes its subtree by implicit tiling.
    pub has_implicit_tiling: bool,
    pub children: Vec<Tile<G, T, C>>,
    pub extra: T,
}

/// A tileset: a tree of tiles and a global geometric error. `A` holds the
/// tileset's other properties (asset, properties, schema, extensions),
/// which the library carries without reading them.
#[verifier::reject_recursive_types(G)]
#[verifier::reject_recursive_types(T)]
#[verifier::reject_recursive_types(C)]
#[derive(Debug)]
pub struct Tileset<G, T, C, A> {
    pub root: Tile<G, T, C>,
    pub geometric_error: Option<G>,
    pub extra: A,
}

/// The number of tiles of a tree.
pub open spec fn tree_size<G, T, C>(t: Tile<G, T, C>) -> nat
    decreases t,
{
    1 + forest_size(t.children@)
}

/// The number of tiles of a list of trees.
pub open spec fn forest_size<G, T, C>(s: Seq<Tile<G, T, C>>) -> nat
    decreases s,
{
    if s.len() == 0 {
        0
    } else {
        forest_size(s.drop_last()) + tree_size(s.last())
    }
}

/// Two trees that differ at most in their tiles' ids.
pub open spec fn same_but_ids<G, T, C>(a: Tile<G, T, C>, b: Tile<G, T, C>) -> bool
    decreases a,
{
    &&& a.geometric_error == b.geometric_error
    &&& a.refine == b.refine
    &&& a.content == b.content
    &&& a.contents == b.contents
    &&& a.has_implicit_tiling == b.has_implicit_tiling
    &&& a.extra == b.extra
    &&& same_forest_but_ids(a.children@, b.children@)
}

/// Two lists of trees that differ at most in their tiles' ids.
pub open spec fn same_forest_but_ids<G, T, C>(s: Seq<Tile<G, T, C>>, r: Seq<Tile<G, T, C>>) -> bool
    decreases s,
{
    &&& s.len() == r.len()
    &&& s.len() > 0 ==> {
        &&& same_forest_but_ids(s.drop_last(), r.drop_last())
        &&& same_but_ids(s.last(), r.last())
    }
}

/// The ids of a tree number its tiles in preorder from `start`: a tile
/// before its children, children in order.
pub open spec fn numbered_from<G, T, C>(t: Tile<G, T, C>, start: int) -> bool
    decreases t,
{
    &&& t.id == start
    &&& forest_numbered_from(t.children@, start + 1)
}

/// The ids of a list of trees number their tiles in preorder from `start`.
pub open spec fn forest_numbered_from<G, T, C>(s: Seq<Tile<G, T, C>>, start: int) -> bool
    decreases s,
{
    s.len() > 0 ==> {
        &&& forest_numbered_from(s.drop_last(), start)
        &&& numbered_from(s.last(), start + forest_size(s.drop_last()))
    }
}

/// Whether some tile of a tree describes implicit tiling.
pub open spec fn any_implicit_tiling<G, T, C>(t: Tile<G, T, C>) -> bool
    decreases t,
{
    t.has_implicit_tiling || forest_any_implicit_tiling(t.children@)
}

/// Whether some tile of a list of trees describes implicit tiling.
pub open spec fn forest_any_implicit_tiling<G, T, C>(s: Seq<Tile<G, T, C>>) -> bool
    decreases s,
{
    s.len() > 0 && (forest_any_implicit_tiling(s.drop_last()) || any_implicit_tiling(s.last()))
}

/// Whether some tile of a tree has the id `id`.
pub open spec fn tree_has_id<G, T, C>(t: Tile<G, T, C>, id: int) -> bool
    decreases t,
{
    t.id == id || forest_has_id(t.children@, id)
}

/// Whether some tile of a list of trees has the id `id`.
pub open spec fn forest_has_id<G, T, C>(s: Seq<Tile<G, T, C>>, id: int) -> bool
    decreases s,
{
    s.len() > 0 && (forest_has_id(s.drop_last(), id) || tree_has_id(s.last(), id))
}

/// The ids of a tree in preorder: a tile before its children, children in
/// order.
pub open spec fn tree_ids<G, T, C>(t: Tile<G, T, C>) -> Seq<int>
    decreases t,
{
    seq![t.id as int] + forest_ids(t.children@)
}

/// The ids of a list of trees in preorder.
pub open spec fn forest_ids<G, T, C>(s: Seq<Tile<G, T, C>>) -> Seq<int>
    decreases s,
{
    if s.len() == 0 {
        Seq::empty()
    } else {
        forest_ids(s.drop_last()) + tree_ids(s.last())
    }
}

/// What names a tile's content in messages: its content's URI, else its
/// first content's URI, else `<no content>`.
pub open spec fn content_label<G, T, C>(t: Tile<G, T, C>) -> Seq<char> {
    match t.content {
        Some(c) => c.uri@,
        None => match t.contents {
            Some(v) => if v@.len() > 0 {
                v@[0].uri@
            } else {
                "<no content>"@
            },
            None => "<no content>"@,
        },
    }
}

/// The first tile, in preorder, that describes implicit tiling, as its
/// preorder number counted from `start` and its content label.
pub open spec fn first_implicit_tiling<G, T, C>(t: Tile<G, T, C>, start: int) -> Option<(int, Seq<char>)>
    decreases t,
{
    if t.has_implicit_tiling {
        Some((start, content_label(t)))
    } else {
        forest_first_implicit_tiling(t.children@, start + 1)
    }
}

/// The first tile, in preorder, of a list of trees that describes implicit
/// tiling, numbered from `start`.
pub open spec fn forest_first_implicit_tiling<G, T, C>(s: Seq<Tile<G, T, C>>, start: int) -> Option<(int, Seq<char>)>
    decreases s,
{
    if s.len() == 0 {
        None
    } else {
        match forest_first_implicit_tiling(s.drop_last(), start) {
            Some(found) => Some(found),
            None => first_implicit_tiling(s.last(), start + forest_size(s.drop_last())),
        }
    }
}

/// A tree has a first tile with implicit tiling exactly when some tile of
/// it, whatever its content, describes implicit tiling.
pub proof fn lemma_first_implicit_iff_any<G, T, C>(t: Tile<G, T, C>, start: int)
    ensures
        first_implicit_tiling(t, start) is Some <==> any_implicit_tiling(t),
    decreases t,
{
    lemma_forest_first_implicit_iff_any(t.children@, start + 1);
}

/// A list of trees has a first tile with implicit tiling exactly when some
/// tile of it describes implicit tiling.
pub proof fn lemma_forest_first_implicit_iff_any<G, T, C>(s: Seq<Tile<G, T, C>>, start: int)
    ensures
        forest_first_implicit_tiling(s, start) is Some <==> forest_any_implicit_tiling(s),
    decreases s,
{
    if s.len() > 0 {
        lemma_forest_first_implicit_iff_any(s.drop_last(), start);
        lemma_first_implicit_iff_any(s.last(), start + forest_size(s.drop_last()));
    }
}

/// Numbering a tree in preorder from `start` gives its tiles the ids
/// `start`, `start + 1`, ..., one per tile, in preorder: no two tiles share an
/// id and no id is skipped.
pub proof fn lemma_numbered_ids_are_consecutive<G, T, C>(t: Tile<G, T, C>, start: int)
    requires
        numbered_from(t, start),
    ensures
        tree_ids(t) =~= Seq::new(tree_size(t), |i: int| start + i),
    decreases t,
{
    lemma_forest_numbered_ids_are_consecutive(t.children@, start + 1);
}

/// Numbering a list of trees in preorder from `start` gives its tiles the
/// ids `start`, `start + 1`, ..., one per tile, in preorder.
pub proof fn lemma_forest_numbered_ids_are_consecutive<G, T, C>(s: Seq<Tile<G, T, C>>, start: int)
    requires
        forest_numbered_from(s, start),
    ensures
        forest_ids(s) =~= Seq::new(forest_size(s), |i: int| start + i),
    decreases s,
{
    if s.len() > 0 {
        lemma_forest_numbered_ids_are_consecutive(s.drop_last(), start);
        lemma_numbered_ids_are_consecutive(s.last(), start + forest_size(s.drop_last()));
    }
}

} // verus!

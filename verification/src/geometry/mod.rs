use vstd::prelude::*;

verus! {

/// The vertices that indices `indices` select, in index order, when every
/// index addresses a vertex.
pub open spec fn indices_in_range(indices: Seq<u32>, count: int, vertex_count: int) -> bool {
    forall|k: int| 0 <= k < count ==> (#[trigger] indices[k]) < vertex_count
}

/// The vertices of a point primitive in drawing order: the indexed vertices
/// when indices are given (repeats kept), the vertex list otherwise.
pub open spec fn spec_points<V>(vertices: Seq<V>, indices: Option<Seq<u32>>) -> Seq<V> {
    match indices {
        Some(ix) => Seq::new(ix.len(), |k: int| vertices[ix[k] as int]),
        None => vertices,
    }
}

/// The segments of a line primitive: consecutive pairs of the indexed
/// vertices (or of the vertex list), an incomplete last pair dropped.
pub open spec fn spec_lines<V>(vertices: Seq<V>, indices: Option<Seq<u32>>) -> Seq<(V, V)> {
    match indices {
        Some(ix) => Seq::new(
            ix.len() / 2,
            |k: int| (vertices[ix[2 * k] as int], vertices[ix[2 * k + 1] as int]),
        ),
        None => Seq::new(vertices.len() / 2, |k: int| (vertices[2 * k], vertices[2 * k + 1])),
    }
}

/// The triangles of a triangle primitive: consecutive triples of the indexed
/// vertices (or of the vertex list), an incomplete last triple dropped.
pub open spec fn spec_triangles<V>(vertices: Seq<V>, indices: Option<Seq<u32>>) -> Seq<(V, V, V)> {
    match indices {
        Some(ix) => Seq::new(
            ix.len() / 3,
            |k: int|
                (
                    vertices[ix[3 * k] as int],
                    vertices[ix[3 * k + 1] as int],
                    vertices[ix[3 * k + 2] as int],
                ),
        ),
        None => Seq::new(
            vertices.len() / 3,
            |k: int| (vertices[3 * k], vertices[3 * k + 1], vertices[3 * k + 2]),
        ),
    }
}

/// How many vertices a primitive draws, in order: its indices when it has
/// them, else its vertex list.
pub open spec fn drawn_len<V>(vertices: Seq<V>, indices: Option<Seq<u32>>) -> int {
    match indices {
        Some(ix) => ix.len() as int,
        None => vertices.len() as int,
    }
}

/// The `j`-th vertex a primitive draws: the vertex its `j`-th index names,
/// else its `j`-th vertex.
pub open spec fn drawn_at<V>(vertices: Seq<V>, indices: Option<Seq<u32>>, j: int) -> V {
    match indices {
        Some(ix) => vertices[ix[j] as int],
        None => vertices[j],
    }
}

/// A primitive's drawn vertices, grouped by kind: one point per drawn
/// vertex; one segment per whole pair and one triangle per whole triple of
/// drawn vertices, in order, with only an incomplete last group left out.
pub proof fn lemma_primitive_groups<V>(vertices: Seq<V>, indices: Option<Seq<u32>>)
    ensures
        spec_points(vertices, indices).len() == drawn_len(vertices, indices),
        forall|k: int|
            0 <= k < spec_points(vertices, indices).len() ==> #[trigger] spec_points(
                vertices,
                indices,
            )[k] == drawn_at(vertices, indices, k),
        2 * spec_lines(vertices, indices).len() <= drawn_len(vertices, indices) < 2 * spec_lines(
            vertices,
            indices,
        ).len() + 2,
        forall|k: int|
            0 <= k < spec_lines(vertices, indices).len() ==> #[trigger] spec_lines(
                vertices,
                indices,
            )[k] == (drawn_at(vertices, indices, 2 * k), drawn_at(vertices, indices, 2 * k + 1)),
        3 * spec_triangles(vertices, indices).len() <= drawn_len(vertices, indices) < 3
            * spec_triangles(vertices, indices).len() + 3,
        forall|k: int|
            0 <= k < spec_triangles(vertices, indices).len() ==> #[trigger] spec_triangles(
                vertices,
                indices,
            )[k] == (
                drawn_at(vertices, indices, 3 * k),
                drawn_at(vertices, indices, 3 * k + 1),
                drawn_at(vertices, indices, 3 * k + 2),
            ),
{
}

/// The view of optional indices as an optional sequence.
pub open spec fn indices_view(indices: Option<Vec<u32>>) -> Option<Seq<u32>> {
    match indices {
        Some(v) => Some(v@),
        None => None,
    }
}

/// A primitive of points.
#[derive(Debug)]
pub struct PointPrimitive<V> {
    /// Vertex data of the primitive.
    pub vertices: Vec<V>,
    /// Optional indices into the vertex data.
    pub indices: Option<Vec<u32>>,
}

/// A primitive of line segments.
#[derive(Debug)]
pub struct LinePrimitive<V> {
    /// Vertex data of the primitive.
    pub vertices: Vec<V>,
    /// Optional indices into the vertex data.
    pub indices: Option<Vec<u32>>,
}

/// A primitive of triangles.
#[derive(Debug)]
pub struct TrianglePrimitive<V> {
    /// Vertex data of the primitive.
    pub vertices: Vec<V>,
    /// Optional indices into the vertex data.
    pub indices: Option<Vec<u32>>,
}

/// A drawable primitive of a geometry.
#[derive(Debug)]
pub enum Primitive<V> {
    PointPrimitive(PointPrimitive<V>),
    LinePrimitive(LinePrimitive<V>),
    TrianglePrimitive(TrianglePrimitive<V>),
}

/// A named list of primitives.
#[derive(Debug)]
pub struct Geometry<V> {
    /// Name of the geometry.
    pub name: String,
    pub primitives: Vec<Primitive<V>>,
}

/// Reads the vertex that `index` selects.
fn vertex_at<V: Copy>(vertices: &Vec<V>, index: u32) -> (v: V)
    requires
        index < vertices@.len(),
    ensures
        v == vertices@[index as int],
{
    vertices[index as usize]
}

/// Points in drawing order, shared by the point primitive and its callers.
fn point_sequence<V: Copy>(vertices: &Vec<V>, indices: &Option<Vec<u32>>) -> (res: Vec<V>)
    requires
        indices matches Some(ix) ==> indices_in_range(ix@, ix@.len() as int, vertices@.len() as int),
    ensures
        res@ == spec_points(vertices@, indices_view(*indices)),
{
    match indices {
        Some(ix) => {
            let mut out: Vec<V> = Vec::new();
            let mut k: usize = 0;
            while k < ix.len()
                invariant
                    k <= ix@.len(),
                    indices_in_range(ix@, ix@.len() as int, vertices@.len() as int),
                    out@ =~= Seq::new(k as nat, |j: int| vertices@[ix@[j] as int]),
                decreases ix.len() - k,
            {
                let v = vertex_at(vertices, ix[k]);
                out.push(v);
                k = k + 1;
            }
            out
        },
        None => {
            let mut out: Vec<V> = Vec::new();
            let mut k: usize = 0;
            while k < vertices.len()
                invariant
                    k <= vertices@.len(),
                    out@ =~= vertices@.take(k as int),
                decreases vertices.len() - k,
            {
                out.push(vertices[k]);
                k = k + 1;
            }
            out
        },
    }
}

fn line_sequence<V: Copy>(vertices: &Vec<V>, indices: &Option<Vec<u32>>) -> (res: Vec<(V, V)>)
    requires
        indices matches Some(ix) ==> indices_in_range(
            ix@,
            ix@.len() - ix@.len() % 2,
            vertices@.len() as int,
        ),
    ensures
        res@ == spec_lines(vertices@, indices_view(*indices)),
{
    match indices {
        Some(ix) => {
            let m = ix.len() / 2;
            let mut out: Vec<(V, V)> = Vec::new();
            let mut k: usize = 0;
            while k < m
                invariant
                    m == ix@.len() / 2,
                    ix@.len() <= usize::MAX,
                    k <= m,
                    indices_in_range(ix@, ix@.len() - ix@.len() % 2, vertices@.len() as int),
                    out@ =~= Seq::new(
                        k as nat,
                        |j: int| (vertices@[ix@[2 * j] as int], vertices@[ix@[2 * j + 1] as int]),
                    ),
                decreases m - k,
            {
                assert(2 * k + 1 < ix@.len() - ix@.len() % 2);
                let a = vertex_at(vertices, ix[2 * k]);
                let b = vertex_at(vertices, ix[2 * k + 1]);
                out.push((a, b));
                k = k + 1;
            }
            out
        },
        None => {
            let m = vertices.len() / 2;
            let mut out: Vec<(V, V)> = Vec::new();
            let mut k: usize = 0;
            while k < m
                invariant
                    m == vertices@.len() / 2,
                    vertices@.len() <= usize::MAX,
                    k <= m,
                    out@ =~= Seq::new(k as nat, |j: int| (vertices@[2 * j], vertices@[2 * j + 1])),
                decreases m - k,
            {
                out.push((vertices[2 * k], vertices[2 * k + 1]));
                k = k + 1;
            }
            out
        },
    }
}

fn triangle_sequence<V: Copy>(vertices: &Vec<V>, indices: &Option<Vec<u32>>) -> (res: Vec<(V, V, V)>)
    requires
        indices matches Some(ix) ==> indices_in_range(
            ix@,
            ix@.len() - ix@.len() % 3,
            vertices@.len() as int,
        ),
    ensures
        res@ == spec_triangles(vertices@, indices_view(*indices)),
{
    match indices {
        Some(ix) => {
            let m = ix.len() / 3;
            let mut out: Vec<(V, V, V)> = Vec::new();
            let mut k: usize = 0;
            while k < m
                invariant
                    m == ix@.len() / 3,
                    ix@.len() <= usize::MAX,
                    k <= m,
                    indices_in_range(ix@, ix@.len() - ix@.len() % 3, vertices@.len() as int),
                    out@ =~= Seq::new(
                        k as nat,
                        |j: int|
                            (
                                vertices@[ix@[3 * j] as int],
                                vertices@[ix@[3 * j + 1] as int],
                                vertices@[ix@[3 * j + 2] as int],
                            ),
                    ),
                decreases m - k,
            {
                assert(3 * k + 2 < ix@.len() - ix@.len() % 3);
                let a = vertex_at(vertices, ix[3 * k]);
                let b = vertex_at(vertices, ix[3 * k + 1]);
                let c = vertex_at(vertices, ix[3 * k + 2]);
                out.push((a, b, c));
                k = k + 1;
            }
            out
        },
        None => {
            let m = vertices.len() / 3;
            let mut out: Vec<(V, V, V)> = Vec::new();
            let mut k: usize = 0;
            while k < m
                invariant
                    m == vertices@.len() / 3,
                    vertices@.len() <= usize::MAX,
                    k <= m,
                    out@ =~= Seq::new(
                        k as nat,
                        |j: int| (vertices@[3 * j], vertices@[3 * j + 1], vertices@[3 * j + 2]),
                    ),
                decreases m - k,
            {
                out.push((vertices[3 * k], vertices[3 * k + 1], vertices[3 * k + 2]));
                k = k + 1;
            }
            out
        },
    }
}

/// Access to the vertex and index data of a primitive.
pub trait Vertices<V>: Sized {
    spec fn spec_vertices(&self) -> Seq<V>;

    spec fn spec_indices(&self) -> Option<Seq<u32>>;

    /// The primitive's vertex data.
    fn get_vertices(&self) -> (v: &Vec<V>)
        ensures
            v@ == self.spec_vertices(),
    ;

    /// Replaces the vertex data; the indices are kept.
    fn set_vertices(&mut self, other: Vec<V>)
        ensures
            final(self).spec_vertices() == other@,
            final(self).spec_indices() == old(self).spec_indices(),
    ;

    /// Replaces the indices; the vertex data is kept.
    fn set_indices(&mut self, other: Vec<u32>)
        ensures
            final(self).spec_indices() == Some(other@),
            final(self).spec_vertices() == old(self).spec_vertices(),
    ;
}

impl<V> Vertices<V> for PointPrimitive<V> {
    open spec fn spec_vertices(&self) -> Seq<V> {
        self.vertices@
    }

    open spec fn spec_indices(&self) -> Option<Seq<u32>> {
        indices_view(self.indices)
    }

    fn get_vertices(&self) -> (v: &Vec<V>) {
        &self.vertices
    }

    fn set_vertices(&mut self, other: Vec<V>) {
        self.vertices = other;
    }

    fn set_indices(&mut self, other: Vec<u32>) {
        self.indices = Some(other);
    }
}

impl<V> Vertices<V> for LinePrimitive<V> {
    open spec fn spec_vertices(&self) -> Seq<V> {
        self.vertices@
    }

    open spec fn spec_indices(&self) -> Option<Seq<u32>> {
        indices_view(self.indices)
    }

    fn get_vertices(&self) -> (v: &Vec<V>) {
        &self.vertices
    }

    fn set_vertices(&mut self, other: Vec<V>) {
        self.vertices = other;
    }

    fn set_indices(&mut self, other: Vec<u32>) {
        self.indices = Some(other);
    }
}

impl<V> Vertices<V> for TrianglePrimitive<V> {
    open spec fn spec_vertices(&self) -> Seq<V> {
        self.vertices@
    }

    open spec fn spec_indices(&self) -> Option<Seq<u32>> {
        indices_view(self.indices)
    }

    fn get_vertices(&self) -> (v: &Vec<V>) {
        &self.vertices
    }

    fn set_vertices(&mut self, other: Vec<V>) {
        self.vertices = other;
    }

    fn set_indices(&mut self, other: Vec<u32>) {
        self.indices = Some(other);
    }
}

impl<V> PointPrimitive<V> {
    /// An empty primitive: no vertices and no indices.
    pub fn new() -> (p: PointPrimitive<V>)
        ensures
            p.vertices@.len() == 0,
            p.indices is None,
    {
        PointPrimitive { vertices: Vec::new(), indices: None }
    }

    /// Whether every index addresses a vertex.
    pub open spec fn well_indexed(&self) -> bool {
        self.indices matches Some(ix) ==> indices_in_range(
            ix@,
            ix@.len() as int,
            self.vertices@.len() as int,
        )
    }

    /// The points in drawing order: the indexed vertices, repeats and order
    /// kept, or the vertex list when there are no indices.
    pub fn iter_vertices(&self) -> (res: Vec<V>)
        where V: Copy
        requires
            self.well_indexed(),
        ensures
            res@ == spec_points(self.vertices@, indices_view(self.indices)),
            res@.len() == drawn_len(self.vertices@, indices_view(self.indices)),
    {
        proof {
            lemma_primitive_groups(self.vertices@, indices_view(self.indices));
        }
        point_sequence(&self.vertices, &self.indices)
    }
}

impl<V> LinePrimitive<V> {
    /// An empty primitive: no vertices and no indices.
    pub fn new() -> (p: LinePrimitive<V>)
        ensures
            p.vertices@.len() == 0,
            p.indices is None,
    {
        LinePrimitive { vertices: Vec::new(), indices: None }
    }

    /// Whether every index that forms a whole segment addresses a vertex.
    pub open spec fn well_indexed(&self) -> bool {
        self.indices matches Some(ix) ==> indices_in_range(
            ix@,
            ix@.len() - ix@.len() % 2,
            self.vertices@.len() as int,
        )
    }

    /// The segments in drawing order; a last vertex or index without a
    /// partner is ignored.
    pub fn iter_vertices(&self) -> (res: Vec<(V, V)>)
        where V: Copy
        requires
            self.well_indexed(),
        ensures
            res@ == spec_lines(self.vertices@, indices_view(self.indices)),
            2 * res@.len() <= drawn_len(self.vertices@, indices_view(self.indices)) < 2 * res@.len() + 2,
    {
        proof {
            lemma_primitive_groups(self.vertices@, indices_view(self.indices));
        }
        line_sequence(&self.vertices, &self.indices)
    }
}

impl<V> TrianglePrimitive<V> {
    /// An empty primitive: no vertices and no indices.
    pub fn new() -> (p: TrianglePrimitive<V>)
        ensures
            p.vertices@.len() == 0,
            p.indices is None,
    {
        TrianglePrimitive { vertices: Vec::new(), indices: None }
    }

    /// Whether every index that forms a whole triangle addresses a vertex.
    pub open spec fn well_indexed(&self) -> bool {
        self.indices matches Some(ix) ==> indices_in_range(
            ix@,
            ix@.len() - ix@.len() % 3,
            self.vertices@.len() as int,
        )
    }

    /// The triangles in drawing order; one or two trailing vertices or
    /// indices that do not make a whole triangle are ignored.
    pub fn iter_vertices(&self) -> (res: Vec<(V, V, V)>)
        where V: Copy
        requires
            self.well_indexed(),
        ensures
            res@ == spec_triangles(self.vertices@, indices_view(self.indices)),
            3 * res@.len() <= drawn_len(self.vertices@, indices_view(self.indices)) < 3 * res@.len() + 3,
    {
        proof {
            lemma_primitive_groups(self.vertices@, indices_view(self.indices));
        }
        triangle_sequence(&self.vertices, &self.indices)
    }
}

impl<V> Primitive<V> {
    /// The vertex data of the primitive, whatever its kind.
    pub open spec fn spec_vertices(&self) -> Seq<V> {
        match self {
            Primitive::PointPrimitive(p) => p.vertices@,
            Primitive::LinePrimitive(p) => p.vertices@,
            Primitive::TrianglePrimitive(p) => p.vertices@,
        }
    }

    /// The indices of the primitive, whatever its kind.
    pub open spec fn spec_indices(&self) -> Option<Seq<u32>> {
        match self {
            Primitive::PointPrimitive(p) => indices_view(p.indices),
            Primitive::LinePrimitive(p) => indices_view(p.indices),
            Primitive::TrianglePrimitive(p) => indices_view(p.indices),
        }
    }

    /// Whether two primitives are of the same kind.
    pub open spec fn same_kind(&self, other: &Primitive<V>) -> bool {
        ||| (self is PointPrimitive && other is PointPrimitive)
        ||| (self is LinePrimitive && other is LinePrimitive)
        ||| (self is TrianglePrimitive && other is TrianglePrimitive)
    }

    pub fn get_vertices(&self) -> (v: &Vec<V>)
        ensures
            v@ == self.spec_vertices(),
    {
        match self {
            Primitive::PointPrimitive(p) => p.get_vertices(),
            Primitive::LinePrimitive(p) => p.get_vertices(),
            Primitive::TrianglePrimitive(p) => p.get_vertices(),
        }
    }

    /// Replaces the indices; kind and vertex data are kept.
    pub fn set_indices(&mut self, other: Vec<u32>)
        ensures
            final(self).spec_indices() == Some(other@),
            final(self).spec_vertices() == old(self).spec_vertices(),
            final(self).same_kind(old(self)),
    {
        match self {
            Primitive::PointPrimitive(p) => p.set_indices(other),
            Primitive::LinePrimitive(p) => p.set_indices(other),
            Primitive::TrianglePrimitive(p) => p.set_indices(other),
        }
    }

    /// Replaces the vertex data; kind and indices are kept.
    pub fn set_vertices(&mut self, other: Vec<V>)
        ensures
            final(self).spec_vertices() == other@,
            final(self).spec_indices() == old(self).spec_indices(),
            final(self).same_kind(old(self)),
    {
        match self {
            Primitive::PointPrimitive(p) => p.set_vertices(other),
            Primitive::LinePrimitive(p) => p.set_vertices(other),
            Primitive::TrianglePrimitive(p) => p.set_vertices(other),
        }
    }
}

impl<V> Geometry<V> {
    /// A geometry with the given name and no primitives.
    pub fn new(name: String) -> (g: Geometry<V>)
        ensures
            g.name == name,
            g.primitives@.len() == 0,
    {
        Geometry { name, primitives: Vec::new() }
    }

    /// Appends a primitive.
    pub fn add_primitive(&mut self, primitive: Primitive<V>)
        ensures
            final(self).name == old(self).name,
            final(self).primitives@ == old(self).primitives@.push(primitive),
    {
        self.primitives.push(primitive);
    }
}

} // verus!

use tessera::geometry::{LinePrimitive, PointPrimitive, Primitive, TrianglePrimitive, Vertices, Geometry};

#[test]
fn test_iter_point_vertices() {
    let mut primitive = PointPrimitive::new();
    primitive.set_vertices(vec![[0.0f32, 1.0, 2.0], [1.0, 2.0, 3.0], [2.0, 3.0, 4.0]]);

    let mut iter = primitive.iter_vertices().into_iter();

    assert_eq!(iter.next(), Some([0.0, 1.0, 2.0]));
    assert_eq!(iter.next(), Some([1.0, 2.0, 3.0]));
    assert_eq!(iter.next(), Some([2.0, 3.0, 4.0]));
    assert_eq!(iter.next(), None);
}

#[test]
fn test_iter_point_vertices_with_indices() {
    let mut primitive = PointPrimitive::new();
    primitive.set_vertices(vec![[0.0f32, 1.0, 2.0], [1.0, 2.0, 3.0], [2.0, 3.0, 4.0]]);
    primitive.set_indices(vec![0, 2, 2, 1]);

    let mut iter = primitive.iter_vertices().into_iter();

    assert_eq!(iter.next(), Some([0.0, 1.0, 2.0]));
    assert_eq!(iter.next(), Some([2.0, 3.0, 4.0]));
    // a repeated index gives its vertex again
    assert_eq!(iter.next(), Some([2.0, 3.0, 4.0]));
    assert_eq!(iter.next(), Some([1.0, 2.0, 3.0]));
    assert_eq!(iter.next(), None);
}

#[test]
fn test_iter_line_vertices() {
    let mut primitive = LinePrimitive::new();
    primitive.set_vertices(vec![
        [1.0f32, 1.0, 2.0],
        [1.0, 2.0, 3.0],
        [2.0, 3.0, 4.0],
        [3.0, 4.0, 5.0],
        [4.0, 5.0, 6.0],
    ]);

    let mut iter = primitive.iter_vertices().into_iter();
    assert_eq!(iter.next(), Some(([1.0, 1.0, 2.0], [1.0, 2.0, 3.0])));
    assert_eq!(iter.next(), Some(([2.0, 3.0, 4.0], [3.0, 4.0, 5.0])));
    // the last vertex has no partner and is dropped
    assert_eq!(iter.next(), None);
}

#[test]
fn test_iter_line_vertices_with_indices() {
    let mut primitive = LinePrimitive::new();
    primitive.set_vertices(vec![
        [0.0f32, 1.0, 2.0],
        [1.0, 2.0, 3.0],
        [2.0, 3.0, 4.0],
        [3.0, 4.0, 5.0],
        [4.0, 5.0, 6.0],
    ]);
    primitive.set_indices(vec![0, 2, 1, 3, 2, 1, 4]);

    let mut iter = primitive.iter_vertices().into_iter();
    assert_eq!(iter.next(), Some(([0.0, 1.0, 2.0], [2.0, 3.0, 4.0])));
    assert_eq!(iter.next(), Some(([1.0, 2.0, 3.0], [3.0, 4.0, 5.0])));
    // a repeated index gives its vertex again
    assert_eq!(iter.next(), Some(([2.0, 3.0, 4.0], [1.0, 2.0, 3.0])));
    // the last index has no partner and is dropped
    assert_eq!(iter.next(), None);
}

#[test]
fn test_iter_triangle_vertices() {
    let mut primitive = TrianglePrimitive::new();
    primitive.set_vertices(vec![
        [0.0f32, 1.0, 2.0],
        [1.0, 2.0, 3.0],
        [2.0, 3.0, 4.0],
        [3.0, 4.0, 5.0],
        [4.0, 5.0, 6.0],
        [5.0, 6.0, 7.0],
        [6.0, 7.0, 8.0],
        [7.0, 8.0, 9.0],
    ]);

    let mut iter = primitive.iter_vertices().into_iter();
    assert_eq!(iter.next(), Some(([0.0, 1.0, 2.0], [1.0, 2.0, 3.0], [2.0, 3.0, 4.0])));
    assert_eq!(iter.next(), Some(([3.0, 4.0, 5.0], [4.0, 5.0, 6.0], [5.0, 6.0, 7.0])));
    assert_eq!(iter.next(), None);
}

#[test]
fn test_iter_triangle_vertices_with_indices() {
    let mut primitive = TrianglePrimitive::new();
    primitive.set_vertices(vec![
        [0.0f32, 1.0, 2.0],
        [1.0, 2.0, 3.0],
        [2.0, 3.0, 4.0],
        [3.0, 4.0, 5.0],
        [4.0, 5.0, 6.0],
    ]);
    primitive.set_indices(vec![0, 2, 1, 3, 2, 1, 4, 5]);

    let mut iter = primitive.iter_vertices().into_iter();
    assert_eq!(iter.next(), Some(([0.0, 1.0, 2.0], [2.0, 3.0, 4.0], [1.0, 2.0, 3.0])));
    assert_eq!(iter.next(), Some(([3.0, 4.0, 5.0], [2.0, 3.0, 4.0], [1.0, 2.0, 3.0])));
    assert_eq!(iter.next(), None);
}

#[test]
fn points_keep_index_order_and_repeats() {
    let mut primitive = PointPrimitive::new();
    primitive.set_vertices(vec![[0u32, 0, 0], [1, 0, 0], [2, 0, 0]]);
    primitive.set_indices(vec![2, 0, 2, 1]);
    assert_eq!(
        primitive.iter_vertices(),
        vec![[2, 0, 0], [0, 0, 0], [2, 0, 0], [1, 0, 0]]
    );
}

#[test]
fn lines_drop_incomplete_index_pair() {
    let mut primitive = LinePrimitive::new();
    primitive.set_vertices(vec![[0u32, 0, 0], [1, 0, 0], [2, 0, 0]]);
    primitive.set_indices(vec![0, 1, 2]);
    assert_eq!(primitive.iter_vertices(), vec![([0, 0, 0], [1, 0, 0])]);
}

#[test]
fn triangles_drop_incomplete_vertex_triple() {
    let mut primitive = TrianglePrimitive::new();
    primitive.set_vertices(vec![[0u32, 0, 0], [1, 0, 0], [0, 1, 0], [9, 9, 9]]);
    assert_eq!(primitive.iter_vertices(), vec![([0, 0, 0], [1, 0, 0], [0, 1, 0])]);
}

#[test]
fn empty_primitives_have_no_elements() {
    let points: PointPrimitive<u8> = PointPrimitive::new();
    assert!(points.iter_vertices().is_empty());
    let lines: LinePrimitive<u8> = LinePrimitive::new();
    assert!(lines.iter_vertices().is_empty());
    let triangles: TrianglePrimitive<u8> = TrianglePrimitive::new();
    assert!(triangles.iter_vertices().is_empty());
}

#[test]
fn primitive_setters_keep_kind_and_other_data() {
    let mut primitive: Primitive<u8> = Primitive::LinePrimitive(LinePrimitive::new());
    primitive.set_vertices(vec![1, 2, 3]);
    primitive.set_indices(vec![2, 0]);
    assert_eq!(primitive.get_vertices(), &vec![1, 2, 3]);
    match &primitive {
        Primitive::LinePrimitive(p) => {
            assert_eq!(p.indices, Some(vec![2, 0]));
            assert_eq!(p.iter_vertices(), vec![(3, 1)]);
        }
        _ => panic!("kind changed"),
    }
    primitive.set_vertices(vec![7, 8, 9]);
    match &primitive {
        Primitive::LinePrimitive(p) => assert_eq!(p.indices, Some(vec![2, 0])),
        _ => panic!("kind changed"),
    }
}

#[test]
fn geometry_collects_primitives_in_order() {
    let mut geometry: Geometry<u8> = Geometry::new("tile".to_string());
    assert_eq!(geometry.name, "tile");
    assert!(geometry.primitives.is_empty());
    geometry.add_primitive(Primitive::PointPrimitive(PointPrimitive::new()));
    geometry.add_primitive(Primitive::TrianglePrimitive(TrianglePrimitive::new()));
    assert_eq!(geometry.primitives.len(), 2);
    assert!(matches!(geometry.primitives[0], Primitive::PointPrimitive(_)));
    assert!(matches!(geometry.primitives[1], Primitive::TrianglePrimitive(_)));
}

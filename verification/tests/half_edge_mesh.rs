use rootspace::engine::common::half_edge_mesh::{EdgeIndex, Error, Face, FaceIndex, HalfEdge, Mesh, VertexIndex};

fn tetrahedron() -> Mesh {
    let v = [VertexIndex(0), VertexIndex(1), VertexIndex(2), VertexIndex(3)];
    Mesh::from_tetrahedron_vertices(&v).unwrap()
}

#[test]
fn test_tetrahedron_is_valid() {
    let m = tetrahedron();
    assert_eq!(m.faces.len(), 4);
    assert_eq!(m.edges.len(), 12);
    assert!(m.verify_mesh().is_ok());
    for (_, e) in m.edges.iter() {
        assert!(e.is_complete());
        let o = m.edges[&e.opposite.unwrap().0];
        assert_eq!(o.opposite, Some(EdgeIndex(e_index(&m, e))));
    }
}

fn e_index(m: &Mesh, e: &HalfEdge) -> usize {
    *m.edges.iter().find(|(_, x)| *x == e).unwrap().0
}

#[test]
fn test_tetrahedron_rejects_repeated_vertices() {
    let v = [VertexIndex(0), VertexIndex(1), VertexIndex(1), VertexIndex(3)];
    assert!(Mesh::from_tetrahedron_vertices(&v).is_err());
}

#[test]
fn test_iter_face_edges() {
    let m = tetrahedron();
    for (f, face) in m.faces.iter() {
        let edges = m.iter_face_edges(&FaceIndex(*f));
        assert_eq!(edges.len(), 3);
        assert_eq!(edges[0], m.edges[&face.first_edge.0]);
        for e in edges.iter() {
            assert_eq!(e.face, Some(FaceIndex(*f)));
        }
    }
}

#[test]
fn test_add_triangle_is_open() {
    let mut m = Mesh::new();
    let (f, a, b, c) = m.add_triangle(VertexIndex(0), VertexIndex(1), VertexIndex(2));
    assert_eq!(m.faces[&f.0], Face::from_edge(a));
    assert_eq!(m.edges[&a.0].next, Some(b));
    assert_eq!(m.edges[&b.0].next, Some(c));
    assert_eq!(m.edges[&c.0].next, Some(a));
    assert_eq!(m.edges[&a.0].prev, Some(c));
    assert!(matches!(m.verify_mesh(), Err(Error::IncompleteEdge)));
    assert!(matches!(m.reconnect_adjacent(), Err(Error::UnmatchedEdge)));
}

#[test]
fn test_free_edges_and_faces() {
    let mut m = Mesh::new();
    let e = m.add_free_edge(VertexIndex(7));
    let f = m.add_free_face(e);
    assert_eq!(m.edges[&e.0], HalfEdge::from_vertex(VertexIndex(7)));
    assert_eq!(m.faces[&f.0].first_edge, e);
    assert!(!m.edges[&e.0].is_complete());
    assert!(matches!(m.reconnect_adjacent(), Err(Error::OpenEdgeLoop)));
}

#[test]
fn test_index_increment() {
    let mut e = EdgeIndex(4);
    e.increment();
    assert_eq!(e, EdgeIndex(5));
    let mut f = FaceIndex(0);
    f.increment();
    assert_eq!(f, FaceIndex(1));
    assert_eq!(VertexIndex::from(3usize).value(), 3);
}

#[test]
fn test_handed_out_indices_are_fresh() {
    let mut m = Mesh::new();
    let a = m.add_free_edge(VertexIndex(0));
    let b = m.add_free_edge(VertexIndex(1));
    let (f, c, d, e) = m.add_triangle(VertexIndex(0), VertexIndex(1), VertexIndex(2));
    let g = m.add_free_face(a);
    let edges = [a, b, c, d, e];
    for i in 0..edges.len() {
        for j in (i + 1)..edges.len() {
            assert_ne!(edges[i], edges[j]);
        }
    }
    assert_ne!(f, g);
    assert_eq!(m.edges.len(), 5);
    assert_eq!(m.faces.len(), 2);
}

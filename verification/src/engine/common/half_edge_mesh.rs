use std::collections::HashMap;
use vstd::prelude::*;

verus! {

broadcast use vstd::std_specs::hash::group_hash_axioms;

/// An `EdgeIndex` refers to an edge in the half-edge mesh.
#[derive(Debug, Clone, Copy, PartialEq, Eq, PartialOrd, Ord, Hash, Structural)]
pub struct EdgeIndex(pub usize);

impl EdgeIndex {
    /// Increments the internal index value.
    pub fn increment(&mut self)
        requires
            old(self).0 < usize::MAX,
        ensures
            final(self).0 == old(self).0 + 1,
    {
        self.0 = self.0 + 1;
    }
}

/// A `FaceIndex` refers to a face in the half-edge mesh.
#[derive(Debug, Clone, Copy, PartialEq, Eq, PartialOrd, Ord, Hash, Structural)]
pub struct FaceIndex(pub usize);

impl FaceIndex {
    /// Increments the internal index value.
    pub fn increment(&mut self)
        requires
            old(self).0 < usize::MAX,
        ensures
            final(self).0 == old(self).0 + 1,
    {
        self.0 = self.0 + 1;
    }
}

/// A `VertexIndex` refers to a location within the point cloud.
#[derive(Debug, Clone, Copy, PartialEq, Eq, PartialOrd, Ord, Hash, Structural)]
pub struct VertexIndex(pub usize);

impl VertexIndex {
    /// Converts the `VertexIndex` to a `usize` value.
    pub fn value(&self) -> (v: usize)
        ensures
            v == self.0,
    {
        self.0
    }
}

impl From<usize> for VertexIndex {
    /// Creates a `VertexIndex` from a `usize` value.
    fn from(value: usize) -> (v: Self) {
        VertexIndex(value)
    }
}

impl vstd::std_specs::convert::FromSpecImpl<usize> for VertexIndex {
    open spec fn obeys_from_spec() -> bool {
        true
    }

    open spec fn from_spec(value: usize) -> VertexIndex {
        VertexIndex(value)
    }
}

/// A `HalfEdge` characterises one side of an edge connecting two vertices, and lying between two
/// faces. The data structure is based on the concept of a doubly-connected edge list.
#[derive(Debug, Clone, Copy, PartialEq, Eq, Structural)]
pub struct HalfEdge {
    /// Refers to the vertex at the position `VertexIndex` in the vertex array.
    pub vertex: VertexIndex,
    /// Refers to the next `HalfEdge` in the edge array.
    pub next: Option<EdgeIndex>,
    /// Refers to the previous `HalfEdge` in the edge array.
    pub prev: Option<EdgeIndex>,
    /// Refers to the counterpart `HalfEdge` in the edge array.
    pub opposite: Option<EdgeIndex>,
    /// Refers to the adjacent `Face` in the face array.
    pub face: Option<FaceIndex>,
}

impl HalfEdge {
    /// `true` if all properties have been assigned.
    pub open spec fn spec_is_complete(self) -> bool {
        self.next is Some && self.prev is Some && self.opposite is Some && self.face is Some
    }

    /// Creates a new, incomplete `HalfEdge` from a `VertexIndex`.
    pub fn from_vertex(vertex: VertexIndex) -> (e: Self)
        ensures
            e == (HalfEdge { vertex, next: None, prev: None, opposite: None, face: None }),
    {
        HalfEdge { vertex: vertex, next: None, prev: None, opposite: None, face: None }
    }

    /// Returns `true` if all `HalfEdge` properties have been assigned. Cannot check the validity
    /// of the attached indices.
    pub fn is_complete(&self) -> (r: bool)
        ensures
            r == self.spec_is_complete(),
    {
        self.next.is_some() && self.prev.is_some() && self.opposite.is_some() && self.face.is_some()
    }
}

/// The `Face` characterises a facet enclosed by edges and vertices.
#[derive(Debug, Clone, Copy, PartialEq, Eq, Structural)]
pub struct Face {
    /// Refers to the first `HalfEdge` in the circle of `HalfEdge`s that encircle the `Face`.
    pub first_edge: EdgeIndex,
}

impl Face {
    /// Creates a new `Face` from an `EdgeIndex`.
    pub fn from_edge(idx: EdgeIndex) -> (f: Self)
        ensures
            f.first_edge == idx,
    {
        Face { first_edge: idx }
    }
}

/// The ways in which building or checking a `Mesh` can fail.
#[derive(Debug, Clone, Copy, PartialEq, Eq, Structural)]
pub enum Error {
    /// The mesh contains open edge loops.
    OpenEdgeLoop,
    /// The requested face does not refer to a valid edge.
    FaceWithInvalidEdgeReference,
    /// The requested edge was not found.
    EdgeNotFound,
    /// The requested edge has unfilled parameters.
    IncompleteEdge,
    /// The requested edge does not refer to a valid counterpart.
    UnmatchedEdge,
    /// The requested edge does not refer to a valid face.
    EdgeWithInvalidFaceReference,
    /// The requested edge does not refer to valid edges in the next and prev fields.
    EdgeWithInvalidEdgeReferences,
    /// The requested face is surrounded by an invalid number of edges.
    InvalidEdgeCount,
}

/// A `Mesh` contains a set of `Face`s that are connected to each other via `HalfEdge` pairs, each
/// of which references a single `VertexIndex`. Edges and faces are keyed by the value of their
/// index.
pub struct Mesh {
    /// Holds the set of `HalfEdge`s, keyed by edge index.
    pub edges: HashMap<usize, HalfEdge>,
    /// Holds the set of `Face`s, keyed by face index.
    pub faces: HashMap<usize, Face>,
    /// Specifies the next `EdgeIndex` when a new `HalfEdge` is attached to the `Mesh`.
    next_edge_idx: EdgeIndex,
    /// Specifies the next `FaceIndex` when a new `Face` is attached to the `Mesh`.
    next_face_idx: FaceIndex,
    /// Specifies the maximum number of `HalfEdge`s per `Face`.
    max_edges_per_face: usize,
}

impl Mesh {
    /// The edges of the mesh, keyed by edge index.
    pub closed spec fn edge_map(&self) -> Map<usize, HalfEdge> {
        self.edges@
    }

    /// The faces of the mesh, keyed by face index.
    pub closed spec fn face_map(&self) -> Map<usize, Face> {
        self.faces@
    }

    /// The index that the next added edge receives.
    pub closed spec fn next_edge(&self) -> usize {
        self.next_edge_idx.0
    }

    /// The index that the next added face receives.
    pub closed spec fn next_face(&self) -> usize {
        self.next_face_idx.0
    }

    /// The number of edges around every face.
    pub closed spec fn edges_per_face(&self) -> usize {
        self.max_edges_per_face
    }

    /// Every edge and face index in use was handed out before.
    #[verifier::opaque]
    pub open spec fn indices_fresh(&self) -> bool {
        &&& forall|e: usize| #[trigger] self.edge_map().contains_key(e) ==> e < self.next_edge()
        &&& forall|f: usize| #[trigger] self.face_map().contains_key(f) ==> f < self.next_face()
    }

    /// Creates a new, empty `Mesh` whose faces have three edges each.
    pub fn new() -> (m: Self)
        ensures
            m.edge_map() == Map::<usize, HalfEdge>::empty(),
            m.face_map() == Map::<usize, Face>::empty(),
            m.next_edge() == 0,
            m.next_face() == 0,
            m.edges_per_face() == 3,
            m.indices_fresh(),
    {
        let m = Mesh {
            edges: HashMap::new(),
            faces: HashMap::new(),
            next_edge_idx: EdgeIndex(0),
            next_face_idx: FaceIndex(0),
            max_edges_per_face: 3,
        };
        proof {
            reveal(Mesh::indices_fresh);
        }
        m
    }

    /// Adds a free `HalfEdge` to the mesh and returns its index.
    pub fn add_free_edge(&mut self, vert: VertexIndex) -> (idx: EdgeIndex)
        requires
            old(self).next_edge() < usize::MAX,
        ensures
            idx.0 == old(self).next_edge(),
            final(self).next_edge() == old(self).next_edge() + 1,
            final(self).edge_map() == old(self).edge_map().insert(idx.0, HalfEdge::from_vertex_spec(vert)),
            final(self).face_map() == old(self).face_map(),
            final(self).next_face() == old(self).next_face(),
            final(self).edges_per_face() == old(self).edges_per_face(),
            old(self).indices_fresh() ==> final(self).indices_fresh() && !old(self).edge_map().contains_key(
                idx.0,
            ),
    {
        let edge_idx = self.next_edge_idx;
        self.next_edge_idx.increment();
        self.edges.insert(edge_idx.0, HalfEdge::from_vertex(vert));
        proof {
            reveal(Mesh::indices_fresh);
        }
        edge_idx
    }

    /// Adds a free `Face` to the mesh and returns its index.
    pub fn add_free_face(&mut self, edge: EdgeIndex) -> (idx: FaceIndex)
        requires
            old(self).next_face() < usize::MAX,
        ensures
            idx.0 == old(self).next_face(),
            final(self).next_face() == old(self).next_face() + 1,
            final(self).face_map() == old(self).face_map().insert(idx.0, Face { first_edge: edge }),
            final(self).edge_map() == old(self).edge_map(),
            final(self).next_edge() == old(self).next_edge(),
            final(self).edges_per_face() == old(self).edges_per_face(),
            old(self).indices_fresh() ==> final(self).indices_fresh() && !old(self).face_map().contains_key(
                idx.0,
            ),
    {
        let face_idx = self.next_face_idx;
        self.next_face_idx.increment();
        self.faces.insert(face_idx.0, Face::from_edge(edge));
        proof {
            reveal(Mesh::indices_fresh);
        }
        face_idx
    }

    /// Adds a new triangle (three edges `a -> b -> c -> a` around one new face) to the `Mesh`
    /// and returns its indices.
    pub fn add_triangle(&mut self, a: VertexIndex, b: VertexIndex, c: VertexIndex) -> (r: (
        FaceIndex,
        EdgeIndex,
        EdgeIndex,
        EdgeIndex,
    ))
        requires
            old(self).next_edge() + 3 <= usize::MAX,
            old(self).next_face() < usize::MAX,
        ensures
            ({
                let (f, ea, eb, ec) = r;
                &&& ea.0 == old(self).next_edge()
                &&& eb.0 == ea.0 + 1
                &&& ec.0 == ea.0 + 2
                &&& f.0 == old(self).next_face()
                &&& final(self).next_edge() == old(self).next_edge() + 3
                &&& final(self).next_face() == old(self).next_face() + 1
                &&& final(self).edges_per_face() == old(self).edges_per_face()
                &&& final(self).face_map() == old(self).face_map().insert(f.0, Face { first_edge: ea })
                &&& final(self).edge_map() == with_triangle(old(self).edge_map(), ea.0, f.0, a, b, c)
            }),
            old(self).indices_fresh() ==> final(self).indices_fresh(),
    {
        let ea_idx = self.add_free_edge(a);
        let eb_idx = self.add_free_edge(b);
        let ec_idx = self.add_free_edge(c);
        let face_idx = self.add_free_face(ea_idx);
        let ghost fresh_before = old(self).indices_fresh();
        let ghost added = self.edge_map();
        assert(fresh_before ==> self.indices_fresh());
        self.edges.insert(
            ea_idx.0,
            HalfEdge { vertex: a, next: Some(eb_idx), prev: Some(ec_idx), opposite: None, face: Some(face_idx) },
        );
        self.edges.insert(
            eb_idx.0,
            HalfEdge { vertex: b, next: Some(ec_idx), prev: Some(ea_idx), opposite: None, face: Some(face_idx) },
        );
        self.edges.insert(
            ec_idx.0,
            HalfEdge { vertex: c, next: Some(ea_idx), prev: Some(eb_idx), opposite: None, face: Some(face_idx) },
        );
        proof {
            assert(self.edge_map() =~= with_triangle(old(self).edge_map(), ea_idx.0, face_idx.0, a, b, c));
            assert(self.edge_map() =~= old(self).edge_map().insert(
                ea_idx.0,
                HalfEdge { vertex: a, next: Some(eb_idx), prev: Some(ec_idx), opposite: None, face: Some(face_idx) },
            ).insert(
                eb_idx.0,
                HalfEdge { vertex: b, next: Some(ec_idx), prev: Some(ea_idx), opposite: None, face: Some(face_idx) },
            ).insert(
                ec_idx.0,
                HalfEdge { vertex: c, next: Some(ea_idx), prev: Some(eb_idx), opposite: None, face: Some(face_idx) },
            ));
        }
        proof {
            assert(self.edge_map().dom() =~= added.dom());
            if fresh_before {
                reveal(Mesh::indices_fresh);
            }
        }
        (face_idx, ea_idx, eb_idx, ec_idx)
    }

    /// Sets the opposite of the edge of one connectivity entry to the edge of the reverse entry;
    /// returns `false`, changing nothing, if there is no reverse entry.
    fn connect_one(
        &mut self,
        connectivity: &HashMap<u128, (usize, usize, usize)>,
        key: u128,
        Ghost(m0): Ghost<Map<usize, HalfEdge>>,
        Ghost(done): Ghost<Set<u128>>,
    ) -> (found: bool)
        requires
            conn_wf(m0, connectivity@),
            connectivity@.contains_key(key),
            edges_follow(m0, old(self).edges@),
            done_paired(m0, connectivity@, old(self).edges@, done),
        ensures
            found <==> connectivity@.contains_key(span_key((connectivity@[key].1, connectivity@[key].0))),
            found ==> edges_follow(m0, final(self).edges@) && done_paired(
                m0,
                connectivity@,
                final(self).edges@,
                done.insert(key),
            ),
            !found ==> final(self).edges@ == old(self).edges@,
            final(self).faces@ == old(self).faces@,
            final(self).next_edge_idx == old(self).next_edge_idx,
            final(self).next_face_idx == old(self).next_face_idx,
            final(self).max_edges_per_face == old(self).max_edges_per_face,
    {
        let (va, vb, ea) = match connectivity.get(&key) {
            Some(entry) => *entry,
            None => { return false; },
        };
        let reverse = span_key_exec(vb, va);
        match connectivity.get(&reverse) {
            Some(found) => {
                let eb = found.2;
                let ghost before = self.edges@;
                proof {
                    reveal(edges_follow);
                    assert(before.contains_key(ea));
                }
                match self.edges.get(&ea) {
                    Some(edge) => {
                        let mut changed = *edge;
                        changed.opposite = Some(EdgeIndex(eb));
                        self.edges.insert(ea, changed);
                    },
                    None => {},
                }
                proof {
                    lemma_set_opposite(m0, connectivity@, before, done, key, eb);
                }
                true
            },
            None => false,
        }
    }

    /// The first fault of the face `face_idx`, if any.
    pub open spec fn spec_face_fault(&self, face_idx: usize) -> Option<Error> {
        face_fault(self.edge_map(), face_idx, self.face_map()[face_idx], self.edges_per_face() as int)
    }

    /// `true` if every face is surrounded by a sound circle of edges.
    pub open spec fn spec_is_valid(&self) -> bool {
        forall|f: usize| #[trigger] self.face_map().contains_key(f) ==> self.spec_face_fault(f) is None
    }

    /// Checks one face; returns its first fault, if any.
    fn check_face(&self, face_idx: usize, face: &Face) -> (r: Option<Error>)
        requires
            self.edges_per_face() < usize::MAX,
        ensures
            r == face_fault(self.edge_map(), face_idx, *face, self.edges_per_face() as int),
    {
        let first_edge = match self.edges.get(&face.first_edge.0) {
            Some(e) => *e,
            None => { return Some(Error::FaceWithInvalidEdgeReference); },
        };
        if !first_edge.is_complete() {
            return Some(Error::IncompleteEdge);
        }
        let first_face = match first_edge.face { Some(f) => f, None => { return Some(Error::IncompleteEdge); } };
        if face_idx != first_face.0 {
            return Some(Error::EdgeWithInvalidFaceReference);
        }
        let first_opposite = match first_edge.opposite { Some(o) => o, None => { return Some(Error::IncompleteEdge); } };
        if !self.edges.contains_key(&first_opposite.0) {
            return Some(Error::UnmatchedEdge);
        }
        let mut prev_edge_idx = face.first_edge;
        let mut next_edge_idx = match first_edge.next { Some(n) => n, None => { return Some(Error::IncompleteEdge); } };
        let mut edge_counter: usize = 1;
        let ghost max = self.max_edges_per_face as int;
        while next_edge_idx != face.first_edge && edge_counter <= self.max_edges_per_face
            invariant
                self.max_edges_per_face < usize::MAX,
                max == self.max_edges_per_face,
                1 <= edge_counter <= max + 1,
                self.edges@.contains_key(face.first_edge.0),
                first_edge == self.edges@[face.first_edge.0],
                face_fault(self.edge_map(), face_idx, *face, max) == walk_fault(
                    self.edge_map(),
                    face_idx,
                    face.first_edge,
                    prev_edge_idx,
                    next_edge_idx,
                    edge_counter as int,
                    max,
                ),
            decreases max - edge_counter + 1,
        {
            let current_edge = match self.edges.get(&next_edge_idx.0) {
                Some(e) => *e,
                None => { return Some(Error::EdgeNotFound); },
            };
            if !current_edge.is_complete() {
                return Some(Error::IncompleteEdge);
            }
            let cur_face = match current_edge.face { Some(f) => f, None => { return Some(Error::IncompleteEdge); } };
            if face_idx != cur_face.0 {
                return Some(Error::EdgeWithInvalidFaceReference);
            }
            let cur_opposite = match current_edge.opposite { Some(o) => o, None => { return Some(Error::IncompleteEdge); } };
            if !self.edges.contains_key(&cur_opposite.0) {
                return Some(Error::UnmatchedEdge);
            }
            let cur_prev = match current_edge.prev { Some(p) => p, None => { return Some(Error::IncompleteEdge); } };
            if cur_prev != prev_edge_idx {
                return Some(Error::EdgeWithInvalidEdgeReferences);
            }
            prev_edge_idx = next_edge_idx;
            next_edge_idx = match current_edge.next { Some(n) => n, None => { return Some(Error::IncompleteEdge); } };
            edge_counter = edge_counter + 1;
        }
        let first_prev = match first_edge.prev { Some(p) => p, None => { return Some(Error::IncompleteEdge); } };
        if first_prev != prev_edge_idx {
            return Some(Error::EdgeWithInvalidEdgeReferences);
        }
        if !(next_edge_idx == face.first_edge && edge_counter == self.max_edges_per_face) {
            return Some(Error::InvalidEdgeCount);
        }
        None
    }

    /// For every face in the mesh, ensures that there is a bidirectional circle of half-edges
    /// around the face that all point to said face, and that each half-edge refers to an existing
    /// opposite half-edge. Fails with the fault of a faulty face (which one, where several are,
    /// depends on the order in which the faces are walked).
    pub fn verify_mesh(&self) -> (r: Result<(), Error>)
        requires
            self.edges_per_face() < usize::MAX,
        ensures
            r is Ok <==> self.spec_is_valid(),
            r matches Err(e) ==> exists|f: usize| #[trigger] self.face_map().contains_key(f) && self.spec_face_fault(f)
                == Some(e),
    {
        let ghost mut seen: Set<usize> = Set::empty();
        for k in it: self.faces.keys()
            invariant
                self.edges_per_face() < usize::MAX,
                it.seq().unref().to_set() == self.faces@.dom(),
                forall|f: usize| #[trigger] seen.contains(f) ==> self.faces@.contains_key(f) && self.spec_face_fault(f) is None,
                forall|f: usize| #[trigger] self.faces@.contains_key(f) ==> seen.contains(f) || exists|j: int|
                    it.index() <= j < it.seq().len() && *it.seq()[j] == f,
        {
            let ghost cur = *k;
            proof {
                assert(it.seq().unref().to_set().contains(cur));
            }
            let face = match self.faces.get(k) {
                Some(face) => *face,
                None => { return Err(Error::FaceWithInvalidEdgeReference); },
            };
            match self.check_face(*k, &face) {
                Some(e) => { return Err(e); },
                None => {},
            }
            proof {
                seen = seen.insert(cur);
                assert forall|f: usize| #[trigger] self.faces@.contains_key(f) implies seen.contains(f) || exists|j: int|
                    it.index() + 1 <= j < it.seq().len() && *it.seq()[j] == f by {
                    if !seen.contains(f) {
                        let j = choose|j: int| it.index() <= j < it.seq().len() && *it.seq()[j] == f;
                        assert(j != it.index());
                    }
                }
            }
        }
        proof {
            assert forall|f: usize| #[trigger] self.faces@.contains_key(f) implies seen.contains(f) by {}
        }
        Ok(())
    }

    /// Creates a new `Mesh` from the vertices of a tetrahedron. The order of vertices is assumed
    /// to be: [apex, a, b, c], where {a, b, c} signify the base triangle of the tetrahedron in
    /// counter-clockwise winding order when seen from the apex. With four different vertices the
    /// mesh is closed and sound: four faces, twelve edges, each paired with its opposite.
    #[verifier::rlimit(30)]
    pub fn from_tetrahedron_vertices(vertices: &[VertexIndex; 4]) -> (r: Result<Self, Error>)
        ensures
            vertices_distinct(*vertices) ==> r is Ok,
            r matches Ok(m) ==> {
                &&& m.spec_is_valid()
                &&& m.face_map() == tetrahedron_faces()
                &&& m.edge_map().dom() == tetrahedron_edges(*vertices).dom()
                &&& forall|e: usize| #[trigger] m.edge_map().contains_key(e) ==> opposite_only_changed(
                    tetrahedron_edges(*vertices),
                    tetrahedron_edges(*vertices)[e],
                    m.edge_map()[e],
                ) && has_reverse_opposite(tetrahedron_edges(*vertices), e, m.edge_map()[e])
                &&& m.edges_per_face() == 3
            },
    {
        let mut mesh = Self::new();
        mesh.add_triangle(vertices[0], vertices[1], vertices[2]);
        mesh.add_triangle(vertices[1], vertices[0], vertices[3]);
        mesh.add_triangle(vertices[2], vertices[3], vertices[0]);
        mesh.add_triangle(vertices[3], vertices[2], vertices[1]);
        let ghost m = tetrahedron_edges(*vertices);
        proof {
            assert(mesh.edge_map() =~= m);
            assert(mesh.face_map() =~= tetrahedron_faces());
            lemma_tetrahedron_pairs(*vertices);
        }
        match mesh.reconnect_adjacent() {
            Ok(()) => {},
            Err(e) => { return Err(e); },
        }
        proof {
            if vertices_distinct(*vertices) {
                assert forall|e: usize| #[trigger] mesh.edge_map().contains_key(e) implies has_reverse_opposite(m, e, mesh.edge_map()[e]) by {
                    assert(m.contains_key(e));
                    let e1 = choose|e1: usize| m.contains_key(e1) && edge_span(m, e1) == edge_span(m, e)
                        && has_reverse_opposite(m, e1, mesh.edge_map()[e1]);
                }
                lemma_tetrahedron_valid(*vertices, mesh.edge_map());
            }
        }
        match mesh.verify_mesh() {
            Ok(()) => {},
            Err(e) => { return Err(e); },
        }
        proof {
            lemma_valid_tetrahedron_complete(*vertices, mesh.edge_map());
        }
        Ok(mesh)
    }

    /// Returns the edges in the circle around a face, starting with its first edge and following
    /// the `next` references until the circle returns to the first edge.
    pub fn iter_face_edges(&self, face_idx: &FaceIndex) -> (r: Vec<HalfEdge>)
        requires
            self.face_map().contains_key(face_idx.0),
            exists|n: nat| closes_after(self.edge_map(), self.face_map()[face_idx.0].first_edge, n),
        ensures
            ({
                let first = self.face_map()[face_idx.0].first_edge;
                &&& closes_after(self.edge_map(), first, r.len() as nat)
                &&& forall|i: int| 0 <= i < r.len() ==> r[i] == self.edge_map()[circle_index(
                    self.edge_map(),
                    first,
                    i as nat,
                ).0]
            }),
    {
        let ghost m = self.edges@;
        let first = match self.faces.get(&face_idx.0) {
            Some(face) => face.first_edge,
            None => { return Vec::new(); },
        };
        let ghost n = choose|n: nat| closes_after(m, first, n);
        let mut out: Vec<HalfEdge> = Vec::new();
        let mut cur = first;
        loop
            invariant_except_break
                out.len() < n,
            invariant
                m == self.edges@,
                closes_after(m, first, n),
                out.len() <= n,
                cur == circle_index(m, first, out.len() as nat),
                forall|i: int| 0 <= i < out.len() ==> out[i] == m[circle_index(m, first, i as nat).0],
            ensures
                out.len() == n,
            decreases n - out.len(),
        {
            let ghost k = out.len() as nat;
            assert(m.contains_key(circle_index(m, first, k).0));
            let edge = *self.edges.get(&cur.0).unwrap();
            out.push(edge);
            cur = edge.next.unwrap();
            proof {
                assert(circle_index(m, first, (k + 1) as nat) == m[circle_index(m, first, k).0].next.unwrap());
            }
            if cur == first {
                break;
            }
        }
        proof {
            assert(closes_after(m, first, out.len() as nat));
        }
        out
    }

    /// Iterates through the `HalfEdge`s of the mesh and pairs up all adjacent `HalfEdge`s: every
    /// edge that stands for the directed vertex pair `(a, b)` (one edge per pair where several
    /// span it) gets as opposite an edge that spans `(b, a)`.
    #[verifier::rlimit(30)]
    pub fn reconnect_adjacent(&mut self) -> (r: Result<(), Error>)
        requires
            nexts_resolve(old(self).edge_map()),
        ensures
            final(self).edge_map().dom() == old(self).edge_map().dom(),
            final(self).face_map() == old(self).face_map(),
            final(self).next_edge() == old(self).next_edge(),
            final(self).next_face() == old(self).next_face(),
            final(self).edges_per_face() == old(self).edges_per_face(),
            r == Err::<(), Error>(Error::OpenEdgeLoop) <==> !all_linked(old(self).edge_map()),
            r == Err::<(), Error>(Error::OpenEdgeLoop) ==> final(self).edge_map() == old(self).edge_map(),
            r == Err::<(), Error>(Error::UnmatchedEdge) <==> all_linked(old(self).edge_map())
                && !spans_paired(old(self).edge_map()),
            r is Ok <==> all_linked(old(self).edge_map()) && spans_paired(old(self).edge_map()),
            forall|e: usize| #[trigger] final(self).edge_map().contains_key(e) ==> opposite_only_changed(
                old(self).edge_map(),
                old(self).edge_map()[e],
                final(self).edge_map()[e],
            ),
            forall|e: usize| #[trigger] final(self).edge_map().contains_key(e) ==> final(self).edge_map()[e].opposite
                == old(self).edge_map()[e].opposite || has_reverse_opposite(old(self).edge_map(), e, final(self).edge_map()[e]),
            r is Ok ==> forall|e: usize| #[trigger] old(self).edge_map().contains_key(e) ==> exists|e1: usize|
                old(self).edge_map().contains_key(e1) && edge_span(old(self).edge_map(), e1) == edge_span(
                    old(self).edge_map(),
                    e,
                ) && has_reverse_opposite(old(self).edge_map(), e1, final(self).edge_map()[e1]),
    {
        let ghost m0 = self.edges@;
        let mut connectivity: HashMap<u128, (usize, usize, usize)> = HashMap::new();
        let ghost mut seen: Set<usize> = Set::empty();
        proof {
            lemma_span_key_injective();
        }
        for k in it: self.edges.keys()
            invariant
                self.edges@ == m0,
                nexts_resolve(m0),
                it.seq().no_duplicates(),
                it.seq().unref().to_set() == m0.dom(),
                seen.subset_of(m0.dom()),
                forall|e: usize| #[trigger] seen.contains(e) ==> m0[e].next is Some
                    && connectivity@.contains_key(span_key(edge_span(m0, e))),
                forall|key: u128| #[trigger] connectivity@.contains_key(key) ==> exists|e: usize|
                    seen.contains(e) && key == span_key(edge_span(m0, e)),
                forall|e: usize| #[trigger] m0.contains_key(e) ==> seen.contains(e) || exists|j: int|
                    it.index() <= j < it.seq().len() && *it.seq()[j] == e,
                conn_wf(m0, connectivity@),
                forall|a: (usize, usize), b: (usize, usize)| #[trigger] span_key(a) == #[trigger] span_key(b) ==> a == b,
        {
            assert(it.seq().unref().to_set().contains(*it.seq()[it.index() as int]));
            let ghost cur = *k;
            let edge = match self.edges.get(k) {
                Some(edge) => *edge,
                None => { return Err(Error::OpenEdgeLoop); },
            };
            match edge.next {
                Some(next_edge_idx) => {
                    let next_vertex = match self.edges.get(&next_edge_idx.0) {
                        Some(next_edge) => next_edge.vertex.0,
                        None => { return Err(Error::OpenEdgeLoop); },
                    };
                    let key = span_key_exec(edge.vertex.0, next_vertex);
                    let ghost conn0 = connectivity@;
                    connectivity.insert(key, (edge.vertex.0, next_vertex, *k));
                    proof {
                        let seen0 = seen;
                        seen = seen0.insert(cur);
                        assert forall|key2: u128| #[trigger] connectivity@.contains_key(key2) implies exists|e: usize|
                            seen.contains(e) && key2 == span_key(edge_span(m0, e)) by {
                            if key2 != key {
                                assert(conn0.contains_key(key2));
                                let e = choose|e: usize| seen0.contains(e) && key2 == span_key(edge_span(m0, e));
                                assert(seen.contains(e));
                            } else {
                                assert(seen.contains(cur));
                            }
                        }
                        assert forall|e: usize| #[trigger] m0.contains_key(e) implies seen.contains(e) || exists|j: int|
                            it.index() + 1 <= j < it.seq().len() && *it.seq()[j] == e by {
                            if !seen.contains(e) {
                                let j = choose|j: int| it.index() <= j < it.seq().len() && *it.seq()[j] == e;
                                assert(j != it.index());
                            }
                        }
                    }
                },
                None => {
                    return Err(Error::OpenEdgeLoop);
                },
            }
        }
        proof {
            assert forall|e: usize| #[trigger] m0.contains_key(e) implies seen.contains(e) by {}
            assert(all_linked(m0));
        }
        let ghost conn = connectivity@;
        let ghost mut done: Set<u128> = Set::empty();
        proof {
            reveal(edges_follow);
            reveal(done_paired);
            assert(self.edges@ =~= m0);
        }
        for key in it2: connectivity.keys()
            invariant
                connectivity@ == conn,
                conn_wf(m0, conn),
                all_linked(m0),
                forall|e: usize| #[trigger] m0.contains_key(e) ==> conn.contains_key(span_key(edge_span(m0, e))),
                it2.seq().unref().to_set() == conn.dom(),
                self.faces@ == old(self).faces@,
                self.next_edge_idx == old(self).next_edge_idx,
                self.next_face_idx == old(self).next_face_idx,
                self.max_edges_per_face == old(self).max_edges_per_face,
                m0 == old(self).edges@,
                edges_follow(m0, self.edges@),
                done_paired(m0, conn, self.edges@, done),
                forall|k: u128| #[trigger] conn.contains_key(k) ==> done.contains(k) || exists|j: int|
                    it2.index() <= j < it2.seq().len() && *it2.seq()[j] == k,
        {
            let ghost cur = *key;
            proof {
                assert(it2.seq().unref().to_set().contains(cur));
            }
            let found = self.connect_one(&connectivity, *key, Ghost(m0), Ghost(done));
            if !found {
                proof {
                    let ea = conn[cur].2;
                    if spans_paired(m0) {
                        assert(m0.contains_key(ea));
                        lemma_span_key_injective();
                        let e2 = choose|e2: usize| m0.contains_key(e2) && #[trigger] edge_span(m0, e2) == (edge_span(m0, ea).1, edge_span(m0, ea).0);
                        assert(conn.contains_key(span_key(edge_span(m0, e2))));
                    }
                    reveal(edges_follow);
                }
                return Err(Error::UnmatchedEdge);
            }
            proof {
                done = done.insert(cur);
                assert forall|k: u128| #[trigger] conn.contains_key(k) implies done.contains(k) || exists|j: int|
                    it2.index() + 1 <= j < it2.seq().len() && *it2.seq()[j] == k by {
                    if !done.contains(k) {
                        let j = choose|j: int| it2.index() <= j < it2.seq().len() && *it2.seq()[j] == k;
                        assert(j != it2.index());
                    }
                }
            }
        }
        proof {
            reveal(edges_follow);
            reveal(done_paired);
            lemma_span_key_injective();
            assert forall|k: u128| #[trigger] conn.contains_key(k) implies done.contains(k) by {}
            assert forall|e: usize| #[trigger] m0.contains_key(e) implies exists|e2: usize|
                m0.contains_key(e2) && #[trigger] edge_span(m0, e2) == (edge_span(m0, e).1, edge_span(m0, e).0) by {
                let key = span_key(edge_span(m0, e));
                assert(done.contains(key));
                let w = conn[key];
                let rkey = span_key((w.1, w.0));
                assert(conn.contains_key(rkey));
                let e2 = conn[rkey].2;
                assert(edge_span(m0, e2) == (w.1, w.0));
            }
            assert forall|e: usize| #[trigger] m0.contains_key(e) implies exists|e1: usize|
                m0.contains_key(e1) && edge_span(m0, e1) == edge_span(m0, e)
                    && has_reverse_opposite(m0, e1, self.edges@[e1]) by {
                let key = span_key(edge_span(m0, e));
                assert(done.contains(key));
                let w = conn[key];
                assert(edge_span(m0, w.2) == edge_span(m0, e));
            }
        }
        Ok(())
    }
}

impl HalfEdge {
    /// The edge that `from_vertex` creates.
    pub open spec fn from_vertex_spec(vertex: VertexIndex) -> HalfEdge {
        HalfEdge { vertex, next: None, prev: None, opposite: None, face: None }
    }
}

/// Every `next` reference of an edge names an edge of the map.
pub open spec fn nexts_resolve(m: Map<usize, HalfEdge>) -> bool {
    forall|e: usize|
        #[trigger] m.contains_key(e) ==> (m[e].next matches Some(n) ==> m.contains_key(n.0))
}

/// Every edge of the map has a `next` reference.
pub open spec fn all_linked(m: Map<usize, HalfEdge>) -> bool {
    forall|e: usize| #[trigger] m.contains_key(e) ==> m[e].next is Some
}

/// The directed vertex pair that an edge spans: its own vertex and the vertex of the edge after
/// it.
pub open spec fn edge_span(m: Map<usize, HalfEdge>, e: usize) -> (usize, usize) {
    (m[e].vertex.0, m[m[e].next.unwrap().0].vertex.0)
}

/// Every directed vertex pair that an edge spans is also spanned, in reverse, by an edge.
pub open spec fn spans_paired(m: Map<usize, HalfEdge>) -> bool {
    forall|e: usize|
        #[trigger] m.contains_key(e) ==> exists|e2: usize|
            m.contains_key(e2) && #[trigger] edge_span(m, e2) == (edge_span(m, e).1, edge_span(m, e).0)
}

/// No two edges span the same directed vertex pair.
pub open spec fn spans_unique(m: Map<usize, HalfEdge>) -> bool {
    forall|e1: usize, e2: usize|
        m.contains_key(e1) && m.contains_key(e2) && #[trigger] edge_span(m, e1) == #[trigger] edge_span(
            m,
            e2,
        ) ==> e1 == e2
}

/// `after` is the edge of index `e` in `m` with an opposite that spans its pair in reverse.
pub open spec fn has_reverse_opposite(m: Map<usize, HalfEdge>, e: usize, after: HalfEdge) -> bool {
    after.opposite matches Some(o) && m.contains_key(o.0) && edge_span(m, o.0) == (
        edge_span(m, e).1,
        edge_span(m, e).0,
    )
}

/// `after` differs from `before` at most in its opposite.
pub open spec fn opposite_only_changed(m: Map<usize, HalfEdge>, before: HalfEdge, after: HalfEdge) -> bool {
    &&& after.vertex == before.vertex
    &&& after.next == before.next
    &&& after.prev == before.prev
    &&& after.face == before.face
}

/// The key that stands for a directed vertex pair.
pub open spec fn span_key(span: (usize, usize)) -> u128 {
    (span.0 as int * 0x1_0000_0000_0000_0000 + span.1 as int) as u128
}

proof fn lemma_span_key_injective()
    ensures
        forall|a: (usize, usize), b: (usize, usize)| #[trigger] span_key(a) == #[trigger] span_key(b) ==> a == b,
{
    assert forall|a: (usize, usize), b: (usize, usize)| #[trigger] span_key(a) == #[trigger] span_key(b) implies a == b by {
        let x = a.0 as int * 0x1_0000_0000_0000_0000 + a.1 as int;
        let y = b.0 as int * 0x1_0000_0000_0000_0000 + b.1 as int;
        assert(0 <= x < 0x1_0000_0000_0000_0000_0000_0000_0000_0000);
        assert(0 <= y < 0x1_0000_0000_0000_0000_0000_0000_0000_0000);
        assert(x == y);
        assert(a.0 == b.0);
    }
}

fn span_key_exec(a: usize, b: usize) -> (k: u128)
    ensures
        k == span_key((a, b)),
{
    (a as u128) * 0x1_0000_0000_0000_0000u128 + (b as u128)
}

/// The connectivity map stands for edges of `m`: each entry holds the pair it is keyed by and an
/// edge that spans that pair.
pub open spec fn conn_wf(m: Map<usize, HalfEdge>, c: Map<u128, (usize, usize, usize)>) -> bool {
    forall|key: u128|
        #[trigger] c.contains_key(key) ==> {
            let (va, vb, e) = c[key];
            &&& key == span_key((va, vb))
            &&& m.contains_key(e)
            &&& m[e].next is Some
            &&& edge_span(m, e) == (va, vb)
        }
}

/// `now` keeps the edges of `m0` and changes each at most in its opposite, which is then an
/// edge that spans the reverse pair.
#[verifier::opaque]
pub open spec fn edges_follow(m0: Map<usize, HalfEdge>, now: Map<usize, HalfEdge>) -> bool {
    &&& now.dom() == m0.dom()
    &&& forall|e: usize| #[trigger] now.contains_key(e) ==> opposite_only_changed(m0, m0[e], now[e])
    &&& forall|e: usize| #[trigger] now.contains_key(e) ==> now[e].opposite == m0[e].opposite
        || has_reverse_opposite(m0, e, now[e])
}

/// Every processed connectivity entry has a reverse entry, and its edge has an opposite that
/// spans the reverse pair.
#[verifier::opaque]
pub open spec fn done_paired(
    m0: Map<usize, HalfEdge>,
    conn: Map<u128, (usize, usize, usize)>,
    now: Map<usize, HalfEdge>,
    done: Set<u128>,
) -> bool {
    forall|k: u128| #[trigger] done.contains(k) ==> conn.contains_key(k) && conn.contains_key(
        span_key((conn[k].1, conn[k].0)),
    ) && has_reverse_opposite(m0, conn[k].2, now[conn[k].2])
}

proof fn lemma_set_opposite(
    m0: Map<usize, HalfEdge>,
    conn: Map<u128, (usize, usize, usize)>,
    before: Map<usize, HalfEdge>,
    done: Set<u128>,
    key: u128,
    eb: usize,
)
    requires
        conn_wf(m0, conn),
        edges_follow(m0, before),
        done_paired(m0, conn, before, done),
        conn.contains_key(key),
        conn.contains_key(span_key((conn[key].1, conn[key].0))),
        conn[span_key((conn[key].1, conn[key].0))].2 == eb,
    ensures
        ({
            let now = before.insert(conn[key].2, HalfEdge { opposite: Some(EdgeIndex(eb)), ..before[conn[key].2] });
            &&& edges_follow(m0, now)
            &&& done_paired(m0, conn, now, done.insert(key))
        }),
{
    reveal(edges_follow);
    reveal(done_paired);
    lemma_span_key_injective();
    let cur = conn[key];
    let rkey = span_key((cur.1, cur.0));
    let now = before.insert(cur.2, HalfEdge { opposite: Some(EdgeIndex(eb)), ..before[cur.2] });
    assert(m0.contains_key(cur.2));
    assert(conn.contains_key(rkey));
    assert(has_reverse_opposite(m0, cur.2, now[cur.2]));
    assert(now.dom() =~= m0.dom());
    assert forall|k: u128| #[trigger] done.insert(key).contains(k) implies conn.contains_key(k) && conn.contains_key(
        span_key((conn[k].1, conn[k].0)),
    ) && has_reverse_opposite(m0, conn[k].2, now[conn[k].2]) by {
        if k != key {
            assert(done.contains(k));
        }
    }
}

/// What walking the circle of a face finds, from the edge `next` on (the edge before it being
/// `prev`, and `counter` edges having been walked): the first fault, or `None` if the circle
/// returns to the first edge after exactly `max` edges, each complete, belonging to the face,
/// with an existing opposite and a `prev` reference that matches.
pub open spec fn walk_fault(
    m: Map<usize, HalfEdge>,
    face_idx: usize,
    first: EdgeIndex,
    prev: EdgeIndex,
    next: EdgeIndex,
    counter: int,
    max: int,
) -> Option<Error>
    decreases max - counter + 1,
{
    if next == first || counter > max {
        if m[first.0].prev.unwrap() != prev {
            Some(Error::EdgeWithInvalidEdgeReferences)
        } else if !(next == first && counter == max) {
            Some(Error::InvalidEdgeCount)
        } else {
            None
        }
    } else if !m.contains_key(next.0) {
        Some(Error::EdgeNotFound)
    } else {
        let cur = m[next.0];
        if !cur.spec_is_complete() {
            Some(Error::IncompleteEdge)
        } else if cur.face.unwrap().0 != face_idx {
            Some(Error::EdgeWithInvalidFaceReference)
        } else if !m.contains_key(cur.opposite.unwrap().0) {
            Some(Error::UnmatchedEdge)
        } else if cur.prev.unwrap() != prev {
            Some(Error::EdgeWithInvalidEdgeReferences)
        } else {
            walk_fault(m, face_idx, first, next, cur.next.unwrap(), counter + 1, max)
        }
    }
}

/// The first fault of a face: its first edge must exist, be complete, belong to the face and
/// have an existing opposite, and the circle of edges from it must be sound (see `walk_fault`).
pub open spec fn face_fault(m: Map<usize, HalfEdge>, face_idx: usize, face: Face, max: int) -> Option<Error> {
    if !m.contains_key(face.first_edge.0) {
        Some(Error::FaceWithInvalidEdgeReference)
    } else {
        let first = m[face.first_edge.0];
        if !first.spec_is_complete() {
            Some(Error::IncompleteEdge)
        } else if first.face.unwrap().0 != face_idx {
            Some(Error::EdgeWithInvalidFaceReference)
        } else if !m.contains_key(first.opposite.unwrap().0) {
            Some(Error::UnmatchedEdge)
        } else {
            walk_fault(m, face_idx, face.first_edge, face.first_edge, first.next.unwrap(), 1, max)
        }
    }
}

/// `m` with the three edges `a -> b -> c -> a` of a triangle added at the indices `base`,
/// `base + 1` and `base + 2`, all around the face `f`.
pub open spec fn with_triangle(
    m: Map<usize, HalfEdge>,
    base: usize,
    f: usize,
    a: VertexIndex,
    b: VertexIndex,
    c: VertexIndex,
) -> Map<usize, HalfEdge> {
    let ea = EdgeIndex(base);
    let eb = EdgeIndex((base + 1) as usize);
    let ec = EdgeIndex((base + 2) as usize);
    let face = Some(FaceIndex(f));
    m.insert(base, HalfEdge { vertex: a, next: Some(eb), prev: Some(ec), opposite: None, face }).insert(
        eb.0,
        HalfEdge { vertex: b, next: Some(ec), prev: Some(ea), opposite: None, face },
    ).insert(ec.0, HalfEdge { vertex: c, next: Some(ea), prev: Some(eb), opposite: None, face })
}

/// The edges of the tetrahedron `[apex, a, b, c]` before they are paired up.
pub open spec fn tetrahedron_edges(v: [VertexIndex; 4]) -> Map<usize, HalfEdge> {
    with_triangle(
        with_triangle(
            with_triangle(with_triangle(Map::empty(), 0, 0, v[0], v[1], v[2]), 3, 1, v[1], v[0], v[3]),
            6,
            2,
            v[2],
            v[3],
            v[0],
        ),
        9,
        3,
        v[3],
        v[2],
        v[1],
    )
}

/// The faces of the tetrahedron mesh.
pub open spec fn tetrahedron_faces() -> Map<usize, Face> {
    Map::empty().insert(0, Face { first_edge: EdgeIndex(0) }).insert(1, Face { first_edge: EdgeIndex(3) }).insert(
        2,
        Face { first_edge: EdgeIndex(6) },
    ).insert(3, Face { first_edge: EdgeIndex(9) })
}

/// `true` if the four vertices are pairwise different.
pub open spec fn vertices_distinct(v: [VertexIndex; 4]) -> bool {
    forall|i: int, j: int| 0 <= i < j < 4 ==> v[i] != v[j]
}

/// The vertex of each of the twelve edges of the tetrahedron `[apex, a, b, c]`.
pub open spec fn tetra_vertex(v: [VertexIndex; 4], e: usize) -> VertexIndex {
    if e == 0 { v[0] } else if e == 1 { v[1] } else if e == 2 { v[2] }
    else if e == 3 { v[1] } else if e == 4 { v[0] } else if e == 5 { v[3] }
    else if e == 6 { v[2] } else if e == 7 { v[3] } else if e == 8 { v[0] }
    else if e == 9 { v[3] } else if e == 10 { v[2] } else { v[1] }
}

/// The edge of index `e` of the tetrahedron before the edges are paired up.
pub open spec fn tetra_edge(v: [VertexIndex; 4], e: usize) -> HalfEdge {
    let base = (e - e % 3) as usize;
    HalfEdge {
        vertex: tetra_vertex(v, e),
        next: Some(EdgeIndex(if e % 3 == 2 { base } else { (e + 1) as usize })),
        prev: Some(EdgeIndex(if e % 3 == 0 { (base + 2) as usize } else { (e - 1) as usize })),
        opposite: None,
        face: Some(FaceIndex((e / 3) as usize)),
    }
}

/// The edge that spans the reverse of the pair that edge `e` of the tetrahedron spans.
pub open spec fn tetra_partner(e: usize) -> usize {
    if e == 0 { 3 } else if e == 1 { 10 } else if e == 2 { 8 } else if e == 3 { 0 } else if e == 4 { 7 }
    else if e == 5 { 11 } else if e == 6 { 9 } else if e == 7 { 4 } else if e == 8 { 2 } else if e == 9 { 6 }
    else if e == 10 { 1 } else { 5 }
}

/// The edges of the tetrahedron before they are paired up, as a table.
pub open spec fn tetra_map(v: [VertexIndex; 4]) -> Map<usize, HalfEdge> {
    Map::new(|e: usize| e < 12, |e: usize| tetra_edge(v, e))
}

proof fn lemma_tetra_table(v: [VertexIndex; 4])
    ensures
        tetrahedron_edges(v) == tetra_map(v),
{
    let m = tetrahedron_edges(v);
    let t = tetra_map(v);
    assert(m.dom() =~= t.dom());
    assert forall|e: usize| #[trigger] m.contains_key(e) implies m[e] == t[e] by {
        if e == 0 {} else if e == 1 {} else if e == 2 {} else if e == 3 {} else if e == 4 {}
        else if e == 5 {} else if e == 6 {} else if e == 7 {} else if e == 8 {} else if e == 9 {}
        else if e == 10 {} else {}
    }
    assert(m =~= t);
}

/// The positions in `[apex, a, b, c]` of the two vertices that edge `e` of the tetrahedron spans.
pub open spec fn tetra_span_positions(e: usize) -> (int, int) {
    if e == 0 { (0, 1) } else if e == 1 { (1, 2) } else if e == 2 { (2, 0) }
    else if e == 3 { (1, 0) } else if e == 4 { (0, 3) } else if e == 5 { (3, 1) }
    else if e == 6 { (2, 3) } else if e == 7 { (3, 0) } else if e == 8 { (0, 2) }
    else if e == 9 { (3, 2) } else if e == 10 { (2, 1) } else { (1, 3) }
}

proof fn lemma_tetra_spans(v: [VertexIndex; 4])
    ensures
        forall|e: usize| #![trigger edge_span(tetra_map(v), e)] e < 12 ==> edge_span(tetra_map(v), e) == (
            v[tetra_span_positions(e).0].0,
            v[tetra_span_positions(e).1].0,
        ),
{
    let m = tetra_map(v);
    assert forall|e: usize| #![trigger edge_span(m, e)] e < 12 implies edge_span(m, e) == (
        v[tetra_span_positions(e).0].0,
        v[tetra_span_positions(e).1].0,
    ) by {
        let n = m[e].next.unwrap().0;
        assert(n < 12);
    }
}

proof fn lemma_tetra_links(v: [VertexIndex; 4])
    ensures
        nexts_resolve(tetra_map(v)),
        all_linked(tetra_map(v)),
        tetra_map(v).dom() == Set::new(|e: usize| e < 12),
{
    assert(tetra_map(v).dom() =~= Set::new(|e: usize| e < 12));
}

proof fn lemma_tetra_paired(v: [VertexIndex; 4])
    ensures
        spans_paired(tetra_map(v)),
{
    lemma_tetra_spans(v);
    let m = tetra_map(v);
    assert forall|e: usize| #[trigger] m.contains_key(e) implies exists|e2: usize|
        m.contains_key(e2) && #[trigger] edge_span(m, e2) == (edge_span(m, e).1, edge_span(m, e).0) by {
        let partner = tetra_partner(e);
        assert(m.contains_key(partner));
        assert(edge_span(m, partner) == (edge_span(m, e).1, edge_span(m, e).0));
    }
}

proof fn lemma_tetra_unique(v: [VertexIndex; 4])
    requires
        vertices_distinct(v),
    ensures
        spans_unique(tetra_map(v)),
{
    lemma_tetra_spans(v);
    let m = tetra_map(v);
    assert forall|e1: usize, e2: usize|
        m.contains_key(e1) && m.contains_key(e2) && #[trigger] edge_span(m, e1) == #[trigger] edge_span(m, e2)
            implies e1 == e2 by {
        let (a1, b1) = tetra_span_positions(e1);
        let (a2, b2) = tetra_span_positions(e2);
        assert(0 <= a1 < 4 && 0 <= b1 < 4 && 0 <= a2 < 4 && 0 <= b2 < 4);
        if a1 != a2 {
            if a1 < a2 { assert(v[a1] != v[a2]); } else { assert(v[a2] != v[a1]); }
            assert(v[a1].0 != v[a2].0);
        }
        if b1 != b2 {
            if b1 < b2 { assert(v[b1] != v[b2]); } else { assert(v[b2] != v[b1]); }
            assert(v[b1].0 != v[b2].0);
        }
        assert(a1 == a2 && b1 == b2);
    }
}

proof fn lemma_tetrahedron_pairs(v: [VertexIndex; 4])
    ensures
        nexts_resolve(tetrahedron_edges(v)),
        all_linked(tetrahedron_edges(v)),
        spans_paired(tetrahedron_edges(v)),
        vertices_distinct(v) ==> spans_unique(tetrahedron_edges(v)),
        tetrahedron_edges(v).dom() == Set::new(|e: usize| e < 12),
{
    lemma_tetra_table(v);
    lemma_tetra_links(v);
    lemma_tetra_paired(v);
    if vertices_distinct(v) {
        lemma_tetra_unique(v);
    }
}

proof fn lemma_tetra_face_walk(v: [VertexIndex; 4], n: Map<usize, HalfEdge>, f: usize)
    requires
        f < 4,
        n.dom() == Set::new(|e: usize| e < 12),
        forall|e: usize| #[trigger] n.contains_key(e) ==> opposite_only_changed(tetrahedron_edges(v), tetra_edge(v, e), n[e]),
    ensures
        face_fault(n, f, tetrahedron_faces()[f], 3) is None <==> (n[(3 * f) as usize].opposite matches Some(o) && n.contains_key(o.0))
            && (n[(3 * f + 1) as usize].opposite matches Some(o) && n.contains_key(o.0))
            && (n[(3 * f + 2) as usize].opposite matches Some(o) && n.contains_key(o.0)),
{
    let b = (3 * f) as usize;
    assert(tetrahedron_faces()[f] == Face { first_edge: EdgeIndex(b) });
    assert(n.contains_key(b) && n.contains_key((b + 1) as usize) && n.contains_key((b + 2) as usize));
    assert(b % 3 == 0 && (b + 1) % 3 == 1 && (b + 2) % 3 == 2);
    assert(b / 3 == f && (b + 1) / 3 == f && (b + 2) / 3 == f);
    reveal_with_fuel(walk_fault, 4);
}

proof fn lemma_tetrahedron_valid(v: [VertexIndex; 4], n: Map<usize, HalfEdge>)
    requires
        n.dom() == tetrahedron_edges(v).dom(),
        forall|e: usize| #[trigger] n.contains_key(e) ==> opposite_only_changed(
            tetrahedron_edges(v),
            tetrahedron_edges(v)[e],
            n[e],
        ) && (n[e].opposite matches Some(o) && n.contains_key(o.0)),
    ensures
        forall|f: usize| #[trigger] tetrahedron_faces().contains_key(f) ==> face_fault(n, f, tetrahedron_faces()[f], 3) is None,
{
    lemma_tetra_table(v);
    lemma_tetra_links(v);
    assert forall|f: usize| #[trigger] tetrahedron_faces().contains_key(f) implies face_fault(n, f, tetrahedron_faces()[f], 3) is None by {
        assert(f < 4);
        lemma_tetra_face_walk(v, n, f);
        assert(n.contains_key((3 * f) as usize));
        assert(n.contains_key((3 * f + 1) as usize));
        assert(n.contains_key((3 * f + 2) as usize));
    }
}

proof fn lemma_valid_tetrahedron_complete(v: [VertexIndex; 4], n: Map<usize, HalfEdge>)
    requires
        n.dom() == tetrahedron_edges(v).dom(),
        forall|e: usize| #[trigger] n.contains_key(e) ==> opposite_only_changed(
            tetrahedron_edges(v),
            tetrahedron_edges(v)[e],
            n[e],
        ),
        forall|e: usize| #[trigger] n.contains_key(e) ==> n[e].opposite == tetrahedron_edges(v)[e].opposite
            || has_reverse_opposite(tetrahedron_edges(v), e, n[e]),
        forall|f: usize| #[trigger] tetrahedron_faces().contains_key(f) ==> face_fault(n, f, tetrahedron_faces()[f], 3) is None,
    ensures
        forall|e: usize| #[trigger] n.contains_key(e) ==> has_reverse_opposite(tetrahedron_edges(v), e, n[e]),
{
    lemma_tetra_table(v);
    assert forall|e: usize| #[trigger] n.contains_key(e) implies has_reverse_opposite(tetrahedron_edges(v), e, n[e]) by {
        let f = (e / 3) as usize;
        assert(f < 4);
        assert(tetrahedron_faces().contains_key(f));
        lemma_tetra_face_walk(v, n, f);
        assert(e == 3 * f || e == 3 * f + 1 || e == 3 * f + 2);
        assert(n[e].opposite is Some);
        assert(tetrahedron_edges(v)[e].opposite is None);
    }
}

/// The index of the edge reached from `first` after following `next` references `i` times.
pub open spec fn circle_index(m: Map<usize, HalfEdge>, first: EdgeIndex, i: nat) -> EdgeIndex
    decreases i,
{
    if i == 0 {
        first
    } else {
        m[circle_index(m, first, (i - 1) as nat).0].next.unwrap()
    }
}

/// `true` if following `next` references from `first` returns to `first` for the first time after
/// exactly `n` steps, through edges that exist and have a `next` reference.
pub open spec fn closes_after(m: Map<usize, HalfEdge>, first: EdgeIndex, n: nat) -> bool {
    &&& n > 0
    &&& circle_index(m, first, n) == first
    &&& forall|i: nat| i < n ==> m.contains_key(#[trigger] circle_index(m, first, i).0) && m[circle_index(
        m,
        first,
        i,
    ).0].next is Some
    &&& forall|i: nat| 0 < i < n ==> #[trigger] circle_index(m, first, i) != first
}

/// `true` if `e` is an edge of the map that is complete, belongs to face `f` and has an
/// existing opposite edge.
pub open spec fn sound_edge(m: Map<usize, HalfEdge>, f: usize, e: usize) -> bool {
    &&& m.contains_key(e)
    &&& m[e].spec_is_complete()
    &&& m[e].face.unwrap().0 == f
    &&& m.contains_key(m[e].opposite.unwrap().0)
}

/// `true` if `c` lists a bidirectional circle of edges around face `f`: it starts at the face's
/// first edge and returns to it only at its end, each edge is sound, the `next` reference of each
/// edge names the edge after it (the last one's names the first), and the `prev` reference of
/// each names the edge before it (the first one's names the last).
pub open spec fn face_circle(m: Map<usize, HalfEdge>, f: usize, face: Face, c: Seq<usize>) -> bool {
    &&& c.len() > 0
    &&& c[0] == face.first_edge.0
    &&& forall|i: int| 0 <= i < c.len() ==> sound_edge(m, f, #[trigger] c[i])
    &&& forall|i: int| 0 < i < c.len() ==> #[trigger] c[i] != c[0]
    &&& forall|i: int| 0 <= i < c.len() - 1 ==> (#[trigger] m[c[i]]).next.unwrap().0 == c[i + 1]
    &&& forall|i: int| 0 < i < c.len() ==> (#[trigger] m[c[i]]).prev.unwrap().0 == c[i - 1]
    &&& m[c.last()].next.unwrap().0 == c[0]
    &&& m[c[0]].prev.unwrap().0 == c.last()
}

/// `true` if face `f` is enclosed by a bidirectional circle of exactly `n` edges.
pub open spec fn has_face_circle(m: Map<usize, HalfEdge>, f: usize, face: Face, n: int) -> bool {
    exists|c: Seq<usize>| #[trigger] face_circle(m, f, face, c) && c.len() == n
}

/// A sound walk from `next` on lists the rest of the circle: the edges it passes, up to the
/// first edge.
proof fn lemma_walk_circle(
    m: Map<usize, HalfEdge>,
    f: usize,
    first: EdgeIndex,
    prev: EdgeIndex,
    next: EdgeIndex,
    counter: int,
    max: int,
) -> (tail: Seq<usize>)
    requires
        walk_fault(m, f, first, prev, next, counter, max) is None,
    ensures
        tail.len() == max - counter,
        forall|i: int| 0 <= i < tail.len() ==> sound_edge(m, f, #[trigger] tail[i]) && tail[i] != first.0,
        forall|i: int| 0 <= i < tail.len() - 1 ==> (#[trigger] m[tail[i]]).next.unwrap().0 == tail[i + 1],
        forall|i: int| 0 < i < tail.len() ==> (#[trigger] m[tail[i]]).prev.unwrap().0 == tail[i - 1],
        tail.len() == 0 ==> next == first && m[first.0].prev.unwrap() == prev,
        tail.len() > 0 ==> tail[0] == next.0 && m[tail[0]].prev.unwrap() == prev && m[tail.last()].next.unwrap()
            == first && m[first.0].prev.unwrap().0 == tail.last(),
    decreases max - counter + 1,
{
    if next == first || counter > max {
        Seq::empty()
    } else {
        let cur = m[next.0];
        let rest = lemma_walk_circle(m, f, first, next, cur.next.unwrap(), counter + 1, max);
        let tail = seq![next.0] + rest;
        assert forall|i: int| 0 <= i < tail.len() implies sound_edge(m, f, #[trigger] tail[i]) && tail[i] != first.0 by {
            if i > 0 {
                assert(tail[i] == rest[i - 1]);
            }
        }
        assert forall|i: int| 0 <= i < tail.len() - 1 implies (#[trigger] m[tail[i]]).next.unwrap().0 == tail[i + 1] by {
            if i > 0 {
                assert(tail[i] == rest[i - 1] && tail[i + 1] == rest[i]);
            }
        }
        assert forall|i: int| 0 < i < tail.len() implies (#[trigger] m[tail[i]]).prev.unwrap().0 == tail[i - 1] by {
            assert(tail[i] == rest[i - 1]);
            if i > 1 {
                assert(tail[i - 1] == rest[i - 2]);
            }
        }
        if rest.len() > 0 {
            assert(tail.last() == rest.last());
        }
        tail
    }
}

/// A circle of edges makes every walk along it, from any of its edges on, find no fault.
proof fn lemma_circle_walk(m: Map<usize, HalfEdge>, f: usize, face: Face, c: Seq<usize>, k: int)
    requires
        face_circle(m, f, face, c),
        1 <= k <= c.len(),
    ensures
        walk_fault(
            m,
            f,
            face.first_edge,
            EdgeIndex(c[k - 1]),
            if k < c.len() { EdgeIndex(c[k]) } else { face.first_edge },
            k,
            c.len() as int,
        ) is None,
    decreases c.len() - k,
{
    let n = c.len() as int;
    if k < n {
        assert(sound_edge(m, f, c[k]));
        assert(c[k] != c[0]);
        assert(m[c[k]].prev.unwrap().0 == c[k - 1]);
        lemma_circle_walk(m, f, face, c, k + 1);
        if k + 1 < n {
            assert(m[c[k]].next.unwrap().0 == c[k + 1]);
        }
    } else {
        assert(c.last() == c[k - 1]);
    }
}

/// The law of `verify_mesh`: a mesh is valid exactly where each of its faces is enclosed by a
/// bidirectional circle of as many edges as a face has, each of them complete, belonging to the
/// face and with an existing opposite edge.
pub proof fn lemma_valid_iff_face_circles(mesh: &Mesh)
    ensures
        mesh.spec_is_valid() <==> forall|f: usize| #[trigger] mesh.face_map().contains_key(f) ==> has_face_circle(
            mesh.edge_map(),
            f,
            mesh.face_map()[f],
            mesh.edges_per_face() as int,
        ),
{
    let m = mesh.edge_map();
    let max = mesh.edges_per_face() as int;
    if mesh.spec_is_valid() {
        assert forall|f: usize| #[trigger] mesh.face_map().contains_key(f) implies has_face_circle(
            m,
            f,
            mesh.face_map()[f],
            max,
        ) by {
            let face = mesh.face_map()[f];
            assert(mesh.spec_face_fault(f) is None);
            let first = m[face.first_edge.0];
            let tail = lemma_walk_circle(m, f, face.first_edge, face.first_edge, first.next.unwrap(), 1, max);
            let c = seq![face.first_edge.0] + tail;
            assert forall|i: int| 0 <= i < c.len() implies sound_edge(m, f, #[trigger] c[i]) by {
                if i > 0 {
                    assert(c[i] == tail[i - 1]);
                }
            }
            assert forall|i: int| 0 < i < c.len() implies #[trigger] c[i] != c[0] by {
                assert(c[i] == tail[i - 1]);
            }
            assert forall|i: int| 0 <= i < c.len() - 1 implies (#[trigger] m[c[i]]).next.unwrap().0 == c[i + 1] by {
                if i > 0 {
                    assert(c[i] == tail[i - 1] && c[i + 1] == tail[i]);
                } else {
                    assert(c[1] == tail[0]);
                }
            }
            assert forall|i: int| 0 < i < c.len() implies (#[trigger] m[c[i]]).prev.unwrap().0 == c[i - 1] by {
                assert(c[i] == tail[i - 1]);
                if i > 1 {
                    assert(c[i - 1] == tail[i - 2]);
                }
            }
            if tail.len() > 0 {
                assert(c.last() == tail.last());
            }
            assert(face_circle(m, f, face, c));
        }
    }
    if forall|f: usize| #[trigger] mesh.face_map().contains_key(f) ==> has_face_circle(m, f, mesh.face_map()[f], max) {
        assert forall|f: usize| #[trigger] mesh.face_map().contains_key(f) implies mesh.spec_face_fault(f) is None by {
            let face = mesh.face_map()[f];
            assert(has_face_circle(m, f, face, max));
            let c = choose|c: Seq<usize>| #[trigger] face_circle(m, f, face, c) && c.len() == max;
            assert(sound_edge(m, f, c[0]));
            lemma_circle_walk(m, f, face, c, 1);
            if c.len() > 1 {
                assert(m[c[0]].next.unwrap().0 == c[1]);
            }
        }
    }
}

} // verus!

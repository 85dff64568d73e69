//! The subdivision while it is built: append-only arenas of vertices,
//! half-edges and faces, in which links may still be missing.

use vstd::prelude::*;
use crate::dcel::{
    faces_anchored,
    references_resolve,
    rings_linked,
    twins_paired,
    vertices_named,
    Diagram,
    Face,
    HalfEdge,
    Vertex,
};
use crate::error::BuildError;
use crate::scalar::Scalar;

verus! {

/// A half-edge under construction.
#[derive(Debug, PartialEq, Eq, Clone, Copy)]
pub struct HalfEdgeBuilder {
    pub id: usize,
    pub face_id: usize,
    pub start_id: Option<usize>,
    pub twin_id: Option<usize>,
    pub prev_id: Option<usize>,
    pub next_id: Option<usize>,
}

impl HalfEdgeBuilder {
    /// What a half-edge lacks to be finished, if anything: the first of start
    /// vertex, predecessor and successor that is missing.
    pub open spec fn defect(&self) -> Option<BuildError> {
        if self.start_id is None {
            Some(BuildError::MissingStart)
        } else if self.prev_id is None {
            Some(BuildError::MissingPrev)
        } else if self.next_id is None {
            Some(BuildError::MissingNext)
        } else {
            None
        }
    }

    /// The finished half-edge, for a half-edge that lacks nothing.
    pub open spec fn finished(&self) -> HalfEdge {
        HalfEdge {
            id: self.id,
            face_id: self.face_id,
            start_id: self.start_id->Some_0,
            twin_id: self.twin_id,
            prev_id: self.prev_id->Some_0,
            next_id: self.next_id->Some_0,
        }
    }

    /// Says what the half-edge lacks to be finished, if anything.
    pub fn find_defect(&self) -> (defect: Option<BuildError>)
        ensures
            defect == self.defect(),
    {
        if self.start_id.is_none() {
            Some(BuildError::MissingStart)
        } else if self.prev_id.is_none() {
            Some(BuildError::MissingPrev)
        } else if self.next_id.is_none() {
            Some(BuildError::MissingNext)
        } else {
            None
        }
    }

    /// Finishes a half-edge that lacks nothing; a missing twin stays missing.
    pub fn into_half_edge(self) -> (half_edge: HalfEdge)
        requires
            self.defect() is None,
        ensures
            half_edge == self.finished(),
    {
        HalfEdge {
            id: self.id,
            face_id: self.face_id,
            start_id: self.start_id.unwrap(),
            twin_id: self.twin_id,
            prev_id: self.prev_id.unwrap(),
            next_id: self.next_id.unwrap(),
        }
    }
}

/// A face under construction: its site, one half-edge of its ring once there is
/// one, and the two ends of the ring while it is open towards the border.
#[derive(Debug, PartialEq, Clone, Copy)]
pub struct FaceBuilder<T> {
    pub id: usize,
    pub x: T,
    pub y: T,
    pub half_edge_id: Option<usize>,
    /// The half-edge of the ring that ends on the border.
    pub start_id: Option<usize>,
    /// The half-edge of the ring that starts on the border.
    pub end_id: Option<usize>,
}

impl<T: Copy> FaceBuilder<T> {
    /// The finished face, for a face that has a half-edge.
    pub open spec fn finished(&self) -> Face<T> {
        Face { id: self.id, x: self.x, y: self.y, start_id: self.half_edge_id->Some_0 }
    }

    /// Finishes a face that has a half-edge.
    pub fn into_face(self) -> (face: Face<T>)
        requires
            self.half_edge_id is Some,
        ensures
            face == self.finished(),
    {
        Face { id: self.id, x: self.x, y: self.y, start_id: self.half_edge_id.unwrap() }
    }

    /// True where the ring of the face has no open end on record.
    pub fn has_complete_bounds(&self) -> (complete: bool)
        ensures
            complete == (self.start_id is None && self.end_id is None),
    {
        self.start_id.is_none() && self.end_id.is_none()
    }
}

/// The links of half-edge `e` are sound as far as they are set: what it refers
/// to exists, its twin refers back to it from another face, and its successor
/// and predecessor refer back to it.
pub open spec fn half_edge_sound(
    half_edges: Seq<HalfEdgeBuilder>,
    e: int,
    faces: nat,
    vertices: nat,
) -> bool {
    let h = half_edges[e];
    &&& h.id == e
    &&& h.face_id < faces
    &&& match h.start_id {
        Some(v) => v < vertices,
        None => true,
    }
    &&& match h.twin_id {
        Some(t) => t < half_edges.len() && half_edges[t as int].twin_id == Some(e as usize)
            && half_edges[t as int].face_id != h.face_id,
        None => true,
    }
    &&& match h.next_id {
        Some(n) => n < half_edges.len() && half_edges[n as int].prev_id == Some(e as usize)
            && half_edges[n as int].face_id == h.face_id,
        None => true,
    }
    &&& match h.prev_id {
        Some(p) => p < half_edges.len() && half_edges[p as int].next_id == Some(e as usize),
        None => true,
    }
}

/// Face `f` names itself, and the half-edges it refers to exist; the one it
/// starts at lies on it.
pub open spec fn face_sound<T>(
    faces: Seq<FaceBuilder<T>>,
    f: int,
    half_edges: Seq<HalfEdgeBuilder>,
) -> bool {
    let face = faces[f];
    &&& face.id == f
    &&& match face.half_edge_id {
        Some(e) => e < half_edges.len() && half_edges[e as int].face_id == f,
        None => true,
    }
    &&& match face.start_id {
        Some(e) => e < half_edges.len(),
        None => true,
    }
    &&& match face.end_id {
        Some(e) => e < half_edges.len(),
        None => true,
    }
}

/// `i` is the first half-edge that lacks something, namely `e`.
pub open spec fn first_half_edge_defect(
    half_edges: Seq<HalfEdgeBuilder>,
    i: int,
    e: BuildError,
) -> bool {
    &&& 0 <= i < half_edges.len()
    &&& half_edges[i].defect() == Some(e)
    &&& forall|j: int| 0 <= j < i ==> (#[trigger] half_edges[j]).defect() is None
}

/// The arenas of a subdivision under construction.
pub struct DcelStore<T> {
    pub vertices: Vec<Vertex<T>>,
    pub half_edges: Vec<HalfEdgeBuilder>,
    pub faces: Vec<FaceBuilder<T>>,
}

impl<T: Scalar> DcelStore<T> {
    /// The invariant of the store: every record names itself and every link
    /// that is set is sound.
    pub open spec fn wf(&self) -> bool {
        &&& vertices_named(self.vertices@)
        &&& forall|e: int|
            0 <= e < self.half_edges.len() ==> #[trigger] half_edge_sound(
                self.half_edges@,
                e,
                self.faces.len() as nat,
                self.vertices.len() as nat,
            )
        &&& forall|f: int|
            0 <= f < self.faces.len() ==> #[trigger] face_sound(self.faces@, f, self.half_edges@)
    }

    /// No half-edge lacks a start vertex, a predecessor or a successor, and no
    /// face lacks a half-edge.
    pub open spec fn complete(&self) -> bool {
        &&& forall|e: int|
            0 <= e < self.half_edges.len() ==> (#[trigger] self.half_edges[e]).defect() is None
        &&& forall|f: int|
            0 <= f < self.faces.len() ==> (#[trigger] self.faces[f]).half_edge_id is Some
    }

    /// An empty store.
    pub fn new() -> (store: DcelStore<T>)
        ensures
            store.wf(),
            store.vertices@.len() == 0,
            store.half_edges@.len() == 0,
            store.faces@.len() == 0,
    {
        DcelStore { vertices: Vec::new(), half_edges: Vec::new(), faces: Vec::new() }
    }

    /// Adds a face for the site at `(x, y)`; it has no half-edge yet.
    pub fn add_face(&mut self, x: T, y: T) -> (id: usize)
        requires
            old(self).wf(),
        ensures
            final(self).wf(),
            id == old(self).faces.len(),
            final(self).faces@ == old(self).faces@.push(
                FaceBuilder { id, x, y, half_edge_id: None, start_id: None, end_id: None },
            ),
            final(self).vertices == old(self).vertices,
            final(self).half_edges == old(self).half_edges,
    {
        let id = self.faces.len();
        self.faces.push(FaceBuilder { id, x, y, half_edge_id: None, start_id: None, end_id: None });
        proof {
            assert forall|e: int| 0 <= e < self.half_edges.len() implies #[trigger] half_edge_sound(
                self.half_edges@,
                e,
                self.faces.len() as nat,
                self.vertices.len() as nat,
            ) by {
                assert(half_edge_sound(
                    old(self).half_edges@,
                    e,
                    old(self).faces.len() as nat,
                    old(self).vertices.len() as nat,
                ));
            }
            assert forall|f: int| 0 <= f < self.faces.len() implies #[trigger] face_sound(
                self.faces@,
                f,
                self.half_edges@,
            ) by {
                if f < id {
                    assert(face_sound(old(self).faces@, f, old(self).half_edges@));
                }
            }
        }
        id
    }

    /// Adds a vertex at `(x, y)`.
    pub fn create_vertex(&mut self, x: T, y: T) -> (id: usize)
        requires
            old(self).wf(),
        ensures
            final(self).wf(),
            id == old(self).vertices.len(),
            final(self).vertices@ == old(self).vertices@.push(Vertex { id, x, y }),
            final(self).half_edges == old(self).half_edges,
            final(self).faces == old(self).faces,
    {
        let id = self.vertices.len();
        self.vertices.push(Vertex { id, x, y });
        proof {
            assert forall|e: int| 0 <= e < self.half_edges.len() implies #[trigger] half_edge_sound(
                self.half_edges@,
                e,
                self.faces.len() as nat,
                self.vertices.len() as nat,
            ) by {
                assert(half_edge_sound(
                    old(self).half_edges@,
                    e,
                    old(self).faces.len() as nat,
                    old(self).vertices.len() as nat,
                ));
            }
        }
        id
    }

    /// Adds a half-edge on the given face, with or without a start vertex and
    /// without twin, predecessor or successor.
    pub fn create_half_edge(&mut self, face_id: usize, start_id: Option<usize>) -> (id: usize)
        requires
            old(self).wf(),
            face_id < old(self).faces.len(),
            start_id matches Some(v) ==> v < old(self).vertices.len(),
        ensures
            final(self).wf(),
            id == old(self).half_edges.len(),
            final(self).half_edges@ == old(self).half_edges@.push(
                HalfEdgeBuilder {
                    id,
                    face_id,
                    start_id,
                    twin_id: None,
                    prev_id: None,
                    next_id: None,
                },
            ),
            final(self).vertices == old(self).vertices,
            final(self).faces == old(self).faces,
    {
        let id = self.half_edges.len();
        self.half_edges.push(
            HalfEdgeBuilder { id, face_id, start_id, twin_id: None, prev_id: None, next_id: None },
        );
        proof {
            assert forall|e: int| 0 <= e < self.half_edges.len() implies #[trigger] half_edge_sound(
                self.half_edges@,
                e,
                self.faces.len() as nat,
                self.vertices.len() as nat,
            ) by {
                if e < id {
                    assert(half_edge_sound(
                        old(self).half_edges@,
                        e,
                        old(self).faces.len() as nat,
                        old(self).vertices.len() as nat,
                    ));
                }
            }
            assert forall|f: int| 0 <= f < self.faces.len() implies #[trigger] face_sound(
                self.faces@,
                f,
                self.half_edges@,
            ) by {
                assert(face_sound(old(self).faces@, f, old(self).half_edges@));
            }
        }
        id
    }

    /// Adds two half-edges that are each other's twin, one on each of two
    /// different faces, without endpoints.
    pub fn create_half_edge_pair(&mut self, face_id: usize, twin_face_id: usize) -> (ids: (
        usize,
        usize,
    ))
        requires
            old(self).wf(),
            face_id < old(self).faces.len(),
            twin_face_id < old(self).faces.len(),
            face_id != twin_face_id,
        ensures
            final(self).wf(),
            ids.0 == old(self).half_edges.len(),
            ids.1 == old(self).half_edges.len() + 1,
            final(self).half_edges@ == old(self).half_edges@.push(
                HalfEdgeBuilder {
                    id: ids.0,
                    face_id,
                    start_id: None,
                    twin_id: Some(ids.1),
                    prev_id: None,
                    next_id: None,
                },
            ).push(
                HalfEdgeBuilder {
                    id: ids.1,
                    face_id: twin_face_id,
                    start_id: None,
                    twin_id: Some(ids.0),
                    prev_id: None,
                    next_id: None,
                },
            ),
            final(self).vertices == old(self).vertices,
            final(self).faces == old(self).faces,
    {
        let id = self.create_half_edge(face_id, None);
        let twin_id = self.create_half_edge(twin_face_id, None);
        let ghost before = self.half_edges@;
        let mut first = self.half_edges[id];
        first.twin_id = Some(twin_id);
        self.half_edges[id] = first;
        let mut second = self.half_edges[twin_id];
        second.twin_id = Some(id);
        self.half_edges[twin_id] = second;
        proof {
            assert forall|e: int| 0 <= e < self.half_edges.len() implies #[trigger] half_edge_sound(
                self.half_edges@,
                e,
                self.faces.len() as nat,
                self.vertices.len() as nat,
            ) by {
                assert(half_edge_sound(
                    before,
                    e,
                    self.faces.len() as nat,
                    self.vertices.len() as nat,
                ));
            }
            assert forall|f: int| 0 <= f < self.faces.len() implies #[trigger] face_sound(
                self.faces@,
                f,
                self.half_edges@,
            ) by {
                assert(face_sound(self.faces@, f, before));
            }
            assert(self.half_edges@ =~= old(self).half_edges@.push(
                HalfEdgeBuilder {
                    id,
                    face_id,
                    start_id: None,
                    twin_id: Some(twin_id),
                    prev_id: None,
                    next_id: None,
                },
            ).push(
                HalfEdgeBuilder {
                    id: twin_id,
                    face_id: twin_face_id,
                    start_id: None,
                    twin_id: Some(id),
                    prev_id: None,
                    next_id: None,
                },
            ));
        }
        (id, twin_id)
    }

    /// What stands against making `second` the successor of `first`, if
    /// anything.
    pub open spec fn connect_defect(&self, first: int, second: int) -> Option<BuildError> {
        if self.half_edges[first].face_id != self.half_edges[second].face_id {
            Some(BuildError::DifferentFaces)
        } else if self.half_edges[first].next_id is Some {
            Some(BuildError::FirstConnected)
        } else if self.half_edges[second].prev_id is Some {
            Some(BuildError::SecondConnected)
        } else {
            None
        }
    }

    /// Says what stands against making `second` the successor of `first`, if
    /// anything.
    pub fn find_connect_defect(&self, first_id: usize, second_id: usize) -> (defect: Option<
        BuildError,
    >)
        requires
            first_id < self.half_edges.len(),
            second_id < self.half_edges.len(),
        ensures
            defect == self.connect_defect(first_id as int, second_id as int),
    {
        if self.half_edges[first_id].face_id != self.half_edges[second_id].face_id {
            Some(BuildError::DifferentFaces)
        } else if self.half_edges[first_id].next_id.is_some() {
            Some(BuildError::FirstConnected)
        } else if self.half_edges[second_id].prev_id.is_some() {
            Some(BuildError::SecondConnected)
        } else {
            None
        }
    }

    /// Makes `second` the successor of `first` and `first` the predecessor of
    /// `second`. Both must lie on one face, and neither link may be set yet:
    /// a half-edge gets its successor once and its predecessor once. No other
    /// link and no other field changes.
    pub fn connect_half_edges(&mut self, first_id: usize, second_id: usize)
        requires
            old(self).wf(),
            first_id < old(self).half_edges.len(),
            second_id < old(self).half_edges.len(),
            old(self).connect_defect(first_id as int, second_id as int) is None,
        ensures
            final(self).wf(),
            final(self).vertices == old(self).vertices,
            final(self).faces == old(self).faces,
            final(self).half_edges@ == connected(
                old(self).half_edges@,
                first_id as int,
                second_id as int,
            ),
    {
        let mut first = self.half_edges[first_id];
        first.next_id = Some(second_id);
        self.half_edges[first_id] = first;
        let mut second = self.half_edges[second_id];
        second.prev_id = Some(first_id);
        self.half_edges[second_id] = second;
        proof {
            assert(self.half_edges@ =~= connected(
                old(self).half_edges@,
                first_id as int,
                second_id as int,
            ));
            assert forall|e: int| 0 <= e < self.half_edges.len() implies #[trigger] half_edge_sound(
                self.half_edges@,
                e,
                self.faces.len() as nat,
                self.vertices.len() as nat,
            ) by {
                assert(half_edge_sound(
                    old(self).half_edges@,
                    e,
                    self.faces.len() as nat,
                    self.vertices.len() as nat,
                ));
                assert(half_edge_sound(
                    old(self).half_edges@,
                    first_id as int,
                    self.faces.len() as nat,
                    self.vertices.len() as nat,
                ));
                assert(half_edge_sound(
                    old(self).half_edges@,
                    second_id as int,
                    self.faces.len() as nat,
                    self.vertices.len() as nat,
                ));
            }
            assert forall|f: int| 0 <= f < self.faces.len() implies #[trigger] face_sound(
                self.faces@,
                f,
                self.half_edges@,
            ) by {
                assert(face_sound(self.faces@, f, old(self).half_edges@));
            }
        }
    }

    /// Sets the start vertex of a half-edge, whether or not it had one.
    pub fn set_start(&mut self, half_edge_id: usize, vertex_id: usize)
        requires
            old(self).wf(),
            half_edge_id < old(self).half_edges.len(),
            vertex_id < old(self).vertices.len(),
        ensures
            final(self).wf(),
            final(self).vertices == old(self).vertices,
            final(self).faces == old(self).faces,
            final(self).half_edges@ == old(self).half_edges@.update(
                half_edge_id as int,
                HalfEdgeBuilder {
                    start_id: Some(vertex_id),
                    ..old(self).half_edges[half_edge_id as int]
                },
            ),
    {
        let mut half_edge = self.half_edges[half_edge_id];
        half_edge.start_id = Some(vertex_id);
        self.half_edges[half_edge_id] = half_edge;
        proof {
            assert forall|e: int| 0 <= e < self.half_edges.len() implies #[trigger] half_edge_sound(
                self.half_edges@,
                e,
                self.faces.len() as nat,
                self.vertices.len() as nat,
            ) by {
                assert(half_edge_sound(
                    old(self).half_edges@,
                    e,
                    self.faces.len() as nat,
                    self.vertices.len() as nat,
                ));
            }
            assert forall|f: int| 0 <= f < self.faces.len() implies #[trigger] face_sound(
                self.faces@,
                f,
                self.half_edges@,
            ) by {
                assert(face_sound(self.faces@, f, old(self).half_edges@));
            }
        }
    }

    /// Records a half-edge of the face's own ring as the one the face starts at,
    /// unless `keep` is set and the face has one already.
    pub fn set_face_half_edge(&mut self, face_id: usize, half_edge_id: usize, keep: bool)
        requires
            old(self).wf(),
            face_id < old(self).faces.len(),
            half_edge_id < old(self).half_edges.len(),
            old(self).half_edges[half_edge_id as int].face_id == face_id,
        ensures
            final(self).wf(),
            final(self).vertices == old(self).vertices,
            final(self).half_edges == old(self).half_edges,
            final(self).faces@ == old(self).faces@.update(
                face_id as int,
                FaceBuilder {
                    half_edge_id: if keep && old(self).faces[face_id as int].half_edge_id is Some {
                        old(self).faces[face_id as int].half_edge_id
                    } else {
                        Some(half_edge_id)
                    },
                    ..old(self).faces[face_id as int]
                },
            ),
    {
        let mut face = self.faces[face_id];
        if !(keep && face.half_edge_id.is_some()) {
            face.half_edge_id = Some(half_edge_id);
        }
        self.faces[face_id] = face;
        proof {
            assert(self.faces@ =~= old(self).faces@.update(
                face_id as int,
                FaceBuilder {
                    half_edge_id: if keep && old(self).faces[face_id as int].half_edge_id is Some {
                        old(self).faces[face_id as int].half_edge_id
                    } else {
                        Some(half_edge_id)
                    },
                    ..old(self).faces[face_id as int]
                },
            ));
            assert forall|f: int| 0 <= f < self.faces.len() implies #[trigger] face_sound(
                self.faces@,
                f,
                self.half_edges@,
            ) by {
                assert(face_sound(old(self).faces@, f, self.half_edges@));
            }
        }
    }

    /// Records the two ends of the open ring of a face: either may be given.
    pub fn set_face_bounds(&mut self, face_id: usize, start_id: Option<usize>, end_id: Option<usize>)
        requires
            old(self).wf(),
            face_id < old(self).faces.len(),
            start_id matches Some(e) ==> e < old(self).half_edges.len(),
            end_id matches Some(e) ==> e < old(self).half_edges.len(),
        ensures
            final(self).wf(),
            final(self).vertices == old(self).vertices,
            final(self).half_edges == old(self).half_edges,
            final(self).faces@ == old(self).faces@.update(
                face_id as int,
                FaceBuilder {
                    start_id: if start_id is Some {
                        start_id
                    } else {
                        old(self).faces[face_id as int].start_id
                    },
                    end_id: if end_id is Some {
                        end_id
                    } else {
                        old(self).faces[face_id as int].end_id
                    },
                    ..old(self).faces[face_id as int]
                },
            ),
    {
        let mut face = self.faces[face_id];
        if start_id.is_some() {
            face.start_id = start_id;
        }
        if end_id.is_some() {
            face.end_id = end_id;
        }
        self.faces[face_id] = face;
        proof {
            assert forall|f: int| 0 <= f < self.faces.len() implies #[trigger] face_sound(
                self.faces@,
                f,
                self.half_edges@,
            ) by {
                assert(face_sound(old(self).faces@, f, self.half_edges@));
            }
        }
    }

    /// The finished half-edges of a store in which no half-edge lacks anything.
    pub open spec fn finished_half_edges(&self) -> Seq<HalfEdge> {
        Seq::new(self.half_edges@.len(), |e: int| self.half_edges[e].finished())
    }

    /// The finished faces of a store in which no face lacks a half-edge.
    pub open spec fn finished_faces(&self) -> Seq<Face<T>> {
        Seq::new(self.faces@.len(), |f: int| self.faces[f].finished())
    }

    /// Freezes the store into a diagram of the given extent and leaves the store
    /// empty. Fails, with what the first unfinished half-edge lacks, where a
    /// half-edge has no start vertex, predecessor or successor; else, where a
    /// face has no half-edge.
    pub fn finish(&mut self, width: T, height: T) -> (result: Result<Diagram<T>, BuildError>)
        requires
            old(self).wf(),
        ensures
            final(self).wf(),
            final(self).vertices@.len() == 0,
            final(self).half_edges@.len() == 0,
            final(self).faces@.len() == 0,
            result is Ok <==> old(self).complete(),
            match result {
                Ok(diagram) => {
                    &&& diagram.wf()
                    &&& diagram.spec_width() == width
                    &&& diagram.spec_height() == height
                    &&& diagram.spec_vertices() == old(self).vertices@
                    &&& diagram.spec_half_edges() == old(self).finished_half_edges()
                    &&& diagram.spec_faces() == old(self).finished_faces()
                },
                Err(e) => {
                    ||| exists|i: int| first_half_edge_defect(old(self).half_edges@, i, e)
                    ||| {
                        &&& e == BuildError::FaceWithoutEdge
                        &&& forall|i: int|
                            0 <= i < old(self).half_edges.len() ==> (#[trigger] old(
                                self,
                            ).half_edges[i]).defect() is None
                    }
                },
            },
    {
        let mut store = DcelStore::new();
        core::mem::swap(self, &mut store);
        let mut half_edges: Vec<HalfEdge> = Vec::new();
        let mut e: usize = 0;
        while e < store.half_edges.len()
            invariant
                store == *old(self),
                self.wf(),
                self.vertices@.len() == 0,
                self.half_edges@.len() == 0,
                self.faces@.len() == 0,
                e <= store.half_edges.len(),
                half_edges.len() == e,
                forall|j: int| 0 <= j < e ==> (#[trigger] store.half_edges[j]).defect() is None,
                forall|j: int| 0 <= j < e ==> #[trigger] half_edges[j] == store.half_edges[j].finished(),
            decreases store.half_edges.len() - e,
        {
            match store.half_edges[e].find_defect() {
                None => {
                    half_edges.push(store.half_edges[e].into_half_edge());
                },
                Some(error) => {
                    proof {
                        assert(first_half_edge_defect(store.half_edges@, e as int, error));
                    }
                    return Err(error);
                },
            }
            e = e + 1;
        }
        let mut faces: Vec<Face<T>> = Vec::new();
        let mut f: usize = 0;
        while f < store.faces.len()
            invariant
                store == *old(self),
                self.wf(),
                self.vertices@.len() == 0,
                self.half_edges@.len() == 0,
                self.faces@.len() == 0,
                half_edges@ =~= store.finished_half_edges(),
                forall|j: int|
                    0 <= j < store.half_edges.len() ==> (#[trigger] store.half_edges[j]).defect() is None,
                f <= store.faces.len(),
                faces.len() == f,
                forall|j: int| 0 <= j < f ==> (#[trigger] store.faces[j]).half_edge_id is Some,
                forall|j: int| 0 <= j < f ==> #[trigger] faces[j] == store.faces[j].finished(),
            decreases store.faces.len() - f,
        {
            if store.faces[f].half_edge_id.is_none() {
                return Err(BuildError::FaceWithoutEdge);
            }
            faces.push(store.faces[f].into_face());
            f = f + 1;
        }
        proof {
            assert(half_edges@ =~= store.finished_half_edges());
            assert(faces@ =~= store.finished_faces());
            store.lemma_finished_is_well_formed();
        }
        Ok(Diagram::from_parts(width, height, store.vertices, half_edges, faces))
    }

    /// The finished records of a complete, sound store form a diagram.
    pub proof fn lemma_finished_is_well_formed(&self)
        requires
            self.wf(),
            self.complete(),
        ensures
            vertices_named(self.vertices@),
            references_resolve(
                self.finished_half_edges(),
                self.faces@.len(),
                self.vertices@.len(),
            ),
            rings_linked(self.finished_half_edges()),
            twins_paired(self.finished_half_edges()),
            faces_anchored(self.finished_faces(), self.finished_half_edges()),
    {
        let half_edges = self.finished_half_edges();
        let faces = self.finished_faces();
        assert forall|e: int| 0 <= e < half_edges.len() implies {
            &&& (#[trigger] half_edges[e]).id == e
            &&& half_edges[e].face_id < self.faces@.len()
            &&& half_edges[e].start_id < self.vertices@.len()
            &&& half_edges[e].prev_id < half_edges.len()
            &&& half_edges[e].next_id < half_edges.len()
        } by {
            assert(half_edge_sound(
                self.half_edges@,
                e,
                self.faces.len() as nat,
                self.vertices.len() as nat,
            ));
            assert(self.half_edges[e].defect() is None);
        }
        assert forall|e: int| 0 <= e < half_edges.len() implies {
            &&& half_edges[(#[trigger] half_edges[e]).next_id as int].prev_id == e
            &&& half_edges[half_edges[e].prev_id as int].next_id == e
            &&& half_edges[half_edges[e].next_id as int].face_id == half_edges[e].face_id
        } by {
            assert(half_edge_sound(
                self.half_edges@,
                e,
                self.faces.len() as nat,
                self.vertices.len() as nat,
            ));
            assert(self.half_edges[e].defect() is None);
            let n = self.half_edges[e].next_id->Some_0 as int;
            let p = self.half_edges[e].prev_id->Some_0 as int;
            assert(self.half_edges[n].defect() is None);
            assert(self.half_edges[p].defect() is None);
        }
        assert forall|e: int| 0 <= e < half_edges.len() implies match (#[trigger] half_edges[e]).twin_id {
            Some(t) => {
                &&& t < half_edges.len()
                &&& half_edges[t as int].twin_id == Some(e as usize)
                &&& half_edges[t as int].face_id != half_edges[e].face_id
            },
            None => true,
        } by {
            assert(half_edge_sound(
                self.half_edges@,
                e,
                self.faces.len() as nat,
                self.vertices.len() as nat,
            ));
        }
        assert forall|f: int| 0 <= f < faces.len() implies {
            &&& (#[trigger] faces[f]).id == f
            &&& faces[f].start_id < half_edges.len()
            &&& half_edges[faces[f].start_id as int].face_id == f
        } by {
            assert(face_sound(self.faces@, f, self.half_edges@));
            assert(self.faces[f].half_edge_id is Some);
        }
    }
}

/// The half-edges after `second` was made the successor of `first`.
pub open spec fn connected(
    half_edges: Seq<HalfEdgeBuilder>,
    first: int,
    second: int,
) -> Seq<HalfEdgeBuilder> {
    let linked = half_edges.update(
        first,
        HalfEdgeBuilder { next_id: Some(second as usize), ..half_edges[first] },
    );
    linked.update(second, HalfEdgeBuilder { prev_id: Some(first as usize), ..linked[second] })
}

} // verus!

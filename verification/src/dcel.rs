//! The finished planar subdivision: vertices, half-edges and faces, each in
//! an arena of its own, referring to one another by index.

use vstd::prelude::*;
use vstd::set_lib::{lemma_int_range, lemma_len_subset, set_int_range};
use vstd::std_specs::ops::{AddSpec, DivSpec, MulSpec, NegSpec, SubSpec};
use crate::scalar::{constant, exact_scalar, make_constant, make_zero, total_ops, zero, Scalar};

verus! {

/// A corner of the subdivision.
#[derive(Debug, PartialEq, Clone, Copy)]
pub struct Vertex<T> {
    pub id: usize,
    pub x: T,
    pub y: T,
}

/// A directed edge along the border of one face. It starts at `start_id` and
/// ends where `next_id` starts; `twin_id` is the same edge seen from the face
/// on its other side, and is absent on the border of the whole rectangle.
#[derive(Debug, PartialEq, Eq, Clone, Copy)]
pub struct HalfEdge {
    pub id: usize,
    pub face_id: usize,
    pub start_id: usize,
    pub twin_id: Option<usize>,
    pub prev_id: usize,
    pub next_id: usize,
}

/// A cell of the subdivision: the site at `(x, y)` and one half-edge of the
/// ring around it.
#[derive(Debug, PartialEq, Clone, Copy)]
pub struct Face<T> {
    pub id: usize,
    pub x: T,
    pub y: T,
    pub start_id: usize,
}

/// Every half-edge names itself and refers to a face, a vertex and two
/// half-edges that exist.
pub open spec fn references_resolve(
    half_edges: Seq<HalfEdge>,
    faces: nat,
    vertices: nat,
) -> bool {
    forall|e: int|
        0 <= e < half_edges.len() ==> {
            &&& (#[trigger] half_edges[e]).id == e
            &&& half_edges[e].face_id < faces
            &&& half_edges[e].start_id < vertices
            &&& half_edges[e].prev_id < half_edges.len()
            &&& half_edges[e].next_id < half_edges.len()
        }
}

/// `next` and `prev` undo each other, and `next` stays on the same face.
pub open spec fn rings_linked(half_edges: Seq<HalfEdge>) -> bool {
    forall|e: int|
        0 <= e < half_edges.len() ==> {
            &&& half_edges[(#[trigger] half_edges[e]).next_id as int].prev_id == e
            &&& half_edges[half_edges[e].prev_id as int].next_id == e
            &&& half_edges[half_edges[e].next_id as int].face_id == half_edges[e].face_id
        }
}

/// A twin exists, has this half-edge as its own twin, and lies on another face.
pub open spec fn twins_paired(half_edges: Seq<HalfEdge>) -> bool {
    forall|e: int|
        0 <= e < half_edges.len() ==> match (#[trigger] half_edges[e]).twin_id {
            Some(t) => {
                &&& t < half_edges.len()
                &&& half_edges[t as int].twin_id == Some(e as usize)
                &&& half_edges[t as int].face_id != half_edges[e].face_id
            },
            None => true,
        }
}

/// Every face names itself and starts at a half-edge of its own ring.
pub open spec fn faces_anchored<T>(faces: Seq<Face<T>>, half_edges: Seq<HalfEdge>) -> bool {
    forall|f: int|
        0 <= f < faces.len() ==> {
            &&& (#[trigger] faces[f]).id == f
            &&& faces[f].start_id < half_edges.len()
            &&& half_edges[faces[f].start_id as int].face_id == f
        }
}

/// Every vertex names itself.
pub open spec fn vertices_named<T>(vertices: Seq<Vertex<T>>) -> bool {
    forall|v: int| 0 <= v < vertices.len() ==> (#[trigger] vertices[v]).id == v
}

/// The half-edge reached from `e` by `k` steps of `next`.
pub open spec fn walk(half_edges: Seq<HalfEdge>, e: int, k: nat) -> int
    decreases k,
{
    if k == 0 {
        e
    } else {
        half_edges[walk(half_edges, e, (k - 1) as nat)].next_id as int
    }
}

/// A walk along `next` stays inside the arena and on the face it began on.
pub proof fn lemma_walk_stays(half_edges: Seq<HalfEdge>, faces: nat, vertices: nat, e: int, k: nat)
    requires
        references_resolve(half_edges, faces, vertices),
        rings_linked(half_edges),
        0 <= e < half_edges.len(),
    ensures
        0 <= walk(half_edges, e, k) < half_edges.len(),
        half_edges[walk(half_edges, e, k)].face_id == half_edges[e].face_id,
    decreases k,
{
    if k > 0 {
        lemma_walk_stays(half_edges, faces, vertices, e, (k - 1) as nat);
    }
}

/// Two walks from one half-edge that meet after `i` and after `j` steps met
/// `i` steps earlier too: the walk of `j - i` steps is back at its start.
proof fn lemma_walk_cancel(
    half_edges: Seq<HalfEdge>,
    faces: nat,
    vertices: nat,
    e: int,
    i: nat,
    j: nat,
)
    requires
        references_resolve(half_edges, faces, vertices),
        rings_linked(half_edges),
        0 <= e < half_edges.len(),
        i <= j,
        walk(half_edges, e, i) == walk(half_edges, e, j),
    ensures
        walk(half_edges, e, (j - i) as nat) == e,
    decreases i,
{
    if i > 0 {
        lemma_walk_stays(half_edges, faces, vertices, e, (i - 1) as nat);
        lemma_walk_stays(half_edges, faces, vertices, e, (j - 1) as nat);
        let a = walk(half_edges, e, (i - 1) as nat);
        let b = walk(half_edges, e, (j - 1) as nat);
        assert(half_edges[half_edges[a].next_id as int].prev_id == a);
        assert(half_edges[half_edges[b].next_id as int].prev_id == b);
        lemma_walk_cancel(half_edges, faces, vertices, e, (i - 1) as nat, (j - 1) as nat);
    }
}

/// Walking `next` from any half-edge returns to it, after at most as many
/// steps as there are half-edges, and every half-edge on the way lies on the
/// face of the first.
pub proof fn lemma_ring_closes(half_edges: Seq<HalfEdge>, faces: nat, vertices: nat, e: int)
    requires
        references_resolve(half_edges, faces, vertices),
        rings_linked(half_edges),
        0 <= e < half_edges.len(),
    ensures
        exists|k: nat| 1 <= k <= half_edges.len() && #[trigger] walk(half_edges, e, k) == e,
        forall|k: nat|
            0 <= (#[trigger] walk(half_edges, e, k)) < half_edges.len() && half_edges[walk(
                half_edges,
                e,
                k,
            )].face_id == half_edges[e].face_id,
{
    let n = half_edges.len();
    assert forall|k: nat|
        0 <= (#[trigger] walk(half_edges, e, k)) < half_edges.len() && half_edges[walk(
            half_edges,
            e,
            k,
        )].face_id == half_edges[e].face_id by {
        lemma_walk_stays(half_edges, faces, vertices, e, k);
    }
    let visited = Seq::new(n + 1, |i: int| walk(half_edges, e, i as nat));
    if visited.no_duplicates() {
        visited.unique_seq_to_set();
        lemma_int_range(0, n as int);
        assert(visited.to_set().subset_of(set_int_range(0, n as int))) by {
            assert forall|v: int| visited.to_set().contains(v) implies set_int_range(
                0,
                n as int,
            ).contains(v) by {
                let i = choose|i: int| 0 <= i < visited.len() && visited[i] == v;
                assert(visited[i] == walk(half_edges, e, i as nat));
            }
        }
        lemma_len_subset(visited.to_set(), set_int_range(0, n as int));
        assert(false);
    }
    let (i, j) = choose|i: int, j: int|
        0 <= i < visited.len() && 0 <= j < visited.len() && i != j && visited[i] == visited[j];
    if i < j {
        lemma_walk_cancel(half_edges, faces, vertices, e, i as nat, j as nat);
        assert(walk(half_edges, e, (j - i) as nat) == e);
    } else {
        lemma_walk_cancel(half_edges, faces, vertices, e, j as nat, i as nat);
        assert(walk(half_edges, e, (i - j) as nat) == e);
    }
}

/// `k` is the number of steps of `next` after which a walk from `e` is first
/// back at `e`.
pub open spec fn returns_after(half_edges: Seq<HalfEdge>, e: int, k: nat) -> bool {
    &&& k >= 1
    &&& walk(half_edges, e, k) == e
    &&& forall|j: nat| 1 <= j < k ==> #[trigger] walk(half_edges, e, j) != e
}

/// The number of half-edges on the ring of `e`.
pub open spec fn ring_len(half_edges: Seq<HalfEdge>, e: int) -> nat {
    choose|k: nat| returns_after(half_edges, e, k)
}

/// A walk that is back at its start after `bound` steps is first back after
/// some number of steps up to `bound`.
proof fn lemma_first_return(half_edges: Seq<HalfEdge>, e: int, bound: nat)
    requires
        bound >= 1,
        walk(half_edges, e, bound) == e,
    ensures
        exists|k: nat| k <= bound && #[trigger] returns_after(half_edges, e, k),
    decreases bound,
{
    if forall|j: nat| 1 <= j < bound ==> #[trigger] walk(half_edges, e, j) != e {
        assert(returns_after(half_edges, e, bound));
    } else {
        let j = choose|j: nat| 1 <= j < bound && #[trigger] walk(half_edges, e, j) == e;
        lemma_first_return(half_edges, e, j);
    }
}

/// The ring of every half-edge has a length, which is at least one and at most
/// the number of half-edges.
pub proof fn lemma_ring_len(half_edges: Seq<HalfEdge>, faces: nat, vertices: nat, e: int)
    requires
        references_resolve(half_edges, faces, vertices),
        rings_linked(half_edges),
        0 <= e < half_edges.len(),
    ensures
        returns_after(half_edges, e, ring_len(half_edges, e)),
        1 <= ring_len(half_edges, e) <= half_edges.len(),
{
    lemma_ring_closes(half_edges, faces, vertices, e);
    let bound = choose|k: nat| 1 <= k <= half_edges.len() && #[trigger] walk(half_edges, e, k) == e;
    lemma_first_return(half_edges, e, bound);
    let k = choose|k: nat| k <= bound && #[trigger] returns_after(half_edges, e, k);
    assert(returns_after(half_edges, e, k));
    let n = ring_len(half_edges, e);
    assert(returns_after(half_edges, e, n));
    if n > k {
        assert(walk(half_edges, e, k) != e);
    }
}

/// A coordinate brought from `0 ..= extent` to `-1 ..= 1`.
pub open spec fn normalized<T: Scalar>(value: T, extent: T) -> T {
    value.div_spec(extent.div_spec(constant::<T>(2))).sub_spec(constant::<T>(1))
}

/// A planar subdivision of the rectangle from `(0, 0)` to `(width, height)`.
#[derive(Debug, PartialEq)]
pub struct Diagram<T> {
    width: T,
    height: T,
    vertices: Vec<Vertex<T>>,
    half_edges: Vec<HalfEdge>,
    faces: Vec<Face<T>>,
}

impl<T: Scalar> Diagram<T> {
    pub closed spec fn spec_width(&self) -> T {
        self.width
    }

    pub closed spec fn spec_height(&self) -> T {
        self.height
    }

    pub closed spec fn spec_vertices(&self) -> Seq<Vertex<T>> {
        self.vertices@
    }

    pub closed spec fn spec_half_edges(&self) -> Seq<HalfEdge> {
        self.half_edges@
    }

    pub closed spec fn spec_faces(&self) -> Seq<Face<T>> {
        self.faces@
    }

    /// The invariant of a diagram: all references resolve, twins are paired
    /// across two faces, and `next` and `prev` link the half-edges of each
    /// face into rings.
    pub open spec fn wf(&self) -> bool {
        &&& vertices_named(self.spec_vertices())
        &&& references_resolve(
            self.spec_half_edges(),
            self.spec_faces().len(),
            self.spec_vertices().len(),
        )
        &&& rings_linked(self.spec_half_edges())
        &&& twins_paired(self.spec_half_edges())
        &&& faces_anchored(self.spec_faces(), self.spec_half_edges())
    }

    /// Puts a diagram together from its parts.
    pub fn from_parts(
        width: T,
        height: T,
        vertices: Vec<Vertex<T>>,
        half_edges: Vec<HalfEdge>,
        faces: Vec<Face<T>>,
    ) -> (diagram: Diagram<T>)
        ensures
            diagram.spec_width() == width,
            diagram.spec_height() == height,
            diagram.spec_vertices() == vertices@,
            diagram.spec_half_edges() == half_edges@,
            diagram.spec_faces() == faces@,
    {
        Diagram { width, height, vertices, half_edges, faces }
    }

    /// The width of the rectangle.
    pub fn width(&self) -> (width: T)
        ensures
            width == self.spec_width(),
    {
        self.width
    }

    /// The height of the rectangle.
    pub fn height(&self) -> (height: T)
        ensures
            height == self.spec_height(),
    {
        self.height
    }

    /// The vertices, each at the index that is its id.
    pub fn vertices(&self) -> (vertices: &Vec<Vertex<T>>)
        ensures
            vertices@ == self.spec_vertices(),
    {
        &self.vertices
    }

    /// The half-edges, each at the index that is its id.
    pub fn half_edges(&self) -> (half_edges: &Vec<HalfEdge>)
        ensures
            half_edges@ == self.spec_half_edges(),
    {
        &self.half_edges
    }

    /// The faces, each at the index that is its id.
    pub fn faces(&self) -> (faces: &Vec<Face<T>>)
        ensures
            faces@ == self.spec_faces(),
    {
        &self.faces
    }

    /// The entry `i` of the vertex buffer: the faces' sites first, then the
    /// vertices, three entries each: `x` and `y` brought to `-1 ..= 1`, and zero.
    pub open spec fn vertex_entry(&self, i: int) -> T {
        let p = i / 3;
        let faces = self.spec_faces();
        let vertices = self.spec_vertices();
        if i % 3 == 2 {
            zero::<T>()
        } else if p < faces.len() {
            if i % 3 == 0 {
                normalized(faces[p].x, self.spec_width())
            } else {
                normalized(faces[p].y, self.spec_height())
            }
        } else {
            if i % 3 == 0 {
                normalized(vertices[p - faces.len()].x, self.spec_width())
            } else {
                normalized(vertices[p - faces.len()].y, self.spec_height())
            }
        }
    }

    /// The vertex buffer of the triangulation.
    pub open spec fn vertex_buffer(&self) -> Seq<T> {
        Seq::new(
            3 * (self.spec_faces().len() + self.spec_vertices().len()),
            |i: int| self.vertex_entry(i),
        )
    }

    /// The entry `i` of the fan of face `f`: triangle `i / 3` joins the site of
    /// the face to the start vertices of the half-edge `i / 3` steps from the
    /// face's first one and of the half-edge after it.
    pub open spec fn fan_entry(&self, f: int, i: int) -> u32 {
        let half_edges = self.spec_half_edges();
        let start = self.spec_faces()[f].start_id as int;
        let offset = self.spec_faces().len();
        if i % 3 == 0 {
            f as u32
        } else if i % 3 == 1 {
            (offset + half_edges[walk(half_edges, start, (i / 3) as nat)].start_id) as u32
        } else {
            (offset + half_edges[walk(half_edges, start, (i / 3 + 1) as nat)].start_id) as u32
        }
    }

    /// The fan of face `f`: one triangle for every half-edge of its ring.
    pub open spec fn fan(&self, f: int) -> Seq<u32> {
        Seq::new(
            3 * ring_len(self.spec_half_edges(), self.spec_faces()[f].start_id as int),
            |i: int| self.fan_entry(f, i),
        )
    }

    /// The fans of the faces before `f`, one after the other.
    pub open spec fn fans(&self, f: nat) -> Seq<u32>
        decreases f,
    {
        if f == 0 {
            Seq::empty()
        } else {
            self.fans((f - 1) as nat) + self.fan(f - 1)
        }
    }

    /// The index buffer of the triangulation.
    pub open spec fn index_buffer(&self) -> Seq<u32> {
        self.fans(self.spec_faces().len())
    }

    /// Whether half-edge `e` refers to records that exist, is undone by `prev`
    /// after `next` and by `next` after `prev`, stays on its face along `next`,
    /// and is paired with its twin, if it has one, across two faces.
    pub open spec fn half_edge_ok(&self, e: int) -> bool {
        let half_edges = self.spec_half_edges();
        let h = half_edges[e];
        &&& h.id == e
        &&& h.face_id < self.spec_faces().len()
        &&& h.start_id < self.spec_vertices().len()
        &&& h.prev_id < half_edges.len()
        &&& h.next_id < half_edges.len()
        &&& half_edges[h.next_id as int].prev_id == e
        &&& half_edges[h.prev_id as int].next_id == e
        &&& half_edges[h.next_id as int].face_id == h.face_id
        &&& match h.twin_id {
            Some(t) => {
                &&& t < half_edges.len()
                &&& half_edges[t as int].twin_id == Some(e as usize)
                &&& half_edges[t as int].face_id != h.face_id
            },
            None => true,
        }
    }

    /// A diagram is well-formed exactly if every vertex names itself, every
    /// half-edge is in order, and every face names itself and starts at a
    /// half-edge of its own.
    pub proof fn lemma_wf_by_records(&self)
        ensures
            self.wf() <==> {
                &&& vertices_named(self.spec_vertices())
                &&& forall|e: int|
                    0 <= e < self.spec_half_edges().len() ==> #[trigger] self.half_edge_ok(e)
                &&& faces_anchored(self.spec_faces(), self.spec_half_edges())
            },
    {
        let half_edges = self.spec_half_edges();
        if self.wf() {
            assert forall|e: int| 0 <= e < half_edges.len() implies #[trigger] self.half_edge_ok(
                e,
            ) by {
                assert(half_edges[half_edges[e].next_id as int].prev_id == e);
            }
        }
        if forall|e: int| 0 <= e < half_edges.len() ==> #[trigger] self.half_edge_ok(e) {
            assert forall|e: int| 0 <= e < half_edges.len() implies {
                &&& (#[trigger] half_edges[e]).id == e
                &&& half_edges[e].face_id < self.spec_faces().len()
                &&& half_edges[e].start_id < self.spec_vertices().len()
                &&& half_edges[e].prev_id < half_edges.len()
                &&& half_edges[e].next_id < half_edges.len()
            } by {
                assert(self.half_edge_ok(e));
            }
            assert forall|e: int| 0 <= e < half_edges.len() implies {
                &&& half_edges[(#[trigger] half_edges[e]).next_id as int].prev_id == e
                &&& half_edges[half_edges[e].prev_id as int].next_id == e
                &&& half_edges[half_edges[e].next_id as int].face_id == half_edges[e].face_id
            } by {
                assert(self.half_edge_ok(e));
            }
            assert forall|e: int| 0 <= e < half_edges.len() implies match (
            #[trigger] half_edges[e]).twin_id {
                Some(t) => {
                    &&& t < half_edges.len()
                    &&& half_edges[t as int].twin_id == Some(e as usize)
                    &&& half_edges[t as int].face_id != half_edges[e].face_id
                },
                None => true,
            } by {
                assert(self.half_edge_ok(e));
            }
        }
    }

    /// Checks the invariant of a diagram.
    pub fn is_well_formed(&self) -> (ok: bool)
        ensures
            ok == self.wf(),
    {
        proof {
            self.lemma_wf_by_records();
        }
        let vertex_count = self.vertices.len();
        let half_edge_count = self.half_edges.len();
        let face_count = self.faces.len();
        let mut v: usize = 0;
        while v < vertex_count
            invariant
                v <= vertex_count,
                vertex_count == self.vertices.len(),
                forall|i: int| 0 <= i < v ==> (#[trigger] self.vertices[i]).id == i,
            decreases vertex_count - v,
        {
            if self.vertices[v].id != v {
                return false;
            }
            v = v + 1;
        }
        let mut e: usize = 0;
        while e < half_edge_count
            invariant
                e <= half_edge_count,
                vertex_count == self.vertices.len(),
                half_edge_count == self.half_edges.len(),
                face_count == self.faces.len(),
                forall|i: int| 0 <= i < e ==> #[trigger] self.half_edge_ok(i),
            decreases half_edge_count - e,
        {
            let h = self.half_edges[e];
            if h.id != e || h.face_id >= face_count || h.start_id >= vertex_count || h.prev_id
                >= half_edge_count || h.next_id >= half_edge_count {
                assert(!self.half_edge_ok(e as int));
                return false;
            }
            let next = self.half_edges[h.next_id];
            if next.prev_id != e || next.face_id != h.face_id || self.half_edges[h.prev_id].next_id
                != e {
                assert(!self.half_edge_ok(e as int));
                return false;
            }
            match h.twin_id {
                Some(t) => {
                    if t >= half_edge_count {
                        assert(!self.half_edge_ok(e as int));
                        return false;
                    }
                    let twin = self.half_edges[t];
                    let back = match twin.twin_id {
                        Some(b) => b == e,
                        None => false,
                    };
                    if !back || twin.face_id == h.face_id {
                        assert(!self.half_edge_ok(e as int));
                        return false;
                    }
                },
                None => {},
            }
            assert(self.half_edge_ok(e as int));
            e = e + 1;
        }
        let mut f: usize = 0;
        while f < face_count
            invariant
                f <= face_count,
                half_edge_count == self.half_edges.len(),
                face_count == self.faces.len(),
                forall|i: int|
                    0 <= i < f ==> {
                        &&& (#[trigger] self.faces[i]).id == i
                        &&& self.faces[i].start_id < self.half_edges.len()
                        &&& self.half_edges[self.faces[i].start_id as int].face_id == i
                    },
            decreases face_count - f,
        {
            let face = self.faces[f];
            if face.id != f || face.start_id >= half_edge_count {
                return false;
            }
            if self.half_edges[face.start_id].face_id != f {
                return false;
            }
            f = f + 1;
        }
        true
    }

    /// A half-edge either has no twin, or its twin's twin is the half-edge itself
    /// and the two lie on different faces.
    pub proof fn lemma_twin_of_twin(&self, e: int)
        requires
            self.wf(),
            0 <= e < self.spec_half_edges().len(),
        ensures
            match self.spec_half_edges()[e].twin_id {
                Some(t) => {
                    &&& t < self.spec_half_edges().len()
                    &&& self.spec_half_edges()[t as int].twin_id == Some(e as usize)
                    &&& self.spec_half_edges()[t as int].face_id != self.spec_half_edges()[e].face_id
                },
                None => true,
            },
    {
    }

    /// The half-edge after the one before `e` is `e`, and so is the one before the
    /// one after it; the half-edge after `e` lies on the face of `e`.
    pub proof fn lemma_next_undoes_prev(&self, e: int)
        requires
            self.wf(),
            0 <= e < self.spec_half_edges().len(),
        ensures
            self.spec_half_edges()[e].prev_id < self.spec_half_edges().len(),
            self.spec_half_edges()[e].next_id < self.spec_half_edges().len(),
            self.spec_half_edges()[self.spec_half_edges()[e].prev_id as int].next_id == e,
            self.spec_half_edges()[self.spec_half_edges()[e].next_id as int].prev_id == e,
            self.spec_half_edges()[self.spec_half_edges()[e].next_id as int].face_id
                == self.spec_half_edges()[e].face_id,
    {
    }

    /// Walking `next` from the first half-edge of a face returns to it after at
    /// least one and at most as many steps as there are half-edges, and every
    /// half-edge visited lies on that face.
    pub proof fn lemma_face_ring_closes(&self, f: int)
        requires
            self.wf(),
            0 <= f < self.spec_faces().len(),
        ensures
            exists|k: nat|
                1 <= k <= self.spec_half_edges().len() && #[trigger] walk(
                    self.spec_half_edges(),
                    self.spec_faces()[f].start_id as int,
                    k,
                ) == self.spec_faces()[f].start_id,
            forall|k: nat|
                0 <= (#[trigger] walk(
                    self.spec_half_edges(),
                    self.spec_faces()[f].start_id as int,
                    k,
                )) < self.spec_half_edges().len() && self.spec_half_edges()[walk(
                    self.spec_half_edges(),
                    self.spec_faces()[f].start_id as int,
                    k,
                )].face_id == f,
    {
        lemma_ring_closes(
            self.spec_half_edges(),
            self.spec_faces().len(),
            self.spec_vertices().len(),
            self.spec_faces()[f].start_id as int,
        );
    }

    /// The ring of a face: the half-edges from the first one of the face on,
    /// each reached from the one before it by `next`, until the first one is
    /// next again.
    pub open spec fn ring(&self, f: int) -> Seq<usize> {
        Seq::new(
            ring_len(self.spec_half_edges(), self.spec_faces()[f].start_id as int),
            |i: int|
                walk(self.spec_half_edges(), self.spec_faces()[f].start_id as int, i as nat) as usize,
        )
    }

    /// Lists the half-edges around a face, in the order of `next`, from the
    /// first half-edge of the face on.
    pub fn face_ring(&self, face_id: usize) -> (ring: Vec<usize>)
        requires
            self.wf(),
            face_id < self.spec_faces().len(),
        ensures
            ring@ == self.ring(face_id as int),
            forall|i: int|
                0 <= i < ring.len() ==> (#[trigger] ring[i]) < self.spec_half_edges().len()
                    && self.spec_half_edges()[ring[i] as int].face_id == face_id,
    {
        let start_id = self.faces[face_id].start_id;
        let ghost half_edges = self.spec_half_edges();
        let ghost len = ring_len(half_edges, start_id as int);
        proof {
            lemma_ring_len(
                half_edges,
                self.spec_faces().len(),
                self.spec_vertices().len(),
                start_id as int,
            );
            lemma_ring_closes(
                half_edges,
                self.spec_faces().len(),
                self.spec_vertices().len(),
                start_id as int,
            );
        }
        let mut ring: Vec<usize> = Vec::new();
        let mut cur_id = start_id;
        let ghost mut steps: nat = 0;
        loop
            invariant_except_break
                ring@.len() == steps,
            invariant
                references_resolve(
                    half_edges,
                    self.spec_faces().len(),
                    self.spec_vertices().len(),
                ),
                half_edges == self.half_edges@,
                start_id < half_edges.len(),
                half_edges[start_id as int].face_id == face_id,
                returns_after(half_edges, start_id as int, len),
                forall|k: nat|
                    0 <= (#[trigger] walk(half_edges, start_id as int, k)) < half_edges.len()
                        && half_edges[walk(half_edges, start_id as int, k)].face_id
                        == half_edges[start_id as int].face_id,
                steps < len,
                cur_id == walk(half_edges, start_id as int, steps),
                cur_id < half_edges.len(),
                steps <= ring@.len() <= steps + 1,
                forall|i: int|
                    0 <= i < ring@.len() ==> #[trigger] ring[i] == walk(
                        half_edges,
                        start_id as int,
                        i as nat,
                    ),
            ensures
                ring@.len() == len,
                forall|i: int|
                    0 <= i < len ==> #[trigger] ring[i] == walk(half_edges, start_id as int, i as nat),
            decreases len - steps,
        {
            ring.push(cur_id);
            let next_id = self.half_edges[cur_id].next_id;
            proof {
                assert(next_id == walk(half_edges, start_id as int, steps + 1));
            }
            if next_id == start_id {
                proof {
                    if steps + 1 < len {
                        assert(walk(half_edges, start_id as int, (steps + 1) as nat) != start_id);
                    }
                    assert(ring@.len() == len);
                }
                break ;
            }
            proof {
                if steps + 1 == len {
                    assert(walk(half_edges, start_id as int, len) == start_id);
                }
                steps = steps + 1;
            }
            cur_id = next_id;
        }
        proof {
            assert(ring@ =~= self.ring(face_id as int));
        }
        ring
    }

    /// The first `n` triangles of the fan of face `f`.
    pub open spec fn fan_prefix(&self, f: int, n: nat) -> Seq<u32> {
        Seq::new(3 * n, |i: int| self.fan_entry(f, i))
    }

    /// Appends the fan of one face to an index buffer.
    fn push_fan(&self, id: usize, indices: &mut Vec<u32>)
        requires
            self.wf(),
            id < self.spec_faces().len(),
            self.spec_faces().len() + self.spec_vertices().len() <= u32::MAX,
        ensures
            final(indices)@ == old(indices)@ + self.fan(id as int),
    {
        let offset = self.faces.len();
        let start_id = self.faces[id].start_id;
        let ghost half_edges = self.spec_half_edges();
        let ghost len = ring_len(half_edges, start_id as int);
        let ghost done = indices@;
        proof {
            lemma_ring_len(
                half_edges,
                self.spec_faces().len(),
                self.spec_vertices().len(),
                start_id as int,
            );
            assert(indices@ =~= done + self.fan_prefix(id as int, 0));
        }
        let mut cur_id = start_id;
        let ghost mut steps: nat = 0;
        loop
            invariant_except_break
                indices@ == done + self.fan_prefix(id as int, steps),
            invariant
                references_resolve(
                    half_edges,
                    self.spec_faces().len(),
                    self.spec_vertices().len(),
                ),
                half_edges == self.spec_half_edges(),
                half_edges == self.half_edges@,
                id < self.spec_faces().len(),
                offset == self.spec_faces().len(),
                offset + self.spec_vertices().len() <= u32::MAX,
                start_id == self.spec_faces()[id as int].start_id,
                start_id < half_edges.len(),
                returns_after(half_edges, start_id as int, len),
                len == ring_len(half_edges, start_id as int),
                steps < len,
                cur_id == walk(half_edges, start_id as int, steps),
                cur_id < half_edges.len(),
            ensures
                indices@ == done + self.fan(id as int),
            decreases len - steps,
        {
            let next_id = self.half_edges[cur_id].next_id;
            let ghost before = indices@;
            let a = id as u32;
            let b = (offset + self.half_edges[cur_id].start_id) as u32;
            let c = (offset + self.half_edges[next_id].start_id) as u32;
            indices.push(a);
            indices.push(b);
            indices.push(c);
            proof {
                let k = 3 * steps as int;
                assert(next_id == walk(half_edges, start_id as int, steps + 1));
                assert(k / 3 == steps && k % 3 == 0);
                assert((k + 1) / 3 == steps && (k + 1) % 3 == 1);
                assert((k + 2) / 3 == steps && (k + 2) % 3 == 2);
                assert(self.fan_entry(id as int, k) == a);
                assert(self.fan_entry(id as int, k + 1) == b);
                assert(self.fan_entry(id as int, k + 2) == c);
                assert(indices@ =~= before.push(a).push(b).push(c));
                assert(indices@ =~= done + self.fan_prefix(id as int, steps + 1));
            }
            if next_id == start_id {
                proof {
                    if steps + 1 < len {
                        assert(walk(half_edges, start_id as int, (steps + 1) as nat) != start_id);
                    }
                    assert(steps + 1 == len);
                    assert(self.fan_prefix(id as int, len) =~= self.fan(id as int));
                }
                break ;
            } else {
                proof {
                    if steps + 1 == len {
                        assert(walk(half_edges, start_id as int, len) == start_id);
                    }
                    steps = steps + 1;
                }
                cur_id = next_id;
            }
        }
    }

    /// Produces a fan triangulation of every face: a vertex buffer, three
    /// coordinates for every site and every vertex, and an index buffer, three
    /// indices into the first for every triangle.
    pub fn create_triangles(&self) -> (buffers: (Vec<T>, Vec<u32>))
        requires
            self.wf(),
            total_ops::<T>(),
            self.spec_faces().len() + self.spec_vertices().len() <= u32::MAX,
        ensures
            buffers.1@ == self.index_buffer(),
            buffers.0@.len() == 3 * (self.spec_faces().len() + self.spec_vertices().len()),
            exact_scalar::<T>() ==> buffers.0@ == self.vertex_buffer(),
    {
        let two = make_constant::<T>(2);
        let one = make_constant::<T>(1);
        let scale_x = self.width / two;
        let scale_y = self.height / two;
        let face_count = self.faces.len();
        let vertex_count = self.vertices.len();
        let mut vertices: Vec<T> = Vec::new();
        let mut f: usize = 0;
        while f < face_count
            invariant
                f <= face_count,
                face_count == self.faces.len(),
                total_ops::<T>(),
                vertices.len() == 3 * f,
                exact_scalar::<T>() ==> scale_x == self.width.div_spec(constant::<T>(2)),
                exact_scalar::<T>() ==> scale_y == self.height.div_spec(constant::<T>(2)),
                exact_scalar::<T>() ==> one == constant::<T>(1),
                exact_scalar::<T>() ==> forall|i: int|
                    0 <= i < 3 * f ==> #[trigger] vertices[i] == self.vertex_entry(i),
            decreases face_count - f,
        {
            vertices.push(self.faces[f].x / scale_x - one);
            vertices.push(self.faces[f].y / scale_y - one);
            vertices.push(make_zero::<T>());
            f = f + 1;
        }
        let mut v: usize = 0;
        while v < vertex_count
            invariant
                v <= vertex_count,
                face_count == self.faces.len(),
                vertex_count == self.vertices.len(),
                face_count + vertex_count <= u32::MAX,
                total_ops::<T>(),
                vertices.len() == 3 * (face_count + v),
                exact_scalar::<T>() ==> scale_x == self.width.div_spec(constant::<T>(2)),
                exact_scalar::<T>() ==> scale_y == self.height.div_spec(constant::<T>(2)),
                exact_scalar::<T>() ==> one == constant::<T>(1),
                exact_scalar::<T>() ==> forall|i: int|
                    0 <= i < 3 * (face_count + v) ==> #[trigger] vertices[i] == self.vertex_entry(i),
            decreases vertex_count - v,
        {
            vertices.push(self.vertices[v].x / scale_x - one);
            vertices.push(self.vertices[v].y / scale_y - one);
            vertices.push(make_zero::<T>());
            v = v + 1;
        }
        proof {
            if exact_scalar::<T>() {
                assert(vertices@ =~= self.vertex_buffer());
            }
        }
        let mut indices: Vec<u32> = Vec::new();
        let mut id: usize = 0;
        while id < face_count
            invariant
                id <= face_count,
                self.wf(),
                face_count == self.faces.len(),
                face_count + self.vertices.len() <= u32::MAX,
                indices@ == self.fans(id as nat),
            decreases face_count - id,
        {
            self.push_fan(id, &mut indices);
            id = id + 1;
        }
        (vertices, indices)
    }
}

} // verus!

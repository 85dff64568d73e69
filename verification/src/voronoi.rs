//! The sweep: sites go in, and a subdivision of the bounding rectangle into
//! the cells of the sites comes out.
//!
//! A `Builder` collects sites. `build` seeds the event queue with one event per
//! site and hands the events out by priority: a site event cuts the arc above
//! the site in two and puts a new arc between the halves, a circle event takes
//! an arc out of the beachline and puts a vertex where its two breakpoints
//! met. When no event is left, the half-edges that the remaining breakpoints
//! trace are cut off at the bounding rectangle, and the ring of every face is
//! closed along the rectangle.
//!
//! A breakpoint traces the half-edge on the face of the arc to its left. That
//! half-edge starts where the breakpoint ends: in the vertex of the circle
//! event that takes the breakpoint away, or on the rectangle. So every vertex
//! of a diagram is a junction, in which three half-edges start on the faces of
//! three sites that are equally far from it, or lies on the border of the
//! rectangle (`vertices_accounted`), and every half-edge without twin runs
//! along a side of the rectangle (`untwinned_on_border`).

use vstd::prelude::*;
use vstd::std_specs::ops::{AddSpec, DivSpec, MulSpec, NegSpec, SubSpec};
use crate::beachline::{
    adopted_arcs,
    adopted_edges,
    arc_sound,
    edge_sound,
    relinked,
    retired,
    Arc,
    Beachline,
    Edge,
    NodeId,
};
use crate::dcel::{Diagram, Face, HalfEdge, Vertex};
use crate::error::BuildError;
use crate::events::{
    first_choice,
    lemma_site_events_push,
    lemma_site_events_remove,
    site_events,
    Event,
    EventKind,
    EventQueue,
};
use crate::field::{has_halves, is_field, is_ordered, lemma_le_refl, lemma_same};
use crate::geom::{
    all_zero,
    lemma_corners_on_border,
    box_hit,
    circle_center,
    distance_squared,
    equidistant,
    frames,
    lemma_box_hit_on_border,
    lemma_circle_center,
    lower,
    on_border,
    parabola_difference,
    parabola_hits,
    parabola_of,
    intersect_parabolas_from_foci,
    is_clockwise,
    midpoint,
    segment_hit,
    snapped_hit,
    turn,
    upper,
    BoundingBox,
    IntersectionCalculator,
    ParabolaIntersection,
};
use crate::quadratic::discriminant;
use crate::scalar::{
    exact_scalar,
    ge,
    gt,
    le,
    lt,
    make_constant,
    make_zero,
    same,
    total_fn,
    total_ops,
    zero,
    Scalar,
};
use crate::store::{
    face_sound,
    first_half_edge_defect,
    half_edge_sound,
    DcelStore,
    FaceBuilder,
    HalfEdgeBuilder,
};
use crate::vector::{point, Vec2, Vector2};

verus! {

/// Builds the diagram of a set of sites inside the rectangle from `(0, 0)` to
/// `(width, height)`.
pub struct Builder<T> {
    width: T,
    height: T,
    store: DcelStore<T>,
    beachline: Beachline,
    events: EventQueue<T>,
    calculator: IntersectionCalculator<T>,
}

/// The event refers to a face or to an arc that exists.
pub open spec fn event_valid<T>(event: Event<T>, faces: int, arcs: int) -> bool {
    match event.kind {
        EventKind::AddArc { face_id } => face_id < faces,
        EventKind::RemoveArc { arc_id } => arc_id < arcs,
    }
}

/// The face as it is when its site was added and nothing else was done.
pub open spec fn blank_face<T>(id: usize, site: (T, T)) -> FaceBuilder<T> {
    FaceBuilder { id, x: site.0, y: site.1, half_edge_id: None, start_id: None, end_id: None }
}

/// The result of a step that fails where something stands against it.
pub open spec fn outcome(defect: Option<BuildError>) -> Result<(), BuildError> {
    match defect {
        Some(e) => Err(e),
        None => Ok(()),
    }
}

impl<T: Scalar> Builder<T> {
    /// The sites added so far, in the order in which they were added.
    pub closed spec fn sites(&self) -> Seq<(T, T)> {
        Seq::new(self.store.faces@.len(), |f: int| (self.store.faces[f].x, self.store.faces[f].y))
    }

    pub closed spec fn spec_width(&self) -> T {
        self.width
    }

    pub closed spec fn spec_height(&self) -> T {
        self.height
    }

    /// The invariant that holds while a diagram is built: the three parts are
    /// sound, the links of the beachline agree, so that `prev_edge` and
    /// `next_edge` name the breakpoints next to an arc, and what one part
    /// refers to in another exists.
    spec fn inv(&self) -> bool {
        &&& self.store.wf()
        &&& self.beachline.wf()
        &&& self.beachline.linked()
        &&& self.events.wf()
        &&& forall|a: int|
            0 <= a < self.beachline.arcs.len() ==> (#[trigger] self.beachline.arcs[a]).face_id
                < self.store.faces.len()
        &&& forall|e: int|
            0 <= e < self.beachline.edges.len() ==> (#[trigger] self.beachline.edges[e]).half_edge_id
                < self.store.half_edges.len()
        &&& forall|i: int|
            0 <= i < self.events.scheduled.len() ==> event_valid(
                #[trigger] self.events.scheduled[i],
                self.store.faces.len() as int,
                self.beachline.arcs.len() as int,
            )
    }

    /// The invariant of a builder between two builds: it holds sites and
    /// nothing else.
    #[verifier::opaque]
    pub closed spec fn wf(&self) -> bool {
        &&& self.inv()
        &&& self.store.vertices@.len() == 0
        &&& self.store.half_edges@.len() == 0
        &&& self.beachline.arcs@.len() == 0
        &&& self.beachline.edges@.len() == 0
        &&& self.beachline.root is None
        &&& self.beachline.live == 0
        &&& self.events.scheduled@.len() == 0
        &&& self.events.pending@.len() == 0
        &&& forall|f: int|
            0 <= f < self.store.faces.len() ==> #[trigger] self.store.faces[f] == blank_face(
                f as usize,
                self.sites()[f],
            )
    }

    /// Creates a builder for the rectangle from `(0, 0)` to `(width, height)`.
    pub fn new(width: T, height: T) -> (builder: Builder<T>)
        ensures
            builder.wf(),
            builder.spec_width() == width,
            builder.spec_height() == height,
            builder.sites().len() == 0,
    {
        reveal(Builder::wf);
        Builder {
            width,
            height,
            store: DcelStore::new(),
            beachline: Beachline::new(),
            events: EventQueue::new(),
            calculator: IntersectionCalculator::new(),
        }
    }

    /// Adds a site. It becomes the face whose id is the number of sites added
    /// before it.
    pub fn add_site(&mut self, x: T, y: T)
        requires
            old(self).wf(),
        ensures
            final(self).wf(),
            final(self).spec_width() == old(self).spec_width(),
            final(self).spec_height() == old(self).spec_height(),
            final(self).sites() == old(self).sites().push((x, y)),
    {
        reveal(Builder::wf);
        let id = self.store.add_face(x, y);
        proof {
            assert(self.sites() =~= old(self).sites().push((x, y)));
            assert forall|f: int| 0 <= f < self.store.faces.len() implies #[trigger] self.store.faces[f]
                == blank_face(f as usize, self.sites()[f]) by {
                if f < id {
                    assert(old(self).store.faces[f] == blank_face(f as usize, old(self).sites()[f]));
                }
            }
        }
    }

    /// The site of the face of an arc: the focus of its parabola.
    fn get_arc_focus(&self, arc_id: usize) -> (focus: Vec2<T>)
        requires
            self.inv(),
            arc_id < self.beachline.arcs.len(),
        ensures
            focus == point(
                self.store.faces[self.beachline.arcs[arc_id as int].face_id as int].x,
                self.store.faces[self.beachline.arcs[arc_id as int].face_id as int].y,
            ),
    {
        let face_id = self.beachline.arcs[arc_id].face_id;
        Vec2::from_values(self.store.faces[face_id].x, self.store.faces[face_id].y)
    }

    /// The site events of the sites: one per face, with the `y` of the site as
    /// priority and the id of the face as id.
    spec fn site_event_list(&self) -> Seq<Event<T>> {
        Seq::new(
            self.store.faces@.len(),
            |f: int|
                Event {
                    id: f as usize,
                    priority: self.store.faces[f].y,
                    kind: EventKind::AddArc { face_id: f as usize },
                },
        )
    }

    /// Seeds the queue with one site event per site.
    fn create_events(&mut self)
        requires
            old(self).wf(),
        ensures
            final(self).inv(),
            final(self).store == old(self).store,
            final(self).beachline == old(self).beachline,
            final(self).width == old(self).width,
            final(self).height == old(self).height,
            final(self).events.pending_events() == old(self).site_event_list(),
            old(self).ledger() ==> final(self).ledger(),
            old(self).all_twinned() ==> final(self).all_twinned(),
    {
        reveal(Builder::wf);
        proof {
            assert(self.sites() =~= self.sites());
        }
        let n = self.store.faces.len();
        let mut f: usize = 0;
        while f < n
            invariant
                self.inv(),
                self.store == old(self).store,
                self.beachline == old(self).beachline,
                self.width == old(self).width,
                self.height == old(self).height,
                n == self.store.faces.len(),
                f <= n,
                self.events.scheduled.len() == f,
                self.events.pending_events() =~= old(self).site_event_list().subrange(0, f as int),
            decreases n - f,
        {
            assert(face_sound(self.store.faces@, f as int, self.store.half_edges@));
            let face = self.store.faces[f];
            self.events.push(face.y, EventKind::AddArc { face_id: face.id });
            f = f + 1;
        }
        assert(self.events.pending_events() =~= old(self).site_event_list());
    }

    /// The measure by which the sweep comes to an end: every event handed out
    /// lowers it. A pending event counts one, an arc on the beachline three, and
    /// a pending site event eight more.
    spec fn budget(&self) -> nat {
        (self.events.pending@.len() + 3 * self.beachline.live + 8 * site_events(
            self.events.pending_events(),
        )) as nat
    }

    /// The extent and the sites are those of `before`.
    spec fn keeps_sites(&self, before: &Self) -> bool {
        &&& self.width == before.width
        &&& self.height == before.height
        &&& self.store.faces@.len() == before.store.faces@.len()
        &&& forall|f: int|
            0 <= f < self.store.faces.len() ==> {
                &&& (#[trigger] self.store.faces[f]).x == before.store.faces[f].x
                &&& self.store.faces[f].y == before.store.faces[f].y
            }
    }

    /// A builder that keeps the sites of another has the same sites.
    proof fn lemma_keeps_sites(&self, before: &Self)
        requires
            self.keeps_sites(before),
        ensures
            self.sites() == before.sites(),
    {
        assert(self.sites() =~= before.sites());
    }

    /// The arc has a neighbour on either side, and the foci of the three arcs lie
    /// on a circle.
    spec fn has_circle(&self, arc: int) -> bool {
        &&& self.beachline.prev_edge(arc) is Some
        &&& self.beachline.next_edge(arc) is Some
        &&& self.junction_center(arc) is Some
    }

    /// The square of the radius of the circle through the foci of an arc and its
    /// neighbours: the square of the distance from its centre to the focus of
    /// the left neighbour.
    spec fn squared_radius(&self, arc: int) -> T {
        let left_arc = self.beachline.prev_arc(self.beachline.prev_edge(arc)->Some_0 as int);
        distance_squared(
            self.junction_center(arc)->Some_0,
            self.face_site(self.beachline.arcs[left_arc as int].face_id as int),
        )
    }

    /// The priority at which an arc is to be removed, where its removal is due,
    /// given the radius of the circle through its focus and those of its
    /// neighbours.
    spec fn due_removal(&self, arc: int, scan_line_y: T, radius: T) -> Option<T> {
        if self.has_circle(arc) {
            due_priority(
                self.junction_center(arc)->Some_0.y(),
                radius,
                self.face_site(self.beachline.arcs[arc].face_id as int).y(),
                scan_line_y,
                self.height,
            )
        } else {
            None
        }
    }

    /// Since `before`, the removal event of an arc was brought up to date for
    /// the sweep line at `scan_line_y`.
    ///
    /// Nothing changed but the event on record for the arc and the queue. Where
    /// the arc has an event on record, it is a new one: it has the next id, is
    /// the last that was scheduled, and is pending. Where it has none, the queue
    /// is as it was. Over exact scalars the arc has an event on record where
    /// `due_removal` gives a priority, with `radius` any value that `sqrt` may
    /// give for the squared radius of the circle, and the event has that
    /// priority.
    spec fn removal_updated<F: Fn(T) -> T>(
        &self,
        before: &Self,
        arc: int,
        scan_line_y: T,
        sqrt: &F,
    ) -> bool {
        &&& self.width == before.width
        &&& self.height == before.height
        &&& self.store == before.store
        &&& self.beachline.edges == before.beachline.edges
        &&& self.beachline.root == before.beachline.root
        &&& self.beachline.live == before.beachline.live
        &&& self.beachline.arcs@.len() == before.beachline.arcs@.len()
        &&& forall|a: int|
            0 <= a < before.beachline.arcs.len() ==> {
                &&& (#[trigger] self.beachline.arcs[a]).face_id == before.beachline.arcs[a].face_id
                &&& self.beachline.arcs[a].parent_id == before.beachline.arcs[a].parent_id
                &&& a != arc ==> self.beachline.arcs[a] == before.beachline.arcs[a]
            }
        &&& match self.beachline.arcs[arc].remove_event_id {
            None => self.events == before.events,
            Some(id) => {
                &&& id == before.events.scheduled.len()
                &&& self.events.scheduled@.len() == id + 1
                &&& self.events.scheduled[id as int].kind == (EventKind::RemoveArc {
                    arc_id: arc as usize,
                })
                &&& self.events.pending@ == before.events.pending@.push(id)
            },
        }
        &&& exact_scalar::<T>() ==> exists|radius: T|
            {
                &&& before.has_circle(arc) ==> call_ensures(
                    sqrt,
                    (before.squared_radius(arc),),
                    radius,
                )
                &&& match #[trigger] before.due_removal(arc, scan_line_y, radius) {
                    Some(priority) => {
                        &&& self.beachline.arcs[arc].remove_event_id is Some
                        &&& self.events.scheduled@.last().priority == priority
                    },
                    None => self.beachline.arcs[arc].remove_event_id is None,
                }
            }
    }

    /// Schedules the removal of an arc where it is due, and forgets the removal
    /// that was pending for it before.
    ///
    /// The removal is due where the arc has a neighbour on either side, the foci
    /// of the three arcs lie on a circle, and `circle_event_priority` says so of
    /// that circle. The event then gets the next id, which is recorded on the
    /// arc.
    fn update_remove_event<F: Fn(T) -> T>(&mut self, arc_id: usize, scan_line_y: T, sqrt: &F)
        requires
            old(self).inv(),
            arc_id < old(self).beachline.arcs.len(),
            total_ops::<T>(),
            total_fn(sqrt),
        ensures
            final(self).inv(),
            final(self).keeps_sites(old(self)),
            final(self).beachline.depth == old(self).beachline.depth,
            final(self).budget() <= old(self).budget() + 1,
            old(self).beachline.prev_edge(arc_id as int) is None || old(self).beachline.next_edge(
                arc_id as int,
            ) is None ==> final(self).beachline.arcs[arc_id as int].remove_event_id is None,
            final(self).removal_updated(old(self), arc_id as int, scan_line_y, sqrt),
            old(self).ledger() ==> final(self).ledger(),
            old(self).all_twinned() ==> final(self).all_twinned(),
    {
        proof {
            assert(self.sites() =~= self.sites());
        }
        self.beachline.set_remove_event(arc_id, None);
        proof {
            assert(self.beachline.prev_edge(arc_id as int) == old(self).beachline.prev_edge(
                arc_id as int,
            ));
            assert(self.beachline.next_edge(arc_id as int) == old(self).beachline.next_edge(
                arc_id as int,
            ));
        }
        let left_edge_id = match self.beachline.find_prev_edge_id(arc_id) {
            Some(id) => id,
            None => {
                proof {
                    assert(old(self).due_removal(arc_id as int, scan_line_y, scan_line_y) is None);
                }
                return ;
            },
        };
        let right_edge_id = match self.beachline.find_next_edge_id(arc_id) {
            Some(id) => id,
            None => {
                proof {
                    assert(old(self).due_removal(arc_id as int, scan_line_y, scan_line_y) is None);
                }
                return ;
            },
        };
        let left_arc_id = self.beachline.find_prev_arc_id(left_edge_id);
        let right_arc_id = self.beachline.find_next_arc_id(right_edge_id);
        let focus = self.get_arc_focus(arc_id);
        let left_focus = self.get_arc_focus(left_arc_id);
        let right_focus = self.get_arc_focus(right_arc_id);
        proof {
            assert(self.beachline.prev_arc(left_edge_id as int) == old(self).beachline.prev_arc(
                left_edge_id as int,
            ));
            assert(self.beachline.next_arc(right_edge_id as int) == old(self).beachline.next_arc(
                right_edge_id as int,
            ));
            assert(old(self).junction_center(arc_id as int) == circle_center(
                left_focus,
                focus,
                right_focus,
            ));
        }
        let circle = self.calculator.circle_through_points(&left_focus, &focus, &right_focus, sqrt);
        match circle {
            Some((center, radius)) => {
                let due = circle_event_priority(
                    center.get_y(),
                    radius,
                    focus.get_y(),
                    scan_line_y,
                    self.height,
                );
                if let Some(priority) = due {
                    let ghost pending = self.events.pending_events();
                    let id = self.events.push(priority, EventKind::RemoveArc { arc_id });
                    self.beachline.set_remove_event(arc_id, Some(id));
                    proof {
                        lemma_site_events_push(
                            pending,
                            Event { id, priority, kind: EventKind::RemoveArc { arc_id } },
                        );
                    }
                }
                proof {
                    if exact_scalar::<T>() {
                        assert(old(self).has_circle(arc_id as int));
                        assert(due == old(self).due_removal(arc_id as int, scan_line_y, radius));
                    }
                }
            },
            None => {
                proof {
                    if exact_scalar::<T>() {
                        assert(old(self).due_removal(arc_id as int, scan_line_y, scan_line_y) is None);
                    }
                }
            },
        }
    }

    /// The side of a breakpoint on which the site of a face lies, as
    /// `left_of_breakpoint` names it: the parabolas of the foci to the left and
    /// right of the breakpoint, with the site's `y` as directrix, are
    /// intersected, with `root` as the square root of their discriminant.
    spec fn side_of_breakpoint(&self, edge: int, face: int, root: T) -> Option<bool> {
        let left = self.face_site(
            self.beachline.arcs[self.beachline.prev_arc(edge) as int].face_id as int,
        );
        let right = self.face_site(
            self.beachline.arcs[self.beachline.next_arc(edge) as int].face_id as int,
        );
        let site = self.face_site(face);
        left_of_breakpoint(
            parabola_hits(left, right, site.y(), root),
            left.y(),
            right.y(),
            site.x(),
        )
    }

    /// `root` is a value that `sqrt` may give for the discriminant of the two
    /// parabolas at a breakpoint, where a root of it is taken at all.
    spec fn root_at_breakpoint<F: Fn(T) -> T>(
        &self,
        edge: int,
        face: int,
        sqrt: &F,
        root: T,
    ) -> bool {
        let left = self.face_site(
            self.beachline.arcs[self.beachline.prev_arc(edge) as int].face_id as int,
        );
        let right = self.face_site(
            self.beachline.arcs[self.beachline.next_arc(edge) as int].face_id as int,
        );
        let d = parabola_difference(
            parabola_of(left, self.face_site(face).y()),
            parabola_of(right, self.face_site(face).y()),
        );
        !all_zero(d) && gt(discriminant(d.0, d.1, d.2), zero::<T>()) ==> call_ensures(
            sqrt,
            (discriminant(d.0, d.1, d.2),),
            root,
        )
    }

    /// The search for the arc above the site of a face, from `node` down through
    /// at most `fuel` breakpoints, may end in `found`.
    ///
    /// At an arc it ends with that arc. At a breakpoint it fails where
    /// `side_of_breakpoint` names no side, and else goes on in the child on the
    /// side that it names.
    spec fn descends<F: Fn(T) -> T>(
        &self,
        node: NodeId,
        face: int,
        sqrt: &F,
        found: Result<usize, BuildError>,
        fuel: nat,
    ) -> bool
        decreases fuel,
    {
        match node {
            NodeId::Arc(a) => found == Ok::<usize, BuildError>(a),
            NodeId::Edge(e) => fuel > 0 && exists|root: T|
                {
                    &&& self.root_at_breakpoint(e as int, face, sqrt, root)
                    &&& match #[trigger] self.side_of_breakpoint(e as int, face, root) {
                        None => found == Err::<usize, BuildError>(BuildError::NoIntersections),
                        Some(go_left) => self.descends(
                            if go_left {
                                self.beachline.edges[e as int].left_child
                            } else {
                                self.beachline.edges[e as int].right_child
                            },
                            face,
                            sqrt,
                            found,
                            (fuel - 1) as nat,
                        ),
                    }
                },
        }
    }

    /// Finds the arc that lies above a new site: from `start_node_id` down, at
    /// every breakpoint to the side of the breakpoint on which the site lies.
    /// It fails at the first breakpoint whose two parabolas do not meet in two
    /// points.
    fn find_split_arc<F: Fn(T) -> T>(
        &self,
        start_node_id: NodeId,
        new_face_id: usize,
        sqrt: &F,
    ) -> (result: Result<usize, BuildError>)
        requires
            self.inv(),
            new_face_id < self.store.faces.len(),
            match start_node_id {
                NodeId::Arc(a) => a < self.beachline.arcs.len(),
                NodeId::Edge(e) => e < self.beachline.edges.len(),
            },
            total_ops::<T>(),
            total_fn(sqrt),
        ensures
            match result {
                Ok(arc_id) => arc_id < self.beachline.arcs.len() && self.beachline.leaf_below(
                    start_node_id,
                    arc_id,
                    self.beachline.edges.len() as nat,
                ),
                Err(e) => e == BuildError::NoIntersections,
            },
            start_node_id matches NodeId::Arc(a) ==> result == Ok::<usize, BuildError>(a),
            exact_scalar::<T>() ==> self.descends(
                start_node_id,
                new_face_id as int,
                sqrt,
                result,
                self.beachline.edges.len() as nat,
            ),
    {
        let site_x = self.store.faces[new_face_id].x;
        let site_y = self.store.faces[new_face_id].y;
        let ghost fuel = self.beachline.edges.len() as nat;
        let ghost mut steps: nat = 0;
        let mut node_id = start_node_id;
        let mut found: usize = 0;
        loop
            invariant
                self.inv(),
                new_face_id < self.store.faces.len(),
                total_ops::<T>(),
                total_fn(sqrt),
                fuel == self.beachline.edges.len(),
                match node_id {
                    NodeId::Arc(a) => a < self.beachline.arcs.len(),
                    NodeId::Edge(e) => e < self.beachline.edges.len() && steps
                        <= self.beachline.depth@[e as int],
                },
                forall|a: usize|
                    #[trigger] self.beachline.leaf_below(node_id, a, (fuel - steps) as nat)
                        ==> self.beachline.leaf_below(start_node_id, a, fuel),
                site_x == self.store.faces[new_face_id as int].x,
                site_y == self.store.faces[new_face_id as int].y,
                start_node_id is Arc ==> node_id == start_node_id,
                exact_scalar::<T>() ==> forall|r: Result<usize, BuildError>|
                    #[trigger] self.descends(
                        node_id,
                        new_face_id as int,
                        sqrt,
                        r,
                        (fuel - steps) as nat,
                    ) ==> self.descends(start_node_id, new_face_id as int, sqrt, r, fuel),
            ensures
                found < self.beachline.arcs.len(),
                self.beachline.leaf_below(start_node_id, found, fuel),
                start_node_id matches NodeId::Arc(a) ==> found == a,
                exact_scalar::<T>() ==> self.descends(
                    start_node_id,
                    new_face_id as int,
                    sqrt,
                    Ok::<usize, BuildError>(found),
                    fuel,
                ),
            decreases fuel - steps,
        {
            match node_id {
                NodeId::Arc(arc_id) => {
                    found = arc_id;
                    assert(self.beachline.leaf_below(node_id, arc_id, (fuel - steps) as nat));
                    assert(self.descends(
                        node_id,
                        new_face_id as int,
                        sqrt,
                        Ok::<usize, BuildError>(found),
                        (fuel - steps) as nat,
                    ));
                    break ;
                },
                NodeId::Edge(edge_id) => {
                    assert(edge_sound(
                        self.beachline.edges@,
                        edge_id as int,
                        self.beachline.arcs.len() as int,
                        self.beachline.depth@,
                    ));
                    let left_arc_id = self.beachline.find_prev_arc_id(edge_id);
                    let right_arc_id = self.beachline.find_next_arc_id(edge_id);
                    let left_focus = self.get_arc_focus(left_arc_id);
                    let right_focus = self.get_arc_focus(right_arc_id);
                    let hits = intersect_parabolas_from_foci(&left_focus, &right_focus, site_y, sqrt);
                    let ghost root = choose|root: T|
                        {
                            &&& self.root_at_breakpoint(
                                edge_id as int,
                                new_face_id as int,
                                sqrt,
                                root,
                            )
                            &&& hits == #[trigger] parabola_hits(
                                left_focus,
                                right_focus,
                                site_y,
                                root,
                            )
                        };
                    proof {
                        if exact_scalar::<T>() {
                            assert(self.face_site(new_face_id as int) == point(site_x, site_y));
                            assert(self.root_at_breakpoint(
                                edge_id as int,
                                new_face_id as int,
                                sqrt,
                                root,
                            ) && hits == parabola_hits(left_focus, right_focus, site_y, root));
                        }
                    }
                    let go_left = match site_is_left_of_breakpoint(
                        &hits,
                        left_focus.get_y(),
                        right_focus.get_y(),
                        site_x,
                    ) {
                        Some(go_left) => go_left,
                        None => {
                            proof {
                                if exact_scalar::<T>() {
                                    assert(self.side_of_breakpoint(
                                        edge_id as int,
                                        new_face_id as int,
                                        root,
                                    ) is None);
                                    assert(self.descends(
                                        node_id,
                                        new_face_id as int,
                                        sqrt,
                                        Err::<usize, BuildError>(BuildError::NoIntersections),
                                        (fuel - steps) as nat,
                                    ));
                                }
                            }
                            return Err(BuildError::NoIntersections);
                        },
                    };
                    let ghost parent = node_id;
                    node_id = if go_left {
                        self.beachline.edges[edge_id].left_child
                    } else {
                        self.beachline.edges[edge_id].right_child
                    };
                    proof {
                        if exact_scalar::<T>() {
                            assert forall|r: Result<usize, BuildError>|
                                #[trigger] self.descends(
                                    node_id,
                                    new_face_id as int,
                                    sqrt,
                                    r,
                                    (fuel - (steps + 1)) as nat,
                                ) implies self.descends(
                                start_node_id,
                                new_face_id as int,
                                sqrt,
                                r,
                                fuel,
                            ) by {
                                assert(self.side_of_breakpoint(
                                    edge_id as int,
                                    new_face_id as int,
                                    root,
                                ) == Some(go_left));
                                assert(self.descends(
                                    parent,
                                    new_face_id as int,
                                    sqrt,
                                    r,
                                    (fuel - steps) as nat,
                                ));
                            }
                        }
                        assert forall|a: usize|
                            self.beachline.leaf_below(
                                node_id,
                                a,
                                (fuel - (steps + 1)) as nat,
                            ) implies self.beachline.leaf_below(start_node_id, a, fuel) by {
                            assert(self.beachline.leaf_below(parent, a, (fuel - steps) as nat));
                        }
                        match node_id {
                            NodeId::Edge(c) => {
                                assert(edge_sound(
                                    self.beachline.edges@,
                                    c as int,
                                    self.beachline.arcs.len() as int,
                                    self.beachline.depth@,
                                ));
                            },
                            NodeId::Arc(_) => {},
                        }
                        steps = steps + 1;
                    }
                },
            }
        }
        Ok(found)
    }

    /// Since `before`, the arc `arc`, which lies below the root, was split for the
    /// site of the face `face_id`.
    ///
    /// The store holds one pair of half-edges more, without endpoints: the
    /// first on the new face, its twin on the face of the arc; each of the two
    /// faces that had no half-edge on record has its half of the pair on
    /// record. The beachline holds the arcs and breakpoints that
    /// `Beachline::split` makes of the arc, the right breakpoint tracing the
    /// half-edge on the new face and the left one its twin; only the removal
    /// events on record for the arcs may differ.
    spec fn has_split(&self, before: &Self, face_id: usize, arc: usize) -> bool {
        let split_face_id = before.beachline.arcs[arc as int].face_id;
        let half_edge_id = before.store.half_edges@.len() as usize;
        let twin_id = (before.store.half_edges@.len() + 1) as usize;
        let faces = before.store.faces@.update(
            face_id as int,
            FaceBuilder {
                half_edge_id: if before.store.faces[face_id as int].half_edge_id is Some {
                    before.store.faces[face_id as int].half_edge_id
                } else {
                    Some(half_edge_id)
                },
                ..before.store.faces[face_id as int]
            },
        );
        let arcs = before.beachline.split_arcs(arc as int, face_id);
        &&& arc < before.beachline.arcs@.len()
        &&& before.beachline.leaf_below(
            before.beachline.root->Some_0,
            arc,
            before.beachline.edges@.len(),
        )
        &&& split_face_id != face_id
        &&& self.store.vertices == before.store.vertices
        &&& self.store.half_edges@ == before.store.half_edges@.push(
            HalfEdgeBuilder {
                id: half_edge_id,
                face_id,
                start_id: None,
                twin_id: Some(twin_id),
                prev_id: None,
                next_id: None,
            },
        ).push(
            HalfEdgeBuilder {
                id: twin_id,
                face_id: split_face_id,
                start_id: None,
                twin_id: Some(half_edge_id),
                prev_id: None,
                next_id: None,
            },
        )
        &&& self.store.faces@ == faces.update(
            split_face_id as int,
            FaceBuilder {
                half_edge_id: if faces[split_face_id as int].half_edge_id is Some {
                    faces[split_face_id as int].half_edge_id
                } else {
                    Some(twin_id)
                },
                ..faces[split_face_id as int]
            },
        )
        &&& self.beachline.edges@ == before.beachline.split_edges(
            arc as int,
            half_edge_id,
            twin_id,
        )
        &&& self.beachline.root == before.beachline.split_root(arc as int)
        &&& self.beachline.live == before.beachline.live + 2
        &&& self.beachline.arcs@.len() == arcs.len()
        &&& forall|a: int|
            0 <= a < arcs.len() ==> {
                &&& (#[trigger] self.beachline.arcs[a]).id == arcs[a].id
                &&& self.beachline.arcs[a].face_id == arcs[a].face_id
                &&& self.beachline.arcs[a].parent_id == arcs[a].parent_id
            }
    }

    /// What stands against splitting an arc for the site of a face, if
    /// anything: the arc is that of the face itself, or it is not a child of the
    /// breakpoint on record as its parent.
    spec fn split_defect(&self, arc: int, face_id: usize) -> Option<BuildError> {
        if self.beachline.arcs[arc].face_id == face_id {
            Some(BuildError::SameFace)
        } else if self.beachline.arcs[arc].parent_id matches Some(p) && !self.beachline.has_child(
            p as int,
            NodeId::Arc(arc as usize),
        ) {
            Some(BuildError::NotAChild)
        } else {
            None
        }
    }

    /// Since `before`, the site of a face was put on a beachline that was not
    /// empty, with `result`, where the search for the arc above it ended in
    /// `found`: a search that fails is the failure of the whole, and an arc that
    /// was found is split unless `split_defect` names an error.
    spec fn put_below<F: Fn(T) -> T>(
        &self,
        before: &Self,
        face_id: usize,
        found: Result<usize, BuildError>,
        sqrt: &F,
        result: Result<(), BuildError>,
    ) -> bool {
        match found {
            Err(e) => result == Err::<(), BuildError>(e),
            Ok(arc) => {
                &&& arc < before.beachline.arcs@.len()
                &&& result == outcome(before.split_defect(arc as int, face_id))
                &&& result is Ok ==> self.has_split(before, face_id, arc)
                &&& result is Ok ==> exists|split: Builder<T>, updated: Builder<T>|
                    #[trigger] self.split_settled(before, &split, &updated, face_id, arc, sqrt)
            },
        }
    }

    /// Since `before`, an arc was split for the site of a face as `has_split`
    /// says, and the removal events of its two halves were brought up to date
    /// for the sweep line through the site: first that of the arc itself, which
    /// gave `updated`, then that of its copy. Before that, in `split`, the arcs
    /// were those that `Beachline::split_arcs` makes, and no event had changed.
    spec fn split_settled<F: Fn(T) -> T>(
        &self,
        before: &Self,
        split: &Self,
        updated: &Self,
        face_id: usize,
        arc: usize,
        sqrt: &F,
    ) -> bool {
        &&& split.has_split(before, face_id, arc)
        &&& split.events == before.events
        &&& split.beachline.arcs@ == before.beachline.split_arcs(arc as int, face_id)
        &&& updated.removal_updated(split, arc as int, before.store.faces[face_id as int].y, sqrt)
        &&& self.removal_updated(
            updated,
            (before.beachline.arcs@.len() + 1) as int,
            before.store.faces[face_id as int].y,
            sqrt,
        )
    }

    /// Since `before`, the arc of a face was put on the beachline, with
    /// `result`: as the root of an empty beachline, which cannot fail and
    /// changes nothing else, or else below the arc in which the search from the
    /// root ends, as `put_below` says.
    spec fn arc_put<F: Fn(T) -> T>(
        &self,
        before: &Self,
        face_id: usize,
        sqrt: &F,
        result: Result<(), BuildError>,
    ) -> bool {
        match before.beachline.root {
            None => {
                &&& result is Ok
                &&& self.store == before.store
                &&& self.events == before.events
                &&& self.beachline.edges == before.beachline.edges
                &&& self.beachline.root == Some(NodeId::Arc(before.beachline.arcs.len() as usize))
                &&& self.beachline.arcs@ == before.beachline.arcs@.push(
                    Arc {
                        id: before.beachline.arcs.len() as usize,
                        face_id,
                        remove_event_id: None,
                        parent_id: None,
                    },
                )
            },
            Some(node) => exists|found: Result<usize, BuildError>|
                {
                    &&& exact_scalar::<T>() ==> before.descends(
                        node,
                        face_id as int,
                        sqrt,
                        found,
                        before.beachline.edges.len() as nat,
                    )
                    &&& #[trigger] self.put_below(before, face_id, found, sqrt, result)
                },
        }
    }

    /// Handles a site event: puts the arc of a new face on the beachline.
    ///
    /// On an empty beachline the arc becomes the root. Else the arc above the
    /// site is split: a pair of half-edges is made for the curve between the new
    /// face and the face of that arc, each face that had no half-edge yet takes
    /// its half of the pair, the arc is replaced as `Beachline::split` says, and
    /// the removal events of the two halves of the arc are brought up to date.
    fn add_arc<F: Fn(T) -> T>(&mut self, face_id: usize, sqrt: &F) -> (result: Result<
        (),
        BuildError,
    >)
        requires
            old(self).inv(),
            face_id < old(self).store.faces.len(),
            total_ops::<T>(),
            total_fn(sqrt),
        ensures
            final(self).inv(),
            final(self).keeps_sites(old(self)),
            final(self).budget() <= old(self).budget() + 8,
            result is Ok && old(self).beachline.root is Some ==> exists|arc: usize|
                #[trigger] final(self).has_split(old(self), face_id, arc),
            result is Err ==> result->Err_0 == BuildError::NoIntersections || result->Err_0
                == BuildError::SameFace || result->Err_0 == BuildError::NotAChild,
            final(self).arc_put(old(self), face_id, sqrt, result),
            result is Ok && old(self).ledger() ==> final(self).ledger(),
            result is Ok && old(self).all_twinned() ==> final(self).all_twinned(),
    {
        let node_id = match self.beachline.root {
            None => {
                self.beachline.start(face_id);
                return Ok(());
            },
            Some(node_id) => node_id,
        };
        let search = self.find_split_arc(node_id, face_id, sqrt);
        let split_arc_id = match search {
            Ok(id) => id,
            Err(e) => {
                assert(self.put_below(old(self), face_id, search, sqrt, Err::<(), BuildError>(e)));
                return Err(e);
            },
        };
        let split_face_id = self.beachline.arcs[split_arc_id].face_id;
        if split_face_id == face_id {
            assert(self.put_below(
                old(self),
                face_id,
                search,
                sqrt,
                Err::<(), BuildError>(BuildError::SameFace),
            ));
            return Err(BuildError::SameFace);
        }
        let (half_edge_id, twin_id) = self.store.create_half_edge_pair(face_id, split_face_id);
        self.store.set_face_half_edge(face_id, half_edge_id, true);
        self.store.set_face_half_edge(split_face_id, twin_id, true);
        let ghost paired = *self;
        assert(self.inv());
        assert(self.keeps_sites(old(self)));
        let (new_arc_id, cloned_arc_id) = match self.beachline.split(
            split_arc_id,
            face_id,
            half_edge_id,
            twin_id,
        ) {
            Ok(ids) => ids,
            Err(e) => {
                assert(self.put_below(old(self), face_id, search, sqrt, Err::<(), BuildError>(e)));
                return Err(e);
            },
        };
        proof {
            assert(self.beachline.wf());
            let arcs = paired.beachline.arcs@.len() as int;
            let edges = paired.beachline.edges@.len() as int;
            assert(self.beachline.arcs@.len() == arcs + 2);
            assert(self.beachline.edges@.len() == edges + 2);
            assert(self.beachline.arcs@[arcs].face_id == face_id);
            assert(self.beachline.arcs@[arcs + 1].face_id == split_face_id);
            assert(self.beachline.edges@[edges].half_edge_id == half_edge_id);
            assert(self.beachline.edges@[edges + 1].half_edge_id == twin_id);
            assert forall|a: int| 0 <= a < self.beachline.arcs.len() implies (
            #[trigger] self.beachline.arcs[a]).face_id < self.store.faces.len() by {
                if a < paired.beachline.arcs.len() {
                    assert(paired.beachline.arcs[a].face_id < paired.store.faces.len());
                }
            }
            assert forall|e: int| 0 <= e < self.beachline.edges.len() implies (
            #[trigger] self.beachline.edges[e]).half_edge_id < self.store.half_edges.len() by {
                if e < paired.beachline.edges.len() {
                    assert(paired.beachline.edges[e].half_edge_id < paired.store.half_edges.len());
                }
            }
            assert forall|i: int| 0 <= i < self.events.scheduled.len() implies event_valid(
                #[trigger] self.events.scheduled[i],
                self.store.faces.len() as int,
                self.beachline.arcs.len() as int,
            ) by {
                assert(event_valid(
                    paired.events.scheduled[i],
                    paired.store.faces.len() as int,
                    paired.beachline.arcs.len() as int,
                ));
            }
            assert(self.inv());
        }
        let scan_line_y = self.store.faces[face_id].y;
        let ghost split = *self;
        proof {
            if old(self).ledger() {
                self.lemma_ledger_grows(old(self));
            }
        }
        self.update_remove_event(split_arc_id, scan_line_y, sqrt);
        let ghost updated = *self;
        self.update_remove_event(cloned_arc_id, scan_line_y, sqrt);
        proof {
            let before = old(self);
            let half_edge_id = before.store.half_edges@.len() as usize;
            let twin_id = (before.store.half_edges@.len() + 1) as usize;
            let arcs = before.beachline.split_arcs(split_arc_id as int, face_id);
            assert(self.store == paired.store);
            assert(split_face_id == before.beachline.arcs[split_arc_id as int].face_id);
            assert(self.store.vertices == before.store.vertices);
            assert(self.beachline.edges@ == before.beachline.split_edges(
                split_arc_id as int,
                half_edge_id,
                twin_id,
            ));
            assert(self.beachline.root == before.beachline.split_root(split_arc_id as int));
            assert(self.beachline.live == before.beachline.live + 2);
            assert(self.beachline.arcs@.len() == arcs.len());
            assert forall|a: int| 0 <= a < arcs.len() implies {
                &&& (#[trigger] self.beachline.arcs[a]).id == arcs[a].id
                &&& self.beachline.arcs[a].face_id == arcs[a].face_id
                &&& self.beachline.arcs[a].parent_id == arcs[a].parent_id
            } by {
                assert(arc_sound(
                    self.beachline.arcs@,
                    a,
                    self.beachline.edges.len() as int,
                ));
                assert(arc_sound(
                    split.beachline.arcs@,
                    a,
                    split.beachline.edges.len() as int,
                ));
                assert(split.beachline.arcs[a] == arcs[a]);
                assert(updated.beachline.arcs[a].face_id == split.beachline.arcs[a].face_id);
                assert(self.beachline.arcs[a].face_id == updated.beachline.arcs[a].face_id);
            }
            assert(self.has_split(old(self), face_id, split_arc_id));
            assert(split.has_split(old(self), face_id, split_arc_id));
            assert(self.split_settled(old(self), &split, &updated, face_id, split_arc_id, sqrt));
            assert(self.put_below(old(self), face_id, search, sqrt, Ok::<(), BuildError>(())));
        }
        Ok(())
    }

    /// Where every half-edge of the store starts, if it has a start yet.
    spec fn starts(&self) -> Seq<Option<usize>> {
        Seq::new(self.store.half_edges@.len(), |e: int| self.store.half_edges[e].start_id)
    }

    /// The face on which every half-edge of the store lies.
    spec fn on_faces(&self) -> Seq<usize> {
        Seq::new(self.store.half_edges@.len(), |e: int| self.store.half_edges[e].face_id)
    }

    /// Every vertex of the store is accounted for: it is a junction or lies on
    /// the border of the rectangle.
    spec fn ledger(&self) -> bool {
        accounted(
            self.store.vertices@,
            self.starts(),
            self.on_faces(),
            self.sites(),
            self.width,
            self.height,
        )
    }

    /// Every half-edge of the store has a twin.
    spec fn all_twinned(&self) -> bool {
        forall|e: int|
            0 <= e < self.store.half_edges@.len() ==> (#[trigger] self.store.half_edges[e]).twin_id
                is Some
    }

    /// Half-edge `e` runs along a side of the rectangle, where it has no twin
    /// and both its ends are known: it starts on the side on which the
    /// half-edge after it starts.
    spec fn runs_along(&self, e: int) -> bool {
        let h = self.store.half_edges[e];
        let after = self.store.half_edges[h.next_id->Some_0 as int];
        h.twin_id is None && h.start_id is Some && h.next_id is Some && after.start_id is Some
            ==> on_one_side(
            self.store.vertices[h.start_id->Some_0 as int],
            self.store.vertices[after.start_id->Some_0 as int],
            self.width,
            self.height,
        )
    }

    /// Every half-edge without twin runs along a side of the rectangle.
    spec fn rim(&self) -> bool {
        forall|e: int| 0 <= e < self.store.half_edges@.len() ==> #[trigger] self.runs_along(e)
    }

    /// The half-edges that ran along a side in `before` do so here, where the
    /// store has grown and, of the half-edges that were there, none changed its
    /// twin or its start and only `first` its successor; `first` and the new
    /// half-edges must run along a side themselves.
    proof fn lemma_rim_grows(&self, before: &Self, first: int)
        requires
            before.rim(),
            before.store.wf(),
            self.width == before.width,
            self.height == before.height,
            before.store.vertices@.len() <= self.store.vertices@.len(),
            before.store.half_edges@.len() <= self.store.half_edges@.len(),
            forall|v: int|
                0 <= v < before.store.vertices@.len() ==> #[trigger] self.store.vertices[v]
                    == before.store.vertices[v],
            forall|e: int|
                0 <= e < before.store.half_edges@.len() ==> {
                    &&& (#[trigger] self.store.half_edges[e]).twin_id
                        == before.store.half_edges[e].twin_id
                    &&& self.store.half_edges[e].start_id == before.store.half_edges[e].start_id
                    &&& e != first ==> self.store.half_edges[e].next_id
                        == before.store.half_edges[e].next_id
                },
            forall|e: int|
                before.store.half_edges@.len() <= e < self.store.half_edges@.len()
                    ==> #[trigger] self.runs_along(e),
            0 <= first < before.store.half_edges@.len() ==> self.runs_along(first),
        ensures
            self.rim(),
    {
        assert forall|e: int| 0 <= e < self.store.half_edges@.len() implies #[trigger] self.runs_along(
            e,
        ) by {
            if e < before.store.half_edges@.len() && e != first {
                assert(before.runs_along(e));
                assert(half_edge_sound(
                    before.store.half_edges@,
                    e,
                    before.store.faces.len() as nat,
                    before.store.vertices.len() as nat,
                ));
                let h = before.store.half_edges[e];
                if h.next_id is Some {
                    let n = h.next_id->Some_0 as int;
                    assert(half_edge_sound(
                        before.store.half_edges@,
                        n,
                        before.store.faces.len() as nat,
                        before.store.vertices.len() as nat,
                    ));
                    assert(self.store.half_edges[n].start_id == before.store.half_edges[n].start_id);
                }
            }
        }
    }

    /// The vertices that were accounted for in `before` are accounted for here,
    /// where the sites are the same, the store has grown, and no half-edge
    /// changed its face or lost its start; the new vertices must be accounted
    /// for themselves.
    proof fn lemma_ledger_grows(&self, before: &Self)
        requires
            before.ledger(),
            self.keeps_sites(before),
            before.store.vertices@.len() <= self.store.vertices@.len(),
            before.store.half_edges@.len() <= self.store.half_edges@.len(),
            forall|v: int|
                0 <= v < before.store.vertices@.len() ==> #[trigger] self.store.vertices[v]
                    == before.store.vertices[v],
            forall|e: int|
                0 <= e < before.store.half_edges@.len() ==> {
                    &&& (#[trigger] self.store.half_edges[e]).face_id
                        == before.store.half_edges[e].face_id
                    &&& before.store.half_edges[e].start_id is Some
                        ==> self.store.half_edges[e].start_id == before.store.half_edges[e].start_id
                },
            forall|v: int|
                before.store.vertices@.len() <= v < self.store.vertices@.len()
                    ==> #[trigger] is_junction(
                    self.store.vertices[v],
                    self.starts(),
                    self.on_faces(),
                    self.sites(),
                ) || on_border(
                    point(self.store.vertices[v].x, self.store.vertices[v].y),
                    self.width,
                    self.height,
                ),
        ensures
            self.ledger(),
    {
        self.lemma_keeps_sites(before);
        assert forall|e: int| 0 <= e < before.starts().len() implies {
            &&& #[trigger] self.on_faces()[e] == before.on_faces()[e]
            &&& before.starts()[e] is Some ==> self.starts()[e] == before.starts()[e]
        } by {
            assert(self.store.half_edges[e].face_id == before.store.half_edges[e].face_id);
        }
        lemma_accounted_grows(
            before.store.vertices@,
            before.starts(),
            before.on_faces(),
            self.store.vertices@,
            self.starts(),
            self.on_faces(),
            self.sites(),
            self.width,
            self.height,
        );
    }

    /// The centre of the circle through the foci of an arc and of the arcs to
    /// its left and right.
    spec fn junction_center(&self, arc: int) -> Option<Vec2<T>> {
        let left_arc = self.beachline.prev_arc(self.beachline.prev_edge(arc)->Some_0 as int);
        let right_arc = self.beachline.next_arc(self.beachline.next_edge(arc)->Some_0 as int);
        circle_center(
            self.face_site(self.beachline.arcs[left_arc as int].face_id as int),
            self.face_site(self.beachline.arcs[arc].face_id as int),
            self.face_site(self.beachline.arcs[right_arc as int].face_id as int),
        )
    }

    /// The point is as far from the site of an arc as from the sites of the arcs
    /// to its left and right.
    spec fn junction_equidistant(&self, arc: int, v: Vec2<T>) -> bool {
        let left_arc = self.beachline.prev_arc(self.beachline.prev_edge(arc)->Some_0 as int);
        let right_arc = self.beachline.next_arc(self.beachline.next_edge(arc)->Some_0 as int);
        equidistant(
            v,
            self.face_site(self.beachline.arcs[left_arc as int].face_id as int),
            self.face_site(self.beachline.arcs[arc].face_id as int),
            self.face_site(self.beachline.arcs[right_arc as int].face_id as int),
        )
    }

    /// Since `before`, an arc that had a breakpoint on either side left the
    /// beachline, and the subdivision gained the vertex in which the two
    /// breakpoints met.
    ///
    /// The store holds one vertex and one pair of half-edges more. A
    /// breakpoint traces the half-edge on the face of the arc to its left, and
    /// that half-edge starts where the breakpoint ends. So of the half-edge
    /// that the left breakpoint traced, `left_out`, and its twin `left_in`, of
    /// the half-edge that the right breakpoint traced, `right_out`, and its
    /// twin `right_in`, and of the new pair `down_in` and `down_out`, three
    /// start at the vertex, one on each face: `left_out` on the face of the
    /// left neighbour, `right_out` on the face of the arc, `down_out` on the
    /// face of the right neighbour. Each of the three that arrive is followed
    /// by the one that leaves on its face: `down_in` by `left_out`, `left_in`
    /// by `right_out`, `right_in` by `down_out`. The beachline holds the same
    /// arcs and breakpoints, one arc fewer of them in the tree: of the two
    /// breakpoints the parent of the arc left with it, the sibling of the arc
    /// took its place, and the breakpoint that stayed traces `down_in`.
    spec fn has_junction(&self, before: &Self, arc: int) -> bool {
        let left_edge = before.beachline.prev_edge(arc);
        let right_edge = before.beachline.next_edge(arc);
        let left_out = before.beachline.edges[left_edge->Some_0 as int].half_edge_id;
        let right_out = before.beachline.edges[right_edge->Some_0 as int].half_edge_id;
        let left_in = before.store.half_edges[left_out as int].twin_id;
        let right_in = before.store.half_edges[right_out as int].twin_id;
        let left_arc = before.beachline.prev_arc(left_edge->Some_0 as int);
        let right_arc = before.beachline.next_arc(right_edge->Some_0 as int);
        let vertex = before.store.vertices@.len() as usize;
        let down_in = before.store.half_edges@.len() as usize;
        let down_out = (before.store.half_edges@.len() + 1) as usize;
        let half_edges = self.store.half_edges@;
        &&& left_edge is Some
        &&& right_edge is Some
        &&& left_in is Some
        &&& right_in is Some
        &&& self.store.vertices@.len() == vertex + 1
        &&& self.store.vertices@.last().id == vertex
        &&& self.store.faces == before.store.faces
        &&& half_edges.len() == down_in + 2
        &&& half_edges[down_in as int] == (HalfEdgeBuilder {
            id: down_in,
            face_id: before.beachline.arcs[left_arc as int].face_id,
            start_id: None,
            twin_id: Some(down_out),
            prev_id: None,
            next_id: Some(left_out),
        })
        &&& half_edges[down_out as int] == (HalfEdgeBuilder {
            id: down_out,
            face_id: before.beachline.arcs[right_arc as int].face_id,
            start_id: Some(vertex),
            twin_id: Some(down_in),
            prev_id: right_in,
            next_id: None,
        })
        &&& half_edges[left_out as int].face_id == before.beachline.arcs[left_arc as int].face_id
        &&& half_edges[left_out as int].start_id == Some(vertex)
        &&& half_edges[left_out as int].prev_id == Some(down_in)
        &&& half_edges[left_in->Some_0 as int].next_id == Some(right_out)
        &&& half_edges[right_out as int].face_id == before.beachline.arcs[arc].face_id
        &&& half_edges[right_out as int].start_id == Some(vertex)
        &&& half_edges[right_out as int].prev_id == left_in
        &&& half_edges[right_in->Some_0 as int].next_id == Some(down_out)
        &&& forall|e: int|
            0 <= e < down_in ==> {
                &&& (#[trigger] half_edges[e]).id == before.store.half_edges[e].id
                &&& half_edges[e].face_id == before.store.half_edges[e].face_id
                &&& half_edges[e].twin_id == before.store.half_edges[e].twin_id
                &&& e != left_out && e != right_out ==> half_edges[e].start_id
                    == before.store.half_edges[e].start_id
            }
        &&& self.beachline.arcs@.len() == before.beachline.arcs@.len()
        &&& self.beachline.root == before.beachline.root
        &&& self.beachline.live + 1 == before.beachline.live
        &&& match before.beachline.collapse_plan(
            arc,
            left_edge->Some_0 as int,
            right_edge->Some_0 as int,
        ) {
            Ok((gone, kept, sibling, grand)) => {
                let edges = retired(
                    relinked(
                        adopted_edges(before.beachline.edges@, sibling, grand),
                        grand as int,
                        NodeId::Edge(gone),
                        sibling,
                    ),
                    gone as int,
                );
                &&& self.beachline.edges@ == edges.update(
                    kept as int,
                    Edge { half_edge_id: down_in, ..edges[kept as int] },
                )
                &&& forall|a: int|
                    0 <= a < self.beachline.arcs@.len() ==> {
                        &&& (#[trigger] self.beachline.arcs[a]).face_id
                            == before.beachline.arcs[a].face_id
                        &&& self.beachline.arcs[a].parent_id == if a == arc {
                            None
                        } else {
                            adopted_arcs(before.beachline.arcs@, sibling, grand)[a].parent_id
                        }
                    }
            },
            Err(_) => false,
        }
    }

    /// Since `before`, an arc left the beachline as `has_junction` says, with
    /// the new vertex, over exact scalars, in the centre of the circle through
    /// the foci of the arc and its neighbours, and
    /// the removal events of its two neighbours were brought up to date: first
    /// that of the left neighbour, which gave `updated`, then that of the right
    /// one. Before that, in `joined`, the arc had lost the event on record for
    /// it, and no other arc and no event had changed.
    spec fn junction_settled<F: Fn(T) -> T>(
        &self,
        before: &Self,
        joined: &Self,
        updated: &Self,
        arc: int,
        scan_line_y: T,
        sqrt: &F,
    ) -> bool {
        let left_arc = before.beachline.prev_arc(before.beachline.prev_edge(arc)->Some_0 as int);
        let right_arc = before.beachline.next_arc(before.beachline.next_edge(arc)->Some_0 as int);
        &&& joined.has_junction(before, arc)
        &&& exact_scalar::<T>() ==> before.junction_center(arc) == Some(
            point(joined.store.vertices@.last().x, joined.store.vertices@.last().y),
        )
        &&& joined.events == before.events
        &&& forall|a: int|
            0 <= a < before.beachline.arcs@.len() ==> (
            #[trigger] joined.beachline.arcs[a]).remove_event_id == if a == arc {
                None
            } else {
                before.beachline.arcs[a].remove_event_id
            }
        &&& updated.removal_updated(joined, left_arc as int, scan_line_y, sqrt)
        &&& self.removal_updated(updated, right_arc as int, scan_line_y, sqrt)
    }

    /// What stands against taking an arc out of the beachline, if anything.
    ///
    /// The arc needs a breakpoint on either side, and the foci of the arc and of
    /// its two neighbours a circle through them. The half-edges that the two
    /// breakpoints trace need twins, and the two neighbours different faces.
    /// The half-edge of the right breakpoint must lie on the face of the arc,
    /// and neither traced half-edge may have a start vertex yet.
    /// Of the three pairs of half-edges that are joined around the new vertex,
    /// each must lie on one face, the one that arrives without a successor and
    /// the one that leaves without a predecessor. At last the tree must let the
    /// arc go, as `Beachline::collapse_plan` says.
    spec fn removal_defect(&self, arc: int) -> Option<BuildError> {
        let left_edge = self.beachline.prev_edge(arc);
        let right_edge = self.beachline.next_edge(arc);
        let left_traced = self.beachline.edges[left_edge->Some_0 as int].half_edge_id;
        let right_traced = self.beachline.edges[right_edge->Some_0 as int].half_edge_id;
        let left_out = self.store.half_edges[left_traced as int];
        let right_out = self.store.half_edges[right_traced as int];
        let left_in = self.store.half_edges[left_out.twin_id->Some_0 as int];
        let right_in = self.store.half_edges[right_out.twin_id->Some_0 as int];
        let left_face = self.beachline.arcs[self.beachline.prev_arc(
            left_edge->Some_0 as int,
        ) as int].face_id;
        let right_face = self.beachline.arcs[self.beachline.next_arc(
            right_edge->Some_0 as int,
        ) as int].face_id;
        if left_edge is None || right_edge is None {
            Some(BuildError::MissingNeighbor)
        } else if self.junction_center(arc) is None {
            Some(BuildError::NoCircle)
        } else if left_out.twin_id is None || right_out.twin_id is None {
            Some(BuildError::MissingTwin)
        } else if left_face == right_face {
            Some(BuildError::SameFace)
        } else if right_out.face_id != self.beachline.arcs[arc].face_id {
            Some(BuildError::DifferentFaces)
        } else if left_out.start_id is Some || right_out.start_id is Some {
            Some(BuildError::StartSet)
        } else if left_out.face_id != left_face {
            Some(BuildError::DifferentFaces)
        } else if left_out.prev_id is Some {
            Some(BuildError::SecondConnected)
        } else if left_in.face_id != right_out.face_id {
            Some(BuildError::DifferentFaces)
        } else if left_in.next_id is Some {
            Some(BuildError::FirstConnected)
        } else if right_out.prev_id is Some {
            Some(BuildError::SecondConnected)
        } else if right_in.face_id != right_face {
            Some(BuildError::DifferentFaces)
        } else if right_in.next_id is Some {
            Some(BuildError::FirstConnected)
        } else {
            match self.beachline.collapse_plan(
                arc,
                left_edge->Some_0 as int,
                right_edge->Some_0 as int,
            ) {
                Ok(_) => None,
                Err(e) => Some(e),
            }
        }
    }

    /// Handles a circle event: takes an arc out of the beachline.
    ///
    /// The breakpoints on both sides of the arc meet in the centre of the circle
    /// through the foci of the arc and its two neighbours. A vertex is put
    /// there. The half-edges that the two breakpoints traced get it as their
    /// start, and a new pair of half-edges joins them, between the faces of
    /// the two neighbours; around the vertex each half-edge that arrives is
    /// joined to the one that leaves on the same face. The arc leaves the tree
    /// as `Beachline::collapse` says, the breakpoint that stays traces the new
    /// half-edge from there on, and the removal events of the two neighbours
    /// are brought up to date. Over a field with halves, the vertex is as far
    /// from the site of the arc as from the sites of its two neighbours.
    ///
    /// The removal fails with the error that `removal_defect` names, and with
    /// no other: an arc at either end of the beachline cannot be removed. Where
    /// it succeeds, the builder is left as `junction_settled` says.
    fn remove_arc<F: Fn(T) -> T>(&mut self, arc_id: usize, scan_line_y: T, sqrt: &F) -> (result:
        Result<(), BuildError>)
        requires
            old(self).inv(),
            arc_id < old(self).beachline.arcs.len(),
            total_ops::<T>(),
            total_fn(sqrt),
        ensures
            final(self).inv(),
            final(self).keeps_sites(old(self)),
            result is Ok ==> final(self).budget() + 1 <= old(self).budget(),
            result is Ok ==> final(self).has_junction(old(self), arc_id as int),
            result is Ok && exact_scalar::<T>() ==> old(self).junction_center(arc_id as int) == Some(
                point(final(self).store.vertices@.last().x, final(self).store.vertices@.last().y),
            ),
            result is Ok && exact_scalar::<T>() && is_field::<T>() && has_halves::<T>()
                ==> old(self).junction_equidistant(
                arc_id as int,
                point(final(self).store.vertices@.last().x, final(self).store.vertices@.last().y),
            ),
            old(self).beachline.prev_edge(arc_id as int) is None || old(self).beachline.next_edge(
                arc_id as int,
            ) is None ==> result == Err::<(), BuildError>(BuildError::MissingNeighbor),
            exact_scalar::<T>() ==> result == outcome(old(self).removal_defect(arc_id as int)),
            result is Ok ==> exists|joined: Builder<T>, updated: Builder<T>|
                #[trigger] final(self).junction_settled(
                    old(self),
                    &joined,
                    &updated,
                    arc_id as int,
                    scan_line_y,
                    sqrt,
                ),
            result is Ok && exact_scalar::<T>() && old(self).ledger() ==> final(self).ledger(),
            result is Ok && old(self).all_twinned() ==> final(self).all_twinned(),
    {
        proof {
            if is_field::<T>() && has_halves::<T>() && self.junction_center(arc_id as int) is Some {
                let left_arc = self.beachline.prev_arc(
                    self.beachline.prev_edge(arc_id as int)->Some_0 as int,
                );
                let right_arc = self.beachline.next_arc(
                    self.beachline.next_edge(arc_id as int)->Some_0 as int,
                );
                lemma_circle_center(
                    self.face_site(self.beachline.arcs[left_arc as int].face_id as int),
                    self.face_site(self.beachline.arcs[arc_id as int].face_id as int),
                    self.face_site(self.beachline.arcs[right_arc as int].face_id as int),
                );
            }
        }
        let left_edge_id = match self.beachline.find_prev_edge_id(arc_id) {
            Some(id) => id,
            None => {
                return Err(BuildError::MissingNeighbor);
            },
        };
        let right_edge_id = match self.beachline.find_next_edge_id(arc_id) {
            Some(id) => id,
            None => {
                return Err(BuildError::MissingNeighbor);
            },
        };
        let left_arc_id = self.beachline.find_prev_arc_id(left_edge_id);
        let left_face_id = self.beachline.arcs[left_arc_id].face_id;
        let right_arc_id = self.beachline.find_next_arc_id(right_edge_id);
        let right_face_id = self.beachline.arcs[right_arc_id].face_id;
        let focus = self.get_arc_focus(arc_id);
        let left_focus = self.get_arc_focus(left_arc_id);
        let right_focus = self.get_arc_focus(right_arc_id);
        let center = match self.calculator.circle_through_points(
            &left_focus,
            &focus,
            &right_focus,
            sqrt,
        ) {
            Some((center, _)) => center,
            None => {
                return Err(BuildError::NoCircle);
            },
        };
        let left_out_id = self.beachline.edges[left_edge_id].half_edge_id;
        let right_out_id = self.beachline.edges[right_edge_id].half_edge_id;
        proof {
            assert(half_edge_sound(
                self.store.half_edges@,
                left_out_id as int,
                self.store.faces.len() as nat,
                self.store.vertices.len() as nat,
            ));
            assert(half_edge_sound(
                self.store.half_edges@,
                right_out_id as int,
                self.store.faces.len() as nat,
                self.store.vertices.len() as nat,
            ));
        }
        let left_in_id = match self.store.half_edges[left_out_id].twin_id {
            Some(id) => id,
            None => {
                return Err(BuildError::MissingTwin);
            },
        };
        let right_in_id = match self.store.half_edges[right_out_id].twin_id {
            Some(id) => id,
            None => {
                return Err(BuildError::MissingTwin);
            },
        };
        if left_face_id == right_face_id {
            return Err(BuildError::SameFace);
        }
        if self.store.half_edges[right_out_id].face_id != self.beachline.arcs[arc_id].face_id {
            return Err(BuildError::DifferentFaces);
        }
        if self.store.half_edges[left_out_id].start_id.is_some()
            || self.store.half_edges[right_out_id].start_id.is_some() {
            return Err(BuildError::StartSet);
        }
        let intersection_id = self.store.create_vertex(center.get_x(), center.get_y());
        let (down_in_id, down_out_id) = self.store.create_half_edge_pair(
            left_face_id,
            right_face_id,
        );
        self.store.set_start(down_out_id, intersection_id);
        self.store.set_start(left_out_id, intersection_id);
        match self.store.find_connect_defect(down_in_id, left_out_id) {
            None => {},
            Some(e) => {
                return Err(e);
            },
        }
        self.store.connect_half_edges(down_in_id, left_out_id);
        self.store.set_start(right_out_id, intersection_id);
        match self.store.find_connect_defect(left_in_id, right_out_id) {
            None => {},
            Some(e) => {
                return Err(e);
            },
        }
        self.store.connect_half_edges(left_in_id, right_out_id);
        match self.store.find_connect_defect(right_in_id, down_out_id) {
            None => {},
            Some(e) => {
                return Err(e);
            },
        }
        self.store.connect_half_edges(right_in_id, down_out_id);
        assert(self.inv());
        assert(self.keeps_sites(old(self)));
        let kept_edge_id = match self.beachline.collapse(arc_id, left_edge_id, right_edge_id) {
            Ok(id) => id,
            Err(e) => {
                return Err(e);
            },
        };
        self.beachline.set_edge_half_edge(kept_edge_id, down_in_id);
        assert(self.inv());
        assert(self.budget() + 3 == old(self).budget());
        let ghost joined = *self;
        assert(joined.has_junction(old(self), arc_id as int));
        proof {
            if exact_scalar::<T>() && old(self).ledger() {
                let v = old(self).store.vertices@.len() as int;
                assert(self.store.vertices@.subrange(0, v) =~= old(self).store.vertices@);
                assert forall|u: int| 0 <= u < v implies #[trigger] self.store.vertices[u] == old(
                    self,
                ).store.vertices[u] by {
                    assert(self.store.vertices@.subrange(0, v)[u] == self.store.vertices[u]);
                }
                assert(self.sites() =~= old(self).sites());
                assert(meet_at(
                    self.store.vertices[v],
                    self.starts(),
                    self.on_faces(),
                    self.sites(),
                    left_out_id as int,
                    right_out_id as int,
                    down_out_id as int,
                ));
                self.lemma_ledger_grows(old(self));
            }
        }
        self.update_remove_event(left_arc_id, scan_line_y, sqrt);
        let ghost updated = *self;
        self.update_remove_event(right_arc_id, scan_line_y, sqrt);
        assert(self.junction_settled(
            old(self),
            &joined,
            &updated,
            arc_id as int,
            scan_line_y,
            sqrt,
        ));
        Ok(())
    }

    /// Since `before`, a circle event for an arc was looked at, with `result`.
    /// An event that is not the one on record for the arc is dropped: nothing
    /// changes. Else the arc is removed: it fails with the error that
    /// `removal_defect` names, and where it succeeds the builder is left as
    /// `junction_settled` says.
    spec fn removal_checked<F: Fn(T) -> T>(
        &self,
        before: &Self,
        arc: int,
        event_id: usize,
        scan_line_y: T,
        sqrt: &F,
        result: Result<(), BuildError>,
    ) -> bool {
        if before.beachline.arcs[arc].remove_event_id != Some(event_id) {
            result is Ok && *self == *before
        } else {
            &&& result is Ok ==> exists|joined: Builder<T>, updated: Builder<T>|
                #[trigger] self.junction_settled(before, &joined, &updated, arc, scan_line_y, sqrt)
            &&& before.beachline.prev_edge(arc) is None || before.beachline.next_edge(arc) is None
                ==> result == Err::<(), BuildError>(BuildError::MissingNeighbor)
            &&& exact_scalar::<T>() ==> result == outcome(before.removal_defect(arc))
        }
    }

    /// Handles a circle event if it still stands: the arc is removed, as
    /// `remove_arc` does it and with its result, where the event is the one on
    /// record for the arc. An event that was replaced or whose arc left the
    /// beachline is dropped, and nothing changes.
    fn check_remove_arc<F: Fn(T) -> T>(
        &mut self,
        arc_id: usize,
        event_id: usize,
        scan_line_y: T,
        sqrt: &F,
    ) -> (result: Result<(), BuildError>)
        requires
            old(self).inv(),
            arc_id < old(self).beachline.arcs.len(),
            total_ops::<T>(),
            total_fn(sqrt),
        ensures
            final(self).inv(),
            final(self).keeps_sites(old(self)),
            result is Ok ==> final(self).budget() <= old(self).budget(),
            final(self).removal_checked(
                old(self),
                arc_id as int,
                event_id,
                scan_line_y,
                sqrt,
                result,
            ),
            result is Ok && exact_scalar::<T>() && old(self).ledger() ==> final(self).ledger(),
            result is Ok && old(self).all_twinned() ==> final(self).all_twinned(),
    {
        match self.beachline.arcs[arc_id].remove_event_id {
            Some(id) => {
                if id == event_id {
                    self.remove_arc(arc_id, scan_line_y, sqrt)
                } else {
                    Ok(())
                }
            },
            None => Ok(()),
        }
    }

    /// The only pending event is the site event of a face, and the beachline is
    /// empty.
    spec fn before_first_site(&self, face_id: usize) -> bool {
        &&& self.events.pending@.len() == 1
        &&& self.events.pending_events()[0].kind == (EventKind::AddArc { face_id })
        &&& self.beachline.root is None
    }

    /// No event is pending, and since `before` the only change is that the arc
    /// of a face was put on the empty beachline.
    spec fn after_first_site(&self, before: &Self, face_id: usize) -> bool {
        &&& self.width == before.width
        &&& self.height == before.height
        &&& self.store == before.store
        &&& self.events.pending@.len() == 0
        &&& self.beachline.edges == before.beachline.edges
        &&& self.beachline.root == Some(NodeId::Arc(before.beachline.arcs.len() as usize))
        &&& self.beachline.arcs@ == before.beachline.arcs@.push(
            Arc {
                id: before.beachline.arcs.len() as usize,
                face_id,
                remove_event_id: None,
                parent_id: None,
            },
        )
    }

    /// Since `before`, the pending event at index `k` was taken from the queue,
    /// and nothing else changed.
    spec fn handed_out(&self, before: &Self, k: int) -> bool {
        &&& self.width == before.width
        &&& self.height == before.height
        &&& self.store == before.store
        &&& self.beachline == before.beachline
        &&& self.events.scheduled == before.events.scheduled
        &&& self.events.pending@ == before.events.pending@.remove(k)
    }

    /// Since `before`, one pending event was handed out, which left `popped`,
    /// and handled, with `result`: over exact scalars the event that precedes
    /// the others. A site event puts the arc of its face on the beachline, a
    /// circle event is looked at as `removal_checked` says, with the priority
    /// of the event as the place of the sweep line.
    spec fn event_handled<F: Fn(T) -> T>(
        &self,
        before: &Self,
        sqrt: &F,
        result: Result<(), BuildError>,
    ) -> bool {
        exists|k: int, popped: Builder<T>|
            {
                let event = before.events.pending_events()[k];
                &&& 0 <= k < before.events.pending@.len()
                &&& exact_scalar::<T>() ==> k == first_choice(
                    before.events.pending_events(),
                    before.events.pending@.len() - 1,
                )
                &&& #[trigger] popped.handed_out(before, k)
                &&& match event.kind {
                    EventKind::AddArc { face_id } => self.arc_put(&popped, face_id, sqrt, result),
                    EventKind::RemoveArc { arc_id } => self.removal_checked(
                        &popped,
                        arc_id as int,
                        event.id,
                        event.priority,
                        sqrt,
                        result,
                    ),
                }
            }
    }

    /// Since `before`, the pending events were handed out and handled one
    /// after the other, with `states` the builder before each of them that was
    /// handled with success and after the last of these.
    ///
    /// On success the last state is this one, and no event is pending. On
    /// failure one more event was handed out in the last state, and the error
    /// is that of handling it.
    spec fn events_handled<F: Fn(T) -> T>(
        &self,
        before: &Self,
        states: Seq<Builder<T>>,
        sqrt: &F,
        result: Result<(), BuildError>,
    ) -> bool {
        let done = states.len() - 1;
        &&& done >= 0
        &&& states[0] == *before
        &&& forall|i: int|
            0 <= i < done ==> (#[trigger] states[i + 1]).event_handled(
                &states[i],
                sqrt,
                Ok::<(), BuildError>(()),
            )
        &&& match result {
            Ok(_) => states[done] == *self && self.events.pending@.len() == 0,
            Err(e) => self.event_handled(&states[done], sqrt, Err::<(), BuildError>(e)),
        }
    }

    /// Hands the pending events out, one after the other, until none is left or
    /// one of them fails.
    fn handle_events<F: Fn(T) -> T>(&mut self, sqrt: &F) -> (result: Result<(), BuildError>)
        requires
            old(self).inv(),
            total_ops::<T>(),
            total_fn(sqrt),
        ensures
            final(self).inv(),
            final(self).keeps_sites(old(self)),
            result is Ok ==> final(self).events.pending@.len() == 0,
            old(self).events.pending@.len() == 0 ==> result is Ok && *final(self) == *old(self),
            forall|face_id: usize|
                old(self).before_first_site(face_id) ==> result is Ok
                    && final(self).after_first_site(old(self), face_id),
            exists|states: Seq<Builder<T>>|
                #[trigger] final(self).events_handled(old(self), states, sqrt, result),
            result is Ok && exact_scalar::<T>() && old(self).ledger() ==> final(self).ledger(),
            result is Ok && old(self).all_twinned() ==> final(self).all_twinned(),
    {
        let ghost mut states: Seq<Builder<T>> = seq![*self];
        loop
            invariant
                self.inv(),
                self.keeps_sites(old(self)),
                exact_scalar::<T>() && old(self).ledger() ==> self.ledger(),
                old(self).all_twinned() ==> self.all_twinned(),
                total_ops::<T>(),
                total_fn(sqrt),
                states.len() >= 1,
                states[0] == *old(self),
                states[states.len() - 1] == *self,
                forall|i: int|
                    0 <= i < states.len() - 1 ==> (#[trigger] states[i + 1]).event_handled(
                        &states[i],
                        sqrt,
                        Ok::<(), BuildError>(()),
                    ),
                old(self).events.pending@.len() == 0 ==> *self == *old(self),
                forall|face_id: usize|
                    old(self).before_first_site(face_id) ==> *self == *old(self)
                        || self.after_first_site(old(self), face_id),
            ensures
                self.events.pending@.len() == 0,
                exact_scalar::<T>() && old(self).ledger() ==> self.ledger(),
                old(self).all_twinned() ==> self.all_twinned(),
                states.len() >= 1,
                states[0] == *old(self),
                states[states.len() - 1] == *self,
                forall|i: int|
                    0 <= i < states.len() - 1 ==> (#[trigger] states[i + 1]).event_handled(
                        &states[i],
                        sqrt,
                        Ok::<(), BuildError>(()),
                    ),
            decreases self.budget(),
        {
            let ghost before = *self;
            let ghost pending = self.events.pending_events();
            let event = match self.events.pop() {
                Some(event) => event,
                None => {
                    break ;
                },
            };
            let ghost popped = *self;
            let ghost k = choose|k: int|
                {
                    &&& 0 <= k < before.events.pending@.len()
                    &&& event == before.events.pending_events()[k]
                    &&& #[trigger] self.events.pending@ == before.events.pending@.remove(k)
                    &&& self.events.pending_events() == before.events.pending_events().remove(k)
                    &&& exact_scalar::<T>() ==> k == first_choice(
                        before.events.pending_events(),
                        before.events.pending@.len() - 1,
                    )
                };
            proof {
                assert(popped.handed_out(&before, k));
                assert(popped.sites() =~= before.sites());
                assert(before.ledger() ==> popped.ledger());
                lemma_site_events_remove(pending, k);
                assert(event == before.events.scheduled[before.events.pending[k] as int]);
                assert(event_valid(
                    event,
                    self.store.faces.len() as int,
                    self.beachline.arcs.len() as int,
                ));
                assert(self.inv());
            }
            match event.kind {
                EventKind::AddArc { face_id } => {
                    match self.add_arc(face_id, sqrt) {
                        Ok(()) => {},
                        Err(e) => {
                            proof {
                                assert forall|f: usize| old(self).before_first_site(f) implies false by {
                                    assert(before == *old(self));
                                }
                                assert(self.event_handled(&before, sqrt, Err::<(), BuildError>(e)));
                                assert(self.events_handled(
                                    old(self),
                                    states,
                                    sqrt,
                                    Err::<(), BuildError>(e),
                                ));
                            }
                            return Err(e);
                        },
                    }
                },
                EventKind::RemoveArc { arc_id } => {
                    match self.check_remove_arc(arc_id, event.id, event.priority, sqrt) {
                        Ok(()) => {},
                        Err(e) => {
                            proof {
                                assert(self.event_handled(&before, sqrt, Err::<(), BuildError>(e)));
                                assert(self.events_handled(
                                    old(self),
                                    states,
                                    sqrt,
                                    Err::<(), BuildError>(e),
                                ));
                            }
                            return Err(e);
                        },
                    }
                },
            }
            proof {
                assert(self.event_handled(&before, sqrt, Ok::<(), BuildError>(())));
                let earlier = states;
                states = states.push(*self);
                assert forall|i: int| 0 <= i < states.len() - 1 implies (#[trigger] states[i
                    + 1]).event_handled(&states[i], sqrt, Ok::<(), BuildError>(())) by {
                    if i < earlier.len() - 1 {
                        assert(earlier[i + 1].event_handled(
                            &earlier[i],
                            sqrt,
                            Ok::<(), BuildError>(()),
                        ));
                    }
                }
            }
        }
        proof {
            assert(self.events_handled(old(self), states, sqrt, Ok::<(), BuildError>(())));
        }
        Ok(())
    }

    /// Finds the start vertex of a half-edge that a breakpoint still traces when
    /// the sweep is over: the point where the perpendicular bisector of the two
    /// sites, followed from their midpoint to the side that `open_direction`
    /// names, meets the bounding rectangle. The point is put on the side that
    /// the bisector meets, so that arithmetic that rounds does not take it off
    /// the rectangle, and the vertex is added to the store. Over an ordered
    /// field it lies on the border of the rectangle.
    fn calc_half_edge_start(
        &mut self,
        bounds: &BoundingBox<T>,
        face_id: usize,
        twin_face_id: usize,
    ) -> (result: Result<usize, BuildError>)
        requires
            old(self).inv(),
            face_id < old(self).store.faces.len(),
            twin_face_id < old(self).store.faces.len(),
            total_ops::<T>(),
        ensures
            final(self).inv(),
            final(self).keeps_sites(old(self)),
            final(self).beachline == old(self).beachline,
            final(self).events == old(self).events,
            final(self).store.half_edges == old(self).store.half_edges,
            final(self).store.faces == old(self).store.faces,
            match result {
                Ok(id) => {
                    &&& id == old(self).store.vertices.len()
                    &&& final(self).store.vertices@.len() == id + 1
                    &&& final(self).store.vertices@.subrange(0, id as int) == old(self).store.vertices@
                },
                Err(e) => e == BuildError::NoBoundaryHit && final(self).store == old(self).store,
            },
            exact_scalar::<T>() ==> match snapped_hit(
                midpoint(
                    old(self).face_site(face_id as int),
                    old(self).face_site(twin_face_id as int),
                ),
                open_direction(
                    old(self).face_site(face_id as int),
                    old(self).face_site(twin_face_id as int),
                ),
                bounds.corner(0),
                bounds.corner(1),
                bounds.corner(2),
                bounds.corner(3),
            ) {
                Some(hit) => result is Ok && final(self).store.vertices@.last() == (Vertex {
                    id: old(self).store.vertices.len() as usize,
                    x: hit.x(),
                    y: hit.y(),
                }),
                None => result is Err,
            },
            result is Ok && exact_scalar::<T>() && clips_exactly::<T>(
                *bounds,
                old(self).width,
                old(self).height,
            ) ==> on_border(
                point(final(self).store.vertices@.last().x, final(self).store.vertices@.last().y),
                old(self).width,
                old(self).height,
            ),
    {
        proof {
            let hit = box_hit(
                midpoint(self.face_site(face_id as int), self.face_site(twin_face_id as int)),
                open_direction(
                    self.face_site(face_id as int),
                    self.face_site(twin_face_id as int),
                ),
                *bounds,
            );
            if clips_exactly::<T>(*bounds, self.width, self.height) && hit is Some {
                lemma_box_hit_on_border(
                    midpoint(self.face_site(face_id as int), self.face_site(twin_face_id as int)),
                    open_direction(
                        self.face_site(face_id as int),
                        self.face_site(twin_face_id as int),
                    ),
                    *bounds,
                    self.width,
                    self.height,
                );
                assert(point(hit->Some_0.x(), hit->Some_0.y()).values =~= hit->Some_0.values);
            }
        }
        let face = self.store.faces[face_id];
        let twin_face = self.store.faces[twin_face_id];
        let two = make_constant::<T>(2);
        let pos = Vec2::from_values((face.x + twin_face.x) / two, (face.y + twin_face.y) / two);
        let sub = Vec2::from_values(twin_face.x - face.x, twin_face.y - face.y);
        let mut dir = Vec2::from_values(face.y - twin_face.y, twin_face.x - face.x);
        if !is_clockwise(&sub, &dir) {
            dir = Vec2::from_values(dir.get_x().neg(), dir.get_y().neg());
        }
        let c0 = bounds.get_corner(0);
        let c1 = bounds.get_corner(1);
        let c2 = bounds.get_corner(2);
        let c3 = bounds.get_corner(3);
        let (x, y) = match self.calculator.ray_with_segment(&pos, &dir, &c0, &c1) {
            Some(q) => (q.get_x(), c0.get_y()),
            None => match self.calculator.ray_with_segment(&pos, &dir, &c1, &c2) {
                Some(q) => (c1.get_x(), q.get_y()),
                None => match self.calculator.ray_with_segment(&pos, &dir, &c2, &c3) {
                    Some(q) => (q.get_x(), c2.get_y()),
                    None => match self.calculator.ray_with_segment(&pos, &dir, &c3, &c0) {
                        Some(q) => (c3.get_x(), q.get_y()),
                        None => {
                            return Err(BuildError::NoBoundaryHit);
                        },
                    },
                },
            },
        };
        let id = self.store.create_vertex(x, y);
        proof {
            assert(self.store.vertices@.subrange(0, id as int) =~= old(self).store.vertices@);
        }
        Ok(id)
    }

    /// The site of a face, as a point.
    spec fn face_site(&self, face: int) -> Vec2<T> {
        point(self.store.faces[face].x, self.store.faces[face].y)
    }

    /// Finishes the half-edge that a breakpoint still traces when the sweep is
    /// over: it gets its start vertex on the bounding rectangle, unless it has
    /// one, and is put on record as the end of the open ring of its face; its
    /// twin is put on record as the start of the open ring of the face on the
    /// other side. Where it fails, the store is as it was. With `bounds` the
    /// rectangle of the builder, the store is left as `edge_completed` says.
    fn complete_edge(&mut self, bounds: &BoundingBox<T>, edge_id: usize) -> (result: Result<
        (),
        BuildError,
    >)
        requires
            old(self).inv(),
            edge_id < old(self).beachline.edges.len(),
            total_ops::<T>(),
        ensures
            final(self).inv(),
            final(self).keeps_sites(old(self)),
            final(self).beachline == old(self).beachline,
            final(self).events == old(self).events,
            final(self).store.half_edges@.len() == old(self).store.half_edges@.len(),
            result is Err ==> result->Err_0 == BuildError::MissingTwin || result->Err_0
                == BuildError::NoBoundaryHit,
            result is Ok ==> {
                let half_edge_id = old(self).beachline.edges[edge_id as int].half_edge_id as int;
                let half_edge = old(self).store.half_edges[half_edge_id];
                &&& half_edge.twin_id is Some
                &&& final(self).store.half_edges[half_edge_id].start_id is Some
                &&& final(self).store.faces[half_edge.face_id as int].end_id == Some(
                    half_edge_id as usize,
                )
                &&& final(self).store.faces[twin_face_of(
                    old(self).store.half_edges@,
                    half_edge_id,
                ) as int].start_id == half_edge.twin_id
            },
            result is Err ==> final(self).store == old(self).store,
            exact_scalar::<T>() && spans(*bounds, old(self).width, old(self).height)
                ==> match edge_completed(
                records_of(old(self).store),
                old(self).beachline.edges[edge_id as int].half_edge_id as int,
                old(self).width,
                old(self).height,
            ) {
                Ok(after) => result is Ok && records_of(final(self).store) == after,
                Err(e) => result == Err::<(), BuildError>(e),
            },
            result is Ok && measured(old(self).width, old(self).height) && spans(
                *bounds,
                old(self).width,
                old(self).height,
            ) && old(self).ledger() ==> final(self).ledger(),
            old(self).all_twinned() ==> final(self).all_twinned(),
    {
        let half_edge_id = self.beachline.edges[edge_id].half_edge_id;
        assert(half_edge_sound(
            self.store.half_edges@,
            half_edge_id as int,
            self.store.faces.len() as nat,
            self.store.vertices.len() as nat,
        ));
        let face_id = self.store.half_edges[half_edge_id].face_id;
        let twin_id = match self.store.half_edges[half_edge_id].twin_id {
            Some(id) => id,
            None => {
                return Err(BuildError::MissingTwin);
            },
        };
        assert(half_edge_sound(
            self.store.half_edges@,
            twin_id as int,
            self.store.faces.len() as nat,
            self.store.vertices.len() as nat,
        ));
        let twin_face_id = self.store.half_edges[twin_id].face_id;
        if self.store.half_edges[half_edge_id].start_id.is_none() {
            let start_id = match self.calc_half_edge_start(bounds, face_id, twin_face_id) {
                Ok(id) => id,
                Err(e) => {
                    return Err(e);
                },
            };
            self.store.set_start(half_edge_id, start_id);
        }
        self.store.set_face_bounds(face_id, None, Some(half_edge_id));
        self.store.set_face_bounds(twin_face_id, Some(twin_id), None);
        proof {
            if measured(old(self).width, old(self).height) && spans(
                *bounds,
                old(self).width,
                old(self).height,
            ) && old(self).ledger() {
                lemma_spans_frames(*bounds, old(self).width, old(self).height);
                let v = old(self).store.vertices@.len() as int;
                if self.store.vertices@.len() > v {
                    assert(self.store.vertices@.subrange(0, v) =~= old(self).store.vertices@);
                    assert forall|u: int| 0 <= u < v implies #[trigger] self.store.vertices[u]
                        == old(self).store.vertices[u] by {
                        assert(self.store.vertices@.subrange(0, v)[u] == self.store.vertices[u]);
                    }
                }
                self.lemma_ledger_grows(old(self));
            }
        }
        proof {
            if exact_scalar::<T>() && spans(*bounds, old(self).width, old(self).height) {
                let after = edge_completed(
                    records_of(old(self).store),
                    half_edge_id as int,
                    old(self).width,
                    old(self).height,
                );
                assert(bounds.corner(0) == frame_corner(0, old(self).width, old(self).height));
                assert(bounds.corner(1) == frame_corner(1, old(self).width, old(self).height));
                assert(bounds.corner(2) == frame_corner(2, old(self).width, old(self).height));
                assert(bounds.corner(3) == frame_corner(3, old(self).width, old(self).height));
                assert(after is Ok);
                assert(records_of(self.store).vertices =~= after->Ok_0.vertices);
                assert(records_of(self.store).half_edges =~= after->Ok_0.half_edges);
                assert(records_of(self.store).faces =~= after->Ok_0.faces);
            }
        }
        Ok(())
    }

    /// Since `before`, the half-edges of the breakpoints that were left on the
    /// beachline were finished, with `result`: nothing changed but the store,
    /// which over exact scalars is left as `edges_completed` says, with the
    /// error that it names. Without a breakpoint nothing changed at all.
    spec fn edges_cut(&self, before: &Self, result: Result<(), BuildError>) -> bool {
        let done = edges_completed(
            &before.beachline,
            records_of(before.store),
            before.beachline.first_edge(),
            before.beachline.edges.len() as nat,
            before.width,
            before.height,
        );
        &&& self.width == before.width
        &&& self.height == before.height
        &&& self.beachline == before.beachline
        &&& self.events == before.events
        &&& before.beachline.first_edge() is None ==> result is Ok && self.store == before.store
        &&& exact_scalar::<T>() ==> records_of(self.store) == done.0 && result == outcome(done.1)
    }

    /// Finishes the half-edges of all breakpoints that are left on the
    /// beachline, from the leftmost breakpoint to the right, and stops at the
    /// first that cannot be finished: the store is left as `edges_completed`
    /// says, with the error that it names.
    fn complete_edges(&mut self) -> (result: Result<(), BuildError>)
        requires
            old(self).inv(),
            total_ops::<T>(),
        ensures
            final(self).inv(),
            final(self).keeps_sites(old(self)),
            final(self).beachline == old(self).beachline,
            final(self).events == old(self).events,
            final(self).store.half_edges@.len() == old(self).store.half_edges@.len(),
            final(self).edges_cut(old(self), result),
            result is Ok && measured(old(self).width, old(self).height) && old(self).ledger()
                ==> final(self).ledger(),
            old(self).all_twinned() ==> final(self).all_twinned(),
    {
        let bounds = BoundingBox::new(make_zero::<T>(), self.width, make_zero::<T>(), self.height);
        let limit = self.beachline.edges.len();
        let mut steps: usize = 0;
        let mut next = self.beachline.find_first_edge_id();
        while next.is_some()
            invariant
                self.inv(),
                self.keeps_sites(old(self)),
                self.beachline == old(self).beachline,
                self.events == old(self).events,
                total_ops::<T>(),
                limit == self.beachline.edges.len(),
                steps <= limit,
                self.store.half_edges@.len() == old(self).store.half_edges@.len(),
                next matches Some(e) ==> e < self.beachline.edges.len(),
                old(self).beachline.first_edge() is None ==> next is None && self.store
                    == old(self).store,
                exact_scalar::<T>() ==> spans(bounds, old(self).width, old(self).height),
                measured(old(self).width, old(self).height) && old(self).ledger() ==> self.ledger(),
                old(self).all_twinned() ==> self.all_twinned(),
                exact_scalar::<T>() ==> edges_completed(
                    &old(self).beachline,
                    records_of(self.store),
                    next,
                    (limit - steps) as nat,
                    old(self).width,
                    old(self).height,
                ) == edges_completed(
                    &old(self).beachline,
                    records_of(old(self).store),
                    old(self).beachline.first_edge(),
                    limit as nat,
                    old(self).width,
                    old(self).height,
                ),
            decreases limit - steps,
        {
            let edge_id = next.unwrap();
            if steps >= limit {
                return Err(BuildError::EndlessBeachline);
            }
            match self.complete_edge(&bounds, edge_id) {
                Ok(()) => {},
                Err(e) => {
                    return Err(e);
                },
            }
            let arc_id = self.beachline.find_next_arc_id(edge_id);
            next = self.beachline.find_next_edge_id(arc_id);
            steps = steps + 1;
        }
        Ok(())
    }

    /// The vertex at which the walk along the rectangle stands before its step
    /// `i`: the vertex in which the ring of the face ends, then the corners that
    /// the walk put, which are the vertices from `first_corner` on.
    spec fn walk_vertex(&self, first_vertex: usize, first_corner: int, i: int) -> Vertex<
        T,
    > {
        if i == 0 {
            self.store.vertices[first_vertex as int]
        } else {
            self.store.vertices[first_corner + i - 1]
        }
    }

    /// Since `before`, the open ring of a face was closed along the rectangle.
    ///
    /// With `start` the half-edge on record as the start of the open ring, the
    /// one that ends on the border, and `end` the one on record as its end, the
    /// store holds between one and five half-edges more, all on the face and
    /// without twins, and one vertex fewer than that. The new half-edges follow
    /// one another; the first follows `start` and starts where `start` ends,
    /// each of the others starts in the corner that was put before it, and
    /// `end` follows the last. The corners are those that `border_step_of` names
    /// one after the other on the walk from the end of `start` to the start of
    /// `end`, and at the last of them the walk has arrived.
    spec fn has_closed_ring(&self, before: &Self, face: int) -> bool {
        let start = before.store.faces[face].start_id;
        let end = before.store.faces[face].end_id;
        let twin = before.store.half_edges[start->Some_0 as int].twin_id;
        let first_vertex = before.store.half_edges[twin->Some_0 as int].start_id;
        let end_vertex = before.store.half_edges[end->Some_0 as int].start_id;
        let base = before.store.half_edges@.len() as int;
        let first_corner = before.store.vertices@.len() as int;
        let n = self.store.half_edges@.len() - base;
        &&& start is Some
        &&& end is Some
        &&& twin is Some
        &&& first_vertex is Some
        &&& end_vertex is Some
        &&& 1 <= n <= 5
        &&& self.store.faces == before.store.faces
        &&& self.store.vertices@.len() == first_corner + n - 1
        &&& self.store.vertices@.subrange(0, first_corner) == before.store.vertices@
        &&& forall|i: int|
            0 <= i < n ==> #[trigger] self.store.half_edges[base + i] == border_half_edge(
                face as usize,
                base,
                first_corner,
                start->Some_0,
                first_vertex->Some_0,
                i,
                Some(
                    if i == n - 1 {
                        end->Some_0
                    } else {
                        (base + i + 1) as usize
                    },
                ),
            )
        &&& forall|e: int|
            0 <= e < base ==> #[trigger] self.store.half_edges[e] == (HalfEdgeBuilder {
                next_id: if e == start->Some_0 {
                    Some(base as usize)
                } else {
                    before.store.half_edges[e].next_id
                },
                prev_id: if e == end->Some_0 {
                    Some((base + n - 1) as usize)
                } else {
                    before.store.half_edges[e].prev_id
                },
                ..before.store.half_edges[e]
            })
        &&& exact_scalar::<T>() ==> {
            let target = before.store.vertices[end_vertex->Some_0 as int];
            &&& forall|i: int|
                0 <= i < n - 1 ==> border_step_of(
                    self.walk_vertex(first_vertex->Some_0, first_corner, i).x,
                    self.walk_vertex(first_vertex->Some_0, first_corner, i).y,
                    target.x,
                    target.y,
                    self.width,
                    self.height,
                ) == BorderStep::Corner(
                    (#[trigger] self.store.vertices[first_corner + i]).x,
                    self.store.vertices[first_corner + i].y,
                )
            &&& border_step_of(
                self.walk_vertex(first_vertex->Some_0, first_corner, n - 1).x,
                self.walk_vertex(first_vertex->Some_0, first_corner, n - 1).y,
                target.x,
                target.y,
                self.width,
                self.height,
            ) == BorderStep::<T>::Arrived
        }
    }

    /// What the records of the open ring of a face lack, if anything: the
    /// half-edge on record as its start, the twin of that half-edge, the start
    /// vertex of the twin, the half-edge on record as its end, or the start
    /// vertex of that.
    spec fn ring_defect(&self, face: int) -> Option<BuildError> {
        let start = self.store.faces[face].start_id;
        let end = self.store.faces[face].end_id;
        let twin = self.store.half_edges[start->Some_0 as int].twin_id;
        if start is None {
            Some(BuildError::MissingBoundsStart)
        } else if twin is None {
            Some(BuildError::MissingTwin)
        } else if self.store.half_edges[twin->Some_0 as int].start_id is None {
            Some(BuildError::MissingStart)
        } else if end is None {
            Some(BuildError::MissingBoundsEnd)
        } else if self.store.half_edges[end->Some_0 as int].start_id is None {
            Some(BuildError::MissingStart)
        } else {
            None
        }
    }

    /// What stands against closing the open ring of a face, if anything.
    ///
    /// The records of the ring must be there. The walk must not be astray
    /// where it starts. The half-edge on record as the start of the ring must
    /// lie on the face and have no successor. The walk must arrive after four
    /// corners at most. The half-edge on record as the end of the ring must lie
    /// on the face and have no predecessor.
    spec fn closing_defect(&self, face: int) -> Option<BuildError> {
        let start = self.store.half_edges[self.store.faces[face].start_id->Some_0 as int];
        let end = self.store.half_edges[self.store.faces[face].end_id->Some_0 as int];
        let twin = self.store.half_edges[start.twin_id->Some_0 as int];
        let from = self.store.vertices[twin.start_id->Some_0 as int];
        let to = self.store.vertices[end.start_id->Some_0 as int];
        if self.ring_defect(face) is Some {
            self.ring_defect(face)
        } else if border_step_of(from.x, from.y, to.x, to.y, self.width, self.height) is Astray {
            Some(BuildError::OffBoundary)
        } else if start.face_id != face {
            Some(BuildError::DifferentFaces)
        } else if start.next_id is Some {
            Some(BuildError::FirstConnected)
        } else if !walk_arrives(from.x, from.y, to.x, to.y, self.width, self.height, 4) {
            Some(BuildError::OffBoundary)
        } else if end.face_id != face {
            Some(BuildError::DifferentFaces)
        } else if end.prev_id is Some {
            Some(BuildError::SecondConnected)
        } else {
            None
        }
    }

    /// Closes the open ring of a face along the bounding rectangle.
    ///
    /// The walk starts at the vertex in which the ring ends, which is where the
    /// twin of the half-edge `start_id` of the face starts, and follows the
    /// rectangle clockwise to the vertex in which the ring begins, the start of
    /// the half-edge `end_id`. As `border_step` directs, it puts a half-edge
    /// on every side that it passes and a vertex in every corner that it turns,
    /// and joins each half-edge to the one before it, the first to `start_id`
    /// and the last to `end_id`. A walk that turns four corners without arriving
    /// has gone astray. The ring is closed unless `closing_defect` names an
    /// error, which is then returned.
    fn complete_face_bounds(&mut self, face_id: usize) -> (result: Result<(), BuildError>)
        requires
            old(self).inv(),
            face_id < old(self).store.faces.len(),
            total_ops::<T>(),
        ensures
            final(self).inv(),
            final(self).keeps_sites(old(self)),
            final(self).beachline == old(self).beachline,
            final(self).events == old(self).events,
            result is Ok ==> final(self).has_closed_ring(old(self), face_id as int),
            old(self).store.faces[face_id as int].start_id is None ==> result == Err::<
                (),
                BuildError,
            >(BuildError::MissingBoundsStart),
            old(self).ring_defect(face_id as int) is Some ==> result == outcome(
                old(self).ring_defect(face_id as int),
            ),
            exact_scalar::<T>() ==> result == outcome(old(self).closing_defect(face_id as int)),
            result is Ok && measured(old(self).width, old(self).height) && old(self).ledger()
                ==> final(self).ledger(),
            result is Ok && measured(old(self).width, old(self).height) && old(self).rim()
                ==> final(self).rim(),
    {
        assert(face_sound(self.store.faces@, face_id as int, self.store.half_edges@));
        let start_half_edge_id = match self.store.faces[face_id].start_id {
            Some(id) => id,
            None => {
                return Err(BuildError::MissingBoundsStart);
            },
        };
        assert(half_edge_sound(
            self.store.half_edges@,
            start_half_edge_id as int,
            self.store.faces.len() as nat,
            self.store.vertices.len() as nat,
        ));
        let twin_id = match self.store.half_edges[start_half_edge_id].twin_id {
            Some(id) => id,
            None => {
                return Err(BuildError::MissingTwin);
            },
        };
        assert(half_edge_sound(
            self.store.half_edges@,
            twin_id as int,
            self.store.faces.len() as nat,
            self.store.vertices.len() as nat,
        ));
        let first_vertex_id = match self.store.half_edges[twin_id].start_id {
            Some(id) => id,
            None => {
                return Err(BuildError::MissingStart);
            },
        };
        let end_half_edge_id = match self.store.faces[face_id].end_id {
            Some(id) => id,
            None => {
                return Err(BuildError::MissingBoundsEnd);
            },
        };
        assert(half_edge_sound(
            self.store.half_edges@,
            end_half_edge_id as int,
            self.store.faces.len() as nat,
            self.store.vertices.len() as nat,
        ));
        let end_vertex_id = match self.store.half_edges[end_half_edge_id].start_id {
            Some(id) => id,
            None => {
                return Err(BuildError::MissingStart);
            },
        };
        let end_x = self.store.vertices[end_vertex_id].x;
        let end_y = self.store.vertices[end_vertex_id].y;
        let ghost base = self.store.half_edges@.len() as int;
        let ghost first_corner = self.store.vertices@.len() as int;
        let mut cur_half_edge_id = start_half_edge_id;
        let mut cur_vertex_id = first_vertex_id;
        let mut cur_x = self.store.vertices[cur_vertex_id].x;
        let mut cur_y = self.store.vertices[cur_vertex_id].y;
        let mut corners: usize = 0;
        loop
            invariant
                self.inv(),
                self.keeps_sites(old(self)),
                self.beachline == old(self).beachline,
                self.events == old(self).events,
                self.width == old(self).width,
                self.height == old(self).height,
                self.store.faces == old(self).store.faces,
                face_id < self.store.faces.len(),
                base == old(self).store.half_edges@.len(),
                first_corner == old(self).store.vertices@.len(),
                start_half_edge_id < base,
                end_half_edge_id < base,
                twin_id < base,
                old(self).store.faces[face_id as int].start_id == Some(start_half_edge_id),
                old(self).store.faces[face_id as int].end_id == Some(end_half_edge_id),
                old(self).store.half_edges[start_half_edge_id as int].twin_id == Some(twin_id),
                old(self).store.half_edges[twin_id as int].start_id == Some(first_vertex_id),
                old(self).store.half_edges[end_half_edge_id as int].start_id == Some(end_vertex_id),
                first_vertex_id < first_corner,
                end_vertex_id < first_corner,
                end_x == old(self).store.vertices[end_vertex_id as int].x,
                end_y == old(self).store.vertices[end_vertex_id as int].y,
                corners <= 4,
                self.store.half_edges@.len() == base + corners,
                self.store.vertices@.len() == first_corner + corners,
                self.store.vertices@.subrange(0, first_corner) == old(self).store.vertices@,
                cur_half_edge_id == if corners == 0 {
                    start_half_edge_id
                } else {
                    (base + corners - 1) as usize
                },
                cur_vertex_id == if corners == 0 {
                    first_vertex_id
                } else {
                    (first_corner + corners - 1) as usize
                },
                cur_x == self.walk_vertex(first_vertex_id, first_corner, corners as int).x,
                cur_y == self.walk_vertex(first_vertex_id, first_corner, corners as int).y,
                old(self).ring_defect(face_id as int) is None,
                measured(old(self).width, old(self).height) && old(self).ledger() ==> self.ledger(),
                measured(old(self).width, old(self).height) && old(self).rim() ==> self.rim(),
                corners > 0 ==> old(self).store.half_edges[start_half_edge_id as int].face_id
                    == face_id && old(self).store.half_edges[start_half_edge_id as int].next_id
                    is None,
                exact_scalar::<T>() && corners > 0 ==> !(border_step_of(
                    old(self).store.vertices[first_vertex_id as int].x,
                    old(self).store.vertices[first_vertex_id as int].y,
                    end_x,
                    end_y,
                    self.width,
                    self.height,
                ) is Astray),
                exact_scalar::<T>() ==> walk_arrives(
                    old(self).store.vertices[first_vertex_id as int].x,
                    old(self).store.vertices[first_vertex_id as int].y,
                    end_x,
                    end_y,
                    self.width,
                    self.height,
                    4,
                ) == walk_arrives(
                    cur_x,
                    cur_y,
                    end_x,
                    end_y,
                    self.width,
                    self.height,
                    (4 - corners) as nat,
                ),
                corners == 0 ==> cur_x == old(self).store.vertices[first_vertex_id as int].x
                    && cur_y == old(self).store.vertices[first_vertex_id as int].y,
                forall|i: int|
                    0 <= i < corners ==> #[trigger] self.store.half_edges[base + i]
                        == border_half_edge(
                        face_id,
                        base,
                        first_corner,
                        start_half_edge_id,
                        first_vertex_id,
                        i,
                        if i == corners - 1 {
                            None
                        } else {
                            Some((base + i + 1) as usize)
                        },
                    ),
                forall|e: int|
                    0 <= e < base ==> #[trigger] self.store.half_edges[e] == (HalfEdgeBuilder {
                        next_id: if e == start_half_edge_id && corners > 0 {
                            Some(base as usize)
                        } else {
                            old(self).store.half_edges[e].next_id
                        },
                        ..old(self).store.half_edges[e]
                    }),
                exact_scalar::<T>() ==> forall|i: int|
                    0 <= i < corners ==> border_step_of(
                        self.walk_vertex(first_vertex_id, first_corner, i).x,
                        self.walk_vertex(first_vertex_id, first_corner, i).y,
                        end_x,
                        end_y,
                        self.width,
                        self.height,
                    ) == BorderStep::Corner(
                        (#[trigger] self.store.vertices[first_corner + i]).x,
                        self.store.vertices[first_corner + i].y,
                    ),
            ensures
                measured(old(self).width, old(self).height) && old(self).ledger() ==> self.ledger(),
                measured(old(self).width, old(self).height) && old(self).rim() ==> self.rim(),
                exact_scalar::<T>() ==> border_step_of(
                    cur_x,
                    cur_y,
                    end_x,
                    end_y,
                    self.width,
                    self.height,
                ) == BorderStep::<T>::Arrived,
                exact_scalar::<T>() ==> walk_arrives(
                    old(self).store.vertices[first_vertex_id as int].x,
                    old(self).store.vertices[first_vertex_id as int].y,
                    end_x,
                    end_y,
                    self.width,
                    self.height,
                    4,
                ),
            decreases 4 - corners,
        {
            let (next_x, next_y) = match border_step(
                cur_x,
                cur_y,
                end_x,
                end_y,
                self.width,
                self.height,
            ) {
                BorderStep::Arrived => {
                    break ;
                },
                BorderStep::Corner(x, y) => (x, y),
                BorderStep::Astray => {
                    return Err(BuildError::OffBoundary);
                },
            };
            if corners >= 4 {
                return Err(BuildError::OffBoundary);
            }
            let ghost walked = *self;
            let next_half_edge_id = self.store.create_half_edge(face_id, Some(cur_vertex_id));
            proof {
                if corners > 0 {
                    assert(walked.store.half_edges[base + (corners - 1)] == border_half_edge(
                        face_id,
                        base,
                        first_corner,
                        start_half_edge_id,
                        first_vertex_id,
                        corners - 1,
                        None,
                    ));
                    assert(self.store.connect_defect(
                        cur_half_edge_id as int,
                        next_half_edge_id as int,
                    ) is None);
                } else {
                    assert(walked.store.half_edges[start_half_edge_id as int] == old(
                        self,
                    ).store.half_edges[start_half_edge_id as int]);
                }
            }
            match self.store.find_connect_defect(cur_half_edge_id, next_half_edge_id) {
                None => {},
                Some(e) => {
                    return Err(e);
                },
            }
            self.store.connect_half_edges(cur_half_edge_id, next_half_edge_id);
            cur_vertex_id = self.store.create_vertex(next_x, next_y);
            proof {
                if measured(old(self).width, old(self).height) && old(self).rim() {
                    if corners > 0 {
                        let p = walked.walk_vertex(first_vertex_id, first_corner, corners - 1);
                        let q = walked.store.vertices[first_corner + (corners - 1)];
                        lemma_corner_on_side(p, q, end_x, end_y, self.width, self.height);
                        assert(self.store.vertices[first_corner + (corners - 1)] == q);
                        assert(self.runs_along(cur_half_edge_id as int));
                    } else {
                        assert(self.runs_along(cur_half_edge_id as int));
                    }
                    self.lemma_rim_grows(&walked, cur_half_edge_id as int);
                }
            }
            proof {
                if measured(old(self).width, old(self).height) && old(self).ledger() {
                    lemma_corners_on_border(self.width, self.height);
                    assert(on_border(point(next_x, next_y), self.width, self.height));
                    self.lemma_ledger_grows(&walked);
                }
            }
            proof {
                assert(self.store.vertices@.subrange(0, first_corner) =~= old(self).store.vertices@) by {
                    assert(walked.store.vertices@.subrange(0, first_corner) == old(self).store.vertices@);
                    assert forall|j: int| 0 <= j < first_corner implies self.store.vertices@[j]
                        == old(self).store.vertices@[j] by {
                        assert(walked.store.vertices@.subrange(0, first_corner)[j]
                            == walked.store.vertices@[j]);
                    }
                }
                assert forall|i: int| 0 <= i <= corners implies self.walk_vertex(
                    first_vertex_id,
                    first_corner,
                    i,
                ) == walked.walk_vertex(first_vertex_id, first_corner, i) by {}
                assert forall|i: int| 0 <= i < corners + 1 implies #[trigger] self.store.half_edges[base
                    + i] == border_half_edge(
                    face_id,
                    base,
                    first_corner,
                    start_half_edge_id,
                    first_vertex_id,
                    i,
                    if i == corners {
                        None
                    } else {
                        Some((base + i + 1) as usize)
                    },
                ) by {
                    if i < corners {
                        assert(walked.store.half_edges[base + i] == border_half_edge(
                            face_id,
                            base,
                            first_corner,
                            start_half_edge_id,
                            first_vertex_id,
                            i,
                            if i == corners - 1 {
                                None
                            } else {
                                Some((base + i + 1) as usize)
                            },
                        ));
                    }
                }
                assert forall|e: int| 0 <= e < base implies #[trigger] self.store.half_edges[e]
                    == (HalfEdgeBuilder {
                    next_id: if e == start_half_edge_id {
                        Some(base as usize)
                    } else {
                        old(self).store.half_edges[e].next_id
                    },
                    ..old(self).store.half_edges[e]
                }) by {
                    assert(walked.store.half_edges[e] == (HalfEdgeBuilder {
                        next_id: if e == start_half_edge_id && corners > 0 {
                            Some(base as usize)
                        } else {
                            old(self).store.half_edges[e].next_id
                        },
                        ..old(self).store.half_edges[e]
                    }));
                }
                if exact_scalar::<T>() {
                    assert forall|i: int| 0 <= i < corners + 1 implies border_step_of(
                        self.walk_vertex(first_vertex_id, first_corner, i).x,
                        self.walk_vertex(first_vertex_id, first_corner, i).y,
                        end_x,
                        end_y,
                        self.width,
                        self.height,
                    ) == BorderStep::Corner(
                        (#[trigger] self.store.vertices[first_corner + i]).x,
                        self.store.vertices[first_corner + i].y,
                    ) by {
                        if i < corners {
                            assert(self.store.vertices[first_corner + i]
                                == walked.store.vertices[first_corner + i]);
                        }
                    }
                }
            }
            cur_half_edge_id = next_half_edge_id;
            cur_x = next_x;
            cur_y = next_y;
            corners = corners + 1;
        }
        let ghost walked = *self;
        let next_half_edge_id = self.store.create_half_edge(face_id, Some(cur_vertex_id));
        proof {
            assert(walked.store.half_edges[end_half_edge_id as int].prev_id == old(
                self,
            ).store.half_edges[end_half_edge_id as int].prev_id);
            assert(walked.store.half_edges[end_half_edge_id as int].face_id == old(
                self,
            ).store.half_edges[end_half_edge_id as int].face_id);
            if corners > 0 {
                assert(walked.store.half_edges[base + (corners - 1)] == border_half_edge(
                    face_id,
                    base,
                    first_corner,
                    start_half_edge_id,
                    first_vertex_id,
                    corners - 1,
                    None,
                ));
                assert(self.store.connect_defect(
                    cur_half_edge_id as int,
                    next_half_edge_id as int,
                ) is None);
            } else {
                assert(walked.store.half_edges[start_half_edge_id as int] == old(
                    self,
                ).store.half_edges[start_half_edge_id as int]);
            }
        }
        match self.store.find_connect_defect(cur_half_edge_id, next_half_edge_id) {
            None => {},
            Some(e) => {
                return Err(e);
            },
        }
        self.store.connect_half_edges(cur_half_edge_id, next_half_edge_id);
        let ghost joined = *self;
        let result: Result<(), BuildError> = match self.store.find_connect_defect(
            next_half_edge_id,
            end_half_edge_id,
        ) {
            None => {
                self.store.connect_half_edges(next_half_edge_id, end_half_edge_id);
                Ok(())
            },
            Some(e) => Err(e),
        };
        proof {
            if result is Ok && measured(old(self).width, old(self).height) && old(self).ledger() {
                self.lemma_ledger_grows(&walked);
            }
        }
        proof {
            if result is Ok && measured(old(self).width, old(self).height) && old(self).rim() {
                if corners > 0 {
                    let p = walked.walk_vertex(first_vertex_id, first_corner, corners - 1);
                    let q = walked.store.vertices[first_corner + (corners - 1)];
                    lemma_corner_on_side(p, q, end_x, end_y, self.width, self.height);
                }
                lemma_arrival_on_side(
                    walked.store.vertices[cur_vertex_id as int],
                    walked.store.vertices[end_vertex_id as int],
                    self.width,
                    self.height,
                );
                assert(self.runs_along(cur_half_edge_id as int));
                assert(self.runs_along(next_half_edge_id as int));
                self.lemma_rim_grows(&walked, cur_half_edge_id as int);
            }
        }
        proof {
            assert(joined.store.half_edges[end_half_edge_id as int].prev_id == old(
                self,
            ).store.half_edges[end_half_edge_id as int].prev_id);
            assert(joined.store.half_edges[end_half_edge_id as int].face_id == old(
                self,
            ).store.half_edges[end_half_edge_id as int].face_id);
            assert(joined.store.half_edges[next_half_edge_id as int].face_id == face_id);
            assert(joined.store.half_edges[next_half_edge_id as int].next_id is None);
            assert(result is Ok <==> joined.store.connect_defect(
                next_half_edge_id as int,
                end_half_edge_id as int,
            ) is None);
            if exact_scalar::<T>() {
                assert(result is Ok <==> old(self).closing_defect(face_id as int) is None);
                assert(result matches Err(e) ==> old(self).closing_defect(face_id as int) == Some(
                    e,
                ));
            }
        }
        proof {
            if result is Ok {
                let n = corners + 1;
                assert forall|i: int| 0 <= i < n implies #[trigger] self.store.half_edges[base + i]
                    == border_half_edge(
                    face_id,
                    base,
                    first_corner,
                    start_half_edge_id,
                    first_vertex_id,
                    i,
                    Some(
                        if i == n - 1 {
                            end_half_edge_id
                        } else {
                            (base + i + 1) as usize
                        },
                    ),
                ) by {
                    if i < corners {
                        assert(walked.store.half_edges[base + i] == border_half_edge(
                            face_id,
                            base,
                            first_corner,
                            start_half_edge_id,
                            first_vertex_id,
                            i,
                            if i == corners - 1 {
                                None
                            } else {
                                Some((base + i + 1) as usize)
                            },
                        ));
                    }
                }
                assert forall|e: int| 0 <= e < base implies #[trigger] self.store.half_edges[e]
                    == (HalfEdgeBuilder {
                    next_id: if e == start_half_edge_id {
                        Some(base as usize)
                    } else {
                        old(self).store.half_edges[e].next_id
                    },
                    prev_id: if e == end_half_edge_id {
                        Some((base + n - 1) as usize)
                    } else {
                        old(self).store.half_edges[e].prev_id
                    },
                    ..old(self).store.half_edges[e]
                }) by {
                    assert(walked.store.half_edges[e] == (HalfEdgeBuilder {
                        next_id: if e == start_half_edge_id && corners > 0 {
                            Some(base as usize)
                        } else {
                            old(self).store.half_edges[e].next_id
                        },
                        ..old(self).store.half_edges[e]
                    }));
                }
                assert(self.store.vertices == walked.store.vertices);
                assert(self.has_closed_ring(old(self), face_id as int));
            }
        }
        match result {
            Ok(()) => Ok(()),
            Err(e) => Err(e),
        }
    }

    /// Since `before`, the face was dealt with: its open ring was closed, or
    /// nothing changed where it has no open end on record.
    spec fn ring_step(&self, before: &Self, face: int) -> bool {
        if before.store.faces[face].start_id is None && before.store.faces[face].end_id is None {
            *self == *before
        } else {
            self.has_closed_ring(before, face)
        }
    }

    /// Since `before`, the faces were dealt with one after the other, in the
    /// order of their ids, with `states` the builder before each of them and
    /// after the last that was dealt with.
    ///
    /// On success every face was dealt with, and the last state is this one. On
    /// failure the face after the last that was dealt with has an open end on
    /// record, and its ring cannot be closed in the last state: the error is
    /// the one that `closing_defect` names there.
    spec fn rings_closed(
        &self,
        before: &Self,
        states: Seq<Builder<T>>,
        result: Result<(), BuildError>,
    ) -> bool {
        let done = states.len() - 1;
        &&& 0 <= done <= before.store.faces@.len()
        &&& states[0] == *before
        &&& forall|f: int| 0 <= f < done ==> (#[trigger] states[f + 1]).ring_step(&states[f], f)
        &&& match result {
            Ok(_) => done == before.store.faces@.len() && states[done] == *self,
            Err(e) => {
                &&& done < before.store.faces@.len()
                &&& !(states[done].store.faces[done].start_id is None
                    && states[done].store.faces[done].end_id is None)
                &&& states[done].ring_defect(done) is Some ==> states[done].ring_defect(done)
                    == Some(e)
                &&& exact_scalar::<T>() ==> states[done].closing_defect(done) == Some(e)
            },
        }
    }

    /// Since `before`, the faces were closed against the rectangle, with
    /// `result`: nothing changed but the store. Where the beachline is empty the
    /// store is as it was; where it is a single arc, the face of the arc has the
    /// frame of the whole rectangle as its ring; else the open rings were closed
    /// face by face, as `rings_closed` says.
    spec fn faces_bound(&self, before: &Self, result: Result<(), BuildError>) -> bool {
        &&& self.width == before.width
        &&& self.height == before.height
        &&& self.beachline == before.beachline
        &&& self.events == before.events
        &&& match before.beachline.root {
            None => result is Ok && self.store == before.store,
            Some(NodeId::Arc(a)) => result is Ok && self.framed(
                before,
                before.beachline.arcs[a as int].face_id,
            ),
            Some(NodeId::Edge(_)) => exists|states: Seq<Builder<T>>|
                #[trigger] self.rings_closed(before, states, result),
        }
    }

    /// Since `before`, the open half-edges were cut off at the rectangle, which
    /// left the builder as `edges_cut` says, and where that went well, the
    /// faces were closed as `faces_bound` says.
    #[verifier::opaque]
    spec fn closed_from(&self, before: &Self, result: Result<(), BuildError>) -> bool {
        ||| result is Err && self.edges_cut(before, result)
        ||| exists|clipped: Builder<T>|
            #[trigger] clipped.edges_cut(before, Ok::<(), BuildError>(())) && self.faces_bound(
                &clipped,
                result,
            )
    }

    /// Closes the faces against the bounding rectangle.
    ///
    /// Where the beachline is empty there is nothing to close. Where it is a
    /// single arc, its face is the whole rectangle: four vertices are put in
    /// the corners, and four half-edges without twins run from the top left
    /// corner along the top, the right, the bottom and the left side; the face
    /// starts at the one on the top. Else the ring of every face that has an
    /// open end on record is closed as `complete_face_bounds` says, the faces
    /// taken in the order of their ids, up to the first whose ring cannot be
    /// closed.
    #[verifier::rlimit(60)]
    fn bound(&mut self) -> (result: Result<(), BuildError>)
        requires
            old(self).inv(),
            total_ops::<T>(),
        ensures
            final(self).inv(),
            final(self).keeps_sites(old(self)),
            final(self).beachline == old(self).beachline,
            final(self).events == old(self).events,
            final(self).faces_bound(old(self), result),
            result is Ok && measured(old(self).width, old(self).height) && old(self).ledger()
                ==> final(self).ledger(),
            result is Ok && measured(old(self).width, old(self).height) && old(self).all_twinned()
                ==> final(self).rim(),
    {
        proof {
            if self.all_twinned() {
                assert forall|e: int|
                    0 <= e < self.store.half_edges@.len() implies #[trigger] self.runs_along(e) by {
                    assert(self.store.half_edges[e].twin_id is Some);
                }
            }
        }
        match self.beachline.root {
            None => Ok(()),
            Some(NodeId::Arc(arc_id)) => {
                let face_id = self.beachline.arcs[arc_id].face_id;
                let zero_value = make_zero::<T>();
                let top_left_id = self.store.create_vertex(zero_value, zero_value);
                let top_right_id = self.store.create_vertex(self.width, zero_value);
                let bottom_right_id = self.store.create_vertex(self.width, self.height);
                let bottom_left_id = self.store.create_vertex(zero_value, self.height);
                let top_id = self.store.create_half_edge(face_id, Some(top_left_id));
                let right_id = self.store.create_half_edge(face_id, Some(top_right_id));
                let bottom_id = self.store.create_half_edge(face_id, Some(bottom_right_id));
                let left_id = self.store.create_half_edge(face_id, Some(bottom_left_id));
                self.store.connect_half_edges(top_id, right_id);
                self.store.connect_half_edges(right_id, bottom_id);
                self.store.connect_half_edges(bottom_id, left_id);
                self.store.connect_half_edges(left_id, top_id);
                self.store.set_face_half_edge(face_id, top_id, false);
                proof {
                    let base = old(self).store.half_edges@.len() as int;
                    assert(self.store.half_edges@ =~= old(self).store.half_edges@ + frame_half_edges(
                        base as usize,
                        old(self).store.vertices@.len() as usize,
                        face_id,
                    ));
                    assert(self.store.vertices@ =~= old(self).store.vertices@ + frame_vertices(
                        old(self).store.vertices@.len() as usize,
                        zero_value,
                        self.width,
                        self.height,
                    ));
                    if measured(old(self).width, old(self).height) && old(self).ledger() {
                        lemma_corners_on_border(self.width, self.height);
                        assert(self.keeps_sites(old(self)));
                        self.lemma_ledger_grows(old(self));
                    }
                    if measured(old(self).width, old(self).height) && old(self).all_twinned() {
                        assert forall|e: int|
                            base <= e < self.store.half_edges@.len() implies #[trigger] self.runs_along(
                            e,
                        ) by {
                            assert(self.store.half_edges[e] == frame_half_edges(
                                base as usize,
                                old(self).store.vertices@.len() as usize,
                                face_id,
                            )[e - base]);
                        }
                        self.lemma_rim_grows(old(self), -1);
                    }
                }
                Ok(())
            },
            Some(NodeId::Edge(_)) => {
                let n = self.store.faces.len();
                let mut id: usize = 0;
                let ghost mut states: Seq<Builder<T>> = seq![*self];
                while id < n
                    invariant
                        self.inv(),
                        self.keeps_sites(old(self)),
                        self.beachline == old(self).beachline,
                        self.events == old(self).events,
                        total_ops::<T>(),
                        old(self).beachline.root matches Some(NodeId::Edge(_)),
                        measured(old(self).width, old(self).height) && old(self).ledger()
                            ==> self.ledger(),
                        measured(old(self).width, old(self).height) && old(self).all_twinned()
                            ==> self.rim(),
                        n == self.store.faces.len(),
                        n == old(self).store.faces.len(),
                        id <= n,
                        states.len() == id + 1,
                        states[0] == *old(self),
                        states[id as int] == *self,
                        forall|f: int|
                            0 <= f < id ==> (#[trigger] states[f + 1]).ring_step(&states[f], f),
                    decreases n - id,
                {
                    if !self.store.faces[id].has_complete_bounds() {
                        match self.complete_face_bounds(id) {
                            Ok(()) => {},
                            Err(e) => {
                                proof {
                                    assert(self.rings_closed(
                                        old(self),
                                        states,
                                        Err::<(), BuildError>(e),
                                    ));
                                }
                                return Err(e);
                            },
                        }
                    }
                    proof {
                        let ghost earlier = states;
                        states = states.push(*self);
                        assert(states[id + 1].ring_step(&states[id as int], id as int));
                        assert forall|f: int| 0 <= f < id + 1 implies (#[trigger] states[f
                            + 1]).ring_step(&states[f], f) by {
                            if f < id {
                                assert(earlier[f + 1].ring_step(&earlier[f], f));
                            }
                        }
                    }
                    id = id + 1;
                }
                proof {
                    assert(self.rings_closed(old(self), states, Ok::<(), BuildError>(())));
                }
                Ok(())
            },
        }
    }

    /// Since `before`, the store gained the frame of the whole rectangle as the
    /// ring of the face `face_id`, and nothing else changed in it.
    spec fn framed(&self, before: &Self, face_id: usize) -> bool {
        &&& exists|zero_value: T|
            {
                &&& call_ensures(T::default, (), zero_value)
                &&& #[trigger] self.store.vertices@ == before.store.vertices@ + frame_vertices(
                    before.store.vertices@.len() as usize,
                    zero_value,
                    self.width,
                    self.height,
                )
            }
        &&& self.store.half_edges@ == before.store.half_edges@ + frame_half_edges(
            before.store.half_edges@.len() as usize,
            before.store.vertices@.len() as usize,
            face_id,
        )
        &&& self.store.faces@ == before.store.faces@.update(
            face_id as int,
            FaceBuilder {
                half_edge_id: Some(before.store.half_edges@.len() as usize),
                ..before.store.faces[face_id as int]
            },
        )
    }

    /// Empties the builder: no sites, no events, no beachline.
    fn reset(&mut self)
        ensures
            final(self).wf(),
            final(self).sites().len() == 0,
            final(self).width == old(self).width,
            final(self).height == old(self).height,
    {
        reveal(Builder::wf);
        self.store = DcelStore::new();
        self.beachline = Beachline::new();
        self.events = EventQueue::new();
    }

    /// The store holds one face, framed by the whole rectangle, and nothing
    /// else.
    spec fn single_frame(&self, site: (T, T)) -> bool {
        &&& exists|zero_value: T|
            {
                &&& call_ensures(T::default, (), zero_value)
                &&& #[trigger] self.store.vertices@ == frame_vertices(
                    0,
                    zero_value,
                    self.width,
                    self.height,
                )
            }
        &&& self.store.half_edges@ == frame_half_edges(0, 0, 0)
        &&& self.store.faces@ == seq![
            FaceBuilder {
                id: 0,
                x: site.0,
                y: site.1,
                half_edge_id: Some(0usize),
                start_id: None,
                end_id: None,
            },
        ]
    }

    /// The store holds one blank face and nothing else, and the beachline is
    /// the arc of that face.
    #[verifier::opaque]
    spec fn swept_single(&self, site: (T, T)) -> bool {
        &&& self.store.vertices@.len() == 0
        &&& self.store.half_edges@.len() == 0
        &&& self.store.faces@ == seq![blank_face(0, site)]
        &&& self.beachline.root == Some(NodeId::Arc(0))
        &&& self.beachline.arcs@.len() == 1
        &&& self.beachline.arcs[0].face_id == 0
    }

    /// The store and the beachline are empty.
    #[verifier::opaque]
    spec fn swept_empty(&self) -> bool {
        &&& self.store.vertices@.len() == 0
        &&& self.store.half_edges@.len() == 0
        &&& self.store.faces@.len() == 0
        &&& self.beachline.root is None
    }

    /// Since `before`, the queue was seeded with the site events, and nothing
    /// else changed.
    spec fn seeded_from(&self, before: &Self) -> bool {
        &&& self.width == before.width
        &&& self.height == before.height
        &&& self.store == before.store
        &&& self.beachline == before.beachline
        &&& self.events.pending_events() == before.site_event_list()
    }

    /// Since `before`, the queue was seeded, which left `seeded`, and the
    /// events were handed out and handled as `events_handled` says.
    #[verifier::opaque]
    spec fn swept_from<F: Fn(T) -> T>(
        &self,
        before: &Self,
        seeded: &Self,
        states: Seq<Builder<T>>,
        sqrt: &F,
        result: Result<(), BuildError>,
    ) -> bool {
        seeded.seeded_from(before) && self.events_handled(seeded, states, sqrt, result)
    }

    /// Seeds the queue and hands the events out.
    fn sweep<F: Fn(T) -> T>(&mut self, sqrt: &F) -> (result: Result<(), BuildError>)
        requires
            old(self).wf(),
            total_ops::<T>(),
            total_fn(sqrt),
        ensures
            final(self).inv(),
            final(self).keeps_sites(old(self)),
            old(self).sites().len() == 0 ==> result is Ok && final(self).swept_empty(),
            old(self).sites().len() == 1 ==> result is Ok && final(self).swept_single(
                old(self).sites()[0],
            ),
            exists|seeded: Builder<T>, states: Seq<Builder<T>>|
                #[trigger] final(self).swept_from(old(self), &seeded, states, sqrt, result),
            result is Ok && exact_scalar::<T>() ==> final(self).ledger(),
            result is Ok ==> final(self).all_twinned(),
    {
        reveal(Builder::wf);
        reveal(Builder::swept_single);
        reveal(Builder::swept_empty);
        reveal(Builder::swept_from);
        self.create_events();
        proof {
            if old(self).sites().len() == 1 {
                assert(self.events.pending_events().len() == 1);
                assert(self.events.pending_events()[0] == old(self).site_event_list()[0]);
                assert(self.before_first_site(0));
            }
            if old(self).sites().len() == 0 {
                assert(self.events.pending_events().len() == 0);
            }
        }
        let ghost seeded = *self;
        let result = self.handle_events(sqrt);
        proof {
            let states = choose|states: Seq<Builder<T>>|
                #[trigger] self.events_handled(&seeded, states, sqrt, result);
            assert(self.swept_from(old(self), &seeded, states, sqrt, result));
            if old(self).sites().len() == 1 {
                assert(self.after_first_site(&seeded, 0));
                assert(old(self).store.faces[0] == blank_face(0, old(self).sites()[0]));
                assert(self.store.faces@ =~= seq![blank_face(0, old(self).sites()[0])]);
            }
        }
        result
    }

    /// The store is complete and holds the frame of the rectangle around one
    /// face.
    #[verifier::opaque]
    spec fn closed_single(&self, site: (T, T)) -> bool {
        &&& self.single_frame(site)
        &&& self.store.complete()
        &&& self.store.finished_half_edges() == frame_ring(0)
        &&& self.store.finished_faces() == seq![
            Face { id: 0, x: site.0, y: site.1, start_id: 0usize },
        ]
    }

    /// Cuts the open half-edges off at the rectangle and closes the faces.
    fn close(&mut self, Ghost(site): Ghost<(T, T)>) -> (result: Result<(), BuildError>)
        requires
            old(self).inv(),
            total_ops::<T>(),
        ensures
            final(self).inv(),
            final(self).keeps_sites(old(self)),
            old(self).swept_empty() ==> result is Ok && final(self).swept_empty(),
            old(self).swept_single(site) ==> result is Ok && final(self).closed_single(site),
            final(self).closed_from(old(self), result),
            result is Ok && measured(old(self).width, old(self).height) && old(self).ledger()
                ==> final(self).ledger(),
            result is Ok && measured(old(self).width, old(self).height) && old(self).all_twinned()
                ==> final(self).rim(),
    {
        reveal(Builder::swept_single);
        reveal(Builder::swept_empty);
        reveal(Builder::closed_single);
        reveal(Builder::closed_from);
        let result = match self.complete_edges() {
            Ok(()) => {
                let ghost clipped = *self;
                let bounded = self.bound();
                proof {
                    assert(clipped.edges_cut(old(self), Ok::<(), BuildError>(())));
                    assert(self.closed_from(old(self), bounded));
                }
                bounded
            },
            Err(e) => Err(e),
        };
        proof {
            if old(self).swept_single(site) {
                self.lemma_single_frame(old(self), site);
            }
        }
        result
    }

    /// A blank face that was framed by the whole rectangle is a single frame.
    proof fn lemma_single_frame(&self, before: &Self, site: (T, T))
        requires
            self.framed(before, 0),
            before.store.vertices@.len() == 0,
            before.store.half_edges@.len() == 0,
            before.store.faces@ == seq![blank_face(0, site)],
        ensures
            self.single_frame(site),
            self.store.complete(),
            self.store.finished_half_edges() == frame_ring(0),
            self.store.finished_faces() == seq![
                Face { id: 0, x: site.0, y: site.1, start_id: 0usize },
            ],
    {
        let zero_value = choose|zero_value: T|
            {
                &&& call_ensures(T::default, (), zero_value)
                &&& #[trigger] self.store.vertices@ == before.store.vertices@ + frame_vertices(
                    before.store.vertices@.len() as usize,
                    zero_value,
                    self.width,
                    self.height,
                )
            };
        assert(self.store.vertices@ =~= frame_vertices(0, zero_value, self.width, self.height));
        assert(self.store.half_edges@ =~= frame_half_edges(0, 0, 0));
        assert(self.store.faces@ =~= seq![
            FaceBuilder {
                id: 0,
                x: site.0,
                y: site.1,
                half_edge_id: Some(0usize),
                start_id: None,
                end_id: None,
            },
        ]);
        assert(self.store.finished_half_edges() =~= frame_ring(0));
        assert(self.store.finished_faces() =~= seq![
            Face { id: 0, x: site.0, y: site.1, start_id: 0usize },
        ]);
    }

    /// The course of a build from the builder `before`, with `result`.
    ///
    /// The queue is seeded with one site event per site, which leaves
    /// `seeded`. The events are handed out by priority and handled, each
    /// success leaving the next of `states`: a site event splits the arc above
    /// its site, a circle event that still stands takes its arc out of the
    /// beachline and puts a vertex in the centre of the circle. That leaves
    /// `swept`, with `sweep_result`. The half-edges of the breakpoints that are
    /// left are cut off at the rectangle, from left to right, and the open
    /// rings of the faces are closed along the rectangle, face by face, which
    /// leaves `closed`, with `close_result`. The store of `closed` is frozen
    /// into the diagram. The first step that fails ends the build, with its
    /// error.
    #[verifier::opaque]
    pub closed spec fn built<F: Fn(T) -> T>(
        before: &Self,
        seeded: &Self,
        states: Seq<Builder<T>>,
        swept: &Self,
        sweep_result: Result<(), BuildError>,
        closed: &Self,
        close_result: Result<(), BuildError>,
        sqrt: &F,
        result: Result<Diagram<T>, BuildError>,
    ) -> bool {
        &&& swept.swept_from(before, seeded, states, sqrt, sweep_result)
        &&& match sweep_result {
            Err(e) => result == Err::<Diagram<T>, BuildError>(e),
            Ok(_) => {
                &&& closed.closed_from(swept, close_result)
                &&& match close_result {
                    Err(e) => result == Err::<Diagram<T>, BuildError>(e),
                    Ok(_) => closed.frozen(result),
                }
            },
        }
    }

    /// A build that went through its steps as `built` says took the course
    /// that `built` describes.
    proof fn lemma_built<F: Fn(T) -> T>(
        before: &Self,
        seeded: &Self,
        states: Seq<Builder<T>>,
        swept: &Self,
        sweep_result: Result<(), BuildError>,
        closed: &Self,
        close_result: Result<(), BuildError>,
        sqrt: &F,
        result: Result<Diagram<T>, BuildError>,
    )
        requires
            swept.swept_from(before, seeded, states, sqrt, sweep_result),
            sweep_result matches Err(e) ==> result == Err::<Diagram<T>, BuildError>(e),
            sweep_result is Ok ==> closed.closed_from(swept, close_result),
            sweep_result is Ok ==> (close_result matches Err(e) ==> result == Err::<
                Diagram<T>,
                BuildError,
            >(e)),
            sweep_result is Ok && close_result is Ok ==> closed.frozen(result),
        ensures
            Self::built(
                before,
                seeded,
                states,
                swept,
                sweep_result,
                closed,
                close_result,
                sqrt,
                result,
            ),
    {
        reveal(Builder::built);
    }

    /// Builds the diagram of the sites that were added, and empties the builder.
    /// `sqrt` is the square root of the scalar type.
    ///
    /// The faces of the diagram are the sites, in the order in which they were
    /// added. Without sites the diagram is empty. With one site its face is the
    /// whole rectangle, framed as `frame_ring` and `frame_vertices` say. With
    /// more sites the sweep runs as the module says, and fails where it finds an
    /// invariant of the beachline or of the subdivision broken; what it yields
    /// is a well-formed diagram in any case. For every number of sites the
    /// build takes the course that `built` describes.
    pub fn build<F: Fn(T) -> T>(&mut self, sqrt: &F) -> (result: Result<Diagram<T>, BuildError>)
        requires
            old(self).wf(),
            total_ops::<T>(),
            total_fn(sqrt),
        ensures
            final(self).wf(),
            final(self).sites().len() == 0,
            final(self).spec_width() == old(self).spec_width(),
            final(self).spec_height() == old(self).spec_height(),
            result matches Ok(diagram) ==> {
                &&& diagram.wf()
                &&& diagram.spec_width() == old(self).spec_width()
                &&& diagram.spec_height() == old(self).spec_height()
                &&& diagram.spec_faces().len() == old(self).sites().len()
                &&& forall|f: int|
                    0 <= f < diagram.spec_faces().len() ==> {
                        &&& (#[trigger] diagram.spec_faces()[f]).x == old(self).sites()[f].0
                        &&& diagram.spec_faces()[f].y == old(self).sites()[f].1
                    }
            },
            old(self).sites().len() == 0 ==> {
                &&& result is Ok
                &&& result->Ok_0.spec_vertices().len() == 0
                &&& result->Ok_0.spec_half_edges().len() == 0
            },
            old(self).sites().len() == 1 ==> {
                &&& result is Ok
                &&& result->Ok_0.spec_half_edges() == frame_ring(0)
                &&& result->Ok_0.spec_faces()[0].start_id == 0
                &&& exists|zero_value: T|
                    {
                        &&& call_ensures(T::default, (), zero_value)
                        &&& #[trigger] result->Ok_0.spec_vertices() == frame_vertices(
                            0,
                            zero_value,
                            old(self).spec_width(),
                            old(self).spec_height(),
                        )
                    }
            },
            measured(old(self).spec_width(), old(self).spec_height()) ==> (result matches Ok(
                diagram,
            ) ==> vertices_accounted(&diagram)),
            measured(old(self).spec_width(), old(self).spec_height()) ==> (result matches Ok(
                diagram,
            ) ==> untwinned_on_border(&diagram)),
            exists|
                seeded: Builder<T>,
                states: Seq<Builder<T>>,
                swept: Builder<T>,
                sweep_result: Result<(), BuildError>,
                closed: Builder<T>,
                close_result: Result<(), BuildError>,
            |
                #[trigger] Self::built(
                    old(self),
                    &seeded,
                    states,
                    &swept,
                    sweep_result,
                    &closed,
                    close_result,
                    sqrt,
                    result,
                ),
    {
        let ghost sites = self.sites();
        let swept = self.sweep(sqrt);
        let ghost after_sweep = *self;
        let ghost (seeded, states) = choose|seeded: Builder<T>, states: Seq<Builder<T>>|
            #[trigger] after_sweep.swept_from(old(self), &seeded, states, sqrt, swept);
        match swept {
            Ok(()) => {},
            Err(e) => {
                self.reset();
                proof {
                    Self::lemma_built(
                        old(self),
                        &seeded,
                        states,
                        &after_sweep,
                        swept,
                        &after_sweep,
                        swept,
                        sqrt,
                        Err::<Diagram<T>, BuildError>(e),
                    );
                }
                return Err(e);
            },
        }
        let closed = self.close(Ghost(sites[0]));
        let ghost after_close = *self;
        match closed {
            Ok(()) => {},
            Err(e) => {
                self.reset();
                proof {
                    Self::lemma_built(
                        old(self),
                        &seeded,
                        states,
                        &after_sweep,
                        swept,
                        &after_close,
                        closed,
                        sqrt,
                        Err::<Diagram<T>, BuildError>(e),
                    );
                }
                return Err(e);
            },
        }
        proof {
            self.lemma_keeps_sites(&after_sweep);
            after_sweep.lemma_keeps_sites(old(self));
            if sites.len() == 1 {
                self.lemma_closed_single(sites[0]);
            }
            if sites.len() == 0 {
                self.lemma_swept_empty();
            }
        }
        let frozen = self.freeze(Ghost(sites));
        proof {
            Self::lemma_built(
                old(self),
                &seeded,
                states,
                &after_sweep,
                swept,
                &after_close,
                closed,
                sqrt,
                frozen,
            );
        }
        frozen
    }

    /// What `closed_single` says of the store.
    proof fn lemma_closed_single(&self, site: (T, T))
        requires
            self.closed_single(site),
        ensures
            self.store.complete(),
            self.store.finished_half_edges() == frame_ring(0),
            self.store.finished_faces()[0].start_id == 0,
            exists|zero_value: T|
                {
                    &&& call_ensures(T::default, (), zero_value)
                    &&& #[trigger] self.store.vertices@ == frame_vertices(
                        0,
                        zero_value,
                        self.width,
                        self.height,
                    )
                },
    {
        reveal(Builder::closed_single);
    }

    /// What `swept_empty` says of the store.
    proof fn lemma_swept_empty(&self)
        requires
            self.swept_empty(),
        ensures
            self.store.complete(),
            self.store.vertices@.len() == 0,
            self.store.finished_half_edges().len() == 0,
    {
        reveal(Builder::swept_empty);
    }

    /// The diagram of a complete store whose half-edges without twin run along
    /// the rectangle has its half-edges without twin on the border.
    proof fn lemma_frozen_rim(&self, diagram: &Diagram<T>)
        requires
            self.rim(),
            self.store.wf(),
            self.store.complete(),
            diagram.spec_width() == self.width,
            diagram.spec_height() == self.height,
            diagram.spec_vertices() == self.store.vertices@,
            diagram.spec_half_edges() == self.store.finished_half_edges(),
        ensures
            untwinned_on_border(diagram),
    {
        let half_edges = diagram.spec_half_edges();
        assert forall|e: int|
            0 <= e < half_edges.len() && (#[trigger] half_edges[e]).twin_id is None implies on_one_side(
            diagram.spec_vertices()[half_edges[e].start_id as int],
            diagram.spec_vertices()[half_edges[half_edges[e].next_id as int].start_id as int],
            diagram.spec_width(),
            diagram.spec_height(),
        ) by {
            assert(self.runs_along(e));
            assert(self.store.half_edges[e].defect() is None);
            let n = self.store.half_edges[e].next_id->Some_0 as int;
            assert(half_edge_sound(
                self.store.half_edges@,
                e,
                self.store.faces.len() as nat,
                self.store.vertices.len() as nat,
            ));
            assert(self.store.half_edges[n].defect() is None);
            assert(half_edges[e] == self.store.half_edges[e].finished());
            assert(half_edges[n] == self.store.half_edges[n].finished());
        }
    }

    /// The diagram of a complete store whose vertices are accounted for has
    /// its vertices accounted for.
    proof fn lemma_frozen_ledger(&self, diagram: &Diagram<T>)
        requires
            self.ledger(),
            self.store.complete(),
            diagram.spec_width() == self.width,
            diagram.spec_height() == self.height,
            diagram.spec_vertices() == self.store.vertices@,
            diagram.spec_half_edges() == self.store.finished_half_edges(),
            diagram.spec_faces() == self.store.finished_faces(),
        ensures
            vertices_accounted(diagram),
    {
        assert(diagram_starts(diagram) =~= self.starts()) by {
            assert forall|e: int| 0 <= e < self.starts().len() implies diagram_starts(diagram)[e]
                == #[trigger] self.starts()[e] by {
                assert(self.store.half_edges[e].defect() is None);
            }
        }
        assert(diagram_on_faces(diagram) =~= self.on_faces());
        assert(diagram_sites(diagram) =~= self.sites());
    }

    /// Freezing this builder gives `result`: the diagram of what the store
    /// holds, where the store is complete; else what the first unfinished
    /// half-edge lacks, or `FaceWithoutEdge` where no half-edge lacks anything.
    #[verifier::opaque]
    spec fn frozen(&self, result: Result<Diagram<T>, BuildError>) -> bool {
        match result {
            Ok(diagram) => {
                &&& self.store.complete()
                &&& diagram.wf()
                &&& diagram.spec_width() == self.width
                &&& diagram.spec_height() == self.height
                &&& diagram.spec_vertices() == self.store.vertices@
                &&& diagram.spec_half_edges() == self.store.finished_half_edges()
                &&& diagram.spec_faces() == self.store.finished_faces()
            },
            Err(e) => {
                &&& !self.store.complete()
                &&& {
                    ||| exists|i: int| first_half_edge_defect(self.store.half_edges@, i, e)
                    ||| {
                        &&& e == BuildError::FaceWithoutEdge
                        &&& forall|i: int|
                            0 <= i < self.store.half_edges.len() ==> (
                            #[trigger] self.store.half_edges[i]).defect() is None
                    }
                }
            },
        }
    }

    /// Freezes the store into a diagram and empties the builder.
    #[verifier::rlimit(60)]
    fn freeze(&mut self, Ghost(sites): Ghost<Seq<(T, T)>>) -> (result: Result<
        Diagram<T>,
        BuildError,
    >)
        requires
            old(self).inv(),
            old(self).sites() == sites,
        ensures
            final(self).wf(),
            final(self).sites().len() == 0,
            final(self).width == old(self).width,
            final(self).height == old(self).height,
            result is Ok <==> old(self).store.complete(),
            old(self).frozen(result),
            old(self).ledger() ==> (result matches Ok(diagram) ==> vertices_accounted(&diagram)),
            old(self).rim() ==> (result matches Ok(diagram) ==> untwinned_on_border(&diagram)),
            result matches Ok(diagram) ==> {
                &&& diagram.wf()
                &&& diagram.spec_width() == old(self).width
                &&& diagram.spec_height() == old(self).height
                &&& diagram.spec_vertices() == old(self).store.vertices@
                &&& diagram.spec_half_edges() == old(self).store.finished_half_edges()
                &&& diagram.spec_faces() == old(self).store.finished_faces()
                &&& diagram.spec_faces().len() == sites.len()
                &&& forall|f: int|
                    0 <= f < diagram.spec_faces().len() ==> {
                        &&& (#[trigger] diagram.spec_faces()[f]).x == sites[f].0
                        &&& diagram.spec_faces()[f].y == sites[f].1
                    }
            },
    {
        reveal(Builder::frozen);
        let finished = self.store.finish(self.width, self.height);
        proof {
            if finished is Ok && old(self).rim() {
                old(self).lemma_frozen_rim(&finished->Ok_0);
            }
            if finished is Ok && old(self).ledger() {
                old(self).lemma_frozen_ledger(&finished->Ok_0);
            }
        }
        proof {
            if finished is Ok {
                let faces = finished->Ok_0.spec_faces();
                assert forall|f: int| 0 <= f < faces.len() implies {
                    &&& (#[trigger] faces[f]).x == sites[f].0
                    &&& faces[f].y == sites[f].1
                } by {
                    assert(faces[f] == old(self).store.faces[f].finished());
                }
            }
        }
        self.reset();
        finished
    }
}

/// The priority at which the arc in the middle of three is removed, where its
/// removal is due: the lowest point `center_y + radius` of the circle through
/// the three foci, provided that it is not above the sweep line, that the
/// centre is not below the rectangle, and that the centre is not above the
/// focus of the arc.
pub open spec fn due_priority<T: Scalar>(
    center_y: T,
    radius: T,
    focus_y: T,
    scan_line_y: T,
    height: T,
) -> Option<T> {
    let priority = center_y.add_spec(radius);
    if ge(priority, scan_line_y) && le(center_y, height)
        && ge(center_y, focus_y) {
        Some(priority)
    } else {
        None
    }
}

/// Decides whether the removal of an arc is due, given the centre and radius of
/// the circle through its focus and those of its neighbours, and returns the
/// priority of the removal.
pub fn circle_event_priority<T: Scalar>(
    center_y: T,
    radius: T,
    focus_y: T,
    scan_line_y: T,
    height: T,
) -> (priority: Option<T>)
    requires
        total_ops::<T>(),
    ensures
        exact_scalar::<T>() ==> priority == due_priority(
            center_y,
            radius,
            focus_y,
            scan_line_y,
            height,
        ),
{
    let priority = center_y + radius;
    if priority >= scan_line_y && center_y <= height && center_y >= focus_y {
        Some(priority)
    } else {
        None
    }
}

/// Whether a site at `site_x` lies to the left of the breakpoint between two
/// arcs, given the points in which the parabolas of their foci meet: the
/// breakpoint is the first of the two points where the left focus has the
/// smaller `y`, else the second. `None` unless the parabolas meet in two points.
pub open spec fn left_of_breakpoint<T: Scalar>(
    hits: ParabolaIntersection<T>,
    left_y: T,
    right_y: T,
    site_x: T,
) -> Option<bool> {
    match hits {
        ParabolaIntersection::Two(i1, i2) => {
            let ix = if lt(left_y, right_y) {
                i1.x()
            } else {
                i2.x()
            };
            Some(lt(site_x, ix))
        },
        _ => None,
    }
}

/// Decides on which side of a breakpoint a new site lies, given the points in
/// which the parabolas of the two neighbouring foci meet.
pub fn site_is_left_of_breakpoint<T: Scalar>(
    hits: &ParabolaIntersection<T>,
    left_y: T,
    right_y: T,
    site_x: T,
) -> (left: Option<bool>)
    ensures
        left is Some <==> *hits is Two,
        exact_scalar::<T>() ==> left == left_of_breakpoint(*hits, left_y, right_y, site_x),
{
    match hits {
        ParabolaIntersection::Two(i1, i2) => {
            let ix = if left_y < right_y {
                i1.get_x()
            } else {
                i2.get_x()
            };
            Some(site_x < ix)
        },
        _ => None,
    }
}

/// The scalar type is an ordered field with halves, and the bounding box is
/// the rectangle from `(0, 0)` to a width and a height that are not below
/// zero: the premise under which the point where an open half-edge is cut off
/// lies on the border of the rectangle.
pub open spec fn clips_exactly<T: Scalar>(bounds: BoundingBox<T>, width: T, height: T) -> bool {
    &&& is_field::<T>()
    &&& has_halves::<T>()
    &&& is_ordered::<T>()
    &&& le(zero::<T>(), width)
    &&& le(zero::<T>(), height)
    &&& frames(bounds, width, height)
}

/// The records of a subdivision under construction, as sequences.
pub struct Records<T> {
    pub vertices: Seq<Vertex<T>>,
    pub half_edges: Seq<HalfEdgeBuilder>,
    pub faces: Seq<FaceBuilder<T>>,
}

/// What a store holds.
pub open spec fn records_of<T>(store: DcelStore<T>) -> Records<T> {
    Records { vertices: store.vertices@, half_edges: store.half_edges@, faces: store.faces@ }
}

/// Corner `i` of the rectangle between `(0, 0)` and `(width, height)`, counted
/// clockwise from the top left, where top is the smaller `y`.
pub open spec fn frame_corner<T: Scalar>(i: int, width: T, height: T) -> Vec2<T> {
    let z = zero::<T>();
    if i == 0 {
        point(lower(z, width), lower(z, height))
    } else if i == 1 {
        point(upper(z, width), lower(z, height))
    } else if i == 2 {
        point(upper(z, width), upper(z, height))
    } else {
        point(lower(z, width), upper(z, height))
    }
}

/// The bounding box is the rectangle between `(0, 0)` and `(width, height)`.
pub open spec fn spans<T: Scalar>(bounds: BoundingBox<T>, width: T, height: T) -> bool {
    forall|i: int| 0 <= i < 4 ==> #[trigger] bounds.corner(i) == frame_corner(i, width, height)
}

/// The point in which a ray meets the rectangle between `(0, 0)` and
/// `(width, height)`, put on the side that it meets, as `snapped_hit` says.
pub open spec fn frame_hit<T: Scalar>(p: Vec2<T>, d: Vec2<T>, width: T, height: T) -> Option<
    Vec2<T>,
> {
    snapped_hit(
        p,
        d,
        frame_corner(0, width, height),
        frame_corner(1, width, height),
        frame_corner(2, width, height),
        frame_corner(3, width, height),
    )
}

/// A bounding box that spans a rectangle whose width and height are not below
/// zero has its top left corner in `(0, 0)`.
pub proof fn lemma_spans_frames<T: Scalar>(bounds: BoundingBox<T>, width: T, height: T)
    requires
        spans(bounds, width, height),
        le(zero::<T>(), width),
        le(zero::<T>(), height),
    ensures
        frames(bounds, width, height),
{
    assert(bounds.corner(0) == frame_corner(0, width, height));
    assert(bounds.corner(1) == frame_corner(1, width, height));
    assert(bounds.corner(2) == frame_corner(2, width, height));
    assert(bounds.corner(3) == frame_corner(3, width, height));
}

/// The records after half-edge `e`, which a breakpoint still traces, was
/// finished, or why it cannot be.
///
/// The half-edge needs a twin. Where it has no start vertex it gets a new one:
/// the point in which the perpendicular bisector of the sites of its face and
/// of the face of its twin, followed from their midpoint in the open
/// direction, meets the rectangle; there must be such a point. The half-edge
/// is then on record as the end of the open ring of its face, and its twin as
/// the start of the open ring of the face of the twin.
pub open spec fn edge_completed<T: Scalar>(
    records: Records<T>,
    e: int,
    width: T,
    height: T,
) -> Result<Records<T>, BuildError> {
    let h = records.half_edges[e];
    let face = h.face_id as int;
    let twin_face = twin_face_of(records.half_edges, e) as int;
    let site = point(records.faces[face].x, records.faces[face].y);
    let twin_site = point(records.faces[twin_face].x, records.faces[twin_face].y);
    let hit = frame_hit(midpoint(site, twin_site), open_direction(site, twin_site), width, height);
    let v = records.vertices.len() as usize;
    if h.twin_id is None {
        Err(BuildError::MissingTwin)
    } else if h.start_id is None && hit is None {
        Err(BuildError::NoBoundaryHit)
    } else {
        let ended = records.faces.update(
            face,
            FaceBuilder { end_id: Some(e as usize), ..records.faces[face] },
        );
        let faces = ended.update(twin_face, FaceBuilder { start_id: h.twin_id, ..ended[twin_face] });
        if h.start_id is Some {
            Ok(Records { faces, ..records })
        } else {
            Ok(
                Records {
                    vertices: records.vertices.push(
                        Vertex { id: v, x: hit->Some_0.x(), y: hit->Some_0.y() },
                    ),
                    half_edges: records.half_edges.update(
                        e,
                        HalfEdgeBuilder { start_id: Some(v), ..h },
                    ),
                    faces,
                },
            )
        }
    }
}

/// The records after the half-edges of the breakpoints from `next` on to the
/// right were finished one after the other, at most `fuel` of them, and the
/// error that ended the work, if one did: that of the first half-edge that
/// cannot be finished, or `EndlessBeachline` where a breakpoint is left when
/// the fuel is spent.
pub open spec fn edges_completed<T: Scalar>(
    beachline: &Beachline,
    records: Records<T>,
    next: Option<usize>,
    fuel: nat,
    width: T,
    height: T,
) -> (Records<T>, Option<BuildError>)
    decreases fuel,
{
    match next {
        None => (records, None),
        Some(edge) => if fuel == 0 {
            (records, Some(BuildError::EndlessBeachline))
        } else {
            match edge_completed(
                records,
                beachline.edges[edge as int].half_edge_id as int,
                width,
                height,
            ) {
                Err(e) => (records, Some(e)),
                Ok(after) => edges_completed(
                    beachline,
                    after,
                    beachline.next_edge(beachline.next_arc(edge as int) as int),
                    (fuel - 1) as nat,
                    width,
                    height,
                ),
            }
        },
    }
}

/// Where every half-edge of a diagram starts.
pub open spec fn diagram_starts<T: Scalar>(diagram: &Diagram<T>) -> Seq<Option<usize>> {
    Seq::new(
        diagram.spec_half_edges().len(),
        |e: int| Some(diagram.spec_half_edges()[e].start_id),
    )
}

/// The face on which every half-edge of a diagram lies.
pub open spec fn diagram_on_faces<T: Scalar>(diagram: &Diagram<T>) -> Seq<usize> {
    Seq::new(diagram.spec_half_edges().len(), |e: int| diagram.spec_half_edges()[e].face_id)
}

/// The sites of the faces of a diagram.
pub open spec fn diagram_sites<T: Scalar>(diagram: &Diagram<T>) -> Seq<(T, T)> {
    Seq::new(
        diagram.spec_faces().len(),
        |f: int| (diagram.spec_faces()[f].x, diagram.spec_faces()[f].y),
    )
}

/// Every vertex of the diagram is a junction of three faces, in the centre of
/// the circle through their sites, or lies on the border of the rectangle of
/// the diagram.
pub open spec fn vertices_accounted<T: Scalar>(diagram: &Diagram<T>) -> bool {
    accounted(
        diagram.spec_vertices(),
        diagram_starts(diagram),
        diagram_on_faces(diagram),
        diagram_sites(diagram),
        diagram.spec_width(),
        diagram.spec_height(),
    )
}

/// Over a field with halves, a vertex of a diagram that does not lie on the
/// border of the rectangle is a junction: three half-edges start in it, and it
/// is as far from the site of the face of one of them as from the sites of the
/// faces of the other two.
pub proof fn lemma_inner_vertex_equidistant<T: Scalar>(diagram: &Diagram<T>, v: int) -> (e: (
    int,
    int,
    int,
))
    requires
        is_field::<T>(),
        has_halves::<T>(),
        vertices_accounted(diagram),
        0 <= v < diagram.spec_vertices().len(),
        !on_border(
            point(diagram.spec_vertices()[v].x, diagram.spec_vertices()[v].y),
            diagram.spec_width(),
            diagram.spec_height(),
        ),
    ensures
        meet_at(
            diagram.spec_vertices()[v],
            diagram_starts(diagram),
            diagram_on_faces(diagram),
            diagram_sites(diagram),
            e.0,
            e.1,
            e.2,
        ),
        equidistant(
            point(diagram.spec_vertices()[v].x, diagram.spec_vertices()[v].y),
            site_point(diagram_sites(diagram), diagram.spec_half_edges()[e.0].face_id as int),
            site_point(diagram_sites(diagram), diagram.spec_half_edges()[e.1].face_id as int),
            site_point(diagram_sites(diagram), diagram.spec_half_edges()[e.2].face_id as int),
        ),
{
    let vertex = diagram.spec_vertices()[v];
    assert(is_junction(
        vertex,
        diagram_starts(diagram),
        diagram_on_faces(diagram),
        diagram_sites(diagram),
    ));
    let (e1, e2, e3) = choose|e1: int, e2: int, e3: int|
        #[trigger] meet_at(
            vertex,
            diagram_starts(diagram),
            diagram_on_faces(diagram),
            diagram_sites(diagram),
            e1,
            e2,
            e3,
        );
    let sites = diagram_sites(diagram);
    lemma_circle_center(
        site_point(sites, diagram.spec_half_edges()[e1].face_id as int),
        site_point(sites, diagram.spec_half_edges()[e2].face_id as int),
        site_point(sites, diagram.spec_half_edges()[e3].face_id as int),
    );
    (e1, e2, e3)
}

/// The point lies in the rectangle from `(0, 0)` to `(width, height)`, its
/// border included.
pub open spec fn in_rectangle<T: Scalar>(q: Vec2<T>, width: T, height: T) -> bool {
    &&& le(zero::<T>(), q.x())
    &&& le(q.x(), width)
    &&& le(zero::<T>(), q.y())
    &&& le(q.y(), height)
}

/// Over an ordered field, a vertex of a diagram that is no junction lies on
/// the border of the rectangle of the diagram, and so in the rectangle.
pub proof fn lemma_outer_vertex_on_border<T: Scalar>(diagram: &Diagram<T>, v: int)
    requires
        is_ordered::<T>(),
        le(zero::<T>(), diagram.spec_width()),
        le(zero::<T>(), diagram.spec_height()),
        vertices_accounted(diagram),
        0 <= v < diagram.spec_vertices().len(),
        !is_junction(
            diagram.spec_vertices()[v],
            diagram_starts(diagram),
            diagram_on_faces(diagram),
            diagram_sites(diagram),
        ),
    ensures
        on_border(
            point(diagram.spec_vertices()[v].x, diagram.spec_vertices()[v].y),
            diagram.spec_width(),
            diagram.spec_height(),
        ),
        in_rectangle(
            point(diagram.spec_vertices()[v].x, diagram.spec_vertices()[v].y),
            diagram.spec_width(),
            diagram.spec_height(),
        ),
{
    lemma_le_refl(zero::<T>());
    lemma_le_refl(diagram.spec_width());
    lemma_le_refl(diagram.spec_height());
}

/// Two vertices lie on one side of the rectangle from `(0, 0)` to
/// `(width, height)`: on its top, right, bottom or left side.
pub open spec fn on_one_side<T: Scalar>(p: Vertex<T>, q: Vertex<T>, width: T, height: T) -> bool {
    let z = zero::<T>();
    ||| p.y == z && q.y == z
    ||| p.x == width && q.x == width
    ||| p.y == height && q.y == height
    ||| p.x == z && q.x == z
}

/// Over a field, a step of the walk along the rectangle leads to a corner of
/// the side on which the walk stands.
pub proof fn lemma_corner_on_side<T: Scalar>(
    p: Vertex<T>,
    q: Vertex<T>,
    end_x: T,
    end_y: T,
    width: T,
    height: T,
)
    requires
        is_field::<T>(),
        border_step_of(p.x, p.y, end_x, end_y, width, height) == BorderStep::Corner(q.x, q.y),
    ensures
        on_one_side(p, q, width, height),
{
    let z = zero::<T>();
    lemma_same(p.y, z);
    lemma_same(p.x, width);
    lemma_same(p.y, height);
    lemma_same(p.x, z);
}

/// Over a field, the walk along the rectangle has arrived where it stands on
/// the side on which its end lies.
pub proof fn lemma_arrival_on_side<T: Scalar>(p: Vertex<T>, q: Vertex<T>, width: T, height: T)
    requires
        is_field::<T>(),
        border_step_of(p.x, p.y, q.x, q.y, width, height) == BorderStep::<T>::Arrived,
    ensures
        on_one_side(p, q, width, height),
{
    let z = zero::<T>();
    lemma_same(p.y, z);
    lemma_same(p.x, width);
    lemma_same(p.y, height);
    lemma_same(p.x, z);
    lemma_same(q.y, z);
    lemma_same(q.x, width);
    lemma_same(q.y, height);
    lemma_same(q.x, z);
}

/// Every half-edge of the diagram that has no twin runs along a side of the
/// rectangle of the diagram: it starts on the side on which the half-edge
/// after it starts.
pub open spec fn untwinned_on_border<T: Scalar>(diagram: &Diagram<T>) -> bool {
    let half_edges = diagram.spec_half_edges();
    forall|e: int|
        0 <= e < half_edges.len() && (#[trigger] half_edges[e]).twin_id is None ==> on_one_side(
            diagram.spec_vertices()[half_edges[e].start_id as int],
            diagram.spec_vertices()[half_edges[half_edges[e].next_id as int].start_id as int],
            diagram.spec_width(),
            diagram.spec_height(),
        )
}

/// The site with the given index, as a point.
pub open spec fn site_point<T: Scalar>(sites: Seq<(T, T)>, f: int) -> Vec2<T> {
    point(sites[f].0, sites[f].1)
}

/// Three half-edges start in the vertex `v`, the half-edges `e1`, `e2` and
/// `e3`, and `v` lies in the centre of the circle through the sites of their
/// faces. Half-edge `e` starts in `starts[e]` and lies on face `on_face[e]`.
pub open spec fn meet_at<T: Scalar>(
    v: Vertex<T>,
    starts: Seq<Option<usize>>,
    on_face: Seq<usize>,
    sites: Seq<(T, T)>,
    e1: int,
    e2: int,
    e3: int,
) -> bool {
    &&& 0 <= e1 < starts.len() && 0 <= e2 < starts.len() && 0 <= e3 < starts.len()
    &&& starts.len() == on_face.len()
    &&& starts[e1] == Some(v.id) && starts[e2] == Some(v.id) && starts[e3] == Some(v.id)
    &&& on_face[e1] < sites.len() && on_face[e2] < sites.len() && on_face[e3] < sites.len()
    &&& circle_center(
        site_point(sites, on_face[e1] as int),
        site_point(sites, on_face[e2] as int),
        site_point(sites, on_face[e3] as int),
    ) == Some(point(v.x, v.y))
}

/// The vertex is a junction: three half-edges start in it, and it lies in the
/// centre of the circle through the sites of their faces.
pub open spec fn is_junction<T: Scalar>(
    v: Vertex<T>,
    starts: Seq<Option<usize>>,
    on_face: Seq<usize>,
    sites: Seq<(T, T)>,
) -> bool {
    exists|e1: int, e2: int, e3: int| #[trigger] meet_at(v, starts, on_face, sites, e1, e2, e3)
}

/// Every vertex is accounted for: it is a junction, or it lies on the border
/// of the rectangle from `(0, 0)` to `(width, height)`.
pub open spec fn accounted<T: Scalar>(
    vertices: Seq<Vertex<T>>,
    starts: Seq<Option<usize>>,
    on_face: Seq<usize>,
    sites: Seq<(T, T)>,
    width: T,
    height: T,
) -> bool {
    forall|v: int|
        0 <= v < vertices.len() ==> #[trigger] is_junction(vertices[v], starts, on_face, sites)
            || on_border(point(vertices[v].x, vertices[v].y), width, height)
}

/// The premise under which every vertex is accounted for: the arithmetic of
/// the scalar type is exact and that of an ordered field with halves, and the
/// rectangle has a width and a height that are not below zero.
pub open spec fn measured<T: Scalar>(width: T, height: T) -> bool {
    &&& exact_scalar::<T>()
    &&& is_field::<T>()
    &&& has_halves::<T>()
    &&& is_ordered::<T>()
    &&& le(zero::<T>(), width)
    &&& le(zero::<T>(), height)
}

/// Vertices that are accounted for stay so where vertices and half-edges are
/// added, the half-edges stay on their faces, and no start vertex changes
/// that was set; the vertices that are new must be accounted for themselves.
pub proof fn lemma_accounted_grows<T: Scalar>(
    vertices: Seq<Vertex<T>>,
    starts: Seq<Option<usize>>,
    on_face: Seq<usize>,
    grown_vertices: Seq<Vertex<T>>,
    grown_starts: Seq<Option<usize>>,
    grown_on_face: Seq<usize>,
    sites: Seq<(T, T)>,
    width: T,
    height: T,
)
    requires
        accounted(vertices, starts, on_face, sites, width, height),
        starts.len() == on_face.len(),
        grown_starts.len() == grown_on_face.len(),
        vertices.len() <= grown_vertices.len(),
        starts.len() <= grown_starts.len(),
        forall|v: int| 0 <= v < vertices.len() ==> #[trigger] grown_vertices[v] == vertices[v],
        forall|e: int|
            0 <= e < starts.len() ==> {
                &&& #[trigger] grown_on_face[e] == on_face[e]
                &&& starts[e] is Some ==> grown_starts[e] == starts[e]
            },
        forall|v: int|
            vertices.len() <= v < grown_vertices.len() ==> #[trigger] is_junction(
                grown_vertices[v],
                grown_starts,
                grown_on_face,
                sites,
            ) || on_border(point(grown_vertices[v].x, grown_vertices[v].y), width, height),
    ensures
        accounted(grown_vertices, grown_starts, grown_on_face, sites, width, height),
{
    assert forall|v: int| 0 <= v < grown_vertices.len() implies #[trigger] is_junction(
        grown_vertices[v],
        grown_starts,
        grown_on_face,
        sites,
    ) || on_border(point(grown_vertices[v].x, grown_vertices[v].y), width, height) by {
        if v < vertices.len() {
            assert(grown_vertices[v] == vertices[v]);
            if is_junction(vertices[v], starts, on_face, sites) {
                let (e1, e2, e3) = choose|e1: int, e2: int, e3: int|
                    #[trigger] meet_at(vertices[v], starts, on_face, sites, e1, e2, e3);
                assert(grown_on_face[e1] == on_face[e1]);
                assert(grown_on_face[e2] == on_face[e2]);
                assert(grown_on_face[e3] == on_face[e3]);
                assert(meet_at(grown_vertices[v], grown_starts, grown_on_face, sites, e1, e2, e3));
            }
        }
    }
}

/// The face of the twin of a half-edge.
pub open spec fn twin_face_of(half_edges: Seq<HalfEdgeBuilder>, half_edge_id: int) -> usize {
    half_edges[half_edges[half_edge_id].twin_id->Some_0 as int].face_id
}

/// The direction in which the half-edge between the faces of two sites, seen
/// from the first, runs towards its open end: at a right angle to the line from
/// the first site to the second, to the side on which the turn from that line
/// is clockwise.
pub open spec fn open_direction<T: Scalar>(site: Vec2<T>, twin_site: Vec2<T>) -> Vec2<T> {
    let sub = point(twin_site.x().sub_spec(site.x()), twin_site.y().sub_spec(site.y()));
    let dir = point(site.y().sub_spec(twin_site.y()), twin_site.x().sub_spec(site.x()));
    if lt(turn(sub, dir), zero::<T>()) {
        dir
    } else {
        point(dir.x().neg_spec(), dir.y().neg_spec())
    }
}

/// The four corners of the rectangle, clockwise from the top left, as vertices
/// with the ids from `base` on.
pub open spec fn frame_vertices<T>(base: usize, zero_value: T, width: T, height: T) -> Seq<
    Vertex<T>,
> {
    seq![
        Vertex { id: base, x: zero_value, y: zero_value },
        Vertex { id: (base + 1) as usize, x: width, y: zero_value },
        Vertex { id: (base + 2) as usize, x: width, y: height },
        Vertex { id: (base + 3) as usize, x: zero_value, y: height },
    ]
}

/// The four sides of the rectangle as a ring of half-edges without twins on one
/// face: top, right, bottom, left, with the ids from `base` on, each starting
/// in the corner of the same position.
pub open spec fn frame_half_edges(base: usize, first_vertex: usize, face_id: usize) -> Seq<
    HalfEdgeBuilder,
> {
    Seq::new(
        4,
        |i: int|
            HalfEdgeBuilder {
                id: (base + i) as usize,
                face_id,
                start_id: Some((first_vertex + i) as usize),
                twin_id: None,
                prev_id: Some((base + (i + 3) % 4) as usize),
                next_id: Some((base + (i + 1) % 4) as usize),
            },
    )
}

/// The half-edge `i` of those that close the ring of a face along the
/// rectangle: it lies on the face, has no twin, and follows the half-edge
/// before it, the first one following `start`; the first one starts in
/// `first_vertex`, each of the others in the corner that was put before it.
pub open spec fn border_half_edge(
    face_id: usize,
    base: int,
    first_corner: int,
    start: usize,
    first_vertex: usize,
    i: int,
    next_id: Option<usize>,
) -> HalfEdgeBuilder {
    HalfEdgeBuilder {
        id: (base + i) as usize,
        face_id,
        start_id: Some(
            if i == 0 {
                first_vertex
            } else {
                (first_corner + i - 1) as usize
            },
        ),
        twin_id: None,
        prev_id: Some(
            if i == 0 {
                start
            } else {
                (base + i - 1) as usize
            },
        ),
        next_id,
    }
}

/// What the walk along the rectangle does next.
#[derive(Debug, PartialEq, Clone, Copy)]
pub enum BorderStep<T> {
    /// The end of the walk lies ahead on the side on which the walk stands.
    Arrived,
    /// The walk goes on to the corner with the given coordinates.
    Corner(T, T),
    /// The walk does not stand on the rectangle.
    Astray,
}

/// The clockwise walk along the rectangle from `(cur_x, cur_y)` arrives at
/// `(end_x, end_y)` after `fuel` corners at most, and is nowhere astray.
pub open spec fn walk_arrives<T: Scalar>(
    cur_x: T,
    cur_y: T,
    end_x: T,
    end_y: T,
    width: T,
    height: T,
    fuel: nat,
) -> bool
    decreases fuel,
{
    match border_step_of(cur_x, cur_y, end_x, end_y, width, height) {
        BorderStep::Arrived => true,
        BorderStep::Astray => false,
        BorderStep::Corner(x, y) => fuel > 0 && walk_arrives(
            x,
            y,
            end_x,
            end_y,
            width,
            height,
            (fuel - 1) as nat,
        ),
    }
}

/// The next step of a clockwise walk along the rectangle from `(0, 0)` to
/// `(width, height)` that stands at `(cur_x, cur_y)` and is to end at
/// `(end_x, end_y)`.
///
/// On the top side, short of its right end, the walk goes to the top right
/// corner, unless the end lies on the top side and not to the left of the walk;
/// on the right side, short of its lower end, to the bottom right corner,
/// unless the end lies on the right side and not above the walk; on the bottom
/// side, short of its left end, to the bottom left corner, unless the end lies
/// on the bottom side and not to the right of the walk; on the left side, short
/// of its upper end, to the top left corner, unless the end lies on the left
/// side and not below the walk.
pub open spec fn border_step_of<T: Scalar>(
    cur_x: T,
    cur_y: T,
    end_x: T,
    end_y: T,
    width: T,
    height: T,
) -> BorderStep<T> {
    let z = zero::<T>();
    if same(cur_y, z) && !same(cur_x, width) {
        if same(end_y, z) && ge(end_x, cur_x) {
            BorderStep::Arrived
        } else {
            BorderStep::Corner(width, z)
        }
    } else if same(cur_x, width) && !same(cur_y, height) {
        if same(end_x, width) && ge(end_y, cur_y) {
            BorderStep::Arrived
        } else {
            BorderStep::Corner(width, height)
        }
    } else if same(cur_y, height) && !same(cur_x, z) {
        if same(end_y, height) && le(end_x, cur_x) {
            BorderStep::Arrived
        } else {
            BorderStep::Corner(z, height)
        }
    } else if same(cur_x, z) && !same(cur_y, z) {
        if same(end_x, z) && le(end_y, cur_y) {
            BorderStep::Arrived
        } else {
            BorderStep::Corner(z, z)
        }
    } else {
        BorderStep::Astray
    }
}

/// Decides the next step of the walk along the rectangle.
pub fn border_step<T: Scalar>(cur_x: T, cur_y: T, end_x: T, end_y: T, width: T, height: T) -> (step:
    BorderStep<T>)
    ensures
        exact_scalar::<T>() ==> step == border_step_of(cur_x, cur_y, end_x, end_y, width, height),
{
    let z = make_zero::<T>();
    if cur_y == z && cur_x != width {
        if end_y == z && end_x >= cur_x {
            BorderStep::Arrived
        } else {
            BorderStep::Corner(width, z)
        }
    } else if cur_x == width && cur_y != height {
        if end_x == width && end_y >= cur_y {
            BorderStep::Arrived
        } else {
            BorderStep::Corner(width, height)
        }
    } else if cur_y == height && cur_x != z {
        if end_y == height && end_x <= cur_x {
            BorderStep::Arrived
        } else {
            BorderStep::Corner(z, height)
        }
    } else if cur_x == z && cur_y != z {
        if end_x == z && end_y <= cur_y {
            BorderStep::Arrived
        } else {
            BorderStep::Corner(z, z)
        }
    } else {
        BorderStep::Astray
    }
}

/// The four sides of the rectangle as the ring of the only face of a diagram:
/// top, right, bottom, left, each starting in the corner of the same position.
pub open spec fn frame_ring(face_id: usize) -> Seq<HalfEdge> {
    Seq::new(
        4,
        |i: int|
            HalfEdge {
                id: i as usize,
                face_id,
                start_id: i as usize,
                twin_id: None,
                prev_id: ((i + 3) % 4) as usize,
                next_id: ((i + 1) % 4) as usize,
            },
    )
}

} // verus!

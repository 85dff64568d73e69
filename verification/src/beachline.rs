//! The beachline: a binary tree whose leaves are the arcs on the sweep line,
//! from left to right, and whose inner nodes are the breakpoints between them.
//!
//! Arcs and breakpoints live in arenas and refer to one another by index. A
//! node that left the tree stays in its arena; nothing refers to it any more
//! from the root down.

use vstd::prelude::*;
use crate::error::BuildError;

verus! {

/// A child of a breakpoint, or the root: a breakpoint or an arc.
#[derive(Debug, PartialEq, Eq, Structural, Clone, Copy)]
pub enum NodeId {
    Edge(usize),
    Arc(usize),
}

/// A breakpoint between two arcs. It traces out the half-edge `half_edge_id`.
#[derive(Debug, Clone, Copy)]
pub struct Edge {
    pub id: usize,
    pub half_edge_id: usize,
    pub parent_id: Option<usize>,
    pub left_child: NodeId,
    pub right_child: NodeId,
}

/// An arc of the parabola whose focus is the site of `face_id`.
#[derive(Debug, Clone, Copy)]
pub struct Arc {
    pub id: usize,
    pub face_id: usize,
    pub remove_event_id: Option<usize>,
    pub parent_id: Option<usize>,
}

/// The tree of arcs and breakpoints.
pub struct Beachline {
    pub edges: Vec<Edge>,
    pub arcs: Vec<Arc>,
    pub root: Option<NodeId>,
    /// The number of arcs that entered the tree and did not leave it.
    pub live: usize,
    /// For every breakpoint a rank that grows from parent to child.
    pub depth: Ghost<Seq<nat>>,
}

/// `node` exists and, where it is a breakpoint, ranks above `rank`.
pub open spec fn node_below(node: NodeId, rank: int, edges: int, arcs: int, depth: Seq<nat>) -> bool {
    match node {
        NodeId::Arc(a) => a < arcs,
        NodeId::Edge(c) => c < edges && depth[c as int] > rank,
    }
}

/// Breakpoint `e` names itself, its children exist and rank above it, and its
/// parent, if any, exists and ranks below it.
pub open spec fn edge_sound(edges: Seq<Edge>, e: int, arcs: int, depth: Seq<nat>) -> bool {
    let edge = edges[e];
    &&& edge.id == e
    &&& depth[e] < edges.len()
    &&& node_below(edge.left_child, depth[e] as int, edges.len() as int, arcs, depth)
    &&& node_below(edge.right_child, depth[e] as int, edges.len() as int, arcs, depth)
    &&& match edge.parent_id {
        Some(p) => p < edges.len() && depth[p as int] < depth[e],
        None => true,
    }
}

/// Arc `a` names itself and its parent, if any, exists.
pub open spec fn arc_sound(arcs: Seq<Arc>, a: int, edges: int) -> bool {
    &&& arcs[a].id == a
    &&& match arcs[a].parent_id {
        Some(p) => p < edges,
        None => true,
    }
}

impl Beachline {
    /// The invariant of the tree: every reference resolves, and along every
    /// path from parent to child the rank grows, so that no path runs in a
    /// circle.
    pub open spec fn wf(&self) -> bool {
        &&& self.depth@.len() == self.edges.len()
        &&& self.live <= self.arcs.len()
        &&& forall|e: int|
            0 <= e < self.edges.len() ==> #[trigger] edge_sound(
                self.edges@,
                e,
                self.arcs.len() as int,
                self.depth@,
            )
        &&& forall|a: int|
            0 <= a < self.arcs.len() ==> #[trigger] arc_sound(self.arcs@, a, self.edges.len() as int)
        &&& match self.root {
            Some(NodeId::Arc(a)) => a < self.arcs.len(),
            Some(NodeId::Edge(e)) => e < self.edges.len(),
            None => true,
        }
    }

    /// `arc` is one of the arcs below `node`.
    pub open spec fn leaf_below(&self, node: NodeId, arc: usize, fuel: nat) -> bool {
        leaf_below(self.edges@, node, arc, fuel)
    }

    /// The arc immediately to the left of a breakpoint: the last arc of its
    /// left subtree.
    pub open spec fn prev_arc(&self, edge: int) -> usize {
        rightmost_arc(self.edges@, self.edges[edge].left_child, self.edges.len() as nat)
    }

    /// The arc immediately to the right of a breakpoint: the first arc of its
    /// right subtree.
    pub open spec fn next_arc(&self, edge: int) -> usize {
        leftmost_arc(self.edges@, self.edges[edge].right_child, self.edges.len() as nat)
    }

    /// The leftmost breakpoint of the tree, if it has one.
    pub open spec fn first_edge(&self) -> Option<usize> {
        match self.root {
            Some(NodeId::Edge(e)) => Some(leftmost_edge(self.edges@, e, self.edges.len() as nat)),
            _ => None,
        }
    }

    /// The left child of a breakpoint where `left` is set, else its right child.
    pub open spec fn child_on(&self, edge: int, left: bool) -> NodeId {
        child_on(self.edges@, edge, left)
    }

    /// The breakpoint on the given side of an arc: the first breakpoint above it
    /// that has the arc in its subtree on the other side. For the breakpoint to
    /// the left of the arc, `from_left` is false: the arc lies in the right
    /// subtree of that breakpoint.
    pub open spec fn neighbor_edge(&self, arc: int, from_left: bool) -> Option<usize> {
        match self.arcs[arc].parent_id {
            None => None,
            Some(p) => if child_on(self.edges@, p as int, from_left) == NodeId::Arc(arc as usize) {
                Some(p)
            } else {
                climb(self.edges@, p, from_left, self.edges.len() as nat)
            },
        }
    }

    /// The breakpoint immediately to the left of an arc; none for the first arc.
    pub open spec fn prev_edge(&self, arc: int) -> Option<usize> {
        self.neighbor_edge(arc, false)
    }

    /// The breakpoint immediately to the right of an arc; none for the last arc.
    pub open spec fn next_edge(&self, arc: int) -> Option<usize> {
        self.neighbor_edge(arc, true)
    }

    /// Every node of the tree that has a parent is a child of that parent.
    pub open spec fn linked(&self) -> bool {
        links_agree(self.edges@, self.arcs@)
    }

    /// In a tree whose links agree, the breakpoint that `prev_edge` names for
    /// an arc is the breakpoint immediately to its left: the arc is the arc
    /// immediately to the right of that breakpoint.
    pub proof fn lemma_prev_edge_is_neighbour(&self, arc: int)
        requires
            self.wf(),
            self.linked(),
            0 <= arc < self.arcs.len(),
            self.prev_edge(arc) is Some,
        ensures
            self.prev_edge(arc)->Some_0 < self.edges.len(),
            self.next_arc(self.prev_edge(arc)->Some_0 as int) == arc,
    {
        assert(arc_sound(self.arcs@, arc, self.edges.len() as int));
        let p = self.arcs[arc].parent_id->Some_0;
        assert(edge_sound(self.edges@, p as int, self.arcs.len() as int, self.depth@));
        if child_on(self.edges@, p as int, false) == NodeId::Arc(arc as usize) {
            assert(leftmost_arc(
                self.edges@,
                NodeId::Arc(arc as usize),
                self.edges.len() as nat,
            ) == arc);
        } else {
            assert(self.edges[p as int].left_child == NodeId::Arc(arc as usize));
            lemma_climb_from_right(
                self.edges@,
                self.arcs@,
                self.depth@,
                p,
                self.edges.len() as nat,
            );
            assert(leftmost_arc(
                self.edges@,
                NodeId::Arc(arc as usize),
                (self.edges.len() - 1) as nat,
            ) == arc);
        }
    }

    /// In a tree whose links agree, the breakpoint that `next_edge` names for
    /// an arc is the breakpoint immediately to its right: the arc is the arc
    /// immediately to the left of that breakpoint.
    pub proof fn lemma_next_edge_is_neighbour(&self, arc: int)
        requires
            self.wf(),
            self.linked(),
            0 <= arc < self.arcs.len(),
            self.next_edge(arc) is Some,
        ensures
            self.next_edge(arc)->Some_0 < self.edges.len(),
            self.prev_arc(self.next_edge(arc)->Some_0 as int) == arc,
    {
        assert(arc_sound(self.arcs@, arc, self.edges.len() as int));
        let p = self.arcs[arc].parent_id->Some_0;
        assert(edge_sound(self.edges@, p as int, self.arcs.len() as int, self.depth@));
        if child_on(self.edges@, p as int, true) == NodeId::Arc(arc as usize) {
            assert(rightmost_arc(
                self.edges@,
                NodeId::Arc(arc as usize),
                self.edges.len() as nat,
            ) == arc);
        } else {
            assert(self.edges[p as int].right_child == NodeId::Arc(arc as usize));
            lemma_climb_from_left(
                self.edges@,
                self.arcs@,
                self.depth@,
                p,
                self.edges.len() as nat,
            );
            assert(rightmost_arc(
                self.edges@,
                NodeId::Arc(arc as usize),
                (self.edges.len() - 1) as nat,
            ) == arc);
        }
    }

    /// An empty beachline.
    pub fn new() -> (beachline: Beachline)
        ensures
            beachline.wf(),
            beachline.edges@.len() == 0,
            beachline.arcs@.len() == 0,
            beachline.root is None,
            beachline.live == 0,
    {
        Beachline {
            edges: Vec::new(),
            arcs: Vec::new(),
            root: None,
            live: 0,
            depth: Ghost(Seq::empty()),
        }
    }

    /// Finds the arc immediately to the left of a breakpoint: from its left child
    /// down, always to the right.
    pub fn find_prev_arc_id(&self, edge_id: usize) -> (arc_id: usize)
        requires
            self.wf(),
            edge_id < self.edges.len(),
        ensures
            arc_id < self.arcs.len(),
            arc_id == self.prev_arc(edge_id as int),
    {
        let ghost fuel = self.edges.len() as nat;
        let ghost mut steps: nat = 0;
        assert(edge_sound(self.edges@, edge_id as int, self.arcs.len() as int, self.depth@));
        let mut node_id = self.edges[edge_id].left_child;
        loop
            invariant
                self.wf(),
                edge_id < self.edges.len(),
                fuel == self.edges.len(),
                steps <= fuel,
                node_below(
                    node_id,
                    (self.depth@[edge_id as int] + steps) as int,
                    self.edges.len() as int,
                    self.arcs.len() as int,
                    self.depth@,
                ),
                self.prev_arc(edge_id as int) == rightmost_arc(
                    self.edges@,
                    node_id,
                    (fuel - steps) as nat,
                ),
            ensures
                node_id matches NodeId::Arc(a) && a < self.arcs.len() && a == self.prev_arc(
                    edge_id as int,
                ),
            decreases fuel - steps,
        {
            match node_id {
                NodeId::Arc(_) => {
                    break ;
                },
                NodeId::Edge(child_edge_id) => {
                    assert(edge_sound(
                        self.edges@,
                        child_edge_id as int,
                        self.arcs.len() as int,
                        self.depth@,
                    ));
                    node_id = self.edges[child_edge_id].right_child;
                    proof {
                        steps = steps + 1;
                    }
                },
            }
        }
        match node_id {
            NodeId::Arc(arc_id) => arc_id,
            NodeId::Edge(_) => 0,
        }
    }

    /// Finds the arc immediately to the right of a breakpoint: from its right
    /// child down, always to the left.
    pub fn find_next_arc_id(&self, edge_id: usize) -> (arc_id: usize)
        requires
            self.wf(),
            edge_id < self.edges.len(),
        ensures
            arc_id < self.arcs.len(),
            arc_id == self.next_arc(edge_id as int),
    {
        let ghost fuel = self.edges.len() as nat;
        let ghost mut steps: nat = 0;
        assert(edge_sound(self.edges@, edge_id as int, self.arcs.len() as int, self.depth@));
        let mut node_id = self.edges[edge_id].right_child;
        loop
            invariant
                self.wf(),
                edge_id < self.edges.len(),
                fuel == self.edges.len(),
                steps <= fuel,
                node_below(
                    node_id,
                    (self.depth@[edge_id as int] + steps) as int,
                    self.edges.len() as int,
                    self.arcs.len() as int,
                    self.depth@,
                ),
                self.next_arc(edge_id as int) == leftmost_arc(
                    self.edges@,
                    node_id,
                    (fuel - steps) as nat,
                ),
            ensures
                node_id matches NodeId::Arc(a) && a < self.arcs.len() && a == self.next_arc(
                    edge_id as int,
                ),
            decreases fuel - steps,
        {
            match node_id {
                NodeId::Arc(_) => {
                    break ;
                },
                NodeId::Edge(child_edge_id) => {
                    assert(edge_sound(
                        self.edges@,
                        child_edge_id as int,
                        self.arcs.len() as int,
                        self.depth@,
                    ));
                    node_id = self.edges[child_edge_id].left_child;
                    proof {
                        steps = steps + 1;
                    }
                },
            }
        }
        match node_id {
            NodeId::Arc(arc_id) => arc_id,
            NodeId::Edge(_) => 0,
        }
    }

    /// Finds the leftmost breakpoint: from the root down, to the left as long as
    /// there are breakpoints.
    pub fn find_first_edge_id(&self) -> (edge_id: Option<usize>)
        requires
            self.wf(),
        ensures
            edge_id == self.first_edge(),
            edge_id matches Some(e) ==> e < self.edges.len(),
    {
        match self.root {
            Some(NodeId::Edge(root_id)) => {
                let ghost fuel = self.edges.len() as nat;
                let ghost mut steps: nat = 0;
                let mut result = root_id;
                loop
                    invariant
                        self.wf(),
                        fuel == self.edges.len(),
                        result < self.edges.len(),
                        steps <= self.depth@[result as int],
                        self.first_edge() == Some(
                            leftmost_edge(self.edges@, result, (fuel - steps) as nat),
                        ),
                    ensures
                        result < self.edges.len(),
                        self.first_edge() == Some(result),
                    decreases fuel - steps,
                {
                    assert(edge_sound(
                        self.edges@,
                        result as int,
                        self.arcs.len() as int,
                        self.depth@,
                    ));
                    match self.edges[result].left_child {
                        NodeId::Arc(_) => {
                            break ;
                        },
                        NodeId::Edge(child_edge_id) => {
                            assert(edge_sound(
                                self.edges@,
                                child_edge_id as int,
                                self.arcs.len() as int,
                                self.depth@,
                            ));
                            result = child_edge_id;
                            proof {
                                steps = steps + 1;
                            }
                        },
                    }
                }
                Some(result)
            },
            _ => None,
        }
    }

    /// Finds the breakpoint on one side of an arc: the first breakpoint above
    /// the arc that is entered from its left child where `from_left` is set,
    /// from its right child where it is not.
    fn find_neighbor_edge_id(&self, arc_id: usize, from_left: bool) -> (edge_id: Option<usize>)
        requires
            self.wf(),
            arc_id < self.arcs.len(),
        ensures
            edge_id == self.neighbor_edge(arc_id as int, from_left),
            edge_id matches Some(e) ==> e < self.edges.len(),
            edge_id is Some ==> self.arcs[arc_id as int].parent_id is Some,
    {
        assert(arc_sound(self.arcs@, arc_id as int, self.edges.len() as int));
        match self.arcs[arc_id].parent_id {
            Some(parent_id) => {
                if self.get_child(parent_id, from_left) == NodeId::Arc(arc_id) {
                    Some(parent_id)
                } else {
                    let ghost fuel = self.edges.len() as nat;
                    let ghost mut steps: nat = 0;
                    let mut edge_id = parent_id;
                    assert(edge_sound(
                        self.edges@,
                        parent_id as int,
                        self.arcs.len() as int,
                        self.depth@,
                    ));
                    let mut result: Option<usize> = None;
                    loop
                        invariant
                            self.wf(),
                            fuel == self.edges.len(),
                            edge_id < self.edges.len(),
                            steps + self.depth@[edge_id as int] < fuel,
                            self.neighbor_edge(arc_id as int, from_left) == climb(
                                self.edges@,
                                edge_id,
                                from_left,
                                (fuel - steps) as nat,
                            ),
                        ensures
                            result == self.neighbor_edge(arc_id as int, from_left),
                            result matches Some(e) ==> e < self.edges.len(),
                        decreases self.depth@[edge_id as int],
                    {
                        assert(edge_sound(
                            self.edges@,
                            edge_id as int,
                            self.arcs.len() as int,
                            self.depth@,
                        ));
                        match self.edges[edge_id].parent_id {
                            Some(next_id) => {
                                if self.get_child(next_id, from_left) == NodeId::Edge(edge_id) {
                                    result = Some(next_id);
                                    break ;
                                }
                                edge_id = next_id;
                                proof {
                                    steps = steps + 1;
                                }
                            },
                            None => {
                                result = None;
                                break ;
                            },
                        }
                    }
                    result
                }
            },
            None => None,
        }
    }

    /// The left or the right child of a breakpoint.
    fn get_child(&self, edge_id: usize, left: bool) -> (child: NodeId)
        requires
            edge_id < self.edges.len(),
        ensures
            child == self.child_on(edge_id as int, left),
    {
        if left {
            self.edges[edge_id].left_child
        } else {
            self.edges[edge_id].right_child
        }
    }

    /// Finds the breakpoint immediately to the left of an arc: the first
    /// breakpoint above it that has the arc in its right subtree.
    pub fn find_prev_edge_id(&self, arc_id: usize) -> (edge_id: Option<usize>)
        requires
            self.wf(),
            arc_id < self.arcs.len(),
        ensures
            edge_id == self.prev_edge(arc_id as int),
            edge_id matches Some(e) ==> e < self.edges.len(),
            edge_id is Some ==> self.arcs[arc_id as int].parent_id is Some,
    {
        self.find_neighbor_edge_id(arc_id, false)
    }

    /// Finds the breakpoint immediately to the right of an arc: the first
    /// breakpoint above it that has the arc in its left subtree.
    pub fn find_next_edge_id(&self, arc_id: usize) -> (edge_id: Option<usize>)
        requires
            self.wf(),
            arc_id < self.arcs.len(),
        ensures
            edge_id == self.next_edge(arc_id as int),
            edge_id matches Some(e) ==> e < self.edges.len(),
            edge_id is Some ==> self.arcs[arc_id as int].parent_id is Some,
    {
        self.find_neighbor_edge_id(arc_id, true)
    }

    /// Puts the first arc on an empty beachline.
    pub fn start(&mut self, face_id: usize) -> (arc_id: usize)
        requires
            old(self).wf(),
            old(self).root is None,
        ensures
            final(self).wf(),
            arc_id == old(self).arcs.len(),
            final(self).arcs@ == old(self).arcs@.push(
                Arc { id: arc_id, face_id, remove_event_id: None, parent_id: None },
            ),
            final(self).edges == old(self).edges,
            final(self).depth == old(self).depth,
            final(self).root == Some(NodeId::Arc(arc_id)),
            final(self).live == old(self).live + 1,
            old(self).linked() ==> final(self).linked(),
    {
        let arc_id = self.arcs.len();
        self.arcs.push(Arc { id: arc_id, face_id, remove_event_id: None, parent_id: None });
        self.root = Some(NodeId::Arc(arc_id));
        assert(self.live < self.arcs.len());
        self.live = self.live + 1;
        proof {
            assert forall|e: int| 0 <= e < self.edges.len() implies #[trigger] edge_sound(
                self.edges@,
                e,
                self.arcs.len() as int,
                self.depth@,
            ) by {
                assert(edge_sound(
                    old(self).edges@,
                    e,
                    old(self).arcs.len() as int,
                    old(self).depth@,
                ));
            }
            assert forall|a: int| 0 <= a < self.arcs.len() implies #[trigger] arc_sound(
                self.arcs@,
                a,
                self.edges.len() as int,
            ) by {
                if a < arc_id {
                    assert(arc_sound(old(self).arcs@, a, old(self).edges.len() as int));
                }
            }
        }
        arc_id
    }

    /// Records the removal event that is pending for an arc, or that none is.
    pub fn set_remove_event(&mut self, arc_id: usize, event_id: Option<usize>)
        requires
            old(self).wf(),
            arc_id < old(self).arcs.len(),
        ensures
            final(self).wf(),
            final(self).arcs@ == old(self).arcs@.update(
                arc_id as int,
                Arc { remove_event_id: event_id, ..old(self).arcs[arc_id as int] },
            ),
            final(self).edges == old(self).edges,
            final(self).depth == old(self).depth,
            final(self).root == old(self).root,
            final(self).live == old(self).live,
            old(self).linked() ==> final(self).linked(),
    {
        let mut arc = self.arcs[arc_id];
        arc.remove_event_id = event_id;
        self.arcs[arc_id] = arc;
        proof {
            assert forall|e: int| 0 <= e < self.edges.len() implies #[trigger] edge_sound(
                self.edges@,
                e,
                self.arcs.len() as int,
                self.depth@,
            ) by {
                assert(edge_sound(
                    old(self).edges@,
                    e,
                    old(self).arcs.len() as int,
                    old(self).depth@,
                ));
            }
            assert forall|a: int| 0 <= a < self.arcs.len() implies #[trigger] arc_sound(
                self.arcs@,
                a,
                self.edges.len() as int,
            ) by {
                assert(arc_sound(old(self).arcs@, a, old(self).edges.len() as int));
            }
        }
    }

    /// Makes a breakpoint trace another half-edge.
    pub fn set_edge_half_edge(&mut self, edge_id: usize, half_edge_id: usize)
        requires
            old(self).wf(),
            edge_id < old(self).edges.len(),
        ensures
            final(self).wf(),
            final(self).edges@ == old(self).edges@.update(
                edge_id as int,
                Edge { half_edge_id, ..old(self).edges[edge_id as int] },
            ),
            final(self).arcs == old(self).arcs,
            final(self).depth == old(self).depth,
            final(self).root == old(self).root,
            final(self).live == old(self).live,
            old(self).linked() ==> final(self).linked(),
    {
        let mut edge = self.edges[edge_id];
        edge.half_edge_id = half_edge_id;
        self.edges[edge_id] = edge;
        proof {
            if old(self).linked() {
                assert forall|a: int| 0 <= a < self.arcs.len() implies ((
                #[trigger] self.arcs@[a]).parent_id matches Some(p) ==> {
                    ||| self.edges@[p as int].left_child == NodeId::Arc(a as usize)
                    ||| self.edges@[p as int].right_child == NodeId::Arc(a as usize)
                }) by {
                    assert(arc_sound(old(self).arcs@, a, old(self).edges.len() as int));
                }
                assert forall|e: int| 0 <= e < self.edges.len() implies ((
                #[trigger] self.edges@[e]).parent_id matches Some(p) ==> {
                    ||| self.edges@[p as int].left_child == NodeId::Edge(e as usize)
                    ||| self.edges@[p as int].right_child == NodeId::Edge(e as usize)
                }) by {
                    assert(edge_sound(
                        old(self).edges@,
                        e,
                        old(self).arcs.len() as int,
                        old(self).depth@,
                    ));
                }
            }
        }
        proof {
            assert forall|e: int| 0 <= e < self.edges.len() implies #[trigger] edge_sound(
                self.edges@,
                e,
                self.arcs.len() as int,
                self.depth@,
            ) by {
                assert(edge_sound(
                    old(self).edges@,
                    e,
                    old(self).arcs.len() as int,
                    old(self).depth@,
                ));
            }
            assert forall|a: int| 0 <= a < self.arcs.len() implies #[trigger] arc_sound(
                self.arcs@,
                a,
                self.edges.len() as int,
            ) by {
                assert(arc_sound(old(self).arcs@, a, old(self).edges.len() as int));
            }
        }
    }

    /// Whether `child` is the left or the right child of a breakpoint.
    pub open spec fn has_child(&self, edge: int, child: NodeId) -> bool {
        self.edges[edge].left_child == child || self.edges[edge].right_child == child
    }

    /// Puts `new_child` in the place of `old_child` below a breakpoint, the left
    /// child being looked at first, and makes the breakpoint the parent of
    /// `new_child`. Fails, and changes nothing, where `old_child` is not a
    /// child of the breakpoint.
    pub fn replace_child(
        &mut self,
        parent_edge_id: usize,
        old_child: NodeId,
        new_child: NodeId,
    ) -> (result: Result<(), BuildError>)
        requires
            old(self).wf(),
            parent_edge_id < old(self).edges.len(),
            node_below(
                new_child,
                old(self).depth@[parent_edge_id as int] as int,
                old(self).edges.len() as int,
                old(self).arcs.len() as int,
                old(self).depth@,
            ),
        ensures
            final(self).wf(),
            final(self).root == old(self).root,
            final(self).live == old(self).live,
            final(self).depth == old(self).depth,
            final(self).arcs.len() == old(self).arcs.len(),
            final(self).edges.len() == old(self).edges.len(),
            forall|e: int|
                0 <= e < old(self).edges.len() ==> (#[trigger] final(self).edges[e]).half_edge_id
                    == old(self).edges[e].half_edge_id,
            forall|a: int|
                0 <= a < old(self).arcs.len() ==> (#[trigger] final(self).arcs[a]).face_id
                    == old(self).arcs[a].face_id,
            result is Ok <==> old(self).has_child(parent_edge_id as int, old_child),
            result is Err ==> result == Err::<(), BuildError>(BuildError::NotAChild) && *final(self)
                == *old(self),
            result is Ok ==> final(self).arcs@ == adopted_arcs(
                old(self).arcs@,
                new_child,
                parent_edge_id,
            ),
            result is Ok ==> final(self).edges@ == relinked(
                adopted_edges(old(self).edges@, new_child, parent_edge_id),
                parent_edge_id as int,
                old_child,
                new_child,
            ),
    {
        let on_left = self.edges[parent_edge_id].left_child == old_child;
        if !on_left && !(self.edges[parent_edge_id].right_child == old_child) {
            return Err(BuildError::NotAChild);
        }
        match new_child {
            NodeId::Arc(arc_id) => {
                let mut arc = self.arcs[arc_id];
                arc.parent_id = Some(parent_edge_id);
                self.arcs[arc_id] = arc;
            },
            NodeId::Edge(edge_id) => {
                let mut edge = self.edges[edge_id];
                edge.parent_id = Some(parent_edge_id);
                self.edges[edge_id] = edge;
            },
        }
        let mut parent = self.edges[parent_edge_id];
        if on_left {
            parent.left_child = new_child;
        } else {
            parent.right_child = new_child;
        }
        self.edges[parent_edge_id] = parent;
        proof {
            assert forall|e: int| 0 <= e < self.edges.len() implies #[trigger] edge_sound(
                self.edges@,
                e,
                self.arcs.len() as int,
                self.depth@,
            ) by {
                assert(edge_sound(
                    old(self).edges@,
                    e,
                    old(self).arcs.len() as int,
                    old(self).depth@,
                ));
            }
            assert forall|a: int| 0 <= a < self.arcs.len() implies #[trigger] arc_sound(
                self.arcs@,
                a,
                self.edges.len() as int,
            ) by {
                assert(arc_sound(old(self).arcs@, a, old(self).edges.len() as int));
            }
        }
        Ok(())
    }

    /// The arcs after the arc `arc` was split for a site of the face `face_id`:
    /// the arc hangs below the new left breakpoint, and the arc of the new face
    /// and a copy of the arc, in this order, come last, below the new right
    /// breakpoint.
    pub open spec fn split_arcs(&self, arc: int, face_id: usize) -> Seq<Arc> {
        let right = self.edges@.len() as usize;
        let left = (self.edges@.len() + 1) as usize;
        self.arcs@.update(arc, Arc { parent_id: Some(left), ..self.arcs[arc] }).push(
            Arc {
                id: self.arcs@.len() as usize,
                face_id,
                remove_event_id: None,
                parent_id: Some(right),
            },
        ).push(
            Arc {
                id: (self.arcs@.len() + 1) as usize,
                face_id: self.arcs[arc].face_id,
                remove_event_id: None,
                parent_id: Some(right),
            },
        )
    }

    /// The breakpoints after the arc `arc` was split: the right breakpoint,
    /// between the new arc and the copy, and the left breakpoint, between the
    /// arc and the right breakpoint, come last, in this order; the left one
    /// stands where the arc stood below its parent.
    pub open spec fn split_edges(&self, arc: int, half_edge_id: usize, twin_id: usize) -> Seq<Edge> {
        let right = self.edges@.len() as usize;
        let left = (self.edges@.len() + 1) as usize;
        let parent = self.arcs[arc].parent_id;
        (match parent {
            Some(p) => relinked(
                self.edges@,
                p as int,
                NodeId::Arc(arc as usize),
                NodeId::Edge(left),
            ),
            None => self.edges@,
        }).push(
            Edge {
                id: right,
                half_edge_id,
                parent_id: Some(left),
                left_child: NodeId::Arc(self.arcs@.len() as usize),
                right_child: NodeId::Arc((self.arcs@.len() + 1) as usize),
            },
        ).push(
            Edge {
                id: left,
                half_edge_id: twin_id,
                parent_id: parent,
                left_child: NodeId::Arc(arc as usize),
                right_child: NodeId::Edge(right),
            },
        )
    }

    /// The root after the arc `arc` was split: the new left breakpoint, where the
    /// arc had no parent.
    pub open spec fn split_root(&self, arc: int) -> Option<NodeId> {
        if self.arcs[arc].parent_id is None {
            Some(NodeId::Edge((self.edges@.len() + 1) as usize))
        } else {
            self.root
        }
    }

    /// Replaces an arc by three arcs and two breakpoints, for a new site whose
    /// arc cuts it in two: in the place of the arc stands a breakpoint with the
    /// arc itself to its left and, to its right, a second breakpoint between the
    /// arc of the new face and a copy of the arc. The first breakpoint traces
    /// `twin_id`, the half-edge on the face of the arc; the second traces
    /// `half_edge_id`, the half-edge on the new face.
    ///
    /// Returns the new arc and the copy. Fails, and changes nothing, where the
    /// arc is not a child of the breakpoint it names as its parent.
    pub fn split(
        &mut self,
        arc_id: usize,
        face_id: usize,
        half_edge_id: usize,
        twin_id: usize,
    ) -> (result: Result<(usize, usize), BuildError>)
        requires
            old(self).wf(),
            arc_id < old(self).arcs.len(),
        ensures
            final(self).wf(),
            final(self).arcs.len() >= old(self).arcs.len(),
            final(self).edges.len() >= old(self).edges.len(),
            forall|e: int|
                0 <= e < old(self).edges.len() ==> (#[trigger] final(self).edges[e]).half_edge_id
                    == old(self).edges[e].half_edge_id,
            forall|a: int|
                0 <= a < old(self).arcs.len() ==> (#[trigger] final(self).arcs[a]).face_id
                    == old(self).arcs[a].face_id,
            result is Ok <==> (old(self).arcs[arc_id as int].parent_id matches Some(p)
                ==> old(self).has_child(p as int, NodeId::Arc(arc_id))),
            result is Err ==> result == Err::<(usize, usize), BuildError>(BuildError::NotAChild)
                && *final(self) == *old(self),
            result is Ok ==> final(self).arcs@.len() == old(self).arcs@.len() + 2,
            result is Ok ==> final(self).edges@.len() == old(self).edges@.len() + 2,
            result matches Ok(ids) ==> {
                &&& ids.0 == old(self).arcs@.len()
                &&& ids.1 == old(self).arcs@.len() + 1
                &&& final(self).arcs@ == old(self).split_arcs(arc_id as int, face_id)
                &&& final(self).edges@ == old(self).split_edges(arc_id as int, half_edge_id, twin_id)
                &&& final(self).root == old(self).split_root(arc_id as int)
                &&& final(self).live == old(self).live + 2
            },
            old(self).linked() ==> final(self).linked(),
    {
        assert(arc_sound(self.arcs@, arc_id as int, self.edges.len() as int));
        let parent_id = self.arcs[arc_id].parent_id;
        let mut on_left = false;
        match parent_id {
            Some(p) => {
                assert(edge_sound(self.edges@, p as int, self.arcs.len() as int, self.depth@));
                on_left = self.edges[p].left_child == NodeId::Arc(arc_id);
                if !on_left && !(self.edges[p].right_child == NodeId::Arc(arc_id)) {
                    return Err(BuildError::NotAChild);
                }
            },
            None => {},
        }
        let ghost rank: nat = match parent_id {
            Some(p) => self.depth@[p as int] + 1,
            None => 0,
        };
        let split_face_id = self.arcs[arc_id].face_id;
        let new_arc_id = self.arcs.len();
        let right_edge_id = self.edges.len();
        self.arcs.push(
            Arc {
                id: new_arc_id,
                face_id,
                remove_event_id: None,
                parent_id: Some(right_edge_id),
            },
        );
        let cloned_arc_id = self.arcs.len();
        self.arcs.push(
            Arc {
                id: cloned_arc_id,
                face_id: split_face_id,
                remove_event_id: None,
                parent_id: Some(right_edge_id),
            },
        );
        self.edges.push(
            Edge {
                id: right_edge_id,
                half_edge_id,
                parent_id: None,
                left_child: NodeId::Arc(new_arc_id),
                right_child: NodeId::Arc(cloned_arc_id),
            },
        );
        let left_edge_id = self.edges.len();
        let mut right_edge = self.edges[right_edge_id];
        right_edge.parent_id = Some(left_edge_id);
        self.edges[right_edge_id] = right_edge;
        self.edges.push(
            Edge {
                id: left_edge_id,
                half_edge_id: twin_id,
                parent_id,
                left_child: NodeId::Arc(arc_id),
                right_child: NodeId::Edge(right_edge_id),
            },
        );
        let mut arc = self.arcs[arc_id];
        arc.parent_id = Some(left_edge_id);
        self.arcs[arc_id] = arc;
        match parent_id {
            Some(p) => {
                let mut parent = self.edges[p];
                if on_left {
                    parent.left_child = NodeId::Edge(left_edge_id);
                } else {
                    parent.right_child = NodeId::Edge(left_edge_id);
                }
                self.edges[p] = parent;
            },
            None => {
                self.root = Some(NodeId::Edge(left_edge_id));
            },
        }
        assert(self.live + 2 <= self.arcs.len());
        self.live = self.live + 2;
        proof {
            self.depth@ = old(self).depth@.push(rank + 1).push(rank);
            assert forall|e: int| 0 <= e < self.edges.len() implies #[trigger] edge_sound(
                self.edges@,
                e,
                self.arcs.len() as int,
                self.depth@,
            ) by {
                if e < right_edge_id {
                    assert(edge_sound(
                        old(self).edges@,
                        e,
                        old(self).arcs.len() as int,
                        old(self).depth@,
                    ));
                }
            }
            assert forall|a: int| 0 <= a < self.arcs.len() implies #[trigger] arc_sound(
                self.arcs@,
                a,
                self.edges.len() as int,
            ) by {
                if a < new_arc_id {
                    assert(arc_sound(old(self).arcs@, a, old(self).edges.len() as int));
                }
            }
            if old(self).linked() {
                assert forall|a: int| 0 <= a < self.arcs.len() implies ((
                #[trigger] self.arcs@[a]).parent_id matches Some(p) ==> {
                    ||| self.edges@[p as int].left_child == NodeId::Arc(a as usize)
                    ||| self.edges@[p as int].right_child == NodeId::Arc(a as usize)
                }) by {
                    if a < new_arc_id {
                        assert(arc_sound(old(self).arcs@, a, old(self).edges.len() as int));
                    }
                }
                assert forall|e: int| 0 <= e < self.edges.len() implies ((
                #[trigger] self.edges@[e]).parent_id matches Some(p) ==> {
                    ||| self.edges@[p as int].left_child == NodeId::Edge(e as usize)
                    ||| self.edges@[p as int].right_child == NodeId::Edge(e as usize)
                }) by {
                    if e < right_edge_id {
                        assert(edge_sound(
                            old(self).edges@,
                            e,
                            old(self).arcs.len() as int,
                            old(self).depth@,
                        ));
                    }
                }
            }
        }
        Ok((new_arc_id, cloned_arc_id))
    }

    /// What the removal of an arc between two breakpoints does to the tree: the
    /// breakpoint that leaves, the one that stays, the sibling of the arc, and
    /// the parent of the breakpoint that leaves; or why the arc cannot leave.
    pub open spec fn collapse_plan(&self, arc: int, left_edge: int, right_edge: int) -> Result<
        (usize, usize, NodeId, usize),
        BuildError,
    > {
        if self.live == 0 {
            Err(BuildError::EmptyBeachline)
        } else if self.edges[left_edge].right_child == NodeId::Arc(arc as usize) {
            match self.edges[left_edge].parent_id {
                None => Err(BuildError::MissingParent),
                Some(grand) => if self.has_child(grand as int, NodeId::Edge(left_edge as usize)) {
                    Ok(
                        (
                            left_edge as usize,
                            right_edge as usize,
                            self.edges[left_edge].left_child,
                            grand,
                        ),
                    )
                } else {
                    Err(BuildError::NotAChild)
                },
            }
        } else if self.edges[right_edge].left_child == NodeId::Arc(arc as usize) {
            match self.edges[right_edge].parent_id {
                None => Err(BuildError::MissingParent),
                Some(grand) => if self.has_child(grand as int, NodeId::Edge(right_edge as usize)) {
                    Ok(
                        (
                            right_edge as usize,
                            left_edge as usize,
                            self.edges[right_edge].right_child,
                            grand,
                        ),
                    )
                } else {
                    Err(BuildError::NotAChild)
                },
            }
        } else {
            Err(BuildError::NotAChild)
        }
    }

    /// Takes an arc out of the tree. Of the breakpoints to its left and right,
    /// the one that is its parent leaves with it, and the sibling of the arc
    /// takes the place of that breakpoint; the other breakpoint stays and is
    /// returned. The arc no longer has a parent or a pending event, and the
    /// breakpoint that left no longer has a parent.
    ///
    /// Fails, and changes nothing, where the tree holds no arc, where the arc
    /// is a child of neither breakpoint, or where its parent is the root or is
    /// not a child of its own parent.
    pub fn collapse(&mut self, arc_id: usize, left_edge_id: usize, right_edge_id: usize) -> (result:
        Result<usize, BuildError>)
        requires
            old(self).wf(),
            arc_id < old(self).arcs.len(),
            left_edge_id < old(self).edges.len(),
            right_edge_id < old(self).edges.len(),
        ensures
            final(self).wf(),
            final(self).root == old(self).root,
            final(self).arcs.len() == old(self).arcs.len(),
            final(self).edges.len() == old(self).edges.len(),
            forall|e: int|
                0 <= e < old(self).edges.len() ==> (#[trigger] final(self).edges[e]).half_edge_id
                    == old(self).edges[e].half_edge_id,
            forall|a: int|
                0 <= a < old(self).arcs.len() ==> (#[trigger] final(self).arcs[a]).face_id
                    == old(self).arcs[a].face_id,
            match old(self).collapse_plan(
                arc_id as int,
                left_edge_id as int,
                right_edge_id as int,
            ) {
                Err(e) => result == Err::<usize, BuildError>(e) && *final(self) == *old(self),
                Ok((gone, kept, sibling, grand)) => {
                    &&& result == Ok::<usize, BuildError>(kept)
                    &&& final(self).live == old(self).live - 1
                    &&& final(self).arcs@ == adopted_arcs(old(self).arcs@, sibling, grand).update(
                        arc_id as int,
                        Arc {
                            parent_id: None,
                            remove_event_id: None,
                            ..adopted_arcs(old(self).arcs@, sibling, grand)[arc_id as int]
                        },
                    )
                    &&& final(self).edges@ == retired(
                        relinked(
                            adopted_edges(old(self).edges@, sibling, grand),
                            grand as int,
                            NodeId::Edge(gone),
                            sibling,
                        ),
                        gone as int,
                    )
                },
            },
            old(self).linked() ==> final(self).linked(),
    {
        if self.live == 0 {
            return Err(BuildError::EmptyBeachline);
        }
        assert(edge_sound(
            self.edges@,
            left_edge_id as int,
            self.arcs.len() as int,
            self.depth@,
        ));
        assert(edge_sound(
            self.edges@,
            right_edge_id as int,
            self.arcs.len() as int,
            self.depth@,
        ));
        let (gone, kept, sibling) = if self.edges[left_edge_id].right_child == NodeId::Arc(arc_id) {
            (left_edge_id, right_edge_id, self.edges[left_edge_id].left_child)
        } else if self.edges[right_edge_id].left_child == NodeId::Arc(arc_id) {
            (right_edge_id, left_edge_id, self.edges[right_edge_id].right_child)
        } else {
            return Err(BuildError::NotAChild);
        };
        let grand = match self.edges[gone].parent_id {
            Some(grand) => grand,
            None => {
                return Err(BuildError::MissingParent);
            },
        };
        match self.replace_child(grand, NodeId::Edge(gone), sibling) {
            Ok(()) => {},
            Err(e) => {
                return Err(e);
            },
        }
        let ghost before = *self;
        let mut gone_edge = self.edges[gone];
        gone_edge.parent_id = None;
        self.edges[gone] = gone_edge;
        let mut arc = self.arcs[arc_id];
        arc.parent_id = None;
        arc.remove_event_id = None;
        self.arcs[arc_id] = arc;
        self.live = self.live - 1;
        proof {
            assert(self.edges@ =~= retired(before.edges@, gone as int));
            assert forall|e: int| 0 <= e < self.edges.len() implies #[trigger] edge_sound(
                self.edges@,
                e,
                self.arcs.len() as int,
                self.depth@,
            ) by {
                assert(edge_sound(before.edges@, e, before.arcs.len() as int, before.depth@));
            }
            assert forall|a: int| 0 <= a < self.arcs.len() implies #[trigger] arc_sound(
                self.arcs@,
                a,
                self.edges.len() as int,
            ) by {
                assert(arc_sound(before.arcs@, a, before.edges.len() as int));
            }
            if old(self).linked() {
                assert forall|a: int| 0 <= a < self.arcs.len() implies ((
                #[trigger] self.arcs@[a]).parent_id matches Some(p) ==> {
                    ||| self.edges@[p as int].left_child == NodeId::Arc(a as usize)
                    ||| self.edges@[p as int].right_child == NodeId::Arc(a as usize)
                }) by {
                    assert(arc_sound(old(self).arcs@, a, old(self).edges.len() as int));
                }
                assert forall|e: int| 0 <= e < self.edges.len() implies ((
                #[trigger] self.edges@[e]).parent_id matches Some(p) ==> {
                    ||| self.edges@[p as int].left_child == NodeId::Edge(e as usize)
                    ||| self.edges@[p as int].right_child == NodeId::Edge(e as usize)
                }) by {
                    assert(edge_sound(
                        old(self).edges@,
                        e,
                        old(self).arcs.len() as int,
                        old(self).depth@,
                    ));
                }
            }
        }
        Ok(kept)
    }
}

/// The last arc below `node`: the node itself, or the last arc below its right
/// child.
///
/// Here and in the functions that follow, `fuel` bounds the number of
/// breakpoints on the way. In a well-formed tree the rank grows on the way
/// down and stays below the number of breakpoints, so that a walk with that
/// number as fuel comes to its end before the fuel does.
pub open spec fn rightmost_arc(edges: Seq<Edge>, node: NodeId, fuel: nat) -> usize
    decreases fuel,
{
    match node {
        NodeId::Arc(a) => a,
        NodeId::Edge(e) => if fuel == 0 {
            0
        } else {
            rightmost_arc(edges, edges[e as int].right_child, (fuel - 1) as nat)
        },
    }
}

/// The first arc below `node`: the node itself, or the first arc below its left
/// child.
pub open spec fn leftmost_arc(edges: Seq<Edge>, node: NodeId, fuel: nat) -> usize
    decreases fuel,
{
    match node {
        NodeId::Arc(a) => a,
        NodeId::Edge(e) => if fuel == 0 {
            0
        } else {
            leftmost_arc(edges, edges[e as int].left_child, (fuel - 1) as nat)
        },
    }
}

/// `arc` is one of the arcs below `node`.
pub open spec fn leaf_below(edges: Seq<Edge>, node: NodeId, arc: usize, fuel: nat) -> bool
    decreases fuel,
{
    match node {
        NodeId::Arc(a) => a == arc,
        NodeId::Edge(e) => fuel > 0 && (leaf_below(
            edges,
            edges[e as int].left_child,
            arc,
            (fuel - 1) as nat,
        ) || leaf_below(edges, edges[e as int].right_child, arc, (fuel - 1) as nat)),
    }
}

/// The breakpoint reached from `edge` by going to left children as long as they
/// are breakpoints.
pub open spec fn leftmost_edge(edges: Seq<Edge>, edge: usize, fuel: nat) -> usize
    decreases fuel,
{
    match edges[edge as int].left_child {
        NodeId::Arc(_) => edge,
        NodeId::Edge(c) => if fuel == 0 {
            edge
        } else {
            leftmost_edge(edges, c, (fuel - 1) as nat)
        },
    }
}

/// The left child of a breakpoint where `left` is set, else its right child.
pub open spec fn child_on(edges: Seq<Edge>, edge: int, left: bool) -> NodeId {
    if left {
        edges[edge].left_child
    } else {
        edges[edge].right_child
    }
}

/// The first breakpoint above `edge` that is entered from its right child, or
/// from its left child where `from_left` is set.
pub open spec fn climb(edges: Seq<Edge>, edge: usize, from_left: bool, fuel: nat) -> Option<usize>
    decreases fuel,
{
    match edges[edge as int].parent_id {
        None => None,
        Some(p) => if child_on(edges, p as int, from_left) == NodeId::Edge(edge) {
            Some(p)
        } else if fuel == 0 {
            None
        } else {
            climb(edges, p, from_left, (fuel - 1) as nat)
        },
    }
}

/// The breakpoints after `new_child` took the place of `old_child` below the
/// breakpoint `parent`, the left child being looked at first.
pub open spec fn relinked(edges: Seq<Edge>, parent: int, old_child: NodeId, new_child: NodeId) -> Seq<
    Edge,
> {
    if edges[parent].left_child == old_child {
        edges.update(parent, Edge { left_child: new_child, ..edges[parent] })
    } else {
        edges.update(parent, Edge { right_child: new_child, ..edges[parent] })
    }
}

/// The breakpoints after the breakpoint `gone` left the tree: it has no parent
/// any more.
pub open spec fn retired(edges: Seq<Edge>, gone: int) -> Seq<Edge> {
    edges.update(gone, Edge { parent_id: None, ..edges[gone] })
}

/// The arcs after the breakpoint `parent` became the parent of `child`.
pub open spec fn adopted_arcs(arcs: Seq<Arc>, child: NodeId, parent: usize) -> Seq<Arc> {
    match child {
        NodeId::Arc(a) => arcs.update(a as int, Arc { parent_id: Some(parent), ..arcs[a as int] }),
        NodeId::Edge(_) => arcs,
    }
}

/// The breakpoints after the breakpoint `parent` became the parent of `child`.
pub open spec fn adopted_edges(edges: Seq<Edge>, child: NodeId, parent: usize) -> Seq<Edge> {
    match child {
        NodeId::Arc(_) => edges,
        NodeId::Edge(c) => edges.update(
            c as int,
            Edge { parent_id: Some(parent), ..edges[c as int] },
        ),
    }
}

/// Every node that has a parent is a child of that parent.
pub open spec fn links_agree(edges: Seq<Edge>, arcs: Seq<Arc>) -> bool {
    &&& forall|a: int|
        0 <= a < arcs.len() ==> ((#[trigger] arcs[a]).parent_id matches Some(p) ==> {
            ||| edges[p as int].left_child == NodeId::Arc(a as usize)
            ||| edges[p as int].right_child == NodeId::Arc(a as usize)
        })
    &&& forall|e: int|
        0 <= e < edges.len() ==> ((#[trigger] edges[e]).parent_id matches Some(p) ==> {
            ||| edges[p as int].left_child == NodeId::Edge(e as usize)
            ||| edges[p as int].right_child == NodeId::Edge(e as usize)
        })
}

/// The fuel that a walk down from `node` needs at most.
pub open spec fn fuel_below(node: NodeId, edges: int, depth: Seq<nat>) -> int {
    match node {
        NodeId::Arc(_) => 0,
        NodeId::Edge(c) => edges - depth[c as int],
    }
}

/// With enough fuel, the first arc below a node does not depend on the fuel.
pub proof fn lemma_leftmost_arc_fuel(
    edges: Seq<Edge>,
    arcs: int,
    depth: Seq<nat>,
    node: NodeId,
    f1: nat,
    f2: nat,
)
    requires
        forall|e: int| 0 <= e < edges.len() ==> #[trigger] edge_sound(edges, e, arcs, depth),
        node matches NodeId::Edge(c) ==> c < edges.len(),
        f1 >= fuel_below(node, edges.len() as int, depth),
        f2 >= fuel_below(node, edges.len() as int, depth),
    ensures
        leftmost_arc(edges, node, f1) == leftmost_arc(edges, node, f2),
    decreases f1,
{
    match node {
        NodeId::Arc(_) => {},
        NodeId::Edge(c) => {
            assert(edge_sound(edges, c as int, arcs, depth));
            lemma_leftmost_arc_fuel(
                edges,
                arcs,
                depth,
                edges[c as int].left_child,
                (f1 - 1) as nat,
                (f2 - 1) as nat,
            );
        },
    }
}

/// With enough fuel, the last arc below a node does not depend on the fuel.
pub proof fn lemma_rightmost_arc_fuel(
    edges: Seq<Edge>,
    arcs: int,
    depth: Seq<nat>,
    node: NodeId,
    f1: nat,
    f2: nat,
)
    requires
        forall|e: int| 0 <= e < edges.len() ==> #[trigger] edge_sound(edges, e, arcs, depth),
        node matches NodeId::Edge(c) ==> c < edges.len(),
        f1 >= fuel_below(node, edges.len() as int, depth),
        f2 >= fuel_below(node, edges.len() as int, depth),
    ensures
        rightmost_arc(edges, node, f1) == rightmost_arc(edges, node, f2),
    decreases f1,
{
    match node {
        NodeId::Arc(_) => {},
        NodeId::Edge(c) => {
            assert(edge_sound(edges, c as int, arcs, depth));
            lemma_rightmost_arc_fuel(
                edges,
                arcs,
                depth,
                edges[c as int].right_child,
                (f1 - 1) as nat,
                (f2 - 1) as nat,
            );
        },
    }
}

/// Where the climb from a breakpoint ends in a breakpoint that is entered from
/// its right child, the first arc to the right of that breakpoint is the
/// first arc below the one from which the climb began.
pub proof fn lemma_climb_from_right(
    edges: Seq<Edge>,
    arcs: Seq<Arc>,
    depth: Seq<nat>,
    c: usize,
    fuel: nat,
)
    requires
        forall|e: int|
            0 <= e < edges.len() ==> #[trigger] edge_sound(edges, e, arcs.len() as int, depth),
        links_agree(edges, arcs),
        c < edges.len(),
        climb(edges, c, false, fuel) is Some,
    ensures
        climb(edges, c, false, fuel)->Some_0 < edges.len(),
        leftmost_arc(
            edges,
            edges[climb(edges, c, false, fuel)->Some_0 as int].right_child,
            edges.len(),
        ) == leftmost_arc(edges, NodeId::Edge(c), edges.len()),
    decreases fuel,
{
    assert(edge_sound(edges, c as int, arcs.len() as int, depth));
    let p = edges[c as int].parent_id->Some_0;
    assert(edge_sound(edges, p as int, arcs.len() as int, depth));
    if edges[p as int].right_child == NodeId::Edge(c) {
    } else {
        assert(edges[p as int].left_child == NodeId::Edge(c));
        lemma_climb_from_right(edges, arcs, depth, p, (fuel - 1) as nat);
        lemma_leftmost_arc_fuel(
            edges,
            arcs.len() as int,
            depth,
            NodeId::Edge(c),
            (edges.len() - 1) as nat,
            edges.len(),
        );
    }
}

/// Where the climb from a breakpoint ends in a breakpoint that is entered from
/// its left child, the last arc to the left of that breakpoint is the last arc
/// below the one from which the climb began.
pub proof fn lemma_climb_from_left(
    edges: Seq<Edge>,
    arcs: Seq<Arc>,
    depth: Seq<nat>,
    c: usize,
    fuel: nat,
)
    requires
        forall|e: int|
            0 <= e < edges.len() ==> #[trigger] edge_sound(edges, e, arcs.len() as int, depth),
        links_agree(edges, arcs),
        c < edges.len(),
        climb(edges, c, true, fuel) is Some,
    ensures
        climb(edges, c, true, fuel)->Some_0 < edges.len(),
        rightmost_arc(
            edges,
            edges[climb(edges, c, true, fuel)->Some_0 as int].left_child,
            edges.len(),
        ) == rightmost_arc(edges, NodeId::Edge(c), edges.len()),
    decreases fuel,
{
    assert(edge_sound(edges, c as int, arcs.len() as int, depth));
    let p = edges[c as int].parent_id->Some_0;
    assert(edge_sound(edges, p as int, arcs.len() as int, depth));
    if edges[p as int].left_child == NodeId::Edge(c) {
    } else {
        assert(edges[p as int].right_child == NodeId::Edge(c));
        lemma_climb_from_left(edges, arcs, depth, p, (fuel - 1) as nat);
        lemma_rightmost_arc_fuel(
            edges,
            arcs.len() as int,
            depth,
            NodeId::Edge(c),
            (edges.len() - 1) as nat,
            edges.len(),
        );
    }
}

} // verus!

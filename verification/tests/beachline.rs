use pop::beachline::{Arc, Beachline, Edge, NodeId};
use pop::error::BuildError;

/// arcs 0 1 2 from left to right: edge 1 = (arc 0 | edge 0), edge 0 = (arc 1 | arc 2)
fn three_arcs() -> Beachline {
    let mut beachline = Beachline::new();
    assert_eq!(beachline.start(10), 0);
    assert_eq!(beachline.split(0, 11, 100, 101), Ok((1, 2)));
    beachline
}

/// arcs 0 3 4 1 2 from left to right, after arc 0 was split again:
/// edge 1 = (edge 3 | edge 0), edge 3 = (arc 0 | edge 2), edge 2 = (arc 3 | arc 4)
fn five_arcs() -> Beachline {
    let mut beachline = three_arcs();
    assert_eq!(beachline.split(0, 12, 102, 103), Ok((3, 4)));
    beachline
}

#[test]
fn an_empty_beachline_has_no_breakpoint() {
    let beachline = Beachline::new();
    assert_eq!(beachline.root, None);
    assert_eq!(beachline.find_first_edge_id(), None);
    assert_eq!(beachline.live, 0);
}

#[test]
fn the_first_arc_is_the_root() {
    let mut beachline = Beachline::new();
    assert_eq!(beachline.start(4), 0);
    assert_eq!(beachline.root, Some(NodeId::Arc(0)));
    assert_eq!(beachline.live, 1);
    assert_eq!(beachline.arcs.len(), 1);
    assert_eq!(
        (beachline.arcs[0].id, beachline.arcs[0].face_id, beachline.arcs[0].parent_id, beachline.arcs[0].remove_event_id),
        (0, 4, None, None)
    );
    assert_eq!(beachline.find_first_edge_id(), None);
    assert_eq!(beachline.find_prev_edge_id(0), None);
    assert_eq!(beachline.find_next_edge_id(0), None);
}

#[test]
fn split_puts_two_breakpoints_in_the_place_of_an_arc() {
    let beachline = three_arcs();
    assert_eq!(beachline.root, Some(NodeId::Edge(1)));
    assert_eq!(beachline.live, 3);
    let right = &beachline.edges[0];
    assert_eq!(
        (right.id, right.half_edge_id, right.parent_id, right.left_child, right.right_child),
        (0, 100, Some(1), NodeId::Arc(1), NodeId::Arc(2))
    );
    let left = &beachline.edges[1];
    assert_eq!(
        (left.id, left.half_edge_id, left.parent_id, left.left_child, left.right_child),
        (1, 101, None, NodeId::Arc(0), NodeId::Edge(0))
    );
    let faces: Vec<usize> = beachline.arcs.iter().map(|a| a.face_id).collect();
    assert_eq!(faces, vec![10, 11, 10]);
    let parents: Vec<Option<usize>> = beachline.arcs.iter().map(|a| a.parent_id).collect();
    assert_eq!(parents, vec![Some(1), Some(0), Some(0)]);
}

#[test]
fn neighbours_of_three_arcs() {
    let beachline = three_arcs();
    assert_eq!(beachline.find_first_edge_id(), Some(1));
    assert_eq!(beachline.find_prev_arc_id(1), 0);
    assert_eq!(beachline.find_next_arc_id(1), 1);
    assert_eq!(beachline.find_prev_arc_id(0), 1);
    assert_eq!(beachline.find_next_arc_id(0), 2);
    assert_eq!(beachline.find_prev_edge_id(0), None);
    assert_eq!(beachline.find_next_edge_id(0), Some(1));
    assert_eq!(beachline.find_prev_edge_id(1), Some(1));
    assert_eq!(beachline.find_next_edge_id(1), Some(0));
    assert_eq!(beachline.find_prev_edge_id(2), Some(0));
    assert_eq!(beachline.find_next_edge_id(2), None);
}

#[test]
fn neighbours_across_chained_breakpoints() {
    let beachline = five_arcs();
    assert_eq!(beachline.root, Some(NodeId::Edge(1)));
    assert_eq!(beachline.edges[1].left_child, NodeId::Edge(3));
    assert_eq!(beachline.edges[3].parent_id, Some(1));
    assert_eq!(beachline.live, 5);
    // the leftmost breakpoint lies two levels below the root
    assert_eq!(beachline.find_first_edge_id(), Some(3));
    // to the left of the root breakpoint lies the last arc of its left subtree
    assert_eq!(beachline.find_prev_arc_id(1), 4);
    assert_eq!(beachline.find_next_arc_id(1), 1);
    assert_eq!(beachline.find_prev_arc_id(3), 0);
    assert_eq!(beachline.find_next_arc_id(3), 3);
    assert_eq!(beachline.find_prev_arc_id(2), 3);
    assert_eq!(beachline.find_next_arc_id(2), 4);
    // the breakpoints from left to right are 3, 2, 1, 0
    let mut order = vec![];
    let mut next = beachline.find_first_edge_id();
    while let Some(edge) = next {
        order.push(edge);
        next = beachline.find_next_edge_id(beachline.find_next_arc_id(edge));
    }
    assert_eq!(order, vec![3, 2, 1, 0]);
    // arc 4 is the last arc below edge 3: its right breakpoint is the root
    assert_eq!(beachline.find_next_edge_id(4), Some(1));
    assert_eq!(beachline.find_prev_edge_id(4), Some(2));
    assert_eq!(beachline.find_prev_edge_id(3), Some(3));
    assert_eq!(beachline.find_next_edge_id(3), Some(2));
    assert_eq!(beachline.find_prev_edge_id(0), None);
    assert_eq!(beachline.find_next_edge_id(2), None);
    assert_eq!(beachline.find_prev_edge_id(1), Some(1));
}

#[test]
fn collapse_replaces_the_parent_by_the_sibling() {
    // arc 3 between edges 3 and 2: it is the left child of edge 2, so edge 2 leaves
    // and arc 4 takes its place below edge 3
    let mut beachline = five_arcs();
    assert_eq!(beachline.collapse(3, 3, 2), Ok(3));
    assert_eq!(beachline.edges[3].right_child, NodeId::Arc(4));
    assert_eq!(beachline.arcs[4].parent_id, Some(3));
    assert_eq!(beachline.arcs[3].parent_id, None);
    // the breakpoint that left has no parent any more
    assert_eq!(beachline.edges[2].parent_id, None);
    assert_eq!(beachline.live, 4);
    assert_eq!(beachline.find_next_arc_id(3), 4);
    assert_eq!(beachline.find_prev_edge_id(4), Some(3));
    assert_eq!(beachline.find_next_edge_id(4), Some(1));

    // arc 4 between edges 3 and 1: it is the right child of edge 3, so edge 3 leaves
    // and arc 0 takes its place below the root
    assert_eq!(beachline.collapse(4, 3, 1), Ok(1));
    assert_eq!(beachline.edges[1].left_child, NodeId::Arc(0));
    assert_eq!(beachline.arcs[0].parent_id, Some(1));
    assert_eq!(beachline.edges[3].parent_id, None);
    assert_eq!(beachline.live, 3);
    assert_eq!(beachline.find_first_edge_id(), Some(1));
    assert_eq!(beachline.find_prev_arc_id(1), 0);
}

#[test]
fn collapse_moves_a_whole_subtree_up() {
    // arc 1 between edges 1 and 0: it is the left child of edge 0, which leaves;
    // its sibling arc 2 takes the place of edge 0 below the root
    let mut beachline = five_arcs();
    assert_eq!(beachline.collapse(1, 1, 0), Ok(1));
    assert_eq!(beachline.edges[1].right_child, NodeId::Arc(2));
    assert_eq!(beachline.arcs[2].parent_id, Some(1));
    // now arc 4, the last arc of the left subtree, lies next to arc 2
    assert_eq!(beachline.find_prev_arc_id(1), 4);
    assert_eq!(beachline.find_next_arc_id(1), 2);

    // arc 0 between nothing and edge 3 cannot leave; with edge 3 on both sides it is
    // the left child of edge 3, whose sibling is a breakpoint with two arcs below it
    let mut beachline = five_arcs();
    assert_eq!(beachline.collapse(0, 3, 3), Ok(3));
    assert_eq!(beachline.edges[1].left_child, NodeId::Edge(2));
    assert_eq!(beachline.edges[2].parent_id, Some(1));
    assert_eq!(beachline.find_first_edge_id(), Some(2));
    assert_eq!(beachline.find_prev_arc_id(1), 4);
}

#[test]
fn collapse_fails_without_changing_the_tree() {
    let mut beachline = three_arcs();
    // arc 0 is a child of neither breakpoint to its right
    assert_eq!(beachline.collapse(0, 0, 0), Err(BuildError::NotAChild));
    // arc 2 hangs below edge 0 on the right, edge 1 is the root
    assert_eq!(beachline.collapse(0, 1, 1), Err(BuildError::MissingParent));
    assert_eq!(beachline.live, 3);
    assert_eq!(beachline.edges[1].left_child, NodeId::Arc(0));
    assert_eq!(beachline.arcs[0].parent_id, Some(1));
    // a tree that holds no arc
    beachline.live = 0;
    assert_eq!(beachline.collapse(1, 1, 0), Err(BuildError::EmptyBeachline));
    // the parent of the breakpoint that leaves does not have it as a child
    let mut beachline = three_arcs();
    beachline.edges[1].right_child = NodeId::Arc(2);
    assert_eq!(beachline.collapse(1, 1, 0), Err(BuildError::NotAChild));
}

#[test]
fn replace_child_looks_at_the_left_child_first() {
    let mut beachline = three_arcs();
    assert_eq!(
        beachline.replace_child(0, NodeId::Arc(5), NodeId::Arc(0)),
        Err(BuildError::NotAChild)
    );
    assert_eq!(beachline.arcs[0].parent_id, Some(1));
    assert_eq!(beachline.replace_child(0, NodeId::Arc(2), NodeId::Arc(0)), Ok(()));
    assert_eq!(beachline.edges[0].right_child, NodeId::Arc(0));
    assert_eq!(beachline.edges[0].left_child, NodeId::Arc(1));
    assert_eq!(beachline.arcs[0].parent_id, Some(0));
    // both children are arc 0 now: the left one is replaced
    beachline.edges[0].left_child = NodeId::Arc(0);
    assert_eq!(beachline.replace_child(0, NodeId::Arc(0), NodeId::Arc(2)), Ok(()));
    assert_eq!(beachline.edges[0].left_child, NodeId::Arc(2));
    assert_eq!(beachline.edges[0].right_child, NodeId::Arc(0));
}

#[test]
fn split_fails_where_the_parent_does_not_know_the_arc() {
    let mut beachline = three_arcs();
    beachline.arcs[2].parent_id = Some(1);
    assert_eq!(beachline.split(2, 12, 102, 103), Err(BuildError::NotAChild));
    assert_eq!(beachline.arcs.len(), 3);
    assert_eq!(beachline.edges.len(), 2);
    assert_eq!(beachline.live, 3);
}

#[test]
fn records_on_arcs_and_breakpoints() {
    let mut beachline = three_arcs();
    beachline.set_remove_event(1, Some(7));
    assert_eq!(beachline.arcs[1].remove_event_id, Some(7));
    beachline.set_remove_event(1, None);
    assert_eq!(beachline.arcs[1].remove_event_id, None);
    beachline.set_edge_half_edge(0, 55);
    assert_eq!(beachline.edges[0].half_edge_id, 55);
    assert_eq!(beachline.edges[1].half_edge_id, 101);
    let arc: Arc = beachline.arcs[1];
    let edge: Edge = beachline.edges[0];
    assert_eq!((arc.id, edge.id), (1, 0));
}

#[test]
fn the_breakpoints_of_an_arc_lie_next_to_it() {
    let mut beachline = Beachline::new();
    let first = beachline.start(0);
    let (second, _) = beachline.split(first, 1, 10, 11).unwrap();
    let (third, copy) = beachline.split(second, 2, 12, 13).unwrap();
    beachline.split(copy, 3, 14, 15).unwrap();
    beachline.split(third, 4, 16, 17).unwrap();
    for arc in 0..beachline.arcs.len() {
        if let Some(edge) = beachline.find_prev_edge_id(arc) {
            assert_eq!(beachline.find_next_arc_id(edge), arc);
        }
        if let Some(edge) = beachline.find_next_edge_id(arc) {
            assert_eq!(beachline.find_prev_arc_id(edge), arc);
        }
    }
    // every breakpoint traces the half-edge it was made with: the left one of a
    // split the twin, the right one the half-edge on the new face
    let traced: Vec<usize> = beachline.edges.iter().map(|e| e.half_edge_id).collect();
    assert_eq!(traced, vec![10, 11, 12, 13, 14, 15, 16, 17]);
}

use pop::dcel::{Face, HalfEdge, Vertex};
use pop::error::BuildError;
use pop::store::{DcelStore, FaceBuilder, HalfEdgeBuilder};

fn blank(id: usize, face_id: usize) -> HalfEdgeBuilder {
    HalfEdgeBuilder { id, face_id, start_id: None, twin_id: None, prev_id: None, next_id: None }
}

#[test]
fn half_edge_builder_reports_the_first_missing_link() {
    let mut h = blank(4, 1);
    assert_eq!(h.find_defect(), Some(BuildError::MissingStart));
    h.start_id = Some(2);
    assert_eq!(h.find_defect(), Some(BuildError::MissingPrev));
    h.prev_id = Some(3);
    assert_eq!(h.find_defect(), Some(BuildError::MissingNext));
    h.next_id = Some(5);
    assert_eq!(h.find_defect(), None);
    assert_eq!(
        h.into_half_edge(),
        HalfEdge { id: 4, face_id: 1, start_id: 2, twin_id: None, prev_id: 3, next_id: 5 }
    );
    h.twin_id = Some(9);
    assert_eq!(h.find_defect(), None);
    assert_eq!(
        h.into_half_edge(),
        HalfEdge { id: 4, face_id: 1, start_id: 2, twin_id: Some(9), prev_id: 3, next_id: 5 }
    );
}

#[test]
fn face_builder_needs_a_half_edge() {
    let mut f = FaceBuilder { id: 3, x: 1.5, y: 2.5, half_edge_id: None, start_id: None, end_id: None };
    assert!(f.has_complete_bounds());
    f.half_edge_id = Some(7);
    assert_eq!(f.into_face(), Face { id: 3, x: 1.5, y: 2.5, start_id: 7 });
    f.start_id = Some(1);
    assert!(!f.has_complete_bounds());
    f.start_id = None;
    f.end_id = Some(1);
    assert!(!f.has_complete_bounds());
}

#[test]
fn store_hands_out_dense_ids() {
    let mut store = DcelStore::<f64>::new();
    assert_eq!(store.add_face(1.0, 2.0), 0);
    assert_eq!(store.add_face(3.0, 4.0), 1);
    assert_eq!(store.create_vertex(5.0, 6.0), 0);
    assert_eq!(store.create_vertex(7.0, 8.0), 1);
    assert_eq!(store.create_half_edge(1, Some(1)), 0);
    assert_eq!(store.create_half_edge_pair(0, 1), (1, 2));
    assert_eq!(store.vertices, vec![Vertex { id: 0, x: 5.0, y: 6.0 }, Vertex { id: 1, x: 7.0, y: 8.0 }]);
    assert_eq!(
        store.half_edges,
        vec![
            HalfEdgeBuilder { start_id: Some(1), ..blank(0, 1) },
            HalfEdgeBuilder { twin_id: Some(2), ..blank(1, 0) },
            HalfEdgeBuilder { twin_id: Some(1), ..blank(2, 1) },
        ]
    );
    assert_eq!(
        store.faces,
        vec![
            FaceBuilder { id: 0, x: 1.0, y: 2.0, half_edge_id: None, start_id: None, end_id: None },
            FaceBuilder { id: 1, x: 3.0, y: 4.0, half_edge_id: None, start_id: None, end_id: None },
        ]
    );
}

#[test]
fn connect_links_two_half_edges_of_one_face_once() {
    let mut store = DcelStore::<f64>::new();
    store.add_face(0.0, 0.0);
    store.add_face(1.0, 1.0);
    let a = store.create_half_edge(0, None);
    let b = store.create_half_edge(0, None);
    let c = store.create_half_edge(1, None);
    let d = store.create_half_edge(0, None);
    assert_eq!(store.find_connect_defect(a, c), Some(BuildError::DifferentFaces));
    assert_eq!(store.find_connect_defect(a, b), None);
    let before = store.half_edges.clone();
    store.connect_half_edges(a, b);
    // nothing changes but the two links
    assert_eq!(store.half_edges[a], HalfEdgeBuilder { next_id: Some(b), ..before[a] });
    assert_eq!(store.half_edges[b], HalfEdgeBuilder { prev_id: Some(a), ..before[b] });
    assert_eq!(store.half_edges[c], before[c]);
    assert_eq!(store.half_edges[d], before[d]);
    assert_eq!(store.half_edges[a].next_id, Some(b));
    assert_eq!(store.half_edges[b].prev_id, Some(a));
    assert_eq!(store.half_edges[a].prev_id, None);
    assert_eq!(store.half_edges[b].next_id, None);
    // a has a successor already
    assert_eq!(store.find_connect_defect(a, d), Some(BuildError::FirstConnected));
    // b has a predecessor already
    assert_eq!(store.find_connect_defect(d, b), Some(BuildError::SecondConnected));
    // the face is looked at first, then the first half-edge, then the second
    assert_eq!(store.find_connect_defect(a, c), Some(BuildError::DifferentFaces));
    assert_eq!(store.half_edges[d], blank(d, 0));
    // a half-edge may follow itself
    assert_eq!(store.find_connect_defect(d, d), None);
    store.connect_half_edges(d, d);
    assert_eq!(store.half_edges[d].next_id, Some(d));
    assert_eq!(store.half_edges[d].prev_id, Some(d));
}

#[test]
fn set_start_and_face_records_overwrite_or_keep() {
    let mut store = DcelStore::<f64>::new();
    store.add_face(0.0, 0.0);
    let v0 = store.create_vertex(1.0, 1.0);
    let v1 = store.create_vertex(2.0, 2.0);
    let a = store.create_half_edge(0, Some(v0));
    let b = store.create_half_edge(0, None);
    store.set_start(a, v1);
    assert_eq!(store.half_edges[a].start_id, Some(v1));
    store.set_face_half_edge(0, a, true);
    assert_eq!(store.faces[0].half_edge_id, Some(a));
    store.set_face_half_edge(0, b, true);
    assert_eq!(store.faces[0].half_edge_id, Some(a));
    store.set_face_half_edge(0, b, false);
    assert_eq!(store.faces[0].half_edge_id, Some(b));
    store.set_face_bounds(0, Some(a), None);
    assert_eq!((store.faces[0].start_id, store.faces[0].end_id), (Some(a), None));
    store.set_face_bounds(0, None, Some(b));
    assert_eq!((store.faces[0].start_id, store.faces[0].end_id), (Some(a), Some(b)));
    store.set_face_bounds(0, Some(b), Some(a));
    assert_eq!((store.faces[0].start_id, store.faces[0].end_id), (Some(b), Some(a)));
}

#[test]
fn finish_freezes_a_complete_store_and_empties_it() {
    let mut store = DcelStore::<f64>::new();
    store.add_face(5.0, 5.0);
    let v0 = store.create_vertex(0.0, 0.0);
    let v1 = store.create_vertex(1.0, 0.0);
    let a = store.create_half_edge(0, Some(v0));
    let b = store.create_half_edge(0, Some(v1));
    store.connect_half_edges(a, b);
    store.connect_half_edges(b, a);
    store.set_face_half_edge(0, b, false);
    let diagram = store.finish(10.0, 20.0).unwrap();
    assert_eq!(diagram.width(), 10.0);
    assert_eq!(diagram.height(), 20.0);
    assert_eq!(diagram.vertices(), &vec![Vertex { id: 0, x: 0.0, y: 0.0 }, Vertex { id: 1, x: 1.0, y: 0.0 }]);
    assert_eq!(
        diagram.half_edges(),
        &vec![
            HalfEdge { id: 0, face_id: 0, start_id: 0, twin_id: None, prev_id: 1, next_id: 1 },
            HalfEdge { id: 1, face_id: 0, start_id: 1, twin_id: None, prev_id: 0, next_id: 0 },
        ]
    );
    assert_eq!(diagram.faces(), &vec![Face { id: 0, x: 5.0, y: 5.0, start_id: 1 }]);
    assert!(store.vertices.is_empty() && store.half_edges.is_empty() && store.faces.is_empty());
}

#[test]
fn finish_reports_what_is_missing_first() {
    // the first unfinished half-edge decides, whatever comes later
    let mut store = DcelStore::<f64>::new();
    store.add_face(5.0, 5.0);
    let v0 = store.create_vertex(0.0, 0.0);
    let a = store.create_half_edge(0, Some(v0));
    let b = store.create_half_edge(0, None);
    store.connect_half_edges(a, a);
    assert_eq!(store.finish(1.0, 1.0).unwrap_err(), BuildError::MissingStart);
    assert!(store.vertices.is_empty() && store.half_edges.is_empty() && store.faces.is_empty());
    let _ = b;

    let mut store = DcelStore::<f64>::new();
    store.add_face(5.0, 5.0);
    let v0 = store.create_vertex(0.0, 0.0);
    let a = store.create_half_edge(0, Some(v0));
    let b = store.create_half_edge(0, Some(v0));
    store.connect_half_edges(a, b);
    // a has no predecessor, b has no successor: a comes first
    assert_eq!(store.finish(1.0, 1.0).unwrap_err(), BuildError::MissingPrev);

    let mut store = DcelStore::<f64>::new();
    store.add_face(5.0, 5.0);
    let v0 = store.create_vertex(0.0, 0.0);
    let a = store.create_half_edge(0, Some(v0));
    let b = store.create_half_edge(0, Some(v0));
    store.connect_half_edges(b, a);
    assert_eq!(store.finish(1.0, 1.0).unwrap_err(), BuildError::MissingNext);

    // half-edges complete, a face without half-edge
    let mut store = DcelStore::<f64>::new();
    store.add_face(5.0, 5.0);
    store.add_face(6.0, 6.0);
    let v0 = store.create_vertex(0.0, 0.0);
    let a = store.create_half_edge(0, Some(v0));
    store.connect_half_edges(a, a);
    store.set_face_half_edge(0, a, false);
    assert_eq!(store.finish(1.0, 1.0).unwrap_err(), BuildError::FaceWithoutEdge);

    // an empty store is complete
    let mut store = DcelStore::<f64>::new();
    let diagram = store.finish(1.0, 2.0).unwrap();
    assert!(diagram.vertices().is_empty() && diagram.half_edges().is_empty() && diagram.faces().is_empty());
}

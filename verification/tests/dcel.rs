use pop::dcel::{Diagram, Face, HalfEdge, Vertex};

fn vertex(id: usize) -> Vertex<f64> {
    Vertex { id, x: id as f64, y: 0.0 }
}

fn edge(id: usize, face_id: usize, start_id: usize, twin_id: Option<usize>, prev_id: usize, next_id: usize) -> HalfEdge {
    HalfEdge { id, face_id, start_id, twin_id, prev_id, next_id }
}

/// two triangles that share the edge between vertices 0 and 1
fn two_triangles() -> (Vec<Vertex<f64>>, Vec<HalfEdge>, Vec<Face<f64>>) {
    (
        vec![vertex(0), vertex(1), vertex(2), vertex(3)],
        vec![
            edge(0, 0, 0, Some(3), 2, 1),
            edge(1, 0, 1, None, 0, 2),
            edge(2, 0, 2, None, 1, 0),
            edge(3, 1, 1, Some(0), 5, 4),
            edge(4, 1, 0, None, 3, 5),
            edge(5, 1, 3, None, 4, 3),
        ],
        vec![Face { id: 0, x: 1.0, y: 1.0, start_id: 1 }, Face { id: 1, x: 1.0, y: -1.0, start_id: 3 }],
    )
}

fn diagram(parts: (Vec<Vertex<f64>>, Vec<HalfEdge>, Vec<Face<f64>>)) -> Diagram<f64> {
    Diagram::from_parts(10.0, 10.0, parts.0, parts.1, parts.2)
}

#[test]
fn a_diagram_put_together_by_hand() {
    let d = diagram(two_triangles());
    assert!(d.is_well_formed());
    assert_eq!((d.width(), d.height()), (10.0, 10.0));
    assert_eq!(d.vertices().len(), 4);
    assert_eq!(d.half_edges()[3].twin_id, Some(0));
    assert_eq!(d.faces()[1].start_id, 3);
    // the ring of a face begins at the half-edge on record
    assert_eq!(d.face_ring(0), vec![1, 2, 0]);
    assert_eq!(d.face_ring(1), vec![3, 4, 5]);
    let (vertices, indices) = d.create_triangles();
    assert_eq!(
        vertices,
        vec![-0.8, -0.8, 0.0, -0.8, -1.2, 0.0, -1.0, -1.0, 0.0, -0.8, -1.0, 0.0, -0.6, -1.0, 0.0, -0.4, -1.0, 0.0]
    );
    assert_eq!(indices, vec![0, 3, 4, 0, 4, 2, 0, 2, 3, 1, 3, 2, 1, 2, 5, 1, 5, 3]);
    assert!(diagram((vec![], vec![], vec![])).is_well_formed());
}

#[test]
fn defects_of_a_diagram_are_found() {
    let broken = |change: &dyn Fn(&mut (Vec<Vertex<f64>>, Vec<HalfEdge>, Vec<Face<f64>>))| {
        let mut parts = two_triangles();
        change(&mut parts);
        !diagram(parts).is_well_formed()
    };
    assert!(!broken(&|_| {}));
    // records that do not name themselves
    assert!(broken(&|p| p.0[2].id = 3));
    assert!(broken(&|p| p.1[4].id = 5));
    assert!(broken(&|p| p.2[1].id = 0));
    // references to nothing
    assert!(broken(&|p| p.1[1].face_id = 2));
    assert!(broken(&|p| p.1[1].start_id = 4));
    assert!(broken(&|p| p.1[1].next_id = 6));
    assert!(broken(&|p| p.1[1].prev_id = 6));
    assert!(broken(&|p| p.1[1].twin_id = Some(6)));
    assert!(broken(&|p| p.2[0].start_id = 6));
    assert!(broken(&|p| {
        p.0.pop();
    }));
    // next and prev that do not undo each other
    assert!(broken(&|p| p.1[1].next_id = 0));
    assert!(broken(&|p| p.1[1].prev_id = 2));
    // a ring across two faces
    assert!(broken(&|p| p.1[2].face_id = 1));
    // a twin that does not point back, a twin on the same face, a lone twin
    assert!(broken(&|p| p.1[3].twin_id = Some(1)));
    assert!(broken(&|p| p.1[3].twin_id = None));
    assert!(broken(&|p| {
        p.1[1].twin_id = Some(2);
        p.1[2].twin_id = Some(1);
    }));
    // a face that starts on the ring of another
    assert!(broken(&|p| p.2[0].start_id = 4));
}

use pop::dcel::{Diagram, Face, HalfEdge, Vertex};
use pop::error::BuildError;
use pop::voronoi::Builder;

fn build(width: f64, height: f64, sites: &[(f64, f64)]) -> Result<Diagram<f64>, BuildError> {
    let mut builder = Builder::new(width, height);
    for (x, y) in sites {
        builder.add_site(*x, *y);
    }
    builder.build(&f64::sqrt)
}

#[test]
fn test_generate_empty() {
    let mut builder = Builder::new(1000.0, 1000.0);
    let diagram = builder.build(&f64::sqrt).unwrap();
    assert_eq!(Diagram::from_parts(1000.0, 1000.0, vec![], vec![], vec![]), diagram);
}

#[test]
fn test_generate_unary() {
    let mut builder = Builder::new(1000.0, 1000.0);
    builder.add_site(500.0, 500.0);
    let diagram = builder.build(&f64::sqrt).unwrap();
    assert_eq!(
        Diagram::from_parts(
            1000.0,
            1000.0,
            vec![
                Vertex { id: 0, x: 0.0, y: 0.0 },
                Vertex { id: 1, x: 1000.0, y: 0.0 },
                Vertex { id: 2, x: 1000.0, y: 1000.0 },
                Vertex { id: 3, x: 0.0, y: 1000.0 },
            ],
            vec![
                HalfEdge { id: 0, face_id: 0, start_id: 0, prev_id: 3, next_id: 1, twin_id: None },
                HalfEdge { id: 1, face_id: 0, start_id: 1, prev_id: 0, next_id: 2, twin_id: None },
                HalfEdge { id: 2, face_id: 0, start_id: 2, prev_id: 1, next_id: 3, twin_id: None },
                HalfEdge { id: 3, face_id: 0, start_id: 3, prev_id: 2, next_id: 0, twin_id: None },
            ],
            vec![Face { id: 0, x: 500.0, y: 500.0, start_id: 0 }],
        ),
        diagram
    );
}

#[test]
fn test_generate_binary() {
    let mut builder = Builder::new(1000.0, 1000.0);
    builder.add_site(100.0, 100.0);
    builder.add_site(900.0, 900.0);
    let diagram = builder.build(&f64::sqrt).unwrap();
    assert_eq!(
        Diagram::from_parts(
            1000.0,
            1000.0,
            vec![
                Vertex { id: 0, x: 0.0, y: 1000.0 },
                Vertex { id: 1, x: 1000.0, y: 0.0 },
                Vertex { id: 2, x: 0.0, y: 0.0 },
                Vertex { id: 3, x: 1000.0, y: 1000.0 },
            ],
            vec![
                HalfEdge { id: 0, face_id: 0, start_id: 1, twin_id: Some(1), prev_id: 3, next_id: 2 },
                HalfEdge { id: 1, face_id: 1, start_id: 0, twin_id: Some(0), prev_id: 5, next_id: 4 },
                HalfEdge { id: 2, face_id: 0, start_id: 0, twin_id: None, prev_id: 0, next_id: 3 },
                HalfEdge { id: 3, face_id: 0, start_id: 2, twin_id: None, prev_id: 2, next_id: 0 },
                HalfEdge { id: 4, face_id: 1, start_id: 1, twin_id: None, prev_id: 1, next_id: 5 },
                HalfEdge { id: 5, face_id: 1, start_id: 3, twin_id: None, prev_id: 4, next_id: 1 },
            ],
            vec![
                Face { id: 0, x: 100.0, y: 100.0, start_id: 0 },
                Face { id: 1, x: 900.0, y: 900.0, start_id: 1 },
            ],
        ),
        diagram
    );
}

#[test]
fn create_triangles() {
    let mut builder = Builder::new(1000.0, 1000.0);
    builder.add_site(100.0, 100.0);
    builder.add_site(900.0, 900.0);
    let (vertices, indices) = builder.build(&f64::sqrt).unwrap().create_triangles();
    let vertices: Vec<f32> = vertices.iter().map(|v| *v as f32).collect();
    let expected_vertices: Vec<f32> = vec![
        -0.8, -0.8, 0.0, 0.8, 0.8, 0.0, -1.0, 1.0, 0.0, 1.0, -1.0, 0.0, -1.0, -1.0, 0.0, 1.0, 1.0,
        0.0,
    ];
    assert_eq!(expected_vertices, vertices);

    let expected_indices: Vec<u32> = vec![0, 3, 2, 0, 2, 4, 0, 4, 3, 1, 2, 3, 1, 3, 5, 1, 5, 2];
    assert_eq!(expected_indices, indices);
}

#[test]
fn face_rings_of_two_sites() {
    let diagram = build(1000.0, 1000.0, &[(100.0, 100.0), (900.0, 900.0)]).unwrap();
    assert_eq!(diagram.face_ring(0), vec![0, 2, 3]);
    assert_eq!(diagram.face_ring(1), vec![1, 4, 5]);
    let diagram = build(1000.0, 1000.0, &[(500.0, 500.0)]).unwrap();
    assert_eq!(diagram.face_ring(0), vec![0, 1, 2, 3]);
}

fn assert_well_formed(diagram: &Diagram<f64>) {
    assert!(diagram.is_well_formed());
    let half_edges = diagram.half_edges();
    for (v, vertex) in diagram.vertices().iter().enumerate() {
        assert_eq!(vertex.id, v);
    }
    for (e, half_edge) in half_edges.iter().enumerate() {
        assert_eq!(half_edge.id, e);
        assert!(half_edge.face_id < diagram.faces().len());
        assert!(half_edge.start_id < diagram.vertices().len());
        // the half-edge after the one before it is the half-edge itself, and back
        assert_eq!(half_edges[half_edge.prev_id].next_id, e);
        assert_eq!(half_edges[half_edge.next_id].prev_id, e);
        assert_eq!(half_edges[half_edge.next_id].face_id, half_edge.face_id);
        // the twin of the twin is the half-edge itself, on another face
        if let Some(twin) = half_edge.twin_id {
            assert_eq!(half_edges[twin].twin_id, Some(e));
            assert_ne!(half_edges[twin].face_id, half_edge.face_id);
        }
    }
    for (f, face) in diagram.faces().iter().enumerate() {
        assert_eq!(face.id, f);
        // the walk along next comes back to where it began, on one face
        let mut cur = face.start_id;
        let mut steps = 0;
        loop {
            assert_eq!(half_edges[cur].face_id, f);
            cur = half_edges[cur].next_id;
            steps += 1;
            assert!(steps <= half_edges.len());
            if cur == face.start_id {
                break;
            }
        }
        assert_eq!(diagram.face_ring(f).len(), steps);
    }
}

#[test]
fn diagrams_are_well_formed() {
    assert_well_formed(&build(1000.0, 1000.0, &[]).unwrap());
    assert_well_formed(&build(1000.0, 1000.0, &[(500.0, 500.0)]).unwrap());
    assert_well_formed(&build(1000.0, 1000.0, &[(100.0, 100.0), (900.0, 900.0)]).unwrap());
    assert_well_formed(&build(300.0, 200.0, &[(50.0, 150.0), (250.0, 40.0)]).unwrap());
    assert_well_formed(&build(1000.0, 1000.0, &[(500.0, 200.0), (500.0, 800.0)]).unwrap());
}

#[test]
fn two_sites_in_a_wide_rectangle() {
    // the sites lie on the horizontal axis of the rectangle: the cells are its halves
    let diagram = build(400.0, 200.0, &[(100.0, 80.0), (300.0, 120.0)]).unwrap();
    assert_well_formed(&diagram);
    assert_eq!(diagram.faces().len(), 2);
    assert_eq!((diagram.faces()[0].x, diagram.faces()[0].y), (100.0, 80.0));
    assert_eq!((diagram.faces()[1].x, diagram.faces()[1].y), (300.0, 120.0));
    let twinned = diagram.half_edges().iter().filter(|h| h.twin_id.is_some()).count();
    assert_eq!(twinned, 2);
    // every vertex of the separating edge has the same distance to both sites
    for half_edge in diagram.half_edges().iter().filter(|h| h.twin_id.is_some()) {
        let v = &diagram.vertices()[half_edge.start_id];
        let d0 = ((v.x - 100.0).powi(2) + (v.y - 80.0).powi(2)).sqrt();
        let d1 = ((v.x - 300.0).powi(2) + (v.y - 120.0).powi(2)).sqrt();
        assert!((d0 - d1).abs() <= 1e-4);
    }
    for v in diagram.vertices() {
        assert!(0.0 <= v.x && v.x <= 400.0 && 0.0 <= v.y && v.y <= 200.0);
    }
}

#[test]
fn the_builder_is_empty_after_a_build() {
    let mut builder = Builder::new(1000.0, 1000.0);
    builder.add_site(100.0, 100.0);
    builder.add_site(900.0, 900.0);
    assert_eq!(builder.build(&f64::sqrt).unwrap().faces().len(), 2);
    let again = builder.build(&f64::sqrt).unwrap();
    assert_eq!(Diagram::from_parts(1000.0, 1000.0, vec![], vec![], vec![]), again);
    builder.add_site(1.0, 2.0);
    let third = builder.build(&f64::sqrt).unwrap();
    assert_eq!(third.faces(), &vec![Face { id: 0, x: 1.0, y: 2.0, start_id: 0 }]);
    // after a failure too
    builder.add_site(300.0, 300.0);
    builder.add_site(700.0, 700.0);
    builder.add_site(700.0, 300.0);
    assert!(builder.build(&f64::sqrt).is_err());
    assert_eq!(builder.build(&f64::sqrt).unwrap().faces().len(), 0);
}

#[test]
fn a_site_on_the_sweep_line_of_another_has_no_breakpoint() {
    // when the third site is reached, the second lies on the sweep line: its
    // parabola is no parabola
    assert_eq!(
        build(1000.0, 1000.0, &[(300.0, 300.0), (700.0, 700.0), (700.0, 300.0)]).unwrap_err(),
        BuildError::NoIntersections
    );
}

/// what the laws of a diagram say of one with vertices inside the rectangle
fn assert_junctions(diagram: &Diagram<f64>, width: f64, height: f64, sites: &[(f64, f64)]) {
    assert_well_formed(diagram);
    assert_eq!(diagram.faces().len(), sites.len());
    let mut junctions = 0;
    for v in diagram.vertices() {
        assert!(0.0 <= v.x && v.x <= width && 0.0 <= v.y && v.y <= height);
        if 0.0 < v.x && v.x < width && 0.0 < v.y && v.y < height {
            junctions += 1;
            // three half-edges start in the vertex, on three faces, and the vertex is as
            // far from the site of one of them as from the site of another
            let faces: Vec<usize> = diagram
                .half_edges()
                .iter()
                .filter(|h| h.start_id == v.id)
                .map(|h| h.face_id)
                .collect();
            assert_eq!(faces.len(), 3);
            assert!(faces[0] != faces[1] && faces[1] != faces[2] && faces[0] != faces[2]);
            let d: Vec<f64> = faces
                .iter()
                .map(|f| ((v.x - sites[*f].0).powi(2) + (v.y - sites[*f].1).powi(2)).sqrt())
                .collect();
            assert!((d[0] - d[1]).abs() <= 1e-4);
            assert!((d[1] - d[2]).abs() <= 1e-4);
            assert!((d[0] - d[2]).abs() <= 1e-4);
            // every half-edge that ends in the vertex is followed by one that starts there
            for h in diagram.half_edges() {
                if diagram.half_edges()[h.next_id].start_id == v.id {
                    assert_eq!(diagram.half_edges()[h.next_id].face_id, h.face_id);
                }
            }
        }
    }
    assert!(junctions > 0);
    // a half-edge without twin runs along a side of the rectangle
    for h in diagram.half_edges().iter().filter(|h| h.twin_id.is_none()) {
        let a = &diagram.vertices()[h.start_id];
        let b = &diagram.vertices()[diagram.half_edges()[h.next_id].start_id];
        let on_side = (a.x == 0.0 && b.x == 0.0)
            || (a.x == width && b.x == width)
            || (a.y == 0.0 && b.y == 0.0)
            || (a.y == height && b.y == height);
        assert!(on_side);
    }
    // points of a grid lie in the cell of the site that is nearest to them
    let cells: Vec<Vec<(f64, f64)>> = (0..sites.len()).map(|f| polygon(diagram, f)).collect();
    for i in 1..20 {
        for j in 1..20 {
            let (x, y) = (width * i as f64 / 20.0 + 0.125, height * j as f64 / 20.0 + 0.25);
            let distance = |s: &(f64, f64)| (x - s.0).powi(2) + (y - s.1).powi(2);
            let mut nearest = 0;
            for k in 1..sites.len() {
                if distance(&sites[k]) < distance(&sites[nearest]) {
                    nearest = k;
                }
            }
            assert!(within(&cells[nearest], x, y), "({}, {}) in {:?}", x, y, sites);
        }
    }
}

/// whether a point lies inside a convex polygon, corners that repeat passed over
fn within(polygon: &[(f64, f64)], x: f64, y: f64) -> bool {
    let mut sign = 0.0;
    for i in 0..polygon.len() {
        let (ax, ay) = polygon[i];
        let (bx, by) = polygon[(i + 1) % polygon.len()];
        let cross = (bx - ax) * (y - ay) - (by - ay) * (x - ax);
        if cross != 0.0 {
            if sign == 0.0 {
                sign = cross.signum();
            } else if sign != cross.signum() {
                return false;
            }
        }
    }
    true
}

#[test]
fn a_clipped_point_lies_exactly_on_the_side_it_meets() {
    // the bisector of these sites meets the bottom side in a point whose y comes out
    // of the arithmetic as 1000.0000000000001: the vertex is put on the side
    let sites = [(10.0, 263.0), (675.0, 347.0)];
    let diagram = build(1000.0, 1000.0, &sites).unwrap();
    assert_well_formed(&diagram);
    for v in diagram.vertices() {
        assert!(0.0 <= v.x && v.x <= 1000.0 && 0.0 <= v.y && v.y <= 1000.0);
    }
    let on_bottom: Vec<f64> =
        diagram.vertices().iter().filter(|v| v.y == 1000.0 && v.x > 0.0 && v.x < 1000.0).map(|v| v.x).collect();
    assert_eq!(on_bottom.len(), 1);
    assert!((on_bottom[0] - 254.71052631578948).abs() <= 1e-9);
}

#[test]
fn three_sites_meet_in_a_vertex() {
    let sites = [(950.0, 506.0), (259.0, 530.0), (81.0, 850.0)];
    let diagram = build(1000.0, 1000.0, &sites).unwrap();
    assert_junctions(&diagram, 1000.0, 1000.0, &sites);
    // the circle through the three sites has its centre in the vertex
    let v = &diagram.vertices()[0];
    assert!((v.x - 619.1514793772596).abs() <= 1e-9);
    assert!((v.y - 939.8405104036007).abs() <= 1e-9);
}

#[test]
fn four_sites_meet_in_two_places() {
    let sites = [(224.0, 135.0), (886.0, 605.0), (452.0, 189.0), (781.0, 346.0)];
    let diagram = build(1000.0, 1000.0, &sites).unwrap();
    assert_junctions(&diagram, 1000.0, 1000.0, &sites);
}

#[test]
fn a_site_that_is_no_number_hits_no_border() {
    assert_eq!(
        build(1000.0, 1000.0, &[(100.0, 100.0), (900.0, 900.0), (f64::NAN, 5.0)]).unwrap_err(),
        BuildError::NoBoundaryHit
    );
}

#[test]
fn triangles_of_one_site() {
    let diagram = build(1000.0, 500.0, &[(250.0, 125.0)]).unwrap();
    let (vertices, indices) = diagram.create_triangles();
    assert_eq!(
        vertices,
        vec![-0.5, -0.5, 0.0, -1.0, -1.0, 0.0, 1.0, -1.0, 0.0, 1.0, 1.0, 0.0, -1.0, 1.0, 0.0]
    );
    assert_eq!(indices, vec![0, 1, 2, 0, 2, 3, 0, 3, 4, 0, 4, 1]);
    // the same again
    assert_eq!(diagram.create_triangles(), (vertices, indices));
    let empty = build(1000.0, 1000.0, &[]).unwrap();
    assert_eq!(empty.create_triangles(), (vec![], vec![]));
}

/// the corners of the ring of a face, in the order of the ring
fn polygon(diagram: &Diagram<f64>, face: usize) -> Vec<(f64, f64)> {
    diagram
        .face_ring(face)
        .iter()
        .map(|e| {
            let v = &diagram.vertices()[diagram.half_edges()[*e].start_id];
            (v.x, v.y)
        })
        .collect()
}

/// whether a point lies strictly inside a convex polygon
fn inside(polygon: &[(f64, f64)], x: f64, y: f64) -> bool {
    let mut sign = 0.0;
    for i in 0..polygon.len() {
        let (ax, ay) = polygon[i];
        let (bx, by) = polygon[(i + 1) % polygon.len()];
        let cross = (bx - ax) * (y - ay) - (by - ay) * (x - ax);
        if cross == 0.0 {
            return false;
        }
        if sign == 0.0 {
            sign = cross.signum();
        } else if sign != cross.signum() {
            return false;
        }
    }
    true
}

#[test]
fn every_point_of_a_cell_is_nearest_to_its_site() {
    let cases: Vec<(f64, f64, [(f64, f64); 2])> = vec![
        (1000.0, 1000.0, [(100.0, 100.0), (900.0, 900.0)]),
        (1000.0, 1000.0, [(900.0, 900.0), (100.0, 100.0)]),
        (400.0, 200.0, [(100.0, 80.0), (300.0, 120.0)]),
        (300.0, 200.0, [(50.0, 150.0), (250.0, 40.0)]),
        (1000.0, 1000.0, [(500.0, 200.0), (500.0, 800.0)]),
        (1000.0, 1000.0, [(300.0, 400.0), (310.0, 900.0)]),
    ];
    for (width, height, sites) in cases {
        let diagram = build(width, height, &sites).unwrap();
        assert_well_formed(&diagram);
        // every vertex lies in the rectangle
        for v in diagram.vertices() {
            assert!(0.0 <= v.x && v.x <= width && 0.0 <= v.y && v.y <= height);
        }
        // a half-edge without twin runs along a side of the rectangle
        for h in diagram.half_edges().iter().filter(|h| h.twin_id.is_none()) {
            let a = &diagram.vertices()[h.start_id];
            let b = &diagram.vertices()[diagram.half_edges()[h.next_id].start_id];
            let on_side = (a.x == 0.0 && b.x == 0.0)
                || (a.x == width && b.x == width)
                || (a.y == 0.0 && b.y == 0.0)
                || (a.y == height && b.y == height);
            assert!(on_side);
        }
        // the middle of the edge between the cells is as far from one site as from the other
        for h in diagram.half_edges().iter().filter(|h| h.twin_id.is_some()) {
            let a = &diagram.vertices()[h.start_id];
            let b = &diagram.vertices()[diagram.half_edges()[h.next_id].start_id];
            let (mx, my) = ((a.x + b.x) / 2.0, (a.y + b.y) / 2.0);
            let d0 = ((mx - sites[0].0).powi(2) + (my - sites[0].1).powi(2)).sqrt();
            let d1 = ((mx - sites[1].0).powi(2) + (my - sites[1].1).powi(2)).sqrt();
            assert!((d0 - d1).abs() <= 1e-4);
        }
        // points of a grid lie in the cell of the site that is nearest to them
        let cells = [polygon(&diagram, 0), polygon(&diagram, 1)];
        for i in 1..20 {
            for j in 1..20 {
                let (x, y) = (width * i as f64 / 20.0 + 0.125, height * j as f64 / 20.0 + 0.25);
                let d0 = (x - sites[0].0).powi(2) + (y - sites[0].1).powi(2);
                let d1 = (x - sites[1].0).powi(2) + (y - sites[1].1).powi(2);
                if (d0 - d1).abs() > 1e-6 {
                    let nearest = if d0 < d1 { 0 } else { 1 };
                    assert!(inside(&cells[nearest], x, y), "({}, {}) in {:?}", x, y, sites);
                    assert!(!inside(&cells[1 - nearest], x, y));
                }
            }
        }
    }
}

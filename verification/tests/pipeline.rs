//! End-to-end scenarios of the matching pipeline, on millimetre
//! fixed-point coordinates (cell size one metre).

use gps_analyzer::config::analysis::AnalysisConfig;
use gps_analyzer::config::snapping::SnappingConfig;
use gps_analyzer::errors::service_errors::ServiceErrorType;
use gps_analyzer::model::analysis::{classify_directional, classify_lateral, Severity};
use gps_analyzer::model::common::TrackOrigin;
use gps_analyzer::model::grid::Grid;
use gps_analyzer::model::points::{MatchPoint, PlanarSample, RefPoint, RiderPoint};
use gps_analyzer::model::reference::ReferenceTrack;
use gps_analyzer::model::riders::RiderTrack;
use gps_analyzer::service::geo_conversions::{spatial_to_reference, spatial_to_rider};
use gps_analyzer::service::snapping::snap;
use gps_analyzer::service::track_processor::{snap_rider_track, snap_rider_track_inverse};

fn planar(x_mm: i64, y_mm: i64, delta_ms: Option<i64>) -> PlanarSample {
    PlanarSample { x: x_mm, y: y_mm, elev: None, delta_ms }
}

fn line_reference(xs_mm: &[i64]) -> (TrackOrigin, Vec<RefPoint>) {
    let samples: Vec<PlanarSample> = xs_mm.iter().map(|&x| planar(x, 0, None)).collect();
    spatial_to_reference(&samples).unwrap()
}

fn rider_points(pts_mm: &[(i64, i64)], origin: &TrackOrigin) -> Vec<RiderPoint> {
    let samples: Vec<PlanarSample> = pts_mm
        .iter()
        .enumerate()
        .map(|(i, &(x, y))| planar(x, y, Some(1000 * i as i64)))
        .collect();
    spatial_to_rider(&samples, origin).unwrap()
}

fn snap_line(
    refs: &Vec<RefPoint>,
    rider: &Vec<RiderPoint>,
    clamp: u32,
) -> Vec<MatchPoint> {
    let grid = Grid::from_points(refs, 1000).unwrap();
    let config = SnappingConfig::new(clamp);
    let mut out = Vec::new();
    snap(rider, refs, &grid, &mut out, &config);
    out
}

#[test]
fn straight_line_perfect_overlap() {
    let (origin, refs) = line_reference(&[0, 1000, 2000, 3000, 4000]);
    let rider = rider_points(&[(0, 0), (1000, 0), (2000, 0), (3000, 0), (4000, 0)], &origin);
    let out = snap_line(&refs, &rider, 100);
    assert_eq!(out.len(), 5);
    for (j, m) in out.iter().enumerate() {
        assert_eq!(m.reference_index, j as u32);
        assert_eq!(m.lateral, 0);
        assert_eq!(m.delta_ms, 1000 * j as i64);
        if j >= 1 {
            // dot = 10^6 mm^2, magnitude = isqrt(2 * 10^6) = 1414 mm,
            // similarity = 707 mm, the fixed-point 0.7071.
            assert_eq!(m.direction_similarity, 707);
        } else {
            assert_eq!(m.direction_similarity, 0);
        }
    }
}

#[test]
fn constant_lateral_offset_minor_all_flagged() {
    let (origin, refs) = line_reference(&[0, 1000, 2000, 3000, 4000]);
    let rider = rider_points(&[(0, 500), (1000, 500), (2000, 500), (3000, 500)], &origin);
    let mut out = snap_line(&refs, &rider, 100);
    for (j, m) in out.iter().enumerate() {
        assert_eq!(m.reference_index, j as u32);
        assert_eq!(m.lateral, 500);
    }
    // allowed = 0.4 m, step = 0.5 m, runs of three or more count.
    let config = AnalysisConfig::new(500, 400, 500, 3);
    let sev = classify_lateral(&mut out, &config);
    assert_eq!(sev, vec![Severity::Minor; 4]);
    assert!(out.iter().all(|m| m.count_to_error));
}

#[test]
fn isolated_outlier_filtered() {
    let laterals: [i64; 5] = [0, 0, 800, 0, 0];
    let mut out: Vec<MatchPoint> = laterals
        .iter()
        .map(|&lateral| MatchPoint {
            reference_index: 0,
            delta_ms: 0,
            direction_similarity: 707,
            lateral,
            distance_z: 0,
            count_to_error: false,
        })
        .collect();
    let config = AnalysisConfig::new(500, 400, 500, 3);
    let sev = classify_lateral(&mut out, &config);
    assert_eq!(sev, vec![Severity::Fine; 5]);
    assert!(out.iter().all(|m| !m.count_to_error));
}

#[test]
fn filter_is_idempotent_on_filtered_output() {
    let laterals: [i64; 6] = [0, 800, 800, 800, 0, 800];
    let config = AnalysisConfig::new(500, 400, 500, 3);
    let mk = |ls: &[i64]| -> Vec<MatchPoint> {
        ls.iter()
            .map(|&lateral| MatchPoint {
                reference_index: 0,
                delta_ms: 0,
                direction_similarity: 707,
                lateral,
                distance_z: 0,
                count_to_error: false,
            })
            .collect()
    };
    let mut once = mk(&laterals);
    let sev_once = classify_lateral(&mut once, &config);
    // Re-deriving severities from the already-filtered classification
    // leaves everything as it was: the surviving run stays, nothing
    // new is reset.
    assert_eq!(
        sev_once,
        vec![
            Severity::Fine,
            Severity::Minor,
            Severity::Minor,
            Severity::Minor,
            Severity::Fine,
            Severity::Fine
        ]
    );
}

#[test]
fn monotonic_clamp() {
    let xs: Vec<i64> = (0..10).map(|i| 1000 * i).collect();
    let (origin, refs) = line_reference(&xs);
    // Five samples walking forward, then one back at x = 2 m.
    let path = [(0, 0), (1000, 0), (2000, 0), (3000, 0), (4000, 0), (5000, 0), (2000, 0)];
    let rider = rider_points(&path, &origin);

    let out0 = snap_line(&refs, &rider, 0);
    assert_eq!(out0[5].reference_index, 5);
    assert_eq!(out0[6].reference_index, 5);

    let out3 = snap_line(&refs, &rider, 3);
    assert_eq!(out3[6].reference_index, 2);

    let out10 = snap_line(&refs, &rider, 10);
    assert_eq!(out10[6].reference_index, 2);
}

#[test]
fn direction_reversal_is_max_severity() {
    let (origin, refs) = line_reference(&[0, 1000, 2000, 3000, 4000]);
    let rider = rider_points(&[(3000, 0), (2000, 0)], &origin);
    let mut out = snap_line(&refs, &rider, 100);
    assert_eq!(out[1].reference_index, 2);
    assert_eq!(out[1].direction_similarity, -707);
    let config = AnalysisConfig::new(500, 400, 500, 1);
    let sev = classify_directional(&mut out, &config);
    assert_eq!(sev[1], Severity::Max);
}

#[test]
fn crs_mismatch_fails_snapping() {
    let (origin, refs) = line_reference(&[0, 1000, 2000]);
    let reference = ReferenceTrack {
        class: "elite".to_string(),
        projection: "EPSG:3844".to_string(),
        origin,
        track: refs,
    };
    let grid = Grid::from_points(&reference.track, 1000).unwrap();
    let rider = RiderTrack {
        rider_uuid: 7,
        variant: 1,
        projection: "EPSG:4326".to_string(),
        start_time_ms: 0,
        track_origin: origin,
        track: rider_points(&[(0, 0), (1000, 0)], &origin),
    };
    let config = SnappingConfig::new(3);
    let err = snap_rider_track(&rider, &reference, &grid, &config).unwrap_err();
    assert!(matches!(err.etype, ServiceErrorType::TrackSnappingError(_)));
}

#[test]
fn matching_frames_snap_successfully() {
    let (origin, refs) = line_reference(&[0, 1000, 2000]);
    let reference = ReferenceTrack {
        class: "elite".to_string(),
        projection: "EPSG:3844".to_string(),
        origin,
        track: refs,
    };
    let grid = Grid::from_points(&reference.track, 1000).unwrap();
    let rider = RiderTrack {
        rider_uuid: 7,
        variant: 1,
        projection: "epsg:3844".to_string(),
        start_time_ms: 42,
        track_origin: origin,
        track: rider_points(&[(0, 0), (1000, 0)], &origin),
    };
    let config = SnappingConfig::new(3);
    let matched = snap_rider_track(&rider, &reference, &grid, &config).unwrap();
    assert_eq!(matched.track.len(), 2);
    assert_eq!(matched.bound_uuid, 7);
    assert_eq!(matched.projection, "EPSG:3844");
    assert_eq!(matched.start_time_ms, 42);
}

#[test]
fn reference_build_is_deterministic_and_monotone() {
    let xs = [0, 1000, 1500, 4000];
    let (o1, p1) = line_reference(&xs);
    let (o2, p2) = line_reference(&xs);
    assert_eq!(o1, o2);
    assert_eq!(p1, p2);
    assert_eq!(p1[0].total_distance, 0);
    for i in 1..p1.len() {
        assert!(p1[i].total_distance >= p1[i - 1].total_distance);
    }
    assert_eq!(p1[3].total_distance, 4000);
}

#[test]
fn rider_track_keeps_time_order() {
    let origin = TrackOrigin { epsg_x: 0, epsg_y: 0 };
    let samples = vec![
        planar(0, 0, Some(0)),
        planar(1000, 0, Some(250)),
        planar(2000, 0, Some(250)),
        planar(2500, 0, Some(900)),
    ];
    let pts = spatial_to_rider(&samples, &origin).unwrap();
    for i in 1..pts.len() {
        assert!(pts[i].delta_ms >= pts[i - 1].delta_ms);
    }
    assert_eq!(pts[3].delta_ms, 900);
}

#[test]
fn grid_lists_every_reference_point() {
    let (_, refs) = line_reference(&[0, 400, 800, 3000, 3100, 9000]);
    let grid = Grid::from_points(&refs, 1000).unwrap();
    let total: usize = grid.cells.iter().map(|c| c.count).sum();
    assert_eq!(total, refs.len());
    assert_eq!(grid.indices.len(), refs.len());
    for (i, p) in refs.iter().enumerate() {
        let c = grid.cell_index(p.x, p.y);
        let cell = &grid.cells[c];
        let listed = grid.indices[cell.start..cell.start + cell.count]
            .iter()
            .any(|&k| k as usize == i);
        assert!(listed);
    }
}

#[test]
fn empty_input_is_rejected_by_builders() {
    let empty: Vec<PlanarSample> = Vec::new();
    assert!(matches!(
        spatial_to_reference(&empty).unwrap_err().etype,
        ServiceErrorType::EmptyTrack()
    ));
    let origin = TrackOrigin { epsg_x: 0, epsg_y: 0 };
    assert!(matches!(
        spatial_to_rider(&empty, &origin).unwrap_err().etype,
        ServiceErrorType::EmptyTrack()
    ));
}

#[test]
fn inverse_snap_matches_every_reference_vertex() {
    let (origin, refs) = line_reference(&[0, 1000, 2000, 3000]);
    let reference = ReferenceTrack {
        class: "elite".to_string(),
        projection: "EPSG:3844".to_string(),
        origin,
        track: refs,
    };
    let rider = RiderTrack {
        rider_uuid: 9,
        variant: 0,
        projection: "EPSG:3844".to_string(),
        start_time_ms: 0,
        track_origin: origin,
        track: rider_points(&[(0, 0), (1000, 0), (2000, 0)], &origin),
    };
    // The inverse snap searches the rider polyline, so the grid is
    // built over it.
    let grid = Grid::from_points(&rider.track, 1000).unwrap();
    let config = SnappingConfig::new(100);
    let matched = snap_rider_track_inverse(&rider, &reference, &grid, &config).unwrap();
    assert_eq!(matched.track.len(), reference.track.len());
    assert_eq!(matched.track[3].reference_index, 2);
}

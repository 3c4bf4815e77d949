use axiart_core::dendrite::{BranchingStyle, DendriteError, DendriteGenerator};
use axiart_core::dist_sq;

#[test]
fn parse_radial() {
    assert_eq!(BranchingStyle::from_str("radial"), Ok(BranchingStyle::Radial));
}

#[test]
fn parse_vertical() {
    assert_eq!(BranchingStyle::from_str("vertical"), Ok(BranchingStyle::Vertical));
}

#[test]
fn parse_horizontal() {
    assert_eq!(BranchingStyle::from_str("horizontal"), Ok(BranchingStyle::Horizontal));
}

#[test]
fn parse_ignores_ascii_case() {
    assert_eq!(BranchingStyle::from_str("RADIAL"), Ok(BranchingStyle::Radial));
    assert_eq!(BranchingStyle::from_str("VeRtIcAl"), Ok(BranchingStyle::Vertical));
}

#[test]
fn parse_rejects_unknown_name() {
    assert_eq!(
        BranchingStyle::from_str("diagonal"),
        Err(DendriteError::InvalidBranchingStyle)
    );
    assert_eq!(BranchingStyle::from_str(""), Err(DendriteError::InvalidBranchingStyle));
    assert_eq!(
        BranchingStyle::from_str("radial "),
        Err(DendriteError::InvalidBranchingStyle)
    );
}

#[test]
fn construction_fails_on_bad_style() {
    let r = DendriteGenerator::new(100, 100, 10, 5, 2, None, "spiral", Some(1));
    assert!(r.is_err());
}

#[test]
fn getters_report_canvas() {
    let g = DendriteGenerator::new(297, 210, 0, 5, 2, None, "radial", Some(1)).unwrap();
    assert_eq!(g.width(), 297);
    assert_eq!(g.height(), 210);
}

/// Radial style, one seed at the canvas center, particle count zero: the
/// output is exactly the seed point and no segments.
#[test]
fn zero_particles_yield_seed_only() {
    let mut g = DendriteGenerator::new(
        100,
        100,
        0,
        5,
        2,
        Some(vec![(50, 50)]),
        "radial",
        Some(7),
    )
    .unwrap();
    let (points, segments) = g.generate(1000);
    assert_eq!(points, vec![(50, 50)]);
    assert!(segments.is_empty());
}

/// Vertical style with an attraction distance of half the canvas: the one
/// particle must attach within the default budget; the output is two
/// points and one segment starting at the seed point.
#[test]
fn dominant_attraction_attaches_one_particle() {
    let mut g = DendriteGenerator::new(
        100_000,
        100_000,
        1,
        50_000,
        2_000,
        None,
        "vertical",
        Some(42),
    )
    .unwrap();
    let (points, segments) = g.generate(1000);
    let seed_point = (50_000, 100_000);
    assert_eq!(points.len(), 2);
    assert_eq!(segments.len(), 1);
    assert_eq!(points[0], seed_point);
    assert_eq!(segments[0].0, seed_point);
    assert_eq!(segments[0].1, points[1]);
}

/// An attraction distance tiny relative to the canvas with a small step
/// budget: particles may be discarded, so the output may hold fewer
/// segments than the particle count, without error.
#[test]
fn tiny_attraction_may_exhaust_particles() {
    let mut g = DendriteGenerator::new(
        100_000,
        100_000,
        5,
        1,
        2_000,
        Some(vec![(50_000, 50_000)]),
        "radial",
        Some(3),
    )
    .unwrap();
    let (points, segments) = g.generate(50);
    assert!(segments.len() <= 5);
    assert_eq!(points.len(), 1 + segments.len());
}

/// Two generators with the same seed and configuration produce
/// bit-identical output.
#[test]
fn same_seed_reproduces_output() {
    let make = || {
        DendriteGenerator::new(2_000, 2_000, 40, 60, 25, None, "radial", Some(12345)).unwrap()
    };
    let (p1, s1) = make().generate(400);
    let (p2, s2) = make().generate(400);
    assert_eq!(p1, p2);
    assert_eq!(s1, s2);
}

/// Different seeds give a different walk history (with overwhelming
/// likelihood for this configuration); this guards against the stream
/// wrapper ignoring its seed.
#[test]
fn different_seed_changes_output() {
    let make = |seed: u64| {
        DendriteGenerator::new(2_000, 2_000, 40, 60, 25, None, "radial", Some(seed)).unwrap()
    };
    let (p1, _) = make(1).generate(400);
    let (p2, _) = make(2).generate(400);
    assert_ne!(p1, p2);
}

/// Every returned point lies within the canvas, bounds inclusive.
#[test]
fn all_points_on_canvas() {
    let mut g =
        DendriteGenerator::new(1_500, 900, 60, 40, 20, None, "horizontal", Some(9)).unwrap();
    let (points, _) = g.generate(300);
    for &(x, y) in &points {
        assert!(0 <= x && x <= 1_500);
        assert!(0 <= y && y <= 900);
    }
}

/// The point list is the seed points followed by one point per segment,
/// and every segment connects its new point back to a strictly earlier
/// point: the output is a forest rooted at the seeds.
#[test]
fn output_is_forest_rooted_at_seeds() {
    let seeds = vec![(100, 100), (1_900, 900)];
    let mut g = DendriteGenerator::new(
        2_000,
        1_000,
        80,
        70,
        30,
        Some(seeds.clone()),
        "radial",
        Some(2024),
    )
    .unwrap();
    let (points, segments) = g.generate(500);
    assert_eq!(points.len(), seeds.len() + segments.len());
    assert_eq!(&points[..seeds.len()], &seeds[..]);
    for (k, seg) in segments.iter().enumerate() {
        let attached_index = seeds.len() + k;
        assert_eq!(seg.1, points[attached_index]);
        let parent = points[..attached_index]
            .iter()
            .position(|&q| q == seg.0);
        assert!(parent.is_some(), "segment {k} does not start at an earlier point");
        let d2 = dist_sq(seg.0, seg.1);
        assert!(d2 < 70 * 70, "segment {k} spans beyond the attraction distance");
    }
    // this configuration attaches at least one particle
    assert!(!segments.is_empty());
}

/// A generator keeps consuming one random stream across calls: a second
/// call continues the stream rather than restarting it, while two fresh
/// generators replay it.
#[test]
fn stream_continues_across_calls() {
    let mut g1 =
        DendriteGenerator::new(2_000, 2_000, 10, 60, 100, None, "vertical", Some(5)).unwrap();
    let first = g1.generate(1000);
    let second = g1.generate(1000);
    let mut g2 =
        DendriteGenerator::new(2_000, 2_000, 10, 60, 100, None, "vertical", Some(5)).unwrap();
    let replay = g2.generate(1000);
    assert_eq!(first, replay);
    // the second call starts from the continued stream; its points differ
    // from the first call's beyond the seed prefix with overwhelming
    // likelihood for this configuration
    assert_ne!(first, second);
}

/// Without an explicit seed the generator still works and produces a
/// well-formed forest.
#[test]
fn entropy_seeded_run_is_well_formed() {
    let mut g = DendriteGenerator::new(1_000, 1_000, 10, 50, 20, None, "radial", None).unwrap();
    let (points, segments) = g.generate(200);
    assert_eq!(points.len(), 1 + segments.len());
    assert!(segments.len() <= 10);
}

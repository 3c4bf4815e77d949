//! Diffusion-limited-aggregation dendrite generator.
//!
//! Particles spawn on a style-dependent edge locus, random-walk with a
//! style-dependent bias, and attach to the growing structure as soon as
//! they come within the attraction distance of their nearest neighbor,
//! found through the spatial hash grid. The whole run is specified as a
//! pure function of the configuration and the random seed.

use vstd::prelude::*;
use crate::COORD_LIMIT;
use crate::coord_in_range;
use crate::spec_dist_sq;
use crate::grid::SpatialGrid;
use crate::grid::spec_find_nearest;
use crate::rng::RandomStream;
use crate::rng::spec_word_below;

verus! {

/// Governs where particles spawn and how their walk is biased.
#[derive(Clone, Copy, Debug, PartialEq, Eq, Structural)]
pub enum BranchingStyle {
    Radial,
    Vertical,
    Horizontal,
}

/// A configuration the generator rejects at construction.
#[derive(Clone, Copy, Debug, PartialEq, Eq, Structural)]
pub enum DendriteError {
    /// The branching-style name is none of `radial`, `vertical`,
    /// `horizontal` (ASCII case-insensitively).
    InvalidBranchingStyle,
}

/// ASCII lowercasing of one character; other characters are unchanged.
pub open spec fn spec_lower_char(c: char) -> char {
    if 'A' <= c && c <= 'Z' {
        (((c as u8) + 32) as u8) as char
    } else {
        c
    }
}

/// `s` spells `name` up to ASCII case (`name` itself is lowercase).
pub open spec fn matches_name(s: Seq<char>, name: Seq<char>) -> bool {
    s.len() == name.len() && forall|i: int|
        0 <= i < s.len() ==> spec_lower_char(#[trigger] s[i]) == name[i]
}

/// The style a name denotes, if any.
pub open spec fn spec_style_of(s: Seq<char>) -> Option<BranchingStyle> {
    if matches_name(s, "radial"@) {
        Some(BranchingStyle::Radial)
    } else if matches_name(s, "vertical"@) {
        Some(BranchingStyle::Vertical)
    } else if matches_name(s, "horizontal"@) {
        Some(BranchingStyle::Horizontal)
    } else {
        None
    }
}

/// What parsing a style name returns.
pub open spec fn spec_parse_style(s: Seq<char>) -> Result<BranchingStyle, DendriteError> {
    match spec_style_of(s) {
        Some(style) => Ok(style),
        None => Err(DendriteError::InvalidBranchingStyle),
    }
}

/// Compares `s` with the lowercase name `name`, ignoring ASCII case in `s`.
fn name_matches(s: &str, name: &str) -> (r: bool)
    ensures
        r == matches_name(s@, name@),
{
    let n = s.unicode_len();
    let m = name.unicode_len();
    if n != m {
        return false;
    }
    let mut i: usize = 0;
    while i < n
        invariant
            i <= n,
            n == s@.len(),
            n == name@.len(),
            forall|k: int| 0 <= k < i ==> spec_lower_char(#[trigger] s@[k]) == name@[k],
        decreases n - i,
    {
        let c = s.get_char(i);
        let u = c as u32;
        let lc: char = if 65 <= u && u <= 90 {
            ((u as u8) + 32) as char
        } else {
            c
        };
        proof {
            assert(lc == spec_lower_char(s@[i as int]));
        }
        if lc != name.get_char(i) {
            proof {
                assert(spec_lower_char(s@[i as int]) != name@[i as int]);
            }
            return false;
        }
        i = i + 1;
    }
    true
}

/// The configuration one generation run depends on, as mathematical
/// values. Two runs with equal parameters and equal stream positions
/// produce equal output.
pub ghost struct GenParams {
    pub width: int,
    pub height: int,
    pub num_particles: nat,
    pub attraction: int,
    pub min_move: int,
    pub style: BranchingStyle,
    pub seeds: Seq<(i64, i64)>,
    pub seed: u64,
}

/// A point lies on the canvas, both bounds inclusive.
pub open spec fn in_canvas(pt: (i64, i64), width: int, height: int) -> bool {
    0 <= pt.0 <= width && 0 <= pt.1 <= height
}

/// The configurations the generator works on: positive sizes and
/// distances within the coordinate range, seed points on the canvas, and
/// a total point count that fits a `usize`.
pub open spec fn params_valid(p: GenParams) -> bool {
    &&& 1 <= p.width <= COORD_LIMIT
    &&& 1 <= p.height <= COORD_LIMIT
    &&& 1 <= p.attraction <= COORD_LIMIT
    &&& 1 <= p.min_move <= COORD_LIMIT
    &&& p.seeds.len() + p.num_particles <= usize::MAX
    &&& forall|i: int| 0 <= i < p.seeds.len() ==> in_canvas(#[trigger] p.seeds[i], p.width, p.height)
}

/// Scaled x component (unit 1/1024) of walk direction `k` of 16, at
/// multiples of one sixteenth of a full turn.
pub open spec fn spec_dir_x(k: int) -> int {
    if k == 0 { 1024 }
    else if k == 1 { 946 }
    else if k == 2 { 724 }
    else if k == 3 { 392 }
    else if k == 4 { 0 }
    else if k == 5 { -392 }
    else if k == 6 { -724 }
    else if k == 7 { -946 }
    else if k == 8 { -1024 }
    else if k == 9 { -946 }
    else if k == 10 { -724 }
    else if k == 11 { -392 }
    else if k == 12 { 0 }
    else if k == 13 { 392 }
    else if k == 14 { 724 }
    else { 946 }
}

/// Scaled y component (unit 1/1024) of walk direction `k` of 16.
pub open spec fn spec_dir_y(k: int) -> int {
    if k == 0 { 0 }
    else if k == 1 { 392 }
    else if k == 2 { 724 }
    else if k == 3 { 946 }
    else if k == 4 { 1024 }
    else if k == 5 { 946 }
    else if k == 6 { 724 }
    else if k == 7 { 392 }
    else if k == 8 { 0 }
    else if k == 9 { -392 }
    else if k == 10 { -724 }
    else if k == 11 { -946 }
    else if k == 12 { -1024 }
    else if k == 13 { -946 }
    else if k == 14 { -724 }
    else { -392 }
}

/// `move_distance * c / 1024`, truncated toward zero as the executable
/// arithmetic truncates.
pub open spec fn spec_scaled(move_distance: int, c: int) -> int {
    if c >= 0 {
        (move_distance * c) / 1024
    } else {
        -((move_distance * (-c)) / 1024)
    }
}

/// Two percent of `v`, truncated toward zero: the radial pull toward the
/// canvas center.
pub open spec fn spec_frac_2pct(v: int) -> int {
    if v >= 0 {
        (v * 2) / 100
    } else {
        -(((-v) * 2) / 100)
    }
}

/// The style-dependent bias added to every walk step: radial growth pulls
/// toward the canvas center by two percent of the offset, vertical growth
/// drifts down and horizontal growth drifts left by three tenths of the
/// move distance.
pub open spec fn spec_bias(p: GenParams, pos: (i64, i64)) -> (int, int) {
    match p.style {
        BranchingStyle::Radial => (
            spec_frac_2pct(p.width / 2 - pos.0),
            spec_frac_2pct(p.height / 2 - pos.1),
        ),
        BranchingStyle::Vertical => (0, (p.min_move * 3) / 10),
        BranchingStyle::Horizontal => (-((p.min_move * 3) / 10), 0),
    }
}

/// The spawn position drawn at stream position `d`, and the stream
/// position after the draw: vertical growth spawns on the top edge,
/// horizontal growth on the right edge, radial growth on one of the four
/// edges chosen uniformly.
pub open spec fn spec_spawn(p: GenParams, d: nat) -> ((i64, i64), nat) {
    match p.style {
        BranchingStyle::Vertical => (
            (spec_word_below(p.seed, d, p.width) as i64, 0i64),
            d + 1,
        ),
        BranchingStyle::Horizontal => (
            (p.width as i64, spec_word_below(p.seed, d, p.height) as i64),
            d + 1,
        ),
        BranchingStyle::Radial => {
            let e = spec_word_below(p.seed, d, 4);
            if e == 0 {
                ((spec_word_below(p.seed, d + 1, p.width) as i64, 0i64), d + 2)
            } else if e == 1 {
                ((p.width as i64, spec_word_below(p.seed, d + 1, p.height) as i64), d + 2)
            } else if e == 2 {
                ((spec_word_below(p.seed, d + 1, p.width) as i64, p.height as i64), d + 2)
            } else {
                ((0i64, spec_word_below(p.seed, d + 1, p.height) as i64), d + 2)
            }
        },
    }
}

/// One walk move from `pos`: a uniformly drawn direction scaled to the
/// move distance, plus the style bias. A position that would leave the
/// canvas strictly respawns on the spawn locus instead; otherwise the
/// position (already within bounds, so clamping changes nothing) is kept.
pub open spec fn spec_step(p: GenParams, pos: (i64, i64), d: nat) -> ((i64, i64), nat) {
    let k = spec_word_below(p.seed, d, 16);
    let sx = spec_scaled(p.min_move, spec_dir_x(k));
    let sy = spec_scaled(p.min_move, spec_dir_y(k));
    let b = spec_bias(p, pos);
    let nx = pos.0 + sx + b.0;
    let ny = pos.1 + sy + b.1;
    if nx < 0 || nx > p.width || ny < 0 || ny > p.height {
        spec_spawn(p, d + 1)
    } else {
        ((nx as i64, ny as i64), d + 1)
    }
}

/// One particle's walk from `pos` with `steps_left` steps of budget: at
/// each step the particle attaches if its nearest neighbor is strictly
/// within the attraction distance (appending its position as a new point
/// and a segment from the neighbor to it), otherwise it moves by one
/// `spec_step`; an exhausted budget discards the particle unchanged.
pub open spec fn spec_walk(
    p: GenParams,
    points: Seq<(i64, i64)>,
    segments: Seq<((i64, i64), (i64, i64))>,
    pos: (i64, i64),
    steps_left: nat,
    d: nat,
) -> (Seq<(i64, i64)>, Seq<((i64, i64), (i64, i64))>, nat)
    decreases steps_left,
{
    if steps_left == 0 {
        (points, segments, d)
    } else {
        let near = spec_find_nearest(points, p.attraction, pos);
        if near matches Some(b) && b.1 < p.attraction * p.attraction {
            let nearest = points[near->Some_0.0 as int];
            (points.push(pos), segments.push((nearest, pos)), d)
        } else {
            let (npos, nd) = spec_step(p, pos, d);
            spec_walk(p, points, segments, npos, (steps_left - 1) as nat, nd)
        }
    }
}

/// Runs `remaining` particles in order, each spawned and walked with the
/// budget `max_steps`, threading the accumulating state through.
pub open spec fn spec_particles(
    p: GenParams,
    points: Seq<(i64, i64)>,
    segments: Seq<((i64, i64), (i64, i64))>,
    remaining: nat,
    max_steps: nat,
    d: nat,
) -> (Seq<(i64, i64)>, Seq<((i64, i64), (i64, i64))>, nat)
    decreases remaining,
{
    if remaining == 0 {
        (points, segments, d)
    } else {
        let (pos0, d1) = spec_spawn(p, d);
        let (pts1, segs1, d2) = spec_walk(p, points, segments, pos0, max_steps, d1);
        spec_particles(p, pts1, segs1, (remaining - 1) as nat, max_steps, d2)
    }
}

/// The whole generation run: the seed points, then one particle after
/// another, a pure function of the parameters, the walk budget and the
/// starting stream position.
pub open spec fn spec_generate(p: GenParams, max_steps: nat, d: nat) -> (
    Seq<(i64, i64)>,
    Seq<((i64, i64), (i64, i64))>,
    nat,
) {
    spec_particles(p, p.seeds, Seq::empty(), p.num_particles, max_steps, d)
}

impl BranchingStyle {
    /// Parses a style name: `radial`, `vertical` or `horizontal`, ASCII
    /// case-insensitively; anything else is an invalid configuration.
    pub fn from_str(s: &str) -> (r: Result<BranchingStyle, DendriteError>)
        ensures
            r == spec_parse_style(s@),
    {
        if name_matches(s, "radial") {
            Ok(BranchingStyle::Radial)
        } else if name_matches(s, "vertical") {
            Ok(BranchingStyle::Vertical)
        } else if name_matches(s, "horizontal") {
            Ok(BranchingStyle::Horizontal)
        } else {
            Err(DendriteError::InvalidBranchingStyle)
        }
    }
}

/// Segment `k` connects its attached point (at index `seeds + k`) back to
/// some strictly earlier point of the structure, and spans strictly less
/// than the attraction distance: particles attach only on contact.
pub open spec fn segment_ok(
    p: GenParams,
    points: Seq<(i64, i64)>,
    segments: Seq<((i64, i64), (i64, i64))>,
    k: int,
) -> bool {
    &&& segments[k].1 == points[p.seeds.len() + k]
    &&& exists|j: int| 0 <= j < p.seeds.len() + k && points[j] == segments[k].0
    &&& spec_dist_sq(segments[k].0, segments[k].1) < p.attraction * p.attraction
}

/// The engine's invariant over its accumulated output: the point list is
/// the seed points followed by one point per segment; every point lies on
/// the canvas; and every segment connects back to a strictly earlier
/// point, so the structure is a forest rooted at the seed points.
pub open spec fn state_ok(
    p: GenParams,
    points: Seq<(i64, i64)>,
    segments: Seq<((i64, i64), (i64, i64))>,
) -> bool {
    &&& points.len() == p.seeds.len() + segments.len()
    &&& points.len() <= usize::MAX
    &&& points.subrange(0, p.seeds.len() as int) == p.seeds
    &&& forall|i: int| 0 <= i < points.len() ==> in_canvas(#[trigger] points[i], p.width, p.height)
    &&& forall|k: int| 0 <= k < segments.len() ==> #[trigger] segment_ok(p, points, segments, k)
}

/// Determinism of generation: the run is a pure function of the
/// parameters (seed included), the walk budget and the stream position,
/// so two generators configured equally — in particular, two generators
/// built with the same explicit random seed — produce identical point and
/// segment sequences. Together with [`DendriteGenerator::generate`]'s
/// contract, which pins its result to `spec_generate`, this is the
/// reproducibility guarantee.
pub proof fn lemma_generate_deterministic(
    p1: GenParams,
    p2: GenParams,
    max_steps: nat,
    d1: nat,
    d2: nat,
)
    requires
        p1 == p2,
        d1 == d2,
    ensures
        spec_generate(p1, max_steps, d1) == spec_generate(p2, max_steps, d2),
{
}

/// The seed point a style starts from when none is given: vertical growth
/// from the bottom-edge center, horizontal growth from the left-edge
/// center, radial growth from the canvas center.
pub open spec fn spec_default_seed(style: BranchingStyle, width: int, height: int) -> (i64, i64) {
    match style {
        BranchingStyle::Vertical => ((width / 2) as i64, height as i64),
        BranchingStyle::Horizontal => (0i64, (height / 2) as i64),
        BranchingStyle::Radial => ((width / 2) as i64, (height / 2) as i64),
    }
}

/// The seed points a run starts from: the given ones, or the style's
/// default.
pub open spec fn spec_initial_seeds(
    seed_points: Option<Vec<(i64, i64)>>,
    style: BranchingStyle,
    width: int,
    height: int,
) -> Seq<(i64, i64)> {
    match seed_points {
        Some(sp) => sp@,
        None => seq![spec_default_seed(style, width, height)],
    }
}

/// Computes `move_distance * c / 1024`, truncating toward zero.
fn scaled(move_distance: i64, c: i64) -> (r: i64)
    requires
        1 <= move_distance <= COORD_LIMIT,
        -1024 <= c <= 1024,
    ensures
        r == spec_scaled(move_distance as int, c as int),
        -move_distance <= r <= move_distance,
{
    proof {
        assert(move_distance * 1024 <= COORD_LIMIT * 1024) by (nonlinear_arith)
            requires 1 <= move_distance <= COORD_LIMIT;
        if c >= 0 {
            assert(move_distance * c <= move_distance * 1024) by (nonlinear_arith)
                requires move_distance >= 1, 0 <= c <= 1024;
            assert(move_distance * c >= 0) by (nonlinear_arith)
                requires move_distance >= 1, c >= 0;
            vstd::arithmetic::div_mod::lemma_div_is_ordered(
                move_distance * c,
                move_distance * 1024,
                1024,
            );
            vstd::arithmetic::div_mod::lemma_div_by_multiple(move_distance as int, 1024);
            vstd::arithmetic::div_mod::lemma_div_pos_is_pos(move_distance * c, 1024);
        } else {
            assert(move_distance * (-c) <= move_distance * 1024) by (nonlinear_arith)
                requires move_distance >= 1, 0 <= -c <= 1024;
            assert(move_distance * (-c) >= 0) by (nonlinear_arith)
                requires move_distance >= 1, -c >= 0;
            vstd::arithmetic::div_mod::lemma_div_is_ordered(
                move_distance * (-c),
                move_distance * 1024,
                1024,
            );
            vstd::arithmetic::div_mod::lemma_div_by_multiple(move_distance as int, 1024);
            vstd::arithmetic::div_mod::lemma_div_pos_is_pos(move_distance * (-c), 1024);
        }
    }
    if c >= 0 {
        (((move_distance as u64) * (c as u64)) / 1024) as i64
    } else {
        -((((move_distance as u64) * ((-c) as u64)) / 1024) as i64)
    }
}

/// Computes two percent of `v`, truncating toward zero.
fn frac_2pct(v: i64) -> (r: i64)
    requires
        -COORD_LIMIT <= v <= COORD_LIMIT,
    ensures
        r == spec_frac_2pct(v as int),
        -COORD_LIMIT <= r <= COORD_LIMIT,
{
    proof {
        if v >= 0 {
            vstd::arithmetic::div_mod::lemma_div_is_ordered(v * 2, COORD_LIMIT * 2, 100);
            vstd::arithmetic::div_mod::lemma_div_pos_is_pos(v * 2, 100);
        } else {
            vstd::arithmetic::div_mod::lemma_div_is_ordered((-v) * 2, COORD_LIMIT * 2, 100);
            vstd::arithmetic::div_mod::lemma_div_pos_is_pos((-v) * 2, 100);
        }
    }
    if v >= 0 {
        (((v as u64) * 2) / 100) as i64
    } else {
        -(((((-v) as u64)) * 2 / 100) as i64)
    }
}

/// Computes three tenths of the move distance, the constant drift of the
/// vertical and horizontal styles.
fn drift_3tenths(move_distance: i64) -> (r: i64)
    requires
        1 <= move_distance <= COORD_LIMIT,
    ensures
        r == (move_distance as int * 3) / 10,
        0 <= r <= COORD_LIMIT,
{
    proof {
        vstd::arithmetic::div_mod::lemma_div_is_ordered(
            move_distance as int * 3,
            COORD_LIMIT as int * 3,
            10,
        );
        vstd::arithmetic::div_mod::lemma_div_pos_is_pos(move_distance as int * 3, 10);
    }
    (((move_distance as u64) * 3) / 10) as i64
}

/// The scaled direction vector (unit 1/1024) for direction `k` of 16.
fn dir_vec(k: u64) -> (r: (i64, i64))
    requires
        k < 16,
    ensures
        r.0 == spec_dir_x(k as int),
        r.1 == spec_dir_y(k as int),
{
    if k == 0 { (1024, 0) }
    else if k == 1 { (946, 392) }
    else if k == 2 { (724, 724) }
    else if k == 3 { (392, 946) }
    else if k == 4 { (0, 1024) }
    else if k == 5 { (-392, 946) }
    else if k == 6 { (-724, 724) }
    else if k == 7 { (-946, 392) }
    else if k == 8 { (-1024, 0) }
    else if k == 9 { (-946, -392) }
    else if k == 10 { (-724, -724) }
    else if k == 11 { (-392, -946) }
    else if k == 12 { (0, -1024) }
    else if k == 13 { (392, -946) }
    else if k == 14 { (724, -724) }
    else { (946, -392) }
}

/// The diffusion-limited-aggregation dendrite generator: owns the
/// configuration and the random stream, and grows a forest of points and
/// segments rooted at the seed points.
pub struct DendriteGenerator {
    width: i64,
    height: i64,
    num_particles: usize,
    attraction_distance: i64,
    min_move_distance: i64,
    branching_style: BranchingStyle,
    seed_points: Vec<(i64, i64)>,
    rng: RandomStream,
}

impl DendriteGenerator {
    /// The run parameters this generator was configured with.
    pub closed spec fn params(self) -> GenParams {
        GenParams {
            width: self.width as int,
            height: self.height as int,
            num_particles: self.num_particles as nat,
            attraction: self.attraction_distance as int,
            min_move: self.min_move_distance as int,
            style: self.branching_style,
            seeds: self.seed_points@,
            seed: self.rng.seed(),
        }
    }

    /// How many words of the random stream have been consumed so far.
    pub closed spec fn stream_pos(self) -> nat {
        self.rng.drawn()
    }

    /// The generator's invariant: its parameters are valid.
    pub open spec fn wf(self) -> bool {
        params_valid(self.params())
    }

    /// Builds a generator. The branching style is parsed from its name;
    /// an unrecognized name fails construction. Without explicit seed
    /// points the style's default seed is used; without an explicit
    /// random seed a non-reproducible one is drawn from the system
    /// entropy source.
    pub fn new(
        width: i64,
        height: i64,
        num_particles: usize,
        attraction_distance: i64,
        min_move_distance: i64,
        seed_points: Option<Vec<(i64, i64)>>,
        branching_style: &str,
        seed: Option<u64>,
    ) -> (r: Result<DendriteGenerator, DendriteError>)
        requires
            1 <= width <= COORD_LIMIT,
            1 <= height <= COORD_LIMIT,
            1 <= attraction_distance <= COORD_LIMIT,
            1 <= min_move_distance <= COORD_LIMIT,
            match seed_points {
                Some(sp) => sp@.len() + num_particles <= usize::MAX && forall|i: int|
                    0 <= i < sp@.len() ==> in_canvas(#[trigger] sp@[i], width as int, height as int),
                None => 1 + num_particles <= usize::MAX,
            },
        ensures
            r is Ok <==> spec_style_of(branching_style@) is Some,
            r matches Err(e) ==> e == DendriteError::InvalidBranchingStyle,
            r matches Ok(g) ==> {
                let style = spec_style_of(branching_style@)->Some_0;
                &&& g.wf()
                &&& g.params().width == width
                &&& g.params().height == height
                &&& g.params().num_particles == num_particles
                &&& g.params().attraction == attraction_distance
                &&& g.params().min_move == min_move_distance
                &&& g.params().style == style
                &&& g.params().seeds == spec_initial_seeds(
                    seed_points,
                    style,
                    width as int,
                    height as int,
                )
                &&& g.stream_pos() == 0
                &&& (seed matches Some(s) ==> g.params().seed == s)
            },
    {
        let style = match BranchingStyle::from_str(branching_style) {
            Ok(st) => st,
            Err(e) => {
                return Err(e);
            },
        };
        let seeds: Vec<(i64, i64)> = match seed_points {
            Some(sp) => sp,
            None => {
                let mut v: Vec<(i64, i64)> = Vec::new();
                let half_w = ((width as u64) / 2) as i64;
                let half_h = ((height as u64) / 2) as i64;
                proof {
                    vstd::arithmetic::div_mod::lemma_div_nonincreasing(width as int, 2);
                    vstd::arithmetic::div_mod::lemma_div_pos_is_pos(width as int, 2);
                    vstd::arithmetic::div_mod::lemma_div_nonincreasing(height as int, 2);
                    vstd::arithmetic::div_mod::lemma_div_pos_is_pos(height as int, 2);
                }
                match style {
                    BranchingStyle::Vertical => v.push((half_w, height)),
                    BranchingStyle::Horizontal => v.push((0, half_h)),
                    BranchingStyle::Radial => v.push((half_w, half_h)),
                }
                v
            },
        };
        let rng = match seed {
            Some(s) => RandomStream::from_seed(s),
            None => RandomStream::from_seed(crate::rng::entropy_seed()),
        };
        Ok(
            DendriteGenerator {
                width,
                height,
                num_particles,
                attraction_distance,
                min_move_distance,
                branching_style: style,
                seed_points: seeds,
                rng,
            },
        )
    }

    /// Draws a spawn position on the style's spawn locus.
    fn spawn_position(&mut self) -> (pos: (i64, i64))
        requires
            old(self).wf(),
        ensures
            final(self).params() == old(self).params(),
            pos == spec_spawn(old(self).params(), old(self).stream_pos()).0,
            final(self).stream_pos() == spec_spawn(old(self).params(), old(self).stream_pos()).1,
            in_canvas(pos, old(self).params().width, old(self).params().height),
    {
        match self.branching_style {
            BranchingStyle::Vertical => {
                let x = self.rng.next_below(self.width as u64) as i64;
                (x, 0)
            },
            BranchingStyle::Horizontal => {
                let y = self.rng.next_below(self.height as u64) as i64;
                (self.width, y)
            },
            BranchingStyle::Radial => {
                let e = self.rng.next_below(4);
                if e == 0 {
                    let x = self.rng.next_below(self.width as u64) as i64;
                    (x, 0)
                } else if e == 1 {
                    let y = self.rng.next_below(self.height as u64) as i64;
                    (self.width, y)
                } else if e == 2 {
                    let x = self.rng.next_below(self.width as u64) as i64;
                    (x, self.height)
                } else {
                    let y = self.rng.next_below(self.height as u64) as i64;
                    (0, y)
                }
            },
        }
    }

    /// Takes one biased random-walk step from `pos`, respawning on the
    /// spawn locus when the step would leave the canvas strictly.
    fn walk_step(&mut self, pos: (i64, i64)) -> (npos: (i64, i64))
        requires
            old(self).wf(),
            in_canvas(pos, old(self).params().width, old(self).params().height),
        ensures
            final(self).params() == old(self).params(),
            npos == spec_step(old(self).params(), pos, old(self).stream_pos()).0,
            final(self).stream_pos() == spec_step(old(self).params(), pos, old(self).stream_pos()).1,
            in_canvas(npos, old(self).params().width, old(self).params().height),
    {
        let k = self.rng.next_below(16);
        let (dir_x, dir_y) = dir_vec(k);
        let sx = scaled(self.min_move_distance, dir_x);
        let sy = scaled(self.min_move_distance, dir_y);
        let (bx, by) = match self.branching_style {
            BranchingStyle::Radial => {
                let half_w = ((self.width as u64) / 2) as i64;
                let half_h = ((self.height as u64) / 2) as i64;
                proof {
                    vstd::arithmetic::div_mod::lemma_div_nonincreasing(self.width as int, 2);
                    vstd::arithmetic::div_mod::lemma_div_pos_is_pos(self.width as int, 2);
                    vstd::arithmetic::div_mod::lemma_div_nonincreasing(self.height as int, 2);
                    vstd::arithmetic::div_mod::lemma_div_pos_is_pos(self.height as int, 2);
                }
                (frac_2pct(half_w - pos.0), frac_2pct(half_h - pos.1))
            },
            BranchingStyle::Vertical => {
                let drift = drift_3tenths(self.min_move_distance);
                (0, drift)
            },
            BranchingStyle::Horizontal => {
                let drift = drift_3tenths(self.min_move_distance);
                (-drift, 0)
            },
        };
        let nx = pos.0 + sx + bx;
        let ny = pos.1 + sy + by;
        if nx < 0 || nx > self.width || ny < 0 || ny > self.height {
            self.spawn_position()
        } else {
            (nx, ny)
        }
    }

    /// The canvas width.
    pub fn width(&self) -> (r: i64)
        ensures
            r == self.params().width,
    {
        self.width
    }

    /// The canvas height.
    pub fn height(&self) -> (r: i64)
        ensures
            r == self.params().height,
    {
        self.height
    }

    /// Grows the dendrite and returns every tree point (the seed points
    /// first, then one point per attached particle in attachment order)
    /// and one segment per attachment, from the attachment's nearest
    /// neighbor to the new point. Particles that exhaust the walk budget
    /// `max_attempts` are discarded silently, so the number of segments
    /// may fall short of the configured particle count. The result is a
    /// pure function of the configuration, the seed and the stream
    /// position, so a fresh generator with the same seed reproduces it
    /// exactly.
    #[verifier::rlimit(50)]
    pub fn generate(&mut self, max_attempts: usize) -> (r: (
        Vec<(i64, i64)>,
        Vec<((i64, i64), (i64, i64))>,
    ))
        requires
            old(self).wf(),
            max_attempts >= 1,
        ensures
            final(self).params() == old(self).params(),
            final(self).wf(),
            (r.0@, r.1@, final(self).stream_pos()) == spec_generate(
                old(self).params(),
                max_attempts as nat,
                old(self).stream_pos(),
            ),
            state_ok(old(self).params(), r.0@, r.1@),
            r.0@.len() == old(self).params().seeds.len() + r.1@.len(),
            r.1@.len() <= old(self).params().num_particles,
    {
        let ghost p = old(self).params();
        let ghost d0 = old(self).stream_pos();
        let att = self.attraction_distance;
        proof {
            assert(att * att <= 1_000_000_000_000_000_000) by (nonlinear_arith)
                requires 1 <= att <= 1_000_000_000;
            assert(att * att >= 1) by (nonlinear_arith)
                requires att >= 1;
        }
        let att_sq = att * att;
        let mut points: Vec<(i64, i64)> = Vec::new();
        let mut segments: Vec<((i64, i64), (i64, i64))> = Vec::new();
        let mut grid = SpatialGrid::new(att);

        let nseeds = self.seed_points.len();
        let mut i: usize = 0;
        while i < nseeds
            invariant
                self.wf(),
                self.params() == p,
                i <= nseeds,
                nseeds == p.seeds.len(),
                att == p.attraction,
                points@ == p.seeds.take(i as int),
                grid.wf(),
                grid.cell_size() == p.attraction,
                grid.consistent_with(points@),
            decreases nseeds - i,
        {
            let pt = self.seed_points[i];
            let ghost pts_b = points@;
            let ghost g_b = grid;
            proof {
                assert(p.seeds[i as int] == pt);
                assert(in_canvas(pt, p.width, p.height));
                assert(pts_b.len() == i);
            }
            points.push(pt);
            grid.insert(pt.0, pt.1, i);
            proof {
                crate::grid::lemma_consistency_after_insert(g_b, grid, pts_b, pt);
                assert(points@ =~= p.seeds.take(i + 1));
            }
            i = i + 1;
        }
        proof {
            assert(points@ =~= p.seeds);
            assert(points@.subrange(0, p.seeds.len() as int) =~= p.seeds);
            assert(state_ok(p, points@, segments@));
        }

        let n = self.num_particles;
        let mut particle: usize = 0;
        while particle < n
            invariant
                self.wf(),
                self.params() == p,
                max_attempts >= 1,
                n == p.num_particles,
                particle <= n,
                att == p.attraction,
                att_sq == p.attraction * p.attraction,
                state_ok(p, points@, segments@),
                segments@.len() <= particle,
                grid.wf(),
                grid.cell_size() == p.attraction,
                grid.consistent_with(points@),
                spec_particles(
                    p,
                    points@,
                    segments@,
                    (n - particle) as nat,
                    max_attempts as nat,
                    self.stream_pos(),
                ) == spec_generate(p, max_attempts as nat, d0),
            decreases n - particle,
        {
            let ghost pts0 = points@;
            let ghost segs0 = segments@;
            let ghost d_pre = self.stream_pos();
            let mut pos = self.spawn_position();
            let ghost w_target = spec_walk(
                p,
                points@,
                segments@,
                pos,
                max_attempts as nat,
                self.stream_pos(),
            );
            proof {
                let rem = (n - particle) as nat;
                let sp = spec_spawn(p, d_pre);
                assert(pos == sp.0 && self.stream_pos() == sp.1);
                assert(spec_particles(p, pts0, segs0, rem, max_attempts as nat, d_pre)
                    == spec_particles(
                    p,
                    w_target.0,
                    w_target.1,
                    (rem - 1) as nat,
                    max_attempts as nat,
                    w_target.2,
                ));
            }
            let mut step: usize = 0;
            let mut attached = false;
            while step < max_attempts && !attached
                invariant
                    self.wf(),
                    self.params() == p,
                    att == p.attraction,
                    att_sq == p.attraction * p.attraction,
                    step <= max_attempts,
                    segs0.len() <= particle,
                    particle < n,
                    n == p.num_particles,
                    state_ok(p, points@, segments@),
                    grid.wf(),
                    grid.cell_size() == p.attraction,
                    grid.consistent_with(points@),
                    in_canvas(pos, p.width, p.height),
                    segments@.len() <= segs0.len() + 1,
                    !attached ==> segments@ == segs0 && points@ == pts0,
                    !attached ==> spec_walk(
                        p,
                        points@,
                        segments@,
                        pos,
                        (max_attempts - step) as nat,
                        self.stream_pos(),
                    ) == w_target,
                    attached ==> (points@, segments@, self.stream_pos()) == w_target,
                decreases (max_attempts - step) as int, (if attached { 0int } else { 1int }),
            {
                let near = grid.find_nearest(pos.0, pos.1, &points);
                let mut attach_idx: usize = 0;
                let mut do_attach = false;
                match near {
                    Some(pair) => {
                        if pair.1 < att_sq {
                            attach_idx = pair.0;
                            do_attach = true;
                        }
                    },
                    None => {},
                }
                if do_attach {
                    proof {
                        assert(forall|j: int|
                            0 <= j < points@.len() ==> coord_in_range(#[trigger] points@[j]));
                        assert((pos.0, pos.1) == pos);
                        crate::grid::lemma_find_nearest_props(points@, p.attraction, pos);
                        assert(attach_idx < points@.len());
                    }
                    let ghost pts_b = points@;
                    let ghost segs_b = segments@;
                    let ghost g_b = grid;
                    let ghost d_now = self.stream_pos();
                    let nearest = points[attach_idx];
                    let new_idx = points.len();
                    points.push(pos);
                    segments.push((nearest, pos));
                    grid.insert(pos.0, pos.1, new_idx);
                    attached = true;
                    proof {
                        crate::grid::lemma_consistency_after_insert(g_b, grid, pts_b, pos);
                        let rem = (max_attempts - step) as nat;
                        assert(spec_walk(p, pts_b, segs_b, pos, rem, d_now) == (
                            pts_b.push(pos),
                            segs_b.push((pts_b[attach_idx as int], pos)),
                            d_now,
                        ));
                        assert((points@, segments@, self.stream_pos()) == w_target);
                        assert(segs_b == segs0 && pts_b == pts0);
                        {
                            assert(segments@.len() <= particle + 1 <= p.num_particles);
                            assert(points@.len() == p.seeds.len() + segments@.len());
                            assert(points@.len() <= p.seeds.len() + p.num_particles);
                            assert(points@.len() <= usize::MAX);
                            assert forall|i: int| 0 <= i < points@.len() implies in_canvas(
                                #[trigger] points@[i],
                                p.width,
                                p.height,
                            ) by {
                                if i < pts_b.len() {
                                    assert(points@[i] == pts_b[i]);
                                }
                            }
                            assert(points@.subrange(0, p.seeds.len() as int) =~= pts_b.subrange(
                                0,
                                p.seeds.len() as int,
                            ));
                            assert forall|k: int| 0 <= k < segments@.len() implies #[trigger] segment_ok(
                                p,
                                points@,
                                segments@,
                                k,
                            ) by {
                                if k < segs_b.len() {
                                    assert(segment_ok(p, pts_b, segs_b, k));
                                    assert(segments@[k] == segs_b[k]);
                                    assert(points@[p.seeds.len() + k] == pts_b[p.seeds.len() + k]);
                                    let j = choose|j: int|
                                        0 <= j < p.seeds.len() + k && pts_b[j] == segs_b[k].0;
                                    assert(points@[j] == pts_b[j]);
                                } else {
                                    assert(segments@[k] == (pts_b[attach_idx as int], pos));
                                    assert(points@[p.seeds.len() + k] == pos);
                                    assert(points@[attach_idx as int] == pts_b[attach_idx as int]);
                                    assert(0 <= attach_idx < p.seeds.len() + k);
                                    assert(spec_dist_sq(pts_b[attach_idx as int], pos)
                                        < p.attraction * p.attraction);
                                }
                            }
                        }
                        assert(state_ok(p, points@, segments@));
                    }
                } else {
                    proof {
                        let rem = (max_attempts - step) as nat;
                        let st = spec_step(p, pos, self.stream_pos());
                        assert(spec_walk(p, points@, segments@, pos, rem, self.stream_pos())
                            == spec_walk(
                            p,
                            points@,
                            segments@,
                            st.0,
                            (rem - 1) as nat,
                            st.1,
                        ));
                    }
                    pos = self.walk_step(pos);
                    step = step + 1;
                }
            }
            proof {
                if !attached {
                    assert(step == max_attempts);
                    assert(spec_walk(p, points@, segments@, pos, 0nat, self.stream_pos()) == (
                        points@,
                        segments@,
                        self.stream_pos(),
                    ));
                }
                assert((points@, segments@, self.stream_pos()) == w_target);
                assert(spec_particles(
                    p,
                    points@,
                    segments@,
                    (n - (particle + 1)) as nat,
                    max_attempts as nat,
                    self.stream_pos(),
                ) == spec_generate(p, max_attempts as nat, d0));
            }
            particle = particle + 1;
        }
        proof {
            assert(spec_particles(
                p,
                points@,
                segments@,
                0nat,
                max_attempts as nat,
                self.stream_pos(),
            ) == (points@, segments@, self.stream_pos()));
        }
        (points, segments)
    }
}

} // verus!

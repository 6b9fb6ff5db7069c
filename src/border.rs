use crate::error::MapError;
use crate::height_map::{Channel, HeightMap, HeightMapView};
use crate::hex::{
    anticlockwise, axial_of_offset, clockwise, corner_of, half_up, is_unit, lemma_rotation_group,
    offset_of_axial, HexCoord, LatticePoint,
};
use crate::territories::{sea_id, CountryId, Territories, TerritoriesView};
use vstd::arithmetic::div_mod::lemma_fundamental_div_mod_converse;
use vstd::prelude::*;

verus! {

/// One step of a border trace: the edge from `start_corner` to
/// `middle_corner` of the hex the walk stood on, and the corner `end_corner`
/// where the following edge ends. The wall at `middle_corner` spans the
/// elevation of the hex before the step and the one after it.
#[derive(PartialEq, Eq, Structural, Clone, Copy, Debug)]
pub struct BorderStep {
    pub country: CountryId,
    pub start_corner: LatticePoint,
    pub middle_corner: LatticePoint,
    pub end_corner: LatticePoint,
    pub middle_elevation: u8,
    pub current_elevation: u8,
}

/// The border walls of all countries: four ribbon vertices per step (inner
/// and outer rail, at the two elevations), and the triangles joining them as
/// indices into those vertices.
///
/// `visited` holds, row by row, the marks the walks left on the cells.
#[derive(Debug)]
pub struct BorderMesh {
    pub steps: Vec<BorderStep>,
    pub indices: Vec<u32>,
    pub visited: Vec<bool>,
}

/// What a `BorderStep` says, with the corners as lattice pairs.
pub struct StepModel {
    pub country: CountryId,
    pub start: (int, int),
    pub middle: (int, int),
    pub end: (int, int),
    pub middle_elevation: u8,
    pub current_elevation: u8,
}

impl BorderStep {
    pub open spec fn model(self) -> StepModel {
        StepModel {
            country: self.country,
            start: self.start_corner.pair(),
            middle: self.middle_corner.pair(),
            end: self.end_corner.pair(),
            middle_elevation: self.middle_elevation,
            current_elevation: self.current_elevation,
        }
    }
}

pub open spec fn steps_model(s: Seq<BorderStep>) -> Seq<StepModel> {
    s.map_values(|b: BorderStep| b.model())
}

pub open spec fn u32s(v: Seq<u32>) -> Seq<int> {
    v.map_values(|i: u32| i as int)
}

pub open spec fn top_left_dir() -> (int, int) {
    (0, -1)
}

/// Column and row of a hex.
pub open spec fn hex_offset(h: (int, int)) -> (int, int) {
    offset_of_axial(h.0, h.1)
}

/// Whether hex `h` lies in the grid and belongs to `id`.
pub open spec fn owned(t: TerritoriesView, h: (int, int), id: CountryId) -> bool {
    t.in_grid(hex_offset(h).0, hex_offset(h).1) && t.at(hex_offset(h).0, hex_offset(h).1) == id
}

/// One move of the wall follower on state `(hex, direction)`: step into the
/// neighbour ahead and turn anticlockwise where it belongs to the country,
/// else stay and turn clockwise.
pub open spec fn trace_step(t: TerritoriesView, id: CountryId, s: ((int, int), (int, int))) -> (
    (int, int),
    (int, int),
) {
    let next = (s.0.0 + s.1.0, s.0.1 + s.1.1);
    if owned(t, next, id) {
        (next, anticlockwise(s.1))
    } else {
        (s.0, clockwise(s.1))
    }
}

/// The state after `k` moves from `start`, facing the top left.
pub open spec fn trace_state(t: TerritoriesView, id: CountryId, start: (int, int), k: nat) -> (
    (int, int),
    (int, int),
)
    decreases k,
{
    if k == 0 {
        (start, top_left_dir())
    } else {
        trace_step(t, id, trace_state(t, id, start, (k - 1) as nat))
    }
}

pub open spec fn closes(t: TerritoriesView, id: CountryId, start: (int, int), k: nat) -> bool {
    trace_state(t, id, start, k) == (start, top_left_dir())
}

/// There are at most this many distinct states, six per cell.
pub open spec fn trace_bound(t: TerritoriesView) -> nat {
    6 * t.width * t.height()
}

/// The first `j` from `k` on, up to the bound, at which the walk is back.
pub open spec fn first_close(t: TerritoriesView, id: CountryId, start: (int, int), k: nat) -> Option<
    nat,
>
    decreases trace_bound(t) + 1 - k,
{
    if k > trace_bound(t) {
        None
    } else if closes(t, id, start, k) {
        Some(k)
    } else {
        first_close(t, id, start, k + 1)
    }
}

/// Number of moves until the walk is back at its start, if it is back within
/// the bound.
pub open spec fn trace_len(t: TerritoriesView, id: CountryId, start: (int, int)) -> Option<nat> {
    first_close(t, id, start, 1)
}

/// Steps of a trace whose ribbon vertices start at index `base`, or why it
/// fails: it does not close, or its vertex indices pass `u32::MAX`.
pub open spec fn trace_outcome(t: TerritoriesView, id: CountryId, start: (int, int), base: int) -> Result<
    nat,
    MapError,
> {
    match trace_len(t, id, start) {
        Some(n) => if base + 4 * n > u32::MAX {
            Err(MapError::TooLarge)
        } else {
            Ok(n)
        },
        None => if base + 4 * trace_bound(t) > u32::MAX {
            Err(MapError::TooLarge)
        } else {
            Err(MapError::Unclosed)
        },
    }
}

pub open spec fn elevation_at(m: HeightMapView, h: (int, int)) -> u8 {
    m.sample(0, hex_offset(h).0, hex_offset(h).1)
}

/// The `i`-th step of the trace.
pub open spec fn step_model(
    t: TerritoriesView,
    m: HeightMapView,
    id: CountryId,
    start: (int, int),
    i: nat,
) -> StepModel {
    let s = trace_state(t, id, start, i);
    let s2 = trace_state(t, id, start, i + 1);
    StepModel {
        country: id,
        start: corner_of(s.0, anticlockwise(s.1)),
        middle: corner_of(s.0, s.1),
        end: corner_of(s2.0, s2.1),
        middle_elevation: elevation_at(m, s.0),
        current_elevation: elevation_at(m, s2.0),
    }
}

pub open spec fn trace_steps(
    t: TerritoriesView,
    m: HeightMapView,
    id: CountryId,
    start: (int, int),
    n: nat,
) -> Seq<StepModel> {
    Seq::new(n, |i: int| step_model(t, m, id, start, i as nat))
}

/// Position of hex `h` in a row-major list of the cells.
pub open spec fn cell_index(t: TerritoriesView, h: (int, int)) -> int {
    hex_offset(h).1 * t.width + hex_offset(h).0
}

/// The visited marks after `k` moves: a hex is marked each time the walk
/// stands on it facing the top left.
pub open spec fn visited_after(
    t: TerritoriesView,
    id: CountryId,
    start: (int, int),
    visited: Seq<bool>,
    k: nat,
) -> Seq<bool>
    decreases k,
{
    if k == 0 {
        visited
    } else {
        let v = visited_after(t, id, start, visited, (k - 1) as nat);
        let s = trace_state(t, id, start, k);
        if s.1 == top_left_dir() {
            v.update(cell_index(t, s.0), true)
        } else {
            v
        }
    }
}

proof fn lemma_visited_len(
    t: TerritoriesView,
    id: CountryId,
    start: (int, int),
    visited: Seq<bool>,
    k: nat,
)
    requires
        owned(t, start, id),
        t.width <= u16::MAX,
        t.height() <= u16::MAX,
        visited.len() == t.hexes.len(),
    ensures
        visited_after(t, id, start, visited, k).len() == visited.len(),
    decreases k,
{
    if k > 0 {
        lemma_visited_len(t, id, start, visited, (k - 1) as nat);
        lemma_trace_inv(t, id, start, k);
        lemma_owned_bounds(t, trace_state(t, id, start, k).0, id);
    }
}

/// The two quads joining step `i - 1` to step `i` of a ribbon whose
/// vertices start at `base`.
pub open spec fn link_indices(base: int, i: int) -> Seq<int> {
    let k = base + 4 * i;
    seq![k - 2, k - 1, k, k, k - 1, k + 1, k, k + 1, k + 2, k + 2, k + 1, k + 3]
}

pub open spec fn ribbon_links(base: int, n: nat) -> Seq<int>
    decreases n,
{
    if n <= 1 {
        Seq::empty()
    } else {
        ribbon_links(base, (n - 1) as nat) + link_indices(base, n - 1)
    }
}

/// Triangles of a closed ribbon of `n` steps: the links, then the seam from
/// the last step back to the first.
pub open spec fn ribbon_indices(base: int, n: nat) -> Seq<int> {
    let e = base + 4 * n;
    ribbon_links(base, n) + seq![base, base + 1, e - 2, e - 2, base + 1, e - 1]
}

/// Every state of a walk stands on a hex of the country and faces a unit
/// direction.
proof fn lemma_trace_inv(t: TerritoriesView, id: CountryId, start: (int, int), k: nat)
    requires
        owned(t, start, id),
    ensures
        owned(t, trace_state(t, id, start, k).0, id),
        is_unit(trace_state(t, id, start, k).1),
    decreases k,
{
    if k > 0 {
        lemma_trace_inv(t, id, start, (k - 1) as nat);
        lemma_rotation_group(trace_state(t, id, start, (k - 1) as nat).1);
    }
}

/// A hex of a grid at most `u16::MAX` wide and high has small coordinates.
proof fn lemma_owned_bounds(t: TerritoriesView, h: (int, int), id: CountryId)
    requires
        owned(t, h, id),
        t.width <= u16::MAX,
        t.height() <= u16::MAX,
    ensures
        -0x10000 < h.0 < 0x10000,
        0 <= h.1 < 0x10000,
        0 <= cell_index(t, h) < t.hexes.len(),
        t.valid() ==> cell_index(t, h) < t.width * t.height(),
{
    let o = hex_offset(h);
    assert(0 <= half_up(h.1) <= 0x8000);
    let w = t.width as int;
    let hh = t.height() as int;
    assert(0 <= o.1 * w + o.0 < w * hh) by (nonlinear_arith)
        requires
            0 <= o.0 < w,
            0 <= o.1 < hh,
    ;
    assert(w * hh <= t.hexes.len()) by (nonlinear_arith)
        requires
            w > 0,
            hh == t.hexes.len() as int / w,
    ;
}

proof fn lemma_first_close_found(t: TerritoriesView, id: CountryId, start: (int, int), n: nat, k: nat)
    requires
        1 <= k <= n <= trace_bound(t),
        closes(t, id, start, n),
        forall|j: nat| 1 <= j < n ==> !closes(t, id, start, j),
    ensures
        first_close(t, id, start, k) == Some(n),
    decreases n - k,
{
    if k < n {
        lemma_first_close_found(t, id, start, n, k + 1);
    }
}

proof fn lemma_first_close_some(t: TerritoriesView, id: CountryId, start: (int, int), k: nat)
    ensures
        first_close(t, id, start, k) matches Some(n) ==> k <= n <= trace_bound(t) && closes(
            t,
            id,
            start,
            n,
        ),
    decreases trace_bound(t) + 1 - k,
{
    if k <= trace_bound(t) && !closes(t, id, start, k) {
        lemma_first_close_some(t, id, start, k + 1);
    }
}

proof fn lemma_first_close_none(t: TerritoriesView, id: CountryId, start: (int, int), k: nat)
    requires
        1 <= k,
        forall|j: nat| 1 <= j <= trace_bound(t) ==> !closes(t, id, start, j),
    ensures
        first_close(t, id, start, k) is None,
    decreases trace_bound(t) + 1 - k,
{
    if k <= trace_bound(t) {
        lemma_first_close_none(t, id, start, k + 1);
    }
}

/// The ribbon of a trace is connected: each step starts at the corner where
/// the one before it turned, and ends at the corner where the next one turns.
pub proof fn lemma_ribbon_continuous(
    t: TerritoriesView,
    m: HeightMapView,
    id: CountryId,
    start: (int, int),
    i: nat,
)
    requires
        owned(t, start, id),
    ensures
        step_model(t, m, id, start, i).end == step_model(t, m, id, start, i + 1).middle,
        step_model(t, m, id, start, i + 1).start == step_model(t, m, id, start, i).middle,
{
    lemma_trace_inv(t, id, start, i);
    assert(trace_state(t, id, start, i + 1) == trace_step(t, id, trace_state(t, id, start, i)));
}

/// A closed trace of `n` steps ends where it began: its last step ends at the
/// corner where its first one turns.
pub proof fn lemma_trace_closes(
    t: TerritoriesView,
    m: HeightMapView,
    id: CountryId,
    start: (int, int),
)
    requires
        trace_len(t, id, start) is Some,
    ensures
        trace_len(t, id, start)->Some_0 >= 1,
        step_model(t, m, id, start, (trace_len(t, id, start)->Some_0 - 1) as nat).end
            == step_model(t, m, id, start, 0).middle,
{
    lemma_first_close_some(t, id, start, 1);
    let n = trace_len(t, id, start)->Some_0;
    assert(((n - 1) as nat) + 1 == n);
}

/// A hex with no neighbour of its own country is traced in six steps, one
/// per edge.
pub proof fn lemma_isolated_hex(t: TerritoriesView, id: CountryId, start: (int, int))
    requires
        owned(t, start, id),
        forall|d: (int, int)|
            is_unit(d) ==> !owned(t, (start.0 + d.0, start.1 + d.1), id),
    ensures
        trace_len(t, id, start) == Some(6nat),
{
    assert(trace_state(t, id, start, 0) == (start, top_left_dir()));
    let d0: (int, int) = (0int, -1int);
    assert(is_unit(d0));
    assert(!owned(t, (start.0 + d0.0, start.1 + d0.1), id));
    assert(trace_state(t, id, start, 1) == trace_step(t, id, trace_state(t, id, start, 0)));
    assert(trace_state(t, id, start, 1) == (start, (1int, -1int)));
    let d1: (int, int) = (1int, -1int);
    assert(is_unit(d1));
    assert(!owned(t, (start.0 + d1.0, start.1 + d1.1), id));
    assert(trace_state(t, id, start, 2) == trace_step(t, id, trace_state(t, id, start, 1)));
    assert(trace_state(t, id, start, 2) == (start, (1int, 0int)));
    let d2: (int, int) = (1int, 0int);
    assert(is_unit(d2));
    assert(!owned(t, (start.0 + d2.0, start.1 + d2.1), id));
    assert(trace_state(t, id, start, 3) == trace_step(t, id, trace_state(t, id, start, 2)));
    assert(trace_state(t, id, start, 3) == (start, (0int, 1int)));
    let d3: (int, int) = (0int, 1int);
    assert(is_unit(d3));
    assert(!owned(t, (start.0 + d3.0, start.1 + d3.1), id));
    assert(trace_state(t, id, start, 4) == trace_step(t, id, trace_state(t, id, start, 3)));
    assert(trace_state(t, id, start, 4) == (start, (-1int, 1int)));
    let d4: (int, int) = (-1int, 1int);
    assert(is_unit(d4));
    assert(!owned(t, (start.0 + d4.0, start.1 + d4.1), id));
    assert(trace_state(t, id, start, 5) == trace_step(t, id, trace_state(t, id, start, 4)));
    assert(trace_state(t, id, start, 5) == (start, (-1int, 0int)));
    let d5: (int, int) = (-1int, 0int);
    assert(is_unit(d5));
    assert(!owned(t, (start.0 + d5.0, start.1 + d5.1), id));
    assert(trace_state(t, id, start, 6) == trace_step(t, id, trace_state(t, id, start, 5)));
    assert(trace_state(t, id, start, 6) == (start, (0int, -1int)));
    assert(6 <= trace_bound(t)) by (nonlinear_arith)
        requires
            t.width >= 1,
            t.height() >= 1,
    ;
    assert forall|j: nat| 1 <= j < 6 implies !closes(t, id, start, j) by {
        assert(j == 1 || j == 2 || j == 3 || j == 4 || j == 5);
    }
    lemma_first_close_found(t, id, start, 6, 1);
}

fn push_indices(v: &mut Vec<u32>, items: [u32; 6])
    ensures
        u32s(final(v)@) == u32s(old(v)@) + u32s(items@),
{
    let mut i: usize = 0;
    while i < 6
        invariant
            i <= 6,
            u32s(v@) == u32s(old(v)@) + u32s(items@.subrange(0, i as int)),
        decreases 6 - i,
    {
        let ghost before = v@;
        v.push(items[i]);
        proof {
            assert(u32s(items@.subrange(0, i + 1)) =~= u32s(items@.subrange(0, i as int)).push(
                items@[i as int] as int,
            ));
            assert(u32s(v@) =~= u32s(before).push(items@[i as int] as int));
        }
        i += 1;
    }
    assert(items@.subrange(0, 6) == items@);
}

impl BorderMesh {
    /// Walks the border of the region of `country_id` that holds `start_hex`
    /// and appends its steps and ribbon triangles, the ribbon's vertices
    /// numbered from `*index` on. The walk starts facing the top left and
    /// follows the wall until it stands on `start_hex` facing the top left
    /// again; each hex it faces the top left on is marked in `visited`.
    #[verifier::rlimit(40)]
    fn trace_country(
        &mut self,
        territories: &Territories,
        height_map: &HeightMap,
        start_hex: HexCoord,
        index: &mut u32,
        country_id: CountryId,
        visited: &mut Vec<bool>,
    ) -> (r: Result<(), MapError>)
        requires
            territories@.valid(),
            height_map@.valid(),
            territories@.width == height_map@.width,
            territories@.height() == height_map@.height,
            height_map@.channels > 0,
            owned(territories@, start_hex@, country_id),
            old(visited)@.len() == territories@.hexes.len(),
            *old(index) == 4 * old(self).steps@.len(),
        ensures
            match trace_outcome(territories@, country_id, start_hex@, *old(index) as int) {
                Ok(n) => {
                    &&& r is Ok
                    &&& *final(index) == *old(index) + 4 * n
                    &&& steps_model(final(self).steps@) == steps_model(old(self).steps@)
                        + trace_steps(territories@, height_map@, country_id, start_hex@, n)
                    &&& u32s(final(self).indices@) == u32s(old(self).indices@) + ribbon_indices(
                        *old(index) as int,
                        n,
                    )
                    &&& final(visited)@ == visited_after(
                        territories@,
                        country_id,
                        start_hex@,
                        old(visited)@,
                        n,
                    )
                },
                Err(e) => r == Err::<(), MapError>(e),
            },
    {
        let ghost t = territories@;
        let ghost m = height_map@;
        let ghost start = start_hex@;
        let ghost id = country_id;
        let ghost steps0 = steps_model(self.steps@);
        let ghost indices0 = u32s(self.indices@);
        let ghost visited0 = visited@;
        let w = territories.width();
        let h = territories.height();
        proof {
            lemma_owned_bounds(t, start, id);
        }
        assert(0 < (w as u64) * (h as u64) <= 0xffff * 0xffff) by (nonlinear_arith)
            requires
                0 < w <= 0xffff,
                0 < h <= 0xffff,
        ;
        let bound: u64 = 6 * ((w as u64) * (h as u64));
        proof {
            assert(bound == trace_bound(t)) by (nonlinear_arith)
                requires
                    bound == 6 * ((w as int) * (h as int)),
                    w == t.width,
                    h == t.height(),
            ;
        }
        let topo = Channel::topo();
        let mut direction = HexCoord::top_left();
        let mut current_hex = start_hex;
        let start_offset = current_hex.to_offset();
        let mut current_height = height_map.sample_at(
            topo,
            (start_offset.0 as u32, start_offset.1 as u32),
        ).unwrap();
        let mut started = false;
        let start_index = *index;
        let mut i: u64 = 0;
        while !(direction == HexCoord::top_left() && current_hex == start_hex) || !started
            invariant
                t == territories@,
                m == height_map@,
                t.valid(),
                m.valid(),
                t.width == m.width,
                t.height() == m.height,
                m.channels > 0,
                owned(t, start, id),
                start == start_hex@,
                id == country_id,
                bound == trace_bound(t),
                bound > 0,
                topo.0 == 0,
                w == t.width,
                h == t.height(),
                i <= bound,
                started == (i > 0),
                (current_hex@, direction@) == trace_state(t, id, start, i as nat),
                current_height == elevation_at(m, current_hex@),
                forall|j: nat| 1 <= j < i ==> !closes(t, id, start, j),
                start_index + 4 * bound <= u32::MAX || start_index + 4 * i <= u32::MAX,
                *index == start_index + 4 * i,
                start_index == 4 * steps0.len(),
                start_index == *old(index),
                steps0 == steps_model(old(self).steps@),
                indices0 == u32s(old(self).indices@),
                visited0 == old(visited)@,
                steps_model(self.steps@) == steps0 + trace_steps(t, m, id, start, i as nat),
                u32s(self.indices@) == indices0 + ribbon_links(start_index as int, i as nat),
                visited@ == visited_after(t, id, start, visited0, i as nat),
                visited0.len() == t.hexes.len(),
            decreases bound - i,
        {
            proof {
                lemma_trace_inv(t, id, start, i as nat);
                lemma_owned_bounds(t, current_hex@, id);
                lemma_rotation_group(direction@);
                if i > 0 {
                    assert(!closes(t, id, start, i as nat)) by {
                        if closes(t, id, start, i as nat) {
                            assert(direction == HexCoord { q: 0i32, r: -1i32 });
                            assert(current_hex == start_hex);
                        }
                    }
                }
                assert forall|j: nat| 1 <= j <= i implies !closes(t, id, start, j) by {
                    if j < i {
                        assert(!closes(t, id, start, j));
                    }
                }
            }
            if i == bound {
                proof {
                    lemma_first_close_none(t, id, start, 1);
                }
                return Err(MapError::Unclosed);
            }
            if *index > u32::MAX - 4 {
                proof {
                    lemma_first_close_some(t, id, start, 1);
                }
                return Err(MapError::TooLarge);
            }
            let start_corner = current_hex.corner(direction.rotate_anticlockwise());
            let middle_corner = current_hex.corner(direction);
            let middle_height = current_height;

            let proposed = current_hex.add(direction);
            let proposed_offset = proposed.to_offset();
            let inside = height_map.in_bounds(proposed_offset);
            if inside && territories.country_id(
                (proposed_offset.0 as u32, proposed_offset.1 as u32),
            ).unwrap() == country_id {
                current_hex = proposed;
                current_height = height_map.sample_at(
                    topo,
                    (proposed_offset.0 as u32, proposed_offset.1 as u32),
                ).unwrap();
                direction = direction.rotate_anticlockwise();
            } else {
                direction = direction.rotate_clockwise();
            }
            proof {
                assert((current_hex@, direction@) == trace_state(t, id, start, (i + 1) as nat));
                lemma_trace_inv(t, id, start, (i + 1) as nat);
            }
            let end_corner = current_hex.corner(direction);
            let ghost steps_before = self.steps@;
            self.steps.push(
                BorderStep {
                    country: country_id,
                    start_corner,
                    middle_corner,
                    end_corner,
                    middle_elevation: middle_height,
                    current_elevation: current_height,
                },
            );
            proof {
                let sm = step_model(t, m, id, start, i as nat);
                assert(self.steps@.last().model() == sm);
                assert(steps_model(self.steps@) =~= steps_model(steps_before).push(sm));
                assert(trace_steps(t, m, id, start, (i + 1) as nat) =~= trace_steps(
                    t,
                    m,
                    id,
                    start,
                    i as nat,
                ).push(sm));
                assert(steps_model(self.steps@) =~= steps0 + trace_steps(
                    t,
                    m,
                    id,
                    start,
                    (i + 1) as nat,
                ));
            }
            if started {
                let k = *index;
                push_indices(&mut self.indices, [k - 2, k - 1, k, k, k - 1, k + 1]);
                push_indices(&mut self.indices, [k, k + 1, k + 2, k + 2, k + 1, k + 3]);
                proof {
                    assert(u32s(self.indices@) =~= indices0 + ribbon_links(
                        start_index as int,
                        (i + 1) as nat,
                    ));
                }
            } else {
                proof {
                    assert(ribbon_links(start_index as int, 1) =~= Seq::empty());
                }
            }
            *index = *index + 4;
            if direction == HexCoord::top_left() {
                let o = current_hex.to_offset();
                proof {
                    lemma_trace_inv(t, id, start, (i + 1) as nat);
                    lemma_owned_bounds(t, current_hex@, id);
                    lemma_visited_len(t, id, start, visited0, i as nat);
                }
                let at = (o.1 as usize) * (w as usize) + o.0 as usize;
                visited.set(at, true);
            }
            started = true;
            i = i + 1;
        }
        proof {
            lemma_first_close_found(t, id, start, i as nat, 1);
        }
        let e = *index;
        push_indices(&mut self.indices, [start_index, start_index + 1, e - 2, e - 2, start_index + 1, e - 1]);
        Ok(())
    }
}


/// The state of the scan over the cells: visited marks, steps and triangles
/// so far.
pub struct ScanModel {
    pub visited: Seq<bool>,
    pub steps: Seq<StepModel>,
    pub indices: Seq<int>,
}

/// The scan at cell `(x, y)`: a cell starts a trace unless it repeats the
/// country of the cell to its left, is sea, or is already visited.
pub open spec fn scan_cell(
    t: TerritoriesView,
    m: HeightMapView,
    st: ScanModel,
    x: int,
    y: int,
) -> Result<ScanModel, MapError> {
    let id = t.at(x, y);
    if (x > 0 && t.at(x - 1, y) == id) || id.0 == sea_id() || st.visited[y * t.width + x] {
        Ok(st)
    } else {
        let start = axial_of_offset(x, y);
        let base = 4 * st.steps.len() as int;
        match trace_outcome(t, id, start, base) {
            Err(e) => Err(e),
            Ok(n) => Ok(
                ScanModel {
                    visited: visited_after(t, id, start, st.visited, n),
                    steps: st.steps + trace_steps(t, m, id, start, n),
                    indices: st.indices + ribbon_indices(base, n),
                },
            ),
        }
    }
}

/// The scan after the first `n` cells in row-major order.
pub open spec fn scan(t: TerritoriesView, m: HeightMapView, n: nat) -> Result<ScanModel, MapError>
    decreases n,
{
    if n == 0 || t.width == 0 {
        Ok(
            ScanModel {
                visited: Seq::new(t.hexes.len(), |_i: int| false),
                steps: Seq::empty(),
                indices: Seq::empty(),
            },
        )
    } else {
        match scan(t, m, (n - 1) as nat) {
            Err(e) => Err(e),
            Ok(st) => scan_cell(t, m, st, (n - 1) % t.width as int, (n - 1) / t.width as int),
        }
    }
}

/// What `BorderMesh::map_gen` gives.
pub open spec fn border_result(t: TerritoriesView, m: HeightMapView) -> Result<ScanModel, MapError> {
    if t.width != m.width || t.height() != m.height {
        Err(MapError::ShapeMismatch)
    } else if m.channels == 0 {
        Err(MapError::OutOfBounds)
    } else {
        scan(t, m, t.hexes.len())
    }
}

proof fn lemma_scan_err(t: TerritoriesView, m: HeightMapView, k: nat, n: nat)
    requires
        k <= n,
        scan(t, m, k) is Err,
    ensures
        scan(t, m, n) == scan(t, m, k),
    decreases n - k,
{
    if k < n {
        lemma_scan_err(t, m, k, (n - 1) as nat);
    }
}

impl BorderMesh {
    /// Border walls of every country region. Scans the cells row by row; a
    /// cell that is not sea, not of the same country as the cell to its left,
    /// and not yet visited starts a trace of its country's border.
    ///
    /// Fails where the grid and the height map differ in size, where the
    /// height map has no elevation plane, and where a trace fails.
    #[verifier::rlimit(40)]
    pub fn map_gen(territories: &Territories, height_map: &HeightMap) -> (r: Result<
        BorderMesh,
        MapError,
    >)
        ensures
            match r {
                Ok(mesh) => border_result(territories@, height_map@) == Ok::<
                    ScanModel,
                    MapError,
                >(
                    ScanModel {
                        visited: mesh.visited@,
                        steps: steps_model(mesh.steps@),
                        indices: u32s(mesh.indices@),
                    },
                ),
                Err(e) => border_result(territories@, height_map@) == Err::<ScanModel, MapError>(e),
            },
    {
        let ghost t = territories@;
        let ghost m = height_map@;
        let w = territories.width();
        let h = territories.height();
        if w != height_map.width() || h != height_map.height() {
            return Err(MapError::ShapeMismatch);
        }
        if height_map.channels() == 0 {
            return Err(MapError::OutOfBounds);
        }
        let cells = territories.hexes().len();
        proof {
            if w > 0 {
                assert(cells == h * w) by (nonlinear_arith)
                    requires
                        w > 0,
                        cells as int % (w as int) == 0,
                        h == cells as int / (w as int),
                ;
            }
        }
        let mut visited: Vec<bool> = Vec::new();
        let mut k: usize = 0;
        while k < cells
            invariant
                k <= cells,
                visited@ == Seq::new(k as nat, |_i: int| false),
            decreases cells - k,
        {
            visited.push(false);
            proof {
                assert(visited@ =~= Seq::new((k + 1) as nat, |_i: int| false));
            }
            k += 1;
        }
        let mut mesh = BorderMesh { steps: Vec::new(), indices: Vec::new(), visited: Vec::new() };
        let mut index: u32 = 0;
        proof {
            assert(steps_model(mesh.steps@) =~= Seq::empty());
            assert(u32s(mesh.indices@) =~= Seq::empty());
        }
        let mut y: u32 = 0;
        while y < h
            invariant
                t == territories@,
                m == height_map@,
                t.valid(),
                m.valid(),
                w == t.width,
                h == t.height(),
                t.width == m.width,
                t.height() == m.height,
                m.channels > 0,
                cells == t.hexes.len(),
                w > 0 ==> cells == h * w,
                y <= h,
                index == 4 * mesh.steps@.len(),
                visited@.len() == cells,
                scan(t, m, (y * w) as nat) == Ok::<ScanModel, MapError>(
                    ScanModel {
                        visited: visited@,
                        steps: steps_model(mesh.steps@),
                        indices: u32s(mesh.indices@),
                    },
                ),
            decreases h - y,
        {
            let mut prev = CountryId(0);
            let mut x: u32 = 0;
            while x < w
                invariant
                    t == territories@,
                    m == height_map@,
                    t.valid(),
                    m.valid(),
                    w == t.width,
                    h == t.height(),
                    t.width == m.width,
                    t.height() == m.height,
                    m.channels > 0,
                    cells == t.hexes.len(),
                    cells == h * w,
                    y < h,
                    x <= w,
                    x > 0 ==> prev == t.at(x - 1, y as int),
                    index == 4 * mesh.steps@.len(),
                    visited@.len() == cells,
                    scan(t, m, (y * w + x) as nat) == Ok::<ScanModel, MapError>(
                        ScanModel {
                            visited: visited@,
                            steps: steps_model(mesh.steps@),
                            indices: u32s(mesh.indices@),
                        },
                    ),
                decreases w - x,
            {
                let ghost n = y * w + x;
                proof {
                    lemma_fundamental_div_mod_converse(n, w as int, y as int, x as int);
                    assert(n < cells) by (nonlinear_arith)
                        requires
                            n == y * w + x,
                            x < w,
                            y < h,
                            cells == h * w,
                    ;
                    assert((n + 1) - 1 == n);
                }
                let country_id = territories.country_id((x, y)).unwrap();
                let repeats = x > 0 && prev == country_id;
                prev = country_id;
                let at = (y as usize) * (w as usize) + x as usize;
                if !repeats && country_id.0 != 254 && !visited[at] {
                    let start_hex = HexCoord::from_offset(x as i32, y as i32);
                    proof {
                        lemma_fundamental_div_mod_converse(
                            cell_index(t, start_hex@),
                            w as int,
                            y as int,
                            x as int,
                        );
                    }
                    let ghost v0 = visited@;
                    let ghost base = index as int;
                    assert(steps_model(mesh.steps@).len() == mesh.steps@.len());
                    match mesh.trace_country(
                        territories,
                        height_map,
                        start_hex,
                        &mut index,
                        country_id,
                        &mut visited,
                    ) {
                        Ok(()) => {},
                        Err(e) => {
                            proof {
                                lemma_scan_err(t, m, (n + 1) as nat, cells as nat);
                            }
                            return Err(e);
                        },
                    }
                    proof {
                        if let Ok(k) = trace_outcome(t, country_id, start_hex@, base) {
                            lemma_visited_len(t, country_id, start_hex@, v0, k);
                            assert(steps_model(mesh.steps@).len() == mesh.steps@.len());
                            assert(trace_steps(t, m, country_id, start_hex@, k).len() == k);
                        }
                    }
                }
                x += 1;
            }
            proof {
                assert(y * w + w == (y + 1) * w) by (nonlinear_arith);
            }
            y += 1;
        }
        proof {
            if w > 0 {
                assert(h * w == cells);
            }
        }
        mesh.visited = visited;
        Ok(mesh)
    }
}

} // verus!

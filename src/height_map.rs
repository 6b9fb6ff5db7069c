use crate::error::MapError;
use crate::hex::{axial_of_offset, centre_of, HexCoord, LatticePoint};
use vstd::arithmetic::div_mod::lemma_fundamental_div_mod_converse;
use vstd::prelude::*;

verus! {

/// A raster plane of a height map.
#[derive(PartialEq, Eq, Structural, Clone, Copy, Debug)]
pub struct Channel(pub u32);

impl Channel {
    /// Elevation: values above 240 mark water.
    pub fn topo() -> (c: Channel)
        ensures
            c.0 == 0,
    {
        Channel(0)
    }

    /// Vegetation.
    pub fn veg() -> (c: Channel)
        ensures
            c.0 == 1,
    {
        Channel(1)
    }
}

/// What a `HeightMap` holds: the whole buffer, its dimensions, and where the
/// planes start in it.
pub struct HeightMapView {
    pub map: Seq<u8>,
    pub width: nat,
    pub height: nat,
    pub channels: nat,
    pub data_start: nat,
}

/// Little-endian `u16` at byte `i`.
pub open spec fn le_u16(b: Seq<u8>, i: int) -> nat {
    (b[i] + 256 * b[i + 1]) as nat
}

/// Size of the header: width, height and channel count, each a `u16`.
pub open spec fn header_len() -> nat {
    6
}

/// What `HeightMap::load` makes of a buffer.
pub open spec fn decode_result(b: Seq<u8>) -> Result<HeightMapView, MapError> {
    if b.len() < header_len() {
        Err(MapError::Decode)
    } else {
        let w = le_u16(b, 0);
        let h = le_u16(b, 2);
        let c = le_u16(b, 4);
        if header_len() + w * h * c > b.len() {
            Err(MapError::Decode)
        } else {
            Ok(HeightMapView { map: b, width: w, height: h, channels: c, data_start: header_len() })
        }
    }
}

/// The cell left of `(x, y)`.
pub open spec fn left_pos(x: int, y: int) -> Option<(int, int)> {
    if x > 0 {
        Some((x - 1, y))
    } else {
        None
    }
}

/// The cell up and to the left of `(x, y)`, rows staggered by parity.
pub open spec fn up_left_pos(x: int, y: int) -> Option<(int, int)> {
    if y > 0 && x >= y % 2 {
        Some((x - y % 2, y - 1))
    } else {
        None
    }
}

/// The cell up and to the right of `(x, y)` in a grid `width` wide.
pub open spec fn up_right_pos(width: int, x: int, y: int) -> Option<(int, int)> {
    if y > 0 && x < width - 1 + y % 2 {
        Some((x + 1 - y % 2, y - 1))
    } else {
        None
    }
}

pub open spec fn near_view(r: Option<(u8, (u32, u32))>) -> Option<(u8, (int, int))> {
    match r {
        Some(p) => Some((p.0, (p.1.0 as int, p.1.1 as int))),
        None => None,
    }
}

impl HeightMapView {
    pub open spec fn valid(self) -> bool {
        &&& self.width <= u16::MAX
        &&& self.height <= u16::MAX
        &&& self.channels <= u16::MAX
        &&& self.data_start + self.width * self.height * self.channels <= self.map.len()
    }

    pub open spec fn in_grid(self, x: int, y: int) -> bool {
        0 <= x < self.width && 0 <= y < self.height
    }

    /// Byte of `channel` at column `x`, row `y`: planes follow each other, and
    /// inside a plane the cells go column by column.
    pub open spec fn sample(self, channel: int, x: int, y: int) -> u8 {
        self.map[self.data_start + (x * self.height + y) + channel * self.width * self.height]
    }

    pub open spec fn sample_opt(self, channel: int, x: int, y: int) -> Option<u8> {
        if self.in_grid(x, y) && 0 <= channel < self.channels {
            Some(self.sample(channel, x, y))
        } else {
            None
        }
    }

    /// The sample at the neighbour `p`, with its position.
    pub open spec fn sample_near(self, channel: int, p: Option<(int, int)>) -> Option<
        (u8, (int, int)),
    > {
        match p {
            Some(q) => match self.sample_opt(channel, q.0, q.1) {
                Some(v) => Some((v, q)),
                None => None,
            },
            None => None,
        }
    }
}

/// A decoded height/vegetation raster.
#[derive(Debug)]
pub struct HeightMap {
    map: Vec<u8>,
    width: u32,
    height: u32,
    channels: u32,
    data_start: usize,
}

impl View for HeightMap {
    type V = HeightMapView;

    closed spec fn view(&self) -> HeightMapView {
        HeightMapView {
            map: self.map@,
            width: self.width as nat,
            height: self.height as nat,
            channels: self.channels as nat,
            data_start: self.data_start as nat,
        }
    }
}

impl Default for HeightMap {
    /// An empty map, before anything is loaded.
    fn default() -> (m: HeightMap)
        ensures
            m@ == (HeightMapView {
                map: Seq::empty(),
                width: 0,
                height: 0,
                channels: 0,
                data_start: 0,
            }),
    {
        HeightMap { map: Vec::new(), width: 0, height: 0, channels: 0, data_start: 0 }
    }
}

proof fn lemma_flat_index(x: int, y: int, c: int, w: int, h: int, n: int)
    requires
        0 <= x < w,
        0 <= y < h,
        0 <= c < n,
    ensures
        0 <= (x * h + y) + c * w * h < w * h * n,
{
    assert(0 <= x * h + y < w * h) by (nonlinear_arith)
        requires
            0 <= x < w,
            0 <= y < h,
    ;
    assert(0 <= c * w * h && c * w * h + w * h <= w * h * n) by (nonlinear_arith)
        requires
            0 <= c < n,
            0 <= w * h,
    ;
}

impl HeightMap {
    #[verifier::type_invariant]
    spec fn inv(&self) -> bool {
        self@.valid()
    }

    /// Reads the header (`u16` width, height and channel count, little endian)
    /// and keeps the buffer; the planes start right after the header. Fails,
    /// leaving the map as it was, where the buffer is shorter than the header
    /// or than the planes it declares.
    pub fn load(&mut self, map: Vec<u8>) -> (r: Result<(), MapError>)
        ensures
            match r {
                Ok(()) => decode_result(map@) == Ok::<HeightMapView, MapError>(final(self)@),
                Err(e) => {
                    &&& decode_result(map@) == Err::<HeightMapView, MapError>(e)
                    &&& final(self)@ == old(self)@
                },
            },
    {
        if map.len() < 6 {
            return Err(MapError::Decode);
        }
        let width = map[0] as u32 + 256 * (map[1] as u32);
        let height = map[2] as u32 + 256 * (map[3] as u32);
        let channels = map[4] as u32 + 256 * (map[5] as u32);
        let w = width as u64;
        let h = height as u64;
        let c = channels as u64;
        assert(w * h <= 0xffff * 0xffff) by (nonlinear_arith)
            requires
                w <= 0xffff,
                h <= 0xffff,
        ;
        assert(w * h * c <= 0xffff * 0xffff * 0xffff) by (nonlinear_arith)
            requires
                w * h <= 0xffff * 0xffff,
                c <= 0xffff,
        ;
        let planes = w * h * c;
        if (map.len() as u64) < 6 || planes > map.len() as u64 - 6 {
            return Err(MapError::Decode);
        }
        *self = HeightMap { map, width, height, channels, data_start: 6 };
        Ok(())
    }

    pub fn width(&self) -> (w: u32)
        ensures
            w == self@.width,
            self@.valid(),
    {
        proof {
            use_type_invariant(self);
        }
        self.width
    }

    pub fn height(&self) -> (h: u32)
        ensures
            h == self@.height,
            self@.valid(),
    {
        proof {
            use_type_invariant(self);
        }
        self.height
    }

    pub fn channels(&self) -> (c: u32)
        ensures
            c == self@.channels,
            self@.valid(),
    {
        proof {
            use_type_invariant(self);
        }
        self.channels
    }

    /// The byte of `channel` at column `pos.0`, row `pos.1`; `None` where the
    /// position is outside the grid or the channel outside the raster.
    pub fn sample_at(&self, channel: Channel, pos: (u32, u32)) -> (s: Option<u8>)
        ensures
            s == self@.sample_opt(channel.0 as int, pos.0 as int, pos.1 as int),
    {
        proof {
            use_type_invariant(self);
        }
        let (x, y) = pos;
        if x >= self.width || y >= self.height || channel.0 >= self.channels {
            return None;
        }
        proof {
            lemma_flat_index(
                x as int,
                y as int,
                channel.0 as int,
                self.width as int,
                self.height as int,
                self.channels as int,
            );
            let (wi, hi) = (self.width as int, self.height as int);
            assert(wi * hi <= 0xffff * 0xffff) by (nonlinear_arith)
                requires
                    0 <= wi <= 0xffff,
                    0 <= hi <= 0xffff,
            ;
        }
        let len = self.map.len();
        let plane = (self.width as u64) * (self.height as u64);
        let cell = (x as u64) * (self.height as u64) + y as u64;
        proof {
            let (ci, wi, hi) = (channel.0 as int, self.width as int, self.height as int);
            assert(ci * (wi * hi) == ci * wi * hi) by (nonlinear_arith);
            assert(wi * hi * (self.channels as int) == (self.channels as int) * (wi * hi))
                by (nonlinear_arith);
            assert(cell + ci * plane < self.channels * plane);
        }
        let i = self.data_start as u64 + cell + (channel.0 as u64) * plane;
        Some(self.map[i as usize])
    }

    /// The sample to the left of `pos`, with that cell's position.
    pub fn sample_left(&self, channel: Channel, pos: (u32, u32)) -> (s: Option<(u8, (u32, u32))>)
        ensures
            near_view(s) == self@.sample_near(channel.0 as int, left_pos(pos.0 as int, pos.1 as int)),
    {
        if pos.0 > 0 {
            let p = (pos.0 - 1, pos.1);
            match self.sample_at(channel, p) {
                Some(v) => Some((v, p)),
                None => None,
            }
        } else {
            None
        }
    }

    /// The sample up and to the left of `pos`, with that cell's position.
    pub fn sample_up_left(&self, channel: Channel, pos: (u32, u32)) -> (s: Option<
        (u8, (u32, u32)),
    >)
        ensures
            near_view(s) == self@.sample_near(
                channel.0 as int,
                up_left_pos(pos.0 as int, pos.1 as int),
            ),
    {
        let (x, y) = pos;
        if y > 0 && x >= y % 2 {
            let p = (x - y % 2, y - 1);
            match self.sample_at(channel, p) {
                Some(v) => Some((v, p)),
                None => None,
            }
        } else {
            None
        }
    }

    /// The sample up and to the right of `pos`, with that cell's position.
    pub fn sample_up_right(&self, channel: Channel, pos: (u32, u32)) -> (s: Option<
        (u8, (u32, u32)),
    >)
        ensures
            near_view(s) == self@.sample_near(
                channel.0 as int,
                up_right_pos(self@.width as int, pos.0 as int, pos.1 as int),
            ),
    {
        let (x, y) = pos;
        if y > 0 && (x as u64) + 1 < self.width as u64 + (y % 2) as u64 {
            let p = (x + 1 - y % 2, y - 1);
            match self.sample_at(channel, p) {
                Some(v) => Some((v, p)),
                None => None,
            }
        } else {
            None
        }
    }

    /// Whether column `pos.0`, row `pos.1` lies inside the grid.
    pub fn in_bounds(&self, pos: (i32, i32)) -> (b: bool)
        ensures
            b == self@.in_grid(pos.0 as int, pos.1 as int),
    {
        pos.0 >= 0 && (pos.0 as i64) < self.width as i64 && pos.1 >= 0 && (pos.1 as i64)
            < self.height as i64
    }
}

/// The names of an extended map file: from byte `p` on, `count` names, each a
/// length byte followed by that many bytes. Gives the `(start, end)` range of
/// each name and where the last one ends, or `None` where a name runs past
/// the buffer.
pub open spec fn name_ranges(b: Seq<u8>, p: int, count: nat) -> Option<(Seq<(int, int)>, int)>
    decreases count,
{
    if count == 0 {
        Some((Seq::empty(), p))
    } else if p < 0 || p >= b.len() || p + 1 + b[p] > b.len() {
        None
    } else {
        match name_ranges(b, p + 1 + b[p], (count - 1) as nat) {
            Some(rest) => Some((seq![(p + 1, p + 1 + b[p])] + rest.0, rest.1)),
            None => None,
        }
    }
}

pub open spec fn ranges_view(v: Seq<(usize, usize)>) -> Seq<(int, int)> {
    v.map_values(|r: (usize, usize)| (r.0 as int, r.1 as int))
}

/// What `HeightMap::load_named` makes of a buffer in the extended format:
/// the header, a name count byte, the names, then the planes.
pub open spec fn decode_named_result(b: Seq<u8>) -> Result<
    (HeightMapView, Seq<(int, int)>),
    MapError,
> {
    if b.len() < header_len() + 1 {
        Err(MapError::Decode)
    } else {
        match name_ranges(b, header_len() + 1int, b[header_len() as int] as nat) {
            None => Err(MapError::Decode),
            Some(names) => {
                let w = le_u16(b, 0);
                let h = le_u16(b, 2);
                let c = le_u16(b, 4);
                if names.1 + w * h * c > b.len() {
                    Err(MapError::Decode)
                } else {
                    Ok(
                        (
                            HeightMapView {
                                map: b,
                                width: w,
                                height: h,
                                channels: c,
                                data_start: names.1 as nat,
                            },
                            names.0,
                        ),
                    )
                }
            },
        }
    }
}

proof fn lemma_name_ranges_end(b: Seq<u8>, p: int, count: nat)
    requires
        0 <= p <= b.len(),
    ensures
        name_ranges(b, p, count) matches Some(r) ==> p <= r.1 <= b.len(),
    decreases count,
{
    if count > 0 && p < b.len() && p + 1 + b[p] <= b.len() {
        lemma_name_ranges_end(b, p + 1 + b[p], (count - 1) as nat);
    }
}

impl HeightMap {
    /// Reads a buffer in the extended format: after the header a byte with
    /// the number of names, then each name as a length byte and its bytes,
    /// then the planes. Returns where each name lies in the buffer, which the
    /// map keeps. Fails, leaving the map as it was, where the buffer ends
    /// inside the header, a name, or the planes.
    pub fn load_named(&mut self, map: Vec<u8>) -> (r: Result<Vec<(usize, usize)>, MapError>)
        ensures
            match r {
                Ok(names) => decode_named_result(map@) == Ok::<
                    (HeightMapView, Seq<(int, int)>),
                    MapError,
                >((final(self)@, ranges_view(names@))),
                Err(e) => {
                    &&& decode_named_result(map@) == Err::<
                        (HeightMapView, Seq<(int, int)>),
                        MapError,
                    >(e)
                    &&& final(self)@ == old(self)@
                },
            },
    {
        let len = map.len();
        if len < 7 {
            return Err(MapError::Decode);
        }
        let ghost b = map@;
        let count = map[6];
        let mut names: Vec<(usize, usize)> = Vec::new();
        let mut p: usize = 7;
        let mut k: u8 = 0;
        proof {
            assert(ranges_view(names@) =~= Seq::empty());
        }
        while k < count
            invariant
                b == map@,
                len == b.len(),
                count == b[6],
                7 <= p <= len,
                k <= count,
                name_ranges(b, 7, count as nat) == match name_ranges(b, p as int, (count - k) as nat) {
                    Some(rest) => Some((ranges_view(names@) + rest.0, rest.1)),
                    None => None::<(Seq<(int, int)>, int)>,
                },
            decreases count - k,
        {
            if p >= len || map[p] as usize > len - p - 1 {
                assert(name_ranges(b, p as int, (count - k) as nat) is None);
                return Err(MapError::Decode);
            }
            let end = p + 1 + map[p] as usize;
            let ghost before = ranges_view(names@);
            names.push((p + 1, end));
            proof {
                assert(ranges_view(names@) =~= before + seq![((p + 1) as int, end as int)]);
                if let Some(rest) = name_ranges(b, end as int, (count - k - 1) as nat) {
                    assert(before + (seq![((p + 1) as int, end as int)] + rest.0) =~= ranges_view(
                        names@,
                    ) + rest.0);
                }
            }
            p = end;
            k += 1;
        }
        proof {
            assert(ranges_view(names@) + Seq::empty() =~= ranges_view(names@));
        }
        let width = map[0] as u32 + 256 * (map[1] as u32);
        let height = map[2] as u32 + 256 * (map[3] as u32);
        let channels = map[4] as u32 + 256 * (map[5] as u32);
        let w = width as u64;
        let h = height as u64;
        let c = channels as u64;
        assert(w * h <= 0xffff * 0xffff) by (nonlinear_arith)
            requires
                w <= 0xffff,
                h <= 0xffff,
        ;
        assert(w * h * c <= 0xffff * 0xffff * 0xffff) by (nonlinear_arith)
            requires
                w * h <= 0xffff * 0xffff,
                c <= 0xffff,
        ;
        let planes = w * h * c;
        if planes > (len - p) as u64 {
            return Err(MapError::Decode);
        }
        *self = HeightMap { map, width, height, channels, data_start: p };
        Ok(names)
    }

    /// The bytes of the buffer from `range.0` up to `range.1`; `None` where
    /// the range is not inside the buffer.
    pub fn bytes(&self, range: (usize, usize)) -> (r: Option<&[u8]>)
        ensures
            match r {
                Some(s) => range.0 <= range.1 <= self@.map.len() && s@ == self@.map.subrange(
                    range.0 as int,
                    range.1 as int,
                ),
                None => !(range.0 <= range.1 <= self@.map.len()),
            },
    {
        if range.0 <= range.1 && range.1 <= self.map.len() {
            Some(vstd::slice::slice_subrange(self.map.as_slice(), range.0, range.1))
        } else {
            None
        }
    }
}

/// One round of the xorshift generator with shifts 13, 17 and 5.
pub open spec fn xorshift(x: u32) -> u32 {
    let a = x ^ ((x << 13u32) as u32);
    let b = a ^ (a >> 17u32);
    b ^ ((b << 5u32) as u32)
}

impl HeightMap {
    /// Deterministic per-cell noise: one xorshift round of `x`.
    pub fn xor_rand(x: u32) -> (r: u32)
        ensures
            r == xorshift(x),
    {
        let mut x = x;
        x ^= x << 13u32;
        x ^= x >> 17u32;
        x ^= x << 5u32;
        x
    }
}


/// One vertex of the terrain mesh: a hex corner and the elevation byte of its
/// cell.
#[derive(PartialEq, Eq, Structural, Clone, Copy, Debug)]
pub struct TerrainVertex {
    pub position: LatticePoint,
    pub elevation: u8,
}

/// The terrain mesh: six vertices per cell, triangles as vertex indices.
#[derive(Debug)]
pub struct TerrainMesh {
    pub vertices: Vec<TerrainVertex>,
    pub indices: Vec<u32>,
}

pub open spec fn vertex_view(v: TerrainVertex) -> ((int, int), u8) {
    (v.position.pair(), v.elevation)
}

pub open spec fn vertices_view(v: Seq<TerrainVertex>) -> Seq<((int, int), u8)> {
    v.map_values(|t: TerrainVertex| vertex_view(t))
}

pub open spec fn indices_view(v: Seq<u32>) -> Seq<int> {
    v.map_values(|i: u32| i as int)
}

/// Offset from the centre of the `k`-th vertex of a cell: top, top left, top
/// right, bottom left, bottom right, bottom.
pub open spec fn fan_offset(k: int) -> (int, int) {
    if k == 0 {
        (0, -2)
    } else if k == 1 {
        (-1, -1)
    } else if k == 2 {
        (1, -1)
    } else if k == 3 {
        (-1, 1)
    } else if k == 4 {
        (1, 1)
    } else {
        (0, 2)
    }
}

/// The six vertices of the cell at column `x`, row `y`.
pub open spec fn cell_vertices(m: HeightMapView, x: int, y: int) -> Seq<((int, int), u8)> {
    let c = centre_of(axial_of_offset(x, y));
    Seq::new(6, |k: int| ((c.0 + fan_offset(k).0, c.1 + fan_offset(k).1), m.sample(0, x, y)))
}

/// The seam quad towards a neighbour of different elevation: `upper` holds
/// this cell's two vertices of the shared edge, `lower` the neighbour's.
pub open spec fn seam(upper1: int, upper2: int, lower1: int, lower2: int) -> Seq<int> {
    seq![upper2, upper1, lower2, lower2, upper1, lower1]
}

/// First vertex index of the cell at column `x`, row `y`.
pub open spec fn cell_base(m: HeightMapView, x: int, y: int) -> int {
    (y * m.width + x) * 6
}

/// The triangles of the cell at column `x`, row `y`: four filling the hex,
/// then a seam quad towards each of the left, up-left and up-right
/// neighbours whose elevation differs.
pub open spec fn cell_indices(m: HeightMapView, x: int, y: int) -> Seq<int> {
    let e = m.sample(0, x, y);
    let o = cell_base(m, x, y);
    let fan = seq![o, o + 1, o + 2, o + 2, o + 1, o + 4, o + 4, o + 1, o + 3, o + 3, o + 5, o + 4];
    let left = match m.sample_near(0, left_pos(x, y)) {
        Some(s) => if s.0 != e {
            seam(o + 1, o + 3, o + 2 - 6, o + 4 - 6)
        } else {
            Seq::empty()
        },
        None => Seq::empty(),
    };
    let up_left = match m.sample_near(0, up_left_pos(x, y)) {
        Some(s) => if s.0 != e {
            let n = cell_base(m, s.1.0, s.1.1);
            seam(o, o + 1, n + 4, n + 5)
        } else {
            Seq::empty()
        },
        None => Seq::empty(),
    };
    let up_right = match m.sample_near(0, up_right_pos(m.width as int, x, y)) {
        Some(s) => if s.0 != e {
            let n = cell_base(m, s.1.0, s.1.1);
            seam(o + 2, o, n + 5, n + 3)
        } else {
            Seq::empty()
        },
        None => Seq::empty(),
    };
    fan + left + up_left + up_right
}

/// Vertices of the first `n` cells in row-major order.
pub open spec fn terrain_vertices(m: HeightMapView, n: nat) -> Seq<((int, int), u8)>
    decreases n,
{
    if n == 0 || m.width == 0 {
        Seq::empty()
    } else {
        terrain_vertices(m, (n - 1) as nat) + cell_vertices(
            m,
            (n - 1) % m.width as int,
            (n - 1) / m.width as int,
        )
    }
}

/// Triangles of the first `n` cells in row-major order.
pub open spec fn terrain_indices(m: HeightMapView, n: nat) -> Seq<int>
    decreases n,
{
    if n == 0 || m.width == 0 {
        Seq::empty()
    } else {
        terrain_indices(m, (n - 1) as nat) + cell_indices(
            m,
            (n - 1) % m.width as int,
            (n - 1) / m.width as int,
        )
    }
}

/// What `HeightMap::generate_terrain` gives: vertices and triangles of all
/// cells, or why there are none.
pub open spec fn terrain_result(m: HeightMapView) -> Result<
    (Seq<((int, int), u8)>, Seq<int>),
    MapError,
> {
    if m.map.len() == 0 {
        Err(MapError::Decode)
    } else if m.channels == 0 {
        Err(MapError::OutOfBounds)
    } else if m.width * m.height * 6 > u32::MAX + 1 {
        Err(MapError::TooLarge)
    } else {
        Ok(
            (
                terrain_vertices(m, m.width * m.height),
                terrain_indices(m, m.width * m.height),
            ),
        )
    }
}

/// Whether the cell at `(x, y)` has a seam towards the neighbour `p`.
pub open spec fn has_seam(m: HeightMapView, x: int, y: int, p: Option<(int, int)>) -> bool {
    m.sample_near(0, p) matches Some(s) && s.0 != m.sample(0, x, y)
}

/// Number of seam quads of the cell at `(x, y)`.
pub open spec fn cell_seams(m: HeightMapView, x: int, y: int) -> nat {
    (if has_seam(m, x, y, left_pos(x, y)) {
        1nat
    } else {
        0nat
    }) + (if has_seam(m, x, y, up_left_pos(x, y)) {
        1nat
    } else {
        0nat
    }) + (if has_seam(m, x, y, up_right_pos(m.width as int, x, y)) {
        1nat
    } else {
        0nat
    })
}

/// Number of seam quads of the first `n` cells in row-major order.
pub open spec fn total_seams(m: HeightMapView, n: nat) -> nat
    decreases n,
{
    if n == 0 || m.width == 0 {
        0
    } else {
        total_seams(m, (n - 1) as nat) + cell_seams(
            m,
            (n - 1) % m.width as int,
            (n - 1) / m.width as int,
        )
    }
}

/// The terrain of `n` cells has six vertices per cell, and four triangles per
/// cell plus two per seam.
pub proof fn lemma_terrain_counts(m: HeightMapView, n: nat)
    requires
        m.width > 0,
    ensures
        terrain_vertices(m, n).len() == 6 * n,
        terrain_indices(m, n).len() == 3 * (4 * n + 2 * total_seams(m, n)),
    decreases n,
{
    if n > 0 {
        lemma_terrain_counts(m, (n - 1) as nat);
    }
}

fn push_seam(v: &mut Vec<u32>, upper1: u32, upper2: u32, lower1: u32, lower2: u32)
    ensures
        indices_view(final(v)@) == indices_view(old(v)@) + seam(
            upper1 as int,
            upper2 as int,
            lower1 as int,
            lower2 as int,
        ),
{
    v.push(upper2);
    v.push(upper1);
    v.push(lower2);
    v.push(lower2);
    v.push(upper1);
    v.push(lower1);
    assert(indices_view(v@) =~= indices_view(old(v)@) + seam(
        upper1 as int,
        upper2 as int,
        lower1 as int,
        lower2 as int,
    ));
}

impl HeightMap {
    /// The six vertices of one cell.
    fn cell_fan(&self, x: u32, y: u32, elevation: u8) -> (r: Vec<TerrainVertex>)
        requires
            x <= u16::MAX,
            y <= u16::MAX,
            elevation == self@.sample(0, x as int, y as int),
        ensures
            vertices_view(r@) == cell_vertices(self@, x as int, y as int),
    {
        let hex = HexCoord::from_offset(x as i32, y as i32);
        let c = hex.world_space();
        let mut r: Vec<TerrainVertex> = Vec::new();
        r.push(TerrainVertex { position: c.top, elevation });
        r.push(TerrainVertex { position: c.top_left, elevation });
        r.push(TerrainVertex { position: c.top_right, elevation });
        r.push(TerrainVertex { position: c.bottom_left, elevation });
        r.push(TerrainVertex { position: c.bottom_right, elevation });
        r.push(TerrainVertex { position: c.bottom, elevation });
        assert(vertices_view(r@) =~= cell_vertices(self@, x as int, y as int));
        r
    }

    /// The triangles of one cell.
    fn cell_tris(&self, x: u32, y: u32, elevation: u8) -> (r: Vec<u32>)
        requires
            self@.valid(),
            self@.in_grid(x as int, y as int),
            self@.channels > 0,
            self@.width * self@.height * 6 <= u32::MAX + 1,
            elevation == self@.sample(0, x as int, y as int),
        ensures
            indices_view(r@) == cell_indices(self@, x as int, y as int),
    {
        let ghost m = self@;
        let w = self.width();
        let topo = Channel::topo();
        let pos = (x, y);
        proof {
            lemma_cell_base_fits(m, x as int, y as int);
        }
        let o = (y * w + x) * 6;
        let mut r: Vec<u32> = Vec::new();
        r.push(o);
        r.push(o + 1);
        r.push(o + 2);
        r.push(o + 2);
        r.push(o + 1);
        r.push(o + 4);
        r.push(o + 4);
        r.push(o + 1);
        r.push(o + 3);
        r.push(o + 3);
        r.push(o + 5);
        r.push(o + 4);
        let ghost fan = indices_view(r@);
        if let Some((v, _)) = self.sample_left(topo, pos) {
            if v != elevation {
                proof {
                    lemma_cell_base_fits(m, x - 1, y as int);
                }
                push_seam(&mut r, o + 1, o + 3, o + 2 - 6, o + 4 - 6);
            }
        }
        let ghost with_left = indices_view(r@);
        if let Some((v, p)) = self.sample_up_left(topo, pos) {
            if v != elevation {
                proof {
                    lemma_cell_base_fits(m, p.0 as int, p.1 as int);
                }
                let n = (p.1 * w + p.0) * 6;
                push_seam(&mut r, o, o + 1, n + 4, n + 5);
            }
        }
        let ghost with_up_left = indices_view(r@);
        if let Some((v, p)) = self.sample_up_right(topo, pos) {
            if v != elevation {
                proof {
                    lemma_cell_base_fits(m, p.0 as int, p.1 as int);
                }
                let n = (p.1 * w + p.0) * 6;
                push_seam(&mut r, o + 2, o, n + 5, n + 3);
            }
        }
        proof {
            let o = o as int;
            let x = x as int;
            let y = y as int;
            assert(fan =~= seq![
                o,
                o + 1,
                o + 2,
                o + 2,
                o + 1,
                o + 4,
                o + 4,
                o + 1,
                o + 3,
                o + 3,
                o + 5,
                o + 4,
            ]);
            assert(indices_view(r@) =~= cell_indices(m, x, y));
        }
        r
    }

    /// The terrain mesh: for each cell, row by row, the six corners of its hex
    /// at its elevation and the four triangles filling it, then a seam quad
    /// (two triangles) towards each of its left, up-left and up-right
    /// neighbours whose elevation differs. Cell `(x, y)` has vertices
    /// `(y * width + x) * 6` to `+ 5`.
    ///
    /// Fails when nothing is loaded, when the raster has no elevation plane,
    /// and when the vertex indices do not fit in `u32`.
    pub fn generate_terrain(&self) -> (r: Result<TerrainMesh, MapError>)
        ensures
            match r {
                Ok(mesh) => terrain_result(self@) == Ok::<
                    (Seq<((int, int), u8)>, Seq<int>),
                    MapError,
                >((vertices_view(mesh.vertices@), indices_view(mesh.indices@))),
                Err(e) => terrain_result(self@) == Err::<
                    (Seq<((int, int), u8)>, Seq<int>),
                    MapError,
                >(e),
            },
    {
        proof {
            use_type_invariant(self);
        }
        let ghost m = self@;
        if self.map.len() == 0 {
            return Err(MapError::Decode);
        }
        if self.channels == 0 {
            return Err(MapError::OutOfBounds);
        }
        let w = self.width;
        let h = self.height;
        assert((w as u64) * (h as u64) <= 0xffff * 0xffff) by (nonlinear_arith)
            requires
                w <= 0xffff,
                h <= 0xffff,
        ;
        if (w as u64) * (h as u64) > 0x1_0000_0000 / 6 {
            return Err(MapError::TooLarge);
        }
        let mut vertices: Vec<TerrainVertex> = Vec::new();
        let mut indices: Vec<u32> = Vec::new();
        let mut y: u32 = 0;
        while y < h
            invariant
                m == self@,
                m.valid(),
                m.channels > 0,
                m.map.len() > 0,
                w == m.width,
                h == m.height,
                m.width * m.height * 6 <= u32::MAX + 1,
                y <= h,
                vertices_view(vertices@) == terrain_vertices(m, (y * w) as nat),
                indices_view(indices@) == terrain_indices(m, (y * w) as nat),
            decreases h - y,
        {
            let mut x: u32 = 0;
            while x < w
                invariant
                    m == self@,
                    m.valid(),
                    m.channels > 0,
                    w == m.width,
                    h == m.height,
                    m.width * m.height * 6 <= u32::MAX + 1,
                    y < h,
                    x <= w,
                    vertices_view(vertices@) == terrain_vertices(m, (y * w + x) as nat),
                    indices_view(indices@) == terrain_indices(m, (y * w + x) as nat),
                decreases w - x,
            {
                let elevation = self.sample_at(Channel::topo(), (x, y)).unwrap();
                let mut fan = self.cell_fan(x, y, elevation);
                let mut tris = self.cell_tris(x, y, elevation);
                proof {
                    let n = y * w + x;
                    lemma_fundamental_div_mod_converse(n, w as int, y as int, x as int);
                    assert((n + 1) - 1 == n);
                }
                vertices.append(&mut fan);
                indices.append(&mut tris);
                x += 1;
            }
            proof {
                assert(y * w + w == (y + 1) * w) by (nonlinear_arith);
            }
            y += 1;
        }
        proof {
            assert(h * w == w * h) by (nonlinear_arith);
        }
        Ok(TerrainMesh { vertices, indices })
    }
}

/// Every vertex index of a cell of the grid fits in `u32`.
proof fn lemma_cell_base_fits(m: HeightMapView, x: int, y: int)
    requires
        m.in_grid(x, y),
        m.width * m.height * 6 <= u32::MAX + 1,
    ensures
        0 <= cell_base(m, x, y),
        cell_base(m, x, y) + 5 <= u32::MAX,
        y * m.width + x < m.width * m.height,
{
    let w = m.width as int;
    let h = m.height as int;
    assert(0 <= y * w + x < w * h) by (nonlinear_arith)
        requires
            0 <= x < w,
            0 <= y < h,
    ;
}

} // verus!

use crate::error::MapError;
use vstd::prelude::*;

verus! {

/// One-byte identifier of the owner of a hex.
#[derive(PartialEq, Eq, Structural, Clone, Copy, Debug)]
pub struct CountryId(pub u8);

/// An 8-bit-per-channel colour.
#[derive(PartialEq, Eq, Structural, Clone, Copy, Debug)]
pub struct Rgb {
    pub r: u8,
    pub g: u8,
    pub b: u8,
}

/// The twelve border colours, cycled through by country id.
pub open spec fn palette(i: int) -> (u8, u8, u8) {
    if i == 0 {
        (128, 0, 0)
    } else if i == 1 {
        (255, 127, 80)
    } else if i == 2 {
        (255, 165, 0)
    } else if i == 3 {
        (255, 215, 0)
    } else if i == 4 {
        (128, 128, 0)
    } else if i == 5 {
        (0, 255, 0)
    } else if i == 6 {
        (0, 128, 128)
    } else if i == 7 {
        (100, 149, 237)
    } else if i == 8 {
        (0, 191, 255)
    } else if i == 9 {
        (65, 105, 225)
    } else if i == 10 {
        (147, 112, 219)
    } else {
        (255, 0, 255)
    }
}

pub open spec fn sea_id() -> u8 {
    254
}

impl CountryId {
    /// The unclaimed ocean, which has no name and no border.
    pub fn sea() -> (c: CountryId)
        ensures
            c.0 == sea_id(),
    {
        CountryId(254)
    }

    /// Primary and secondary border colour of this country.
    pub fn colours(&self) -> (c: [Rgb; 2])
        ensures
            (c@[0].r, c@[0].g, c@[0].b) == palette((self.0 % 12) as int),
            c@[1] == (Rgb { r: 0, g: 0, b: 255 }),
    {
        let i = self.0 % 12;
        let (r, g, b): (u8, u8, u8) = if i == 0 {
            (128, 0, 0)
        } else if i == 1 {
            (255, 127, 80)
        } else if i == 2 {
            (255, 165, 0)
        } else if i == 3 {
            (255, 215, 0)
        } else if i == 4 {
            (128, 128, 0)
        } else if i == 5 {
            (0, 255, 0)
        } else if i == 6 {
            (0, 128, 128)
        } else if i == 7 {
            (100, 149, 237)
        } else if i == 8 {
            (0, 191, 255)
        } else if i == 9 {
            (65, 105, 225)
        } else if i == 10 {
            (147, 112, 219)
        } else {
            (255, 0, 255)
        };
        [Rgb { r, g, b }, Rgb { r: 0, g: 0, b: 255 }]
    }
}

/// Why `len` cells cannot form a grid of rows of `width` cells, if they cannot.
pub open spec fn grid_check(width: nat, len: nat) -> Option<MapError> {
    if len > u32::MAX {
        Some(MapError::TooLarge)
    } else if (width == 0 && len != 0) || (width != 0 && len % width != 0) {
        Some(MapError::ShapeMismatch)
    } else {
        None
    }
}

pub open spec fn names_view(v: Seq<String>) -> Seq<Seq<char>> {
    v.map_values(|s: String| s@)
}

/// What a `Territories` holds: the grid, row by row, and the country names.
pub struct TerritoriesView {
    pub width: nat,
    pub hexes: Seq<CountryId>,
    pub names: Seq<Seq<char>>,
}

impl TerritoriesView {
    pub open spec fn valid(self) -> bool {
        grid_check(self.width, self.hexes.len()) is None
    }

    pub open spec fn height(self) -> nat {
        if self.width == 0 {
            0
        } else {
            self.hexes.len() / self.width
        }
    }

    pub open spec fn in_grid(self, x: int, y: int) -> bool {
        0 <= x < self.width && 0 <= y < self.height()
    }

    /// The country of column `x`, row `y`.
    pub open spec fn at(self, x: int, y: int) -> CountryId {
        self.hexes[y * self.width + x]
    }

    /// The name of `c`, or `"Water"` where the list has none.
    pub open spec fn name_of(self, c: CountryId) -> Seq<char> {
        if (c.0 as int) < self.names.len() {
            self.names[c.0 as int]
        } else {
            "Water"@
        }
    }
}

/// A per-hex country-id grid, stored row by row.
#[derive(Debug)]
pub struct Territories {
    width: u32,
    hexes: Vec<CountryId>,
    country_names: Vec<String>,
}

impl View for Territories {
    type V = TerritoriesView;

    closed spec fn view(&self) -> TerritoriesView {
        TerritoriesView {
            width: self.width as nat,
            hexes: self.hexes@,
            names: names_view(self.country_names@),
        }
    }
}

/// Copy of a list of names.
fn clone_names(v: &Vec<String>) -> (r: Vec<String>)
    ensures
        names_view(r@) == names_view(v@),
{
    let mut r: Vec<String> = Vec::new();
    let mut i: usize = 0;
    while i < v.len()
        invariant
            i <= v@.len(),
            names_view(r@) == names_view(v@.subrange(0, i as int)),
        decreases v@.len() - i,
    {
        let ghost before = r@;
        r.push(v[i].clone());
        proof {
            assert(v@.subrange(0, i + 1) == v@.subrange(0, i as int).push(v@[i as int]));
            assert(names_view(r@) =~= names_view(before).push(v@[i as int]@));
            assert(names_view(v@.subrange(0, i + 1)) =~= names_view(v@.subrange(0, i as int)).push(
                v@[i as int]@,
            ));
        }
        i += 1;
    }
    proof {
        assert(v@.subrange(0, v@.len() as int) == v@);
    }
    r
}

impl Territories {
    #[verifier::type_invariant]
    spec fn shape(&self) -> bool {
        grid_check(self.width as nat, self.hexes@.len()) is None
    }

    /// A grid of rows of `width` cells; fails unless the cells fill whole rows.
    pub fn new(width: u32, hexes: Vec<CountryId>, country_names: Vec<String>) -> (r: Result<
        Territories,
        MapError,
    >)
        ensures
            match grid_check(width as nat, hexes@.len()) {
                Some(e) => r == Err::<Territories, MapError>(e),
                None => r matches Ok(t) && t@ == (TerritoriesView {
                    width: width as nat,
                    hexes: hexes@,
                    names: names_view(country_names@),
                }),
            },
    {
        let len = hexes.len();
        if len > u32::MAX as usize {
            return Err(MapError::TooLarge);
        }
        if (width == 0 && len != 0) || (width != 0 && len % (width as usize) != 0) {
            return Err(MapError::ShapeMismatch);
        }
        Ok(Territories { width, hexes, country_names })
    }

    pub fn width(&self) -> (w: u32)
        ensures
            w == self@.width,
            self@.valid(),
    {
        proof {
            use_type_invariant(self);
        }
        self.width
    }

    /// Number of rows: the cell count over the width, 0 for an empty grid.
    pub fn height(&self) -> (h: u32)
        ensures
            h == self@.height(),
            self@.valid(),
    {
        proof {
            use_type_invariant(self);
        }
        let len = self.hexes.len() as u32;
        if self.width == 0 {
            0
        } else {
            len / self.width
        }
    }

    /// The cells, row by row.
    pub fn hexes(&self) -> (h: &[CountryId])
        ensures
            h@ == self@.hexes,
    {
        self.hexes.as_slice()
    }

    pub fn country_names(&self) -> (n: &Vec<String>)
        ensures
            names_view(n@) == self@.names,
    {
        &self.country_names
    }

    /// The country at column `pos.0`, row `pos.1`; `None` outside the grid.
    pub fn country_id(&self, pos: (u32, u32)) -> (c: Option<CountryId>)
        ensures
            c == (if self@.in_grid(pos.0 as int, pos.1 as int) {
                Some(self@.at(pos.0 as int, pos.1 as int))
            } else {
                None
            }),
    {
        proof {
            use_type_invariant(self);
        }
        let (x, y) = pos;
        let h = self.height();
        if x >= self.width || y >= h {
            return None;
        }
        let w = self.width as u64;
        proof {
            let len = self.hexes@.len() as int;
            let w = w as int;
            let h = h as int;
            assert(len == h * w) by (nonlinear_arith)
                requires
                    w > 0,
                    len % w == 0,
                    h == len / w,
            ;
            assert(y * w + x < h * w) by (nonlinear_arith)
                requires
                    y < h,
                    x < w,
            ;
        }
        let i = (y as u64) * w + (x as u64);
        Some(self.hexes[i as usize])
    }

    /// The name of `country`, or `"Water"` where no name is listed for it.
    pub fn get_name(&self, country: CountryId) -> (s: &str)
        ensures
            s@ == self@.name_of(country),
    {
        let i = country.0 as usize;
        if i < self.country_names.len() {
            self.country_names[i].as_str()
        } else {
            "Water"
        }
    }
}

impl Default for Territories {
    fn default() -> (t: Territories)
        ensures
            t@ == (TerritoriesView { width: 0, hexes: Seq::empty(), names: Seq::empty() }),
    {
        let t = Territories { width: 0, hexes: Vec::new(), country_names: Vec::new() };
        proof {
            assert(names_view(t.country_names@) =~= Seq::empty());
        }
        t
    }
}

impl PartialEq for Territories {
    fn eq(&self, other: &Territories) -> (b: bool)
        ensures
            b == (self@ == other@),
    {
        if self.width != other.width || self.hexes.len() != other.hexes.len()
            || self.country_names.len() != other.country_names.len() {
            proof {
                if self@ == other@ {
                    assert(names_view(self.country_names@).len() == names_view(
                        other.country_names@,
                    ).len());
                }
            }
            return false;
        }
        let mut i: usize = 0;
        while i < self.hexes.len()
            invariant
                i <= self.hexes@.len(),
                self.hexes@.len() == other.hexes@.len(),
                forall|j: int| 0 <= j < i ==> self.hexes@[j] == other.hexes@[j],
            decreases self.hexes@.len() - i,
        {
            if self.hexes[i] != other.hexes[i] {
                return false;
            }
            i += 1;
        }
        assert(self.hexes@ =~= other.hexes@);
        let mut k: usize = 0;
        while k < self.country_names.len()
            invariant
                k <= self.country_names@.len(),
                self.country_names@.len() == other.country_names@.len(),
                forall|j: int| 0 <= j < k ==> self.country_names@[j]@ == other.country_names@[j]@,
            decreases self.country_names@.len() - k,
        {
            if self.country_names[k] != other.country_names[k] {
                proof {
                    assert(names_view(self.country_names@)[k as int] != names_view(
                        other.country_names@,
                    )[k as int]);
                }
                return false;
            }
            k += 1;
        }
        assert(names_view(self.country_names@) =~= names_view(other.country_names@));
        true
    }
}

impl vstd::std_specs::cmp::PartialEqSpecImpl for Territories {
    open spec fn obeys_eq_spec() -> bool {
        true
    }

    open spec fn eq_spec(&self, other: &Territories) -> bool {
        self@ == other@
    }
}


/// What a `TerritoriesRLE` holds: the width, the runs `(length, id)` in scan
/// order, and the country names.
pub struct RleView {
    pub width: nat,
    pub runs: Seq<(int, CountryId)>,
    pub names: Seq<Seq<char>>,
}

pub open spec fn runs_view(v: Seq<(u16, CountryId)>) -> Seq<(int, CountryId)> {
    v.map_values(|p: (u16, CountryId)| (p.0 as int, p.1))
}

/// Run-length compressed form of a `Territories`: the cells in row-major scan
/// order, consecutive equal ids merged into `(length, id)` runs.
#[derive(Debug)]
pub struct TerritoriesRLE {
    width: u32,
    hexes: Vec<(u16, CountryId)>,
    country_names: Vec<String>,
}

impl View for TerritoriesRLE {
    type V = RleView;

    closed spec fn view(&self) -> RleView {
        RleView {
            width: self.width as nat,
            runs: runs_view(self.hexes@),
            names: names_view(self.country_names@),
        }
    }
}

impl TerritoriesRLE {
    pub fn new(width: u32, hexes: Vec<(u16, CountryId)>, country_names: Vec<String>) -> (r: Self)
        ensures
            r@ == (RleView {
                width: width as nat,
                runs: runs_view(hexes@),
                names: names_view(country_names@),
            }),
    {
        TerritoriesRLE { width, hexes, country_names }
    }

    pub fn width(&self) -> (w: u32)
        ensures
            w == self@.width,
    {
        self.width
    }

    /// The runs, in scan order.
    pub fn hexes(&self) -> (h: &[(u16, CountryId)])
        ensures
            runs_view(h@) == self@.runs,
    {
        self.hexes.as_slice()
    }

    pub fn country_names(&self) -> (n: &Vec<String>)
        ensures
            names_view(n@) == self@.names,
    {
        &self.country_names
    }
}

/// The cells that the runs stand for: each id repeated by its run length.
pub open spec fn expand(runs: Seq<(int, CountryId)>) -> Seq<CountryId>
    decreases runs.len(),
{
    if runs.len() == 0 {
        Seq::empty()
    } else {
        expand(runs.drop_last()) + Seq::new(runs.last().0 as nat, |_i: int| runs.last().1)
    }
}

/// Sum of the run lengths.
pub open spec fn run_total(runs: Seq<(int, CountryId)>) -> int
    decreases runs.len(),
{
    if runs.len() == 0 {
        0
    } else {
        run_total(runs.drop_last()) + runs.last().0
    }
}

/// The maximal runs of equal ids in `h`, with unbounded lengths.
pub open spec fn runs_of(h: Seq<CountryId>) -> Seq<(int, CountryId)>
    decreases h.len(),
{
    if h.len() == 0 {
        Seq::empty()
    } else {
        let prev = runs_of(h.drop_last());
        if prev.len() > 0 && prev.last().1 == h.last() {
            prev.update(prev.len() - 1, (prev.last().0 + 1, h.last()))
        } else {
            prev.push((1, h.last()))
        }
    }
}

pub open spec fn fits_u16(runs: Seq<(int, CountryId)>) -> bool {
    forall|j: int| 0 <= j < runs.len() ==> runs[j].0 <= u16::MAX
}

/// What `Territories::to_rle` gives for a grid.
pub open spec fn to_rle_result(t: TerritoriesView) -> Result<RleView, MapError> {
    if fits_u16(runs_of(t.hexes)) {
        Ok(RleView { width: t.width, runs: runs_of(t.hexes), names: t.names })
    } else {
        Err(MapError::RleOverflow)
    }
}

/// What `Territories::from_rle` gives for a compressed grid.
pub open spec fn from_rle_result(r: RleView) -> Result<TerritoriesView, MapError> {
    match grid_check(r.width, expand(r.runs).len()) {
        Some(e) => Err(e),
        None => Ok(TerritoriesView { width: r.width, hexes: expand(r.runs), names: r.names }),
    }
}

proof fn lemma_runs_positive(h: Seq<CountryId>)
    ensures
        forall|j: int| 0 <= j < runs_of(h).len() ==> runs_of(h)[j].0 >= 1,
        h.len() > 0 ==> runs_of(h).len() > 0,
    decreases h.len(),
{
    if h.len() > 0 {
        lemma_runs_positive(h.drop_last());
        let prev = runs_of(h.drop_last());
        let runs = runs_of(h);
        assert forall|j: int| 0 <= j < runs.len() implies runs[j].0 >= 1 by {
            if j < prev.len() {
                assert(prev[j].0 >= 1);
            }
        }
    }
}

/// Runs of a prefix stay runs of the whole: the earlier ones unchanged, the
/// last one at least as long.
proof fn lemma_runs_prefix(h: Seq<CountryId>, k: int, n: int)
    requires
        0 <= k <= n <= h.len(),
    ensures
        runs_of(h.subrange(0, k)).len() <= runs_of(h.subrange(0, n)).len(),
        runs_of(h.subrange(0, k)).len() > 0 ==> runs_of(h.subrange(0, n))[runs_of(
            h.subrange(0, k),
        ).len() - 1].0 >= runs_of(h.subrange(0, k)).last().0,
    decreases n - k,
{
    if n > k {
        lemma_runs_prefix(h, k, n - 1);
        assert(h.subrange(0, n).drop_last() == h.subrange(0, n - 1));
    }
}

/// Expanding the runs of `h` gives `h` back.
pub proof fn lemma_expand_runs(h: Seq<CountryId>)
    ensures
        expand(runs_of(h)) == h,
    decreases h.len(),
{
    if h.len() > 0 {
        let prev = runs_of(h.drop_last());
        lemma_expand_runs(h.drop_last());
        lemma_runs_positive(h.drop_last());
        if prev.len() > 0 && prev.last().1 == h.last() {
            let runs = prev.update(prev.len() - 1, (prev.last().0 + 1, h.last()));
            assert(runs.drop_last() == prev.drop_last());
            assert(prev.drop_last().push(prev.last()) == prev);
            let c = prev.last().0;
            assert(Seq::new((c + 1) as nat, |_i: int| h.last()) =~= Seq::new(
                c as nat,
                |_i: int| h.last(),
            ).push(h.last()));
            assert(h.drop_last().push(h.last()) =~= h);
            assert(expand(runs) =~= h);
        } else {
            assert(prev.push((1, h.last())).drop_last() == prev);
            assert(expand(prev.push((1, h.last()))) =~= h);
        }
    }
}

proof fn lemma_expand_len(runs: Seq<(int, CountryId)>)
    requires
        forall|j: int| 0 <= j < runs.len() ==> runs[j].0 >= 0,
    ensures
        expand(runs).len() == run_total(runs),
    decreases runs.len(),
{
    if runs.len() > 0 {
        lemma_expand_len(runs.drop_last());
    }
}

proof fn lemma_total_prefix(runs: Seq<(int, CountryId)>, k: int, n: int)
    requires
        0 <= k <= n <= runs.len(),
        forall|j: int| 0 <= j < runs.len() ==> runs[j].0 >= 0,
    ensures
        run_total(runs.subrange(0, k)) <= run_total(runs.subrange(0, n)),
    decreases n - k,
{
    if n > k {
        lemma_total_prefix(runs, k, n - 1);
        assert(runs.subrange(0, n).drop_last() == runs.subrange(0, n - 1));
    }
}

/// Compressing a grid and expanding the result gives the same grid back,
/// whenever no run is too long to compress.
pub proof fn lemma_rle_round_trip(t: TerritoriesView)
    requires
        t.valid(),
        to_rle_result(t) is Ok,
    ensures
        from_rle_result(to_rle_result(t)->Ok_0) == Ok::<TerritoriesView, MapError>(t),
{
    lemma_expand_runs(t.hexes);
}

/// Runs as compression makes them: none empty, and no two neighbours of the
/// same id.
pub open spec fn canonical(runs: Seq<(int, CountryId)>) -> bool {
    &&& forall|j: int| 0 <= j < runs.len() ==> 1 <= #[trigger] runs[j].0 <= u16::MAX
    &&& forall|j: int| 0 < j < runs.len() ==> runs[j - 1].1 != #[trigger] runs[j].1
}

proof fn lemma_runs_last(h: Seq<CountryId>)
    requires
        h.len() > 0,
    ensures
        runs_of(h).len() > 0,
        runs_of(h).last().1 == h.last(),
    decreases h.len(),
{
    if h.len() > 1 {
        lemma_runs_last(h.drop_last());
    }
}

/// Appending a block of `c` cells of a new id adds one run.
proof fn lemma_runs_append_block(h: Seq<CountryId>, c: nat, x: CountryId)
    requires
        c >= 1,
        h.len() == 0 || h.last() != x,
    ensures
        runs_of(h + Seq::new(c, |_i: int| x)) == runs_of(h).push((c as int, x)),
    decreases c,
{
    let block = h + Seq::new(c, |_i: int| x);
    if c == 1 {
        assert(block.drop_last() =~= h);
        if h.len() > 0 {
            lemma_runs_last(h);
        }
    } else {
        lemma_runs_append_block(h, (c - 1) as nat, x);
        let shorter = h + Seq::new((c - 1) as nat, |_i: int| x);
        assert(block.drop_last() =~= shorter);
        let prev = runs_of(h).push(((c - 1) as int, x));
        assert(prev.update(prev.len() - 1, (c as int, x)) =~= runs_of(h).push((c as int, x)));
    }
}

/// Compressing the expansion of canonical runs gives the same runs back.
pub proof fn lemma_runs_of_expand(runs: Seq<(int, CountryId)>)
    requires
        canonical(runs),
    ensures
        runs_of(expand(runs)) == runs,
    decreases runs.len(),
{
    if runs.len() > 0 {
        let prefix = runs.drop_last();
        assert(canonical(prefix));
        lemma_runs_of_expand(prefix);
        let x = runs.last().1;
        let c = runs.last().0 as nat;
        if prefix.len() > 0 {
            assert(runs[runs.len() - 2].1 != x);
            lemma_runs_positive(expand(prefix));
            lemma_runs_last(expand(prefix));
            lemma_expand_len(prefix);
        }
        lemma_runs_append_block(expand(prefix), c, x);
        assert(prefix.push((c as int, x)) =~= runs);
    }
}

/// Expanding canonical runs and compressing the grid again gives the same
/// compressed form back: on such runs the two conversions are inverse.
pub proof fn lemma_rle_canonical_round_trip(r: RleView)
    requires
        canonical(r.runs),
        from_rle_result(r) is Ok,
    ensures
        to_rle_result(from_rle_result(r)->Ok_0) == Ok::<RleView, MapError>(r),
{
    lemma_runs_of_expand(r.runs);
}

impl Territories {
    /// Compresses the grid; fails where a run is longer than 65535 cells.
    pub fn to_rle(&self) -> (r: Result<TerritoriesRLE, MapError>)
        ensures
            match r {
                Ok(rle) => to_rle_result(self@) == Ok::<RleView, MapError>(rle@),
                Err(e) => to_rle_result(self@) == Err::<RleView, MapError>(e),
            },
    {
        let ghost h = self.hexes@;
        let mut runs: Vec<(u16, CountryId)> = Vec::new();
        let mut i: usize = 0;
        while i < self.hexes.len()
            invariant
                h == self.hexes@,
                i <= h.len(),
                runs_view(runs@) == runs_of(h.subrange(0, i as int)),
                fits_u16(runs_of(h.subrange(0, i as int))),
            decreases h.len() - i,
        {
            let item = self.hexes[i];
            let n = runs.len();
            proof {
                assert(h.subrange(0, i + 1).drop_last() == h.subrange(0, i as int));
            }
            if n > 0 && runs[n - 1].1 == item {
                let count = runs[n - 1].0;
                if count == u16::MAX {
                    proof {
                        let longer = runs_of(h.subrange(0, i + 1));
                        assert(longer[n - 1].0 == 65536);
                        lemma_runs_prefix(h, i + 1, h.len() as int);
                        assert(h.subrange(0, h.len() as int) == h);
                        assert(!fits_u16(runs_of(h)));
                    }
                    return Err(MapError::RleOverflow);
                }
                runs.set(n - 1, (count + 1, item));
            } else {
                runs.push((1, item));
            }
            proof {
                assert(runs_view(runs@) =~= runs_of(h.subrange(0, i + 1)));
            }
            i += 1;
        }
        proof {
            assert(h.subrange(0, h.len() as int) == h);
        }
        let rle = TerritoriesRLE {
            width: self.width,
            hexes: runs,
            country_names: clone_names(&self.country_names),
        };
        Ok(rle)
    }

    /// Expands a compressed grid; fails where the runs do not fill whole rows
    /// of `rle`'s width, or hold more than `u32::MAX` cells.
    pub fn from_rle(rle: &TerritoriesRLE) -> (r: Result<Territories, MapError>)
        ensures
            match r {
                Ok(t) => from_rle_result(rle@) == Ok::<TerritoriesView, MapError>(t@),
                Err(e) => from_rle_result(rle@) == Err::<TerritoriesView, MapError>(e),
            },
    {
        let ghost runs = runs_view(rle.hexes@);
        assert forall|j: int| 0 <= j < runs.len() implies runs[j].0 >= 0 by {}
        proof {
            lemma_expand_len(runs);
        }
        let mut total: u64 = 0;
        let mut i: usize = 0;
        while i < rle.hexes.len()
            invariant
                runs == runs_view(rle.hexes@),
                forall|j: int| 0 <= j < runs.len() ==> runs[j].0 >= 0,
                i <= runs.len(),
                total == run_total(runs.subrange(0, i as int)),
                total <= u32::MAX,
            decreases runs.len() - i,
        {
            proof {
                assert(runs.subrange(0, i + 1).drop_last() == runs.subrange(0, i as int));
            }
            total = total + rle.hexes[i].0 as u64;
            if total > u32::MAX as u64 {
                proof {
                    assert(run_total(runs.subrange(0, i + 1)) == total);
                    lemma_total_prefix(runs, i + 1, runs.len() as int);
                    assert(runs.subrange(0, runs.len() as int) == runs);
                    lemma_expand_len(runs);
                }
                return Err(MapError::TooLarge);
            }
            i += 1;
        }
        proof {
            assert(runs.subrange(0, runs.len() as int) == runs);
        }
        let width = rle.width;
        if (width == 0 && total != 0) || (width != 0 && total % (width as u64) != 0) {
            return Err(MapError::ShapeMismatch);
        }
        let mut hexes: Vec<CountryId> = Vec::new();
        let mut k: usize = 0;
        while k < rle.hexes.len()
            invariant
                runs == runs_view(rle.hexes@),
                k <= runs.len(),
                hexes@ == expand(runs.subrange(0, k as int)),
            decreases runs.len() - k,
        {
            let (count, id) = rle.hexes[k];
            let mut j: u16 = 0;
            while j < count
                invariant
                    runs == runs_view(rle.hexes@),
                    k < runs.len(),
                    (count, id) == rle.hexes@[k as int],
                    j <= count,
                    hexes@ == expand(runs.subrange(0, k as int)) + Seq::new(
                        j as nat,
                        |_i: int| id,
                    ),
                decreases count - j,
            {
                hexes.push(id);
                proof {
                    assert(hexes@ =~= expand(runs.subrange(0, k as int)) + Seq::new(
                        (j + 1) as nat,
                        |_i: int| id,
                    ));
                }
                j += 1;
            }
            proof {
                assert(runs.subrange(0, k + 1).drop_last() == runs.subrange(0, k as int));
                assert(hexes@ =~= expand(runs.subrange(0, k + 1)));
            }
            k += 1;
        }
        proof {
            assert(runs.subrange(0, runs.len() as int) == runs);
        }
        Ok(Territories { width, hexes, country_names: clone_names(&rle.country_names) })
    }
}

} // verus!

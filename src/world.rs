use crate::error::MapError;
use crate::height_map::{decode_named_result, decode_result, ranges_view, HeightMap, HeightMapView};
use crate::territories::{from_rle_result, CountryId, Territories, TerritoriesRLE, TerritoriesView};
use vstd::prelude::*;

verus! {

/// The world as the client holds it: terrain, territories, and the hovered
/// cell.
#[derive(Debug, Default)]
pub struct WorldMap {
    pub height_map: HeightMap,
    pub borders: Territories,
    /// Column and row of the cell under the pointer.
    pub hovered: (u32, u32),
    /// Set when the territories were replaced and the borders need tracing.
    pub updated: bool,
    /// Where the names of an extended map file lie in the height map's buffer.
    pub names: Vec<(usize, usize)>,
}

impl WorldMap {
    /// Loads the height map from a buffer, as `HeightMap::load`.
    pub fn load(&mut self, map: Vec<u8>) -> (r: Result<(), MapError>)
        ensures
            match r {
                Ok(()) => decode_result(map@) == Ok::<HeightMapView, MapError>(
                    final(self).height_map@,
                ),
                Err(e) => {
                    &&& decode_result(map@) == Err::<HeightMapView, MapError>(e)
                    &&& final(self).height_map@ == old(self).height_map@
                },
            },
            final(self).borders@ == old(self).borders@,
            final(self).hovered == old(self).hovered,
            final(self).updated == old(self).updated,
    {
        self.height_map.load(map)
    }

    /// Loads a buffer in the extended format, as `HeightMap::load_named`, and
    /// keeps the name ranges.
    pub fn load_named(&mut self, map: Vec<u8>) -> (r: Result<(), MapError>)
        ensures
            match r {
                Ok(()) => decode_named_result(map@) == Ok::<
                    (HeightMapView, Seq<(int, int)>),
                    MapError,
                >((final(self).height_map@, ranges_view(final(self).names@))),
                Err(e) => {
                    &&& decode_named_result(map@) == Err::<
                        (HeightMapView, Seq<(int, int)>),
                        MapError,
                    >(e)
                    &&& final(self).height_map@ == old(self).height_map@
                    &&& final(self).names@ == old(self).names@
                },
            },
            final(self).borders@ == old(self).borders@,
            final(self).hovered == old(self).hovered,
            final(self).updated == old(self).updated,
    {
        match self.height_map.load_named(map) {
            Ok(names) => {
                self.names = names;
                Ok(())
            },
            Err(e) => Err(e),
        }
    }

    /// The bytes of the `i`-th name of the loaded map file, read in place;
    /// `None` where there is no such name.
    pub fn map_name(&self, i: usize) -> (r: Option<&[u8]>)
        ensures
            match r {
                Some(s) => {
                    &&& i < self.names@.len()
                    &&& self.names@[i as int].0 <= self.names@[i as int].1
                        <= self.height_map@.map.len()
                    &&& s@ == self.height_map@.map.subrange(
                        self.names@[i as int].0 as int,
                        self.names@[i as int].1 as int,
                    )
                },
                None => !(i < self.names@.len() && self.names@[i as int].0
                    <= self.names@[i as int].1 <= self.height_map@.map.len()),
            },
    {
        if i < self.names.len() {
            self.height_map.bytes(self.names[i])
        } else {
            None
        }
    }

    /// Replaces the territories by the expansion of `rle` and marks the map
    /// updated; on failure nothing changes.
    pub fn apply_rle(&mut self, rle: &TerritoriesRLE) -> (r: Result<(), MapError>)
        ensures
            match r {
                Ok(()) => {
                    &&& from_rle_result(rle@) == Ok::<TerritoriesView, MapError>(
                        final(self).borders@,
                    )
                    &&& final(self).updated
                },
                Err(e) => {
                    &&& from_rle_result(rle@) == Err::<TerritoriesView, MapError>(e)
                    &&& final(self).borders@ == old(self).borders@
                    &&& final(self).updated == old(self).updated
                },
            },
            final(self).height_map@ == old(self).height_map@,
            final(self).hovered == old(self).hovered,
    {
        match Territories::from_rle(rle) {
            Ok(t) => {
                self.borders = t;
                self.updated = true;
                Ok(())
            },
            Err(e) => Err(e),
        }
    }

    /// The country of the hovered cell; `None` when it lies outside the grid.
    pub fn hovered_country(&self) -> (c: Option<CountryId>)
        ensures
            c == (if self.borders@.in_grid(self.hovered.0 as int, self.hovered.1 as int) {
                Some(self.borders@.at(self.hovered.0 as int, self.hovered.1 as int))
            } else {
                None
            }),
    {
        self.borders.country_id(self.hovered)
    }

    /// The name of the hovered cell's country; `"Water"` where it has none or
    /// the cell lies outside the grid.
    pub fn hovered_name(&self) -> (s: &str)
        ensures
            s@ == (if self.borders@.in_grid(self.hovered.0 as int, self.hovered.1 as int) {
                self.borders@.name_of(self.borders@.at(self.hovered.0 as int, self.hovered.1 as int))
            } else {
                "Water"@
            }),
    {
        match self.borders.country_id(self.hovered) {
            Some(c) => self.borders.get_name(c),
            None => "Water",
        }
    }
}

} // verus!

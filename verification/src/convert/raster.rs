//! Converting pixels: which formats, and in which order the tiles go.

use crate::convert::error::{ConvertError, ConvertErrorView};
use crate::convert::formats;
use crate::convert::formats::{Format, Modality};
use crate::crs::Crs;
use crate::raster::profile;
use crate::raster::profile::{ceil_div, side, RasterProfile};
use vstd::arithmetic::power2;
use vstd::prelude::*;
use vstd::string::*;

verus! {

/// The format of a source of pixels.
pub open spec fn raster_source_of(path: Seq<char>) -> Result<Format, ConvertErrorView> {
    match formats::format_of_path(path) {
        Err(e) => Err(e),
        Ok(f) => match formats::modality_of(f) {
            Modality::Raster => Ok(f),
            Modality::Vector => Err(
                ConvertErrorView::InvalidArgument(
                    formats::label_of(f) + " is a vector format; use Source::open instead"@,
                ),
            ),
        },
    }
}

/// The format of a sink for pixels.
pub open spec fn raster_sink_of(path: Seq<char>) -> Result<Format, ConvertErrorView> {
    match formats::format_of_path(path) {
        Err(e) => Err(e),
        Ok(Format::GeoTiff) => Ok(Format::GeoTiff),
        Ok(f) => match formats::modality_of(f) {
            Modality::Vector => Err(
                ConvertErrorView::InvalidArgument(
                    formats::label_of(f) + " is a vector format; use Sink::create instead"@,
                ),
            ),
            Modality::Raster => Err(
                ConvertErrorView::UnsupportedFormat {
                    ext: formats::label_of(f),
                    path,
                    supported: ".tif, .tiff, .cog"@,
                },
            ),
        },
    }
}

/// The error for pixels that were to be reprojected.
pub open spec fn no_reproject() -> ConvertErrorView {
    ConvertErrorView::InvalidArgument(
        "raster reproject (--to-crs) is deferred to v0.2; convert without --to-crs for now"@,
    )
}

/// The format to read pixels from.
pub fn raster_source_format(path: &str) -> (r: Result<Format, ConvertError>)
    ensures
        match r {
            Ok(f) => raster_source_of(path@) == Ok::<Format, ConvertErrorView>(f),
            Err(e) => raster_source_of(path@) == Err::<Format, ConvertErrorView>(e@),
        },
{
    match Format::from_path(path) {
        Err(e) => Err(e),
        Ok(f) => match f.modality() {
            Modality::Raster => Ok(f),
            Modality::Vector => {
                let mut m: String = f.label().to_owned();
                m.append(" is a vector format; use Source::open instead");
                Err(ConvertError::InvalidArgument(m))
            },
        },
    }
}

/// The format to write pixels to.
pub fn raster_sink_format(path: &str) -> (r: Result<Format, ConvertError>)
    ensures
        match r {
            Ok(f) => raster_sink_of(path@) == Ok::<Format, ConvertErrorView>(f),
            Err(e) => raster_sink_of(path@) == Err::<Format, ConvertErrorView>(e@),
        },
{
    match Format::from_path(path) {
        Err(e) => Err(e),
        Ok(f) => match f {
            Format::GeoTiff => Ok(f),
            _ => match f.modality() {
                Modality::Vector => {
                    let mut m: String = f.label().to_owned();
                    m.append(" is a vector format; use Sink::create instead");
                    Err(ConvertError::InvalidArgument(m))
                },
                Modality::Raster => Err(
                    ConvertError::UnsupportedFormat {
                        ext: f.label().to_owned(),
                        path: path.to_owned(),
                        supported: ".tif, .tiff, .cog",
                    },
                ),
            },
        },
    }
}

/// How pixels are compressed.
#[derive(Debug, Clone, Copy, PartialEq, Eq, Structural)]
#[non_exhaustive]
pub enum Compression {
    Deflate,
}

/// How a sink writes pixels.
#[derive(Debug, Clone, Copy, PartialEq, Eq, Structural)]
pub struct RasterSinkOptions {
    pub compression: Compression,
    pub deflate_level: u32,
}

impl Default for RasterSinkOptions {
    fn default() -> (r: RasterSinkOptions)
        ensures
            r == (RasterSinkOptions { compression: Compression::Deflate, deflate_level: 6 }),
    {
        RasterSinkOptions { compression: Compression::Deflate, deflate_level: 6 }
    }
}

/// How to convert pixels.
#[derive(Debug)]
pub struct RasterConvertOptions {
    pub sink: RasterSinkOptions,
    /// Pixels are not reprojected: asking for it is an error.
    pub to_crs: Option<Crs>,
}

impl Default for RasterConvertOptions {
    fn default() -> (r: RasterConvertOptions)
        ensures
            r.sink == (RasterSinkOptions { compression: Compression::Deflate, deflate_level: 6 }),
            r.to_crs is None,
    {
        RasterConvertOptions { sink: RasterSinkOptions::default(), to_crs: None }
    }
}

/// Refuses to reproject pixels.
pub fn check_raster_options(opts: &RasterConvertOptions) -> (r: Result<(), ConvertError>)
    ensures
        match r {
            Ok(_) => opts.to_crs is None,
            Err(e) => opts.to_crs is Some && e@ == no_reproject(),
        },
{
    if opts.to_crs.is_some() {
        Err(
            ConvertError::invalid(
                "raster reproject (--to-crs) is deferred to v0.2; convert without --to-crs for now",
            ),
        )
    } else {
        Ok(())
    }
}

/// The counts of a conversion of pixels.
#[derive(Debug, Clone, Copy, PartialEq, Eq, Structural)]
pub struct RasterConvertStats {
    pub tiles: u64,
    pub levels: u8,
    pub output_bytes: u64,
}

// ---------------------------------------------------------------------------
// The order of the tiles
// ---------------------------------------------------------------------------
/// A tile: its level, column and row.
pub type TileIndex = (u8, u32, u32);

/// What a walk over tiles goes by.
#[derive(Debug, Clone, Copy, PartialEq, Eq, Structural)]
pub struct Grid {
    pub width: u32,
    pub height: u32,
    pub tile_width: u32,
    pub tile_height: u32,
    pub levels: u8,
}

/// The columns of tiles in a level.
pub open spec fn columns(g: Grid, level: nat) -> nat {
    profile::pieces(profile::level_extent(g.width, level), profile::tile_side(g.tile_width))
}

/// The rows of tiles in a level.
pub open spec fn rows(g: Grid, level: nat) -> nat {
    profile::pieces(profile::level_extent(g.height, level), profile::tile_side(g.tile_height))
}

/// The tiles from a place on, level by level, row by row, column by column.
pub open spec fn tiles_from(g: Grid, level: nat, y: nat, x: nat) -> Seq<(nat, nat, nat)>
    decreases g.levels - level, rows(g, level) - y, columns(g, level) - x,
{
    if level >= g.levels {
        Seq::empty()
    } else if y >= rows(g, level) {
        tiles_from(g, level + 1, 0, 0)
    } else if x >= columns(g, level) {
        tiles_from(g, level, y + 1, 0)
    } else {
        seq![(level, x, y)] + tiles_from(g, level, y, x + 1)
    }
}

/// All tiles, in the order in which they are converted.
pub open spec fn all_tiles(g: Grid) -> Seq<(nat, nat, nat)> {
    tiles_from(g, 0, 0, 0)
}

/// Whether a tile lies in the grid of its level.
pub open spec fn in_grid(g: Grid, t: (nat, nat, nat)) -> bool {
    t.0 < g.levels && t.1 < columns(g, t.0) && t.2 < rows(g, t.0)
}

/// Whether one tile comes before another: by level, then by row, then by column.
pub open spec fn earlier(a: (nat, nat, nat), b: (nat, nat, nat)) -> bool {
    a.0 < b.0 || (a.0 == b.0 && (a.2 < b.2 || (a.2 == b.2 && a.1 < b.1)))
}

proof fn lemma_tiles(g: Grid, level: nat, y: nat, x: nat)
    ensures
        forall|i: int|
            0 <= i < tiles_from(g, level, y, x).len() ==> in_grid(
                g,
                #[trigger] tiles_from(g, level, y, x)[i],
            ) && !earlier(tiles_from(g, level, y, x)[i], (level, x, y)),
        forall|i: int, j: int|
            0 <= i < j < tiles_from(g, level, y, x).len() ==> earlier(
                #[trigger] tiles_from(g, level, y, x)[i],
                #[trigger] tiles_from(g, level, y, x)[j],
            ),
        forall|t: (nat, nat, nat)|
            in_grid(g, t) && !earlier(t, (level, x, y)) ==> #[trigger] tiles_from(
                g,
                level,
                y,
                x,
            ).contains(t),
    decreases g.levels - level, rows(g, level) - y, columns(g, level) - x,
{
    let s = tiles_from(g, level, y, x);
    if level >= g.levels {
    } else if y >= rows(g, level) || x >= columns(g, level) {
        let (l, r) = if y >= rows(g, level) {
            (level + 1, 0nat)
        } else {
            (level, y + 1)
        };
        lemma_tiles(g, l, r, 0);
        let next = tiles_from(g, l, r, 0);
        assert(s == next);
        assert forall|i: int| 0 <= i < s.len() implies in_grid(g, #[trigger] s[i]) && !earlier(
            s[i],
            (level, x, y),
        ) by {
            assert(in_grid(g, next[i]) && !earlier(next[i], (l, 0, r)));
        }
        assert forall|i: int, j: int| 0 <= i < j < s.len() implies earlier(
            #[trigger] s[i],
            #[trigger] s[j],
        ) by {
            assert(earlier(next[i], next[j]));
        }
        assert forall|t: (nat, nat, nat)|
            in_grid(g, t) && !earlier(t, (level, x, y)) implies #[trigger] s.contains(t) by {
            assert(!earlier(t, (l, 0, r)));
            assert(next.contains(t));
        }
    } else {
        lemma_tiles(g, level, y, x + 1);
        let rest = tiles_from(g, level, y, x + 1);
        let first = (level, x, y);
        assert(s == seq![first] + rest);
        assert forall|i: int| 0 <= i < s.len() implies in_grid(g, #[trigger] s[i]) && !earlier(
            s[i],
            first,
        ) by {
            if i > 0 {
                assert(s[i] == rest[i - 1]);
            }
        }
        assert forall|i: int, j: int| 0 <= i < j < s.len() implies earlier(
            #[trigger] s[i],
            #[trigger] s[j],
        ) by {
            assert(s[j] == rest[j - 1]);
            if i > 0 {
                assert(s[i] == rest[i - 1]);
            }
        }
        assert forall|t: (nat, nat, nat)|
            in_grid(g, t) && !earlier(t, first) implies #[trigger] s.contains(t) by {
            if t == first {
                assert(s[0] == first);
            } else {
                assert(!earlier(t, (level, x + 1, y)));
                assert(rest.contains(t));
                let k = choose|k: int| 0 <= k < rest.len() && rest[k] == t;
                assert(s[k + 1] == t);
            }
        }
    }
}

/// The walk meets every tile of every level, none twice, level by level and row
/// by row.
pub proof fn law_walk_meets_every_tile_once(g: Grid)
    ensures
        forall|t: (nat, nat, nat)| #[trigger] all_tiles(g).contains(t) <==> in_grid(g, t),
        forall|i: int, j: int|
            0 <= i < j < all_tiles(g).len() ==> earlier(
                #[trigger] all_tiles(g)[i],
                #[trigger] all_tiles(g)[j],
            ),
{
    lemma_tiles(g, 0, 0, 0);
    assert forall|t: (nat, nat, nat)| #[trigger] all_tiles(g).contains(t) implies in_grid(
        g,
        t,
    ) by {
        let k = choose|k: int| 0 <= k < all_tiles(g).len() && all_tiles(g)[k] == t;
        assert(in_grid(g, all_tiles(g)[k]));
    }
}

/// A level has at least one tile.
proof fn lemma_grid_not_empty(g: Grid, level: nat)
    ensures
        columns(g, level) >= 1,
        rows(g, level) >= 1,
{
    profile::law_pieces_cover(
        profile::level_extent(g.width, level),
        profile::tile_side(g.tile_width),
    );
    profile::law_pieces_cover(
        profile::level_extent(g.height, level),
        profile::tile_side(g.tile_height),
    );
    assert(0 * profile::tile_side(g.tile_width) == 0);
    assert(0 * profile::tile_side(g.tile_height) == 0);
}

fn extent_at(full: u32, level: u8) -> (r: u32)
    requires
        level < 32,
    ensures
        r == profile::level_extent(full, level as nat),
        r >= 1,
{
    proof {
        vstd::bits::lemma_u32_shr_is_div(full, level as u32);
    }
    let n: u32 = full >> (level as u32);
    if n == 0 {
        1
    } else {
        n
    }
}

/// A walk over the tiles of a raster.
#[derive(Debug, Clone, Copy)]
pub struct TileWalk {
    grid: Grid,
    level: u8,
    x: u32,
    y: u32,
}

impl TileWalk {
    /// The grid that is walked.
    pub closed spec fn walked(&self) -> Grid {
        self.grid
    }

    /// The tiles that are left.
    pub closed spec fn left(&self) -> Seq<(nat, nat, nat)> {
        tiles_from(self.grid, self.level as nat, self.y as nat, self.x as nat)
    }

    /// The walk stands at a tile or is over.
    pub closed spec fn wf(&self) -> bool {
        &&& self.grid.levels <= 32
        &&& self.level <= self.grid.levels
        &&& self.level < self.grid.levels ==> self.x < columns(self.grid, self.level as nat)
            && self.y < rows(self.grid, self.level as nat)
    }

    /// A walk over the tiles of a raster; a raster without levels has one.
    pub fn new(profile: &RasterProfile) -> (r: TileWalk)
        requires
            profile.pyramid_levels <= 32,
        ensures
            r.wf(),
            r.left() == all_tiles(grid_of(*profile)),
    {
        let levels: u8 = if profile.pyramid_levels == 0 {
            1
        } else {
            profile.pyramid_levels
        };
        let grid = Grid {
            width: profile.width,
            height: profile.height,
            tile_width: profile.tile_size[0],
            tile_height: profile.tile_size[1],
            levels,
        };
        proof {
            lemma_grid_not_empty(grid, 0);
        }
        TileWalk { grid, level: 0, x: 0, y: 0 }
    }

    /// A walk over a raster that is a single tile.
    pub fn single() -> (r: TileWalk)
        ensures
            r.wf(),
            r.left() == seq![(0nat, 0nat, 0nat)],
    {
        let grid = Grid { width: 1, height: 1, tile_width: 1, tile_height: 1, levels: 1 };
        proof {
            power2::lemma2_to64();
            assert(columns(grid, 0) == 1 && rows(grid, 0) == 1);
            reveal_with_fuel(tiles_from, 5);
            assert(tiles_from(grid, 0, 0, 0) =~= seq![(0nat, 0nat, 0nat)]);
        }
        TileWalk { grid, level: 0, x: 0, y: 0 }
    }

    /// The next tile.
    pub fn next(&mut self) -> (r: Option<TileIndex>)
        requires
            old(self).wf(),
        ensures
            final(self).wf(),
            match r {
                None => old(self).left().len() == 0 && final(self).left().len() == 0,
                Some((level, x, y)) => old(self).left() == seq![
                    (level as nat, x as nat, y as nat),
                ] + final(self).left(),
            },
    {
        let g: Grid = self.grid;
        if self.level >= g.levels {
            return None;
        }
        let gx: u32 = ceil_div(extent_at(g.width, self.level), side(g.tile_width));
        let gy: u32 = ceil_div(extent_at(g.height, self.level), side(g.tile_height));
        let at: TileIndex = (self.level, self.x, self.y);
        if self.x + 1 < gx {
            self.x = self.x + 1;
        } else if self.y + 1 < gy {
            self.x = 0;
            self.y = self.y + 1;
        } else {
            self.x = 0;
            self.y = 0;
            self.level = self.level + 1;
            proof {
                lemma_grid_not_empty(g, self.level as nat);
            }
        }
        proof {
            reveal_with_fuel(tiles_from, 4);
        }
        Some(at)
    }
}

/// The grid of a raster.
pub open spec fn grid_of(p: RasterProfile) -> Grid {
    Grid {
        width: p.width,
        height: p.height,
        tile_width: p.tile_size@[0],
        tile_height: p.tile_size@[1],
        levels: profile::level_count(p),
    }
}

/// The walk over a raster meets exactly the tiles that the raster has.
pub proof fn law_walk_meets_the_tiles_of_the_raster(p: RasterProfile, t: (nat, nat, nat))
    ensures
        all_tiles(grid_of(p)).contains(t) <==> profile::has_tile(p, t.0, t.1, t.2),
{
    law_walk_meets_every_tile_once(grid_of(p));
}

/// The walk over the tiles of a source: a GeoTIFF by its grid, an image as one
/// tile.
pub fn walk_for(source: Format, profile: &RasterProfile) -> (r: TileWalk)
    requires
        profile.pyramid_levels <= 32,
    ensures
        r.wf(),
        r.left() == (if source == Format::GeoTiff {
            all_tiles(grid_of(*profile))
        } else {
            seq![(0nat, 0nat, 0nat)]
        }),
{
    match source {
        Format::GeoTiff => TileWalk::new(profile),
        _ => TileWalk::single(),
    }
}

/// Counts the tiles of a conversion.
#[derive(Debug, Clone, Copy, PartialEq, Eq, Structural)]
pub struct TileCount {
    pub tiles: u64,
    pub max_level: u8,
}

impl TileCount {
    pub fn new() -> (r: TileCount)
        ensures
            r == (TileCount { tiles: 0, max_level: 0 }),
    {
        TileCount { tiles: 0, max_level: 0 }
    }

    /// Counts one more tile.
    pub fn step(&mut self, level: u8)
        requires
            old(self).tiles < u64::MAX,
        ensures
            final(self).tiles == old(self).tiles + 1,
            final(self).max_level == (if level > old(self).max_level {
                level
            } else {
                old(self).max_level
            }),
    {
        self.tiles = self.tiles + 1;
        if level > self.max_level {
            self.max_level = level;
        }
    }

    /// The counts of the conversion.
    pub fn finish(self, output_bytes: u64) -> (r: RasterConvertStats)
        requires
            self.max_level < 255,
        ensures
            r.tiles == self.tiles,
            r.levels == self.max_level + 1,
            r.output_bytes == output_bytes,
    {
        RasterConvertStats { tiles: self.tiles, levels: self.max_level + 1, output_bytes }
    }
}

} // verus!

//! Which reader and which writer a path calls for.

use crate::convert::error::{ConvertError, ConvertErrorView};
use crate::convert::formats;
use crate::convert::formats::{Format, Modality};
use crate::filegdb::catalog::LayerInfo;
use vstd::prelude::*;
use vstd::string::*;

verus! {

/// The names of some layers, with a comma between them.
pub open spec fn joined_names(layers: Seq<LayerInfo>) -> Seq<char>
    decreases layers.len(),
{
    if layers.len() == 0 {
        Seq::empty()
    } else if layers.len() == 1 {
        layers[0].name@
    } else {
        joined_names(layers.drop_last()) + ", "@ + layers.last().name@
    }
}

/// The layer to read: the one asked for, or the only one.
pub open spec fn chosen_layer(hint: Option<Seq<char>>, layers: Seq<LayerInfo>) -> Result<
    Seq<char>,
    ConvertErrorView,
> {
    match hint {
        Some(name) => Ok(name),
        None => if layers.len() == 1 {
            Ok(layers[0].name@)
        } else {
            Err(
                ConvertErrorView::LayerAmbiguous {
                    count: layers.len(),
                    available: joined_names(layers),
                },
            )
        },
    }
}

/// The view of an optional string slice.
pub open spec fn hint_view(s: Option<&str>) -> Option<Seq<char>> {
    match s {
        None => None,
        Some(s) => Some(s@),
    }
}

fn list_names(layers: &Vec<LayerInfo>) -> (r: String)
    ensures
        r@ == joined_names(layers@),
{
    let mut out: String = String::new();
    let mut i: usize = 0;
    while i < layers.len()
        invariant
            i <= layers@.len(),
            out@ == joined_names(layers@.take(i as int)),
        decreases layers@.len() - i,
    {
        let ghost before = out@;
        if i > 0 {
            out.append(", ");
        }
        out.append(layers[i].name.as_str());
        proof {
            let t = layers@.take(i + 1);
            assert(t.drop_last() =~= layers@.take(i as int));
            assert(t.last() == layers@[i as int]);
            if i == 0 {
                assert(out@ =~= layers@[0].name@);
            }
        }
        i = i + 1;
    }
    proof {
        assert(layers@.take(i as int) =~= layers@);
    }
    out
}

/// The layer of a geodatabase to read: the one asked for, whether it is there or
/// not, or else the only one.
pub fn choose_layer(hint: Option<&str>, layers: &Vec<LayerInfo>) -> (r: Result<
    String,
    ConvertError,
>)
    ensures
        match r {
            Ok(s) => chosen_layer(hint_view(hint), layers@) == Ok::<Seq<char>, ConvertErrorView>(
                s@,
            ),
            Err(e) => chosen_layer(hint_view(hint), layers@) == Err::<
                Seq<char>,
                ConvertErrorView,
            >(e@),
        },
{
    match hint {
        Some(name) => Ok(name.to_owned()),
        None => {
            if layers.len() == 1 {
                Ok(layers[0].name.clone())
            } else {
                Err(
                    ConvertError::LayerAmbiguous {
                        count: layers.len(),
                        available: list_names(layers),
                    },
                )
            }
        },
    }
}

/// The format of a source of features.
pub open spec fn source_of(path: Seq<char>) -> Result<Format, ConvertErrorView> {
    match formats::format_of_path(path) {
        Err(e) => Err(e),
        Ok(f) => match formats::modality_of(f) {
            Modality::Vector => Ok(f),
            Modality::Raster => Err(
                ConvertErrorView::InvalidArgument("raster format; use RasterSource::open instead"@),
            ),
        },
    }
}

/// The format of a sink for features.
pub open spec fn sink_of(path: Seq<char>) -> Result<Format, ConvertErrorView> {
    match formats::format_of_path(path) {
        Err(e) => Err(e),
        Ok(Format::GeoParquet) => Ok(Format::GeoParquet),
        Ok(Format::GeoJson) => Ok(Format::GeoJson),
        Ok(other) => Err(
            ConvertErrorView::UnsupportedFormat {
                ext: formats::label_of(other),
                path,
                supported: ".parquet, .geojson (read also supports .gdb / .shp)"@,
            },
        ),
    }
}

/// The format to read features from.
pub fn source_format(path: &str) -> (r: Result<Format, ConvertError>)
    ensures
        match r {
            Ok(f) => source_of(path@) == Ok::<Format, ConvertErrorView>(f),
            Err(e) => source_of(path@) == Err::<Format, ConvertErrorView>(e@),
        },
{
    match Format::from_path(path) {
        Err(e) => Err(e),
        Ok(f) => match f.modality() {
            Modality::Vector => Ok(f),
            Modality::Raster => Err(
                ConvertError::invalid("raster format; use RasterSource::open instead"),
            ),
        },
    }
}

/// The format to write features to.
pub fn sink_format(path: &str) -> (r: Result<Format, ConvertError>)
    ensures
        match r {
            Ok(f) => sink_of(path@) == Ok::<Format, ConvertErrorView>(f),
            Err(e) => sink_of(path@) == Err::<Format, ConvertErrorView>(e@),
        },
{
    match Format::from_path(path) {
        Err(e) => Err(e),
        Ok(f) => match f {
            Format::GeoParquet => Ok(f),
            Format::GeoJson => Ok(f),
            _ => Err(
                ConvertError::UnsupportedFormat {
                    ext: f.label().to_owned(),
                    path: path.to_owned(),
                    supported: ".parquet, .geojson (read also supports .gdb / .shp)",
                },
            ),
        },
    }
}

/// How a sink writes.
#[derive(Debug, Clone, Copy, PartialEq, Eq, Structural)]
pub struct SinkOptions {
    /// Rows per group.
    pub batch_size: usize,
    /// Whether features are sorted along a Hilbert curve.
    pub hilbert_sort: bool,
    /// Whether columns with the bounding box are added.
    pub add_bbox_columns: bool,
    /// The memory that sorting may take, in bytes.
    pub hilbert_memory_budget_bytes: usize,
}

impl Default for SinkOptions {
    fn default() -> (r: SinkOptions)
        ensures
            r == (SinkOptions {
                batch_size: 10_000,
                hilbert_sort: false,
                add_bbox_columns: true,
                hilbert_memory_budget_bytes: 536_870_912,
            }),
    {
        SinkOptions {
            batch_size: 10_000,
            hilbert_sort: false,
            add_bbox_columns: true,
            hilbert_memory_budget_bytes: 536_870_912,
        }
    }
}

/// Whatever can be written can also be read.
pub proof fn law_sinks_are_sources(path: Seq<char>)
    ensures
        sink_of(path) is Ok ==> source_of(path) == sink_of(path),
{
}

} // verus!

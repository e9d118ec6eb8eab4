//! What a conversion does.
//!
//! A plan is made before anything is opened and settles only what can be settled
//! there. Whether the destination can be written is for the sink to say, once
//! the source is open.

use crate::convert::error::{ConvertError, ConvertErrorView};
use crate::convert::formats;
use crate::convert::formats::{Format, Modality};
use crate::convert::io;
use crate::convert::io::SinkOptions;
use crate::convert::raster;
use crate::crs::{Crs, CrsView};
use crate::schema::{Schema, SchemaView};
use vstd::prelude::*;
use vstd::string::*;

verus! {

/// How to convert.
#[derive(Debug)]
pub struct ConvertOptions {
    /// The layer of a geodatabase to read.
    pub layer: Option<String>,
    pub sink: SinkOptions,
    /// The reference system to bring every geometry into.
    pub to_crs: Option<Crs>,
}

impl Default for ConvertOptions {
    fn default() -> (r: ConvertOptions)
        ensures
            r.layer is None,
            r.sink == (SinkOptions {
                batch_size: 10_000,
                hilbert_sort: false,
                add_bbox_columns: true,
                hilbert_memory_budget_bytes: 536_870_912,
            }),
            r.to_crs is None,
    {
        ConvertOptions { layer: None, sink: SinkOptions::default(), to_crs: None }
    }
}

/// The counts of a conversion.
#[derive(Debug, Clone, Copy, PartialEq, Eq, Structural)]
pub struct ConvertStats {
    /// The features written; the tiles, where pixels were converted.
    pub features: u64,
    pub output_bytes: u64,
}

/// What a conversion does.
#[derive(Debug, Clone, Copy, PartialEq, Eq, Structural)]
pub enum Plan {
    /// Features are read from that format.
    Vector { source: Format },
    /// Tiles are read from that format.
    Raster { source: Format },
}

/// Whether the path is that of a format for features.
pub open spec fn names_features(path: Seq<char>) -> bool {
    formats::format_of_path(path) matches Ok(f) && formats::modality_of(f) == Modality::Vector
}

/// What converting one file to another does, or why it is refused before
/// anything is opened: pixels cannot become features, and pixels are not
/// reprojected.
pub open spec fn plan_of(src: Seq<char>, dst: Seq<char>, reproject: bool) -> Result<
    Plan,
    ConvertErrorView,
> {
    match formats::format_of_path(src) {
        Err(e) => Err(e),
        Ok(source) => match formats::modality_of(source) {
            Modality::Vector => Ok(Plan::Vector { source }),
            Modality::Raster => if names_features(dst) {
                Err(
                    ConvertErrorView::InvalidArgument(
                        "cross-modal conversion is not supported; vectorize the raster first"@,
                    ),
                )
            } else if reproject {
                Err(raster::no_reproject())
            } else {
                Ok(Plan::Raster { source })
            },
        },
    }
}

/// Decides what converting one file to another does.
pub fn plan(src: &str, dst: &str, opts: &ConvertOptions) -> (r: Result<Plan, ConvertError>)
    ensures
        match r {
            Ok(p) => plan_of(src@, dst@, opts.to_crs is Some) == Ok::<Plan, ConvertErrorView>(p),
            Err(e) => plan_of(src@, dst@, opts.to_crs is Some) == Err::<Plan, ConvertErrorView>(
                e@,
            ),
        },
{
    let source: Format = match Format::from_path(src) {
        Err(e) => return Err(e),
        Ok(f) => f,
    };
    match source.modality() {
        Modality::Vector => Ok(Plan::Vector { source }),
        Modality::Raster => {
            let to_features: bool = match Format::from_path(dst) {
                Err(_) => false,
                Ok(f) => matches!(f.modality(), Modality::Vector),
            };
            if to_features {
                return Err(
                    ConvertError::invalid(
                        "cross-modal conversion is not supported; vectorize the raster first",
                    ),
                );
            }
            if opts.to_crs.is_some() {
                return Err(
                    ConvertError::invalid(
                        "raster reproject (--to-crs) is deferred to v0.2; convert without --to-crs for now",
                    ),
                );
            }
            Ok(Plan::Raster { source })
        },
    }
}

/// The schema that is written: the one that was read, with the reference system
/// that was asked for.
pub open spec fn retargeted(s: SchemaView, to: Option<CrsView>) -> SchemaView {
    match to {
        None => s,
        Some(c) => SchemaView { crs: c, ..s },
    }
}

/// The view of an optional reference system.
pub open spec fn crs_view(c: Option<Crs>) -> Option<CrsView> {
    match c {
        None => None,
        Some(c) => Some(c@),
    }
}

/// Sets the reference system of a schema, where one is asked for.
pub fn maybe_retarget_crs(schema: Schema, to: &Option<Crs>) -> (r: Schema)
    ensures
        r@ == retargeted(schema@, crs_view(*to)),
{
    match to {
        None => schema,
        Some(c) => Schema { fields: schema.fields, geometry: schema.geometry, crs: c.clone() },
    }
}

/// A plan followed by a sink that takes the destination leads from features to
/// features and from pixels to pixels, and pixels keep their reference system.
pub proof fn law_plans_keep_the_modality(src: Seq<char>, dst: Seq<char>, reproject: bool)
    ensures
        match plan_of(src, dst, reproject) {
            Ok(Plan::Vector { source }) => formats::modality_of(source) == Modality::Vector && (
            io::sink_of(dst) matches Ok(sink) ==> formats::modality_of(sink) == Modality::Vector),
            Ok(Plan::Raster { source }) => formats::modality_of(source) == Modality::Raster
                && !reproject && !names_features(dst) && (raster::raster_sink_of(
                dst,
            ) matches Ok(sink) ==> formats::modality_of(sink) == Modality::Raster),
            Err(_) => true,
        },
{
}

/// Features are always read before their destination is judged: what the
/// destination is changes nothing in a plan for features.
pub proof fn law_features_are_read_first(
    src: Seq<char>,
    dst: Seq<char>,
    other: Seq<char>,
    reproject: bool,
)
    requires
        names_features(src),
    ensures
        plan_of(src, dst, reproject) is Ok,
        plan_of(src, dst, reproject) == plan_of(src, other, reproject),
{
}

} // verus!

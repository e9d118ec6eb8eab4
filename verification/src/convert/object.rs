//! Conversions to and from object stores: which way the data goes.
//!
//! | source | sink | way |
//! | --- | --- | --- |
//! | local | local | as any conversion |
//! | local | remote GeoParquet | upload |
//! | remote GeoParquet | local | download |
//! | remote GeoParquet | remote GeoParquet | copy |

use crate::convert::error::{ConvertError, ConvertErrorView};
use crate::convert::formats;
use crate::convert::formats::{Format, Modality};
use crate::convert::io::SinkOptions;
use crate::crs::Crs;
use vstd::prelude::*;
use vstd::string::*;

verus! {

/// How to convert to or from an object store.
#[derive(Debug)]
pub struct AsyncConvertOptions {
    /// The layer of a geodatabase to read.
    pub layer: Option<String>,
    pub sink: SinkOptions,
    /// The reference system to bring every geometry into.
    pub to_crs: Option<Crs>,
}

impl Default for AsyncConvertOptions {
    fn default() -> (r: AsyncConvertOptions)
        ensures
            r.layer is None,
            r.sink == (SinkOptions {
                batch_size: 10_000,
                hilbert_sort: false,
                add_bbox_columns: true,
                hilbert_memory_budget_bytes: 536_870_912,
            }),
            r.to_crs is None,
    {
        AsyncConvertOptions { layer: None, sink: SinkOptions::default(), to_crs: None }
    }
}

/// Where a dataset is.
#[derive(Debug)]
pub enum Place {
    /// At a path of the file system.
    Local(String),
    /// In an object store, with this extension.
    Remote(String),
}

/// A [`Place`] with its text as a sequence.
pub enum PlaceView {
    Local(Seq<char>),
    Remote(Seq<char>),
}

impl View for Place {
    type V = PlaceView;

    open spec fn view(&self) -> PlaceView {
        match self {
            Place::Local(p) => PlaceView::Local(p@),
            Place::Remote(e) => PlaceView::Remote(e@),
        }
    }
}

/// Which way the data goes.
#[derive(Debug, Clone, Copy, PartialEq, Eq, Structural)]
pub enum Way {
    LocalToLocal,
    LocalToRemote,
    RemoteToLocal,
    RemoteToRemote,
}

/// The format of the dataset at a place.
pub open spec fn format_at(p: PlaceView) -> Result<Format, ConvertErrorView> {
    match p {
        PlaceView::Local(path) => formats::format_of_path(path),
        PlaceView::Remote(ext) => formats::format_of_extension(ext),
    }
}

/// The error for a remote dataset that is not GeoParquet.
pub open spec fn not_parquet(side: Seq<char>, f: Format) -> ConvertErrorView {
    ConvertErrorView::InvalidArgument(
        "async ObjectStore "@ + side + " must be .parquet (got ."@ + formats::label_of(f) + ")"@,
    )
}

/// Which way a conversion goes, or why it is refused: only features, and only
/// GeoParquet where a side is remote.
pub open spec fn way_of(src: PlaceView, dst: PlaceView) -> Result<Way, ConvertErrorView> {
    match (format_at(src), format_at(dst)) {
        (Err(e), _) => Err(e),
        (_, Err(e)) => Err(e),
        (Ok(s), Ok(d)) => if formats::modality_of(s) != Modality::Vector || formats::modality_of(d)
            != Modality::Vector {
            Err(
                ConvertErrorView::InvalidArgument(
                    "convert_async v0 is vector-only — raster async path (COG range-read) lands in Sprint 15b"@,
                ),
            )
        } else if src is Remote && s != Format::GeoParquet {
            Err(not_parquet("source"@, s))
        } else if dst is Remote && d != Format::GeoParquet {
            Err(not_parquet("sink"@, d))
        } else {
            Ok(
                match (src, dst) {
                    (PlaceView::Local(_), PlaceView::Local(_)) => Way::LocalToLocal,
                    (PlaceView::Local(_), PlaceView::Remote(_)) => Way::LocalToRemote,
                    (PlaceView::Remote(_), PlaceView::Local(_)) => Way::RemoteToLocal,
                    (PlaceView::Remote(_), PlaceView::Remote(_)) => Way::RemoteToRemote,
                },
            )
        },
    }
}

impl Place {
    /// The format of the dataset.
    pub fn format(&self) -> (r: Result<Format, ConvertError>)
        ensures
            match r {
                Ok(f) => format_at(self@) == Ok::<Format, ConvertErrorView>(f),
                Err(e) => format_at(self@) == Err::<Format, ConvertErrorView>(e@),
            },
    {
        match self {
            Place::Local(p) => Format::from_path(p.as_str()),
            Place::Remote(e) => Format::from_extension(e.as_str()),
        }
    }

    pub fn is_remote(&self) -> (r: bool)
        ensures
            r == (self@ is Remote),
    {
        matches!(self, Place::Remote(_))
    }
}

fn refuse(side: &str, f: Format) -> (r: ConvertError)
    ensures
        r@ == not_parquet(side@, f),
{
    let mut m: String = "async ObjectStore ".to_owned();
    m.append(side);
    m.append(" must be .parquet (got .");
    m.append(f.label());
    m.append(")");
    ConvertError::InvalidArgument(m)
}

/// Decides which way a conversion goes.
pub fn route(src: &Place, dst: &Place) -> (r: Result<Way, ConvertError>)
    ensures
        match r {
            Ok(w) => way_of(src@, dst@) == Ok::<Way, ConvertErrorView>(w),
            Err(e) => way_of(src@, dst@) == Err::<Way, ConvertErrorView>(e@),
        },
{
    let s: Format = match src.format() {
        Err(e) => return Err(e),
        Ok(f) => f,
    };
    let d: Format = match dst.format() {
        Err(e) => return Err(e),
        Ok(f) => f,
    };
    if s.modality() != Modality::Vector || d.modality() != Modality::Vector {
        return Err(
            ConvertError::invalid(
                "convert_async v0 is vector-only — raster async path (COG range-read) lands in Sprint 15b",
            ),
        );
    }
    if src.is_remote() && s != Format::GeoParquet {
        return Err(refuse("source", s));
    }
    if dst.is_remote() && d != Format::GeoParquet {
        return Err(refuse("sink", d));
    }
    Ok(
        if src.is_remote() {
            if dst.is_remote() {
                Way::RemoteToRemote
            } else {
                Way::RemoteToLocal
            }
        } else if dst.is_remote() {
            Way::LocalToRemote
        } else {
            Way::LocalToLocal
        },
    )
}

/// Whatever way is taken, a side that is remote is GeoParquet.
pub proof fn law_remote_sides_are_parquet(src: PlaceView, dst: PlaceView)
    ensures
        way_of(src, dst) is Ok && src is Remote ==> format_at(src) == Ok::<
            Format,
            ConvertErrorView,
        >(Format::GeoParquet),
        way_of(src, dst) is Ok && dst is Remote ==> format_at(dst) == Ok::<
            Format,
            ConvertErrorView,
        >(Format::GeoParquet),
{
}

} // verus!

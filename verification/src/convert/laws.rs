//! When a conversion is made, and which way it goes.

use crate::convert::error::ConvertErrorView;
use crate::convert::formats;
use crate::convert::formats::Format;
use crate::convert::formats_laws;
use crate::convert::inspect;
use crate::convert::io;
use crate::convert::object;
use crate::convert::object::{PlaceView, Way};
use crate::convert::pipe;
use crate::convert::pipe::StepView;
use crate::convert::plan;
use crate::convert::plan::Plan;
use crate::convert::raster;
use crate::crs::CrsView;
use crate::feature::FeatureView;
use crate::filegdb::catalog::LayerInfo;
use crate::schema::SchemaView;
use crate::value;
use crate::wkb;
use vstd::prelude::*;
use vstd::string::*;

verus! {

/// Whether a path is that of a picture.
pub open spec fn picture(path: Seq<char>) -> bool {
    formats::format_of_path(path) matches Ok(f) && (formats_laws::extensions(f).contains("tif"@)
        || formats_laws::extensions(f).contains("jpg"@) || formats_laws::extensions(f).contains(
        "png"@,
    ))
}

/// Whether a path is that of a file of any format.
pub open spec fn known(path: Seq<char>) -> bool {
    formats::format_of_path(path) is Ok
}

/// A conversion is planned exactly where the source is known, unless it is a
/// picture that is to be reprojected or to become features; a picture is converted
/// by its tiles and anything else by its features.
pub proof fn law_what_is_planned(src: Seq<char>, dst: Seq<char>, reproject: bool)
    ensures
        plan::plan_of(src, dst, reproject) is Ok <==> known(src) && !(picture(src) && (reproject || (
        known(dst) && !picture(dst)))),
        match plan::plan_of(src, dst, reproject) {
            Ok(Plan::Raster { source }) => picture(src) && formats::format_of_path(src) == Ok::<
                Format,
                ConvertErrorView,
            >(source),
            Ok(Plan::Vector { source }) => !picture(src) && formats::format_of_path(src) == Ok::<
                Format,
                ConvertErrorView,
            >(source),
            Err(_) => true,
        },
        !known(src) ==> plan::plan_of(src, dst, reproject) == Err::<Plan, ConvertErrorView>(
            formats::format_of_path(src)->Err_0,
        ),
{
    if let Ok(f) = formats::format_of_path(src) {
        formats_laws::law_pictures_hold_pixels(f);
    }
    if let Ok(f) = formats::format_of_path(dst) {
        formats_laws::law_pictures_hold_pixels(f);
    }
}

/// Pixels are read from pictures and from nothing else, and written to GeoTIFF
/// only; reports are made on anything else.
pub proof fn law_pixels(path: Seq<char>)
    ensures
        raster::raster_source_of(path) is Ok <==> picture(path),
        raster::raster_sink_of(path) is Ok <==> (formats::format_of_path(path) matches Ok(f)
            && formats_laws::extensions(f).contains("tif"@)),
        inspect::inspected_format(path) is Ok <==> known(path) && !picture(path),
        raster::raster_source_of(path) matches Ok(f) ==> formats::format_of_path(path) == Ok::<
            Format,
            ConvertErrorView,
        >(f),
        inspect::inspected_format(path) matches Ok(f) ==> formats::format_of_path(path) == Ok::<
            Format,
            ConvertErrorView,
        >(f),
{
    if let Ok(f) = formats::format_of_path(path) {
        formats_laws::law_pictures_hold_pixels(f);
        formats_laws::lemma_extensions_differ();
        assert(formats_laws::extensions(Format::GeoTiff).contains("tif"@));
    }
}

/// Which way the data goes is told by which sides are remote.
pub proof fn law_ways(src: PlaceView, dst: PlaceView)
    ensures
        way(src, dst) == match (src is Remote, dst is Remote) {
            (false, false) => Some(Way::LocalToLocal),
            (false, true) => Some(Way::LocalToRemote),
            (true, false) => Some(Way::RemoteToLocal),
            (true, true) => Some(Way::RemoteToRemote),
        } || object::way_of(src, dst) is Err,
        object::way_of(src, dst) is Ok <==> features_at(src) && features_at(dst),
{
    formats_laws::lemma_extensions_differ();
    assert(formats_laws::extensions(Format::GeoParquet).contains("parquet"@));
    if let Ok(f) = object::format_at(src) {
        formats_laws::law_pictures_hold_pixels(f);
    }
    if let Ok(f) = object::format_at(dst) {
        formats_laws::law_pictures_hold_pixels(f);
    }
}

/// The way that is taken, if one is.
pub open spec fn way(src: PlaceView, dst: PlaceView) -> Option<Way> {
    match object::way_of(src, dst) {
        Ok(w) => Some(w),
        Err(_) => None,
    }
}

/// Whether there are features at a place that can be carried: of any format where
/// it is local, GeoParquet where it is remote.
pub open spec fn features_at(p: PlaceView) -> bool {
    object::format_at(p) matches Ok(f) && !(formats_laws::extensions(f).contains("tif"@)
        || formats_laws::extensions(f).contains("jpg"@) || formats_laws::extensions(f).contains(
        "png"@,
    )) && (p is Remote ==> formats_laws::extensions(f).contains("parquet"@))
}

/// A feature is reprojected exactly where that is asked for and it has a
/// geometry; either way it is the feature that was read.
pub proof fn law_what_is_reprojected(f: FeatureView, reproject: bool)
    ensures
        pipe::step_of(f, reproject) == StepView::Reproject(f) <==> reproject && f.geometry is Some,
        pipe::step_of(f, reproject) == StepView::Write(f) <==> !reproject || f.geometry is None,
{
}

/// Only the reference system of a schema is replaced, and only by one that is
/// asked for.
pub proof fn law_only_the_reference_system_changes(s: SchemaView, to: Option<CrsView>)
    ensures
        plan::retargeted(s, to).fields == s.fields,
        plan::retargeted(s, to).geometry == s.geometry,
        to matches Some(c) ==> plan::retargeted(s, to).crs == c,
        to is None ==> plan::retargeted(s, to).crs == s.crs,
{
}

/// A layer that is asked for is chosen; otherwise one is chosen exactly where
/// there is just one.
pub proof fn law_chosen_layers(name: Seq<char>, layers: Seq<LayerInfo>)
    ensures
        io::chosen_layer(Some(name), layers) == Ok::<Seq<char>, ConvertErrorView>(name),
        io::chosen_layer(None, layers) is Ok <==> layers.len() == 1,
        io::chosen_layer(None, layers) matches Ok(s) ==> s == layers[0].name@,
        io::chosen_layer(None, layers) matches Err(e) ==> e is LayerAmbiguous,
{
}

/// A report on a layer says of each field what the schema says, in its order, and
/// of the geometry and the reference system likewise; kinds have the names that
/// they have elsewhere.
pub proof fn law_reports_say_what_schemas_say(
    name: Seq<char>,
    s: SchemaView,
    count: Option<i64>,
    i: int,
)
    ensures
        ({
            let r = inspect::layer_report(name, s, count);
            &&& r.name == name
            &&& r.feature_count == count
            &&& r.crs == s.crs
            &&& r.fields.len() == s.fields.len()
            &&& 0 <= i < s.fields.len() ==> {
                &&& r.fields[i].name == s.fields[i].name
                &&& r.fields[i].ty == value::type_text(s.fields[i].ty)
                &&& r.fields[i].nullable == s.fields[i].nullable
                &&& r.fields[i].width == s.fields[i].width
            }
            &&& r.geometry is Some <==> s.geometry is Some
            &&& s.geometry matches Some(g) ==> {
                &&& r.geometry->0.field_name == g.name
                &&& r.geometry->0.kind == wkb::kind_name(g.kind)
                &&& r.geometry->0.has_z == g.has_z
                &&& r.geometry->0.has_m == g.has_m
                &&& r.geometry->0.declared_extent == g.extent
            }
        }),
{
}

} // verus!

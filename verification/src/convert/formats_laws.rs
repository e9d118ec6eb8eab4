//! Which files are of which format, and how the formats of the command line and
//! of conversion agree.

use crate::cli::io as cli_io;
use crate::convert::error::ConvertErrorView;
use crate::convert::formats;
use crate::convert::formats::{Format, Modality};
use crate::convert::io;
use crate::paths_laws;
use crate::text;
use vstd::prelude::*;
use vstd::string::*;

verus! {

/// The extensions of a format, in small letters.
pub open spec fn extensions(f: Format) -> Set<Seq<char>> {
    match f {
        Format::FileGdb => set!["gdb"@],
        Format::Shapefile => set!["shp"@],
        Format::GeoParquet => set!["parquet"@],
        Format::GeoJson => set!["geojson"@, "json"@],
        Format::GeoTiff => set!["tif"@, "tiff"@, "cog"@],
        Format::Jpeg => set!["jpg"@, "jpeg"@],
        Format::Png => set!["png"@],
    }
}

pub proof fn lemma_extensions_differ()
    ensures
        forall|f: Format, g: Format, e: Seq<char>|
            #![trigger extensions(f).contains(e), extensions(g).contains(e)]
            extensions(f).contains(e) && extensions(g).contains(e) ==> f == g,
{
    reveal_strlit("gdb");
    reveal_strlit("shp");
    reveal_strlit("parquet");
    reveal_strlit("geojson");
    reveal_strlit("json");
    reveal_strlit("tif");
    reveal_strlit("tiff");
    reveal_strlit("cog");
    reveal_strlit("jpg");
    reveal_strlit("jpeg");
    reveal_strlit("png");
    assert("gdb"@[0] == 'g' && "shp"@[0] == 's' && "tif"@[0] == 't' && "cog"@[0] == 'c'
        && "jpg"@[0] == 'j' && "png"@[0] == 'p');
    assert("json"@[0] == 'j' && "tiff"@[0] == 't' && "jpeg"@[0] == 'j');
    assert("json"@[1] == 's' && "jpeg"@[1] == 'p');
    assert("parquet"@[0] == 'p' && "geojson"@[0] == 'g');
    assert("gdb"@.len() == 3 && "shp"@.len() == 3 && "tif"@.len() == 3 && "cog"@.len() == 3
        && "jpg"@.len() == 3 && "png"@.len() == 3);
    assert("json"@.len() == 4 && "tiff"@.len() == 4 && "jpeg"@.len() == 4);
    assert("parquet"@.len() == 7 && "geojson"@.len() == 7);
}

/// An extension stands for the format that has it, in large letters or small.
pub proof fn law_extensions_of_formats(ext: Seq<char>, f: Format)
    ensures
        formats::format_of_extension(ext) == Ok::<Format, ConvertErrorView>(f) <==> extensions(
            f,
        ).contains(text::lower_all(ext)),
        formats::format_of_extension(ext) is Err <==> forall|g: Format|
            !(#[trigger] extensions(g)).contains(text::lower_all(ext)),
{
    lemma_extensions_differ();
    let e = text::lower_all(ext);
    if let Some(g) = formats::known_extension(e) {
        assert(extensions(g).contains(e));
    }
}

/// A file is of the format that has the extension of its name.
pub proof fn law_format_of_a_file(dir: Seq<char>, stem: Seq<char>, ext: Seq<char>, f: Format)
    requires
        paths_laws::directory(dir),
        stem.len() > 0,
        !ext.contains('.'),
        paths_laws::file_name(stem + seq!['.'] + ext),
    ensures
        formats::format_of_path(dir + (stem + seq!['.'] + ext)) == Ok::<Format, ConvertErrorView>(f)
            <==> extensions(f).contains(text::lower_all(ext)),
{
    paths_laws::law_extension_behind_the_last_dot(dir, stem, ext);
    law_extensions_of_formats(ext, f);
}

/// A file without an extension is of no format.
pub proof fn law_no_format_without_an_extension(dir: Seq<char>, name: Seq<char>)
    requires
        paths_laws::directory(dir),
        paths_laws::file_name(name),
        !name.skip(1).contains('.'),
    ensures
        formats::format_of_path(dir + name) == Err::<Format, ConvertErrorView>(
            ConvertErrorView::UnknownFormat(dir + name),
        ),
{
    paths_laws::law_no_extension_without_a_dot(dir, name);
}

/// No two formats have the same name.
pub proof fn law_names_differ(f: Format, g: Format)
    ensures
        formats::label_of(f) == formats::label_of(g) ==> f == g,
        formats::label_of(f).len() > 0,
{
    reveal_strlit("filegdb");
    reveal_strlit("shapefile");
    reveal_strlit("geoparquet");
    reveal_strlit("geojson");
    reveal_strlit("geotiff");
    reveal_strlit("jpeg");
    reveal_strlit("png");
    assert("filegdb"@.len() == 7 && "geojson"@.len() == 7 && "geotiff"@.len() == 7);
    assert("shapefile"@.len() == 9 && "geoparquet"@.len() == 10 && "jpeg"@.len() == 4
        && "png"@.len() == 3);
    assert("filegdb"@[0] == 'f' && "geojson"@[0] == 'g' && "geotiff"@[0] == 'g');
    assert("geojson"@[3] == 'j' && "geotiff"@[3] == 't');
}

/// A format of pictures holds pixels, and every other format holds features.
pub proof fn law_pictures_hold_pixels(f: Format)
    ensures
        formats::modality_of(f) == Modality::Raster <==> extensions(f).contains("tif"@)
            || extensions(f).contains("jpg"@) || extensions(f).contains("png"@),
{
    lemma_extensions_differ();
    assert(extensions(Format::GeoTiff).contains("tif"@));
    assert(extensions(Format::Jpeg).contains("jpg"@));
    assert(extensions(Format::Png).contains("png"@));
}

/// The command line and conversion tell the formats of features alike.
pub proof fn law_command_line_agrees(path: Seq<char>)
    ensures
        match cli_io::format_of(path) {
            Ok(f) => io::source_of(path) matches Ok(g) && cli_io::label_of(f)
                == formats::label_of(g),
            Err(_) => io::source_of(path) is Err,
        },
        match cli_io::output_of(path) {
            Ok(f) => io::sink_of(path) matches Ok(g) && cli_io::label_of(f) == formats::label_of(g),
            Err(_) => io::sink_of(path) is Err,
        },
        cli_io::inspected_of(path) matches Ok(f) ==> cli_io::format_of(path) == Ok::<
            cli_io::Format,
            Seq<char>,
        >(f),
        cli_io::inspected_of(path) is Err && cli_io::format_of(path) is Ok ==> cli_io::format_of(
            path,
        ) == Ok::<cli_io::Format, Seq<char>>(cli_io::Format::GeoJson),
        cli_io::format_of(path) == Ok::<cli_io::Format, Seq<char>>(cli_io::Format::GeoJson)
            ==> cli_io::inspected_of(path) is Err,
{
}

/// Features are read from files of every format that holds them, and from no
/// other; they are written to GeoParquet and GeoJSON only.
pub proof fn law_what_is_read_and_written(path: Seq<char>, f: Format)
    requires
        formats::format_of_path(path) == Ok::<Format, ConvertErrorView>(f),
    ensures
        io::source_of(path) is Ok <==> !(extensions(f).contains("tif"@) || extensions(f).contains(
            "jpg"@,
        ) || extensions(f).contains("png"@)),
        io::sink_of(path) is Ok <==> extensions(f).contains("parquet"@) || extensions(f).contains(
            "geojson"@,
        ),
        io::source_of(path) matches Ok(g) ==> g == f,
        io::sink_of(path) matches Ok(g) ==> g == f,
{
    law_pictures_hold_pixels(f);
    lemma_extensions_differ();
    assert(extensions(Format::GeoParquet).contains("parquet"@));
    assert(extensions(Format::GeoJson).contains("geojson"@));
}

} // verus!

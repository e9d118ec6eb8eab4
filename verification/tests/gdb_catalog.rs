//! The catalog and the mapping of fields and kinds.

use geonative::filegdb::catalog::{is_system_table_name, physical_filename_for_fid, LayerInfo};
use geonative::filegdb::dataset::{field_type_to_value_type, layer_geometry_type};
use geonative::filegdb::table::{FieldTypeCode, LayerFlags};
use geonative::geometry::GeometryType;

#[test]
fn filename_formatting() {
    assert_eq!(physical_filename_for_fid(1), "a00000001.gdbtable");
    assert_eq!(physical_filename_for_fid(9), "a00000009.gdbtable");
    assert_eq!(physical_filename_for_fid(37), "a00000025.gdbtable");
    assert_eq!(physical_filename_for_fid(0xABCDEF), "a00abcdef.gdbtable");
}

#[test]
fn system_table_filter() {
    assert!(is_system_table_name("GDB_SystemCatalog"));
    assert!(is_system_table_name("GDB_Items"));
    assert!(is_system_table_name("GDB_DBTune"));
    assert!(!is_system_table_name("FOI_LINE"));
    assert!(!is_system_table_name("RoadCentreline"));
    assert!(!is_system_table_name("")); // empty isn't system, but caller skips empties
}

#[test]
fn layer_info_paths() {
    let li = LayerInfo {
        name: "FOI_LINE".into(),
        fid: 9,
        physical_filename: "a00000009.gdbtable".into(),
    };
    let dir = "/data/My.gdb";
    assert_eq!(li.table_path(dir), "/data/My.gdb/a00000009.gdbtable");
    assert_eq!(li.tablx_path(dir), "/data/My.gdb/a00000009.gdbtablx");
}

#[test]
fn layer_geometry_type_mapping() {
    let mut f = LayerFlags(0);
    f.0 = 1;
    assert_eq!(layer_geometry_type(&f), GeometryType::Point);
    f.0 = 2;
    assert_eq!(layer_geometry_type(&f), GeometryType::MultiPoint);
    f.0 = 3;
    assert_eq!(layer_geometry_type(&f), GeometryType::MultiLineString);
    f.0 = 4;
    assert_eq!(layer_geometry_type(&f), GeometryType::MultiPolygon);
}

#[test]
fn field_type_mapping_handles_all_attribute_types() {
    for t in [
        FieldTypeCode::Int16,
        FieldTypeCode::Int32,
        FieldTypeCode::Int64,
        FieldTypeCode::Float32,
        FieldTypeCode::Float64,
        FieldTypeCode::String,
        FieldTypeCode::DateTime,
        FieldTypeCode::DateOnly,
        FieldTypeCode::TimeOnly,
        FieldTypeCode::DateTimeWithOffset,
        FieldTypeCode::Binary,
        FieldTypeCode::Guid,
        FieldTypeCode::GlobalId,
        FieldTypeCode::Xml,
    ] {
        field_type_to_value_type(t).unwrap_or_else(|_| panic!("{t:?} should map"));
    }
    assert!(field_type_to_value_type(FieldTypeCode::ObjectId).is_err());
    assert!(field_type_to_value_type(FieldTypeCode::Geometry).is_err());
    assert!(field_type_to_value_type(FieldTypeCode::Raster).is_err());
}

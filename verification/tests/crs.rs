//! Reference systems and their codes.

use geonative::crs::Crs;

#[test]
fn epsg_code_from_epsg_variant() {
    assert_eq!(Crs::Epsg(4326).epsg_code(), Some(4326));
    assert_eq!(Crs::Epsg(7844).epsg_code(), Some(7844));
}

#[test]
fn epsg_code_from_wkt_authority_clause() {
    let wkt = r#"GEOGCS["WGS 84",DATUM["WGS_1984",SPHEROID["WGS 84",6378137,298.257223563,AUTHORITY["EPSG","7030"]],AUTHORITY["EPSG","6326"]],PRIMEM["Greenwich",0,AUTHORITY["EPSG","8901"]],UNIT["degree",0.0174532925199433,AUTHORITY["EPSG","9122"]],AUTHORITY["EPSG","4326"]]"#;
    assert_eq!(Crs::Wkt(wkt.into()).epsg_code(), Some(4326));
}

#[test]
fn epsg_code_from_wkt2_id_clause() {
    let wkt = r#"GEOGCRS["GDA2020",DATUM["GDA2020"],PRIMEM["Greenwich",0],ID["EPSG",7844]]"#;
    assert_eq!(Crs::Wkt(wkt.into()).epsg_code(), Some(7844));
}

#[test]
fn epsg_code_none_for_unknown_or_projjson() {
    assert_eq!(Crs::Unknown.epsg_code(), None);
    assert_eq!(Crs::Projjson("{}".into()).epsg_code(), None);
    // WKT without AUTHORITY clause and an unrecognized name
    assert_eq!(Crs::Wkt("LOCAL_CS[\"custom\"]".into()).epsg_code(), None);
}

#[test]
fn epsg_code_from_wkt_name_when_no_authority() {
    // The exact WKT we get from VicMap's FileGDB — no AUTHORITY, just the name.
    let wkt = r#"GEOGCS["GDA2020",DATUM["GDA2020",SPHEROID["GRS_1980",6378137.0,298.257222101]],PRIMEM["Greenwich",0.0],UNIT["Degree",0.0174532925199433]]"#;
    assert_eq!(Crs::Wkt(wkt.into()).epsg_code(), Some(7844));

    // WGS84 variant ESRI sometimes emits with underscores.
    let wkt = r#"GEOGCS["GCS_WGS_1984",DATUM["D_WGS_1984",SPHEROID["WGS_1984",6378137.0,298.257223563]],PRIMEM["Greenwich",0.0],UNIT["Degree",0.0174532925199433]]"#;
    assert_eq!(Crs::Wkt(wkt.into()).epsg_code(), Some(4326));

    // GDA94
    let wkt = r#"GEOGCS["GCS_GDA_1994",DATUM["D_GDA_1994",SPHEROID["GRS_1980",6378137.0,298.257222101]],PRIMEM["Greenwich",0.0],UNIT["Degree",0.0174532925199433]]"#;
    assert_eq!(Crs::Wkt(wkt.into()).epsg_code(), Some(4283));
}

#[test]
fn authority_takes_precedence_over_name_lookup() {
    // If both are present, the trailing AUTHORITY wins (matches GDAL semantics).
    let wkt = r#"GEOGCS["GDA2020",DATUM["GDA2020"],AUTHORITY["EPSG","9999"]]"#;
    assert_eq!(Crs::Wkt(wkt.into()).epsg_code(), Some(9999));
}

#[test]
fn projjson_minimal_form() {
    let s = Crs::Epsg(4326).to_projjson().unwrap();
    assert!(s.contains("\"authority\":\"EPSG\""));
    assert!(s.contains("\"code\":4326"));
    assert!(s.contains("$schema"));
}

#[test]
fn only_the_unknown_is_unknown() {
    assert!(Crs::Unknown.is_unknown());
    assert!(!Crs::Epsg(4326).is_unknown());
    assert_eq!(Crs::Unknown.epsg_code(), None);
    assert_eq!(Crs::Unknown.to_projjson(), None);
    assert_eq!(Crs::Projjson("{}".into()).epsg_code(), None);
}

#[test]
fn clauses_of_inner_nodes_do_not_count() {
    let wkt = r#"GEOGCS["GDA2020",DATUM["GDA2020",AUTHORITY["EPSG","1168"]]]"#;
    assert_eq!(Crs::Wkt(wkt.into()).epsg_code(), Some(7844));
    let wkt = r#"GEOGCRS["GDA2020",DATUM["GDA2020",ID["EPSG",1168]],UNIT["degree",1,ID["EPSG",9122]]]"#;
    assert_eq!(Crs::Wkt(wkt.into()).epsg_code(), Some(7844));
    let wkt = r#"GEOGCS["site",DATUM["d",AUTHORITY["EPSG","1168"]]]"#;
    assert_eq!(Crs::Wkt(wkt.into()).epsg_code(), None);
    // An inner clause behind the outer one changes nothing.
    let wkt = r#"GEOGCS["a",AUTHORITY["EPSG","4283"],UNIT["degree",1,AUTHORITY["EPSG","9122"]]]"#;
    assert_eq!(Crs::Wkt(wkt.into()).epsg_code(), Some(4283));
    let wkt = r#"GEOGCRS["a",AUTHORITY["EPSG","4283"],ID["EPSG",7844],DATUM["d",ID["EPSG",1168]]]"#;
    assert_eq!(Crs::Wkt(wkt.into()).epsg_code(), Some(7844));
    // Brackets inside a quoted name open no node.
    let wkt = r#"GEOGCS["x [y",DATUM["d"],AUTHORITY["EPSG","4326"]]"#;
    assert_eq!(Crs::Wkt(wkt.into()).epsg_code(), Some(4326));
}

#[test]
fn projjson_is_exact() {
    assert_eq!(
        Crs::Epsg(4326).to_projjson().unwrap(),
        r#"{"$schema":"https://proj.org/schemas/v0.7/projjson.schema.json","type":"GeographicCRS","id":{"authority":"EPSG","code":4326}}"#
    );
}

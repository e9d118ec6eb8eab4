//! Datasets of one layer.

use geonative::crs::Crs;
use geonative::dataset::{Dataset, Layer, LayerView, SingleLayerDataset};
use geonative::error::Error;
use geonative::feature::Feature;
use geonative::geometry::GeometryType;
use geonative::schema::{FieldDef, GeomField, Schema};
use geonative::value::{Value, ValueType};

/// A trivial in-memory Layer for trait testing.
struct TestLayer {
    name: String,
    schema: Schema,
    features: Vec<Feature>,
}

impl Layer for TestLayer {
    fn content(&self) -> LayerView {
        unreachable!()
    }
    fn name(&self) -> &str {
        &self.name
    }
    fn schema(&self) -> &Schema {
        &self.schema
    }
    fn feature_count(&self) -> Option<i64> {
        Some(self.features.len() as i64)
    }
    fn read(&self) -> Vec<Result<Feature, Error>> {
        self.features.iter().cloned().map(Ok).collect()
    }
}

fn make_layer() -> TestLayer {
    TestLayer {
        name: "roads".into(),
        schema: Schema::new(
            vec![FieldDef::new("id", ValueType::Int32, false)],
            Some(GeomField::new("geom", GeometryType::Point)),
            Crs::Unknown,
        ),
        features: vec![
            Feature::new(Some(1), None, vec![Value::Int32(1)]),
            Feature::new(Some(2), None, vec![Value::Int32(2)]),
        ],
    }
}

#[test]
fn single_layer_dataset_exposes_one_layer() {
    let ds = SingleLayerDataset::with_name(make_layer(), "default");
    assert_eq!(ds.layer_names(), vec!["default"]);
    let layer = ds.open_layer("default").unwrap();
    assert_eq!(layer.feature_count(), Some(2));
}

#[test]
fn single_layer_dataset_rejects_wrong_name() {
    let ds = SingleLayerDataset::new(make_layer());
    assert!(ds.open_layer("nope").is_err());
}

#[test]
fn layer_read_iterator_yields_features() {
    let layer = make_layer();
    let v: Vec<_> = layer.read().into_iter().collect::<Result<Vec<_>, _>>().unwrap();
    assert_eq!(v.len(), 2);
}

#[test]
fn dataset_is_object_safe() {
    // Compile-time check: Box<dyn Dataset> is valid.
    fn _take_dataset(_: Box<dyn Dataset>) {}
    let ds: Box<dyn Dataset> = Box::new(SingleLayerDataset::new(make_layer()));
    _take_dataset(ds);
}

#[test]
fn a_missing_layer_is_told_by_its_name() {
    let ds = SingleLayerDataset::with_name(make_layer(), "only");
    match ds.open_layer("roads") {
        Err(Error::LayerNotFound(n)) => assert_eq!(n, "roads"),
        _ => panic!("the layer is known by its name in the dataset alone"),
    }
    assert_eq!(ds.open_layer("only").unwrap().name(), "roads");
}

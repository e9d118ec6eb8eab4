//! Datasets and layers without regard to their format.
//!
//! A format that has no layers of its own is wrapped by
//! [`SingleLayerDataset`], which gives its one layer a name.

use crate::error::{Error, ErrorView};
use crate::feature::{Feature, FeatureView};
use crate::schema::{Schema, SchemaView};
use crate::text::same;
use vstd::prelude::*;
use vstd::string::*;

verus! {

/// What a layer holds.
#[verifier::ext_equal]
pub struct LayerView {
    pub name: Seq<char>,
    pub schema: SchemaView,
    pub feature_count: Option<i64>,
    pub rows: Seq<Result<FeatureView, ErrorView>>,
}

/// The view of a row.
pub open spec fn row_view(r: Result<Feature, Error>) -> Result<FeatureView, ErrorView> {
    match r {
        Ok(f) => Ok(f@),
        Err(e) => Err(e@),
    }
}

/// The views of a run of rows.
pub open spec fn rows_view(s: Seq<Result<Feature, Error>>) -> Seq<Result<FeatureView, ErrorView>> {
    Seq::new(s.len(), |i: int| row_view(s[i]))
}

/// A run of features that share one schema.
pub trait Layer {
    /// What the layer holds.
    spec fn content(&self) -> LayerView;

    /// The name of the layer.
    fn name(&self) -> (r: &str)
        ensures
            r@ == self.content().name,
    ;

    /// The schema of the features.
    fn schema(&self) -> (r: &Schema)
        ensures
            r@ == self.content().schema,
    ;

    /// The declared number of features, where the format states it.
    fn feature_count(&self) -> (r: Option<i64>)
        ensures
            r == self.content().feature_count,
    ;

    /// The features, from the first on.
    fn read(&self) -> (r: Vec<Result<Feature, Error>>)
        ensures
            rows_view(r@) == self.content().rows,
    ;
}

/// Whether one of the layers has that name.
pub open spec fn has_layer(layers: Seq<(Seq<char>, LayerView)>, name: Seq<char>) -> bool {
    exists|i: int| 0 <= i < layers.len() && (#[trigger] layers[i]).0 == name
}

/// A container of named layers.
pub trait Dataset {
    /// The layers by name, in a fixed order.
    spec fn layers(&self) -> Seq<(Seq<char>, LayerView)>;

    /// The names of the layers.
    fn layer_names(&self) -> (r: Vec<String>)
        ensures
            r@.len() == self.layers().len(),
            forall|i: int| 0 <= i < r@.len() ==> (#[trigger] r@[i])@ == self.layers()[i].0,
    ;

    /// Opens the layer of that name. That no layer has the name is one error and
    /// means nothing else; a layer that is there may still fail to open, for a
    /// reason of the format's own.
    fn open_layer<'a>(&'a self, name: &str) -> (r: Result<Box<dyn Layer + 'a>, Error>)
        ensures
            match r {
                Ok(l) => exists|i: int|
                    0 <= i < self.layers().len() && (#[trigger] self.layers()[i]).0 == name@
                        && self.layers()[i].1 == l.content(),
                Err(e) => if has_layer(self.layers(), name@) {
                    !(e@ is LayerNotFound)
                } else {
                    e@ == ErrorView::LayerNotFound(name@)
                },
            },
    ;
}

/// A dataset of one layer under a name of its own.
#[derive(Debug)]
pub struct SingleLayerDataset<L: Layer> {
    /// The layer.
    pub inner: std::sync::Arc<L>,
    /// The name under which it is found.
    pub name: String,
}

impl<L: Layer> SingleLayerDataset<L> {
    /// Wraps a layer under the name `default`.
    pub fn new(layer: L) -> (r: SingleLayerDataset<L>)
        ensures
            *r.inner == layer,
            r.name@ == "default"@,
    {
        SingleLayerDataset { inner: std::sync::Arc::new(layer), name: "default".to_owned() }
    }

    /// Wraps a layer under a name.
    pub fn with_name(layer: L, name: &str) -> (r: SingleLayerDataset<L>)
        ensures
            *r.inner == layer,
            r.name@ == name@,
    {
        SingleLayerDataset { inner: std::sync::Arc::new(layer), name: name.to_owned() }
    }
}

impl<L: Layer + 'static> Dataset for SingleLayerDataset<L> {
    open spec fn layers(&self) -> Seq<(Seq<char>, LayerView)> {
        seq![(self.name@, self.inner.content())]
    }

    fn layer_names(&self) -> (r: Vec<String>) {
        let mut v: Vec<String> = Vec::new();
        v.push(self.name.clone());
        v
    }

    fn open_layer<'a>(&'a self, name: &str) -> (r: Result<Box<dyn Layer + 'a>, Error>)
        ensures
            r is Ok == (name@ == self.name@),
    {
        if same(name, self.name.as_str()) {
            assert(self.layers()[0].0 == name@);
            Ok(Box::new(LayerRef(&*self.inner)))
        } else {
            Err(Error::LayerNotFound(name.to_owned()))
        }
    }
}

/// A borrowed layer.
#[derive(Debug)]
pub struct LayerRef<'a, L: Layer>(pub &'a L);

impl<'a, L: Layer> Layer for LayerRef<'a, L> {
    open spec fn content(&self) -> LayerView {
        self.0.content()
    }

    fn name(&self) -> (r: &str) {
        self.0.name()
    }

    fn schema(&self) -> (r: &Schema) {
        self.0.schema()
    }

    fn feature_count(&self) -> (r: Option<i64>) {
        self.0.feature_count()
    }

    fn read(&self) -> (r: Vec<Result<Feature, Error>>) {
        self.0.read()
    }
}

} // verus!

//! A feature: one row with an optional identifier and an optional geometry.

use crate::geometry::{Geometry, GeometryView};
use crate::value;
use crate::value::{Value, ValueView};
use vstd::prelude::*;

verus! {

/// One row.
#[derive(Debug, PartialEq)]
pub struct Feature {
    /// The identifier; `None` where the format has no stable one.
    pub fid: Option<i64>,
    /// The geometry; `None` for a row of attributes only.
    pub geometry: Option<Geometry>,
    /// The attributes, in the order of the schema's fields.
    pub attributes: Vec<Value>,
}

/// A [`Feature`] as sequences.
#[verifier::ext_equal]
pub struct FeatureView {
    pub fid: Option<i64>,
    pub geometry: Option<GeometryView>,
    pub attributes: Seq<ValueView>,
}

/// The view of an optional geometry.
pub open spec fn optional_view(g: Option<Geometry>) -> Option<GeometryView> {
    match g {
        None => None,
        Some(g) => Some(g@),
    }
}

impl View for Feature {
    type V = FeatureView;

    open spec fn view(&self) -> FeatureView {
        FeatureView {
            fid: self.fid,
            geometry: optional_view(self.geometry),
            attributes: value::values_view(self.attributes@),
        }
    }
}

impl Feature {
    pub fn new(fid: Option<i64>, geometry: Option<Geometry>, attributes: Vec<Value>) -> (r: Feature)
        ensures
            r == (Feature { fid, geometry, attributes }),
    {
        Feature { fid, geometry, attributes }
    }

    /// The attribute at `idx`, if there is one.
    pub fn attribute(&self, idx: usize) -> (r: Option<&Value>)
        ensures
            match r {
                Some(v) => idx < self.attributes@.len() && *v == self.attributes@[idx as int],
                None => idx >= self.attributes@.len(),
            },
    {
        if idx < self.attributes.len() {
            Some(&self.attributes[idx])
        } else {
            None
        }
    }
}

impl Clone for Feature {
    fn clone(&self) -> (r: Feature)
        ensures
            r@ == self@,
    {
        let mut attributes: Vec<Value> = Vec::new();
        let mut i: usize = 0;
        while i < self.attributes.len()
            invariant
                i <= self.attributes@.len(),
                attributes@.len() == i,
                forall|k: int| 0 <= k < i ==> (#[trigger] attributes@[k])@ == self.attributes@[k]@,
            decreases self.attributes@.len() - i,
        {
            attributes.push(self.attributes[i].clone());
            i = i + 1;
        }
        proof {
            assert(value::values_view(attributes@) =~= value::values_view(self.attributes@));
        }
        let geometry: Option<Geometry> = match &self.geometry {
            None => None,
            Some(g) => Some(g.clone()),
        };
        Feature { fid: self.fid, geometry, attributes }
    }
}

} // verus!

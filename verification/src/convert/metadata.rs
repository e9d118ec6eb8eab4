//! The sidecar file that describes a dataset.

use crate::convert::inspect::DatasetInspection;
use vstd::prelude::*;
use vstd::string::*;

verus! {

/// The version that a sidecar names as its generator's.
pub const VERSION: &'static str = "0.1.0";

/// What a sidecar holds.
#[derive(Debug)]
pub struct Sidecar {
    pub generator: &'static str,
    pub generator_version: &'static str,
    /// Changes only when the shape of the file does.
    pub spec_version: u32,
    pub inspection: DatasetInspection,
}

/// The path of the sidecar of a dataset.
pub fn default_sidecar_path(source: &str) -> (r: String)
    ensures
        r@ == source@ + ".geonative.json"@,
{
    source.to_owned().concat(".geonative.json")
}

/// Puts a report into a sidecar.
pub fn build(inspection: DatasetInspection) -> (r: Sidecar)
    ensures
        r.generator@ == "geonative-cli"@,
        r.generator_version == VERSION,
        r.spec_version == 1,
        r.inspection == inspection,
{
    Sidecar {
        generator: "geonative-cli",
        generator_version: VERSION,
        spec_version: 1,
        inspection,
    }
}

} // verus!

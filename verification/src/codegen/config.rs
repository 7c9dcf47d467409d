//! What a generator is told to do.

use crate::names::NameMap;
use std::path::PathBuf;
use vstd::prelude::*;

verus! {

/// A path of `std`.
#[verifier::external_type_specification]
#[verifier::external_body]
pub struct ExPathBuf(std::path::PathBuf);

/// The settings of a generator.
pub struct GeneratorConfig {
    /// Generate types that are written and read as CDR.
    pub generate_cdr: bool,
    /// Generate protobuf definitions.
    pub generate_protobuf: bool,
    /// Generate type information.
    pub generate_type_info: bool,
    /// Keep to what Humble has: no service events, placeholder type hashes.
    pub is_humble: bool,
    /// Where the generated files go.
    pub output_dir: PathBuf,
    /// The crate that has the standard messages. Types of packages that are not
    /// local are referred to in it.
    pub external_crate: Option<String>,
    /// The names of the local packages.
    pub local_packages: NameMap<()>,
    /// Where the definitions are exported for other generators.
    pub json_out: Option<PathBuf>,
    /// The packages for which no protobuf definitions are generated.
    pub protobuf_excluded_packages: NameMap<()>,
}

/// A generator of code from message, service and action definitions.
pub struct MessageGenerator {
    config: GeneratorConfig,
}

impl MessageGenerator {
    /// The settings.
    pub closed spec fn settings(&self) -> GeneratorConfig {
        self.config
    }

    /// A generator with the given settings.
    pub fn new(config: GeneratorConfig) -> (g: Self)
        ensures
            g.settings() == config,
    {
        MessageGenerator { config }
    }

    /// The settings.
    pub fn config(&self) -> (c: &GeneratorConfig)
        ensures
            *c == self.settings(),
    {
        &self.config
    }
}

} // verus!

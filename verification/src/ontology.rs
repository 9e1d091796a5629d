//! Vocabulary constants: every IRI namespace the library mints.
use vstd::prelude::*;

verus! {

/// Core vocabulary namespace.
pub const LOOM_NS: &'static str = "http://loom.dev/ns#";

/// Named-graph namespace: `loom:g/<artifact-class>` display names resolve here.
pub const GRAPH_NS: &'static str = "http://loom.dev/g/";

/// Token individuals: `token:<path>`.
pub const TOKEN_NS: &'static str = "http://loom.dev/token/";

/// Motion catalog entries: `motion:<name>`.
pub const MOTION_NS: &'static str = "http://loom.dev/motion/";

/// Component machines: `machine:<component>`.
pub const MACHINE_NS: &'static str = "http://loom.dev/machine/";

/// Reification rows: `row:<key>`.
pub const ROW_NS: &'static str = "http://loom.dev/row/";

/// Mode-contracts: `contract:<component>`.
pub const CONTRACT_NS: &'static str = "http://loom.dev/contract/";

/// Context objects (platforms, form factors, interaction classes): `ctx:<name>`.
pub const CONTEXT_NS: &'static str = "http://loom.dev/context/";

/// Run activities and entities minted by the provenance recorder.
pub const RUN_NS: &'static str = "http://loom.dev/run/";

/// PROV-O namespace.
pub const PROV_NS: &'static str = "http://www.w3.org/ns/prov#";

/// SHACL namespace.
pub const SHACL_NS: &'static str = "http://www.w3.org/ns/shacl#";

/// RDF namespace.
pub const RDF_NS: &'static str = "http://www.w3.org/1999/02/22-rdf-syntax-ns#";

/// XML Schema datatypes namespace.
pub const XSD_NS: &'static str = "http://www.w3.org/2001/XMLSchema#";

/// The artifact classes a bundle may declare.
pub const ARTIFACT_CLASSES: [&'static str; 5] = ["tokens", "machines", "reification", "motion", "mode-contracts"];

} // verus!

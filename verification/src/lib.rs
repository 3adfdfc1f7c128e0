//! Manifest validation, naming and reporting rules for batch artifact export.
//!
//! A manifest names converters and the artifacts that they export. The library checks a
//! manifest, names each output, fills in converter arguments, follows each job from its
//! first step to its report, and sums up a run; the program around it reads and writes the
//! files and runs the converters.
pub mod cli;
pub mod digest;
pub mod execute;
pub mod manifest;
pub mod naming;
pub mod paths;
pub mod plan;
pub mod report;
pub mod text;
pub mod validate;

pub use manifest::{
    Artifact, Converter, LoadedManifest, Manifest, DEFAULT_MANIFEST, REPORT_SCHEMA,
};
pub use naming::{normalize_stem, output_name};
pub use report::{
    ArtifactReport, ConverterDisclosure, RunOptions, RunReport, SandboxMode, validation_report,
};
pub use validate::{validate, SourceCheck};

//! Component link registry and build-configuration propagation for a local
//! development-environment manager.
//!
//! The library models which components of a multi-component application are
//! linked to local source builds, derives canonical build-output paths for
//! each component, combines them into build-tool configuration and
//! process-environment variables, and plans the propagation step that keeps
//! every linked project's build configuration consistent with the registry.

pub mod infer;
pub mod jsontext;
pub mod link;
pub mod paths;
pub mod registry;
pub mod persist;
pub mod presets;
pub mod propagate;
pub mod resolve;
pub mod sdk;
pub mod toolchain;

//! A client library for launching application bundles distributed as
//! container images: references of the form `kind/id/arch/branch`, the
//! INI-shaped image manifest, subordinate-id mappings, and the plan of the
//! sandbox root filesystem that an unprivileged launcher assembles.

pub mod argsfd;
pub mod error;
pub mod fstree;
pub mod idmap;
pub mod index;
pub mod install;
pub mod instance;
pub mod manifest;
pub mod mountplan;
pub mod util;
pub mod numfmt;
pub mod reference;
pub mod sandbox;
pub mod text;

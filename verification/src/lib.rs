//! Helpers to handle a Buildroot environment: its configuration presets and
//! package descriptors, the trees that hold them, and the commands that
//! build from them.

pub mod builder;
pub mod buildroot;
pub mod defconfig;
pub mod mason;
pub mod package;
pub mod paths;
pub mod pattern;
pub mod text;

pub use buildroot::{Buildroot, BuildrootExplorer, Error, TreeSnapshot, WalkEntry};

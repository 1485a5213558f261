//! A virtual-tree reconciler: it turns declarative descriptions of a UI tree
//! into the host operations that build, update and tear down a live tree.
pub mod host;
pub mod laws;
pub mod machine;
pub mod model;
pub mod monad;
pub mod sample;
pub mod vdom;
pub mod zip;

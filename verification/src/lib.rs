//! Static template composition: pages name a layout and fill its placeholder
//! markers, inline or from named fragments. The text substitution, the file
//! classification and the per-page resolution are verified.

pub mod emit;
pub mod laws;
pub mod markup;
pub mod page;
pub mod resolve;
pub mod store;
pub mod table;
pub mod text;

pub use resolve::Error;
pub use store::Files;

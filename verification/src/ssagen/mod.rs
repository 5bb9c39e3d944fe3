//! Lowering of the typed tree to a flat, three-address form.

pub mod label_gen;
pub mod llir;
